//! Translation of author-written path patterns into glob expressions.

use vstd::prelude::*;

verus! {

/// Whether the pattern is root-anchored: it begins with `/` and so is
/// matched only from the root of the tree the ownership file governs.
pub open spec fn is_anchored(p: Seq<char>) -> bool {
    p.len() > 0 && p[0] == '/'
}

/// The primary glob of a pattern: a non-anchored pattern with an
/// internal separator is prefixed with `**/` so that it matches at any
/// depth; any other pattern stands as written.
pub open spec fn base_glob(p: Seq<char>) -> Seq<char> {
    if !is_anchored(p) && p.contains('/') {
        seq!['*', '*', '/'] + p
    } else {
        p
    }
}

/// The subtree glob of a pattern: the primary glob with a recursive
/// wildcard appended, so that the pattern also owns everything nested
/// beneath a path of that name. A glob already ending in `/` gets
/// `**`; every other glob gets `/**`.
pub open spec fn subtree_glob(p: Seq<char>) -> Seq<char> {
    let b = base_glob(p);
    if b.len() > 0 && b.last() == '/' {
        b + seq!['*', '*']
    } else {
        b + seq!['/', '*', '*']
    }
}

/// The glob expressions a pattern translates to, in order; a path
/// matches the pattern when it matches any one of them.
pub open spec fn pattern_globs(p: Seq<char>) -> Seq<Seq<char>> {
    seq![base_glob(p), subtree_glob(p)]
}

/// Whether the character `c` occurs in `s`.
fn contains_char(s: &str, c: char) -> (r: bool)
    ensures
        r == s@.contains(c),
{
    let n = s.unicode_len();
    let mut i: usize = 0;
    while i < n
        invariant
            0 <= i <= n,
            n == s@.len(),
            forall|k: int| 0 <= k < i ==> s@[k] != c,
        decreases n - i,
    {
        if s.get_char(i) == c {
            proof {
                assert(s@.contains(c)) by {
                    assert(s@[i as int] == c);
                }
            }
            return true;
        }
        i = i + 1;
    }
    proof {
        assert(!s@.contains(c)) by {
            if s@.contains(c) {
                let k = choose|k: int| 0 <= k < s@.len() && s@[k] == c;
                assert(s@[k] != c);
            }
        }
    }
    false
}

/// Translate one author-written pattern into its glob expressions, as
/// `pattern_globs` describes: the primary glob first, the subtree glob
/// second.
pub fn pattern_to_glob(pattern: &str) -> (r: Vec<String>)
    ensures
        r.deep_view() == pattern_globs(pattern@),
        r.len() == 2,
{
    let n = pattern.unicode_len();
    let anchored = n > 0 && pattern.get_char(0) == '/';
    let base: String = if !anchored && contains_char(pattern, '/') {
        let mut b = String::from_str("**/");
        b.append(pattern);
        proof {
            reveal_strlit("**/");
            assert(b@ =~= base_glob(pattern@));
        }
        b
    } else {
        pattern.to_owned()
    };
    let bn = base.as_str().unicode_len();
    let mut sub = base.clone();
    if bn > 0 && base.as_str().get_char(bn - 1) == '/' {
        sub.append("**");
        proof {
            reveal_strlit("**");
            assert(sub@ =~= subtree_glob(pattern@));
        }
    } else {
        sub.append("/**");
        proof {
            reveal_strlit("/**");
            assert(sub@ =~= subtree_glob(pattern@));
        }
    }
    let mut r: Vec<String> = Vec::new();
    r.push(base);
    r.push(sub);
    proof {
        assert(r.deep_view() =~= pattern_globs(pattern@));
    }
    r
}

} // verus!
