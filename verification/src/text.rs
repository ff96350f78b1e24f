//! Line and token scanning for the ownership file format.

use vstd::prelude::*;

verus! {

/// Characters that separate tokens within a line and that are trimmed
/// from the start of a line: space, tab and carriage return. This is
/// a deliberate choice: only ASCII whitespace separates, so a line led
/// by a Unicode space or a form feed is a content line whose first
/// token carries that character.
pub open spec fn is_space(c: char) -> bool {
    c == ' ' || c == '\t' || c == '\r'
}

/// Executable twin of `is_space`.
pub fn is_space_char(c: char) -> (r: bool)
    ensures
        r == is_space(c),
{
    c == ' ' || c == '\t' || c == '\r'
}

/// The pieces of `s` split on the separator `sep`: always at least one
/// piece, the separator stands in none of them, and joining the pieces
/// with `sep` gives `s` back.
pub open spec fn spec_split(s: Seq<char>, sep: char) -> Seq<Seq<char>>
    decreases s.len(),
{
    if s.len() == 0 {
        seq![Seq::<char>::empty()]
    } else if s[0] == sep {
        seq![Seq::<char>::empty()] + spec_split(s.drop_first(), sep)
    } else {
        let rest = spec_split(s.drop_first(), sep);
        seq![seq![s[0]] + rest[0]] + rest.skip(1)
    }
}

pub proof fn lemma_split_len(s: Seq<char>, sep: char)
    ensures
        spec_split(s, sep).len() >= 1,
    decreases s.len(),
{
    if s.len() == 0 {
    } else if s[0] == sep {
    } else {
        lemma_split_len(s.drop_first(), sep);
    }
}

/// If the first occurrence of `sep` in `s` is at position `e` (or `e`
/// is `s.len()` and there is none), the split is `s.take(e)` followed
/// by the split of everything after the separator.
pub proof fn lemma_split_at(s: Seq<char>, sep: char, e: int)
    requires
        0 <= e <= s.len(),
        forall|k: int| 0 <= k < e ==> s[k] != sep,
        e < s.len() ==> s[e] == sep,
    ensures
        e == s.len() ==> spec_split(s, sep) == seq![s],
        e < s.len() ==> spec_split(s, sep) == seq![s.take(e)] + spec_split(s.skip(e + 1), sep),
    decreases e,
{
    if e == 0 {
        if s.len() == 0 {
            assert(s =~= Seq::<char>::empty());
        } else {
            assert(s.take(0) =~= Seq::<char>::empty());
            assert(s.skip(1) =~= s.drop_first());
        }
    } else {
        let d = s.drop_first();
        lemma_split_len(d, sep);
        lemma_split_at(d, sep, e - 1);
        let rest = spec_split(d, sep);
        if e == s.len() {
            assert(rest == seq![d]);
            assert(seq![s[0]] + rest[0] =~= s);
            assert(rest.skip(1) =~= Seq::<Seq<char>>::empty());
            assert(spec_split(s, sep) =~= seq![s]);
        } else {
            assert(rest == seq![d.take(e - 1)] + spec_split(d.skip(e), sep));
            assert(rest[0] == d.take(e - 1));
            assert(seq![s[0]] + d.take(e - 1) =~= s.take(e));
            assert(rest.skip(1) =~= spec_split(d.skip(e), sep));
            assert(d.skip(e) =~= s.skip(e + 1));
            assert(spec_split(s, sep) =~= seq![s.take(e)] + spec_split(s.skip(e + 1), sep));
        }
    }
}

/// Split `s` on `sep`, as `spec_split` describes.
pub fn split_char(s: &str, sep: char) -> (r: Vec<String>)
    ensures
        r.deep_view() == spec_split(s@, sep),
        r.len() >= 1,
    decreases s@.len(),
{
    let n = s.unicode_len();
    let mut e: usize = 0;
    while e < n && s.get_char(e) != sep
        invariant
            0 <= e <= n,
            n == s@.len(),
            forall|k: int| 0 <= k < e ==> s@[k] != sep,
        decreases n - e,
    {
        e = e + 1;
    }
    proof {
        lemma_split_at(s@, sep, e as int);
    }
    if e == n {
        let mut r: Vec<String> = Vec::new();
        r.push(s.to_owned());
        proof {
            assert(r.deep_view() =~= seq![s@]);
        }
        r
    } else {
        let head = s.substring_char(0, e).to_owned();
        let ghost tail_view = spec_split(s@.skip(e as int + 1), sep);
        let mut r = split_char(s.substring_char(e + 1, n), sep);
        r.insert(0, head);
        proof {
            assert(head@ =~= s@.take(e as int));
            assert(r.deep_view() =~= seq![s@.take(e as int)] + tail_view);
        }
        r
    }
}

/// The tokens of a line: the maximal runs of non-separator characters,
/// in order; separators are dropped. Separators are the ASCII
/// whitespace of `is_space`, nothing wider.
pub open spec fn spec_tokens(s: Seq<char>) -> Seq<Seq<char>>
    decreases s.len(),
{
    if s.len() == 0 {
        Seq::<Seq<char>>::empty()
    } else if is_space(s[0]) {
        spec_tokens(s.drop_first())
    } else if s.len() > 1 && !is_space(s[1]) {
        let rest = spec_tokens(s.drop_first());
        seq![seq![s[0]] + rest[0]] + rest.skip(1)
    } else {
        seq![seq![s[0]]] + spec_tokens(s.drop_first())
    }
}

/// If `s` begins with a token that ends at position `e` (either the
/// first separator, or the end of `s`), the tokens of `s` are that
/// token followed by the tokens of the rest.
pub proof fn lemma_tokens_at(s: Seq<char>, e: int)
    requires
        0 < e <= s.len(),
        forall|k: int| 0 <= k < e ==> !is_space(s[k]),
        e < s.len() ==> is_space(s[e]),
    ensures
        spec_tokens(s) == seq![s.take(e)] + spec_tokens(s.skip(e)),
    decreases e,
{
    let d = s.drop_first();
    if e == 1 {
        assert(s.take(1) =~= seq![s[0]]);
        assert(s.skip(1) =~= d);
        if s.len() > 1 {
            assert(is_space(s[1]));
        }
        assert(spec_tokens(s) == seq![seq![s[0]]] + spec_tokens(d));
    } else {
        lemma_tokens_at(d, e - 1);
        let rest = spec_tokens(d);
        assert(rest == seq![d.take(e - 1)] + spec_tokens(d.skip(e - 1)));
        assert(rest[0] == d.take(e - 1));
        assert(seq![s[0]] + d.take(e - 1) =~= s.take(e));
        assert(rest.skip(1) =~= spec_tokens(d.skip(e - 1)));
        assert(d.skip(e - 1) =~= s.skip(e));
        assert(spec_tokens(s) =~= seq![s.take(e)] + spec_tokens(s.skip(e)));
    }
}

/// The tokens of a line, as `spec_tokens` describes.
pub fn tokens(s: &str) -> (r: Vec<String>)
    ensures
        r.deep_view() == spec_tokens(s@),
    decreases s@.len(),
{
    let n = s.unicode_len();
    if n == 0 {
        let r: Vec<String> = Vec::new();
        proof {
            assert(r.deep_view() =~= spec_tokens(s@));
        }
        r
    } else if is_space_char(s.get_char(0)) {
        let r = tokens(s.substring_char(1, n));
        proof {
            assert(s@.skip(1) =~= s@.drop_first());
        }
        r
    } else {
        let mut e: usize = 1;
        while e < n && !is_space_char(s.get_char(e))
            invariant
                1 <= e <= n,
                n == s@.len(),
                forall|k: int| 0 <= k < e ==> !is_space(s@[k]),
            decreases n - e,
        {
            e = e + 1;
        }
        proof {
            lemma_tokens_at(s@, e as int);
        }
        let head = s.substring_char(0, e).to_owned();
        let mut r = tokens(s.substring_char(e, n));
        r.insert(0, head);
        proof {
            assert(head@ =~= s@.take(e as int));
            assert(r.deep_view() =~= seq![s@.take(e as int)] + spec_tokens(s@.skip(e as int)));
        }
        r
    }
}

/// `s` with every leading separator character removed.
pub open spec fn spec_trim_start(s: Seq<char>) -> Seq<char>
    decreases s.len(),
{
    if s.len() > 0 && is_space(s[0]) {
        spec_trim_start(s.drop_first())
    } else {
        s
    }
}

/// Trim leading separator characters, as `spec_trim_start` describes.
pub fn trim_start<'a>(s: &'a str) -> (r: &'a str)
    ensures
        r@ == spec_trim_start(s@),
{
    let n = s.unicode_len();
    let mut i: usize = 0;
    proof {
        assert(s@.skip(0) =~= s@);
    }
    while i < n && is_space_char(s.get_char(i))
        invariant
            0 <= i <= n,
            n == s@.len(),
            spec_trim_start(s@) == spec_trim_start(s@.skip(i as int)),
        decreases n - i,
    {
        proof {
            assert(s@.skip(i as int).len() > 0);
            assert(s@.skip(i as int)[0] == s@[i as int]);
            assert(s@.skip(i as int).drop_first() =~= s@.skip(i as int + 1));
        }
        i = i + 1;
    }
    proof {
        if i < n {
            assert(s@.skip(i as int)[0] == s@[i as int]);
        }
        assert(spec_trim_start(s@.skip(i as int)) == s@.skip(i as int));
    }
    s.substring_char(i, n)
}

/// The lines of the input text: the pieces between newline characters,
/// except that text ending in a newline has no final empty line.
pub open spec fn spec_lines(text: Seq<char>) -> Seq<Seq<char>> {
    let pieces = spec_split(text, '\n');
    if pieces.last().len() == 0 {
        pieces.drop_last()
    } else {
        pieces
    }
}

/// Split the input into lines, as `spec_lines` describes.
pub fn split_lines(s: &str) -> (r: Vec<String>)
    ensures
        r.deep_view() == spec_lines(s@),
{
    let mut pieces = split_char(s, '\n');
    let last = pieces.len() - 1;
    proof {
        assert(pieces.deep_view()[last as int] == pieces@[last as int]@);
    }
    if pieces[last].as_str().unicode_len() == 0 {
        let ghost before = pieces.deep_view();
        pieces.pop();
        proof {
            assert(pieces.deep_view() =~= before.drop_last());
        }
    }
    pieces
}

} // verus!
