//! The ownership table: the parsed, immutable rule list and its
//! matching query.

use vstd::prelude::*;

use crate::owner::{Owner, OwnerModel};
use crate::rule::{
    line_error, rule_line_ok, rule_matches, rule_of_line, ParseError, Rule, RuleModel,
};
use crate::text::{spec_lines, spec_trim_start, split_lines, trim_start};
use vstd::std_specs::cmp::PartialEqSpec;

verus! {

/// The content lines among the given lines: each line trimmed of
/// leading whitespace, with the lines that are then empty or begin
/// with `#` dropped. Only whole-line comments are recognised.
pub open spec fn content_lines_of(lines: Seq<Seq<char>>) -> Seq<Seq<char>>
    decreases lines.len(),
{
    if lines.len() == 0 {
        Seq::<Seq<char>>::empty()
    } else {
        let t = spec_trim_start(lines[0]);
        let rest = content_lines_of(lines.drop_first());
        if t.len() > 0 && t[0] != '#' {
            seq![t] + rest
        } else {
            rest
        }
    }
}

/// The content lines of the raw input text.
pub open spec fn content_lines(text: Seq<char>) -> Seq<Seq<char>> {
    content_lines_of(spec_lines(text))
}

/// Whether every content line of the input parses into a rule.
pub open spec fn all_lines_ok(text: Seq<char>) -> bool {
    forall|i: int|
        0 <= i < content_lines(text).len() ==> rule_line_ok(#[trigger] content_lines(text)[i])
}

/// The rules the input text denotes, one per content line, in order.
pub open spec fn rules_of_text(text: Seq<char>) -> Seq<RuleModel> {
    content_lines(text).map_values(|l: Seq<char>| rule_of_line(l))
}

proof fn lemma_content_lines_add(a: Seq<Seq<char>>, b: Seq<Seq<char>>)
    ensures
        content_lines_of(a + b) == content_lines_of(a) + content_lines_of(b),
    decreases a.len(),
{
    if a.len() == 0 {
        assert(a + b =~= b);
        assert(content_lines_of(a) + content_lines_of(b) =~= content_lines_of(b));
    } else {
        lemma_content_lines_add(a.drop_first(), b);
        assert((a + b).drop_first() =~= a.drop_first() + b);
        assert((a + b)[0] == a[0]);
        let t = spec_trim_start(a[0]);
        if t.len() > 0 && t[0] != '#' {
            assert(seq![t] + (content_lines_of(a.drop_first()) + content_lines_of(b)) =~= (
            seq![t] + content_lines_of(a.drop_first())) + content_lines_of(b));
        }
    }
}

/// The parsed, immutable representation of an ownership file: the
/// rules in file order, later rules overriding earlier ones.
#[derive(Debug)]
pub struct Codeowners {
    pub rules: Vec<Rule>,
}

impl View for Codeowners {
    type V = Seq<RuleModel>;

    open spec fn view(&self) -> Seq<RuleModel> {
        self.rules.deep_view()
    }
}

/// The owners of the last rule that accepts the path, if any rule
/// does.
pub open spec fn spec_table_matches(rules: Seq<RuleModel>, path: Seq<char>) -> Option<
    Seq<OwnerModel>,
>
    decreases rules.len(),
{
    if rules.len() == 0 {
        None
    } else if rule_matches(rules.last(), path) {
        Some(rules.last().owners)
    } else {
        spec_table_matches(rules.drop_last(), path)
    }
}

/// When some rule accepts the path, the table's answer is the owner
/// list of the last rule that does.
pub proof fn lemma_last_match_wins(rules: Seq<RuleModel>, path: Seq<char>, m: int)
    requires
        0 <= m < rules.len(),
        rule_matches(rules[m], path),
    ensures
        exists|k: int|
            {
                &&& m <= k < rules.len()
                &&& rule_matches(#[trigger] rules[k], path)
                &&& spec_table_matches(rules, path) == Some(rules[k].owners)
                &&& forall|l: int| k < l < rules.len() ==> !rule_matches(#[trigger] rules[l], path)
            },
    decreases rules.len(),
{
    if rule_matches(rules.last(), path) {
        let k = rules.len() - 1;
        assert(rules[k] == rules.last());
    } else {
        let d = rules.drop_last();
        assert(rules[m] == d[m]);
        lemma_last_match_wins(d, path, m);
        let k = choose|k: int|
            {
                &&& m <= k < d.len()
                &&& rule_matches(#[trigger] d[k], path)
                &&& spec_table_matches(d, path) == Some(d[k].owners)
                &&& forall|l: int| k < l < d.len() ==> !rule_matches(#[trigger] d[l], path)
            };
        assert(rules[k] == d[k]);
        assert(forall|l: int| k < l < rules.len() - 1 ==> rules[l] == d[l]);
        assert(rules[rules.len() - 1] == rules.last());
        assert(rule_matches(rules[k], path) && spec_table_matches(rules, path) == Some(
            rules[k].owners,
        ) && forall|l: int| k < l < rules.len() ==> !rule_matches(#[trigger] rules[l], path));
    }
}

/// Ownership precedence: when a path matches two rules, the later one
/// wins — the table's answer is the owner list of a matching rule no
/// earlier than the later of the two, and never of a rule that a still
/// later matching rule overrides.
pub proof fn lemma_ownership_precedence(rules: Seq<RuleModel>, path: Seq<char>, i: int, j: int)
    requires
        0 <= i < j < rules.len(),
        rule_matches(rules[i], path),
        rule_matches(rules[j], path),
    ensures
        exists|k: int|
            {
                &&& j <= k < rules.len()
                &&& rule_matches(#[trigger] rules[k], path)
                &&& spec_table_matches(rules, path) == Some(rules[k].owners)
            },
{
    lemma_last_match_wins(rules, path, j);
}

/// No match: when no rule accepts the path, the table answers nothing.
pub proof fn lemma_no_match(rules: Seq<RuleModel>, path: Seq<char>)
    requires
        forall|i: int| 0 <= i < rules.len() ==> !rule_matches(#[trigger] rules[i], path),
    ensures
        spec_table_matches(rules, path) is None,
    decreases rules.len(),
{
    if rules.len() == 0 {
    } else {
        assert(rules.last() == rules[rules.len() - 1]);
        let d = rules.drop_last();
        assert(forall|i: int| 0 <= i < d.len() ==> d[i] == rules[i]);
        lemma_no_match(d, path);
    }
}

impl Codeowners {
    /// Every rule of a well-formed table is well-formed.
    pub open spec fn wf(&self) -> bool {
        forall|i: int| 0 <= i < self.rules.len() ==> (#[trigger] self.rules[i]).wf()
    }

    /// Match the path against the rules, later rules first, and return
    /// the owner list of the highest-priority rule that accepts it, or
    /// nothing when no rule does. The query never fails and changes
    /// nothing.
    pub fn matches<'a>(&'a self, path: &str) -> (r: Option<&'a Vec<Owner>>)
        requires
            self.wf(),
        ensures
            r matches Some(owners) ==> spec_table_matches(self@, path@) == Some(
                owners.deep_view(),
            ),
            r is None ==> spec_table_matches(self@, path@) is None,
    {
        let mut i: usize = self.rules.len();
        proof {
            assert(self@.take(self.rules@.len() as int) =~= self@);
            assert(self@.len() == self.rules@.len());
        }
        while i > 0
            invariant
                self.wf(),
                i <= self.rules.len(),
                self@.len() == self.rules@.len(),
                spec_table_matches(self@, path@) == spec_table_matches(
                    self@.take(i as int),
                    path@,
                ),
            decreases i,
        {
            i = i - 1;
            proof {
                assert(self@[i as int] == self.rules[i as int]@);
            }
            let rule = &self.rules[i];
            if rule.matches(path) {
                proof {
                    let t = self@.take(i as int + 1);
                    assert(t.last() == self@[i as int]);
                    assert(spec_table_matches(t, path@) == Some(t.last().owners));
                }
                return Some(&self.rules[i].owners);
            }
            proof {
                let t = self@.take(i as int + 1);
                assert(t.last() == self@[i as int]);
                assert(t.drop_last() =~= self@.take(i as int));
                assert(spec_table_matches(t, path@) == spec_table_matches(
                    self@.take(i as int),
                    path@,
                ));
            }
        }
        proof {
            assert(self@.take(0) =~= Seq::<RuleModel>::empty());
        }
        None
    }
}

/// Parse the raw text of an ownership file: strip leading whitespace
/// per line, drop the lines that are then empty or begin with `#`, and
/// parse every remaining line into a rule, in order. The first failing
/// line aborts the whole parse — no partial table is ever returned.
pub fn parse(input: &str) -> (r: Result<Codeowners, ParseError>)
    ensures
        r is Ok <==> all_lines_ok(input@),
        r matches Ok(co) ==> co.wf() && co@ == rules_of_text(input@),
        r matches Err(e) ==> exists|i: int|
            {
                &&& 0 <= i < content_lines(input@).len()
                &&& !rule_line_ok(#[trigger] content_lines(input@)[i])
                &&& e@ == line_error(content_lines(input@)[i])
                &&& forall|j: int| 0 <= j < i ==> rule_line_ok(content_lines(input@)[j])
            },
{
    let lines = split_lines(input);
    let ghost lseq = spec_lines(input@);
    let ghost content = content_lines(input@);
    let mut rules: Vec<Rule> = Vec::new();
    let mut k: usize = 0;
    proof {
        assert(lseq.take(0) =~= Seq::<Seq<char>>::empty());
        assert(content_lines_of(lseq.take(0)).map_values(|l: Seq<char>| rule_of_line(l)) =~= Seq::<
            RuleModel,
        >::empty());
        assert(rules.deep_view() =~= Seq::<RuleModel>::empty());
    }
    while k < lines.len()
        invariant
            lines.deep_view() == lseq,
            lines@.len() == lseq.len(),
            lseq == spec_lines(input@),
            content == content_lines(input@),
            0 <= k <= lines.len(),
            rules.deep_view() == content_lines_of(lseq.take(k as int)).map_values(
                |l: Seq<char>| rule_of_line(l),
            ),
            forall|j: int|
                0 <= j < content_lines_of(lseq.take(k as int)).len() ==> rule_line_ok(
                    #[trigger] content_lines_of(lseq.take(k as int))[j],
                ),
            forall|j: int| 0 <= j < rules.len() ==> (#[trigger] rules[j]).wf(),
        decreases lines.len() - k,
    {
        proof {
            assert(lines.deep_view()[k as int] == lines@[k as int]@);
        }
        let line = trim_start(lines[k].as_str());
        let ghost tl = spec_trim_start(lseq[k as int]);
        let ghost done = content_lines_of(lseq.take(k as int));
        proof {
            assert(lseq.take(k as int + 1) =~= lseq.take(k as int) + seq![lseq[k as int]]);
            lemma_content_lines_add(lseq.take(k as int), seq![lseq[k as int]]);
            assert(seq![lseq[k as int]].drop_first() =~= Seq::<Seq<char>>::empty());
            assert(seq![lseq[k as int]][0] == lseq[k as int]);
            assert(content_lines_of(Seq::<Seq<char>>::empty()) =~= Seq::<Seq<char>>::empty());
        }
        let is_content = if line.unicode_len() == 0 {
            false
        } else {
            line.get_char(0) != '#'
        };
        proof {
            assert(is_content == (tl.len() > 0 && tl[0] != '#'));
            if is_content {
                assert(content_lines_of(seq![lseq[k as int]]) =~= seq![tl]);
                assert(content_lines_of(lseq.take(k as int + 1)) =~= done + seq![tl]);
            } else {
                assert(content_lines_of(seq![lseq[k as int]]) =~= Seq::<Seq<char>>::empty());
                assert(content_lines_of(lseq.take(k as int + 1)) =~= done);
            }
        }
        if is_content {
            match Rule::parse(line) {
                Ok(rule) => {
                    let ghost prev = rules.deep_view();
                    rules.push(rule);
                    proof {
                        assert(rules.deep_view() =~= prev.push(rule_of_line(tl)));
                        assert((done + seq![tl]).map_values(|l: Seq<char>| rule_of_line(l))
                            =~= done.map_values(|l: Seq<char>| rule_of_line(l)).push(
                            rule_of_line(tl),
                        ));
                    }
                },
                Err(e) => {
                    proof {
                        let i = done.len() as int;
                        assert(lseq =~= lseq.take(k as int) + lseq.skip(k as int));
                        lemma_content_lines_add(lseq.take(k as int), lseq.skip(k as int));
                        assert(content == done + content_lines_of(lseq.skip(k as int)));
                        assert(lseq.skip(k as int)[0] == lseq[k as int]);
                        assert(lseq.skip(k as int).drop_first() =~= lseq.skip(k as int + 1));
                        assert(content_lines_of(lseq.skip(k as int)) == seq![tl]
                            + content_lines_of(lseq.skip(k as int + 1)));
                        assert(content[i] == tl);
                        assert(!rule_line_ok(content[i]));
                        assert(forall|j: int| 0 <= j < i ==> content[j] == done[j]);
                        assert(forall|j: int|
                            0 <= j < i ==> rule_line_ok(#[trigger] content[j]));
                        assert(!all_lines_ok(input@));
                    }
                    return Err(e);
                },
            }
        }
        k = k + 1;
    }
    proof {
        assert(lseq.take(lines@.len() as int) =~= lseq);
        assert(rules.deep_view() == rules_of_text(input@));
        assert(all_lines_ok(input@));
    }
    Ok(Codeowners { rules })
}

impl PartialEq for Codeowners {
    /// Tables compare by their rules, in order; each rule by its
    /// pattern and owners.
    fn eq(&self, other: &Codeowners) -> (r: bool) {
        let req = self.rules.eq(&other.rules);
        proof {
            if req {
                assert forall|i: int| 0 <= i < self.rules@.len() implies self.rules.deep_view()[i]
                    == other.rules.deep_view()[i] by {
                    assert(self.rules[i].eq_spec(&other.rules[i]));
                }
                assert(self@ =~= other@);
            }
            if self@ == other@ {
                assert(self.rules.deep_view() == other.rules.deep_view());
                assert(self.rules@.len() == self.rules.deep_view().len());
                assert(other.rules@.len() == other.rules.deep_view().len());
                assert forall|i: int| 0 <= i < self.rules@.len() implies self.rules[i].eq_spec(
                    &other.rules[i],
                ) by {
                    assert(self.rules.deep_view()[i] == self.rules@[i]@);
                    assert(other.rules.deep_view()[i] == other.rules@[i]@);
                }
            }
        }
        req
    }
}

impl vstd::std_specs::cmp::PartialEqSpecImpl for Codeowners {
    open spec fn obeys_eq_spec() -> bool {
        true
    }

    open spec fn eq_spec(&self, other: &Codeowners) -> bool {
        self@ == other@
    }
}

} // verus!
