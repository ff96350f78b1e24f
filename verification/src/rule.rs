//! Rules: one parsed content line of the ownership file.

use vstd::prelude::*;

use crate::glob::{glob_matches, glob_syntax_ok, Matcher};
use crate::owner::{owner_of_token, Owner, OwnerModel};
use crate::pattern::{base_glob, pattern_globs, pattern_to_glob, subtree_glob};
use crate::text::{spec_tokens, tokens};
use vstd::std_specs::cmp::PartialEqSpec;

verus! {

/// The mathematical value of a parse failure.
#[verifier::ext_equal]
pub enum ParseErrorModel {
    /// A content line held a pattern but no owners; carries the line.
    MissingOwners { input: Seq<char> },
    /// A glob derived from a pattern was rejected by the glob grammar;
    /// carries the original pattern.
    PatternCompile { pattern: Seq<char> },
}

/// Why loading an ownership file failed. The first error aborts the
/// whole parse: no partial rule list is ever returned.
#[derive(Debug)]
pub enum ParseError {
    /// A content line held a pattern but no owners at all.
    MissingOwners { input: String },
    /// A glob expression derived from the pattern was rejected by the
    /// glob grammar.
    PatternCompile { pattern: String },
}

impl View for ParseError {
    type V = ParseErrorModel;

    open spec fn view(&self) -> ParseErrorModel {
        match self {
            ParseError::MissingOwners { input } => ParseErrorModel::MissingOwners { input: input@ },
            ParseError::PatternCompile { pattern } => ParseErrorModel::PatternCompile {
                pattern: pattern@,
            },
        }
    }
}

impl PartialEq for ParseError {
    /// Structural equality: the same kind with the same text.
    fn eq(&self, other: &ParseError) -> (r: bool) {
        match (self, other) {
            (
                ParseError::MissingOwners { input: a },
                ParseError::MissingOwners { input: b },
            ) => a.eq(b),
            (
                ParseError::PatternCompile { pattern: a },
                ParseError::PatternCompile { pattern: b },
            ) => a.eq(b),
            _ => false,
        }
    }
}

impl vstd::std_specs::cmp::PartialEqSpecImpl for ParseError {
    open spec fn obeys_eq_spec() -> bool {
        true
    }

    open spec fn eq_spec(&self, other: &ParseError) -> bool {
        self@ == other@
    }
}

/// Whether both glob expressions of a pattern compile.
pub open spec fn pattern_ok(p: Seq<char>) -> bool {
    glob_syntax_ok(base_glob(p)) && glob_syntax_ok(subtree_glob(p))
}

/// Whether one content line parses into a rule: it has at least two
/// tokens (a pattern and one or more owners), and the globs translated
/// from its pattern compile.
pub open spec fn rule_line_ok(line: Seq<char>) -> bool {
    spec_tokens(line).len() >= 2 && pattern_ok(spec_tokens(line)[0])
}

/// The error a failing content line produces.
pub open spec fn line_error(line: Seq<char>) -> ParseErrorModel {
    if spec_tokens(line).len() < 2 {
        ParseErrorModel::MissingOwners { input: line }
    } else {
        ParseErrorModel::PatternCompile { pattern: spec_tokens(line)[0] }
    }
}

/// The mathematical value of a rule: its pattern text and its owners.
/// The compiled matchers are derived from the pattern and are no part
/// of a rule's value.
#[verifier::ext_equal]
pub struct RuleModel {
    pub pattern: Seq<char>,
    pub owners: Seq<OwnerModel>,
}

/// The rule a content line denotes: the first token as the pattern,
/// every later token as an owner, in the order written, duplicates
/// kept.
pub open spec fn rule_of_line(line: Seq<char>) -> RuleModel {
    RuleModel {
        pattern: spec_tokens(line)[0],
        owners: spec_tokens(line).skip(1).map_values(|t: Seq<char>| owner_of_token(t)),
    }
}

/// Whether a rule accepts a path: some glob of its pattern matches.
pub open spec fn rule_matches(r: RuleModel, path: Seq<char>) -> bool {
    exists|i: int|
        0 <= i < pattern_globs(r.pattern).len() && glob_matches(
            #[trigger] pattern_globs(r.pattern)[i],
            path,
        )
}

/// One ownership rule: a pattern, its owners as written, and the glob
/// matchers compiled from the pattern.
#[derive(Debug)]
pub struct Rule {
    pub pattern: String,
    pub owners: Vec<Owner>,
    pub matchers: Vec<Matcher>,
}

impl View for Rule {
    type V = RuleModel;

    open spec fn view(&self) -> RuleModel {
        RuleModel { pattern: self.pattern@, owners: self.owners.deep_view() }
    }
}

impl DeepView for Rule {
    type V = RuleModel;

    open spec fn deep_view(&self) -> RuleModel {
        self@
    }
}

impl Rule {
    /// A well-formed rule has at least one owner, and its matchers are
    /// exactly the compiled globs of its pattern, in order.
    pub open spec fn wf(&self) -> bool {
        &&& self.owners.len() >= 1
        &&& self.matchers.len() == pattern_globs(self.pattern@).len()
        &&& forall|i: int|
            0 <= i < self.matchers.len() ==> (#[trigger] self.matchers[i])@ == pattern_globs(
                self.pattern@,
            )[i]
    }

    /// Parse one trimmed, non-empty, non-comment line: the first token
    /// is the pattern, every later token an owner. A line with fewer
    /// than two tokens is rejected with `MissingOwners`; a pattern
    /// whose translated globs do not compile is rejected with
    /// `PatternCompile`.
    pub fn parse(input: &str) -> (r: Result<Rule, ParseError>)
        ensures
            r is Ok <==> rule_line_ok(input@),
            r matches Ok(rule) ==> rule.wf() && rule@ == rule_of_line(input@),
            r matches Err(e) ==> e@ == line_error(input@),
    {
        let toks = tokens(input);
        proof {
            assert(toks@.len() == toks.deep_view().len());
        }
        if toks.len() < 2 {
            return Err(ParseError::MissingOwners { input: input.to_owned() });
        }
        let pattern: String = toks[0].clone();
        let ghost tseq = spec_tokens(input@);
        let mut owners: Vec<Owner> = Vec::new();
        let mut k: usize = 1;
        proof {
            assert(owners.deep_view() =~= tseq.subrange(1, 1).map_values(
                |t: Seq<char>| owner_of_token(t),
            ));
        }
        while k < toks.len()
            invariant
                1 <= k <= toks.len(),
                toks.deep_view() == tseq,
                toks.len() == tseq.len(),
                owners.deep_view() == tseq.subrange(1, k as int).map_values(
                    |t: Seq<char>| owner_of_token(t),
                ),
            decreases toks.len() - k,
        {
            proof {
                assert(toks.deep_view()[k as int] == toks@[k as int]@);
            }
            let o = Owner::parse(toks[k].as_str());
            let ghost prev = owners.deep_view();
            owners.push(o);
            proof {
                assert(owners.deep_view() =~= prev.push(owner_of_token(tseq[k as int])));
                assert(tseq.subrange(1, k as int + 1).map_values(|t: Seq<char>| owner_of_token(t))
                    =~= tseq.subrange(1, k as int).map_values(
                    |t: Seq<char>| owner_of_token(t),
                ).push(owner_of_token(tseq[k as int])));
            }
            k = k + 1;
        }
        proof {
            assert(tseq.subrange(1, tseq.len() as int) =~= tseq.skip(1));
        }
        let globs = pattern_to_glob(pattern.as_str());
        let mut matchers: Vec<Matcher> = Vec::new();
        let mut j: usize = 0;
        while j < globs.len()
            invariant
                0 <= j <= globs.len(),
                globs.len() == 2,
                globs.deep_view() == pattern_globs(pattern@),
                tseq == spec_tokens(input@),
                tseq.len() >= 2,
                pattern@ == tseq[0],
                matchers.len() == j,
                forall|i: int|
                    0 <= i < j ==> (#[trigger] matchers[i])@ == pattern_globs(pattern@)[i],
                forall|i: int|
                    0 <= i < j ==> glob_syntax_ok(#[trigger] pattern_globs(pattern@)[i]),
            decreases globs.len() - j,
        {
            match Matcher::compile(globs[j].as_str()) {
                Ok(m) => {
                    proof {
                        assert(globs@[j as int]@ == pattern_globs(pattern@)[j as int]);
                    }
                    matchers.push(m);
                },
                Err(_) => {
                    proof {
                        assert(globs@[j as int]@ == pattern_globs(pattern@)[j as int]);
                        assert(!glob_syntax_ok(pattern_globs(pattern@)[j as int]));
                        assert(!pattern_ok(tseq[0]));
                    }
                    return Err(ParseError::PatternCompile { pattern });
                },
            }
            j = j + 1;
        }
        proof {
            assert(glob_syntax_ok(base_glob(tseq[0])) && glob_syntax_ok(subtree_glob(tseq[0])));
        }
        Ok(Rule { pattern, owners, matchers })
    }

    /// Whether any of the rule's compiled matchers accepts the path.
    pub fn matches(&self, path: &str) -> (r: bool)
        requires
            self.wf(),
        ensures
            r == rule_matches(self@, path@),
    {
        let mut i: usize = 0;
        while i < self.matchers.len()
            invariant
                self.wf(),
                0 <= i <= self.matchers.len(),
                forall|k: int|
                    0 <= k < i ==> !glob_matches(#[trigger] pattern_globs(self@.pattern)[k], path@),
            decreases self.matchers.len() - i,
        {
            if self.matchers[i].is_match(path) {
                proof {
                    assert(self.matchers[i as int]@ == pattern_globs(self@.pattern)[i as int]);
                    assert(glob_matches(pattern_globs(self@.pattern)[i as int], path@));
                }
                return true;
            }
            proof {
                assert(self.matchers[i as int]@ == pattern_globs(self@.pattern)[i as int]);
            }
            i = i + 1;
        }
        false
    }
}

impl PartialEq for Rule {
    /// Rules compare by pattern and owners alone: the matchers are
    /// derived from the pattern and take no part in equality.
    fn eq(&self, other: &Rule) -> (r: bool) {
        let peq = self.pattern.eq(&other.pattern);
        let oeq = self.owners.eq(&other.owners);
        proof {
            if peq && oeq {
                assert forall|i: int| 0 <= i < self.owners.len() implies self.owners.deep_view()[i]
                    == other.owners.deep_view()[i] by {
                    assert(self.owners[i].eq_spec(&other.owners[i]));
                }
                assert(self.owners.deep_view() =~= other.owners.deep_view());
                assert(self@ =~= other@);
            }
            if self@ == other@ {
                assert(self.owners.deep_view() == other.owners.deep_view());
                assert(self.owners@.len() == self.owners.deep_view().len());
                assert(other.owners@.len() == other.owners.deep_view().len());
                assert forall|i: int| 0 <= i < self.owners@.len() implies self.owners[i].eq_spec(
                    &other.owners[i],
                ) by {
                    assert(self.owners.deep_view()[i] == self.owners@[i]@);
                    assert(other.owners.deep_view()[i] == other.owners@[i]@);
                }
            }
        }
        peq && oeq
    }
}

impl vstd::std_specs::cmp::PartialEqSpecImpl for Rule {
    open spec fn obeys_eq_spec() -> bool {
        true
    }

    open spec fn eq_spec(&self, other: &Rule) -> bool {
        self@ == other@
    }
}

} // verus!
