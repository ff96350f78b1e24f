//! Trusted boundary to the `globset` crate, which compiles and runs
//! the glob expressions the pattern translator produces.

use vstd::prelude::*;

verus! {

#[verifier::external_type_specification]
#[verifier::external_body]
pub struct ExGlobError(globset::Error);

#[verifier::external_type_specification]
#[verifier::external_body]
pub struct ExGlobSet(globset::GlobSet);

/// Whether `globset` accepts a glob expression: `globset::Glob::new`
/// parses it and `globset::GlobSetBuilder::build` then compiles it to
/// its matching strategies (the regex stage can still reject a parsed
/// glob, for one whose groups nest past the regex grammar's limit).
/// Both steps decide by the text alone.
pub uninterp spec fn glob_syntax_ok(glob: Seq<char>) -> bool;

/// Whether the matcher compiled from a glob expression accepts a path:
/// what `globset::GlobSet::is_match` answers for a set holding that
/// one glob, a function of the glob text and the path alone.
pub uninterp spec fn glob_matches(glob: Seq<char>, path: Seq<char>) -> bool;

/// One compiled glob expression, together with the text it was
/// compiled from. `compile` is the only constructor, so the stored
/// text is always the text the set was built from.
#[derive(Debug)]
pub struct Matcher {
    set: globset::GlobSet,
    text: String,
}

impl View for Matcher {
    type V = Seq<char>;

    closed spec fn view(&self) -> Seq<char> {
        self.text@
    }
}

impl DeepView for Matcher {
    type V = Seq<char>;

    open spec fn deep_view(&self) -> Seq<char> {
        self@
    }
}

impl Matcher {
    /// Relies on `globset::Glob::new`, which deterministically either
    /// parses the glob text or rejects it, and on
    /// `globset::GlobSetBuilder::build`, which compiles the parsed
    /// glob and hands any failure of the regex stage back as an error
    /// rather than failing some other way.
    #[verifier::external_body]
    pub(crate) fn compile(glob: &str) -> (r: Result<Matcher, globset::Error>)
        ensures
            r is Ok <==> glob_syntax_ok(glob@),
            r matches Ok(m) ==> m@ == glob@,
    {
        match globset::Glob::new(glob) {
            Ok(g) => {
                let mut builder = globset::GlobSetBuilder::new();
                builder.add(g);
                match builder.build() {
                    Ok(set) => Ok(Matcher { set, text: glob.to_owned() }),
                    Err(e) => Err(e),
                }
            },
            Err(e) => Err(e),
        }
    }

    /// Relies on `globset::GlobSet::is_match`: whether a path matches
    /// is decided by the glob the set was compiled from and the path
    /// alone, and the call never fails. The stored text is that glob:
    /// `compile` above is the only place a `Matcher` is built.
    #[verifier::external_body]
    pub(crate) fn is_match(&self, path: &str) -> (r: bool)
        ensures
            r == glob_matches(self@, path@),
    {
        self.set.is_match(path)
    }
}

} // verus!
