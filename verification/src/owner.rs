//! Owners and their purely lexical classification.

use vstd::prelude::*;

verus! {

/// The mathematical value of an owner: its kind and its text.
#[verifier::ext_equal]
pub enum OwnerModel {
    Email(Seq<char>),
    Handle(Seq<char>),
}

impl OwnerModel {
    /// The owner's underlying text, without decoration.
    pub open spec fn text(self) -> Seq<char> {
        match self {
            OwnerModel::Email(s) => s,
            OwnerModel::Handle(s) => s,
        }
    }
}

/// One owner: a hosting-platform handle (a token that begins with `@`,
/// covering both `@user` and `@org/team` forms) or, for every other
/// token, an email address.
#[derive(Debug)]
pub enum Owner {
    Email(String),
    Handle(String),
}

impl View for Owner {
    type V = OwnerModel;

    open spec fn view(&self) -> OwnerModel {
        match self {
            Owner::Email(s) => OwnerModel::Email(s@),
            Owner::Handle(s) => OwnerModel::Handle(s@),
        }
    }
}

impl DeepView for Owner {
    type V = OwnerModel;

    open spec fn deep_view(&self) -> OwnerModel {
        self@
    }
}

/// How a token classifies: a handle exactly when it begins with `@`,
/// an email otherwise; the token's text is kept unchanged.
pub open spec fn owner_of_token(tok: Seq<char>) -> OwnerModel {
    if tok.len() > 0 && tok[0] == '@' {
        OwnerModel::Handle(tok)
    } else {
        OwnerModel::Email(tok)
    }
}

impl Owner {
    /// Classify one owner token. The classification is purely lexical
    /// and never fails: a token beginning with `@` is a handle, any
    /// other token is taken for an email address, with no further
    /// validation of either form.
    pub fn parse(input: &str) -> (r: Owner)
        ensures
            r@ == owner_of_token(input@),
            r is Handle <==> input@.len() > 0 && input@[0] == '@',
            r is Email <==> !(input@.len() > 0 && input@[0] == '@'),
            r@.text() == input@,
    {
        let n = input.unicode_len();
        if n > 0 && input.get_char(0) == '@' {
            Owner::Handle(input.to_owned())
        } else {
            Owner::Email(input.to_owned())
        }
    }

    /// The owner's text: the handle or the email address, unchanged.
    pub fn as_str(&self) -> (r: &str)
        ensures
            r@ == self@.text(),
    {
        match self {
            Owner::Email(s) => s.as_str(),
            Owner::Handle(s) => s.as_str(),
        }
    }
}

impl PartialEq for Owner {
    /// Structural equality: the same kind with the same text.
    fn eq(&self, other: &Owner) -> (r: bool) {
        match (self, other) {
            (Owner::Email(a), Owner::Email(b)) => a.eq(b),
            (Owner::Handle(a), Owner::Handle(b)) => a.eq(b),
            _ => false,
        }
    }
}

impl vstd::std_specs::cmp::PartialEqSpecImpl for Owner {
    open spec fn obeys_eq_spec() -> bool {
        true
    }

    open spec fn eq_spec(&self, other: &Owner) -> bool {
        self@ == other@
    }
}

} // verus!
