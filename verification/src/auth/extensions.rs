//! Dialects of the role-claim extension carried by an introspection
//! response.  One dialect is modelled; further ones would be further
//! variants, told apart by the response's fields.

use vstd::prelude::*;

pub mod keybase;

verus! {

/// The extension fields of an introspection response, by dialect.
pub enum Token {
    Keybase(keybase::Token),
}

/// The mathematical image of a [`Token`].
pub ghost enum TokenRep {
    Keybase(keybase::TokenRep),
}

impl View for Token {
    type V = TokenRep;

    open spec fn view(&self) -> TokenRep {
        match self {
            Token::Keybase(t) => TokenRep::Keybase(t@),
        }
    }
}

/// The role claims an extension carries, whatever its dialect.
pub open spec fn roles_of(t: TokenRep) -> Seq<Seq<u8>> {
    match t {
        TokenRep::Keybase(k) => k.realm_access.roles,
    }
}

} // verus!
