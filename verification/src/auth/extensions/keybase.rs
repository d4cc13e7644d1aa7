//! The role-claim shape of one IdP dialect: a `realm_access` object
//! holding a list of role names.

use vstd::prelude::*;

verus! {

/// The extension fields this dialect attaches to an introspection
/// response.
pub struct Token {
    pub realm_access: RealmAccess,
}

/// The mathematical image of a [`Token`].
pub ghost struct TokenRep {
    pub realm_access: RealmAccessRep,
}

impl View for Token {
    type V = TokenRep;

    open spec fn view(&self) -> TokenRep {
        TokenRep { realm_access: self.realm_access@ }
    }
}

/// The realm-wide role claims of the authenticated user.
pub struct RealmAccess {
    pub roles: Vec<Vec<u8>>,
}

/// The mathematical image of a [`RealmAccess`].
pub ghost struct RealmAccessRep {
    pub roles: Seq<Seq<u8>>,
}

impl View for RealmAccess {
    type V = RealmAccessRep;

    open spec fn view(&self) -> RealmAccessRep {
        RealmAccessRep { roles: self.roles@.map_values(|r: Vec<u8>| r@) }
    }
}

} // verus!
