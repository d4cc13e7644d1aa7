//! OIDC settings: issuer, introspection endpoint and client
//! credentials.  A credential may be given indirectly as `ENV[NAME]`;
//! [`extract_env_key`] recognises that form, and the surrounding
//! program resolves the variable.

use vstd::prelude::*;

verus! {

/// The OIDC settings block of the configuration.
pub struct Openid {
    pub issuer_url: String,
    pub introspect_url: String,
    pub client_id: String,
    pub client_secret: String,
}

/// The name between `ENV[` and `]`, when a configured value has exactly
/// that shape.
pub open spec fn env_key_of(v: Seq<char>) -> Option<Seq<char>> {
    if v.len() >= 5 && v[0] == 'E' && v[1] == 'N' && v[2] == 'V' && v[3] == '['
        && v[v.len() - 1] == ']' {
        Some(v.subrange(4, v.len() - 1))
    } else {
        None
    }
}

/// Returns the environment-variable name a configured value points at,
/// or `None` when the value is to be taken as it stands.
pub fn extract_env_key<'a>(value: &'a str) -> (r: Option<&'a str>)
    ensures
        match r {
            Some(k) => env_key_of(value@) == Some(k@),
            None => env_key_of(value@) is None,
        },
{
    let n = value.unicode_len();
    if n < 5 {
        return None;
    }
    if value.get_char(0) != 'E' || value.get_char(1) != 'N' || value.get_char(2) != 'V'
        || value.get_char(3) != '[' || value.get_char(n - 1) != ']' {
        return None;
    }
    Some(value.substring_char(4, n - 1))
}

} // verus!
