//! The static configuration a process runs with: one OIDC settings
//! block and a list of virtual-host servers.  Reading and parsing the
//! configuration file is an external collaborator's job; this module
//! holds the validated structure.

use vstd::prelude::*;

pub mod openid;
pub mod server;

pub use openid::Openid;
pub use server::Server;

verus! {

/// The whole configuration: OIDC settings and the virtual hosts.
pub struct Config {
    pub openid: Openid,
    pub servers: Vec<Server>,
}

} // verus!
