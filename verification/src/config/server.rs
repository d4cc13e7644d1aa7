//! A virtual host: its case-insensitive name, the address it is served
//! on, its upstream, and the anchored patterns of its public routes.

use vstd::prelude::*;
use regex::RegexSet;
use crate::net::Addr;
use crate::message::Uri;
use crate::routes::{route_set_patterns, route_match, patterns_compile_ok, route_set_is_match,
    compile_route_set, anchor_patterns, anchored};

verus! {

/// Certificate material for a virtual host: where its chain and its
/// key are to be loaded from.
pub struct Tls {
    pub cert: String,
    pub key: String,
}

/// One virtual host of the configuration.
pub struct Server {
    pub name: Vec<u8>,
    pub listen: Addr,
    pub upstream: Vec<u8>,
    pub upstream_tls: bool,
    pub public_routes: RegexSet,
    pub tls: Option<Tls>,
}

/// The mathematical image of a [`Server`]: its route set is seen as
/// the patterns it was compiled from.
pub ghost struct ServerRep {
    pub name: Seq<u8>,
    pub listen: Addr,
    pub upstream: Seq<u8>,
    pub upstream_tls: bool,
    pub patterns: Seq<Seq<u8>>,
    pub has_tls: bool,
}

impl View for Server {
    type V = ServerRep;

    open spec fn view(&self) -> ServerRep {
        ServerRep {
            name: self.name@,
            listen: self.listen,
            upstream: self.upstream@,
            upstream_tls: self.upstream_tls,
            patterns: route_set_patterns(self.public_routes),
            has_tls: self.tls is Some,
        }
    }
}

impl Server {
    /// Whether the request path is one of this host's public routes.
    /// The query is not part of the match.
    pub fn is_public_route(&self, uri: &Uri) -> (r: bool)
        ensures
            r == route_match(self@.patterns, uri@.path),
    {
        route_set_is_match(&self.public_routes, &uri.path)
    }
}

/// Anchors (`^p$`) and compiles a host's public-route patterns.
/// `None` exactly when some anchored pattern is not accepted as a
/// regular expression; the configuration is then rejected.
pub fn compile_public_routes(patterns: &Vec<Vec<u8>>) -> (r: Option<RegexSet>)
    ensures
        r is Some <==> patterns_compile_ok(
            patterns@.map_values(|p: Vec<u8>| p@).map_values(|p: Seq<u8>| anchored(p)),
        ),
        r matches Some(s) ==> route_set_patterns(s) == patterns@.map_values(|p: Vec<u8>| p@)
            .map_values(|p: Seq<u8>| anchored(p)),
{
    let anchored_patterns = anchor_patterns(patterns);
    compile_route_set(&anchored_patterns)
}

} // verus!
