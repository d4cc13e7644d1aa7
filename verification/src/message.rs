//! Models of HTTP messages: version, URI, request and response.  The
//! body is not part of the model; it is streamed unchanged around it.

use vstd::prelude::*;
use crate::headers::HeaderMap;

verus! {

/// An HTTP protocol version.
#[derive(Clone, Copy, Debug, PartialEq, Eq, Structural)]
pub enum Version {
    V09,
    V10,
    V11,
    V2,
    V3,
}

/// A URI split into its components, each as bytes.
pub struct Uri {
    pub scheme: Option<Vec<u8>>,
    pub authority: Option<Vec<u8>>,
    pub path: Vec<u8>,
    pub query: Option<Vec<u8>>,
}

/// The mathematical image of a [`Uri`].
pub ghost struct UriRep {
    pub scheme: Option<Seq<u8>>,
    pub authority: Option<Seq<u8>>,
    pub path: Seq<u8>,
    pub query: Option<Seq<u8>>,
}

impl View for Uri {
    type V = UriRep;

    open spec fn view(&self) -> UriRep {
        UriRep {
            scheme: match self.scheme {
                Some(s) => Some(s@),
                None => None,
            },
            authority: match self.authority {
                Some(a) => Some(a@),
                None => None,
            },
            path: self.path@,
            query: match self.query {
                Some(q) => Some(q@),
                None => None,
            },
        }
    }
}

/// The bytes of the `http` scheme.
pub open spec fn http_rep() -> Seq<u8> {
    seq![104u8, 116u8, 116u8, 112u8]
}

/// The bytes of the `https` scheme.
pub open spec fn https_rep() -> Seq<u8> {
    seq![104u8, 116u8, 116u8, 112u8, 115u8]
}

/// The scheme chosen for an upstream: `https` when it expects TLS.
pub open spec fn upstream_scheme(tls: bool) -> Seq<u8> {
    if tls {
        https_rep()
    } else {
        http_rep()
    }
}

/// A URI pointed at an upstream: scheme from the TLS flag, authority
/// replaced, path and query untouched.
pub open spec fn rewritten_uri(u: UriRep, tls: bool, upstream: Seq<u8>) -> UriRep {
    UriRep {
        scheme: Some(upstream_scheme(tls)),
        authority: Some(upstream),
        path: u.path,
        query: u.query,
    }
}

/// An HTTP request: method, URI, version and headers.
pub struct Request {
    pub method: Vec<u8>,
    pub uri: Uri,
    pub version: Version,
    pub headers: HeaderMap,
}

/// The mathematical image of a [`Request`].
pub ghost struct ReqRep {
    pub method: Seq<u8>,
    pub uri: UriRep,
    pub version: Version,
    pub headers: Seq<(Seq<u8>, Seq<u8>)>,
}

impl View for Request {
    type V = ReqRep;

    open spec fn view(&self) -> ReqRep {
        ReqRep { method: self.method@, uri: self.uri@, version: self.version, headers: self.headers@ }
    }
}

/// An HTTP response: status code, version and headers.  A synthetic
/// response carries an empty body; a relayed one streams the upstream's.
pub struct Response {
    pub status: u16,
    pub version: Version,
    pub headers: HeaderMap,
}

/// The mathematical image of a [`Response`].
pub ghost struct RespRep {
    pub status: u16,
    pub version: Version,
    pub headers: Seq<(Seq<u8>, Seq<u8>)>,
}

impl View for Response {
    type V = RespRep;

    open spec fn view(&self) -> RespRep {
        RespRep { status: self.status, version: self.version, headers: self.headers@ }
    }
}

/// A synthetic response: the given status, the client's version, no headers.
pub open spec fn synthetic(status: u16, version: Version) -> RespRep {
    RespRep { status, version, headers: Seq::empty() }
}

impl Response {
    /// Builds the synthetic response for an internally rejected request.
    pub fn synthesize(status: u16, version: Version) -> (r: Response)
        ensures
            r@ == synthetic(status, version),
    {
        let r = Response { status, version, headers: HeaderMap::new() };
        proof {
            assert(r@.headers =~= Seq::<(Seq<u8>, Seq<u8>)>::empty());
        }
        r
    }
}

/// Builds the response relayed to the client: the upstream's status and
/// headers verbatim, under the client's own HTTP version.
pub fn relay_response(upstream_status: u16, upstream_headers: HeaderMap, client_version: Version) -> (r: Response)
    ensures
        r@.status == upstream_status,
        r@.version == client_version,
        r@.headers == upstream_headers@,
{
    Response { status: upstream_status, version: client_version, headers: upstream_headers }
}

} // verus!
