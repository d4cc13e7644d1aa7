//! The per-request state machine: host resolution, virtual-host
//! routing, the public-route test, the authentication gate, header
//! hygiene, upstream URI rewriting and identity injection.
//!
//! The two outside calls a request may need — token introspection and
//! the upstream request itself — are suspension points performed by the
//! surrounding program.  [`RequestHandler::plan_request`] decides
//! everything up to the introspection call;
//! [`resume_after_introspection`] judges what came back.  Both are
//! exact functions of their inputs, stated by [`planned`] and
//! [`resumed`].

use vstd::prelude::*;
use crate::ascii::{eq_fold, eq_ignore_case, valid_value, is_valid_value};
use crate::auth::{IntrospectionResult, IntrospectionRep, IntrospectOutcome, OutcomeRep,
    bearer_token, extract_access_token};
use crate::auth::extensions::roles_of;
use crate::config::Server;
use crate::config::server::ServerRep;
use crate::headers::{has_name, first_match, remove_name, host_n, authorization_n,
    x_user_id_n, x_user_name_n, x_user_role_n, forwarded_n, host_name_bytes,
    authorization_name_bytes, x_user_id_name_bytes, x_user_name_name_bytes,
    x_user_role_name_bytes, forwarded_name_bytes, lemma_remove_name_strips,
    lemma_remove_name_keeps_absent};
use crate::message::{Request, ReqRep, Response, RespRep, Uri, rewritten_uri, synthetic,
    upstream_scheme};
use crate::net::{Addr, forwarded_value, render_forwarded};
use crate::routes::route_match;

verus! {

/// The per-connection state a request is handled under.
pub struct RequestHandler {
    pub client_addr: Addr,
    pub listen_addr: Addr,
    pub sni_hostname: Option<Vec<u8>>,
}

/// The mathematical image of a [`RequestHandler`].
pub ghost struct HandlerRep {
    pub client_addr: Addr,
    pub listen_addr: Addr,
    pub sni: Option<Seq<u8>>,
}

impl View for RequestHandler {
    type V = HandlerRep;

    open spec fn view(&self) -> HandlerRep {
        HandlerRep {
            client_addr: self.client_addr,
            listen_addr: self.listen_addr,
            sni: match self.sni_hostname {
                Some(s) => Some(s@),
                None => None,
            },
        }
    }
}

/// The first position of `b` in `s`, if any.
pub open spec fn find_pos(s: Seq<u8>, b: u8) -> Option<nat>
    decreases s.len(),
{
    if s.len() == 0 {
        None
    } else if s[0] == b {
        Some(0)
    } else {
        match find_pos(s.drop_first(), b) {
            Some(i) => Some((i + 1) as nat),
            None => None,
        }
    }
}

/// `v` up to (not through) its first colon; all of `v` without one.
pub open spec fn before_colon(v: Seq<u8>) -> Seq<u8> {
    match find_pos(v, 58) {
        Some(i) => v.take(i as int),
        None => v,
    }
}

/// The host a request is for: the SNI name when the handshake gave
/// one, else the `Host` header up to its port.  An absent or empty
/// host is a failure.
pub open spec fn host_of(sni: Option<Seq<u8>>, h: Seq<(Seq<u8>, Seq<u8>)>) -> Option<Seq<u8>> {
    match sni {
        Some(s) => Some(s),
        None => match first_match(h, host_n()) {
            Some(v) => if before_colon(v).len() == 0 {
                None
            } else {
                Some(before_colon(v))
            },
            None => None,
        },
    }
}

/// The first configured server bound to `listen` whose name is `host`
/// up to ASCII case.
pub open spec fn selected_server(servers: Seq<ServerRep>, listen: Addr, host: Seq<u8>) -> Option<
    ServerRep,
>
    decreases servers.len(),
{
    if servers.len() == 0 {
        None
    } else if servers[0].listen == listen && eq_fold(servers[0].name, host) {
        Some(servers[0])
    } else {
        selected_server(servers.drop_first(), listen, host)
    }
}

/// The inbound headers after hygiene: `Host`, `Authorization` and the
/// three trusted headers are removed, whoever sent them.
pub open spec fn sanitized(h: Seq<(Seq<u8>, Seq<u8>)>) -> Seq<(Seq<u8>, Seq<u8>)> {
    remove_name(
        remove_name(
            remove_name(remove_name(remove_name(h, host_n()), authorization_n()), x_user_id_n()),
            x_user_name_n(),
        ),
        x_user_role_n(),
    )
}

/// Headers with the proxy's own `Forwarded` line appended; a chain a
/// client or an earlier proxy sent stays ahead of it.
pub open spec fn with_forwarded(h: Seq<(Seq<u8>, Seq<u8>)>, client: Addr) -> Seq<
    (Seq<u8>, Seq<u8>),
> {
    h.push((forwarded_n(), forwarded_value(client)))
}

/// The request handed to the upstream, before any identity injection:
/// URI pointed at the upstream, headers sanitized, `Forwarded` added.
pub open spec fn upstream_request(req: ReqRep, s: ServerRep, client: Addr) -> ReqRep {
    ReqRep {
        method: req.method,
        uri: rewritten_uri(req.uri, s.upstream_tls, s.upstream),
        version: req.version,
        headers: with_forwarded(sanitized(req.headers), client),
    }
}

/// Holds of a role claim that is an acceptable header value.
pub open spec fn role_ok() -> spec_fn(Seq<u8>) -> bool {
    |r: Seq<u8>| valid_value(r)
}

/// Whether identity injection succeeds: a present `sub` or username
/// must itself be an acceptable header value.
pub open spec fn enrich_ok(info: IntrospectionRep) -> bool {
    &&& (info.sub matches Some(s) ==> valid_value(s))
    &&& (info.username matches Some(u) ==> valid_value(u))
}

/// Headers with the authenticated identity injected: `x-user-id` from
/// `sub`, `x-user-name` from the username, one `x-user-role` line per
/// acceptable role claim.
pub open spec fn enriched(h: Seq<(Seq<u8>, Seq<u8>)>, info: IntrospectionRep) -> Seq<
    (Seq<u8>, Seq<u8>),
> {
    let h1 = match info.sub {
        Some(s) => remove_name(h, x_user_id_n()).push((x_user_id_n(), s)),
        None => h,
    };
    let h2 = match info.username {
        Some(u) => remove_name(h1, x_user_name_n()).push((x_user_name_n(), u)),
        None => h1,
    };
    h2 + roles_of(info.extra).filter(role_ok()).map_values(|r: Seq<u8>| (x_user_role_n(), r))
}

/// What the handler decides before any outside call is made.
pub enum Plan {
    /// Answer the client at once with a synthetic response.
    Reply(Response),
    /// Ask the provider about this token, then resume with `pending`.
    Introspect { token: String, pending: Request },
    /// Hand `pending` to the upstream without authentication.
    Forward(Request),
}

/// The mathematical image of a [`Plan`].
pub ghost enum PlanRep {
    Reply(RespRep),
    Introspect { token: Seq<char>, pending: ReqRep },
    Forward(ReqRep),
}

impl View for Plan {
    type V = PlanRep;

    open spec fn view(&self) -> PlanRep {
        match self {
            Plan::Reply(r) => PlanRep::Reply(r@),
            Plan::Introspect { token, pending } => PlanRep::Introspect {
                token: token@,
                pending: pending@,
            },
            Plan::Forward(r) => PlanRep::Forward(r@),
        }
    }
}

/// What the handler decides once the provider has answered (or the
/// call failed).
pub enum Continuation {
    /// Answer the client with a synthetic response.
    Reply(Response),
    /// Hand the enriched request to the upstream.
    Forward(Request),
}

/// The mathematical image of a [`Continuation`].
pub ghost enum ContRep {
    Reply(RespRep),
    Forward(ReqRep),
}

impl View for Continuation {
    type V = ContRep;

    open spec fn view(&self) -> ContRep {
        match self {
            Continuation::Reply(r) => ContRep::Reply(r@),
            Continuation::Forward(r) => ContRep::Forward(r@),
        }
    }
}

/// The whole decision taken before any outside call: host resolution
/// (400 on failure), routing (400 on failure), the public-route test,
/// and the authentication gate (401 without a token).
pub open spec fn planned(ctx: HandlerRep, servers: Seq<ServerRep>, req: ReqRep) -> PlanRep {
    match host_of(ctx.sni, req.headers) {
        None => PlanRep::Reply(synthetic(400, req.version)),
        Some(host) => match selected_server(servers, ctx.listen_addr, host) {
            None => PlanRep::Reply(synthetic(400, req.version)),
            Some(s) => if route_match(s.patterns, req.uri.path) {
                PlanRep::Forward(upstream_request(req, s, ctx.client_addr))
            } else {
                match bearer_token(req.headers) {
                    None => PlanRep::Reply(synthetic(401, req.version)),
                    Some(t) => PlanRep::Introspect {
                        token: t,
                        pending: upstream_request(req, s, ctx.client_addr),
                    },
                }
            },
        },
    }
}

/// The decision on the provider's answer: 500 when the call failed,
/// 401 when the token is inactive, 500 when an identity attribute is
/// no acceptable header value, else forward with identity injected.
pub open spec fn resumed(pending: ReqRep, out: OutcomeRep) -> ContRep {
    match out {
        OutcomeRep::Failed => ContRep::Reply(synthetic(500, pending.version)),
        OutcomeRep::Returned(info) => if !info.active {
            ContRep::Reply(synthetic(401, pending.version))
        } else if !enrich_ok(info) {
            ContRep::Reply(synthetic(500, pending.version))
        } else {
            ContRep::Forward(
                ReqRep {
                    method: pending.method,
                    uri: pending.uri,
                    version: pending.version,
                    headers: enriched(pending.headers, info),
                },
            )
        },
    }
}

/// The error of identity injection: an attribute that cannot stand in
/// a header.
pub struct InvalidHeaderValue;

/// `find_pos` finds the position before which `b` does not occur.
proof fn lemma_find_pos_at(s: Seq<u8>, b: u8, i: int)
    requires
        0 <= i < s.len(),
        s[i] == b,
        forall|k: int| 0 <= k < i ==> s[k] != b,
    ensures
        find_pos(s, b) == Some(i as nat),
    decreases i,
{
    if i > 0 {
        assert(s[0] != b);
        let d = s.drop_first();
        assert forall|k: int| 0 <= k < i - 1 implies #[trigger] d[k] != b by {
            assert(d[k] == s[k + 1]);
        }
        assert(d[i - 1] == b);
        lemma_find_pos_at(d, b, i - 1);
    }
}

/// Where `b` occurs nowhere, `find_pos` finds nothing.
proof fn lemma_find_pos_none(s: Seq<u8>, b: u8)
    requires
        forall|k: int| 0 <= k < s.len() ==> s[k] != b,
    ensures
        find_pos(s, b) is None,
    decreases s.len(),
{
    if s.len() > 0 {
        let d = s.drop_first();
        assert forall|k: int| 0 <= k < d.len() implies #[trigger] d[k] != b by {
            assert(d[k] == s[k + 1]);
        }
        lemma_find_pos_none(d, b);
    }
}

impl RequestHandler {
    /// The host this request is for: the SNI name when the handshake
    /// gave one, else the `Host` header up to its port.
    pub fn extract_host_name(&self, request: &Request) -> (r: Option<Vec<u8>>)
        ensures
            match r {
                Some(h) => host_of(self@.sni, request@.headers) == Some(h@),
                None => host_of(self@.sni, request@.headers) is None,
            },
    {
        match &self.sni_hostname {
            Some(s) => {
                return Some(vstd::slice::slice_to_vec(s.as_slice()));
            },
            None => {},
        }
        let name = host_name_bytes();
        let v = match request.headers.get_first(name.as_slice()) {
            Some(v) => v,
            None => {
                return None;
            },
        };
        let ghost vv = v@;
        let n = v.len();
        let mut j: usize = 0;
        while j < n && v[j] != 58
            invariant
                n == vv.len(),
                vv == v@,
                0 <= j <= n,
                forall|k: int| 0 <= k < j ==> vv[k] != 58,
            decreases n - j,
        {
            j += 1;
        }
        proof {
            if j < n {
                lemma_find_pos_at(vv, 58, j as int);
            } else {
                lemma_find_pos_none(vv, 58);
            }
            assert(before_colon(vv) =~= vv.take(j as int));
        }
        if j == 0 {
            return None;
        }
        let host: &[u8] = &v.as_slice()[0..j];
        proof {
            assert(host@ =~= vv.take(j as int));
        }
        Some(vstd::slice::slice_to_vec(host))
    }
}

/// Removes `Host`, `Authorization` and the trusted identity headers
/// from the inbound request, whoever sent them.
pub fn remove_dangerous_headers(request: &mut Request)
    ensures
        final(request)@.headers == sanitized(old(request)@.headers),
        final(request)@.method == old(request)@.method,
        final(request)@.uri == old(request)@.uri,
        final(request)@.version == old(request)@.version,
{
    request.headers.remove_all(host_name_bytes().as_slice());
    request.headers.remove_all(authorization_name_bytes().as_slice());
    request.headers.remove_all(x_user_id_name_bytes().as_slice());
    request.headers.remove_all(x_user_name_name_bytes().as_slice());
    request.headers.remove_all(x_user_role_name_bytes().as_slice());
}

/// Appends the proxy's own `Forwarded: for=<client>` line to the
/// request.
pub fn create_upstream_request(request: Request, client_addr: &Addr) -> (r: Request)
    ensures
        r@.headers == with_forwarded(request@.headers, *client_addr),
        r@.method == request@.method,
        r@.uri == request@.uri,
        r@.version == request@.version,
{
    let mut request = request;
    let value = render_forwarded(client_addr);
    request.headers.append(forwarded_name_bytes(), value);
    request
}

/// Injects the authenticated identity: `x-user-id` from `sub`,
/// `x-user-name` from the username, one `x-user-role` line per role
/// claim that is an acceptable header value (the others are skipped).
/// Fails if and only if a present `sub` or username is itself no
/// acceptable header value.
pub fn enrich_request_with_token_info(
    request: &mut Request,
    token_info: &IntrospectionResult,
) -> (r: Result<(), InvalidHeaderValue>)
    ensures
        r is Ok <==> enrich_ok(token_info@),
        r is Ok ==> final(request)@.headers == enriched(old(request)@.headers, token_info@),
        r is Ok ==> final(request)@.method == old(request)@.method,
        r is Ok ==> final(request)@.uri == old(request)@.uri,
        r is Ok ==> final(request)@.version == old(request)@.version,
{
    match &token_info.sub {
        Some(s) => {
            if !is_valid_value(s.as_slice()) {
                return Err(InvalidHeaderValue);
            }
            request.headers.insert(x_user_id_name_bytes(), vstd::slice::slice_to_vec(s.as_slice()));
        },
        None => {},
    }
    let ghost h1 = request@.headers;
    match &token_info.username {
        Some(u) => {
            if !is_valid_value(u.as_slice()) {
                return Err(InvalidHeaderValue);
            }
            request.headers.insert(
                x_user_name_name_bytes(),
                vstd::slice::slice_to_vec(u.as_slice()),
            );
        },
        None => {},
    }
    let ghost h2 = request@.headers;
    let ghost roles_rep = roles_of(token_info@.extra);
    match &token_info.extra {
        crate::auth::extensions::Token::Keybase(t) => {
            let n = t.realm_access.roles.len();
            let mut i: usize = 0;
            proof {
                reveal(Seq::filter);
                assert(roles_rep == t.realm_access.roles@.map_values(|r: Vec<u8>| r@));
                assert(roles_rep.take(0) =~= Seq::<Seq<u8>>::empty());
                assert(request@.headers =~= h2 + roles_rep.take(0).filter(role_ok()).map_values(
                    |r: Seq<u8>| (x_user_role_n(), r),
                ));
            }
            while i < n
                invariant
                    n == t.realm_access.roles@.len(),
                    roles_rep == t.realm_access.roles@.map_values(|r: Vec<u8>| r@),
                    0 <= i <= n,
                    request@.headers == h2 + roles_rep.take(i as int).filter(role_ok())
                        .map_values(|r: Seq<u8>| (x_user_role_n(), r)),
                    request@.method == old(request)@.method,
                    request@.uri == old(request)@.uri,
                    request@.version == old(request)@.version,
                decreases n - i,
            {
                let ghost before = request@.headers;
                let role = &t.realm_access.roles[i];
                proof {
                    assert(roles_rep[i as int] == t.realm_access.roles@[i as int]@);
                }
                let ok = is_valid_value(role.as_slice());
                if ok {
                    request.headers.append(
                        x_user_role_name_bytes(),
                        vstd::slice::slice_to_vec(role.as_slice()),
                    );
                }
                proof {
                    reveal(Seq::filter);
                    let t1 = roles_rep.take(i as int + 1);
                    let t0 = roles_rep.take(i as int);
                    assert(t1.len() == i + 1);
                    assert(t1.drop_last() =~= t0);
                    assert(t1.last() == roles_rep[i as int]);
                    assert(t1.filter(role_ok()) == if role_ok()(t1.last()) {
                        t0.filter(role_ok()).push(t1.last())
                    } else {
                        t0.filter(role_ok())
                    });
                    let pair = |r: Seq<u8>| (x_user_role_n(), r);
                    if ok {
                        assert(role_ok()(t1.last()));
                        assert(t1.filter(role_ok()).map_values(pair)
                            =~= t0.filter(role_ok()).map_values(pair).push(
                            (x_user_role_n(), roles_rep[i as int]),
                        ));
                        assert(request@.headers =~= h2 + t1.filter(role_ok()).map_values(pair));
                    } else {
                        assert(!role_ok()(t1.last()));
                        assert(t1.filter(role_ok()).map_values(pair) =~= t0.filter(role_ok())
                            .map_values(pair));
                        assert(request@.headers =~= h2 + t1.filter(role_ok()).map_values(pair));
                    }
                }
                i += 1;
            }
            proof {
                assert(roles_rep.take(n as int) =~= roles_rep);
            }
        },
    }
    Ok(())
}


/// Builds the request handed to the upstream: headers sanitized, URI
/// pointed at the upstream, the proxy's `Forwarded` line added.
fn build_upstream(request: Request, server: &Server, client_addr: &Addr) -> (r: Request)
    ensures
        r@ == upstream_request(request@, server@, *client_addr),
{
    let mut request = request;
    remove_dangerous_headers(&mut request);
    let scheme: Vec<u8> = if server.upstream_tls {
        let a: [u8; 5] = [104, 116, 116, 112, 115];
        vstd::slice::slice_to_vec(a.as_slice())
    } else {
        let a: [u8; 4] = [104, 116, 116, 112];
        vstd::slice::slice_to_vec(a.as_slice())
    };
    proof {
        assert(scheme@ =~= upstream_scheme(server@.upstream_tls));
    }
    let authority = vstd::slice::slice_to_vec(server.upstream.as_slice());
    let Request { method, uri, version, headers } = request;
    let Uri { scheme: _, authority: _, path, query } = uri;
    let rewritten = Uri { scheme: Some(scheme), authority: Some(authority), path, query };
    let request = Request { method, uri: rewritten, version, headers };
    create_upstream_request(request, client_addr)
}

/// Finds the first configured server bound to this listen address
/// under the resolved host name, up to ASCII case.
fn find_server<'a>(servers: &'a Vec<Server>, listen_addr: &Addr, host: &Vec<u8>) -> (r: Option<
    &'a Server,
>)
    ensures
        match r {
            Some(s) => selected_server(
                servers@.map_values(|s: Server| s@),
                *listen_addr,
                host@,
            ) == Some(s@),
            None => selected_server(
                servers@.map_values(|s: Server| s@),
                *listen_addr,
                host@,
            ) is None,
        },
{
    let ghost svs = servers@.map_values(|s: Server| s@);
    let n = servers.len();
    let mut i: usize = 0;
    proof {
        assert(svs.skip(0) =~= svs);
    }
    while i < n
        invariant
            n == servers@.len(),
            svs == servers@.map_values(|s: Server| s@),
            0 <= i <= n,
            selected_server(svs, *listen_addr, host@) == selected_server(
                svs.skip(i as int),
                *listen_addr,
                host@,
            ),
        decreases n - i,
    {
        proof {
            assert(svs.skip(i as int).len() == n - i);
            assert(svs.skip(i as int)[0] == svs[i as int]);
            assert(svs[i as int] == servers@[i as int]@);
        }
        let cand = &servers[i];
        if cand.listen == *listen_addr && eq_ignore_case(cand.name.as_slice(), host.as_slice()) {
            return Some(cand);
        }
        proof {
            assert(svs.skip(i as int).drop_first() =~= svs.skip(i as int + 1));
        }
        i += 1;
    }
    proof {
        assert(svs.skip(n as int) =~= Seq::<ServerRep>::empty());
    }
    None
}

impl RequestHandler {
    /// Decides a request as far as it can be decided without an
    /// outside call: the synthetic response to send, the token to
    /// introspect, or the upstream request to forward.
    pub fn plan_request(&self, request: Request, servers: &Vec<Server>) -> (r: Plan)
        ensures
            r@ == planned(self@, servers@.map_values(|s: Server| s@), request@),
    {
        let version = request.version;
        let host = match self.extract_host_name(&request) {
            Some(h) => h,
            None => {
                return Plan::Reply(Response::synthesize(400, version));
            },
        };
        let server = match find_server(servers, &self.listen_addr, &host) {
            Some(s) => s,
            None => {
                return Plan::Reply(Response::synthesize(400, version));
            },
        };
        if server.is_public_route(&request.uri) {
            Plan::Forward(build_upstream(request, server, &self.client_addr))
        } else {
            match extract_access_token(&request.headers) {
                None => Plan::Reply(Response::synthesize(401, version)),
                Some(token) => Plan::Introspect {
                    token,
                    pending: build_upstream(request, server, &self.client_addr),
                },
            }
        }
    }
}

/// Judges the introspection outcome for a pending upstream request:
/// 500 when the call failed, 401 when the token is inactive, 500 when
/// an identity attribute is no acceptable header value, else forward
/// with the identity injected.
pub fn resume_after_introspection(pending: Request, outcome: IntrospectOutcome) -> (r:
    Continuation)
    ensures
        r@ == resumed(pending@, outcome@),
{
    let version = pending.version;
    match outcome {
        IntrospectOutcome::Failed => Continuation::Reply(Response::synthesize(500, version)),
        IntrospectOutcome::Returned(info) => {
            if !info.active {
                return Continuation::Reply(Response::synthesize(401, version));
            }
            let mut pending = pending;
            match enrich_request_with_token_info(&mut pending, &info) {
                Ok(()) => Continuation::Forward(pending),
                Err(_) => Continuation::Reply(Response::synthesize(500, version)),
            }
        },
    }
}


/// The server a request is routed to, when host resolution and
/// routing both succeed.
pub open spec fn routed(ctx: HandlerRep, servers: Seq<ServerRep>, req: ReqRep) -> Option<
    ServerRep,
> {
    match host_of(ctx.sni, req.headers) {
        None => None,
        Some(host) => selected_server(servers, ctx.listen_addr, host),
    }
}

/// Pushing a line of a different name keeps a name absent.
proof fn lemma_push_keeps_absent(
    h: Seq<(Seq<u8>, Seq<u8>)>,
    entry: (Seq<u8>, Seq<u8>),
    name: Seq<u8>,
)
    requires
        !has_name(h, name),
        !eq_fold(entry.0, name),
    ensures
        !has_name(h.push(entry), name),
{
    let r = h.push(entry);
    assert forall|i: int| 0 <= i < r.len() implies !eq_fold(#[trigger] r[i].0, name) by {
        if i < h.len() {
            assert(r[i] == h[i]);
        } else {
            assert(r[i] == entry);
        }
    }
}

/// `forwarded` is none of the five names hygiene removes.
proof fn lemma_forwarded_name_distinct()
    ensures
        !eq_fold(forwarded_n(), host_n()),
        !eq_fold(forwarded_n(), authorization_n()),
        !eq_fold(forwarded_n(), x_user_id_n()),
        !eq_fold(forwarded_n(), x_user_name_n()),
        !eq_fold(forwarded_n(), x_user_role_n()),
{
    assert(crate::ascii::fold(forwarded_n()).len() == 9);
    assert(crate::ascii::fold(host_n()).len() == 4);
    assert(crate::ascii::fold(authorization_n()).len() == 13);
    assert(crate::ascii::fold(x_user_name_n()).len() == 11);
    assert(crate::ascii::fold(x_user_role_n()).len() == 11);
    assert(crate::ascii::fold(forwarded_n())[0] == crate::ascii::fold_byte(forwarded_n()[0]));
    assert(crate::ascii::fold(x_user_id_n())[0] == crate::ascii::fold_byte(x_user_id_n()[0]));
    assert(crate::ascii::fold_byte(102u8) == 102u8);
    assert(crate::ascii::fold_byte(120u8) == 120u8);
}

/// Header hygiene: after sanitising, the inbound headers hold none of
/// `host`, `authorization`, `x-user-id`, `x-user-name`, `x-user-role`,
/// whoever sent them.
pub proof fn lemma_sanitized_strips(h: Seq<(Seq<u8>, Seq<u8>)>)
    ensures
        !has_name(sanitized(h), host_n()),
        !has_name(sanitized(h), authorization_n()),
        !has_name(sanitized(h), x_user_id_n()),
        !has_name(sanitized(h), x_user_name_n()),
        !has_name(sanitized(h), x_user_role_n()),
{
    let h1 = remove_name(h, host_n());
    let h2 = remove_name(h1, authorization_n());
    let h3 = remove_name(h2, x_user_id_n());
    let h4 = remove_name(h3, x_user_name_n());
    lemma_remove_name_strips(h, host_n());
    lemma_remove_name_keeps_absent(h1, authorization_n(), host_n());
    lemma_remove_name_keeps_absent(h2, x_user_id_n(), host_n());
    lemma_remove_name_keeps_absent(h3, x_user_name_n(), host_n());
    lemma_remove_name_keeps_absent(h4, x_user_role_n(), host_n());
    lemma_remove_name_strips(h1, authorization_n());
    lemma_remove_name_keeps_absent(h2, x_user_id_n(), authorization_n());
    lemma_remove_name_keeps_absent(h3, x_user_name_n(), authorization_n());
    lemma_remove_name_keeps_absent(h4, x_user_role_n(), authorization_n());
    lemma_remove_name_strips(h2, x_user_id_n());
    lemma_remove_name_keeps_absent(h3, x_user_name_n(), x_user_id_n());
    lemma_remove_name_keeps_absent(h4, x_user_role_n(), x_user_id_n());
    lemma_remove_name_strips(h3, x_user_name_n());
    lemma_remove_name_keeps_absent(h4, x_user_role_n(), x_user_name_n());
    lemma_remove_name_strips(h4, x_user_role_n());
}

/// The request handed onward holds none of the five client-settable
/// names: hygiene survives the proxy's own `Forwarded` line.  The
/// identity headers injected later are the proxy's assertion, not the
/// client's.
pub proof fn lemma_upstream_request_hygienic(req: ReqRep, s: ServerRep, client: Addr)
    ensures
        !has_name(upstream_request(req, s, client).headers, host_n()),
        !has_name(upstream_request(req, s, client).headers, authorization_n()),
        !has_name(upstream_request(req, s, client).headers, x_user_id_n()),
        !has_name(upstream_request(req, s, client).headers, x_user_name_n()),
        !has_name(upstream_request(req, s, client).headers, x_user_role_n()),
{
    let clean = sanitized(req.headers);
    let entry = (forwarded_n(), forwarded_value(client));
    lemma_sanitized_strips(req.headers);
    lemma_forwarded_name_distinct();
    lemma_push_keeps_absent(clean, entry, host_n());
    lemma_push_keeps_absent(clean, entry, authorization_n());
    lemma_push_keeps_absent(clean, entry, x_user_id_n());
    lemma_push_keeps_absent(clean, entry, x_user_name_n());
    lemma_push_keeps_absent(clean, entry, x_user_role_n());
}

/// Every request the handler forwards, or holds pending introspection,
/// goes to the server it was routed to: the outbound scheme follows
/// that server's `upstream_tls` and the outbound authority is its
/// `upstream`.
pub proof fn lemma_outbound_uri_matches_server(
    ctx: HandlerRep,
    servers: Seq<ServerRep>,
    req: ReqRep,
)
    ensures
        planned(ctx, servers, req) matches PlanRep::Forward(u) ==> (routed(ctx, servers, req)
            matches Some(s) && u.uri.scheme == Some(upstream_scheme(s.upstream_tls))
            && u.uri.authority == Some(s.upstream)),
        planned(ctx, servers, req) matches PlanRep::Introspect { pending, .. } ==> (routed(
            ctx,
            servers,
            req,
        ) matches Some(s) && pending.uri.scheme == Some(upstream_scheme(s.upstream_tls))
            && pending.uri.authority == Some(s.upstream)),
{
}

/// A request matching one of its server's public routes is never
/// taken to introspection.
pub proof fn lemma_public_no_introspection(ctx: HandlerRep, servers: Seq<ServerRep>, req: ReqRep)
    ensures
        (routed(ctx, servers, req) matches Some(s) && route_match(s.patterns, req.uri.path))
            ==> !(planned(ctx, servers, req) is Introspect),
{
}

/// A non-public request without a bearer token is answered `401` at
/// once: nothing is forwarded and nothing is introspected.
pub proof fn lemma_no_token_rejected(ctx: HandlerRep, servers: Seq<ServerRep>, req: ReqRep)
    ensures
        (routed(ctx, servers, req) matches Some(s) && !route_match(s.patterns, req.uri.path)
            && bearer_token(req.headers) is None) ==> planned(ctx, servers, req)
            == PlanRep::Reply(synthetic(401, req.version)),
{
}

/// An inactive token is answered `401`: nothing is forwarded.
pub proof fn lemma_inactive_token_rejected(pending: ReqRep, info: IntrospectionRep)
    ensures
        !info.active ==> resumed(pending, OutcomeRep::Returned(info)) == ContRep::Reply(
            synthetic(401, pending.version),
        ),
{
}


/// Every synthetic reply, before or after introspection, carries the
/// client's own HTTP version, and a forwarded request keeps it too;
/// with the relayed response built under that version, every response
/// matches the version the client spoke.
pub proof fn lemma_response_version(
    ctx: HandlerRep,
    servers: Seq<ServerRep>,
    req: ReqRep,
    out: OutcomeRep,
)
    ensures
        planned(ctx, servers, req) matches PlanRep::Reply(resp) ==> resp.version == req.version,
        planned(ctx, servers, req) matches PlanRep::Forward(u) ==> u.version == req.version,
        planned(ctx, servers, req) matches PlanRep::Introspect { pending, .. } ==> {
            &&& pending.version == req.version
            &&& (resumed(pending, out) matches ContRep::Reply(resp) ==> resp.version
                == req.version)
            &&& (resumed(pending, out) matches ContRep::Forward(u) ==> u.version == req.version)
        },
{
}

} // verus!
