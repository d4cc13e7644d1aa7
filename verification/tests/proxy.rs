use authproxy::auth::extensions::keybase;
use authproxy::auth::extensions::Token;
use authproxy::auth::{extract_access_token, IntrospectOutcome, IntrospectionResult};
use authproxy::config::server::compile_public_routes;
use authproxy::config::Server;
use authproxy::handler::{
    remove_dangerous_headers, resume_after_introspection, Continuation, Plan, RequestHandler,
};
use authproxy::headers::{HeaderEntry, HeaderMap};
use authproxy::message::{relay_response, Request, Response, Uri, Version};
use authproxy::net::Addr;

fn v4(a: u8, b: u8, c: u8, d: u8, port: u16) -> Addr {
    Addr::V4 { a, b, c, d, port }
}

fn headers(pairs: &[(&str, &str)]) -> HeaderMap {
    HeaderMap {
        entries: pairs
            .iter()
            .map(|(n, v)| HeaderEntry {
                name: n.as_bytes().to_vec(),
                value: v.as_bytes().to_vec(),
            })
            .collect(),
    }
}

fn get_request(path: &str, pairs: &[(&str, &str)]) -> Request {
    Request {
        method: b"GET".to_vec(),
        uri: Uri {
            scheme: None,
            authority: None,
            path: path.as_bytes().to_vec(),
            query: None,
        },
        version: Version::V11,
        headers: headers(pairs),
    }
}

fn api_server(listen: Addr) -> Server {
    Server {
        name: b"api.example".to_vec(),
        listen,
        upstream: b"backend:9000".to_vec(),
        upstream_tls: false,
        public_routes: compile_public_routes(&vec![b"/healthz".to_vec()])
            .expect("patterns compile"),
        tls: None,
    }
}

fn handler(listen: Addr) -> RequestHandler {
    RequestHandler {
        client_addr: v4(10, 0, 0, 7, 5555),
        listen_addr: listen,
        sni_hostname: None,
    }
}

fn values_named(h: &HeaderMap, name: &str) -> Vec<Vec<u8>> {
    h.entries
        .iter()
        .filter(|e| e.name.eq_ignore_ascii_case(name.as_bytes()))
        .map(|e| e.value.clone())
        .collect()
}

#[test]
fn public_get_forwarded_without_identity() {
    let listen = v4(127, 0, 0, 1, 8080);
    let request = get_request("/healthz", &[("Host", "api.example")]);
    let plan = handler(listen).plan_request(request, &vec![api_server(listen)]);
    match plan {
        Plan::Forward(upstream) => {
            assert_eq!(upstream.uri.scheme.as_deref(), Some(b"http".as_slice()));
            assert_eq!(
                upstream.uri.authority.as_deref(),
                Some(b"backend:9000".as_slice())
            );
            assert_eq!(upstream.uri.path, b"/healthz".to_vec());
            assert!(values_named(&upstream.headers, "x-user-id").is_empty());
            assert!(values_named(&upstream.headers, "x-user-name").is_empty());
            assert!(values_named(&upstream.headers, "x-user-role").is_empty());
            assert_eq!(
                values_named(&upstream.headers, "forwarded"),
                vec![b"for=10.0.0.7:5555".to_vec()]
            );
        }
        _ => panic!("a public route must be forwarded without introspection"),
    }
}

#[test]
fn private_without_token_is_401() {
    let listen = v4(127, 0, 0, 1, 8080);
    let request = get_request("/v1/me", &[("Host", "api.example")]);
    let plan = handler(listen).plan_request(request, &vec![api_server(listen)]);
    match plan {
        Plan::Reply(resp) => assert_eq!(resp.status, 401),
        _ => panic!("a private request without a token must be rejected"),
    }
}

#[test]
fn private_with_active_token_is_enriched() {
    let listen = v4(127, 0, 0, 1, 8080);
    let request = get_request(
        "/v1/me",
        &[("Host", "api.example"), ("Authorization", "Bearer t")],
    );
    let plan = handler(listen).plan_request(request, &vec![api_server(listen)]);
    let pending = match plan {
        Plan::Introspect { token, pending } => {
            assert_eq!(token, "t".to_string());
            pending
        }
        _ => panic!("a private request with a token goes to introspection"),
    };
    let info = IntrospectionResult {
        active: true,
        sub: Some(b"u1".to_vec()),
        username: Some(b"alice".to_vec()),
        extra: Token::Keybase(keybase::Token {
            realm_access: keybase::RealmAccess {
                roles: vec![b"admin".to_vec(), b"ops".to_vec()],
            },
        }),
    };
    match resume_after_introspection(pending, IntrospectOutcome::Returned(info)) {
        Continuation::Forward(upstream) => {
            assert_eq!(
                values_named(&upstream.headers, "x-user-id"),
                vec![b"u1".to_vec()]
            );
            assert_eq!(
                values_named(&upstream.headers, "x-user-name"),
                vec![b"alice".to_vec()]
            );
            assert_eq!(
                values_named(&upstream.headers, "x-user-role"),
                vec![b"admin".to_vec(), b"ops".to_vec()]
            );
        }
        _ => panic!("an active token must be forwarded"),
    }
}

#[test]
fn private_with_inactive_token_is_401() {
    let pending = get_request("/v1/me", &[]);
    let info = IntrospectionResult {
        active: false,
        sub: None,
        username: None,
        extra: Token::Keybase(keybase::Token {
            realm_access: keybase::RealmAccess { roles: vec![] },
        }),
    };
    match resume_after_introspection(pending, IntrospectOutcome::Returned(info)) {
        Continuation::Reply(resp) => assert_eq!(resp.status, 401),
        _ => panic!("an inactive token must be rejected"),
    }
}

#[test]
fn introspection_transport_failure_is_500() {
    let pending = get_request("/v1/me", &[]);
    match resume_after_introspection(pending, IntrospectOutcome::Failed) {
        Continuation::Reply(resp) => assert_eq!(resp.status, 500),
        _ => panic!("a failed introspection call must be answered 500"),
    }
}

#[test]
fn invalid_sub_is_500() {
    let pending = get_request("/v1/me", &[]);
    let info = IntrospectionResult {
        active: true,
        sub: Some(vec![1u8, 2u8]),
        username: None,
        extra: Token::Keybase(keybase::Token {
            realm_access: keybase::RealmAccess { roles: vec![] },
        }),
    };
    match resume_after_introspection(pending, IntrospectOutcome::Returned(info)) {
        Continuation::Reply(resp) => assert_eq!(resp.status, 500),
        _ => panic!("an unusable identity attribute must be answered 500"),
    }
}

#[test]
fn invalid_role_is_skipped() {
    let pending = get_request("/v1/me", &[]);
    let info = IntrospectionResult {
        active: true,
        sub: Some(b"u1".to_vec()),
        username: None,
        extra: Token::Keybase(keybase::Token {
            realm_access: keybase::RealmAccess {
                roles: vec![vec![0u8], b"ops".to_vec()],
            },
        }),
    };
    match resume_after_introspection(pending, IntrospectOutcome::Returned(info)) {
        Continuation::Forward(upstream) => {
            assert_eq!(
                values_named(&upstream.headers, "x-user-role"),
                vec![b"ops".to_vec()]
            );
        }
        _ => panic!("a bad role claim is skipped, not fatal"),
    }
}

#[test]
fn unknown_host_is_400() {
    let listen = v4(127, 0, 0, 1, 8080);
    let request = get_request("/healthz", &[("Host", "other.example")]);
    let plan = handler(listen).plan_request(request, &vec![api_server(listen)]);
    match plan {
        Plan::Reply(resp) => assert_eq!(resp.status, 400),
        _ => panic!("an unknown host must be rejected"),
    }
}

#[test]
fn missing_host_is_400() {
    let listen = v4(127, 0, 0, 1, 8080);
    let request = get_request("/healthz", &[]);
    let plan = handler(listen).plan_request(request, &vec![api_server(listen)]);
    match plan {
        Plan::Reply(resp) => assert_eq!(resp.status, 400),
        _ => panic!("a request without a host must be rejected"),
    }
}

#[test]
fn other_listen_address_is_400() {
    let listen = v4(127, 0, 0, 1, 8080);
    let other = v4(127, 0, 0, 1, 9090);
    let request = get_request("/healthz", &[("Host", "api.example")]);
    let plan = handler(other).plan_request(request, &vec![api_server(listen)]);
    match plan {
        Plan::Reply(resp) => assert_eq!(resp.status, 400),
        _ => panic!("routing is per listen address"),
    }
}

#[test]
fn host_routing_is_case_insensitive() {
    let listen = v4(127, 0, 0, 1, 8080);
    for host in ["API.EXAMPLE", "Api.Example", "api.example"] {
        let request = get_request("/healthz", &[("Host", host)]);
        let plan = handler(listen).plan_request(request, &vec![api_server(listen)]);
        assert!(
            matches!(plan, Plan::Forward(_)),
            "host name comparison folds ASCII case"
        );
    }
}

#[test]
fn host_header_port_is_dropped() {
    let listen = v4(127, 0, 0, 1, 8080);
    let request = get_request("/healthz", &[("Host", "api.example:8080")]);
    let plan = handler(listen).plan_request(request, &vec![api_server(listen)]);
    assert!(matches!(plan, Plan::Forward(_)));
}

#[test]
fn sni_name_outranks_host_header() {
    let listen = v4(127, 0, 0, 1, 8080);
    let mut h = handler(listen);
    h.sni_hostname = Some(b"api.example".to_vec());
    let request = get_request("/healthz", &[("Host", "other.example")]);
    let plan = h.plan_request(request, &vec![api_server(listen)]);
    assert!(matches!(plan, Plan::Forward(_)));
}

#[test]
fn client_headers_cannot_forge_identity() {
    let listen = v4(127, 0, 0, 1, 8080);
    let request = get_request(
        "/healthz",
        &[
            ("Host", "api.example"),
            ("X-User-Id", "intruder"),
            ("x-user-name", "intruder"),
            ("X-USER-ROLE", "admin"),
            ("Authorization", "Bearer forged"),
            ("Forwarded", "for=6.6.6.6"),
        ],
    );
    let plan = handler(listen).plan_request(request, &vec![api_server(listen)]);
    match plan {
        Plan::Forward(upstream) => {
            assert!(values_named(&upstream.headers, "host").is_empty());
            assert!(values_named(&upstream.headers, "authorization").is_empty());
            assert!(values_named(&upstream.headers, "x-user-id").is_empty());
            assert!(values_named(&upstream.headers, "x-user-name").is_empty());
            assert!(values_named(&upstream.headers, "x-user-role").is_empty());
            // The proxy appends its own entry after any chain the
            // client presented.
            assert_eq!(
                values_named(&upstream.headers, "forwarded"),
                vec![b"for=6.6.6.6".to_vec(), b"for=10.0.0.7:5555".to_vec()]
            );
        }
        _ => panic!("the public route must still be forwarded"),
    }
}

#[test]
fn upstream_tls_selects_https() {
    let listen = v4(127, 0, 0, 1, 8080);
    let mut server = api_server(listen);
    server.upstream_tls = true;
    let request = get_request("/healthz", &[("Host", "api.example")]);
    let plan = handler(listen).plan_request(request, &vec![server]);
    match plan {
        Plan::Forward(upstream) => {
            assert_eq!(upstream.uri.scheme.as_deref(), Some(b"https".as_slice()));
        }
        _ => panic!("expected a forwarded request"),
    }
}

#[test]
fn remove_dangerous_headers_spares_others() {
    let mut request = get_request(
        "/x",
        &[
            ("Host", "a"),
            ("Accept", "text/plain"),
            ("authorization", "Bearer z"),
            ("X-User-Id", "u"),
        ],
    );
    remove_dangerous_headers(&mut request);
    assert!(values_named(&request.headers, "host").is_empty());
    assert!(values_named(&request.headers, "authorization").is_empty());
    assert!(values_named(&request.headers, "x-user-id").is_empty());
    assert_eq!(
        values_named(&request.headers, "accept"),
        vec![b"text/plain".to_vec()]
    );
}

#[test]
fn relayed_response_keeps_client_version_and_upstream_status() {
    let upstream_headers = headers(&[("content-type", "text/plain"), ("x-extra", "1")]);
    let resp: Response = relay_response(204, upstream_headers, Version::V10);
    assert_eq!(resp.status, 204);
    assert_eq!(resp.version, Version::V10);
    assert_eq!(
        values_named(&resp.headers, "content-type"),
        vec![b"text/plain".to_vec()]
    );
    assert_eq!(values_named(&resp.headers, "x-extra"), vec![b"1".to_vec()]);
}

#[test]
fn token_extraction_grammar() {
    let with = |v: &str| headers(&[("Authorization", v)]);
    assert_eq!(extract_access_token(&with("Bearer abc")), Some("abc".to_string()));
    assert_eq!(extract_access_token(&with("bearer abc")), Some("abc".to_string()));
    assert_eq!(extract_access_token(&with("TOKEN xyz")), Some("xyz".to_string()));
    assert_eq!(extract_access_token(&with("  Bearer   abc  ")), Some("abc".to_string()));
    assert_eq!(extract_access_token(&with("Basic abc")), None);
    assert_eq!(extract_access_token(&with("Bearer")), None);
    assert_eq!(extract_access_token(&with("")), None);
    assert_eq!(extract_access_token(&headers(&[])), None);
}

#[test]
fn token_extraction_follows_unicode() {
    // A value that is not UTF-8 carries no token.
    let mut bad = b"Bearer ".to_vec();
    bad.push(0xff);
    let h = HeaderMap {
        entries: vec![HeaderEntry { name: b"authorization".to_vec(), value: bad }],
    };
    assert_eq!(extract_access_token(&h), None);
    // Unicode whitespace separates the fields, as the grammar's
    // field splitting does.
    let with = |v: &str| headers(&[("Authorization", v)]);
    assert_eq!(
        extract_access_token(&with("Bearer\u{00A0}abc")),
        Some("abc".to_string())
    );
    assert_eq!(
        extract_access_token(&with("Bearer\u{2003}abc\u{2003}")),
        Some("abc".to_string())
    );
}
