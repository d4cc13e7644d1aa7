use authproxy::config::openid::extract_env_key;
use authproxy::config::server::compile_public_routes;
use authproxy::listener::{listener_step, AcceptEvent, LoopAction};
use authproxy::listener_manager::{AcceptQueue, ListenerManager, MAX_UNACCEPTED_SOCKETS};
use authproxy::message::Uri;
use authproxy::net::{render_forwarded, Addr};
use authproxy::proto::{detect, Proto, TLS_START_BYTE};
use authproxy::tls_manager::{CertResolver, TlsManager};

fn v4(a: u8, b: u8, c: u8, d: u8, port: u16) -> Addr {
    Addr::V4 { a, b, c, d, port }
}

#[test]
fn certificate_selection_follows_sni() {
    let mut resolver: CertResolver<u64> = CertResolver::new();
    resolver
        .add_certified_key(b"a.example".to_vec(), 1)
        .expect("valid name");
    resolver
        .add_certified_key(b"b.example".to_vec(), 2)
        .expect("valid name");
    assert_eq!(resolver.resolve(Some(&b"b.example".to_vec())), Some(&2));
    assert_eq!(resolver.resolve(Some(&b"a.example".to_vec())), Some(&1));
    assert_eq!(resolver.resolve(Some(&b"c.example".to_vec())), None);
    assert_eq!(resolver.resolve(None), None);
}

#[test]
fn certificate_lookup_is_case_insensitive() {
    let mut resolver: CertResolver<u64> = CertResolver::new();
    resolver
        .add_certified_key(b"API.Example".to_vec(), 7)
        .expect("upper-case names are valid DNS names");
    assert_eq!(resolver.resolve(Some(&b"api.example".to_vec())), Some(&7));
    assert_eq!(resolver.resolve(Some(&b"API.EXAMPLE".to_vec())), Some(&7));
    assert_eq!(resolver.resolve(Some(&b"Api.Example".to_vec())), Some(&7));
}

#[test]
fn second_registration_replaces_first() {
    let mut resolver: CertResolver<u64> = CertResolver::new();
    resolver.add_certified_key(b"a.example".to_vec(), 1).unwrap();
    resolver.add_certified_key(b"A.EXAMPLE".to_vec(), 2).unwrap();
    assert_eq!(resolver.resolve(Some(&b"a.example".to_vec())), Some(&2));
    assert_eq!(resolver.names.len(), 1);
}

#[test]
fn bad_dns_names_are_rejected() {
    let mut resolver: CertResolver<u64> = CertResolver::new();
    assert!(resolver.add_certified_key(b"bad name".to_vec(), 1).is_err());
    assert!(resolver
        .add_certified_key("h\u{e9}llo.example".as_bytes().to_vec(), 1)
        .is_err());
    assert!(resolver.add_certified_key(b"".to_vec(), 1).is_err());
    assert!(resolver.add_certified_key(b"-leading.example".to_vec(), 1).is_err());
    assert_eq!(resolver.names.len(), 0);
    assert!(resolver.add_certified_key(b"ok.example".to_vec(), 1).is_ok());
}

#[test]
fn tls_manager_keys_resolvers_by_address() {
    let mut manager: TlsManager<u64> = TlsManager::new();
    let a = v4(0, 0, 0, 0, 8443);
    let b = v4(0, 0, 0, 0, 9443);
    assert!(manager.acceptor(&a).is_none());
    manager.add_certified_key(a, b"a.example".to_vec(), 1).unwrap();
    manager.add_certified_key(a, b"b.example".to_vec(), 2).unwrap();
    let resolver = manager.acceptor(&a).expect("address terminates TLS");
    assert_eq!(resolver.resolve(Some(&b"b.example".to_vec())), Some(&2));
    assert!(manager.acceptor(&b).is_none());
    assert!(manager
        .add_certified_key(b, b"bad name".to_vec(), 3)
        .is_err());
    assert!(
        manager.acceptor(&b).is_none(),
        "a rejected name must not leave an acceptor behind"
    );
}

#[test]
fn accept_queue_is_bounded_and_fifo() {
    let mut queue: AcceptQueue<u32> = AcceptQueue::new(2);
    assert!(queue.push(10).is_ok());
    assert!(queue.push(11).is_ok());
    assert_eq!(queue.push(12), Err(12));
    assert_eq!(queue.len(), 2);
    assert_eq!(queue.pop(), Some(10));
    assert!(queue.push(12).is_ok());
    assert_eq!(queue.pop(), Some(11));
    assert_eq!(queue.pop(), Some(12));
    assert_eq!(queue.pop(), None);
}

#[test]
fn start_listening_twice_books_one_listener() {
    let mut manager: ListenerManager<u32> = ListenerManager::new();
    let addr = v4(127, 0, 0, 1, 8080);
    assert!(manager.start_listening_on(addr));
    assert!(!manager.start_listening_on(addr));
    assert_eq!(manager.listeners.len(), 1);
    assert_eq!(manager.queue.capacity, MAX_UNACCEPTED_SOCKETS);
    assert!(manager.stop_listening_on(addr));
    assert!(!manager.stop_listening_on(addr));
    assert_eq!(manager.listeners.len(), 0);
}

#[test]
fn listener_loop_decisions() {
    let listen = v4(127, 0, 0, 1, 8080);
    match listener_step(listen, AcceptEvent::Conn { remote_addr: v4(9, 9, 9, 9, 1234), stream: 5u32 }) {
        LoopAction::Enqueue(accepted) => {
            assert_eq!(accepted.listen_addr, listen);
            assert_eq!(accepted.remote_addr, v4(9, 9, 9, 9, 1234));
            assert_eq!(accepted.stream, 5);
        }
        _ => panic!("a connection is enqueued"),
    }
    assert!(matches!(
        listener_step::<u32>(listen, AcceptEvent::AcceptError),
        LoopAction::RetryAfterDelay
    ));
    assert!(matches!(
        listener_step::<u32>(listen, AcceptEvent::QueueClosed),
        LoopAction::Stop
    ));
}

fn v6(gs: [u16; 8], port: u16) -> Addr {
    Addr::V6 {
        g0: gs[0],
        g1: gs[1],
        g2: gs[2],
        g3: gs[3],
        g4: gs[4],
        g5: gs[5],
        g6: gs[6],
        g7: gs[7],
        port,
    }
}

#[test]
fn forwarded_rendering() {
    assert_eq!(
        render_forwarded(&v4(1, 2, 3, 4, 80)),
        b"for=1.2.3.4:80".to_vec()
    );
    assert_eq!(
        render_forwarded(&v4(255, 255, 255, 255, 65535)),
        b"for=255.255.255.255:65535".to_vec()
    );
    // The longest zero run shortens to `::`.
    assert_eq!(
        render_forwarded(&v6([0x2001, 0xdb8, 0, 0, 0, 0, 0, 1], 8080)),
        b"for=\"[2001:db8::1]:8080\"".to_vec()
    );
    assert_eq!(
        render_forwarded(&v6([0, 0, 0, 0, 0, 0, 0, 1], 443)),
        b"for=\"[::1]:443\"".to_vec()
    );
    assert_eq!(
        render_forwarded(&v6([0, 0, 0, 0, 0, 0, 0, 0], 1)),
        b"for=\"[::]:1\"".to_vec()
    );
    // A lone zero group stays written out.
    assert_eq!(
        render_forwarded(&v6([1, 2, 3, 0, 5, 6, 7, 8], 80)),
        b"for=\"[1:2:3:0:5:6:7:8]:80\"".to_vec()
    );
    // Of two equal runs the leftmost is shortened.
    assert_eq!(
        render_forwarded(&v6([1, 0, 0, 2, 0, 0, 3, 4], 80)),
        b"for=\"[1::2:0:0:3:4]:80\"".to_vec()
    );
    // An IPv4-mapped address keeps its dotted quad.
    assert_eq!(
        render_forwarded(&v6([0, 0, 0, 0, 0, 0xffff, 0x0102, 0x0304], 80)),
        b"for=\"[::ffff:1.2.3.4]:80\"".to_vec()
    );
}

#[test]
fn route_patterns_are_anchored() {
    let set = compile_public_routes(&vec![b"/healthz".to_vec(), b"/v[12]/status".to_vec()])
        .expect("patterns compile");
    let server = authproxy::config::Server {
        name: b"api.example".to_vec(),
        listen: v4(127, 0, 0, 1, 8080),
        upstream: b"backend:9000".to_vec(),
        upstream_tls: false,
        public_routes: set,
        tls: None,
    };
    let path = |p: &str| Uri {
        scheme: None,
        authority: None,
        path: p.as_bytes().to_vec(),
        query: None,
    };
    assert!(server.is_public_route(&path("/healthz")));
    assert!(server.is_public_route(&path("/v2/status")));
    assert!(!server.is_public_route(&path("/healthzz")));
    assert!(!server.is_public_route(&path("/a/healthz")));
    assert!(!server.is_public_route(&path("/v1/me")));
}

#[test]
fn bad_route_pattern_is_refused() {
    assert!(compile_public_routes(&vec![b"(".to_vec()]).is_none());
}

#[test]
fn tls_detection_by_first_byte() {
    assert_eq!(detect(TLS_START_BYTE), Proto::Tls);
    assert_eq!(detect(0x47), Proto::Plain);
    assert_eq!(detect(0), Proto::Plain);
}

#[test]
fn env_key_indirection() {
    assert_eq!(extract_env_key("ENV[CLIENT_SECRET]"), Some("CLIENT_SECRET"));
    assert_eq!(extract_env_key("ENV[]"), Some(""));
    assert_eq!(extract_env_key("plain-value"), None);
    assert_eq!(extract_env_key("ENV[unclosed"), None);
    assert_eq!(extract_env_key("env[lower]"), None);
}
