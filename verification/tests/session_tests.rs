use socks::cipher::Cipher;
use socks::session::{HandshakeError, ServerSession, SessionAction, SessionEvent, SessionState};

fn key_cipher() -> Cipher {
    // byte b encodes to 255 - b
    let key: Vec<u8> = (0..=255u8).rev().collect();
    Cipher::from_key(&key)
}

fn enc(c: &Cipher, data: &[u8]) -> Vec<u8> {
    let mut out = Vec::new();
    c.encode(data, &mut out);
    out
}

fn step(s: &mut ServerSession, c: &Cipher, ev: SessionEvent) -> SessionAction {
    assert!(s.can_step(c, &ev));
    s.step(c, &ev)
}

#[test]
fn full_handshake_and_relay() {
    let c = key_cipher();
    let mut s = ServerSession::new();
    assert_eq!(s.state(), SessionState::AwaitGreeting);

    match step(&mut s, &c, SessionEvent::FromClient(enc(&c, &[5, 1, 0]))) {
        SessionAction::ToClient(reply) => assert_eq!(reply, vec![250, 255]),
        _ => panic!("expected a reply"),
    }
    assert_eq!(s.state(), SessionState::AwaitRequest);

    // CONNECT example.com:8080 by domain name
    let mut req = vec![5u8, 1, 0, 3, 11];
    req.extend_from_slice(b"example.com");
    req.extend_from_slice(&[0x1f, 0x90]);
    match step(&mut s, &c, SessionEvent::FromClient(enc(&c, &req))) {
        SessionAction::Connect { host, port } => {
            assert_eq!(host, "example.com");
            assert_eq!(port, 8080);
        }
        _ => panic!("expected connect"),
    }
    assert_eq!(s.state(), SessionState::AwaitConnect);

    match step(&mut s, &c, SessionEvent::RemoteConnected) {
        SessionAction::ToClient(reply) => assert_eq!(reply, enc(&c, &[5, 0, 0, 1, 0, 0, 0, 0, 0, 0])),
        _ => panic!("expected a reply"),
    }
    assert_eq!(s.state(), SessionState::Relaying);

    match step(&mut s, &c, SessionEvent::FromClient(enc(&c, b"GET /"))) {
        SessionAction::ToRemote(data) => assert_eq!(data, b"GET /".to_vec()),
        _ => panic!("expected data to remote"),
    }
    match step(&mut s, &c, SessionEvent::FromRemote(b"OK".to_vec())) {
        SessionAction::ToClient(data) => assert_eq!(data, enc(&c, b"OK")),
        _ => panic!("expected data to client"),
    }
    assert_eq!(s.state(), SessionState::Relaying);
}

#[test]
fn greeting_must_be_socks5() {
    let c = key_cipher();
    let mut s = ServerSession::new();
    match step(&mut s, &c, SessionEvent::FromClient(enc(&c, &[4, 1, 0]))) {
        SessionAction::Fail(e) => {
            assert_eq!(e, HandshakeError::NotSocks5);
            assert_eq!(e.message(), "only support socks5");
        }
        _ => panic!("expected failure"),
    }
    assert_eq!(s.state(), SessionState::Closed);
    // a closed session ignores everything
    assert!(matches!(step(&mut s, &c, SessionEvent::RemoteConnected), SessionAction::Wait));
    assert!(matches!(step(&mut s, &c, SessionEvent::FromClient(vec![1])), SessionAction::Wait));
    assert_eq!(s.state(), SessionState::Closed);
}

#[test]
fn request_must_name_a_domain() {
    let c = key_cipher();
    let mut s = ServerSession::new();
    step(&mut s, &c, SessionEvent::FromClient(enc(&c, &[5, 1, 0])));
    // address type 1 (IPv4) is refused
    match step(&mut s, &c, SessionEvent::FromClient(enc(&c, &[5, 1, 0, 1, 127, 0, 0, 1, 0, 80]))) {
        SessionAction::Fail(e) => {
            assert_eq!(e, HandshakeError::NotDomain);
            assert_eq!(e.message(), "only support domain");
        }
        _ => panic!("expected failure"),
    }
    assert_eq!(s.state(), SessionState::Closed);
}

#[test]
fn short_or_malformed_requests_are_not_steppable() {
    let c = key_cipher();
    let mut s = ServerSession::new();
    step(&mut s, &c, SessionEvent::FromClient(enc(&c, &[5, 1, 0])));
    // fewer than 4 bytes cannot be examined
    assert!(!s.can_step(&c, &SessionEvent::FromClient(enc(&c, &[5, 1, 0]))));
    // a domain request needs at least 7 bytes
    assert!(!s.can_step(&c, &SessionEvent::FromClient(enc(&c, &[5, 1, 0, 3, 0, 0]))));
    // the host name must be UTF-8
    assert!(!s.can_step(&c, &SessionEvent::FromClient(enc(&c, &[5, 1, 0, 3, 1, 0xff, 0, 80]))));
    // the shortest domain request names the empty host
    match step(&mut s, &c, SessionEvent::FromClient(enc(&c, &[5, 1, 0, 3, 0, 0x01, 0xbb]))) {
        SessionAction::Connect { host, port } => {
            assert_eq!(host, "");
            assert_eq!(port, 443);
        }
        _ => panic!("expected connect"),
    }
}

#[test]
fn bytes_without_entries_are_not_steppable() {
    let c = Cipher::from_key(&[5, 0, 3]);
    let s = ServerSession::new();
    // 9 has no decoding entry
    assert!(!s.can_step(&c, &SessionEvent::FromClient(vec![9, 9, 9])));
}

#[test]
fn events_out_of_order_wait() {
    let c = key_cipher();
    let mut s = ServerSession::new();
    assert!(matches!(step(&mut s, &c, SessionEvent::RemoteConnected), SessionAction::Wait));
    assert!(matches!(step(&mut s, &c, SessionEvent::FromRemote(vec![1, 2])), SessionAction::Wait));
    assert_eq!(s.state(), SessionState::AwaitGreeting);
}
