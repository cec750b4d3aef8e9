use socks::backoff::Backoff;
use socks::conf::{ClientConf, ServerConf};
use socks::shutdown::Shutdown;

#[test]
fn backoff_doubles_then_gives_up() {
    let mut b = Backoff::new();
    let mut delays = Vec::new();
    while let Some(d) = b.on_failure() {
        delays.push(d);
    }
    assert_eq!(delays, vec![1, 2, 4, 8, 16, 32]);
    assert_eq!(b.on_failure(), None);
}

#[test]
fn client_conf_addresses() {
    let conf = ClientConf {
        listen_addr: "127.0.0.1".to_string(),
        port: 1080,
        password: "AgAB".to_string(),
        server_addr: "10.0.0.2".to_string(),
        server_port: 9000,
    };
    assert_eq!(conf.to_listen_addr(), "127.0.0.1:1080");
    assert_eq!(conf.to_server_listen_addr(), "10.0.0.2:9000");
}

#[test]
fn server_conf_address() {
    let conf = ServerConf { listen_addr: "0.0.0.0".to_string(), port: 0 };
    assert_eq!(conf.to_listen_addr(), "0.0.0.0:0");
    let conf = ServerConf { listen_addr: "::1".to_string(), port: 65535 };
    assert_eq!(conf.to_listen_addr(), "::1:65535");
    let conf = ServerConf { listen_addr: "h".to_string(), port: 10 };
    assert_eq!(conf.to_listen_addr(), "h:10");
}

#[test]
fn shutdown_flag_is_sticky() {
    let (tx, rx) = tokio::sync::broadcast::channel::<()>(1);
    let mut s = Shutdown::new(rx);
    assert!(!s.is_shutdown());
    tx.send(()).unwrap();
    let rx = s.pending().expect("not yet received");
    assert!(rx.try_recv().is_ok());
    s.mark_received();
    assert!(s.is_shutdown());
    assert!(s.pending().is_none());
}
