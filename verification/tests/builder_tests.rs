use rust_engineio::builder::{names_websocket, needs_engine_path, websocket_plan};
use rust_engineio::{ClientBuilder, Error, Fallback, HandshakePacket, Packet, PacketId, TransportPlan};

fn handshake(sid: &str, upgrades: &[&str]) -> HandshakePacket {
    HandshakePacket {
        sid: sid.to_string(),
        upgrades: upgrades.iter().map(|u| u.to_string()).collect(),
        ping_interval: 25000,
        ping_timeout: 20000,
        max_payload: 100000,
    }
}

fn builder(url: &str) -> ClientBuilder {
    ClientBuilder::new(url.to_string()).unwrap()
}

fn opened(url: &str, upgrades: &[&str]) -> ClientBuilder {
    let mut b = builder(url);
    b.handshake_with_transport(handshake("abc123", upgrades)).unwrap();
    b
}

/// Sending before connecting fails, polling after connecting works, and a
/// websocket over an unknown scheme is refused (the server's handshake is
/// written by hand).
#[test]
fn test_illegal_actions() {
    let mut sut = opened("http://localhost:4201/", &["websocket"]).into_client();
    assert!(sut.emit(Packet::new(PacketId::Close, vec![])).outcome.is_err());
    sut.connect();
    assert!(sut.accept_payload(b"4hello client").is_ok());
    assert!(builder("fake://fake.fake").build_websocket().is_err());
}

/// A text that is no url is refused, a file url cannot carry a websocket,
/// and a fresh client refuses to send (the server's handshake is written by
/// hand).
#[test]
fn test_open_invariants() {
    assert!(ClientBuilder::new("this is illegal".to_string()).is_err());
    assert!(opened("file:///tmp/foo", &["websocket"]).build().is_err());
    let sut = opened("http://localhost:4201/", &["websocket"]).into_client();
    let error = sut.emit(Packet::new(PacketId::Close, vec![])).outcome;
    assert!(matches!(error, Err(Error::IllegalActionBeforeOpen())));
}

#[test]
fn new_adds_version_and_default_path() {
    assert_eq!(builder("http://localhost:4201/").url(), "http://localhost:4201/engine.io/?EIO=4");
    assert_eq!(builder("http://localhost:4201").url(), "http://localhost:4201/engine.io/?EIO=4");
    assert_eq!(builder("https://example.com/socket/?a=b").url(), "https://example.com/socket/?a=b&EIO=4");
    assert!(!builder("http://localhost:4201/").has_handshake());
}

#[test]
fn new_refuses_what_is_not_a_url() {
    assert_eq!(ClientBuilder::new("not a url".to_string()).unwrap_err(), Error::InvalidUrl());
}

#[test]
fn handshake_appends_session_id_once() {
    let mut b = builder("http://localhost:4201/");
    assert_eq!(b.handshake_with_transport(handshake("abc123", &[])), Ok(()));
    assert_eq!(b.url(), "http://localhost:4201/engine.io/?EIO=4&sid=abc123");
    assert_eq!(b.handshake().as_ref().unwrap().sid, "abc123");
    assert_eq!(b.handshake_with_transport(handshake("other", &["websocket"])), Ok(()));
    assert_eq!(b.url(), "http://localhost:4201/engine.io/?EIO=4&sid=abc123");
    assert_eq!(b.handshake().as_ref().unwrap().sid, "abc123");
}

#[test]
fn websocket_upgrade_ignores_case() {
    assert!(opened("http://localhost:4201/", &["WebSocket"]).websocket_upgrade());
    assert!(opened("http://localhost:4201/", &["polling", "websocket"]).websocket_upgrade());
    assert!(!opened("http://localhost:4201/", &[]).websocket_upgrade());
    assert!(!opened("http://localhost:4201/", &["websockets"]).websocket_upgrade());
}

#[test]
fn build_websocket_by_scheme() {
    let url = "http://localhost:4201/engine.io/?EIO=4".to_string();
    assert_eq!(
        builder("http://localhost:4201/").build_websocket(),
        Ok(TransportPlan::Websocket { secure: false, url, upgrade: false })
    );
    assert!(matches!(
        builder("ws://localhost:4201/").build_websocket(),
        Ok(TransportPlan::Websocket { secure: false, .. })
    ));
    assert!(matches!(
        builder("https://localhost:4202/").build_websocket(),
        Ok(TransportPlan::Websocket { secure: true, .. })
    ));
    assert!(matches!(
        opened("wss://localhost:4202/", &[]).build_websocket(),
        Ok(TransportPlan::Websocket { secure: true, upgrade: true, .. })
    ));
    assert_eq!(
        builder("fake://fake.fake").build_websocket(),
        Err(Error::InvalidUrlScheme("fake".to_string()))
    );
    assert_eq!(
        builder("file:///tmp/foo").build_websocket(),
        Err(Error::InvalidUrlScheme("file".to_string()))
    );
}

#[test]
fn build_prefers_websocket_when_offered() {
    let url = "http://localhost:4201/engine.io/?EIO=4&sid=abc123".to_string();
    assert_eq!(
        opened("http://localhost:4201/", &["websocket"]).build(),
        Ok(TransportPlan::Websocket { secure: false, url: url.clone(), upgrade: true })
    );
    assert_eq!(
        opened("http://localhost:4201/", &[]).build(),
        Ok(TransportPlan::Polling { url: url.clone() })
    );
    assert_eq!(
        opened("http://localhost:4201/", &["websocket"]).build_polling(),
        TransportPlan::Polling { url }
    );
}

#[test]
fn upgrade_needs_the_servers_offer() {
    assert_eq!(
        opened("http://localhost:4201/", &[]).build_websocket_with_upgrade(),
        Err(Error::IllegalWebsocketUpgrade())
    );
    assert!(opened("https://localhost:4202/", &["websocket"]).build_websocket_with_upgrade().is_ok());
}

#[test]
fn client_keeps_the_handshake() {
    let c = opened("http://localhost:4201/", &["websocket"]).into_client();
    assert!(!c.is_connected());
}

#[test]
fn decisions_on_call_results() {
    assert!(needs_engine_path("/"));
    assert!(!needs_engine_path("/engine.io/"));
    assert!(!needs_engine_path(""));
    assert!(names_websocket("websocket"));
    assert!(!names_websocket("WebSocket"));
    assert_eq!(
        websocket_plan("wss".to_string(), "wss://h/".to_string(), true),
        Ok(TransportPlan::Websocket { secure: true, url: "wss://h/".to_string(), upgrade: true })
    );
    assert_eq!(
        websocket_plan("ftp".to_string(), "ftp://h/".to_string(), false),
        Err(Error::InvalidUrlScheme("ftp".to_string()))
    );
}

#[test]
fn fallback_goes_to_polling_only_after_a_failure() {
    let b = builder("http://localhost:4201/");
    assert_eq!(b.build_with_fallback(true), Fallback::Polling);
    assert_eq!(b.build_with_fallback(false), Fallback::KeepFirst);
}

#[test]
fn duplicate_keeps_url_and_handshake() {
    let b = opened("http://localhost:4201/", &["websocket"]);
    let c = b.duplicate();
    assert_eq!(c.url(), b.url());
    assert_eq!(c.handshake(), b.handshake());
}

#[test]
fn new_on_a_url_without_host() {
    assert_eq!(builder("sc:/").url(), "sc:/engine.io/?EIO=4");
    assert_eq!(builder("sc:/a").url(), "sc:/a?EIO=4");
}
