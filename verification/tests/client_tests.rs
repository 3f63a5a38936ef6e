use rust_engineio::{Client, Effect, Error, HandshakePacket, Packet, PacketId, PollStep, Step, V4Socket};

fn handshake(upgrades: &[&str]) -> HandshakePacket {
    HandshakePacket {
        sid: "abc123".to_string(),
        upgrades: upgrades.iter().map(|u| u.to_string()).collect(),
        ping_interval: 25000,
        ping_timeout: 20000,
        max_payload: 100000,
    }
}

fn client() -> Client {
    Client::new(V4Socket::new(handshake(&["websocket"])))
}

fn transmit(data: &[u8], is_binary: bool) -> Effect {
    Effect::Transmit { data: data.to_vec(), is_binary }
}

#[test]
fn new_client_is_not_connected() {
    let c = client();
    assert!(!c.is_connected());
}

#[test]
fn emit_before_connect_is_refused() {
    let c = client();
    let step = c.emit(Packet::new(PacketId::Close, vec![]));
    assert_eq!(
        step,
        Step {
            effects: vec![Effect::ErrorCallback(Error::IllegalActionBeforeOpen())],
            outcome: Err(Error::IllegalActionBeforeOpen()),
            closes: false,
        }
    );
}

#[test]
fn connect_opens_and_sends_pong() {
    let mut c = client();
    let step = c.connect();
    assert!(c.is_connected());
    assert_eq!(
        step,
        Step {
            effects: vec![Effect::OpenCallback, Effect::RecordPing, transmit(b"3", false)],
            outcome: Ok(()),
            closes: false,
        }
    );
}

#[test]
fn emit_after_connect_transmits() {
    let mut c = client();
    c.connect();
    let text = c.emit(Packet::new(PacketId::Message, b"respond".to_vec()));
    assert_eq!(text, Step { effects: vec![transmit(b"4respond", false)], outcome: Ok(()), closes: false });
    let binary = c.emit(Packet::new(PacketId::MessageBinary, vec![1, 2, 3]));
    assert_eq!(binary, Step { effects: vec![transmit(&[1, 2, 3], true)], outcome: Ok(()), closes: false });
}

#[test]
fn disconnect_sends_close_then_closes() {
    let mut c = client();
    c.connect();
    let step = c.disconnect();
    assert_eq!(
        step,
        Step { effects: vec![Effect::CloseCallback, transmit(b"1", false)], outcome: Ok(()), closes: true }
    );
    assert!(c.is_connected());
    let mut run = step.start();
    assert_eq!(run.next_effect(), Some(Effect::CloseCallback));
    assert_eq!(run.next_effect(), Some(transmit(b"1", false)));
    assert_eq!(run.next_effect(), None);
    assert_eq!(c.finish(run), Ok(()));
    assert!(!c.is_connected());
    assert_eq!(c.close(), Step {
        effects: vec![Effect::CloseCallback, Effect::ErrorCallback(Error::IllegalActionBeforeOpen())],
        outcome: Err(Error::IllegalActionBeforeOpen()),
        closes: true,
    });
}

#[test]
fn failed_disconnect_stays_connected() {
    let mut c = client();
    c.connect();
    let mut run = c.disconnect().start();
    assert_eq!(run.next_effect(), Some(Effect::CloseCallback));
    assert_eq!(run.next_effect(), Some(transmit(b"1", false)));
    run.transmission_failed(Error::Transport("connection reset".to_string()));
    assert_eq!(
        run.next_effect(),
        Some(Effect::ErrorCallback(Error::Transport("connection reset".to_string())))
    );
    assert_eq!(run.next_effect(), None);
    assert_eq!(c.finish(run), Err(Error::Transport("connection reset".to_string())));
    assert!(c.is_connected());
}

#[test]
fn failed_transmission_skips_the_rest() {
    let mut c = client();
    let mut run = c.connect().start();
    assert_eq!(run.next_effect(), Some(Effect::OpenCallback));
    assert_eq!(run.next_effect(), Some(Effect::RecordPing));
    assert_eq!(run.next_effect(), Some(transmit(b"3", false)));
    run.transmission_failed(Error::Transport("down".to_string()));
    assert_eq!(run.next_effect(), Some(Effect::ErrorCallback(Error::Transport("down".to_string()))));
    assert_eq!(run.next_effect(), None);
    assert_eq!(c.finish(run), Err(Error::Transport("down".to_string())));
    assert!(c.is_connected());
}

#[test]
fn finishing_other_steps_keeps_the_connection() {
    let mut c = client();
    c.connect();
    let run = c.emit(Packet::new(PacketId::Message, b"x".to_vec())).start();
    assert_eq!(c.finish(run), Ok(()));
    assert!(c.is_connected());
}

#[test]
fn successive_payloads_come_out_concatenated() {
    let mut c = client();
    c.connect();
    let payloads: Vec<&[u8]> = vec![&b"4a\x1e4b"[..], &b""[..], &b"4c"[..], &b"2\x1e4d"[..]];
    let mut out = Vec::new();
    let mut next = 0;
    loop {
        match c.next_buffered() {
            PollStep::Closed => break,
            PollStep::Ready(p) => out.push(p),
            PollStep::NeedPayload => {
                if next == payloads.len() {
                    break;
                }
                if let Some(p) = c.accept_payload(payloads[next]).unwrap() {
                    out.push(p);
                }
                next += 1;
            }
        }
    }
    let m = |d: &[u8]| Packet::new(PacketId::Message, d.to_vec());
    assert_eq!(out, vec![m(b"a"), m(b"b"), m(b"c"), Packet::new(PacketId::Ping, vec![]), m(b"d")]);
}

#[test]
fn polling_a_closed_socket_gives_nothing() {
    let mut c = client();
    assert_eq!(c.next_buffered(), PollStep::Closed);
}

#[test]
fn payload_packets_come_out_in_order() {
    let mut c = client();
    c.connect();
    assert_eq!(c.next_buffered(), PollStep::NeedPayload);
    assert_eq!(c.accept_payload(b""), Ok(None));
    let first = c.accept_payload(b"4hello client\x1e2\x1e6");
    assert_eq!(first, Ok(Some(Packet::new(PacketId::Message, b"hello client".to_vec()))));
    assert_eq!(c.next_buffered(), PollStep::Ready(Packet::new(PacketId::Ping, vec![])));
    assert_eq!(c.next_buffered(), PollStep::Ready(Packet::new(PacketId::Noop, vec![])));
    assert_eq!(c.next_buffered(), PollStep::NeedPayload);
}

#[test]
fn bad_payload_keeps_the_buffer() {
    let mut c = client();
    c.connect();
    assert_eq!(c.accept_payload(b"4a\x1e4b\x1e4c"), Ok(Some(Packet::new(PacketId::Message, b"a".to_vec()))));
    assert_eq!(c.accept_payload(b"x"), Err(Error::InvalidPacketId(b'x')));
    assert_eq!(c.next_buffered(), PollStep::Ready(Packet::new(PacketId::Message, b"b".to_vec())));
}

#[test]
fn message_goes_to_packet_and_data_callbacks() {
    let mut c = client();
    c.connect();
    let p = Packet::new(PacketId::Message, b"hello".to_vec());
    let step = c.poll(p.clone());
    assert_eq!(
        step,
        Step {
            effects: vec![Effect::PacketCallback(p), Effect::DataCallback(b"hello".to_vec())],
            outcome: Ok(()),
            closes: false,
        }
    );
    let b = Packet::new(PacketId::MessageBinary, vec![9]);
    let step = c.poll(b.clone());
    assert_eq!(step.effects, vec![Effect::PacketCallback(b), Effect::DataCallback(vec![9])]);
    assert!(c.is_connected());
}

#[test]
fn ping_is_answered_with_pong() {
    let mut c = client();
    c.connect();
    let p = Packet::new(PacketId::Ping, vec![]);
    let step = c.poll(p.clone());
    assert_eq!(
        step,
        Step {
            effects: vec![Effect::PacketCallback(p), Effect::RecordPing, transmit(b"3", false)],
            outcome: Ok(()),
            closes: false,
        }
    );
}

#[test]
fn close_packet_closes_the_connection() {
    let mut c = client();
    c.connect();
    c.accept_payload(b"1\x1e4after").unwrap();
    let step = c.poll(Packet::new(PacketId::Close, vec![]));
    assert_eq!(
        step.effects,
        vec![Effect::PacketCallback(Packet::new(PacketId::Close, vec![])), Effect::CloseCallback]
    );
    assert_eq!(step.outcome, Ok(()));
    assert!(!c.is_connected());
    assert_eq!(c.next_buffered(), PollStep::Closed);
}

#[test]
fn upgrade_and_noop_only_reach_the_packet_callback() {
    let mut c = client();
    c.connect();
    for id in [PacketId::Upgrade, PacketId::Noop] {
        let p = Packet::new(id, vec![]);
        let step = c.poll(p.clone());
        assert_eq!(step, Step { effects: vec![Effect::PacketCallback(p)], outcome: Ok(()), closes: false });
    }
    assert!(c.is_connected());
}
