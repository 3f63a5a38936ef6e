use rust_engineio::packet::decode_payload;
use rust_engineio::{Error, Packet, PacketId};

fn packet(id: PacketId, data: &[u8]) -> Packet {
    Packet::new(id, data.to_vec())
}

#[test]
fn encode_text_packets() {
    assert_eq!(packet(PacketId::Message, b"hello").encode(), b"4hello".to_vec());
    assert_eq!(packet(PacketId::Open, b"{}").encode(), b"0{}".to_vec());
    assert_eq!(packet(PacketId::Close, b"").encode(), b"1".to_vec());
    assert_eq!(packet(PacketId::Ping, b"").encode(), b"2".to_vec());
    assert_eq!(packet(PacketId::Pong, b"probe").encode(), b"3probe".to_vec());
    assert_eq!(packet(PacketId::Upgrade, b"").encode(), b"5".to_vec());
    assert_eq!(packet(PacketId::Noop, b"").encode(), b"6".to_vec());
}

#[test]
fn encode_binary_packet_as_base64() {
    assert_eq!(packet(PacketId::MessageBinary, &[1, 2, 3]).encode(), b"bAQID".to_vec());
    assert_eq!(packet(PacketId::MessageBinary, &[1, 2]).encode(), b"bAQI=".to_vec());
}

#[test]
fn decode_text_packets() {
    assert_eq!(Packet::decode(b"4hello"), Ok(packet(PacketId::Message, b"hello")));
    assert_eq!(Packet::decode(b"2"), Ok(packet(PacketId::Ping, b"")));
    assert_eq!(Packet::decode(b"2probe"), Ok(packet(PacketId::Ping, b"probe")));
    assert_eq!(Packet::decode(b"6"), Ok(packet(PacketId::Noop, b"")));
}

#[test]
fn decode_binary_packet() {
    assert_eq!(Packet::decode(b"bAQID"), Ok(packet(PacketId::MessageBinary, &[1, 2, 3])));
    assert_eq!(Packet::decode(b"b"), Ok(packet(PacketId::MessageBinary, &[])));
}

#[test]
fn decode_errors() {
    assert_eq!(Packet::decode(b""), Err(Error::IncompletePacket()));
    assert_eq!(Packet::decode(b"4"), Err(Error::IncompletePacket()));
    assert_eq!(Packet::decode(b"9hello"), Err(Error::InvalidPacketId(b'9')));
    assert_eq!(Packet::decode(b"b!!!"), Err(Error::InvalidBase64()));
}

#[test]
fn text_packet_roundtrip() {
    for id in [
        PacketId::Open,
        PacketId::Close,
        PacketId::Ping,
        PacketId::Pong,
        PacketId::Message,
        PacketId::Upgrade,
        PacketId::Noop,
    ] {
        let p = packet(id, b"body");
        assert_eq!(Packet::decode(&p.encode()), Ok(p));
    }
}

#[test]
fn binary_packet_roundtrip() {
    let p = packet(PacketId::MessageBinary, &[0, 255, 7, 30]);
    assert_eq!(Packet::decode(&p.encode()), Ok(p));
}

#[test]
fn empty_message_does_not_roundtrip() {
    let p = packet(PacketId::Message, b"");
    assert_eq!(Packet::decode(&p.encode()), Err(Error::IncompletePacket()));
}

#[test]
fn decode_payload_in_order() {
    let payload = b"4hello\x1e2\x1ebAQI=\x1e4world";
    assert_eq!(
        decode_payload(payload),
        Ok(vec![
            packet(PacketId::Message, b"hello"),
            packet(PacketId::Ping, b""),
            packet(PacketId::MessageBinary, &[1, 2]),
            packet(PacketId::Message, b"world"),
        ])
    );
    assert_eq!(decode_payload(b"3"), Ok(vec![packet(PacketId::Pong, b"")]));
}

#[test]
fn decode_payload_first_error_wins() {
    assert_eq!(decode_payload(b"4a\x1e9\x1e"), Err(Error::InvalidPacketId(b'9')));
    assert_eq!(decode_payload(b"4a\x1e"), Err(Error::IncompletePacket()));
    assert_eq!(decode_payload(b""), Err(Error::IncompletePacket()));
}

#[test]
fn packet_id_bytes() {
    assert_eq!(PacketId::MessageBinary.to_byte(), b'b');
    assert_eq!(PacketId::Noop.to_byte(), b'6');
    assert_eq!(PacketId::from_byte(b'3'), Ok(PacketId::Pong));
    assert_eq!(PacketId::from_byte(b'b'), Err(Error::InvalidPacketId(b'b')));
}
