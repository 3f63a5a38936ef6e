use vstd::prelude::*;

use base64::Engine;

use crate::error::Error;

verus! {

/// The type of an engine.io packet.
#[derive(Clone, Copy, Debug, PartialEq, Eq, Structural)]
pub enum PacketId {
    Open,
    Close,
    Ping,
    Pong,
    Message,
    MessageBinary,
    Upgrade,
    Noop,
}

/// An engine.io packet: its type and its body.
#[derive(Clone, Debug, PartialEq, Eq)]
pub struct Packet {
    pub packet_id: PacketId,
    pub data: Vec<u8>,
}

/// The mathematical value of a packet.
pub struct PacketView {
    pub packet_id: PacketId,
    pub data: Seq<u8>,
}

impl View for Packet {
    type V = PacketView;

    open spec fn view(&self) -> PacketView {
        PacketView { packet_id: self.packet_id, data: self.data@ }
    }
}

/// The server's answer to the opening request: the session id, the
/// transports that the session may be upgraded to, and its timing limits.
#[derive(Clone, Debug, PartialEq, Eq)]
pub struct HandshakePacket {
    pub sid: String,
    pub upgrades: Vec<String>,
    pub ping_interval: u64,
    pub ping_timeout: u64,
    pub max_payload: u64,
}

/// Whether two handshakes hold the same values.
pub open spec fn same_handshake(a: HandshakePacket, b: HandshakePacket) -> bool {
    &&& a.sid == b.sid
    &&& a.upgrades@ == b.upgrades@
    &&& a.ping_interval == b.ping_interval
    &&& a.ping_timeout == b.ping_timeout
    &&& a.max_payload == b.max_payload
}

impl HandshakePacket {
    /// A copy of the handshake.
    pub fn duplicate(&self) -> (h: HandshakePacket)
        ensures
            same_handshake(h, *self),
    {
        let mut upgrades: Vec<String> = Vec::new();
        let mut i: usize = 0;
        while i < self.upgrades.len()
            invariant
                i <= self.upgrades@.len(),
                upgrades@ == self.upgrades@.take(i as int),
            decreases self.upgrades@.len() - i,
        {
            upgrades.push(self.upgrades[i].clone());
            assert(self.upgrades@.take(i + 1) == self.upgrades@.take(i as int).push(self.upgrades@[i as int]));
            i = i + 1;
        }
        assert(self.upgrades@.take(self.upgrades@.len() as int) == self.upgrades@);
        HandshakePacket {
            sid: self.sid.clone(),
            upgrades,
            ping_interval: self.ping_interval,
            ping_timeout: self.ping_timeout,
            max_payload: self.max_payload,
        }
    }
}

/// The byte that separates packets in a payload.
pub const SEPARATOR: u8 = 0x1e;

/// The byte that stands for a packet type on the wire: `'0'` .. `'6'`, and
/// `'b'` for a base64-encoded binary message.
pub open spec fn id_byte(id: PacketId) -> u8 {
    match id {
        PacketId::Open => 0x30,
        PacketId::Close => 0x31,
        PacketId::Ping => 0x32,
        PacketId::Pong => 0x33,
        PacketId::Message => 0x34,
        PacketId::Upgrade => 0x35,
        PacketId::Noop => 0x36,
        PacketId::MessageBinary => 0x62,
    }
}

/// The packet type that a digit `'0'` .. `'6'` stands for.
pub open spec fn id_of_digit(b: u8) -> Option<PacketId> {
    if b == 0x30 {
        Some(PacketId::Open)
    } else if b == 0x31 {
        Some(PacketId::Close)
    } else if b == 0x32 {
        Some(PacketId::Ping)
    } else if b == 0x33 {
        Some(PacketId::Pong)
    } else if b == 0x34 {
        Some(PacketId::Message)
    } else if b == 0x35 {
        Some(PacketId::Upgrade)
    } else if b == 0x36 {
        Some(PacketId::Noop)
    } else {
        None
    }
}

/// The standard base64 encoding (with padding) of `data`, as bytes.
pub uninterp spec fn base64_encoding(data: Seq<u8>) -> Seq<u8>;

/// The bytes that the standard base64 text `text` decodes to, if it is valid.
pub uninterp spec fn base64_decoding(text: Seq<u8>) -> Option<Seq<u8>>;

/// Encodes `data` with the standard base64 alphabet and padding.
/// Calls `base64::engine::general_purpose::STANDARD.encode`; the contract
/// claims that the result is a function of `data` and that the same
/// engine's `decode` gives `data` back from it.
#[verifier::external_body]
fn base64_encode(data: &[u8]) -> (res: Vec<u8>)
    requires
        data@.len() <= usize::MAX / 2,
    ensures
        res@ == base64_encoding(data@),
        base64_decoding(res@) == Some(data@),
{
    base64::engine::general_purpose::STANDARD.encode(data).into_bytes()
}

/// Decodes standard base64 (with padding) text.
/// Calls `base64::engine::general_purpose::STANDARD.decode`; the contract
/// claims that the result is a function of `text`, `None` standing for the
/// decoding error.
#[verifier::external_body]
fn base64_decode(text: &[u8]) -> (res: Option<Vec<u8>>)
    ensures
        match res {
            Some(v) => base64_decoding(text@) == Some(v@),
            None => base64_decoding(text@) is None,
        },
{
    base64::engine::general_purpose::STANDARD.decode(text).ok()
}

/// The wire form of a packet: the type byte, then the body; the body of a
/// binary message is base64-encoded.
pub open spec fn packet_encoding(p: PacketView) -> Seq<u8> {
    if p.packet_id == PacketId::MessageBinary {
        seq![id_byte(p.packet_id)] + base64_encoding(p.data)
    } else {
        seq![id_byte(p.packet_id)] + p.data
    }
}

/// What the wire form `bytes` decodes to.
pub open spec fn packet_decoding(bytes: Seq<u8>) -> Result<PacketView, Error> {
    if bytes.len() == 0 {
        Err(Error::IncompletePacket())
    } else if bytes[0] == 0x62u8 {
        match base64_decoding(bytes.drop_first()) {
            Some(d) => Ok(PacketView { packet_id: PacketId::MessageBinary, data: d }),
            None => Err(Error::InvalidBase64()),
        }
    } else {
        match id_of_digit(bytes[0]) {
            None => Err(Error::InvalidPacketId(bytes[0])),
            Some(id) => if bytes.len() == 1 && id == PacketId::Message {
                Err(Error::IncompletePacket())
            } else {
                Ok(PacketView { packet_id: id, data: bytes.drop_first() })
            },
        }
    }
}

impl PacketId {
    /// The byte that stands for this packet type on the wire.
    pub fn to_byte(self) -> (b: u8)
        ensures
            b == id_byte(self),
    {
        match self {
            PacketId::Open => 0x30,
            PacketId::Close => 0x31,
            PacketId::Ping => 0x32,
            PacketId::Pong => 0x33,
            PacketId::Message => 0x34,
            PacketId::Upgrade => 0x35,
            PacketId::Noop => 0x36,
            PacketId::MessageBinary => 0x62,
        }
    }

    /// The packet type of a digit `'0'` .. `'6'`, or `InvalidPacketId`.
    pub fn from_byte(b: u8) -> (res: Result<PacketId, Error>)
        ensures
            match id_of_digit(b) {
                Some(id) => res == Ok::<PacketId, Error>(id),
                None => res == Err::<PacketId, Error>(Error::InvalidPacketId(b)),
            },
    {
        if b == 0x30 {
            Ok(PacketId::Open)
        } else if b == 0x31 {
            Ok(PacketId::Close)
        } else if b == 0x32 {
            Ok(PacketId::Ping)
        } else if b == 0x33 {
            Ok(PacketId::Pong)
        } else if b == 0x34 {
            Ok(PacketId::Message)
        } else if b == 0x35 {
            Ok(PacketId::Upgrade)
        } else if b == 0x36 {
            Ok(PacketId::Noop)
        } else {
            Err(Error::InvalidPacketId(b))
        }
    }
}

/// Copies a byte slice into a new vector.
fn bytes_to_vec(s: &[u8], from: usize, to: usize) -> (v: Vec<u8>)
    requires
        from <= to <= s@.len(),
    ensures
        v@ == s@.subrange(from as int, to as int),
{
    let mut v: Vec<u8> = Vec::new();
    let mut i: usize = from;
    while i < to
        invariant
            from <= i <= to <= s@.len(),
            v@ == s@.subrange(from as int, i as int),
        decreases to - i,
    {
        v.push(s[i]);
        i = i + 1;
    }
    v
}

impl Packet {
    /// A packet of the given type and body.
    pub fn new(packet_id: PacketId, data: Vec<u8>) -> (p: Packet)
        ensures
            p@ == (PacketView { packet_id, data: data@ }),
    {
        Packet { packet_id, data }
    }

    /// A copy of this packet.
    pub fn duplicate(&self) -> (p: Packet)
        ensures
            p@ == self@,
    {
        let data = bytes_to_vec(self.data.as_slice(), 0, self.data.len());
        assert(self.data@.subrange(0, self.data@.len() as int) == self.data@);
        Packet { packet_id: self.packet_id, data }
    }

    /// The wire form of this packet.
    pub fn encode(&self) -> (bytes: Vec<u8>)
        requires
            self.data@.len() <= usize::MAX / 2,
        ensures
            bytes@ == packet_encoding(self@),
            !(self.packet_id == PacketId::Message && self.data@.len() == 0) ==> packet_decoding(bytes@)
                == Ok::<PacketView, Error>(self@),
    {
        let mut out: Vec<u8> = Vec::new();
        out.push(self.packet_id.to_byte());
        let body = if self.packet_id == PacketId::MessageBinary {
            let encoded = base64_encode(self.data.as_slice());
            proof {
                law_packet_roundtrip(self@);
            }
            encoded
        } else {
            let v = bytes_to_vec(self.data.as_slice(), 0, self.data.len());
            assert(self.data@.subrange(0, self.data@.len() as int) == self.data@);
            v
        };
        let mut body = body;
        out.append(&mut body);
        proof {
            if self.packet_id != PacketId::MessageBinary && !(self.packet_id == PacketId::Message
                && self.data@.len() == 0) {
                law_packet_roundtrip(self@);
            }
        }
        out
    }

    /// Reads a packet from `bytes[from..to]`.
    pub fn decode_range(bytes: &[u8], from: usize, to: usize) -> (res: Result<Packet, Error>)
        requires
            from <= to <= bytes@.len(),
        ensures
            match packet_decoding(bytes@.subrange(from as int, to as int)) {
                Ok(p) => res matches Ok(q) && q@ == p,
                Err(e) => res == Err::<Packet, Error>(e),
            },
    {
        let ghost s = bytes@.subrange(from as int, to as int);
        if from == to {
            return Err(Error::IncompletePacket());
        }
        let first = bytes[from];
        assert(s[0] == first);
        assert(s.drop_first() == bytes@.subrange(from + 1, to as int));
        if first == 0x62u8 {
            let body = bytes_to_vec(bytes, from + 1, to);
            match base64_decode(body.as_slice()) {
                Some(d) => Ok(Packet { packet_id: PacketId::MessageBinary, data: d }),
                None => Err(Error::InvalidBase64()),
            }
        } else {
            let id = PacketId::from_byte(first)?;
            if to - from == 1 && id == PacketId::Message {
                return Err(Error::IncompletePacket());
            }
            Ok(Packet { packet_id: id, data: bytes_to_vec(bytes, from + 1, to) })
        }
    }

    /// Reads a packet from its wire form.
    pub fn decode(bytes: &[u8]) -> (res: Result<Packet, Error>)
        ensures
            match packet_decoding(bytes@) {
                Ok(p) => res matches Ok(q) && q@ == p,
                Err(e) => res == Err::<Packet, Error>(e),
            },
    {
        assert(bytes@.subrange(0, bytes@.len() as int) == bytes@);
        Packet::decode_range(bytes, 0, bytes.len())
    }
}


/// The records of a payload: the byte runs between separators, in order.
/// A payload without separators is one record; `n` separators make `n + 1`.
pub open spec fn payload_records(bytes: Seq<u8>) -> Seq<Seq<u8>>
    decreases bytes.len(),
{
    if bytes.len() == 0 {
        seq![Seq::<u8>::empty()]
    } else {
        let init = payload_records(bytes.drop_last());
        if bytes.last() == SEPARATOR {
            init.push(Seq::<u8>::empty())
        } else {
            init.update(init.len() - 1, init.last().push(bytes.last()))
        }
    }
}

/// The packets that the records decode to, or the error of the first record
/// that does not decode.
pub open spec fn records_decoding(records: Seq<Seq<u8>>) -> Result<Seq<PacketView>, Error>
    decreases records.len(),
{
    if records.len() == 0 {
        Ok(Seq::<PacketView>::empty())
    } else {
        match records_decoding(records.drop_last()) {
            Err(e) => Err(e),
            Ok(ps) => match packet_decoding(records.last()) {
                Err(e) => Err(e),
                Ok(p) => Ok(ps.push(p)),
            },
        }
    }
}

/// What a payload decodes to: the packets of its records, in order.
pub open spec fn payload_decoding(bytes: Seq<u8>) -> Result<Seq<PacketView>, Error> {
    records_decoding(payload_records(bytes))
}

/// A payload has at least one record.
pub proof fn lemma_payload_records_nonempty(bytes: Seq<u8>)
    ensures
        payload_records(bytes).len() >= 1,
    decreases bytes.len(),
{
    if bytes.len() > 0 {
        lemma_payload_records_nonempty(bytes.drop_last());
    }
}

/// Once a prefix of the records fails to decode, the whole does, with the
/// same error.
proof fn lemma_records_decoding_prefix_error(records: Seq<Seq<u8>>, k: int)
    requires
        0 <= k <= records.len(),
        records_decoding(records.take(k)) is Err,
    ensures
        records_decoding(records) == records_decoding(records.take(k)),
    decreases records.len() - k,
{
    if k < records.len() {
        let next = records.take(k + 1);
        assert(next.drop_last() == records.take(k));
        lemma_records_decoding_prefix_error(records, k + 1);
    } else {
        assert(records.take(k) == records);
    }
}

/// The view of a list of byte vectors.
pub open spec fn byte_runs_view(v: Seq<Vec<u8>>) -> Seq<Seq<u8>> {
    v.map_values(|r: Vec<u8>| r@)
}

/// The view of a list of packets.
pub open spec fn packets_view(v: Seq<Packet>) -> Seq<PacketView> {
    v.map_values(|p: Packet| p@)
}

/// Splits a payload into its records.
fn split_payload(bytes: &[u8]) -> (records: Vec<Vec<u8>>)
    ensures
        byte_runs_view(records@) == payload_records(bytes@),
{
    let mut done: Vec<Vec<u8>> = Vec::new();
    let mut cur: Vec<u8> = Vec::new();
    let mut i: usize = 0;
    while i < bytes.len()
        invariant
            i <= bytes@.len(),
            byte_runs_view(done@).push(cur@) == payload_records(bytes@.take(i as int)),
        decreases bytes@.len() - i,
    {
        let b = bytes[i];
        proof {
            let pre = bytes@.take(i as int);
            let next = bytes@.take(i + 1);
            assert(next.drop_last() == pre);
            assert(next.last() == b);
            lemma_payload_records_nonempty(pre);
        }
        if b == SEPARATOR {
            let ghost old_done = done@;
            let finished = cur;
            done.push(finished);
            cur = Vec::new();
            assert(byte_runs_view(done@) == byte_runs_view(old_done).push(finished@));
        } else {
            let ghost old_cur = cur@;
            cur.push(b);
            assert(byte_runs_view(done@).push(cur@) == byte_runs_view(done@).push(old_cur).update(
                byte_runs_view(done@).len() as int,
                old_cur.push(b),
            ));
        }
        i = i + 1;
    }
    assert(bytes@.take(bytes@.len() as int) == bytes@);
    let ghost old_done = done@;
    done.push(cur);
    assert(byte_runs_view(done@) == byte_runs_view(old_done).push(cur@));
    done
}

/// Reads the packets of a payload, in order.
pub fn decode_payload(bytes: &[u8]) -> (res: Result<Vec<Packet>, Error>)
    ensures
        match payload_decoding(bytes@) {
            Ok(ps) => res matches Ok(v) && packets_view(v@) == ps,
            Err(e) => res == Err::<Vec<Packet>, Error>(e),
        },
{
    let records = split_payload(bytes);
    let ghost rs = payload_records(bytes@);
    let mut packets: Vec<Packet> = Vec::new();
    let mut k: usize = 0;
    assert(rs.take(0) == Seq::<Seq<u8>>::empty());
    assert(packets_view(packets@) == Seq::<PacketView>::empty());
    while k < records.len()
        invariant
            k <= records@.len(),
            byte_runs_view(records@) == rs,
            rs == payload_records(bytes@),
            records_decoding(rs.take(k as int)) == Ok::<Seq<PacketView>, Error>(packets_view(packets@)),
        decreases records@.len() - k,
    {
        let rec = &records[k];
        proof {
            assert(rs.take(k + 1).drop_last() == rs.take(k as int));
            assert(rs[k as int] == rec@);
            assert(rs.take(k + 1).last() == rec@);
            assert(rec@.subrange(0, rec@.len() as int) == rec@);
        }
        match Packet::decode_range(rec.as_slice(), 0, rec.len()) {
            Ok(p) => {
                let ghost old_packets = packets@;
                packets.push(p);
                assert(packets_view(packets@) == packets_view(old_packets).push(p@));
            },
            Err(e) => {
                proof {
                    assert(records_decoding(rs.take(k + 1)) == Err::<Seq<PacketView>, Error>(e));
                    lemma_records_decoding_prefix_error(rs, k + 1);
                }
                return Err(e);
            },
        }
        k = k + 1;
    }
    assert(rs.take(records@.len() as int) == rs);
    Ok(packets)
}

/// Decoding inverts encoding for every packet but an empty text message
/// (whose wire form `"4"` is refused as incomplete). For a binary message
/// it rests on the base64 engine decoding what it encoded, which the
/// encoding wrapper states.
pub proof fn law_packet_roundtrip(p: PacketView)
    requires
        !(p.packet_id == PacketId::Message && p.data.len() == 0),
        p.packet_id == PacketId::MessageBinary ==> base64_decoding(base64_encoding(p.data)) == Some(p.data),
    ensures
        packet_decoding(packet_encoding(p)) == Ok::<PacketView, Error>(p),
{
    let e = packet_encoding(p);
    assert(e[0] == id_byte(p.packet_id));
    if p.packet_id == PacketId::MessageBinary {
        assert(e.drop_first() == base64_encoding(p.data));
    } else {
        assert(e.drop_first() == p.data);
        assert(id_of_digit(id_byte(p.packet_id)) == Some(p.packet_id));
    }
}

/// A payload that decodes gives one packet per record: never none, and one
/// more than it has separators.
pub proof fn law_payload_packet_count(bytes: Seq<u8>)
    ensures
        payload_decoding(bytes) matches Ok(ps) ==> ps.len() == payload_records(bytes).len() && ps.len() >= 1,
{
    lemma_payload_records_nonempty(bytes);
    lemma_records_decoding_len(payload_records(bytes));
}

/// Decoding keeps the number of records.
pub proof fn lemma_records_decoding_len(records: Seq<Seq<u8>>)
    ensures
        records_decoding(records) matches Ok(ps) ==> ps.len() == records.len(),
    decreases records.len(),
{
    if records.len() > 0 {
        lemma_records_decoding_len(records.drop_last());
    }
}

/// The records of a payload put back together, a separator between each
/// two.
pub open spec fn joined_records(records: Seq<Seq<u8>>) -> Seq<u8>
    decreases records.len(),
{
    if records.len() == 0 {
        Seq::<u8>::empty()
    } else if records.len() == 1 {
        records[0]
    } else {
        joined_records(records.drop_last()) + seq![SEPARATOR] + records.last()
    }
}

/// Extending the last record extends the joined payload.
proof fn lemma_joined_extend_last(records: Seq<Seq<u8>>, x: u8)
    requires
        records.len() >= 1,
    ensures
        joined_records(records.update(records.len() - 1, records.last().push(x))) == joined_records(records).push(x),
{
    let r2 = records.update(records.len() - 1, records.last().push(x));
    if records.len() > 1 {
        assert(r2.drop_last() =~= records.drop_last());
        assert(joined_records(r2) =~= joined_records(records).push(x));
    }
}

/// With two records or more, the joined payload holds a separator.
proof fn lemma_joined_has_separator(records: Seq<Seq<u8>>)
    requires
        records.len() >= 2,
    ensures
        joined_records(records).contains(SEPARATOR),
{
    let head = joined_records(records.drop_last());
    let j = joined_records(records);
    assert(j[head.len() as int] == SEPARATOR);
}

/// A payload splits exactly at its separator bytes: no record holds a
/// separator, and the records joined with separators give the payload back.
/// So a payload without a separator is one record, the whole payload.
pub proof fn law_payload_records_split_at_separators(bytes: Seq<u8>)
    ensures
        forall|i: int| 0 <= i < payload_records(bytes).len() ==> !(#[trigger] payload_records(bytes)[i]).contains(SEPARATOR),
        joined_records(payload_records(bytes)) == bytes,
        !bytes.contains(SEPARATOR) ==> payload_records(bytes) == seq![bytes],
    decreases bytes.len(),
{
    let rs = payload_records(bytes);
    lemma_payload_records_nonempty(bytes);
    if bytes.len() == 0 {
        assert(rs =~= seq![Seq::<u8>::empty()]);
        assert(joined_records(rs) =~= bytes);
    } else {
        let pre = bytes.drop_last();
        let init = payload_records(pre);
        law_payload_records_split_at_separators(pre);
        lemma_payload_records_nonempty(pre);
        let x = bytes.last();
        if x == SEPARATOR {
            assert(rs == init.push(Seq::<u8>::empty()));
            assert(rs.drop_last() =~= init);
            assert(joined_records(rs) =~= bytes);
            assert forall|i: int| 0 <= i < rs.len() implies !(#[trigger] rs[i]).contains(SEPARATOR) by {
                if i < init.len() {
                    assert(rs[i] == init[i]);
                }
            }
        } else {
            assert(rs == init.update(init.len() - 1, init.last().push(x)));
            lemma_joined_extend_last(init, x);
            assert(pre.push(x) =~= bytes);
            assert forall|i: int| 0 <= i < rs.len() implies !(#[trigger] rs[i]).contains(SEPARATOR) by {
                if i < init.len() - 1 {
                    assert(rs[i] == init[i]);
                } else {
                    let r = init.last();
                    assert(rs[i] == r.push(x));
                    if r.push(x).contains(SEPARATOR) {
                        let k = choose|k: int| 0 <= k < r.push(x).len() && r.push(x)[k] == SEPARATOR;
                        if k < r.len() {
                            assert(init[init.len() - 1].contains(SEPARATOR));
                        }
                    }
                }
            }
        }
        if !bytes.contains(SEPARATOR) {
            if rs.len() >= 2 {
                lemma_joined_has_separator(rs);
            }
            assert(rs.len() == 1);
            assert(rs =~= seq![bytes]);
        }
    }
}

} // verus!
