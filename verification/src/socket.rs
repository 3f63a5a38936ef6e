use vstd::prelude::*;

use crate::error::Error;
use crate::packet::{
    decode_payload, lemma_payload_records_nonempty, packet_encoding, packets_view, payload_decoding,
    payload_records, records_decoding, HandshakePacket, Packet, PacketId, PacketView,
};

verus! {

/// Something the socket asks its driver to do, in the order given.
/// A callback effect is carried out only where that callback is registered.
#[derive(Debug, PartialEq, Eq)]
pub enum Effect {
    /// Call the `on_open` callback.
    OpenCallback,
    /// Call the `on_close` callback.
    CloseCallback,
    /// Call the `on_error` callback with the text of the error.
    ErrorCallback(Error),
    /// Call the `on_packet` callback with the packet.
    PacketCallback(Packet),
    /// Call the `on_data` callback with the bytes.
    DataCallback(Vec<u8>),
    /// Remember the current instant as the time of the last ping.
    RecordPing,
    /// Hand the bytes to the transport, as a binary frame where `is_binary`.
    /// Its outcome is told to `StepRun::transmission_failed` where the
    /// transport fails.
    Transmit { data: Vec<u8>, is_binary: bool },
}

/// The mathematical value of an effect.
pub enum EffectView {
    OpenCallback,
    CloseCallback,
    ErrorCallback(Error),
    PacketCallback(PacketView),
    DataCallback(Seq<u8>),
    RecordPing,
    Transmit { data: Seq<u8>, is_binary: bool },
}

impl View for Effect {
    type V = EffectView;

    open spec fn view(&self) -> EffectView {
        match self {
            Effect::OpenCallback => EffectView::OpenCallback,
            Effect::CloseCallback => EffectView::CloseCallback,
            Effect::ErrorCallback(e) => EffectView::ErrorCallback(*e),
            Effect::PacketCallback(p) => EffectView::PacketCallback(p@),
            Effect::DataCallback(d) => EffectView::DataCallback(d@),
            Effect::RecordPing => EffectView::RecordPing,
            Effect::Transmit { data, is_binary } => EffectView::Transmit {
                data: data@,
                is_binary: *is_binary,
            },
        }
    }
}

/// The view of a list of effects.
pub open spec fn effects_view(v: Seq<Effect>) -> Seq<EffectView> {
    v.map_values(|e: Effect| e@)
}

/// The effects of an operation, what it reports once they all succeeded,
/// and whether the connection is closed once they succeeded (`closes`).
#[derive(Debug, PartialEq, Eq)]
pub struct Step {
    pub effects: Vec<Effect>,
    pub outcome: Result<(), Error>,
    pub closes: bool,
}

/// The mathematical value of a step.
pub struct StepView {
    pub effects: Seq<EffectView>,
    pub outcome: Result<(), Error>,
    pub closes: bool,
}

impl View for Step {
    type V = StepView;

    open spec fn view(&self) -> StepView {
        StepView { effects: effects_view(self.effects@), outcome: self.outcome, closes: self.closes }
    }
}

/// What one look into the socket's buffer gives.
#[derive(Debug, PartialEq, Eq)]
pub enum PollStep {
    /// The socket is not connected: polling ends without a packet.
    Closed,
    /// The next packet of the last payload.
    Ready(Packet),
    /// The buffer is empty: the transport must be polled for a payload.
    NeedPayload,
}

/// The mathematical value of a `PollStep`.
pub enum PollStepView {
    Closed,
    Ready(PacketView),
    NeedPayload,
}

impl View for PollStep {
    type V = PollStepView;

    open spec fn view(&self) -> PollStepView {
        match self {
            PollStep::Closed => PollStepView::Closed,
            PollStep::Ready(p) => PollStepView::Ready(p@),
            PollStep::NeedPayload => PollStepView::NeedPayload,
        }
    }
}

/// An engine.io (protocol v4) socket: whether it is connected, the
/// handshake it was opened with, and the packets of the last payload that
/// were not handed out yet.
#[derive(Debug)]
pub struct V4Socket {
    connected: bool,
    connection_data: HandshakePacket,
    remaining_packets: Vec<Packet>,
}

/// The mathematical value of a socket.
pub struct SocketView {
    pub connected: bool,
    pub pending: Seq<PacketView>,
}

impl View for V4Socket {
    type V = SocketView;

    closed spec fn view(&self) -> SocketView {
        SocketView { connected: self.connected, pending: packets_view(self.remaining_packets@) }
    }
}

/// An empty pong packet.
pub open spec fn pong_packet() -> PacketView {
    PacketView { packet_id: PacketId::Pong, data: Seq::<u8>::empty() }
}

/// An empty close packet.
pub open spec fn close_packet() -> PacketView {
    PacketView { packet_id: PacketId::Close, data: Seq::<u8>::empty() }
}

/// What is handed to the transport for a packet: a binary message goes out
/// as its raw bytes in a binary frame, every other packet in its wire form.
pub open spec fn transmission(p: PacketView) -> EffectView {
    if p.packet_id == PacketId::MessageBinary {
        EffectView::Transmit { data: p.data, is_binary: true }
    } else {
        EffectView::Transmit { data: packet_encoding(p), is_binary: false }
    }
}

/// Sending a packet: refused with `IllegalActionBeforeOpen`, reported to the
/// error callback, unless the socket is connected.
pub open spec fn emit_step(connected: bool, p: PacketView) -> StepView {
    if connected {
        StepView { effects: seq![transmission(p)], outcome: Ok(()), closes: false }
    } else {
        StepView {
            effects: seq![EffectView::ErrorCallback(Error::IllegalActionBeforeOpen())],
            outcome: Err(Error::IllegalActionBeforeOpen()),
            closes: false,
        }
    }
}

/// Answering a ping: the time is recorded, then a pong is sent.
pub open spec fn ping_step(connected: bool) -> StepView {
    let sent = emit_step(connected, pong_packet());
    StepView { effects: seq![EffectView::RecordPing] + sent.effects, outcome: sent.outcome, closes: false }
}

/// Disconnecting: the close callback, then a close packet is sent; once it
/// was sent, the connection is closed.
pub open spec fn disconnect_step(connected: bool) -> StepView {
    let sent = emit_step(connected, close_packet());
    StepView { effects: seq![EffectView::CloseCallback] + sent.effects, outcome: sent.outcome, closes: true }
}

/// Looking into the buffer: nothing when disconnected, else the oldest
/// buffered packet, else a request for a payload.
pub open spec fn poll_transition(s: SocketView) -> (PollStepView, SocketView) {
    if !s.connected {
        (PollStepView::Closed, s)
    } else if s.pending.len() > 0 {
        (PollStepView::Ready(s.pending[0]), SocketView { pending: s.pending.drop_first(), ..s })
    } else {
        (PollStepView::NeedPayload, s)
    }
}

/// The state after `k` looks into the buffer.
pub open spec fn polled_n_times(s: SocketView, k: nat) -> SocketView
    decreases k,
{
    if k == 0 {
        s
    } else {
        poll_transition(polled_n_times(s, (k - 1) as nat)).1
    }
}

/// Taking in what the transport returned for a poll: empty data gives
/// nothing; a payload that decodes gives its first packet and buffers the
/// others in order, in place of what the buffer held; a payload that does
/// not decode gives its error and changes nothing.
pub open spec fn accept_transition(s: SocketView, data: Seq<u8>) -> (Result<Option<PacketView>, Error>, SocketView) {
    if data.len() == 0 {
        (Ok(None), s)
    } else {
        match payload_decoding(data) {
            Err(e) => (Err(e), s),
            Ok(ps) => if ps.len() == 0 {
                (Ok(None), s)
            } else {
                (Ok(Some(ps[0])), SocketView { pending: ps.drop_first(), ..s })
            },
        }
    }
}

/// The packets a driver hands out when it polls the socket until it is
/// closed or out of payloads, taking the transport's payloads in order:
/// buffered packets first, then, whenever the buffer is empty, the next
/// payload; a payload that does not decode ends polling with its error.
pub open spec fn delivered(s: SocketView, payloads: Seq<Seq<u8>>) -> Seq<PacketView>
    decreases payloads.len(), s.pending.len(),
{
    if !s.connected {
        Seq::<PacketView>::empty()
    } else if s.pending.len() > 0 {
        seq![s.pending[0]] + delivered(SocketView { pending: s.pending.drop_first(), ..s }, payloads)
    } else if payloads.len() == 0 {
        Seq::<PacketView>::empty()
    } else {
        let next = accept_transition(s, payloads[0]);
        match next.0 {
            Ok(None) => delivered(next.1, payloads.drop_first()),
            Ok(Some(p)) => seq![p] + delivered(next.1, payloads.drop_first()),
            Err(_) => Seq::<PacketView>::empty(),
        }
    }
}

/// The packets of one payload as the socket hands them out: none for empty
/// data.
pub open spec fn payload_packets(data: Seq<u8>) -> Seq<PacketView> {
    if data.len() == 0 {
        Seq::<PacketView>::empty()
    } else {
        match payload_decoding(data) {
            Ok(ps) => ps,
            Err(_) => Seq::<PacketView>::empty(),
        }
    }
}

/// The packets of successive payloads, one payload after the other.
pub open spec fn payloads_packets(payloads: Seq<Seq<u8>>) -> Seq<PacketView>
    decreases payloads.len(),
{
    if payloads.len() == 0 {
        Seq::<PacketView>::empty()
    } else {
        payload_packets(payloads[0]) + payloads_packets(payloads.drop_first())
    }
}

/// A step being carried out: the effects still to do, what the step
/// reports, and whether it closes the connection once it succeeded.
pub struct StepRun {
    remaining: Vec<Effect>,
    outcome: Result<(), Error>,
    closes: bool,
}

impl View for StepRun {
    type V = StepView;

    closed spec fn view(&self) -> StepView {
        StepView { effects: effects_view(self.remaining@), outcome: self.outcome, closes: self.closes }
    }
}

impl Step {
    /// Starts carrying out the step.
    pub fn start(self) -> (run: StepRun)
        ensures
            run@ == self@,
    {
        StepRun { remaining: self.effects, outcome: self.outcome, closes: self.closes }
    }
}

impl StepRun {
    /// The next effect to carry out, in order; `None` once all are done.
    pub fn next_effect(&mut self) -> (e: Option<Effect>)
        ensures
            old(self)@.effects.len() == 0 ==> e is None && final(self)@ == old(self)@,
            old(self)@.effects.len() > 0 ==> (e matches Some(x) && x@ == old(self)@.effects[0]
                && final(self)@ == (StepView { effects: old(self)@.effects.drop_first(), ..old(self)@ })),
    {
        if self.remaining.len() == 0 {
            return None;
        }
        let ghost before = self.remaining@;
        let e = self.remaining.remove(0);
        assert(effects_view(self.remaining@) =~= effects_view(before).drop_first());
        Some(e)
    }

    /// A transmission failed with `error`: the error callback is told of it,
    /// nothing else of the step is carried out, and the step reports it.
    pub fn transmission_failed(&mut self, error: Error)
        ensures
            final(self)@ == (StepView {
                effects: seq![EffectView::ErrorCallback(error)],
                outcome: Err(error),
                closes: old(self)@.closes,
            }),
    {
        let mut remaining: Vec<Effect> = Vec::new();
        remaining.push(Effect::ErrorCallback(error.clone_error()));
        assert(effects_view(remaining@) =~= seq![EffectView::ErrorCallback(error)]);
        self.remaining = remaining;
        self.outcome = Err(error);
    }

    /// What the step reports.
    pub fn outcome(&self) -> (r: &Result<(), Error>)
        ensures
            *r == self@.outcome,
    {
        &self.outcome
    }

    /// Whether the step closes the connection once it succeeded.
    pub fn closes(&self) -> (b: bool)
        ensures
            b == self@.closes,
    {
        self.closes
    }

    /// Ends the step, giving what it reports.
    pub fn into_outcome(self) -> (r: Result<(), Error>)
        ensures
            r == self@.outcome,
    {
        self.outcome
    }
}

/// A transmission effect for a packet.
fn transmission_of(packet: &Packet) -> (e: Effect)
    requires
        packet.data@.len() <= usize::MAX / 2,
    ensures
        e@ == transmission(packet@),
{
    if packet.packet_id == PacketId::MessageBinary {
        let p = packet.duplicate();
        Effect::Transmit { data: p.data, is_binary: true }
    } else {
        Effect::Transmit { data: packet.encode(), is_binary: false }
    }
}

impl V4Socket {
    /// A socket for the session that `handshake` opened; not connected yet.
    pub fn new(handshake: HandshakePacket) -> (s: V4Socket)
        ensures
            !s@.connected,
            s@.pending.len() == 0,
            s.connection_data() == handshake,
    {
        V4Socket { connected: false, connection_data: handshake, remaining_packets: Vec::new() }
    }

    /// The handshake the socket was opened with.
    pub closed spec fn connection_data(&self) -> HandshakePacket {
        self.connection_data
    }

    /// The handshake the socket was opened with.
    pub fn handshake(&self) -> (h: &HandshakePacket)
        ensures
            *h == self.connection_data(),
    {
        &self.connection_data
    }

    /// Whether the socket is connected.
    pub fn is_connected(&self) -> (b: bool)
        ensures
            b == self@.connected,
    {
        self.connected
    }

    /// Sends a packet, or refuses to where the socket is not connected.
    pub fn emit(&self, packet: &Packet) -> (step: Step)
        requires
            packet.data@.len() <= usize::MAX / 2,
        ensures
            step@ == emit_step(self@.connected, packet@),
    {
        let mut effects: Vec<Effect> = Vec::new();
        if !self.connected {
            effects.push(Effect::ErrorCallback(Error::IllegalActionBeforeOpen()));
            assert(effects_view(effects@) =~= seq![EffectView::ErrorCallback(Error::IllegalActionBeforeOpen())]);
            return Step { effects, outcome: Err(Error::IllegalActionBeforeOpen()), closes: false };
        }
        let e = transmission_of(packet);
        effects.push(e);
        assert(effects_view(effects@) =~= seq![transmission(packet@)]);
        Step { effects, outcome: Ok(()), closes: false }
    }

    /// Opens the connection: marks the socket connected, calls `on_open`,
    /// records the ping time and sends a pong to start the ping cycle.
    pub fn connect(&mut self) -> (step: Step)
        ensures
            final(self)@ == (SocketView { connected: true, ..old(self)@ }),
            final(self).connection_data() == old(self).connection_data(),
            step@ == (StepView {
                effects: seq![EffectView::OpenCallback, EffectView::RecordPing, transmission(pong_packet())],
                outcome: Ok(()),
                closes: false,
            }),
    {
        self.connected = true;
        let mut effects: Vec<Effect> = Vec::new();
        effects.push(Effect::OpenCallback);
        effects.push(Effect::RecordPing);
        let pong = Packet::new(PacketId::Pong, Vec::new());
        let sent = self.emit(&pong);
        let mut sent_effects = sent.effects;
        effects.append(&mut sent_effects);
        assert(effects_view(effects@) =~= seq![EffectView::OpenCallback, EffectView::RecordPing] + emit_step(true, pong_packet()).effects);
        assert(emit_step(true, pong_packet()).effects =~= seq![transmission(pong_packet())]);
        assert(effects_view(effects@) =~= seq![EffectView::OpenCallback, EffectView::RecordPing, transmission(pong_packet())]);
        Step { effects, outcome: sent.outcome, closes: false }
    }

    /// Marks the socket disconnected.
    pub fn close_connection(&mut self)
        ensures
            final(self)@ == (SocketView { connected: false, ..old(self)@ }),
            final(self).connection_data() == old(self).connection_data(),
    {
        self.connected = false;
    }

    /// Starts disconnecting: calls `on_close` and sends a close packet.
    /// Once the transmission succeeded, `close_connection` completes it.
    pub fn disconnect(&self) -> (step: Step)
        ensures
            step@ == disconnect_step(self@.connected),
    {
        let mut effects: Vec<Effect> = Vec::new();
        effects.push(Effect::CloseCallback);
        let close = Packet::new(PacketId::Close, Vec::new());
        let sent = self.emit(&close);
        let mut sent_effects = sent.effects;
        effects.append(&mut sent_effects);
        assert(effects_view(effects@) =~= seq![EffectView::CloseCallback] + emit_step(self@.connected, close_packet()).effects);
        Step { effects, outcome: sent.outcome, closes: true }
    }

    /// Answers a ping from the server: records the time and sends a pong.
    pub fn handle_ping(&self) -> (step: Step)
        ensures
            step@ == ping_step(self@.connected),
    {
        let mut effects: Vec<Effect> = Vec::new();
        effects.push(Effect::RecordPing);
        let pong = Packet::new(PacketId::Pong, Vec::new());
        let sent = self.emit(&pong);
        let mut sent_effects = sent.effects;
        effects.append(&mut sent_effects);
        assert(effects_view(effects@) =~= seq![EffectView::RecordPing] + emit_step(self@.connected, pong_packet()).effects);
        Step { effects, outcome: sent.outcome, closes: false }
    }

    /// Looks into the buffer of received packets.
    pub fn poll(&mut self) -> (step: PollStep)
        ensures
            (step@, final(self)@) == poll_transition(old(self)@),
            final(self).connection_data() == old(self).connection_data(),
    {
        if !self.connected {
            return PollStep::Closed;
        }
        if self.remaining_packets.len() > 0 {
            let ghost before = self.remaining_packets@;
            let p = self.remaining_packets.remove(0);
            assert(packets_view(self.remaining_packets@) =~= packets_view(before).drop_first());
            return PollStep::Ready(p);
        }
        PollStep::NeedPayload
    }

    /// Takes in what the transport returned for a poll. Empty data gives
    /// nothing; otherwise the payload's first packet is returned and the
    /// others are buffered in order, in place of what the buffer held.
    pub fn accept_payload(&mut self, data: &[u8]) -> (res: Result<Option<Packet>, Error>)
        ensures
            final(self).connection_data() == old(self).connection_data(),
            final(self)@ == accept_transition(old(self)@, data@).1,
            match accept_transition(old(self)@, data@).0 {
                Ok(None) => res == Ok::<Option<Packet>, Error>(None),
                Ok(Some(pv)) => res matches Ok(Some(p)) && p@ == pv,
                Err(e) => res == Err::<Option<Packet>, Error>(e),
            },
    {
        if data.len() == 0 {
            return Ok(None);
        }
        let mut packets = decode_payload(data)?;
        proof {
            lemma_payload_records_nonempty(data@);
            crate::packet::lemma_records_decoding_len(payload_records(data@));
        }
        let ghost all = packets@;
        assert(packets_view(all).len() == all.len());
        let first = packets.remove(0);
        assert(packets_view(packets@) =~= packets_view(all).drop_first());
        self.remaining_packets = packets;
        Ok(Some(first))
    }
}

/// The packets of a payload come out of the buffer in the order of the
/// payload: the `k`-th look gives the `k`-th buffered packet, and once they
/// are all out the socket asks for the next payload.
pub proof fn law_buffer_order(s: SocketView, k: nat)
    requires
        s.connected,
    ensures
        k < s.pending.len() ==> poll_transition(polled_n_times(s, k)).0 == PollStepView::Ready(s.pending[k as int]),
        k <= s.pending.len() ==> polled_n_times(s, k) == (SocketView { pending: s.pending.skip(k as int), ..s }),
        k == s.pending.len() ==> poll_transition(polled_n_times(s, k)).0 == PollStepView::NeedPayload,
    decreases k,
{
    if k > 0 {
        law_buffer_order(s, (k - 1) as nat);
        if k <= s.pending.len() {
            assert(s.pending.skip(k - 1).drop_first() =~= s.pending.skip(k as int));
        }
    } else {
        assert(s.pending.skip(0) =~= s.pending);
    }
    if k < s.pending.len() {
        assert(s.pending.skip(k as int)[0] == s.pending[k as int]);
    }
}

/// A socket that is not connected gives no packet, whatever it buffered.
pub proof fn law_closed_socket_polls_nothing(s: SocketView)
    requires
        !s.connected,
    ensures
        poll_transition(s) == (PollStepView::Closed, s),
{
}

/// Every packet of a payload is delivered, in the payload's order: the
/// first by `accept_payload`, the `k + 1`-th by the `k`-th look into the
/// buffer after it; then the socket asks for the next payload.
pub proof fn law_payload_delivered_in_order(s: SocketView, data: Seq<u8>, ps: Seq<PacketView>, k: nat)
    requires
        s.connected,
        payload_decoding(data) == Ok::<Seq<PacketView>, Error>(ps),
    ensures
        ps.len() >= 1,
        k + 1 < ps.len() ==> poll_transition(
            polled_n_times(SocketView { pending: ps.drop_first(), ..s }, k),
        ).0 == PollStepView::Ready(ps[k + 1int]),
        k + 1 == ps.len() ==> poll_transition(
            polled_n_times(SocketView { pending: ps.drop_first(), ..s }, k),
        ).0 == PollStepView::NeedPayload,
{
    crate::packet::law_payload_packet_count(data);
    law_buffer_order(SocketView { pending: ps.drop_first(), ..s }, k);
}

/// Packets from successive payloads come out concatenated, in order: what
/// was buffered first, then the packets of each payload in turn; none is
/// lost, repeated or reordered, and empty data contributes nothing.
pub proof fn law_payloads_delivered_in_order(s: SocketView, payloads: Seq<Seq<u8>>)
    requires
        s.connected,
        forall|i: int| 0 <= i < payloads.len() ==> (#[trigger] payloads[i]).len() == 0
            || payload_decoding(payloads[i]) is Ok,
    ensures
        delivered(s, payloads) == s.pending + payloads_packets(payloads),
    decreases payloads.len(), s.pending.len(),
{
    if s.pending.len() > 0 {
        let s2 = SocketView { pending: s.pending.drop_first(), ..s };
        law_payloads_delivered_in_order(s2, payloads);
        assert(seq![s.pending[0]] + (s2.pending + payloads_packets(payloads)) =~= s.pending + payloads_packets(payloads));
    } else if payloads.len() == 0 {
        assert(s.pending + payloads_packets(payloads) =~= Seq::<PacketView>::empty());
    } else {
        let data = payloads[0];
        let rest = payloads.drop_first();
        assert forall|i: int| 0 <= i < rest.len() implies (#[trigger] rest[i]).len() == 0
            || payload_decoding(rest[i]) is Ok by {
            assert(rest[i] == payloads[i + 1]);
        }
        let next = accept_transition(s, data);
        law_payloads_delivered_in_order(next.1, rest);
        if data.len() == 0 {
            assert(s.pending + payloads_packets(payloads) =~= payloads_packets(rest));
        } else {
            crate::packet::law_payload_packet_count(data);
            let ps = payload_decoding(data)->Ok_0;
            assert(seq![ps[0]] + (ps.drop_first() + payloads_packets(rest)) =~= s.pending + payloads_packets(payloads));
        }
    }
}

/// A packet goes out in a binary frame exactly when it is a binary message:
/// then as its raw body, otherwise in its wire form (type byte, then body)
/// in a text frame, whatever bytes the body holds.
pub proof fn law_binary_frame_exactly_for_binary_messages(p: PacketView)
    ensures
        transmission(p) matches EffectView::Transmit { data, is_binary } && is_binary == (p.packet_id
            == PacketId::MessageBinary),
        p.packet_id == PacketId::MessageBinary ==> transmission(p) == (EffectView::Transmit {
            data: p.data,
            is_binary: true,
        }),
        p.packet_id != PacketId::MessageBinary ==> transmission(p) == (EffectView::Transmit {
            data: seq![crate::packet::id_byte(p.packet_id)] + p.data,
            is_binary: false,
        }),
{
}

} // verus!
