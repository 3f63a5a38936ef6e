use vstd::prelude::*;

use crate::error::Error;
use crate::packet::{HandshakePacket, Packet, PacketId, PacketView};
use crate::socket::{
    accept_transition, disconnect_step, effects_view, emit_step, ping_step, poll_transition,
    pong_packet, transmission, Effect, EffectView, PollStep, PollStepView, SocketView, Step,
    StepRun, StepView, V4Socket,
};

verus! {

/// An engine.io client: a socket and the reactions to the packets it
/// receives.
#[derive(Debug)]
pub struct Client {
    socket: V4Socket,
}

impl View for Client {
    type V = SocketView;

    closed spec fn view(&self) -> SocketView {
        self.socket@
    }
}

/// Whether the client can react to a received packet: the server never
/// sends an open packet after the handshake, nor a pong in protocol v4.
pub open spec fn receivable(id: PacketId) -> bool {
    id != PacketId::Open && id != PacketId::Pong
}

/// The reaction to a received packet, and whether the socket is connected
/// afterwards. The packet goes to `on_packet` first; then messages go to
/// `on_data`, a close packet closes the connection and calls `on_close`, a
/// ping is answered, and upgrade and noop packets need nothing more.
pub open spec fn packet_reaction(connected: bool, p: PacketView) -> (StepView, bool) {
    let head = seq![EffectView::PacketCallback(p)];
    match p.packet_id {
        PacketId::Message | PacketId::MessageBinary => (
            StepView { effects: head.push(EffectView::DataCallback(p.data)), outcome: Ok(()), closes: false },
            connected,
        ),
        PacketId::Close => (
            StepView { effects: head.push(EffectView::CloseCallback), outcome: Ok(()), closes: false },
            false,
        ),
        PacketId::Ping => {
            let answer = ping_step(connected);
            (StepView { effects: head + answer.effects, outcome: answer.outcome, closes: false }, connected)
        },
        _ => (StepView { effects: head, outcome: Ok(()), closes: false }, connected),
    }
}

/// What an operation of a client does to whether it is connected.
pub enum LifeEvent {
    /// `connect`.
    Connect,
    /// The end of a disconnect (`finish` of a closing step, or
    /// `close_connection`); `succeeded` where its close packet was sent.
    Disconnected { succeeded: bool },
    /// A packet reacted to by `poll`.
    Received(PacketId),
    /// Any other operation.
    Unchanged,
}

/// Whether the client is connected after an event.
pub open spec fn next_connected(connected: bool, e: LifeEvent) -> bool {
    match e {
        LifeEvent::Connect => true,
        LifeEvent::Disconnected { succeeded } => connected && !succeeded,
        LifeEvent::Received(id) => connected && id != PacketId::Close,
        LifeEvent::Unchanged => connected,
    }
}

/// The event of ending a step.
pub open spec fn finish_event(run: StepView) -> LifeEvent {
    if run.closes {
        LifeEvent::Disconnected { succeeded: run.outcome is Ok }
    } else {
        LifeEvent::Unchanged
    }
}

/// Whether a client is connected after a sequence of events.
pub open spec fn connected_after(start: bool, events: Seq<LifeEvent>) -> bool
    decreases events.len(),
{
    if events.len() == 0 {
        start
    } else {
        next_connected(connected_after(start, events.drop_last()), events.last())
    }
}

/// Whether an event ends the connection.
pub open spec fn ends_connection(e: LifeEvent) -> bool {
    e == (LifeEvent::Disconnected { succeeded: true }) || e == LifeEvent::Received(PacketId::Close)
}

impl Client {
    /// A client over the given socket.
    pub fn new(socket: V4Socket) -> (c: Client)
        ensures
            c@ == socket@,
            c.handshake_data() == socket.connection_data(),
    {
        Client { socket }
    }

    /// The handshake of the client's session.
    pub closed spec fn handshake_data(&self) -> HandshakePacket {
        self.socket.connection_data()
    }

    /// Closes the connection: the same as `disconnect`.
    pub fn close(&self) -> (step: Step)
        ensures
            step@ == disconnect_step(self@.connected),
    {
        self.socket.disconnect()
    }

    /// Opens the connection; the first pong starts the server's ping cycle.
    pub fn connect(&mut self) -> (step: Step)
        ensures
            final(self)@ == (SocketView { connected: true, ..old(self)@ }),
            final(self)@.connected == next_connected(old(self)@.connected, LifeEvent::Connect),
            final(self).handshake_data() == old(self).handshake_data(),
            step@ == (StepView {
                effects: seq![EffectView::OpenCallback, EffectView::RecordPing, transmission(pong_packet())],
                outcome: Ok(()),
                closes: false,
            }),
    {
        self.socket.connect()
    }

    /// Starts disconnecting: calls `on_close` and sends a close packet.
    /// Once the transmission succeeded, `close_connection` completes it.
    pub fn disconnect(&self) -> (step: Step)
        ensures
            step@ == disconnect_step(self@.connected),
    {
        self.socket.disconnect()
    }

    /// Completes a disconnect: the socket is no longer connected.
    pub fn close_connection(&mut self)
        ensures
            final(self)@ == (SocketView { connected: false, ..old(self)@ }),
            final(self)@.connected == next_connected(
                old(self)@.connected,
                LifeEvent::Disconnected { succeeded: true },
            ),
            final(self).handshake_data() == old(self).handshake_data(),
    {
        self.socket.close_connection()
    }

    /// Ends a step that was carried out, giving what it reports. A step that
    /// closes the connection (a disconnect) closes it here, where it
    /// succeeded.
    pub fn finish(&mut self, run: StepRun) -> (res: Result<(), Error>)
        ensures
            res == run@.outcome,
            final(self)@ == (SocketView {
                connected: next_connected(old(self)@.connected, finish_event(run@)),
                ..old(self)@
            }),
            final(self).handshake_data() == old(self).handshake_data(),
    {
        let closes = run.closes();
        let res = run.into_outcome();
        if closes && res.is_ok() {
            self.socket.close_connection();
        }
        res
    }

    /// Sends a packet to the server.
    pub fn emit(&self, packet: Packet) -> (step: Step)
        requires
            packet.data@.len() <= usize::MAX / 2,
        ensures
            step@ == emit_step(self@.connected, packet@),
    {
        self.socket.emit(&packet)
    }

    /// Looks into the buffer of received packets.
    pub fn next_buffered(&mut self) -> (step: PollStep)
        ensures
            (step@, final(self)@) == poll_transition(old(self)@),
            final(self).handshake_data() == old(self).handshake_data(),
    {
        self.socket.poll()
    }

    /// Takes in what the transport returned for a poll; see
    /// `V4Socket::accept_payload`.
    pub fn accept_payload(&mut self, data: &[u8]) -> (res: Result<Option<Packet>, Error>)
        ensures
            final(self).handshake_data() == old(self).handshake_data(),
            final(self)@ == accept_transition(old(self)@, data@).1,
            match accept_transition(old(self)@, data@).0 {
                Ok(None) => res == Ok::<Option<Packet>, Error>(None),
                Ok(Some(pv)) => res matches Ok(Some(p)) && p@ == pv,
                Err(e) => res == Err::<Option<Packet>, Error>(e),
            },
    {
        self.socket.accept_payload(data)
    }

    /// Reacts to a packet received from the server.
    pub fn poll(&mut self, packet: Packet) -> (step: Step)
        requires
            receivable(packet.packet_id),
            packet.data@.len() <= usize::MAX / 2,
        ensures
            step@ == packet_reaction(old(self)@.connected, packet@).0,
            final(self)@ == (SocketView {
                connected: packet_reaction(old(self)@.connected, packet@).1,
                ..old(self)@
            }),
            final(self)@.connected == next_connected(old(self)@.connected, LifeEvent::Received(packet.packet_id)),
            final(self).handshake_data() == old(self).handshake_data(),
    {
        let ghost p = packet@;
        let mut effects: Vec<Effect> = Vec::new();
        let id = packet.packet_id;
        let data = packet.duplicate().data;
        effects.push(Effect::PacketCallback(packet));
        assert(effects_view(effects@) =~= seq![EffectView::PacketCallback(p)]);
        match id {
            PacketId::Message | PacketId::MessageBinary => {
                let ghost before = effects@;
                effects.push(Effect::DataCallback(data));
                assert(effects_view(effects@) =~= effects_view(before).push(EffectView::DataCallback(p.data)));
                Step { effects, outcome: Ok(()), closes: false }
            },
            PacketId::Close => {
                self.socket.close_connection();
                let ghost before = effects@;
                effects.push(Effect::CloseCallback);
                assert(effects_view(effects@) =~= effects_view(before).push(EffectView::CloseCallback));
                Step { effects, outcome: Ok(()), closes: false }
            },
            PacketId::Ping => {
                let answer = self.socket.handle_ping();
                let ghost before = effects@;
                let mut answer_effects = answer.effects;
                effects.append(&mut answer_effects);
                assert(effects_view(effects@) =~= effects_view(before) + ping_step(self@.connected).effects);
                Step { effects, outcome: answer.outcome, closes: false }
            },
            _ => Step { effects, outcome: Ok(()), closes: false },
        }
    }

    /// Whether the client is connected.
    pub fn is_connected(&self) -> (b: bool)
        ensures
            b == self@.connected,
    {
        self.socket.is_connected()
    }
}

/// A socket that is not connected sends nothing: the packet is refused with
/// `IllegalActionBeforeOpen`, and the error callback is told.
pub proof fn law_emit_before_open_is_refused(p: PacketView)
    ensures
        emit_step(false, p).outcome == Err::<(), Error>(Error::IllegalActionBeforeOpen()),
        emit_step(false, p).effects == seq![EffectView::ErrorCallback(Error::IllegalActionBeforeOpen())],
{
}

/// A connected socket hands every packet to the transport, in its wire form
/// or, for a binary message, as raw bytes.
pub proof fn law_emit_when_open_transmits(p: PacketView)
    ensures
        emit_step(true, p).outcome == Ok::<(), Error>(()),
        emit_step(true, p).effects == seq![transmission(p)],
{
}

/// After a close packet is received, polling ends: the next look into the
/// buffer finds the socket closed, whatever it held.
pub proof fn law_close_packet_ends_polling(s: SocketView, p: PacketView)
    requires
        p.packet_id == PacketId::Close,
    ensures
        poll_transition(SocketView { connected: packet_reaction(s.connected, p).1, ..s }).0
            == PollStepView::Closed,
{
}

/// Every received packet is handed to `on_packet` before anything else
/// happens, and only a close packet changes whether the socket is connected.
pub proof fn law_packet_callback_first(connected: bool, p: PacketView)
    requires
        receivable(p.packet_id),
    ensures
        packet_reaction(connected, p).0.effects.len() > 0,
        packet_reaction(connected, p).0.effects[0] == EffectView::PacketCallback(p),
        packet_reaction(connected, p).1 == (connected && p.packet_id != PacketId::Close),
{
}

/// Over its whole life, a client that starts disconnected (as every built
/// client does) is connected exactly when it connected at some point and
/// nothing ended the connection since: a disconnect whose close packet was
/// sent, or a close packet from the server. `connect` counts as connecting
/// even where the pong it sends fails: the socket is marked connected
/// before the pong goes out.
pub proof fn law_connected_over_life(events: Seq<LifeEvent>)
    ensures
        connected_after(false, events) == exists|i: int|
            0 <= i < events.len() && events[i] == LifeEvent::Connect && forall|j: int|
                i < j < events.len() ==> !ends_connection(#[trigger] events[j]),
    decreases events.len(),
{
    if events.len() > 0 {
        let init = events.drop_last();
        law_connected_over_life(init);
        let last = events.last();
        let n = events.len() - 1;
        if connected_after(false, events) {
            if last == LifeEvent::Connect {
                assert(events[n] == LifeEvent::Connect);
            } else {
                let i = choose|i: int|
                    0 <= i < init.len() && init[i] == LifeEvent::Connect && forall|j: int|
                        i < j < init.len() ==> !ends_connection(#[trigger] init[j]);
                assert(events[i] == LifeEvent::Connect);
                assert forall|j: int| i < j < events.len() implies !ends_connection(#[trigger] events[j]) by {
                    if j < n {
                        assert(events[j] == init[j]);
                    }
                }
            }
        } else {
            assert forall|i: int| 0 <= i < events.len() && events[i] == LifeEvent::Connect implies exists|j: int|
                i < j < events.len() && ends_connection(#[trigger] events[j]) by {
                if i == n {
                    assert(false);
                } else {
                    assert(init[i] == LifeEvent::Connect);
                    if !ends_connection(last) {
                        let j = choose|j: int| i < j < init.len() && ends_connection(#[trigger] init[j]);
                        assert(events[j] == init[j]);
                    } else {
                        assert(ends_connection(events[n]));
                    }
                }
            }
        }
    }
}

/// Reacting to a received packet never closes the connection at the end of
/// the step: the step is not a closing one, so finishing it leaves the
/// connection as the reaction left it; only a close packet ends it, and it
/// does so right away. Messages reach `on_packet` and then `on_data` with
/// the packet's body, and succeed.
pub proof fn law_received_packet_steps_do_not_close(connected: bool, p: PacketView)
    requires
        receivable(p.packet_id),
    ensures
        !packet_reaction(connected, p).0.closes,
        finish_event(packet_reaction(connected, p).0) == LifeEvent::Unchanged,
        (p.packet_id == PacketId::Message || p.packet_id == PacketId::MessageBinary) ==> {
            &&& packet_reaction(connected, p).0.effects == seq![
                EffectView::PacketCallback(p),
                EffectView::DataCallback(p.data),
            ]
            &&& packet_reaction(connected, p).0.outcome == Ok::<(), Error>(())
            &&& packet_reaction(connected, p).1 == connected
        },
{
    let r = packet_reaction(connected, p).0;
    if p.packet_id == PacketId::Message || p.packet_id == PacketId::MessageBinary {
        assert(r.effects =~= seq![EffectView::PacketCallback(p), EffectView::DataCallback(p.data)]);
    }
}

} // verus!
