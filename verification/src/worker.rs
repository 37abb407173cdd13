//! The session state machine of the network worker.
//!
//! A worker owns no socket and no clock. The loop that drives it reads the
//! time, moves bytes between the worker and the transport, and calls the
//! worker for every decision: what to send for the inputs of the game, what
//! a received payload means, and whether a deadline has passed. Times are
//! milliseconds on a clock of the caller's choice.

use crate::base::{
    KCPError, COMMANDS_CAP, CONNECT_TIMEOUT, FINISH_TIMEOUT, KCP_INTERVAL, KCP_MAX_PACKET,
    KCP_MIN_PACKET, START_TIMEOUT, UPDATE_TIMEOUT,
};
use crate::chan::{InputEvent, NetChan, NetChanView, NetInputState};
use crate::codec::{decode_frame, NetMessage, NetMessageView};
use crate::command::{
    decode_commands, decoded_commands, Command, CommandDecoder, CommandEncoder,
    CommandEncoderView, CommandEx,
};
use crate::message::{NetConnect, NetConnectView, NetPlayerState, NetType};
use vstd::prelude::*;
use vstd::slice::slice_to_vec;

verus! {

/// How far ahead of its making the times of a worker's start and stop
/// stand until it is started and until it stops: ten years, in milliseconds.
pub const FAR_AHEAD: u64 = 315_360_000_000;

/// A [`NetWorker`] as a mathematical value.
pub ghost struct NetWorkerView {
    /// The player's connection identifier.
    pub conv: u32,
    /// What the worker sends to join its room.
    pub connect: NetConnectView,
    pub encoder: CommandEncoderView,
    /// The commands the decoder holds.
    pub decoder: Seq<CommandEx>,
    /// Where the local player stands in the session.
    pub state: NetPlayerState,
    /// The last frame whose inputs were sent.
    pub frame: u32,
    /// When the session started. Until then it stands [`FAR_AHEAD`] of the
    /// worker's making.
    pub started_at: u64,
    /// When the worker stopped. Until then it stands [`FAR_AHEAD`] of the
    /// worker's making.
    pub stopped_at: u64,
    /// When commands last came in.
    pub updated_at: u64,
    /// Whether a running worker has a deadline, counted from when commands
    /// last came in.
    pub running_timeout: bool,
}

/// Whether a deadline of `limit` seconds from `since` has passed at `now`:
/// whether `now` is more than `limit` seconds after `since`.
pub open spec fn deadline_passed(since: u64, now: u64, limit: u64) -> bool {
    now > since && now - since > limit * 1000
}

/// Whether a payload is long enough to be a frame and its tag says that it
/// is a command frame.
pub open spec fn is_message_command(bytes: Seq<u8>) -> bool {
    bytes.len() >= KCP_MIN_PACKET && NetType::spec_from_i32(bytes[0] as i32) == Some(
        NetType::Command,
    )
}

/// The least multiple of [`KCP_INTERVAL`] that is not below `current`.
pub open spec fn next_tick(current: u64) -> nat {
    if current % KCP_INTERVAL == 0 {
        current as nat
    } else {
        (current - current % KCP_INTERVAL + KCP_INTERVAL) as nat
    }
}

/// The bytes of each packet.
pub open spec fn packets(outbox: Seq<Vec<u8>>) -> Seq<Seq<u8>> {
    outbox.map_values(|packet: Vec<u8>| packet@)
}

impl NetWorkerView {
    /// The local player moves to `state` at `now`, and the game is told. A
    /// worker that stops keeps the time at which it did.
    pub open spec fn set_self_state(
        self,
        chan: NetChanView,
        state: NetPlayerState,
        now: u64,
    ) -> (NetWorkerView, NetChanView) {
        (
            NetWorkerView {
                state,
                stopped_at: if state == NetPlayerState::Stopped && self.state
                    != NetPlayerState::Stopped {
                    now
                } else {
                    self.stopped_at
                },
                ..self
            },
            chan.send_output_states(self.conv, state),
        )
    }

    /// The game is told the state of another player. What the server says of
    /// the local player is passed over.
    pub open spec fn set_state(self, chan: NetChanView, conv: u32, state: NetPlayerState)
        -> NetChanView {
        if conv != self.conv {
            chan.send_output_states(conv, state)
        } else {
            chan
        }
    }

    /// Handling the staged inputs of `frame`: the worker afterwards, the
    /// packets to send in this order, and the outcome.
    ///
    /// Before the game runs, inputs must be empty. While it runs, the frame
    /// must be later than the last one sent; then the hash frame and the
    /// command frame are sent. A stopped worker sends nothing.
    pub open spec fn handle_input_impl(self, frame: u32) -> (
        NetWorkerView,
        Seq<Seq<u8>>,
        Result<(), KCPError>,
    ) {
        match self.state {
            NetPlayerState::Initing | NetPlayerState::Waiting => if self.encoder.commands.len()
                != 0 || self.encoder.hash.len() != 0 {
                (self, Seq::empty(), Err(KCPError::Unexpected))
            } else {
                (self, Seq::empty(), Ok(()))
            },
            NetPlayerState::Running => if frame <= self.frame {
                (self, Seq::empty(), Err(KCPError::InvalidFrame))
            } else {
                let (encoder, res) = self.encoder.encode(frame);
                let next = NetWorkerView { frame, encoder, ..self };
                match res {
                    Ok(_) => (next, seq![encoder.hash_bytes, encoder.command_bytes], Ok(())),
                    Err(err) => (next, Seq::empty(), Err(err)),
                }
            },
            NetPlayerState::Stopped => (self, Seq::empty(), Ok(())),
        }
    }

    /// Handling at `now` everything the game has sent, oldest first, until
    /// the channel is empty or something fails: the worker and the channel
    /// afterwards, the packets to send in this order, and the outcome.
    ///
    /// When the game says that it is over, the worker stops and the outcome
    /// is `GameOver`.
    pub open spec fn handle_input(self, chan: NetChanView, now: u64) -> (
        NetWorkerView,
        NetChanView,
        Seq<Seq<u8>>,
        Result<(), KCPError>,
    )
        decreases chan.inputs.len(),
    {
        match chan.recv_input() {
            (_, None) => (self, chan, Seq::empty(), Ok(())),
            (rest, Some(InputEvent::Finish)) => {
                let (worker, told) = self.set_self_state(rest, NetPlayerState::Stopped, now);
                (worker, told, Seq::empty(), Err(KCPError::GameOver))
            },
            (rest, Some(InputEvent::Input { frame, commands, hash })) => {
                let staged = NetWorkerView { encoder: self.encoder.stage(commands, hash), ..self };
                let (worker, sent, res) = staged.handle_input_impl(frame);
                if res is Ok {
                    let (last, left, more, outcome) = worker.handle_input(rest, now);
                    (last, left, sent + more, outcome)
                } else {
                    (worker, rest, sent, res)
                }
            },
        }
    }

    /// Handling one payload that came in at `now`: the worker and the channel
    /// afterwards, and the outcome.
    pub open spec fn handle_output_impl(self, chan: NetChanView, bytes: Seq<u8>, now: u64) -> (
        NetWorkerView,
        NetChanView,
        Result<(), KCPError>,
    ) {
        match self.state {
            NetPlayerState::Initing => match decode_frame(bytes) {
                Ok((NetMessageView::Accept(_), _)) => {
                    let (worker, told) = self.set_self_state(chan, NetPlayerState::Waiting, now);
                    (worker, told, Ok(()))
                },
                Ok((NetMessageView::Finish(finish), _)) => (
                    self,
                    chan,
                    Err(KCPError::RemoteFinished(finish.cause)),
                ),
                Ok(_) => (self, chan, Err(KCPError::UnexpectedPacket)),
                Err(err) => (self, chan, Err(err)),
            },
            NetPlayerState::Waiting => match decode_frame(bytes) {
                Ok((NetMessageView::State(state), _)) => (
                    self,
                    self.set_state(chan, state.conv, state.state),
                    Ok(()),
                ),
                Ok((NetMessageView::Start(_), _)) => {
                    let (worker, told) = self.set_self_state(chan, NetPlayerState::Running, now);
                    (worker, told, Ok(()))
                },
                Ok((NetMessageView::Finish(finish), _)) => (
                    self,
                    chan,
                    Err(KCPError::RemoteFinished(finish.cause)),
                ),
                Ok(_) => (self, chan, Err(KCPError::UnexpectedPacket)),
                Err(err) => (self, chan, Err(err)),
            },
            NetPlayerState::Running => if is_message_command(bytes) {
                let worker = NetWorkerView {
                    updated_at: now,
                    decoder: decoded_commands(self.decoder, bytes),
                    ..self
                };
                match decode_commands(bytes) {
                    Ok(commands) => (worker, chan.send_output_commands(commands), Ok(())),
                    Err(err) => (worker, chan, Err(err)),
                }
            } else {
                match decode_frame(bytes) {
                    Ok((NetMessageView::State(state), _)) => (
                        self,
                        self.set_state(chan, state.conv, state.state),
                        Ok(()),
                    ),
                    Ok((NetMessageView::Finish(finish), _)) => (
                        self,
                        chan,
                        Err(KCPError::RemoteFinished(finish.cause)),
                    ),
                    Ok(_) => (self, chan, Err(KCPError::UnexpectedPacket)),
                    Err(err) => (self, chan, Err(err)),
                }
            },
            NetPlayerState::Stopped => (self, chan, Ok(())),
        }
    }

    /// Whether the deadline of the worker's state has passed at `now`:
    /// [`CONNECT_TIMEOUT`] seconds from the start before the server has
    /// accepted, [`START_TIMEOUT`] seconds from the start before the game
    /// runs, [`UPDATE_TIMEOUT`] seconds from the stop once the worker has
    /// stopped. A running worker has none, unless it was asked to watch that
    /// commands keep coming in: then it has [`UPDATE_TIMEOUT`] seconds from
    /// the last.
    pub open spec fn handle_timeout(self, now: u64) -> Result<(), KCPError> {
        let passed = match self.state {
            NetPlayerState::Initing => deadline_passed(self.started_at, now, CONNECT_TIMEOUT),
            NetPlayerState::Waiting => deadline_passed(self.started_at, now, START_TIMEOUT),
            NetPlayerState::Running => self.running_timeout && deadline_passed(
                self.updated_at,
                now,
                UPDATE_TIMEOUT,
            ),
            NetPlayerState::Stopped => deadline_passed(self.stopped_at, now, UPDATE_TIMEOUT),
        };
        if passed {
            Err(KCPError::Timeout)
        } else {
            Ok(())
        }
    }
}

/// The session state machine of one player.
pub struct NetWorker {
    conv: u32,
    room_id: String,
    player_id: String,
    password: String,
    cmd_encoder: CommandEncoder,
    cmd_decoder: CommandDecoder,
    state: NetPlayerState,
    frame: u32,
    started_at: u64,
    stopped_at: u64,
    updated_at: u64,
    running_timeout: bool,
}

impl View for NetWorker {
    type V = NetWorkerView;

    closed spec fn view(&self) -> NetWorkerView {
        NetWorkerView {
            conv: self.conv,
            connect: NetConnectView {
                room_id: self.room_id@,
                player_id: self.player_id@,
                password: self.password@,
            },
            encoder: self.cmd_encoder@,
            decoder: self.cmd_decoder@,
            state: self.state,
            frame: self.frame,
            started_at: self.started_at,
            stopped_at: self.stopped_at,
            updated_at: self.updated_at,
            running_timeout: self.running_timeout,
        }
    }
}

impl NetWorker {
    /// A worker for the player `conv`, made at `now`. It is in the first
    /// state, and the clocks of its deadlines stand [`FAR_AHEAD`] of `now`,
    /// so that none passes before the worker is started.
    pub fn new(conv: u32, room_id: &str, player_id: &str, password: &str, now: u64) -> (res:
        NetWorker)
        requires
            now <= u64::MAX - FAR_AHEAD,
        ensures
            res@ == (NetWorkerView {
                conv,
                connect: NetConnectView {
                    room_id: room_id@,
                    player_id: player_id@,
                    password: password@,
                },
                encoder: CommandEncoderView::empty(),
                decoder: Seq::empty(),
                state: NetPlayerState::Initing,
                frame: 0,
                started_at: (now + FAR_AHEAD) as u64,
                stopped_at: (now + FAR_AHEAD) as u64,
                updated_at: now,
                running_timeout: false,
            }),
    {
        NetWorker {
            conv,
            room_id: room_id.to_owned(),
            player_id: player_id.to_owned(),
            password: password.to_owned(),
            cmd_encoder: CommandEncoder::new(COMMANDS_CAP),
            cmd_decoder: CommandDecoder::new(COMMANDS_CAP * 2),
            state: NetPlayerState::Initing,
            frame: 0,
            started_at: now + FAR_AHEAD,
            stopped_at: now + FAR_AHEAD,
            updated_at: now,
            running_timeout: false,
        }
    }

    /// Says whether a running worker is to watch that commands keep coming
    /// in. A new worker does not.
    pub fn set_running_timeout(&mut self, enabled: bool)
        ensures
            final(self)@ == (NetWorkerView { running_timeout: enabled, ..old(self)@ }),
    {
        self.running_timeout = enabled;
    }

    /// Where the local player stands in the session.
    pub fn state(&self) -> (res: NetPlayerState)
        ensures
            res == self@.state,
    {
        self.state
    }

    /// The last frame whose inputs were sent.
    pub fn frame(&self) -> (res: u32)
        ensures
            res == self@.frame,
    {
        self.frame
    }

    /// The player's connection identifier.
    pub fn conv(&self) -> (res: u32)
        ensures
            res == self@.conv,
    {
        self.conv
    }

    /// Starts the session's clock at `now`.
    pub fn start(&mut self, now: u64)
        ensures
            final(self)@ == (NetWorkerView { started_at: now, ..old(self)@ }),
    {
        self.started_at = now;
    }

    /// The frame that asks the server to let the player into its room.
    pub fn connect(&self) -> (res: Result<Vec<u8>, KCPError>)
        ensures
            res is Err <==> NetMessageView::Connect(self@.connect).frame().len() > KCP_MAX_PACKET,
            res matches Ok(bytes) ==> bytes@ == NetMessageView::Connect(self@.connect).frame(),
            res matches Err(e) ==> e == KCPError::MessageTooLong,
    {
        let connect = NetConnect {
            room_id: self.room_id.clone(),
            player_id: self.player_id.clone(),
            password: self.password.clone(),
        };
        let mut buffer: Vec<u8> = Vec::with_capacity(KCP_MAX_PACKET);
        match NetMessage::Connect(connect).encode(&mut buffer) {
            Ok(_) => {
                assert(buffer@ =~= NetMessageView::Connect(self@.connect).frame());
                Ok(buffer)
            },
            Err(err) => Err(err),
        }
    }

    /// The schedule of one turn of the loop that begins at `now`: the
    /// milliseconds since the start, and the time of the next tick, which is
    /// the start plus the least multiple of [`KCP_INTERVAL`] not below those
    /// milliseconds. A `now` before the start is an error.
    pub fn schedule(&self, now: u64) -> (res: Result<(u64, u64), KCPError>)
        requires
            now <= u64::MAX - KCP_INTERVAL,
        ensures
            res is Err <==> now < self@.started_at,
            res matches Err(e) ==> e == KCPError::Unexpected,
            res matches Ok((current, next_at)) ==> current == now - self@.started_at && next_at
                == self@.started_at + next_tick(current),
    {
        if now < self.started_at {
            return Err(KCPError::Unexpected);
        }
        let current: u64 = now - self.started_at;
        let over: u64 = current % KCP_INTERVAL;
        let next: u64 = if over == 0 {
            current
        } else {
            current - over + KCP_INTERVAL
        };
        Ok((current, self.started_at + next))
    }

    /// Ends the session because of `err`: the channel is finished with the
    /// cause of the error. Returns until when the transport is to be kept
    /// ticking so that what is queued can leave: [`FINISH_TIMEOUT`] seconds
    /// from `now` where `delay` is set, not at all where it is not.
    pub fn finish(&self, chan: &mut NetChan, err: KCPError, delay: bool, now: u64) -> (res: Option<
        u64,
    >)
        requires
            old(chan).wf(),
            now <= u64::MAX - FINISH_TIMEOUT * 1000,
        ensures
            final(chan).wf(),
            final(chan)@ == old(chan)@.finish(err.spec_cause()),
            res == if delay {
                Some((now + FINISH_TIMEOUT * 1000) as u64)
            } else {
                None
            },
    {
        chan.finish(err.cause());
        if !delay {
            return None;
        }
        Some(now + FINISH_TIMEOUT * 1000)
    }

    /// Handles at `now` everything the game has sent, oldest first, until
    /// the channel is empty or something fails. The packets to send are
    /// appended to `outbox` in the order in which they are to be sent.
    pub fn handle_input(&mut self, chan: &mut NetChan, outbox: &mut Vec<Vec<u8>>, now: u64) -> (res:
        Result<(), KCPError>)
        requires
            old(chan).wf(),
        ensures
            final(chan).wf(),
            final(self)@ == old(self)@.handle_input(old(chan)@, now).0,
            final(chan)@ == old(self)@.handle_input(old(chan)@, now).1,
            packets(final(outbox)@) == packets(old(outbox)@) + old(self)@.handle_input(
                old(chan)@,
                now,
            ).2,
            res == old(self)@.handle_input(old(chan)@, now).3,
    {
        let ghost whole = old(self)@.handle_input(old(chan)@, now);
        let ghost mut sent: Seq<Seq<u8>> = Seq::empty();
        proof {
            assert(sent + whole.2 =~= whole.2);
            assert(packets(outbox@) + sent =~= packets(old(outbox)@));
        }
        loop
            invariant
                chan.wf(),
                whole == old(self)@.handle_input(old(chan)@, now),
                packets(outbox@) == packets(old(outbox)@) + sent,
                whole.0 == self@.handle_input(chan@, now).0,
                whole.1 == self@.handle_input(chan@, now).1,
                whole.2 == sent + self@.handle_input(chan@, now).2,
                whole.3 == self@.handle_input(chan@, now).3,
            decreases chan@.inputs.len(),
        {
            let ghost worker = self@;
            let mut frame: u32 = 0;
            let (commands, hash) = self.cmd_encoder.buffers();
            let state = chan.recv_input(&mut frame, commands, hash);
            match state {
                NetInputState::NonEmpty => {},
                NetInputState::Empty => {
                    proof {
                        assert(self@ == worker);
                        assert(sent + Seq::<Seq<u8>>::empty() =~= sent);
                    }
                    return Ok(());
                },
                NetInputState::Finish => {
                    proof {
                        assert(self@ == worker);
                        assert(sent + Seq::<Seq<u8>>::empty() =~= sent);
                    }
                    self.set_self_state(chan, NetPlayerState::Stopped, now);
                    return Err(KCPError::GameOver);
                },
            }
            let ghost staged = self@;
            let ghost packets_before = packets(outbox@);
            let res = self.handle_input_impl(frame, outbox);
            proof {
                let ghost step = staged.handle_input_impl(frame);
                assert(packets(outbox@) == packets(old(outbox)@) + (sent + step.1)) by {
                    assert(packets_before + step.1 =~= packets(old(outbox)@) + (sent + step.1));
                }
                if res is Ok {
                    let ghost tail = self@.handle_input(chan@, now);
                    assert(sent + (step.1 + tail.2) =~= (sent + step.1) + tail.2);
                }
                sent = sent + step.1;
            }
            if let Err(err) = res {
                proof {
                    assert(sent + Seq::<Seq<u8>>::empty() =~= sent);
                }
                return Err(err);
            }
        }
    }

    /// Handles the inputs of `frame` that are staged in the encoder. The
    /// packets to send are appended to `outbox`.
    pub fn handle_input_impl(&mut self, frame: u32, outbox: &mut Vec<Vec<u8>>) -> (res: Result<
        (),
        KCPError,
    >)
        ensures
            final(self)@ == old(self)@.handle_input_impl(frame).0,
            packets(final(outbox)@) == packets(old(outbox)@) + old(self)@.handle_input_impl(
                frame,
            ).1,
            res == old(self)@.handle_input_impl(frame).2,
    {
        proof {
            assert(packets(outbox@) + Seq::<Seq<u8>>::empty() =~= packets(outbox@));
        }
        match self.state {
            NetPlayerState::Initing | NetPlayerState::Waiting => {
                if !self.cmd_encoder.commands().is_empty() || !self.cmd_encoder.hash().is_empty() {
                    return Err(KCPError::Unexpected);
                }
            },
            NetPlayerState::Running => {
                if frame <= self.frame {
                    return Err(KCPError::InvalidFrame);
                }
                self.frame = frame;
                self.cmd_encoder.encode(self.frame)?;
                let hash_bytes = slice_to_vec(self.cmd_encoder.hash_bytes());
                let command_bytes = slice_to_vec(self.cmd_encoder.command_bytes());
                let ghost first = packets(outbox@);
                outbox.push(hash_bytes);
                outbox.push(command_bytes);
                assert(packets(outbox@) =~= first + seq![
                    self@.encoder.hash_bytes,
                    self@.encoder.command_bytes,
                ]);
            },
            NetPlayerState::Stopped => {},
        }
        Ok(())
    }

    /// Handles one payload that came in at `now`.
    pub fn handle_output_impl(&mut self, chan: &mut NetChan, bytes: &[u8], now: u64) -> (res:
        Result<(), KCPError>)
        requires
            old(chan).wf(),
        ensures
            final(chan).wf(),
            (final(self)@, final(chan)@, res) == old(self)@.handle_output_impl(
                old(chan)@,
                bytes@,
                now,
            ),
    {
        match self.state {
            NetPlayerState::Initing => {
                let (msg, _) = NetMessage::decode(bytes)?;
                match msg {
                    NetMessage::Accept(_) => {
                        self.set_self_state(chan, NetPlayerState::Waiting, now);
                    },
                    NetMessage::Finish(finish) => {
                        return Err(KCPError::RemoteFinished(finish.cause));
                    },
                    _ => {
                        return Err(KCPError::UnexpectedPacket);
                    },
                }
            },
            NetPlayerState::Waiting => {
                let (msg, _) = NetMessage::decode(bytes)?;
                match msg {
                    NetMessage::State(state) => {
                        self.set_state(chan, state.conv, state.state);
                    },
                    NetMessage::Start(_) => {
                        self.set_self_state(chan, NetPlayerState::Running, now);
                    },
                    NetMessage::Finish(finish) => {
                        return Err(KCPError::RemoteFinished(finish.cause));
                    },
                    _ => {
                        return Err(KCPError::UnexpectedPacket);
                    },
                }
            },
            NetPlayerState::Running => {
                if Self::is_message_command(bytes) {
                    self.updated_at = now;
                    self.cmd_decoder.decode(bytes)?;
                    chan.send_output_commands(self.cmd_decoder.commands());
                } else {
                    let (msg, _) = NetMessage::decode(bytes)?;
                    match msg {
                        NetMessage::State(state) => {
                            self.set_state(chan, state.conv, state.state);
                        },
                        NetMessage::Finish(finish) => {
                            return Err(KCPError::RemoteFinished(finish.cause));
                        },
                        _ => {
                            return Err(KCPError::UnexpectedPacket);
                        },
                    }
                }
            },
            NetPlayerState::Stopped => {},
        }
        Ok(())
    }

    /// Says whether the deadline of the worker's state has passed at `now`.
    pub fn handle_timeout(&self, now: u64) -> (res: Result<(), KCPError>)
        ensures
            res == self@.handle_timeout(now),
    {
        let passed = match self.state {
            NetPlayerState::Initing => Self::passed(self.started_at, now, CONNECT_TIMEOUT),
            NetPlayerState::Waiting => Self::passed(self.started_at, now, START_TIMEOUT),
            NetPlayerState::Running => self.running_timeout && Self::passed(
                self.updated_at,
                now,
                UPDATE_TIMEOUT,
            ),
            NetPlayerState::Stopped => Self::passed(self.stopped_at, now, UPDATE_TIMEOUT),
        };
        if passed {
            return Err(KCPError::Timeout);
        }
        Ok(())
    }

    /// Says whether `now` is more than `limit` seconds after `since`.
    fn passed(since: u64, now: u64, limit: u64) -> (res: bool)
        requires
            limit <= START_TIMEOUT,
        ensures
            res == deadline_passed(since, now, limit),
    {
        now > since && now - since > limit * 1000
    }

    /// Tells the game the state of another player.
    fn set_state(&self, chan: &mut NetChan, conv: u32, state: NetPlayerState)
        requires
            old(chan).wf(),
        ensures
            final(chan).wf(),
            final(chan)@ == self@.set_state(old(chan)@, conv, state),
    {
        if conv != self.conv {
            chan.send_output_states(conv, state);
        }
    }

    /// Moves the local player to `state` at `now` and tells the game.
    fn set_self_state(&mut self, chan: &mut NetChan, state: NetPlayerState, now: u64)
        requires
            old(chan).wf(),
        ensures
            final(chan).wf(),
            (final(self)@, final(chan)@) == old(self)@.set_self_state(old(chan)@, state, now),
    {
        match (state, self.state) {
            (NetPlayerState::Stopped, NetPlayerState::Stopped) => {},
            (NetPlayerState::Stopped, _) => {
                self.stopped_at = now;
            },
            _ => {},
        }
        self.state = state;
        chan.send_output_states(self.conv, state);
    }

    /// Says whether a payload is a command frame, by its tag alone.
    pub fn is_message_command(bytes: &[u8]) -> (res: bool)
        ensures
            res == is_message_command(bytes@),
    {
        if bytes.len() < KCP_MIN_PACKET {
            return false;
        }
        match NetType::from_i32(bytes[0] as i32) {
            Some(NetType::Command) => true,
            _ => false,
        }
    }
}

impl NetWorkerView {
    /// While the game runs, frames must rise: where the inputs of a frame
    /// were handled, the inputs of the same or an earlier frame are refused
    /// as `InvalidFrame`, whatever they are.
    pub proof fn lemma_second_frame_refused(
        self,
        frame1: u32,
        frame2: u32,
        commands: Seq<Command>,
        hash: Seq<u8>,
    )
        requires
            self.state == NetPlayerState::Running,
            frame1 >= frame2,
            self.handle_input_impl(frame1).2 is Ok,
        ensures
            ({
                let first = self.handle_input_impl(frame1).0;
                let staged = NetWorkerView { encoder: first.encoder.stage(commands, hash), ..first };
                &&& first.state == NetPlayerState::Running
                &&& first.frame == frame1
                &&& staged.handle_input_impl(frame2).2 == Err::<(), KCPError>(
                    KCPError::InvalidFrame,
                )
            }),
    {
    }

    /// While the game runs, handling what the game sent fails whenever the
    /// last two things sent are the inputs of two frames of which the second
    /// is not later than the first. Where nothing else was pending and the
    /// first was handled, the failure is `InvalidFrame`.
    pub proof fn lemma_frames_must_rise(
        self,
        chan: NetChanView,
        now: u64,
        frame1: u32,
        commands1: Seq<Command>,
        hash1: Seq<u8>,
        frame2: u32,
        commands2: Seq<Command>,
        hash2: Seq<u8>,
    )
        requires
            self.state == NetPlayerState::Running,
            chan.finish_cause is None,
            frame1 >= frame2,
        ensures
            ({
                let queued = chan.send_input(frame1, commands1, hash1).0.send_input(
                    frame2,
                    commands2,
                    hash2,
                ).0;
                let staged = NetWorkerView {
                    encoder: self.encoder.stage(commands1, hash1),
                    ..self
                };
                &&& self.handle_input(queued, now).3 is Err
                &&& chan.inputs.len() == 0 && staged.handle_input_impl(frame1).2 is Ok
                    ==> self.handle_input(queued, now).3 == Err::<(), KCPError>(KCPError::InvalidFrame)
            }),
        decreases chan.inputs.len(),
    {
        let first = InputEvent::Input { frame: frame1, commands: commands1, hash: hash1 };
        let second = InputEvent::Input { frame: frame2, commands: commands2, hash: hash2 };
        let queued = chan.send_input(frame1, commands1, hash1).0.send_input(
            frame2,
            commands2,
            hash2,
        ).0;
        assert(queued.inputs == chan.inputs.push(first).push(second));
        let rest = queued.recv_input().0;
        if chan.inputs.len() == 0 {
            assert(queued.inputs[0] == first);
            let staged = NetWorkerView { encoder: self.encoder.stage(commands1, hash1), ..self };
            let (worker, sent, res) = staged.handle_input_impl(frame1);
            if res is Ok {
                assert(rest.inputs =~= seq![second]);
                assert(rest.inputs[0] == second);
                staged.lemma_second_frame_refused(frame1, frame2, commands2, hash2);
                assert(worker.handle_input(rest, now).3 == Err::<(), KCPError>(KCPError::InvalidFrame));
            }
            assert(self.handle_input(queued, now).3 is Err);
        } else {
            assert(queued.inputs[0] == chan.inputs[0]);
            match chan.inputs[0] {
                InputEvent::Finish => {},
                InputEvent::Input { frame, commands, hash } => {
                    let staged = NetWorkerView {
                        encoder: self.encoder.stage(commands, hash),
                        ..self
                    };
                    let (worker, sent, res) = staged.handle_input_impl(frame);
                    if res is Ok {
                        let left = chan.recv_input().0;
                        assert(rest.inputs =~= left.inputs.push(first).push(second));
                        assert(rest == left.send_input(frame1, commands1, hash1).0.send_input(
                            frame2,
                            commands2,
                            hash2,
                        ).0);
                        worker.lemma_frames_must_rise(
                            left,
                            now,
                            frame1,
                            commands1,
                            hash1,
                            frame2,
                            commands2,
                            hash2,
                        );
                        assert(worker.handle_input(rest, now).3 is Err);
                    }
                    assert(self.handle_input(queued, now).3 is Err);
                },
            }
        }
    }

    /// The local player never goes back: handling what the game sent leaves
    /// the player in the same state or a later one. Where the state changes
    /// the player has stopped, the time of the stop is the time of the
    /// handling, and the game is told the new state of the local player,
    /// once, and no other state. Where it does not, the game is told no
    /// state, unless the game ended once more after the player had stopped:
    /// then it is told again that the player has stopped, and the time of
    /// the stop stays.
    pub proof fn lemma_input_advances_state(self, chan: NetChanView, now: u64)
        ensures
            ({
                let (worker, left, sent, res) = self.handle_input(chan, now);
                &&& worker.conv == self.conv
                &&& worker.state.spec_value() >= self.state.spec_value()
                &&& worker.state != self.state ==> left.states == chan.states.insert(
                    self.conv,
                    worker.state,
                )
                &&& worker.state == self.state ==> left.states == chan.states || (self.state
                    == NetPlayerState::Stopped && left.states == chan.states.insert(
                    self.conv,
                    NetPlayerState::Stopped,
                ))
                &&& worker.state != self.state ==> worker.state == NetPlayerState::Stopped
                    && worker.stopped_at == now
                &&& worker.state == self.state ==> worker.stopped_at == self.stopped_at
                &&& worker.started_at == self.started_at
            }),
        decreases chan.inputs.len(),
    {
        match chan.recv_input() {
            (rest, Some(InputEvent::Input { frame, commands, hash })) => {
                let staged = NetWorkerView { encoder: self.encoder.stage(commands, hash), ..self };
                let (worker, sent, res) = staged.handle_input_impl(frame);
                assert(worker.state == self.state && worker.conv == self.conv);
                assert(rest.states == chan.states);
                if res is Ok {
                    worker.lemma_input_advances_state(rest, now);
                }
            },
            _ => {},
        }
    }

    /// The local player never goes back: handling a payload leaves the
    /// player in the same state or a later one. Where the state changes the
    /// game is told the new state of the local player, once, and nothing
    /// else; where it does not, the game is told nothing of the local
    /// player.
    pub proof fn lemma_output_advances_state(self, chan: NetChanView, bytes: Seq<u8>, now: u64)
        ensures
            ({
                let (worker, told, res) = self.handle_output_impl(chan, bytes, now);
                &&& worker.conv == self.conv
                &&& worker.state.spec_value() >= self.state.spec_value()
                &&& worker.state != self.state ==> told == chan.send_output_states(
                    self.conv,
                    worker.state,
                )
                &&& worker.state == self.state ==> (told.states.contains_key(self.conv)
                    <==> chan.states.contains_key(self.conv))
                &&& worker.state == self.state && chan.states.contains_key(self.conv)
                    ==> told.states[self.conv] == chan.states[self.conv]
                &&& worker.started_at == self.started_at
                &&& worker.stopped_at == self.stopped_at
            }),
    {
    }

    /// The inputs of a frame do not move the local player to another state.
    pub proof fn lemma_input_keeps_state(self, frame: u32)
        ensures
            self.handle_input_impl(frame).0.state == self.state,
            self.handle_input_impl(frame).0.conv == self.conv,
    {
    }
}

} // verus!
