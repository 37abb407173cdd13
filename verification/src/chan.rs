//! The channel between the game and the network worker. The game sends the
//! inputs of each frame and receives the commands and player states that
//! came in; the worker does the opposite. Once the worker has finished the
//! channel with a cause, every call of the game returns that cause.
//!
//! A channel is used by one caller at a time: a game and a worker on two
//! threads share it behind a lock.

use crate::base::{COMMANDS_CAP, HASH_CAP, PLAYERS_CAP};
use crate::command::{Command, CommandEx};
use crate::message::{NetFinishCause, NetPlayerState};
use std::collections::{HashMap, VecDeque};
use vstd::prelude::*;

verus! {

/// How many emptied inputs the channel keeps for reuse.
pub const CACHE_CAP: usize = 3;

/// The inputs of one frame: the commands of the local player and the hash of
/// the local game state.
#[derive(Debug)]
pub struct NetInput {
    pub frame: u32,
    pub commands: Vec<Command>,
    pub hash: Vec<u8>,
}

impl NetInput {
    fn new() -> (res: NetInput)
        ensures
            res.is_clear(),
    {
        NetInput {
            frame: 0,
            commands: Vec::with_capacity(COMMANDS_CAP),
            hash: Vec::with_capacity(HASH_CAP),
        }
    }

    fn clear(&mut self)
        ensures
            final(self).is_clear(),
    {
        self.frame = 0;
        self.commands.clear();
        self.hash.clear();
    }

    /// Frame 0, no commands, no hash.
    pub open spec fn is_clear(&self) -> bool {
        &&& self.frame == 0
        &&& self.commands@.len() == 0
        &&& self.hash@.len() == 0
    }
}

/// What the game puts into the channel.
#[derive(Debug)]
enum NetInputWrap {
    Input(NetInput),
    Finish,
}

/// What the game put into the channel, as a mathematical value.
pub ghost enum InputEvent {
    /// The inputs of one frame.
    Input { frame: u32, commands: Seq<Command>, hash: Seq<u8> },
    /// The game is over.
    Finish,
}

impl NetInputWrap {
    spec fn event(self) -> InputEvent {
        match self {
            NetInputWrap::Input(input) => InputEvent::Input {
                frame: input.frame,
                commands: input.commands@,
                hash: input.hash@,
            },
            NetInputWrap::Finish => InputEvent::Finish,
        }
    }
}

/// What a call of `recv_input` found.
#[derive(Debug, Clone, Copy, PartialEq, Eq, Structural)]
pub enum NetInputState {
    Empty,
    NonEmpty,
    Finish,
}

/// What came in from the network and the game has not fetched yet.
#[derive(Debug)]
pub struct NetOutput {
    pub commands: Vec<CommandEx>,
    pub states: HashMap<u32, NetPlayerState>,
}

impl NetOutput {
    fn new() -> (res: NetOutput)
        ensures
            res.commands@ == Seq::<CommandEx>::empty(),
            res.states@ == Map::<u32, NetPlayerState>::empty(),
    {
        NetOutput {
            commands: Vec::with_capacity(PLAYERS_CAP * 2),
            states: HashMap::with_capacity(COMMANDS_CAP),
        }
    }
}

/// The channel as a mathematical value.
pub ghost struct NetChanView {
    /// What the game sent and the worker has not received, oldest first.
    pub inputs: Seq<InputEvent>,
    /// The commands that came in, in the order they came.
    pub commands: Seq<CommandEx>,
    /// The latest known state of each player.
    pub states: Map<u32, NetPlayerState>,
    /// The cause the session ended with, once it has.
    pub finish_cause: Option<NetFinishCause>,
}

impl NetChanView {
    /// A channel nothing has passed through.
    pub open spec fn empty() -> NetChanView {
        NetChanView {
            inputs: Seq::empty(),
            commands: Seq::empty(),
            states: Map::empty(),
            finish_cause: None,
        }
    }

    /// The game sends the inputs of a frame: refused with the cause once the
    /// channel is finished, else queued.
    pub open spec fn send_input(self, frame: u32, commands: Seq<Command>, hash: Seq<u8>) -> (
        NetChanView,
        Result<(), NetFinishCause>,
    ) {
        match self.finish_cause {
            Some(cause) => (self, Err(cause)),
            None => (
                NetChanView {
                    inputs: self.inputs.push(InputEvent::Input { frame, commands, hash }),
                    ..self
                },
                Ok(()),
            ),
        }
    }

    /// The game says that it is over: refused with the cause once the channel
    /// is finished, else queued.
    pub open spec fn game_over(self) -> (NetChanView, Result<(), NetFinishCause>) {
        match self.finish_cause {
            Some(cause) => (self, Err(cause)),
            None => (NetChanView { inputs: self.inputs.push(InputEvent::Finish), ..self }, Ok(())),
        }
    }

    /// The worker takes the oldest thing the game sent, if there is any.
    pub open spec fn recv_input(self) -> (NetChanView, Option<InputEvent>) {
        if self.inputs.len() == 0 {
            (self, None)
        } else {
            (NetChanView { inputs: self.inputs.skip(1), ..self }, Some(self.inputs[0]))
        }
    }

    /// The worker hands over commands that came in.
    pub open spec fn send_output_commands(self, commands: Seq<CommandEx>) -> NetChanView {
        NetChanView { commands: self.commands + commands, ..self }
    }

    /// The worker tells the state of a player; the last state told counts.
    pub open spec fn send_output_states(self, conv: u32, state: NetPlayerState) -> NetChanView {
        NetChanView { states: self.states.insert(conv, state), ..self }
    }

    /// The game fetches what came in: refused with the cause once the channel
    /// is finished, else handed over and forgotten.
    pub open spec fn recv_output(self) -> (NetChanView, Result<(), NetFinishCause>) {
        match self.finish_cause {
            Some(cause) => (self, Err(cause)),
            None => (NetChanView { commands: Seq::empty(), states: Map::empty(), ..self }, Ok(())),
        }
    }

    /// The worker ends the session with a cause. The last cause given counts.
    pub open spec fn finish(self, cause: NetFinishCause) -> NetChanView {
        NetChanView { finish_cause: Some(cause), ..self }
    }
}

/// The channel.
#[derive(Debug)]
pub struct NetChan {
    cache_stack: Vec<NetInput>,
    input_queue: VecDeque<NetInputWrap>,
    output: NetOutput,
    finish_cause: Option<NetFinishCause>,
}

impl View for NetChan {
    type V = NetChanView;

    closed spec fn view(&self) -> NetChanView {
        NetChanView {
            inputs: self.input_queue@.map_values(|wrap: NetInputWrap| wrap.event()),
            commands: self.output.commands@,
            states: self.output.states@,
            finish_cause: self.finish_cause,
        }
    }
}

impl NetChan {
    /// At most [`CACHE_CAP`] inputs are kept for reuse, and each was emptied.
    pub closed spec fn wf(&self) -> bool {
        &&& self.cache_stack@.len() <= CACHE_CAP
        &&& forall|i: int| 0 <= i < self.cache_stack@.len() ==> (#[trigger] self.cache_stack@[i]).is_clear()
    }

    /// How many emptied inputs the channel keeps for reuse.
    pub closed spec fn cached(&self) -> nat {
        self.cache_stack@.len()
    }

    /// The channel never keeps more than [`CACHE_CAP`] inputs for reuse.
    pub proof fn lemma_cache_bound(&self)
        requires
            self.wf(),
        ensures
            self.cached() <= CACHE_CAP,
    {
    }

    /// A channel nothing has passed through.
    pub fn new() -> (res: NetChan)
        ensures
            res.wf(),
            res@ == NetChanView::empty(),
            res.cached() == 0,
    {
        let res = NetChan {
            cache_stack: Vec::with_capacity(CACHE_CAP),
            input_queue: VecDeque::with_capacity(CACHE_CAP),
            output: NetOutput::new(),
            finish_cause: None,
        };
        assert(res@.inputs =~= Seq::empty());
        res
    }

    /// The game sends the inputs of a frame.
    pub fn send_input(&mut self, frame: u32, commands: &[Command], hash: &[u8]) -> (res: Result<
        (),
        NetFinishCause,
    >)
        requires
            old(self).wf(),
        ensures
            final(self).wf(),
            (final(self)@, res) == old(self)@.send_input(frame, commands@, hash@),
            final(self).cached() <= CACHE_CAP,
    {
        if let Some(cause) = self.finish_cause {
            return Err(cause);
        }
        let mut input = match self.cache_stack.pop() {
            Some(input) => input,
            None => NetInput::new(),
        };
        input.frame = frame;
        input.commands.extend_from_slice(commands);
        input.hash.extend_from_slice(hash);
        assert(input.commands@ =~= commands@);
        assert(input.hash@ =~= hash@);
        self.input_queue.push_back(NetInputWrap::Input(input));
        assert(self@.inputs =~= old(self)@.inputs.push(
            InputEvent::Input { frame, commands: commands@, hash: hash@ },
        ));
        Ok(())
    }

    /// The worker takes the oldest thing the game sent. Where that is the
    /// inputs of a frame, `frame` is set and the commands and the hash are
    /// appended to `commands` and `hash`.
    pub fn recv_input(
        &mut self,
        frame: &mut u32,
        commands: &mut Vec<Command>,
        hash: &mut Vec<u8>,
    ) -> (res: NetInputState)
        requires
            old(self).wf(),
        ensures
            final(self).wf(),
            final(self)@ == old(self)@.recv_input().0,
            match old(self)@.recv_input().1 {
                None => {
                    &&& res == NetInputState::Empty
                    &&& *final(frame) == *old(frame)
                    &&& final(commands)@ == old(commands)@
                    &&& final(hash)@ == old(hash)@
                },
                Some(InputEvent::Finish) => {
                    &&& res == NetInputState::Finish
                    &&& *final(frame) == *old(frame)
                    &&& final(commands)@ == old(commands)@
                    &&& final(hash)@ == old(hash)@
                },
                Some(InputEvent::Input { frame: f, commands: c, hash: h }) => {
                    &&& res == NetInputState::NonEmpty
                    &&& *final(frame) == f
                    &&& final(commands)@ == old(commands)@ + c
                    &&& final(hash)@ == old(hash)@ + h
                },
            },
            final(self).cached() <= CACHE_CAP,
    {
        let mut input = match self.input_queue.pop_front() {
            Some(NetInputWrap::Input(input)) => input,
            Some(NetInputWrap::Finish) => {
                assert(self@.inputs =~= old(self)@.inputs.skip(1));
                return NetInputState::Finish;
            },
            None => {
                return NetInputState::Empty;
            },
        };
        assert(self@.inputs =~= old(self)@.inputs.skip(1));
        *frame = input.frame;
        commands.extend_from_slice(input.commands.as_slice());
        hash.extend_from_slice(input.hash.as_slice());
        assert(commands@ =~= old(commands)@ + input.commands@);
        assert(hash@ =~= old(hash)@ + input.hash@);
        input.clear();
        if self.cache_stack.len() < CACHE_CAP {
            self.cache_stack.push(input);
        }
        NetInputState::NonEmpty
    }

    /// The worker hands over commands that came in.
    pub fn send_output_commands(&mut self, commands: &[CommandEx])
        requires
            old(self).wf(),
        ensures
            final(self).wf(),
            final(self)@ == old(self)@.send_output_commands(commands@),
            final(self).cached() <= CACHE_CAP,
    {
        self.output.commands.extend_from_slice(commands);
        assert(self.output.commands@ =~= old(self).output.commands@ + commands@);
    }

    /// The worker tells the state of a player.
    pub fn send_output_states(&mut self, conv: u32, state: NetPlayerState)
        requires
            old(self).wf(),
        ensures
            final(self).wf(),
            final(self)@ == old(self)@.send_output_states(conv, state),
            final(self).cached() <= CACHE_CAP,
    {
        self.output.states.insert(conv, state);
    }

    /// The game fetches what came in: the commands are appended to
    /// `commands`, and `states` becomes the latest known state of each
    /// player. Once the channel is finished nothing is handed over.
    pub fn recv_output(
        &mut self,
        commands: &mut Vec<CommandEx>,
        states: &mut HashMap<u32, NetPlayerState>,
    ) -> (res: Result<(), NetFinishCause>)
        requires
            old(self).wf(),
        ensures
            final(self).wf(),
            (final(self)@, res) == old(self)@.recv_output(),
            res is Ok ==> final(commands)@ == old(commands)@ + old(self)@.commands,
            res is Ok ==> final(states)@ == old(self)@.states,
            res is Err ==> final(commands)@ == old(commands)@ && final(states)@ == old(states)@,
            final(self).cached() <= CACHE_CAP,
    {
        if let Some(cause) = self.finish_cause {
            return Err(cause);
        }
        commands.extend_from_slice(self.output.commands.as_slice());
        assert(commands@ =~= old(commands)@ + old(self)@.commands);
        std::mem::swap(states, &mut self.output.states);
        self.output.commands.clear();
        self.output.states.clear();
        Ok(())
    }

    /// The game says that it is over.
    pub fn game_over(&mut self) -> (res: Result<(), NetFinishCause>)
        requires
            old(self).wf(),
        ensures
            final(self).wf(),
            (final(self)@, res) == old(self)@.game_over(),
            final(self).cached() <= CACHE_CAP,
    {
        if let Some(cause) = self.finish_cause {
            return Err(cause);
        }
        self.input_queue.push_back(NetInputWrap::Finish);
        assert(self@.inputs =~= old(self)@.inputs.push(InputEvent::Finish));
        Ok(())
    }

    /// The worker ends the session with a cause.
    pub fn finish(&mut self, cause: NetFinishCause)
        requires
            old(self).wf(),
        ensures
            final(self).wf(),
            final(self)@ == old(self)@.finish(cause),
            final(self).cached() <= CACHE_CAP,
    {
        self.finish_cause = Some(cause);
    }
}

impl NetChanView {
    /// A finished channel refuses the game: after `finish(cause)`, sending
    /// inputs, fetching what came in and ending the game each return
    /// `Err(cause)` and change nothing.
    pub proof fn lemma_finished_refuses(
        self,
        cause: NetFinishCause,
        frame: u32,
        commands: Seq<Command>,
        hash: Seq<u8>,
    )
        ensures
            self.finish(cause).send_input(frame, commands, hash) == (
                self.finish(cause),
                Err::<(), NetFinishCause>(cause),
            ),
            self.finish(cause).recv_output() == (
                self.finish(cause),
                Err::<(), NetFinishCause>(cause),
            ),
            self.finish(cause).game_over() == (
                self.finish(cause),
                Err::<(), NetFinishCause>(cause),
            ),
    {
    }

    /// A finished channel stays finished: no call but `finish` changes the
    /// cause, so that the game is refused with it ever after.
    pub proof fn lemma_finish_stays(
        self,
        frame: u32,
        commands: Seq<Command>,
        hash: Seq<u8>,
        received: Seq<CommandEx>,
        conv: u32,
        state: NetPlayerState,
    )
        ensures
            self.send_input(frame, commands, hash).0.finish_cause == self.finish_cause,
            self.game_over().0.finish_cause == self.finish_cause,
            self.recv_input().0.finish_cause == self.finish_cause,
            self.send_output_commands(received).finish_cause == self.finish_cause,
            self.send_output_states(conv, state).finish_cause == self.finish_cause,
            self.recv_output().0.finish_cause == self.finish_cause,
    {
    }
}

} // verus!
