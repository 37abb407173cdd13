//! The commands of one frame: their encoding as a list that follows a command
//! frame, the encoder that packs a frame's commands and state hash, and the
//! decoder that unpacks what the server sends back.
//!
//! The list is a 64-bit count followed by the commands. A command is a 32-bit
//! variant number followed by its fields, 32 bits each. Every integer is
//! little-endian.

use crate::base::{KCPError, HASH_CAP, KCP_MAX_PACKET};
use crate::codec::{decode_frame, NetMessage, NetMessageView};
use crate::message::{NetCommand, NetHash, NetHashView};
use crate::wire::{
    bits_to_i32, fixint_get_u32, fixint_get_u64, fixint_put_u32, fixint_put_u64, i32_bits,
    i32_from_bits, i32_to_bits, le_bytes, le_value, lemma_le_limits, lemma_le_value_of_bytes,
};
use vstd::prelude::*;
use vstd::slice::slice_subrange;

verus! {

/// One input of a player. A `Bbb` holds three 32-bit floating-point numbers
/// by their bits.
#[derive(Clone, Copy, Debug, PartialEq, Eq, Structural)]
pub enum Command {
    Aaa(i32, i32),
    Bbb(u32, u32, u32),
}

/// A command with the player it came from and the frame it belongs to.
#[derive(Clone, Copy, Debug, PartialEq, Eq, Structural)]
pub struct CommandEx {
    pub conv: u32,
    pub frame: u32,
    pub command: Command,
}

/// One command on the wire.
pub open spec fn command_bytes(command: Command) -> Seq<u8> {
    match command {
        Command::Aaa(a, b) => le_bytes(0, 4) + le_bytes(i32_bits(a), 4) + le_bytes(i32_bits(b), 4),
        Command::Bbb(x, y, z) => le_bytes(1, 4) + le_bytes(x as nat, 4) + le_bytes(y as nat, 4)
            + le_bytes(z as nat, 4),
    }
}

/// The commands on the wire, one after the other.
pub open spec fn commands_bytes(commands: Seq<Command>) -> Seq<u8>
    decreases commands.len(),
{
    if commands.len() == 0 {
        Seq::empty()
    } else {
        commands_bytes(commands.drop_last()) + command_bytes(commands.last())
    }
}

/// The list on the wire: the count, then the commands.
pub open spec fn command_list(commands: Seq<Command>) -> Seq<u8> {
    le_bytes(commands.len(), 8) + commands_bytes(commands)
}

/// The command at the head of `bytes`, with its length.
pub open spec fn read_command(bytes: Seq<u8>) -> Option<(Command, nat)> {
    if bytes.len() < 4 {
        None
    } else if le_value(bytes.take(4)) == 0 {
        if bytes.len() < 12 {
            None
        } else {
            Some(
                (
                    Command::Aaa(
                        i32_from_bits(le_value(bytes.subrange(4, 8))),
                        i32_from_bits(le_value(bytes.subrange(8, 12))),
                    ),
                    12,
                ),
            )
        }
    } else if le_value(bytes.take(4)) == 1 {
        if bytes.len() < 16 {
            None
        } else {
            Some(
                (
                    Command::Bbb(
                        le_value(bytes.subrange(4, 8)) as u32,
                        le_value(bytes.subrange(8, 12)) as u32,
                        le_value(bytes.subrange(12, 16)) as u32,
                    ),
                    16,
                ),
            )
        }
    } else {
        None
    }
}

/// Reading `count` commands from the head of `bytes`: the commands read
/// before the bytes ran out or a command was malformed, and, where all
/// `count` were read, their length together.
pub open spec fn read_commands(bytes: Seq<u8>, count: nat) -> (Seq<Command>, Option<nat>)
    decreases count,
{
    if count == 0 {
        (Seq::empty(), Some(0))
    } else {
        match read_command(bytes) {
            Some((command, n)) => {
                let (rest, len) = read_commands(bytes.skip(n as int), (count - 1) as nat);
                (
                    seq![command] + rest,
                    match len {
                        Some(m) => Some(n + m),
                        None => None,
                    },
                )
            },
            None => (Seq::empty(), None),
        }
    }
}

/// Reading a list: the commands read, and whether `bytes` are a list from
/// end to end, that is a count and that many commands with nothing after
/// them.
pub open spec fn read_command_list(bytes: Seq<u8>) -> (Seq<Command>, bool) {
    if bytes.len() < 8 {
        (Seq::empty(), false)
    } else {
        let (commands, len) = read_commands(bytes.skip(8), le_value(bytes.take(8)));
        (commands, len == Some((bytes.len() - 8) as nat))
    }
}

/// The commands, each with the player and the frame.
pub open spec fn stamp(conv: u32, frame: u32, commands: Seq<Command>) -> Seq<CommandEx> {
    commands.map_values(|command: Command| CommandEx { conv, frame, command })
}

/// Appends a 32-bit integer to `out`.
fn write_u32(out: &mut Vec<u8>, value: u32) -> (res: Result<(), KCPError>)
    ensures
        res is Ok,
        final(out)@ == old(out)@ + le_bytes(value as nat, 4),
{
    match fixint_put_u32(out, value) {
        Ok(_) => Ok(()),
        Err(_) => Err(KCPError::Bincode),
    }
}

/// Appends one command to `out`.
fn write_command(out: &mut Vec<u8>, command: &Command) -> (res: Result<(), KCPError>)
    ensures
        res is Ok,
        final(out)@ == old(out)@ + command_bytes(*command),
{
    match command {
        Command::Aaa(a, b) => {
            write_u32(out, 0)?;
            write_u32(out, i32_to_bits(*a))?;
            write_u32(out, i32_to_bits(*b))?;
        },
        Command::Bbb(x, y, z) => {
            write_u32(out, 1)?;
            write_u32(out, *x)?;
            write_u32(out, *y)?;
            write_u32(out, *z)?;
        },
    }
    assert(out@ =~= old(out)@ + command_bytes(*command));
    Ok(())
}

/// Appends the list of `commands` to `out`.
pub fn write_commands(out: &mut Vec<u8>, commands: &[Command]) -> (res: Result<(), KCPError>)
    ensures
        res is Ok,
        final(out)@ == old(out)@ + command_list(commands@),
{
    if fixint_put_u64(out, commands.len() as u64).is_err() {
        return Err(KCPError::Bincode);
    }
    let mut i: usize = 0;
    proof {
        assert(commands@.take(0).len() == 0);
        assert(out@ =~= old(out)@ + le_bytes(commands@.len(), 8) + commands_bytes(
            commands@.take(0),
        ));
    }
    while i < commands.len()
        invariant
            i <= commands.len(),
            out@ == old(out)@ + le_bytes(commands@.len(), 8) + commands_bytes(
                commands@.take(i as int),
            ),
        decreases commands.len() - i,
    {
        proof {
            assert(commands@.take(i + 1).drop_last() == commands@.take(i as int));
            assert(commands@.take(i + 1).last() == commands@[i as int]);
        }
        write_command(out, &commands[i])?;
        assert(out@ =~= old(out)@ + le_bytes(commands@.len(), 8) + commands_bytes(
            commands@.take(i + 1),
        ));
        i = i + 1;
    }
    proof {
        assert(commands@.take(i as int) == commands@);
        assert(out@ =~= old(out)@ + command_list(commands@));
    }
    Ok(())
}

/// Reads the command at the head of `bytes`.
fn parse_command(bytes: &[u8]) -> (res: Option<(Command, usize)>)
    ensures
        res is Some <==> read_command(bytes@) is Some,
        res matches Some((command, n)) ==> read_command(bytes@) == Some((command, n as nat)),
{
    let variant = match fixint_get_u32(bytes) {
        Ok(v) => v,
        Err(_) => {
            return None;
        },
    };
    if variant == 0 {
        if bytes.len() < 12 {
            return None;
        }
        let first = slice_subrange(bytes, 4, 8);
        let second = slice_subrange(bytes, 8, 12);
        proof {
            assert(first@.take(4) == bytes@.subrange(4, 8));
            assert(second@.take(4) == bytes@.subrange(8, 12));
        }
        match (fixint_get_u32(first), fixint_get_u32(second)) {
            (Ok(a), Ok(b)) => Some((Command::Aaa(bits_to_i32(a), bits_to_i32(b)), 12)),
            _ => None,
        }
    } else if variant == 1 {
        if bytes.len() < 16 {
            return None;
        }
        let first = slice_subrange(bytes, 4, 8);
        let second = slice_subrange(bytes, 8, 12);
        let third = slice_subrange(bytes, 12, 16);
        proof {
            assert(first@.take(4) == bytes@.subrange(4, 8));
            assert(second@.take(4) == bytes@.subrange(8, 12));
            assert(third@.take(4) == bytes@.subrange(12, 16));
        }
        match (fixint_get_u32(first), fixint_get_u32(second), fixint_get_u32(third)) {
            (Ok(x), Ok(y), Ok(z)) => Some((Command::Bbb(x, y, z), 16)),
            _ => None,
        }
    } else {
        None
    }
}

/// Reads a list and appends its commands to `out`, each with `conv` and
/// `frame`. The commands read before an error stay in `out`.
pub fn parse_commands(bytes: &[u8], conv: u32, frame: u32, out: &mut Vec<CommandEx>) -> (res:
    Result<(), KCPError>)
    ensures
        final(out)@ == old(out)@ + stamp(conv, frame, read_command_list(bytes@).0),
        res is Ok <==> read_command_list(bytes@).1,
        res matches Err(e) ==> e == KCPError::Bincode,
{
    let count = match fixint_get_u64(bytes) {
        Ok(v) => v,
        Err(_) => {
            assert(out@ =~= old(out)@ + stamp(conv, frame, Seq::empty()));
            return Err(KCPError::Bincode);
        },
    };
    let ghost body = bytes@.skip(8);
    let ghost total = read_commands(body, count as nat);
    let ghost mut done: Seq<Command> = Seq::empty();
    let mut pos: usize = 8;
    let mut i: u64 = 0;
    proof {
        assert(out@ =~= old(out)@ + stamp(conv, frame, done));
        assert(done + read_commands(body, count as nat).0 =~= total.0);
        assert(bytes@.skip(8).skip(0) == body);
    }
    while i < count
        invariant
            i <= count,
            8 <= pos <= bytes.len(),
            body == bytes@.skip(8),
            count == le_value(bytes@.take(8)),
            total == read_commands(body, count as nat),
            out@ == old(out)@ + stamp(conv, frame, done),
            total.0 == done + read_commands(bytes@.skip(pos as int), (count - i) as nat).0,
            total.1 == match read_commands(bytes@.skip(pos as int), (count - i) as nat).1 {
                Some(m) => Some((pos - 8 + m) as nat),
                None => None,
            },
        decreases count - i,
    {
        let rest = slice_subrange(bytes, pos, bytes.len());
        assert(rest@ == bytes@.skip(pos as int));
        match parse_command(rest) {
            Some((command, n)) => {
                proof {
                    assert(bytes@.skip(pos as int).skip(n as int) == bytes@.skip(pos + n));
                    let ghost next = read_commands(bytes@.skip(pos + n), (count - i - 1) as nat);
                    assert(done + (seq![command] + next.0) =~= done.push(command) + next.0);
                    assert(stamp(conv, frame, done.push(command)) =~= stamp(
                        conv,
                        frame,
                        done,
                    ).push(CommandEx { conv, frame, command }));
                    done = done.push(command);
                }
                out.push(CommandEx { conv, frame, command });
                pos = pos + n;
                i = i + 1;
            },
            None => {
                proof {
                    assert(read_commands(bytes@.skip(pos as int), (count - i) as nat) == (
                        Seq::<Command>::empty(),
                        None::<nat>,
                    ));
                    assert(done + Seq::<Command>::empty() =~= done);
                }
                return Err(KCPError::Bincode);
            },
        }
    }
    proof {
        assert(done + Seq::<Command>::empty() =~= done);
    }
    if pos != bytes.len() {
        return Err(KCPError::Bincode);
    }
    Ok(())
}

/// A [`CommandEncoder`] as a mathematical value.
pub ghost struct CommandEncoderView {
    /// The commands staged for the next frame.
    pub commands: Seq<Command>,
    /// The hash staged for the next frame.
    pub hash: Seq<u8>,
    /// The hash frame that was encoded last.
    pub hash_bytes: Seq<u8>,
    /// The command frame that was encoded last, with its list.
    pub command_bytes: Seq<u8>,
}

impl CommandEncoderView {
    /// Nothing staged and nothing encoded.
    pub open spec fn empty() -> CommandEncoderView {
        CommandEncoderView {
            commands: Seq::empty(),
            hash: Seq::empty(),
            hash_bytes: Seq::empty(),
            command_bytes: Seq::empty(),
        }
    }

    /// The hash frame of `frame` with the staged hash.
    pub open spec fn hash_message(self, frame: u32) -> NetMessageView {
        NetMessageView::Hash(NetHashView { frame, hash: self.hash })
    }

    /// The command frame of `frame`. It names no player: the server knows
    /// whom it hears.
    pub open spec fn command_message(frame: u32) -> NetMessageView {
        NetMessageView::Command(NetCommand { conv: 0, frame })
    }

    /// The staging buffers with `commands` and `hash` added.
    pub open spec fn stage(self, commands: Seq<Command>, hash: Seq<u8>) -> CommandEncoderView {
        CommandEncoderView { commands: self.commands + commands, hash: self.hash + hash, ..self }
    }

    /// Encoding what is staged as the frames of `frame`. Where the hash frame
    /// is longer than [`KCP_MAX_PACKET`] only the old hash frame is dropped;
    /// else both frames are encoded and the staging buffers emptied.
    pub open spec fn encode(self, frame: u32) -> (CommandEncoderView, Result<(), KCPError>) {
        if self.hash_message(frame).frame().len() > KCP_MAX_PACKET {
            (CommandEncoderView { hash_bytes: Seq::empty(), ..self }, Err(KCPError::MessageTooLong))
        } else {
            (
                CommandEncoderView {
                    commands: Seq::empty(),
                    hash: Seq::empty(),
                    hash_bytes: self.hash_message(frame).frame(),
                    command_bytes: Self::command_message(frame).frame() + command_list(
                        self.commands,
                    ),
                },
                Ok(()),
            )
        }
    }
}

/// Packs the commands and the state hash of one frame into two frames: a
/// hash frame, and a command frame with the list of commands after it.
#[derive(Debug, Clone)]
pub struct CommandEncoder {
    commands: Vec<Command>,
    hash: Vec<u8>,
    hash_bytes: Vec<u8>,
    command_bytes: Vec<u8>,
}

impl View for CommandEncoder {
    type V = CommandEncoderView;

    closed spec fn view(&self) -> CommandEncoderView {
        CommandEncoderView {
            commands: self.commands@,
            hash: self.hash@,
            hash_bytes: self.hash_bytes@,
            command_bytes: self.command_bytes@,
        }
    }
}

impl CommandEncoder {
    /// An encoder with nothing staged and nothing encoded, with room for
    /// `cap` commands.
    pub fn new(cap: usize) -> (res: CommandEncoder)
        ensures
            res@ == CommandEncoderView::empty(),
    {
        CommandEncoder {
            commands: Vec::with_capacity(cap),
            hash: Vec::with_capacity(HASH_CAP),
            hash_bytes: Vec::with_capacity(HASH_CAP * 2),
            command_bytes: Vec::with_capacity(KCP_MAX_PACKET),
        }
    }

    /// The staged commands, to be filled.
    pub fn commands(&mut self) -> (res: &mut Vec<Command>)
        ensures
            res@ == old(self)@.commands,
            final(self)@ == (CommandEncoderView { commands: final(res)@, ..old(self)@ }),
    {
        &mut self.commands
    }

    /// The staged hash, to be filled.
    pub fn hash(&mut self) -> (res: &mut Vec<u8>)
        ensures
            res@ == old(self)@.hash,
            final(self)@ == (CommandEncoderView { hash: final(res)@, ..old(self)@ }),
    {
        &mut self.hash
    }

    /// The staged commands and the staged hash, to be filled.
    pub fn buffers(&mut self) -> (res: (&mut Vec<Command>, &mut Vec<u8>))
        ensures
            res.0@ == old(self)@.commands,
            res.1@ == old(self)@.hash,
            final(self)@ == (CommandEncoderView {
                commands: final(res.0)@,
                hash: final(res.1)@,
                ..old(self)@
            }),
    {
        (&mut self.commands, &mut self.hash)
    }

    /// Encodes what is staged as the frames of `frame`, and empties the
    /// staging buffers. Where the hash frame would be longer than
    /// [`KCP_MAX_PACKET`], what is staged stays.
    pub fn encode(&mut self, frame: u32) -> (res: Result<(), KCPError>)
        ensures
            (final(self)@, res) == old(self)@.encode(frame),
    {
        let mut hash: Vec<u8> = Vec::new();
        std::mem::swap(&mut hash, &mut self.hash);
        let net_hash = NetMessage::Hash(NetHash { frame, hash });
        self.hash_bytes.clear();
        let encoded = net_hash.encode(&mut self.hash_bytes);
        match net_hash {
            NetMessage::Hash(msg) => {
                self.hash = msg.hash;
            },
            _ => {},
        }
        if encoded.is_err() {
            return Err(KCPError::MessageTooLong);
        }
        let net_command = NetMessage::Command(NetCommand { conv: 0, frame });
        self.command_bytes.clear();
        proof {
            lemma_command_frame_short(NetCommand { conv: 0, frame });
        }
        net_command.encode(&mut self.command_bytes)?;
        write_commands(&mut self.command_bytes, self.commands.as_slice())?;
        self.hash.clear();
        self.commands.clear();
        Ok(())
    }

    /// The command frame that was encoded last, with its list.
    pub fn command_bytes(&self) -> (res: &[u8])
        ensures
            res@ == self@.command_bytes,
    {
        self.command_bytes.as_slice()
    }

    /// The hash frame that was encoded last.
    pub fn hash_bytes(&self) -> (res: &[u8])
        ensures
            res@ == self@.hash_bytes,
    {
        self.hash_bytes.as_slice()
    }
}

/// A command frame is at most 15 bytes long.
pub proof fn lemma_command_frame_short(msg: NetCommand)
    ensures
        NetMessageView::Command(msg).frame().len() <= 15,
{
    crate::wire::lemma_varint_size(msg.conv as nat);
    crate::wire::lemma_varint_size(msg.frame as nat);
    crate::wire::lemma_varint_size(8);
    crate::wire::lemma_varint_size(16);
}

/// What decoding `bytes` as a command frame with its list gives: the
/// commands, each with the player and the frame that the command frame
/// names, or the reason there are none.
pub open spec fn decode_commands(bytes: Seq<u8>) -> Result<Seq<CommandEx>, KCPError> {
    match decode_frame(bytes) {
        Ok((NetMessageView::Command(head), n)) => {
            let (commands, whole) = read_command_list(bytes.skip(n as int));
            if whole {
                Ok(stamp(head.conv, head.frame, commands))
            } else {
                Err(KCPError::Bincode)
            }
        },
        Ok(_) => Err(KCPError::PacketBroken),
        Err(err) => Err(err),
    }
}

/// What a decoder that held `before` holds after it was given `bytes`:
/// where no command frame heads them, what it held; else the commands read,
/// which on an error are those before it.
pub open spec fn decoded_commands(before: Seq<CommandEx>, bytes: Seq<u8>) -> Seq<CommandEx> {
    match decode_frame(bytes) {
        Ok((NetMessageView::Command(head), n)) => stamp(
            head.conv,
            head.frame,
            read_command_list(bytes.skip(n as int)).0,
        ),
        _ => before,
    }
}

/// Unpacks a command frame and the list after it.
pub struct CommandDecoder {
    commands: Vec<CommandEx>,
}

impl View for CommandDecoder {
    type V = Seq<CommandEx>;

    /// The commands decoded last.
    closed spec fn view(&self) -> Seq<CommandEx> {
        self.commands@
    }
}

impl CommandDecoder {
    /// A decoder that holds no commands, with room for `cap` of them.
    pub fn new(cap: usize) -> (res: CommandDecoder)
        ensures
            res@ == Seq::<CommandEx>::empty(),
    {
        CommandDecoder { commands: Vec::with_capacity(cap) }
    }

    /// Decodes `bytes`, which hold a command frame and after it a list of
    /// commands, and keeps the commands.
    pub fn decode(&mut self, bytes: &[u8]) -> (res: Result<(), KCPError>)
        ensures
            res is Ok <==> decode_commands(bytes@) is Ok,
            res is Ok ==> decode_commands(bytes@) == Ok::<Seq<CommandEx>, KCPError>(final(self)@),
            res matches Err(e) ==> decode_commands(bytes@) == Err::<Seq<CommandEx>, KCPError>(e),
            final(self)@ == decoded_commands(old(self)@, bytes@),
    {
        let (command, offset) = match NetMessage::decode(bytes)? {
            (NetMessage::Command(command), offset) => (command, offset),
            _ => {
                return Err(KCPError::PacketBroken);
            },
        };
        self.commands.clear();
        let list = slice_subrange(bytes, offset, bytes.len());
        let res = parse_commands(list, command.conv, command.frame, &mut self.commands);
        assert(self.commands@ =~= stamp(
            command.conv,
            command.frame,
            read_command_list(bytes@.skip(offset as int)).0,
        ));
        res
    }

    /// How many commands were decoded last.
    pub fn len(&self) -> (res: usize)
        ensures
            res == self@.len(),
    {
        self.commands.len()
    }

    /// One of the commands decoded last.
    pub fn command(&self, idx: usize) -> (res: &CommandEx)
        requires
            idx < self@.len(),
        ensures
            *res == self@[idx as int],
    {
        &self.commands[idx]
    }

    /// The commands decoded last, in the order of the list.
    pub fn commands(&self) -> (res: &[CommandEx])
        ensures
            res@ == self@,
    {
        self.commands.as_slice()
    }
}

/// A command is read back from its bytes, whatever follows them.
pub proof fn lemma_read_command(command: Command, rest: Seq<u8>)
    ensures
        read_command(command_bytes(command) + rest) == Some(
            (command, command_bytes(command).len()),
        ),
{
    lemma_le_limits();
    let bytes = command_bytes(command) + rest;
    match command {
        Command::Aaa(a, b) => {
            lemma_le_value_of_bytes(0, 4);
            lemma_le_value_of_bytes(i32_bits(a), 4);
            lemma_le_value_of_bytes(i32_bits(b), 4);
            assert(bytes.take(4) =~= le_bytes(0, 4));
            assert(bytes.subrange(4, 8) =~= le_bytes(i32_bits(a), 4));
            assert(bytes.subrange(8, 12) =~= le_bytes(i32_bits(b), 4));
        },
        Command::Bbb(x, y, z) => {
            lemma_le_value_of_bytes(1, 4);
            lemma_le_value_of_bytes(x as nat, 4);
            lemma_le_value_of_bytes(y as nat, 4);
            lemma_le_value_of_bytes(z as nat, 4);
            assert(bytes.take(4) =~= le_bytes(1, 4));
            assert(bytes.subrange(4, 8) =~= le_bytes(x as nat, 4));
            assert(bytes.subrange(8, 12) =~= le_bytes(y as nat, 4));
            assert(bytes.subrange(12, 16) =~= le_bytes(z as nat, 4));
        },
    }
}

/// The bytes of commands begin with the bytes of the first.
pub proof fn lemma_commands_bytes_head(commands: Seq<Command>)
    requires
        commands.len() > 0,
    ensures
        commands_bytes(commands) == command_bytes(commands[0]) + commands_bytes(commands.skip(1)),
    decreases commands.len(),
{
    if commands.len() == 1 {
        assert(commands.drop_last().len() == 0);
        assert(commands.skip(1).len() == 0);
        assert(commands_bytes(commands) =~= command_bytes(commands[0]) + commands_bytes(
            commands.skip(1),
        ));
    } else {
        lemma_commands_bytes_head(commands.drop_last());
        assert(commands.drop_last().skip(1) =~= commands.skip(1).drop_last());
        assert(commands.skip(1).last() == commands.last());
        assert(commands.drop_last()[0] == commands[0]);
        assert(commands_bytes(commands.skip(1)) == commands_bytes(commands.skip(1).drop_last())
            + command_bytes(commands.skip(1).last()));
        assert(commands_bytes(commands) == commands_bytes(commands.drop_last()) + command_bytes(
            commands.last(),
        ));
        assert(commands_bytes(commands) =~= command_bytes(commands[0]) + commands_bytes(
            commands.skip(1),
        ));
    }
}

/// Commands are read back from their bytes, in their order, whatever
/// follows the bytes.
pub proof fn lemma_read_commands(commands: Seq<Command>, rest: Seq<u8>)
    ensures
        read_commands(commands_bytes(commands) + rest, commands.len()) == (
            commands,
            Some(commands_bytes(commands).len()),
        ),
    decreases commands.len(),
{
    if commands.len() == 0 {
        assert(commands =~= Seq::empty());
    } else {
        let first = commands[0];
        let others = commands.skip(1);
        lemma_commands_bytes_head(commands);
        let bytes = commands_bytes(commands) + rest;
        assert(bytes =~= command_bytes(first) + (commands_bytes(others) + rest));
        lemma_read_command(first, commands_bytes(others) + rest);
        assert(bytes.skip(command_bytes(first).len() as int) =~= commands_bytes(others) + rest);
        lemma_read_commands(others, rest);
        assert(seq![first] + others =~= commands);
    }
}

/// A list is read back from its bytes: the same commands in the same order,
/// and the bytes are a list from end to end.
pub proof fn lemma_read_command_list(commands: Seq<Command>)
    requires
        commands.len() <= u64::MAX,
    ensures
        read_command_list(command_list(commands)) == (commands, true),
{
    lemma_le_limits();
    lemma_le_value_of_bytes(commands.len(), 8);
    let bytes = command_list(commands);
    assert(bytes.take(8) =~= le_bytes(commands.len(), 8));
    assert(bytes.skip(8) =~= commands_bytes(commands));
    lemma_read_commands(commands, Seq::empty());
    assert(commands_bytes(commands) + Seq::<u8>::empty() =~= commands_bytes(commands));
}

/// The decoder gives back what the encoder was given: a command frame for
/// `conv` and `frame` with the list of `commands` after it decodes to those
/// commands in their order, each with `conv` and `frame`, as long as frame
/// and list together are no more than [`KCP_MAX_PACKET`] bytes.
pub proof fn lemma_decode_commands(conv: u32, frame: u32, commands: Seq<Command>)
    requires
        NetMessageView::Command(NetCommand { conv, frame }).frame().len() + command_list(
            commands,
        ).len() <= KCP_MAX_PACKET,
    ensures
        decode_commands(
            NetMessageView::Command(NetCommand { conv, frame }).frame() + command_list(commands),
        ) == Ok::<Seq<CommandEx>, KCPError>(stamp(conv, frame, commands)),
        stamp(conv, frame, commands).len() == commands.len(),
        forall|i: int|
            0 <= i < commands.len() ==> #[trigger] stamp(conv, frame, commands)[i] == (CommandEx {
                conv,
                frame,
                command: commands[i],
            }),
{
    let head = NetMessageView::Command(NetCommand { conv, frame });
    let list = command_list(commands);
    head.lemma_decode_frame(list);
    assert((head.frame() + list).skip(head.frame().len() as int) =~= list);
    lemma_command_list_len(commands);
    lemma_read_command_list(commands);
}

/// A list is at least as many bytes long as it has commands.
pub proof fn lemma_command_list_len(commands: Seq<Command>)
    ensures
        command_list(commands).len() >= commands.len(),
{
    lemma_commands_bytes_len(commands);
}

/// Commands take at least as many bytes as there are commands.
pub proof fn lemma_commands_bytes_len(commands: Seq<Command>)
    ensures
        commands_bytes(commands).len() >= commands.len(),
    decreases commands.len(),
{
    if commands.len() > 0 {
        lemma_commands_bytes_len(commands.drop_last());
        lemma_le_limits();
        lemma_le_value_of_bytes(0, 4);
        lemma_le_value_of_bytes(1, 4);
    }
}

} // verus!
