//! The messages a frame can carry, and the encoding of each as a payload of
//! numbered fields. A field that holds its default (zero, the empty string,
//! no bytes, an enum's first value) is left out of the payload.

use crate::base::KCPError;
use crate::fields::{
    bytes_tokens, find_bytes, find_string, find_uint32, last_bytes, last_string, last_uint32,
    lemma_find_bytes, lemma_find_string, lemma_find_uint32, lemma_find_uint32_over,
    lemma_scan_bytes, lemma_scan_string,
    lemma_scan_uint32, no_field, opt_bytes_field, opt_string_field, opt_uint32_field, scan,
    scan_fields, string_tokens, uint32_tokens, FieldView,
};
use crate::wire::{pb_write_bytes, pb_write_uint32, FIELD_NUMBER_MAX};
use vstd::prelude::*;
use vstd::string::StringSliceAdditionalSpecFns;
use vstd::utf8::encode_utf8;

verus! {

/// The kind of a frame, as its tag byte says it.
#[derive(Clone, Copy, Debug, PartialEq, Eq, Structural)]
pub enum NetType {
    Unknown,
    Connect,
    Accept,
    State,
    Start,
    Finish,
    Command,
    Hash,
}

impl NetType {
    /// The number that stands for this kind on the wire.
    pub open spec fn spec_value(self) -> i32 {
        match self {
            NetType::Unknown => 0,
            NetType::Connect => 1,
            NetType::Accept => 2,
            NetType::State => 3,
            NetType::Start => 4,
            NetType::Finish => 5,
            NetType::Command => 6,
            NetType::Hash => 7,
        }
    }

    /// The kind a number stands for, if any.
    pub open spec fn spec_from_i32(value: i32) -> Option<NetType> {
        if value == 0 {
            Some(NetType::Unknown)
        } else if value == 1 {
            Some(NetType::Connect)
        } else if value == 2 {
            Some(NetType::Accept)
        } else if value == 3 {
            Some(NetType::State)
        } else if value == 4 {
            Some(NetType::Start)
        } else if value == 5 {
            Some(NetType::Finish)
        } else if value == 6 {
            Some(NetType::Command)
        } else if value == 7 {
            Some(NetType::Hash)
        } else {
            None
        }
    }

    /// The number that stands for this kind on the wire.
    pub fn value(&self) -> (res: i32)
        ensures
            res == self.spec_value(),
    {
        match self {
            NetType::Unknown => 0,
            NetType::Connect => 1,
            NetType::Accept => 2,
            NetType::State => 3,
            NetType::Start => 4,
            NetType::Finish => 5,
            NetType::Command => 6,
            NetType::Hash => 7,
        }
    }

    /// The kind a number stands for, if any.
    pub fn from_i32(value: i32) -> (res: Option<NetType>)
        ensures
            res == Self::spec_from_i32(value),
    {
        match value {
            0 => Some(NetType::Unknown),
            1 => Some(NetType::Connect),
            2 => Some(NetType::Accept),
            3 => Some(NetType::State),
            4 => Some(NetType::Start),
            5 => Some(NetType::Finish),
            6 => Some(NetType::Command),
            7 => Some(NetType::Hash),
            _ => None,
        }
    }
}

/// Where a player stands in the session. The states are ordered: a player
/// only ever moves to a later one.
#[derive(Clone, Copy, Debug, PartialEq, Eq, Hash, Structural)]
pub enum NetPlayerState {
    Initing,
    Waiting,
    Running,
    Stopped,
}

impl NetPlayerState {
    /// Position of the state in the order of the session, which is also the
    /// number that stands for it on the wire.
    pub open spec fn spec_value(self) -> u32 {
        match self {
            NetPlayerState::Initing => 0,
            NetPlayerState::Waiting => 1,
            NetPlayerState::Running => 2,
            NetPlayerState::Stopped => 3,
        }
    }

    /// The state a number stands for; the first state for a number that
    /// stands for none.
    pub open spec fn spec_from_value(value: u32) -> NetPlayerState {
        if value == 1 {
            NetPlayerState::Waiting
        } else if value == 2 {
            NetPlayerState::Running
        } else if value == 3 {
            NetPlayerState::Stopped
        } else {
            NetPlayerState::Initing
        }
    }

    /// The number that stands for this state on the wire.
    pub fn value(&self) -> (res: u32)
        ensures
            res == self.spec_value(),
    {
        match self {
            NetPlayerState::Initing => 0,
            NetPlayerState::Waiting => 1,
            NetPlayerState::Running => 2,
            NetPlayerState::Stopped => 3,
        }
    }

    /// The state a number stands for; a number that stands for none gives
    /// the first state.
    pub fn from_value(value: u32) -> (res: NetPlayerState)
        ensures
            res == Self::spec_from_value(value),
    {
        match value {
            1 => NetPlayerState::Waiting,
            2 => NetPlayerState::Running,
            3 => NetPlayerState::Stopped,
            _ => NetPlayerState::Initing,
        }
    }
}

/// Largest number that stands for a finish cause on the wire.
pub const FINISH_CAUSE_MAX: u32 = 0x7fff_ffff;

/// Why a session ended, as reported to the game.
#[derive(Clone, Copy, Debug, PartialEq, Eq, Structural)]
pub enum NetFinishCause {
    NetworkBroken,
    InvalidPacket,
    GameOver,
    ClientError,
    /// A cause the server defines, by its number, which is from 4 to
    /// [`FINISH_CAUSE_MAX`].
    ServerDefined(u32),
}

impl NetFinishCause {
    /// A server-defined cause has a number that no named cause has, and that
    /// the wire can carry.
    pub open spec fn wf(self) -> bool {
        self matches NetFinishCause::ServerDefined(code) ==> 4 <= code <= FINISH_CAUSE_MAX
    }

    /// The cause that is read where this cause was written. A well-formed
    /// cause is read as itself. A server-defined cause with the number of a
    /// named cause is read as that cause, and one with a number over
    /// [`FINISH_CAUSE_MAX`] is passed over by the reader, which leaves the
    /// first cause.
    pub open spec fn read_back(self) -> NetFinishCause {
        if self.spec_value() <= FINISH_CAUSE_MAX {
            Self::spec_from_value(self.spec_value())
        } else {
            NetFinishCause::NetworkBroken
        }
    }

    /// The number that stands for this cause on the wire.
    pub open spec fn spec_value(self) -> u32 {
        match self {
            NetFinishCause::NetworkBroken => 0,
            NetFinishCause::InvalidPacket => 1,
            NetFinishCause::GameOver => 2,
            NetFinishCause::ClientError => 3,
            NetFinishCause::ServerDefined(code) => code,
        }
    }

    /// The cause a number stands for.
    pub open spec fn spec_from_value(value: u32) -> NetFinishCause {
        if value == 0 {
            NetFinishCause::NetworkBroken
        } else if value == 1 {
            NetFinishCause::InvalidPacket
        } else if value == 2 {
            NetFinishCause::GameOver
        } else if value == 3 {
            NetFinishCause::ClientError
        } else {
            NetFinishCause::ServerDefined(value)
        }
    }

    /// The number that stands for this cause on the wire.
    pub fn value(&self) -> (res: u32)
        ensures
            res == self.spec_value(),
    {
        match self {
            NetFinishCause::NetworkBroken => 0,
            NetFinishCause::InvalidPacket => 1,
            NetFinishCause::GameOver => 2,
            NetFinishCause::ClientError => 3,
            NetFinishCause::ServerDefined(code) => *code,
        }
    }

    /// The cause a number stands for.
    pub fn from_value(value: u32) -> (res: NetFinishCause)
        ensures
            res == Self::spec_from_value(value),
            value <= FINISH_CAUSE_MAX ==> res.wf(),
    {
        match value {
            0 => NetFinishCause::NetworkBroken,
            1 => NetFinishCause::InvalidPacket,
            2 => NetFinishCause::GameOver,
            3 => NetFinishCause::ClientError,
            _ => NetFinishCause::ServerDefined(value),
        }
    }
}

/// Appends a varint field to `out`, unless the value is 0.
fn write_opt_uint32(out: &mut Vec<u8>, field: u32, value: u32) -> (res: Result<(), KCPError>)
    requires
        1 <= field <= FIELD_NUMBER_MAX,
    ensures
        res is Ok,
        final(out)@ == old(out)@ + opt_uint32_field(field, value),
{
    if value != 0 {
        match pb_write_uint32(out, field, value) {
            Ok(_) => Ok(()),
            Err(_) => Err(KCPError::Protobuf),
        }
    } else {
        assert(out@ + Seq::<u8>::empty() =~= out@);
        Ok(())
    }
}

/// Appends a bytes field to `out`, unless there are no bytes.
fn write_opt_bytes(out: &mut Vec<u8>, field: u32, bytes: &[u8]) -> (res: Result<(), KCPError>)
    requires
        1 <= field <= FIELD_NUMBER_MAX,
        bytes@.len() <= u32::MAX,
    ensures
        res is Ok,
        final(out)@ == old(out)@ + opt_bytes_field(field, bytes@),
{
    if bytes.len() != 0 {
        match pb_write_bytes(out, field, bytes) {
            Ok(_) => Ok(()),
            Err(_) => Err(KCPError::Protobuf),
        }
    } else {
        assert(out@ + Seq::<u8>::empty() =~= out@);
        Ok(())
    }
}

/// Appends a string field to `out`, unless the string is empty.
fn write_opt_string(out: &mut Vec<u8>, field: u32, s: &str) -> (res: Result<(), KCPError>)
    requires
        1 <= field <= FIELD_NUMBER_MAX,
        encode_utf8(s@).len() <= u32::MAX,
    ensures
        res is Ok,
        final(out)@ == old(out)@ + opt_string_field(field, s@),
{
    if !s.is_empty() {
        match pb_write_bytes(out, field, s.as_bytes()) {
            Ok(_) => Ok(()),
            Err(_) => Err(KCPError::Protobuf),
        }
    } else {
        assert(out@ + Seq::<u8>::empty() =~= out@);
        Ok(())
    }
}

/// Asks to join a room.
#[derive(Clone, Debug, PartialEq, Eq)]
pub struct NetConnect {
    pub room_id: String,
    pub player_id: String,
    pub password: String,
}

/// A [`NetConnect`] as a mathematical value.
pub ghost struct NetConnectView {
    pub room_id: Seq<char>,
    pub player_id: Seq<char>,
    pub password: Seq<char>,
}

impl View for NetConnect {
    type V = NetConnectView;

    open spec fn view(&self) -> NetConnectView {
        NetConnectView {
            room_id: self.room_id@,
            player_id: self.player_id@,
            password: self.password@,
        }
    }
}

impl NetConnectView {
    /// The payload of the message: its fields in the order of their numbers.
    pub open spec fn payload(self) -> Seq<u8> {
        opt_string_field(1, self.room_id) + opt_string_field(2, self.player_id) + opt_string_field(
            3,
            self.password,
        )
    }

    /// No string is longer than a length prefix can say.
    pub open spec fn fits(self) -> bool {
        &&& encode_utf8(self.room_id).len() <= u32::MAX
        &&& encode_utf8(self.player_id).len() <= u32::MAX
        &&& encode_utf8(self.password).len() <= u32::MAX
    }

    /// The message that a payload holds, if it holds one: every field by its

    /// last occurrence, what is absent by its default, fields of other numbers

    /// passed over.

    pub open spec fn parse(payload: Seq<u8>) -> Option<NetConnectView> {
        match scan_fields(payload) {
            Some(fields) => match (
                last_string(fields, 1),
                last_string(fields, 2),
                last_string(fields, 3),
            ) {
                (Some(room_id), Some(player_id), Some(password)) => Some(
                    NetConnectView { room_id, player_id, password },
                ),
                _ => None,
            },
            None => None,
        }
    }
}

impl Default for NetConnect {
    fn default() -> (res: NetConnect)
        ensures
            res@ == (NetConnectView {
                room_id: Seq::empty(),
                player_id: Seq::empty(),
                password: Seq::empty(),
            }),
    {
        NetConnect { room_id: String::new(), player_id: String::new(), password: String::new() }
    }
}

impl NetConnect {
    /// Appends the payload to `out`.
    pub fn write_to_vec(&self, out: &mut Vec<u8>) -> (res: Result<(), KCPError>)
        requires
            self@.fits(),
        ensures
            res is Ok,
            final(out)@ == old(out)@ + self@.payload(),
    {
        let ghost start = out@;
        write_opt_string(out, 1, self.room_id.as_str())?;
        write_opt_string(out, 2, self.player_id.as_str())?;
        write_opt_string(out, 3, self.password.as_str())?;
        assert(out@ =~= start + self@.payload());
        Ok(())
    }

    /// Reads a payload.
    pub fn parse_from_bytes(payload: &[u8]) -> (res: Result<NetConnect, KCPError>)
        ensures
            res is Ok <==> NetConnectView::parse(payload@) is Some,
            res matches Ok(msg) ==> NetConnectView::parse(payload@) == Some(msg@),
            res matches Err(e) ==> e == KCPError::Protobuf,
    {
        let fields = scan(payload)?;
        match (find_string(&fields, 1), find_string(&fields, 2), find_string(&fields, 3)) {
            (Some(room_id), Some(player_id), Some(password)) => Ok(
                NetConnect { room_id, player_id, password },
            ),
            _ => Err(KCPError::Protobuf),
        }
    }
}

/// The server's answer to a connect.
#[derive(Clone, Copy, Debug, PartialEq, Eq, Structural)]
pub struct NetAccept {}

impl NetAccept {
    /// The payload of the message: its fields in the order of their numbers.
    pub open spec fn payload(self) -> Seq<u8> {
        Seq::empty()
    }

    /// The message that a payload holds, if it holds one: every field by its

    /// last occurrence, what is absent by its default, fields of other numbers

    /// passed over.

    pub open spec fn parse(payload: Seq<u8>) -> Option<NetAccept> {
        match scan_fields(payload) {
            Some(_) => Some(NetAccept {  }),
            None => None,
        }
    }

    /// Appends the payload, which is empty, to `out`.
    pub fn write_to_vec(&self, out: &mut Vec<u8>) -> (res: Result<(), KCPError>)
        ensures
            res is Ok,
            final(out)@ == old(out)@ + self.payload(),
    {
        assert(out@ + Seq::<u8>::empty() =~= out@);
        Ok(())
    }

    /// Reads a payload.
    pub fn parse_from_bytes(payload: &[u8]) -> (res: Result<NetAccept, KCPError>)
        ensures
            res is Ok <==> Self::parse(payload@) is Some,
            res matches Ok(msg) ==> Self::parse(payload@) == Some(msg),
            res matches Err(e) ==> e == KCPError::Protobuf,
    {
        let _ = scan(payload)?;
        Ok(NetAccept {  })
    }
}

impl Default for NetAccept {
    fn default() -> (res: NetAccept)
        ensures
            res == (NetAccept {  }),
    {
        NetAccept {  }
    }
}

/// Tells the state of one player.
#[derive(Clone, Copy, Debug, PartialEq, Eq, Structural)]
pub struct NetState {
    pub conv: u32,
    pub state: NetPlayerState,
}

impl NetState {
    /// The payload of the message: its fields in the order of their numbers.
    pub open spec fn payload(self) -> Seq<u8> {
        opt_uint32_field(1, self.conv) + opt_uint32_field(2, self.state.spec_value())
    }

    /// The message that a payload holds, if it holds one: every field by its

    /// last occurrence, what is absent by its default, fields of other numbers

    /// passed over.

    pub open spec fn parse(payload: Seq<u8>) -> Option<NetState> {
        match scan_fields(payload) {
            Some(fields) => match (last_uint32(fields, 1, u32::MAX), last_uint32(fields, 2, 3)) {
                (Some(conv), Some(state)) => Some(
                    NetState { conv, state: NetPlayerState::spec_from_value(state) },
                ),
                _ => None,
            },
            None => None,
        }
    }

    /// Appends the payload to `out`.
    pub fn write_to_vec(&self, out: &mut Vec<u8>) -> (res: Result<(), KCPError>)
        ensures
            res is Ok,
            final(out)@ == old(out)@ + self.payload(),
    {
        let ghost start = out@;
        write_opt_uint32(out, 1, self.conv)?;
        write_opt_uint32(out, 2, self.state.value())?;
        assert(out@ =~= start + self.payload());
        Ok(())
    }

    /// Reads a payload.
    pub fn parse_from_bytes(payload: &[u8]) -> (res: Result<NetState, KCPError>)
        ensures
            res is Ok <==> Self::parse(payload@) is Some,
            res matches Ok(msg) ==> Self::parse(payload@) == Some(msg),
            res matches Err(e) ==> e == KCPError::Protobuf,
    {
        let fields = scan(payload)?;
        match (find_uint32(&fields, 1, u32::MAX), find_uint32(&fields, 2, 3)) {
            (Some(conv), Some(state)) => Ok(
                NetState { conv, state: NetPlayerState::from_value(state) },
            ),
            _ => Err(KCPError::Protobuf),
        }
    }
}

impl Default for NetState {
    fn default() -> (res: NetState)
        ensures
            res == (NetState { conv: 0, state: NetPlayerState::Initing }),
    {
        NetState { conv: 0, state: NetPlayerState::Initing }
    }
}

/// The server's signal that the game begins.
#[derive(Clone, Copy, Debug, PartialEq, Eq, Structural)]
pub struct NetStart {}

impl NetStart {
    /// The payload of the message: its fields in the order of their numbers.
    pub open spec fn payload(self) -> Seq<u8> {
        Seq::empty()
    }

    /// The message that a payload holds, if it holds one: every field by its

    /// last occurrence, what is absent by its default, fields of other numbers

    /// passed over.

    pub open spec fn parse(payload: Seq<u8>) -> Option<NetStart> {
        match scan_fields(payload) {
            Some(_) => Some(NetStart {  }),
            None => None,
        }
    }

    /// Appends the payload, which is empty, to `out`.
    pub fn write_to_vec(&self, out: &mut Vec<u8>) -> (res: Result<(), KCPError>)
        ensures
            res is Ok,
            final(out)@ == old(out)@ + self.payload(),
    {
        assert(out@ + Seq::<u8>::empty() =~= out@);
        Ok(())
    }

    /// Reads a payload.
    pub fn parse_from_bytes(payload: &[u8]) -> (res: Result<NetStart, KCPError>)
        ensures
            res is Ok <==> Self::parse(payload@) is Some,
            res matches Ok(msg) ==> Self::parse(payload@) == Some(msg),
            res matches Err(e) ==> e == KCPError::Protobuf,
    {
        let _ = scan(payload)?;
        Ok(NetStart {  })
    }
}

impl Default for NetStart {
    fn default() -> (res: NetStart)
        ensures
            res == (NetStart {  }),
    {
        NetStart {  }
    }
}

/// Ends the session, with the cause.
#[derive(Clone, Copy, Debug, PartialEq, Eq, Structural)]
pub struct NetFinish {
    pub cause: NetFinishCause,
}

impl NetFinish {
    /// The payload of the message: its fields in the order of their numbers.
    pub open spec fn payload(self) -> Seq<u8> {
        opt_uint32_field(1, self.cause.spec_value())
    }

    /// The message that a payload holds, if it holds one: every field by its

    /// last occurrence, what is absent by its default, fields of other numbers

    /// passed over.

    pub open spec fn parse(payload: Seq<u8>) -> Option<NetFinish> {
        match scan_fields(payload) {
            Some(fields) => match last_uint32(fields, 1, FINISH_CAUSE_MAX) {
                Some(cause) => Some(NetFinish { cause: NetFinishCause::spec_from_value(cause) }),
                None => None,
            },
            None => None,
        }
    }

    /// Appends the payload to `out`.
    pub fn write_to_vec(&self, out: &mut Vec<u8>) -> (res: Result<(), KCPError>)
        ensures
            res is Ok,
            final(out)@ == old(out)@ + self.payload(),
    {
        write_opt_uint32(out, 1, self.cause.value())
    }

    /// Reads a payload.
    pub fn parse_from_bytes(payload: &[u8]) -> (res: Result<NetFinish, KCPError>)
        ensures
            res is Ok <==> Self::parse(payload@) is Some,
            res matches Ok(msg) ==> Self::parse(payload@) == Some(msg),
            res matches Err(e) ==> e == KCPError::Protobuf,
    {
        let fields = scan(payload)?;
        match find_uint32(&fields, 1, FINISH_CAUSE_MAX) {
            Some(cause) => Ok(NetFinish { cause: NetFinishCause::from_value(cause) }),
            None => Err(KCPError::Protobuf),
        }
    }
}

impl Default for NetFinish {
    fn default() -> (res: NetFinish)
        ensures
            res == (NetFinish { cause: NetFinishCause::NetworkBroken }),
    {
        NetFinish { cause: NetFinishCause::NetworkBroken }
    }
}

/// Heads the commands of one player for one frame.
#[derive(Clone, Copy, Debug, PartialEq, Eq, Structural)]
pub struct NetCommand {
    pub conv: u32,
    pub frame: u32,
}

impl NetCommand {
    /// The payload of the message: its fields in the order of their numbers.
    pub open spec fn payload(self) -> Seq<u8> {
        opt_uint32_field(1, self.conv) + opt_uint32_field(2, self.frame)
    }

    /// The message that a payload holds, if it holds one: every field by its

    /// last occurrence, what is absent by its default, fields of other numbers

    /// passed over.

    pub open spec fn parse(payload: Seq<u8>) -> Option<NetCommand> {
        match scan_fields(payload) {
            Some(fields) => match (
                last_uint32(fields, 1, u32::MAX),
                last_uint32(fields, 2, u32::MAX),
            ) {
                (Some(conv), Some(frame)) => Some(NetCommand { conv, frame }),
                _ => None,
            },
            None => None,
        }
    }

    /// Appends the payload to `out`.
    pub fn write_to_vec(&self, out: &mut Vec<u8>) -> (res: Result<(), KCPError>)
        ensures
            res is Ok,
            final(out)@ == old(out)@ + self.payload(),
    {
        let ghost start = out@;
        write_opt_uint32(out, 1, self.conv)?;
        write_opt_uint32(out, 2, self.frame)?;
        assert(out@ =~= start + self.payload());
        Ok(())
    }

    /// Reads a payload.
    pub fn parse_from_bytes(payload: &[u8]) -> (res: Result<NetCommand, KCPError>)
        ensures
            res is Ok <==> Self::parse(payload@) is Some,
            res matches Ok(msg) ==> Self::parse(payload@) == Some(msg),
            res matches Err(e) ==> e == KCPError::Protobuf,
    {
        let fields = scan(payload)?;
        match (find_uint32(&fields, 1, u32::MAX), find_uint32(&fields, 2, u32::MAX)) {
            (Some(conv), Some(frame)) => Ok(NetCommand { conv, frame }),
            _ => Err(KCPError::Protobuf),
        }
    }
}

impl Default for NetCommand {
    fn default() -> (res: NetCommand)
        ensures
            res == (NetCommand { conv: 0, frame: 0 }),
    {
        NetCommand { conv: 0, frame: 0 }
    }
}

/// The digest of the local game state at one frame.
#[derive(Clone, Debug, PartialEq, Eq)]
pub struct NetHash {
    pub frame: u32,
    pub hash: Vec<u8>,
}

/// A [`NetHash`] as a mathematical value.
pub ghost struct NetHashView {
    pub frame: u32,
    pub hash: Seq<u8>,
}

impl View for NetHash {
    type V = NetHashView;

    open spec fn view(&self) -> NetHashView {
        NetHashView { frame: self.frame, hash: self.hash@ }
    }
}

impl NetHashView {
    /// The payload of the message: its fields in the order of their numbers.
    pub open spec fn payload(self) -> Seq<u8> {
        opt_uint32_field(1, self.frame) + opt_bytes_field(2, self.hash)
    }

    /// The digest is no longer than a length prefix can say.
    pub open spec fn fits(self) -> bool {
        self.hash.len() <= u32::MAX
    }

    /// The message that a payload holds, if it holds one: every field by its

    /// last occurrence, what is absent by its default, fields of other numbers

    /// passed over.

    pub open spec fn parse(payload: Seq<u8>) -> Option<NetHashView> {
        match scan_fields(payload) {
            Some(fields) => match (last_uint32(fields, 1, u32::MAX), last_bytes(fields, 2)) {
                (Some(frame), Some(hash)) => Some(NetHashView { frame, hash }),
                _ => None,
            },
            None => None,
        }
    }
}

impl NetHash {
    /// Length of the payload.
    pub fn compute_size(&self) -> (res: u32)
        requires
            self@.payload().len() <= u32::MAX,
        ensures
            res == self@.payload().len(),
    {
        let mut payload: Vec<u8> = Vec::new();
        let _ = self.write_to_vec(&mut payload);
        assert(payload@ =~= self@.payload());
        payload.len() as u32
    }

    /// Appends the payload to `out`.
    pub fn write_to_vec(&self, out: &mut Vec<u8>) -> (res: Result<(), KCPError>)
        requires
            self@.fits(),
        ensures
            res is Ok,
            final(out)@ == old(out)@ + self@.payload(),
    {
        let ghost start = out@;
        write_opt_uint32(out, 1, self.frame)?;
        write_opt_bytes(out, 2, self.hash.as_slice())?;
        assert(out@ =~= start + self@.payload());
        Ok(())
    }

    /// Reads a payload.
    pub fn parse_from_bytes(payload: &[u8]) -> (res: Result<NetHash, KCPError>)
        ensures
            res is Ok <==> NetHashView::parse(payload@) is Some,
            res matches Ok(msg) ==> NetHashView::parse(payload@) == Some(msg@),
            res matches Err(e) ==> e == KCPError::Protobuf,
    {
        let fields = scan(payload)?;
        match (find_uint32(&fields, 1, u32::MAX), find_bytes(&fields, 2)) {
            (Some(frame), Some(hash)) => Ok(NetHash { frame, hash }),
            _ => Err(KCPError::Protobuf),
        }
    }
}

impl Default for NetHash {
    fn default() -> (res: NetHash)
        ensures
            res@ == (NetHashView { frame: 0, hash: Seq::empty() }),
    {
        NetHash { frame: 0, hash: Vec::new() }
    }
}

/// Fields with the number 1, fields with the number 2 and fields with the
/// number 3 do not hold each other's numbers.
proof fn lemma_tokens_apart(
    first: Seq<FieldView>,
    second: Seq<FieldView>,
    third: Seq<FieldView>,
)
    requires
        forall|i: int| 0 <= i < first.len() ==> (#[trigger] first[i]).number == 1,
        forall|i: int| 0 <= i < second.len() ==> (#[trigger] second[i]).number == 2,
        forall|i: int| 0 <= i < third.len() ==> (#[trigger] third[i]).number == 3,
    ensures
        no_field(Seq::empty(), 1),
        no_field(second + third, 1),
        no_field(first, 2),
        no_field(third, 2),
        no_field(first + second, 3),
        no_field(Seq::empty(), 3),
{
}

impl NetConnectView {
    /// A connect is read back from its payload.
    pub proof fn lemma_parse_payload(self)
        requires
            self.fits(),
        ensures
            Self::parse(self.payload()) == Some(self),
    {
        let none = Seq::<u8>::empty();
        let first = string_tokens(1, self.room_id);
        let second = string_tokens(2, self.player_id);
        let third = string_tokens(3, self.password);
        let tail = opt_string_field(2, self.player_id) + opt_string_field(3, self.password);
        lemma_scan_string(3, self.password, none);
        assert(opt_string_field(3, self.password) + none =~= opt_string_field(3, self.password));
        lemma_scan_string(2, self.player_id, opt_string_field(3, self.password));
        lemma_scan_string(1, self.room_id, tail);
        assert(self.payload() =~= opt_string_field(1, self.room_id) + tail);
        let fields = first + second + third;
        assert(first + (second + (third + Seq::<FieldView>::empty())) =~= fields);
        assert(scan_fields(self.payload()) == Some(fields));
        lemma_tokens_apart(first, second, third);
        lemma_find_string(Seq::empty(), 1, self.room_id, second + third);
        assert(Seq::<FieldView>::empty() + first + (second + third) =~= fields);
        lemma_find_string(first, 2, self.player_id, third);
        lemma_find_string(first + second, 3, self.password, Seq::empty());
        assert(first + second + third + Seq::<FieldView>::empty() =~= fields);
    }
}

impl NetState {
    /// A state message is read back from its payload.
    pub proof fn lemma_parse_payload(self)
        ensures
            Self::parse(self.payload()) == Some(self),
    {
        let none = Seq::<u8>::empty();
        let first = uint32_tokens(1, self.conv);
        let second = uint32_tokens(2, self.state.spec_value());
        let third = Seq::<FieldView>::empty();
        let tail = opt_uint32_field(2, self.state.spec_value());
        lemma_scan_uint32(2, self.state.spec_value(), none);
        assert(tail + none =~= tail);
        lemma_scan_uint32(1, self.conv, tail);
        let fields = first + second;
        assert(first + (second + Seq::<FieldView>::empty()) =~= fields);
        assert(scan_fields(self.payload()) == Some(fields));
        lemma_tokens_apart(first, second, third);
        assert(second + third =~= second);
        lemma_find_uint32(Seq::empty(), 1, self.conv, u32::MAX, second);
        assert(Seq::<FieldView>::empty() + first + second =~= fields);
        lemma_find_uint32(first, 2, self.state.spec_value(), 3, third);
        assert(first + second + third =~= fields);
    }
}

impl NetFinish {
    /// A finish is read back from its payload with the cause that its cause
    /// is read as, which for a well-formed cause is the cause itself.
    pub proof fn lemma_parse_payload(self)
        ensures
            Self::parse(self.payload()) == Some(NetFinish { cause: self.cause.read_back() }),
            self.cause.wf() ==> self.cause.read_back() == self.cause,
    {
        let none = Seq::<u8>::empty();
        let first = uint32_tokens(1, self.cause.spec_value());
        let empty = Seq::<FieldView>::empty();
        lemma_scan_uint32(1, self.cause.spec_value(), none);
        assert(self.payload() + none =~= self.payload());
        assert(first + empty =~= first);
        assert(scan_fields(self.payload()) == Some(first));
        lemma_tokens_apart(first, empty, empty);
        assert(empty + empty =~= empty);
        if self.cause.spec_value() <= FINISH_CAUSE_MAX {
            lemma_find_uint32(empty, 1, self.cause.spec_value(), FINISH_CAUSE_MAX, empty);
        } else {
            lemma_find_uint32_over(empty, 1, self.cause.spec_value(), FINISH_CAUSE_MAX, empty);
        }
        assert(empty + first + empty =~= first);
    }
}

impl NetCommand {
    /// A command header is read back from its payload.
    pub proof fn lemma_parse_payload(self)
        ensures
            Self::parse(self.payload()) == Some(self),
    {
        let none = Seq::<u8>::empty();
        let first = uint32_tokens(1, self.conv);
        let second = uint32_tokens(2, self.frame);
        let third = Seq::<FieldView>::empty();
        let tail = opt_uint32_field(2, self.frame);
        lemma_scan_uint32(2, self.frame, none);
        assert(tail + none =~= tail);
        lemma_scan_uint32(1, self.conv, tail);
        let fields = first + second;
        assert(first + (second + Seq::<FieldView>::empty()) =~= fields);
        assert(scan_fields(self.payload()) == Some(fields));
        lemma_tokens_apart(first, second, third);
        assert(second + third =~= second);
        lemma_find_uint32(Seq::empty(), 1, self.conv, u32::MAX, second);
        assert(Seq::<FieldView>::empty() + first + second =~= fields);
        lemma_find_uint32(first, 2, self.frame, u32::MAX, third);
        assert(first + second + third =~= fields);
    }
}

impl NetHashView {
    /// A hash message is read back from its payload.
    pub proof fn lemma_parse_payload(self)
        requires
            self.fits(),
        ensures
            Self::parse(self.payload()) == Some(self),
    {
        let none = Seq::<u8>::empty();
        let first = uint32_tokens(1, self.frame);
        let second = bytes_tokens(2, self.hash);
        let third = Seq::<FieldView>::empty();
        let tail = opt_bytes_field(2, self.hash);
        lemma_scan_bytes(2, self.hash, none);
        assert(tail + none =~= tail);
        lemma_scan_uint32(1, self.frame, tail);
        let fields = first + second;
        assert(first + (second + Seq::<FieldView>::empty()) =~= fields);
        assert(scan_fields(self.payload()) == Some(fields));
        lemma_tokens_apart(first, second, third);
        assert(second + third =~= second);
        lemma_find_uint32(Seq::empty(), 1, self.frame, u32::MAX, second);
        assert(Seq::<FieldView>::empty() + first + second =~= fields);
        lemma_find_bytes(first, 2, self.hash, third);
        assert(first + second + third =~= fields);
    }
}

} // verus!
