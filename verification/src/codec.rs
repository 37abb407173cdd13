//! The frame codec: a tag byte, a two-byte big-endian payload length, and
//! the payload.

pub use crate::command::{
    Command, CommandDecoder, CommandEncoder, CommandEncoderView, CommandEx,
};

use crate::base::{KCPError, KCP_MAX_PACKET, KCP_MIN_PACKET};
use crate::message::{
    NetAccept, NetCommand, NetConnect, NetConnectView, NetFinish, NetHash, NetHashView, NetStart,
    NetState, NetType,
};
use crate::wire::{be_read_u16, be_write_u16};
use vstd::prelude::*;
use vstd::slice::slice_subrange;
use vstd::string::StringSliceAdditionalSpecFns;
use vstd::utf8::encode_utf8;

verus! {

/// A message, as one frame carries it.
#[derive(Debug, Clone, PartialEq)]
pub enum NetMessage {
    Connect(NetConnect),
    Accept(NetAccept),
    State(NetState),
    Start(NetStart),
    Finish(NetFinish),
    Command(NetCommand),
    Hash(NetHash),
}

/// A [`NetMessage`] as a mathematical value.
pub ghost enum NetMessageView {
    Connect(NetConnectView),
    Accept(NetAccept),
    State(NetState),
    Start(NetStart),
    Finish(NetFinish),
    Command(NetCommand),
    Hash(NetHashView),
}

impl View for NetMessage {
    type V = NetMessageView;

    open spec fn view(&self) -> NetMessageView {
        match *self {
            NetMessage::Connect(m) => NetMessageView::Connect(m@),
            NetMessage::Accept(m) => NetMessageView::Accept(m),
            NetMessage::State(m) => NetMessageView::State(m),
            NetMessage::Start(m) => NetMessageView::Start(m),
            NetMessage::Finish(m) => NetMessageView::Finish(m),
            NetMessage::Command(m) => NetMessageView::Command(m),
            NetMessage::Hash(m) => NetMessageView::Hash(m@),
        }
    }
}

impl NetMessageView {
    /// The kind of frame that carries this message.
    pub open spec fn net_type(self) -> NetType {
        match self {
            NetMessageView::Connect(_) => NetType::Connect,
            NetMessageView::Accept(_) => NetType::Accept,
            NetMessageView::State(_) => NetType::State,
            NetMessageView::Start(_) => NetType::Start,
            NetMessageView::Finish(_) => NetType::Finish,
            NetMessageView::Command(_) => NetType::Command,
            NetMessageView::Hash(_) => NetType::Hash,
        }
    }

    /// The payload of the message.
    pub open spec fn payload(self) -> Seq<u8> {
        match self {
            NetMessageView::Connect(m) => m.payload(),
            NetMessageView::Accept(m) => m.payload(),
            NetMessageView::State(m) => m.payload(),
            NetMessageView::Start(m) => m.payload(),
            NetMessageView::Finish(m) => m.payload(),
            NetMessageView::Command(m) => m.payload(),
            NetMessageView::Hash(m) => m.payload(),
        }
    }

    /// The whole frame: tag, payload length with the high byte first, and
    /// payload.
    pub open spec fn frame(self) -> Seq<u8> {
        seq![
            self.net_type().spec_value() as u8,
            (self.payload().len() / 256) as u8,
            (self.payload().len() % 256) as u8,
        ] + self.payload()
    }
}

/// The message of kind `typ` that `payload` holds.
pub open spec fn parse_payload(typ: NetType, payload: Seq<u8>) -> Option<NetMessageView> {
    match typ {
        NetType::Unknown => None,
        NetType::Connect => match NetConnectView::parse(payload) {
            Some(m) => Some(NetMessageView::Connect(m)),
            None => None,
        },
        NetType::Accept => match NetAccept::parse(payload) {
            Some(m) => Some(NetMessageView::Accept(m)),
            None => None,
        },
        NetType::State => match NetState::parse(payload) {
            Some(m) => Some(NetMessageView::State(m)),
            None => None,
        },
        NetType::Start => match NetStart::parse(payload) {
            Some(m) => Some(NetMessageView::Start(m)),
            None => None,
        },
        NetType::Finish => match NetFinish::parse(payload) {
            Some(m) => Some(NetMessageView::Finish(m)),
            None => None,
        },
        NetType::Command => match NetCommand::parse(payload) {
            Some(m) => Some(NetMessageView::Command(m)),
            None => None,
        },
        NetType::Hash => match NetHashView::parse(payload) {
            Some(m) => Some(NetMessageView::Hash(m)),
            None => None,
        },
    }
}

/// The kind of frame a tag byte announces; `Unknown` for a byte that
/// announces none.
pub open spec fn frame_type(tag: u8) -> NetType {
    match NetType::spec_from_i32(tag as i32) {
        Some(typ) => typ,
        None => NetType::Unknown,
    }
}

/// Payload length that the header of `bytes` states.
pub open spec fn frame_payload_len(bytes: Seq<u8>) -> nat {
    (bytes[1] * 256 + bytes[2]) as nat
}

/// What decoding `bytes` gives: the message at their head and the length of
/// its frame, or the reason there is none.
pub open spec fn decode_frame(bytes: Seq<u8>) -> Result<(NetMessageView, nat), KCPError> {
    if bytes.len() < KCP_MIN_PACKET {
        Err(KCPError::PacketTooShort)
    } else if bytes.len() > KCP_MAX_PACKET {
        Err(KCPError::PacketTooLong)
    } else if KCP_MIN_PACKET + frame_payload_len(bytes) > bytes.len() {
        Err(KCPError::PacketBroken)
    } else if frame_type(bytes[0]) == NetType::Unknown {
        Err(KCPError::PacketBroken)
    } else {
        let end = (KCP_MIN_PACKET + frame_payload_len(bytes)) as nat;
        match parse_payload(frame_type(bytes[0]), bytes.subrange(KCP_MIN_PACKET as int, end as int)) {
            Some(msg) => Ok((msg, end)),
            None => Err(KCPError::Protobuf),
        }
    }
}

impl NetMessage {
    /// Decodes the frame at the head of `bytes`. Returns the message and the
    /// length of its frame; what follows the frame in `bytes` is left to the
    /// caller.
    pub fn decode(bytes: &[u8]) -> (res: Result<(NetMessage, usize), KCPError>)
        ensures
            match decode_frame(bytes@) {
                Ok((msg, len)) => res matches Ok((m, n)) && m@ == msg && n == len,
                Err(err) => res matches Err(e) && e == err,
            },
            bytes@.len() < KCP_MIN_PACKET ==> (res matches Err(e) && e == KCPError::PacketTooShort),
            bytes@.len() > KCP_MAX_PACKET ==> (res matches Err(e) && e == KCPError::PacketTooLong),
            KCP_MIN_PACKET <= bytes@.len() <= KCP_MAX_PACKET && KCP_MIN_PACKET + frame_payload_len(
                bytes@,
            ) > bytes@.len() ==> (res matches Err(e) && e == KCPError::PacketBroken),
    {
        if bytes.len() < KCP_MIN_PACKET {
            return Err(KCPError::PacketTooShort);
        }
        if bytes.len() > KCP_MAX_PACKET {
            return Err(KCPError::PacketTooLong);
        }
        let header = slice_subrange(bytes, 1, bytes.len());
        let msg_size: usize = be_read_u16(header) as usize;
        let offset: usize = KCP_MIN_PACKET + msg_size;
        if offset > bytes.len() {
            return Err(KCPError::PacketBroken);
        }
        let typ = match NetType::from_i32(bytes[0] as i32) {
            Some(typ) => typ,
            None => NetType::Unknown,
        };
        let pb_bytes = slice_subrange(bytes, KCP_MIN_PACKET, offset);
        let msg = match typ {
            NetType::Connect => NetMessage::Connect(NetConnect::parse_from_bytes(pb_bytes)?),
            NetType::Accept => NetMessage::Accept(NetAccept::parse_from_bytes(pb_bytes)?),
            NetType::State => NetMessage::State(NetState::parse_from_bytes(pb_bytes)?),
            NetType::Start => NetMessage::Start(NetStart::parse_from_bytes(pb_bytes)?),
            NetType::Finish => NetMessage::Finish(NetFinish::parse_from_bytes(pb_bytes)?),
            NetType::Command => NetMessage::Command(NetCommand::parse_from_bytes(pb_bytes)?),
            NetType::Hash => NetMessage::Hash(NetHash::parse_from_bytes(pb_bytes)?),
            NetType::Unknown => {
                return Err(KCPError::PacketBroken);
            },
        };
        Ok((msg, offset))
    }
    /// Whether no field of the message is longer than `limit` bytes.
    fn fields_within(&self, limit: usize) -> (res: bool)
        ensures
            res == match self@ {
                NetMessageView::Connect(m) => {
                    &&& encode_utf8(m.room_id).len() <= limit
                    &&& encode_utf8(m.player_id).len() <= limit
                    &&& encode_utf8(m.password).len() <= limit
                },
                NetMessageView::Hash(m) => m.hash.len() <= limit,
                _ => true,
            },
    {
        match self {
            NetMessage::Connect(m) => m.room_id.as_str().as_bytes().len() <= limit
                && m.player_id.as_str().as_bytes().len() <= limit
                && m.password.as_str().as_bytes().len() <= limit,
            NetMessage::Hash(m) => m.hash.len() <= limit,
            _ => true,
        }
    }

    /// Appends the frame of this message to `bytes` and returns its length.
    /// A frame longer than [`KCP_MAX_PACKET`] is not written: `bytes` is left
    /// as it was.
    ///
    /// The frame that is written decodes to the message, with one exception:
    /// a finish whose cause is server-defined with a number below 4 or above
    /// `FINISH_CAUSE_MAX` is written with that number and decodes to the
    /// cause that the number is read as.
    #[verifier::rlimit(30)]
    pub fn encode(&self, bytes: &mut Vec<u8>) -> (res: Result<usize, KCPError>)
        ensures
            res is Err <==> self@.frame().len() > KCP_MAX_PACKET,
            res matches Ok(n) ==> n == self@.frame().len() && final(bytes)@ == old(bytes)@
                + self@.frame(),
            res matches Ok(n) ==> decode_frame(self@.frame()) == Ok::<
                (NetMessageView, nat),
                KCPError,
            >((self@.read_back(), n as nat)),
            res is Ok && self@.wf() ==> self@.read_back() == self@,
            res matches Err(e) ==> e == KCPError::MessageTooLong && final(bytes)@ == old(bytes)@,
    {
        if !self.fields_within(KCP_MAX_PACKET) {
            return Err(KCPError::MessageTooLong);
        }
        let base = bytes.len();
        let tag: u8 = match self {
            NetMessage::Connect(_) => 1,
            NetMessage::Accept(_) => 2,
            NetMessage::State(_) => 3,
            NetMessage::Start(_) => 4,
            NetMessage::Finish(_) => 5,
            NetMessage::Command(_) => 6,
            NetMessage::Hash(_) => 7,
        };
        bytes.push(tag);
        bytes.push(0);
        bytes.push(0);
        let written = match self {
            NetMessage::Connect(msg) => msg.write_to_vec(bytes),
            NetMessage::Accept(msg) => msg.write_to_vec(bytes),
            NetMessage::State(msg) => msg.write_to_vec(bytes),
            NetMessage::Start(msg) => msg.write_to_vec(bytes),
            NetMessage::Finish(msg) => msg.write_to_vec(bytes),
            NetMessage::Command(msg) => msg.write_to_vec(bytes),
            NetMessage::Hash(msg) => msg.write_to_vec(bytes),
        };
        if let Err(err) = written {
            bytes.truncate(base);
            return Err(err);
        }
        assert(bytes@ == old(bytes)@.push(tag).push(0).push(0) + self@.payload());
        let offset = bytes.len() - base;
        if offset > KCP_MAX_PACKET {
            bytes.truncate(base);
            assert(bytes@ =~= old(bytes)@);
            return Err(KCPError::MessageTooLong);
        }
        let msg_size = offset - KCP_MIN_PACKET;
        be_write_u16(bytes, base + 1, msg_size as u16);
        assert(bytes@ =~= old(bytes)@ + self@.frame());
        proof {
            self@.lemma_decode_encode_any();
        }
        Ok(offset)
    }
}

impl NetMessageView {
    /// A finish carries a well-formed cause. Every other message is well
    /// formed as it is.
    pub open spec fn wf(self) -> bool {
        self matches NetMessageView::Finish(finish) ==> finish.cause.wf()
    }

    /// The message that is read where this message was written. A
    /// well-formed message is read as itself; a finish is read with the cause
    /// that its cause is read as.
    pub open spec fn read_back(self) -> NetMessageView {
        match self {
            NetMessageView::Finish(finish) => NetMessageView::Finish(
                NetFinish { cause: finish.cause.read_back() },
            ),
            _ => self,
        }
    }

    /// A message is read back from its payload.
    pub proof fn lemma_parse_payload(self)
        requires
            self.payload().len() <= u32::MAX,
        ensures
            parse_payload(self.net_type(), self.payload()) == Some(self.read_back()),
            self.wf() ==> self.read_back() == self,
    {
        match self {
            NetMessageView::Connect(m) => {
                m.lemma_parse_payload();
            },
            NetMessageView::Accept(m) => {},
            NetMessageView::State(m) => {
                m.lemma_parse_payload();
            },
            NetMessageView::Start(m) => {},
            NetMessageView::Finish(m) => {
                m.lemma_parse_payload();
            },
            NetMessageView::Command(m) => {
                m.lemma_parse_payload();
            },
            NetMessageView::Hash(m) => {
                m.lemma_parse_payload();
            },
        }
    }

    /// Decoding the frame of a message gives what the message is read as,
    /// which for a well-formed message is the message itself, with the length
    /// of the frame, whatever follows the frame, as long as the bytes are no
    /// more than [`KCP_MAX_PACKET`].
    pub proof fn lemma_decode_frame(self, rest: Seq<u8>)
        requires
            self.frame().len() + rest.len() <= KCP_MAX_PACKET,
        ensures
            decode_frame(self.frame() + rest) == Ok::<(NetMessageView, nat), KCPError>(
                (self.read_back(), self.frame().len()),
            ),
            self.wf() ==> self.read_back() == self,
    {
        let bytes = self.frame() + rest;
        let size = self.payload().len();
        self.lemma_parse_payload();
        assert(bytes[0] == self.net_type().spec_value() as u8);
        assert(bytes[1] == (size / 256) as u8);
        assert(bytes[2] == (size % 256) as u8);
        assert(frame_payload_len(bytes) == size);
        assert(bytes.subrange(KCP_MIN_PACKET as int, (KCP_MIN_PACKET + size) as int)
            =~= self.payload());
    }

    /// Decoding the frame of a message that is no longer than
    /// [`KCP_MAX_PACKET`] gives what the message is read as, and the length
    /// of the frame.
    pub proof fn lemma_decode_encode_any(self)
        requires
            self.frame().len() <= KCP_MAX_PACKET,
        ensures
            decode_frame(self.frame()) == Ok::<(NetMessageView, nat), KCPError>(
                (self.read_back(), self.frame().len()),
            ),
            self.wf() ==> self.read_back() == self,
    {
        self.lemma_decode_frame(Seq::empty());
        assert(self.frame() + Seq::<u8>::empty() =~= self.frame());
    }

    /// Decoding what encoding wrote gives the message back: for every
    /// well-formed message whose frame is no longer than [`KCP_MAX_PACKET`],
    /// the frame decodes to the message and the length of the frame.
    pub proof fn lemma_decode_encode(self)
        requires
            self.wf(),
            self.frame().len() <= KCP_MAX_PACKET,
        ensures
            KCP_MIN_PACKET <= self.frame().len(),
            decode_frame(self.frame()) == Ok::<(NetMessageView, nat), KCPError>(
                (self, self.frame().len()),
            ),
    {
        self.lemma_decode_frame(Seq::empty());
        assert(self.frame() + Seq::<u8>::empty() =~= self.frame());
    }
}

} // verus!
