//! Protocol constants and the error taxonomy.

use crate::message::NetFinishCause;
use vstd::prelude::*;
use vstd::string::{to_string_from_display_ensures, StringExecFns};

verus! {

/// Tick granularity of the worker loop, in milliseconds.
pub const KCP_INTERVAL: u64 = 10;

/// Largest datagram handed to the socket.
pub const KCP_MTU: usize = 470;

/// Length of the frame header: one tag byte and a two-byte payload length.
pub const KCP_MIN_PACKET: usize = 3;

/// Largest frame, header included.
pub const KCP_MAX_PACKET: usize = 1880;

/// Send and receive window of the transport, in segments.
pub const KCP_WINDOW_SIZE: usize = 256;

/// How many players a room is laid out for.
pub const PLAYERS_CAP: usize = 16;

/// How many commands of one frame the buffers are laid out for.
pub const COMMANDS_CAP: usize = 256;

/// How many bytes of hash the buffers are laid out for.
pub const HASH_CAP: usize = 128;

/// Seconds allowed between start and the server's accept.
pub const CONNECT_TIMEOUT: u64 = 10;

/// Seconds allowed between start and the server's start signal.
pub const START_TIMEOUT: u64 = 20;

/// Seconds a stopped worker keeps waiting.
pub const UPDATE_TIMEOUT: u64 = 7;

/// Seconds the transport keeps ticking after the session has finished.
pub const FINISH_TIMEOUT: u64 = 5;

/// Everything that can end a session.
#[derive(Clone, Copy, Debug, PartialEq, Eq, Structural)]
pub enum KCPError {
    IO,
    Timeout,
    WindowExhausted,
    PacketBroken,
    PacketTooShort,
    PacketTooLong,
    UnexpectedPacket,
    GameOver,
    RemoteFinished(NetFinishCause),
    Protobuf,
    Bincode,
    KCP(i32),
    Unexpected,
    InvalidFrame,
    MessageTooLong,
}

impl KCPError {
    /// The cause reported for this error.
    pub open spec fn spec_cause(self) -> NetFinishCause {
        match self {
            KCPError::IO | KCPError::Timeout | KCPError::WindowExhausted => NetFinishCause::NetworkBroken,
            KCPError::PacketBroken
            | KCPError::PacketTooShort
            | KCPError::PacketTooLong
            | KCPError::UnexpectedPacket => NetFinishCause::InvalidPacket,
            KCPError::GameOver => NetFinishCause::GameOver,
            KCPError::RemoteFinished(cause) => cause,
            KCPError::Protobuf
            | KCPError::Bincode
            | KCPError::KCP(_)
            | KCPError::Unexpected
            | KCPError::InvalidFrame
            | KCPError::MessageTooLong => NetFinishCause::ClientError,
        }
    }

    /// Maps the error to the cause the game is told.
    pub fn cause(&self) -> (res: NetFinishCause)
        ensures
            res == self.spec_cause(),
    {
        match self {
            KCPError::IO => NetFinishCause::NetworkBroken,
            KCPError::Timeout => NetFinishCause::NetworkBroken,
            KCPError::WindowExhausted => NetFinishCause::NetworkBroken,
            KCPError::PacketBroken => NetFinishCause::InvalidPacket,
            KCPError::PacketTooShort => NetFinishCause::InvalidPacket,
            KCPError::PacketTooLong => NetFinishCause::InvalidPacket,
            KCPError::UnexpectedPacket => NetFinishCause::InvalidPacket,
            KCPError::GameOver => NetFinishCause::GameOver,
            KCPError::RemoteFinished(cause) => *cause,
            KCPError::Protobuf => NetFinishCause::ClientError,
            KCPError::Bincode => NetFinishCause::ClientError,
            KCPError::KCP(_) => NetFinishCause::ClientError,
            KCPError::Unexpected => NetFinishCause::ClientError,
            KCPError::InvalidFrame => NetFinishCause::ClientError,
            KCPError::MessageTooLong => NetFinishCause::ClientError,
        }
    }

    /// The error's message, for every error but `KCP`; for that one, what
    /// stands before the code.
    pub open spec fn spec_message(self) -> Seq<char> {
        match self {
            KCPError::IO => "io error"@,
            KCPError::Timeout => "timeout"@,
            KCPError::WindowExhausted => "window exhausted"@,
            KCPError::PacketBroken => "packet broken"@,
            KCPError::PacketTooShort => "packet too short"@,
            KCPError::PacketTooLong => "packet too long"@,
            KCPError::UnexpectedPacket => "unexpected packet"@,
            KCPError::GameOver => "game over"@,
            KCPError::RemoteFinished(_) => "remote finished"@,
            KCPError::Protobuf => "protobuf error"@,
            KCPError::Bincode => "bincode error"@,
            KCPError::KCP(_) => "kcp error "@,
            KCPError::Unexpected => "unexpected error"@,
            KCPError::InvalidFrame => "invalid frame"@,
            KCPError::MessageTooLong => "message too long"@,
        }
    }

    /// The error's message. That of `KCP` ends with the code, as the code is
    /// displayed.
    pub fn to_string(&self) -> (res: String)
        ensures
            !(self is KCP) ==> res@ == self.spec_message(),
            self matches KCPError::KCP(code) ==> exists|digits: String|
                to_string_from_display_ensures::<i32>(&code, digits) && res@
                    == self.spec_message() + digits@,
    {
        match self {
            KCPError::IO => "io error".to_owned(),
            KCPError::Timeout => "timeout".to_owned(),
            KCPError::WindowExhausted => "window exhausted".to_owned(),
            KCPError::PacketBroken => "packet broken".to_owned(),
            KCPError::PacketTooShort => "packet too short".to_owned(),
            KCPError::PacketTooLong => "packet too long".to_owned(),
            KCPError::UnexpectedPacket => "unexpected packet".to_owned(),
            KCPError::GameOver => "game over".to_owned(),
            KCPError::RemoteFinished(_) => "remote finished".to_owned(),
            KCPError::Protobuf => "protobuf error".to_owned(),
            KCPError::Bincode => "bincode error".to_owned(),
            KCPError::KCP(code) => {
                let digits = code.to_string();
                "kcp error ".to_owned().concat(digits.as_str())
            },
            KCPError::Unexpected => "unexpected error".to_owned(),
            KCPError::InvalidFrame => "invalid frame".to_owned(),
            KCPError::MessageTooLong => "message too long".to_owned(),
        }
    }
}

} // verus!
