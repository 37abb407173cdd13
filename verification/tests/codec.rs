use bincode::config::{DefaultOptions, Options};
use byteorder::{BigEndian, ByteOrder};
use lockstep_client::base::{KCPError, KCP_MAX_PACKET};
use lockstep_client::codec::{Command, CommandDecoder, CommandEncoder, CommandEx, NetMessage};
use lockstep_client::message::{
    NetAccept, NetCommand, NetConnect, NetFinish, NetFinishCause, NetHash, NetPlayerState,
    NetStart, NetState, NetType,
};
use serde::de::{self, Deserialize, Deserializer, EnumAccess, SeqAccess, VariantAccess, Visitor};
use serde::ser::{Serialize, SerializeTupleVariant, Serializer};
use std::fmt;

/// A command as a program with floating-point fields would declare it, with
/// the encoding that serde derives for such an enum written out.
#[derive(Debug, Clone, PartialEq)]
enum WireCommand {
    Aaa(i32, i32),
    Bbb(f32, f32, f32),
}

impl WireCommand {
    fn to_command(&self) -> Command {
        match self {
            WireCommand::Aaa(a, b) => Command::Aaa(*a, *b),
            WireCommand::Bbb(x, y, z) => Command::Bbb(x.to_bits(), y.to_bits(), z.to_bits()),
        }
    }
}

impl Serialize for WireCommand {
    fn serialize<S: Serializer>(&self, serializer: S) -> Result<S::Ok, S::Error> {
        match self {
            WireCommand::Aaa(a, b) => {
                let mut state = serializer.serialize_tuple_variant("Command", 0, "Aaa", 2)?;
                state.serialize_field(a)?;
                state.serialize_field(b)?;
                state.end()
            }
            WireCommand::Bbb(x, y, z) => {
                let mut state = serializer.serialize_tuple_variant("Command", 1, "Bbb", 3)?;
                state.serialize_field(x)?;
                state.serialize_field(y)?;
                state.serialize_field(z)?;
                state.end()
            }
        }
    }
}

struct AaaVisitor;

impl<'de> Visitor<'de> for AaaVisitor {
    type Value = WireCommand;

    fn expecting(&self, formatter: &mut fmt::Formatter) -> fmt::Result {
        formatter.write_str("tuple variant Command::Aaa")
    }

    fn visit_seq<A: SeqAccess<'de>>(self, mut seq: A) -> Result<WireCommand, A::Error> {
        let a = seq.next_element::<i32>()?.ok_or_else(|| de::Error::invalid_length(0, &self))?;
        let b = seq.next_element::<i32>()?.ok_or_else(|| de::Error::invalid_length(1, &self))?;
        Ok(WireCommand::Aaa(a, b))
    }
}

struct BbbVisitor;

impl<'de> Visitor<'de> for BbbVisitor {
    type Value = WireCommand;

    fn expecting(&self, formatter: &mut fmt::Formatter) -> fmt::Result {
        formatter.write_str("tuple variant Command::Bbb")
    }

    fn visit_seq<A: SeqAccess<'de>>(self, mut seq: A) -> Result<WireCommand, A::Error> {
        let x = seq.next_element::<f32>()?.ok_or_else(|| de::Error::invalid_length(0, &self))?;
        let y = seq.next_element::<f32>()?.ok_or_else(|| de::Error::invalid_length(1, &self))?;
        let z = seq.next_element::<f32>()?.ok_or_else(|| de::Error::invalid_length(2, &self))?;
        Ok(WireCommand::Bbb(x, y, z))
    }
}

struct CommandVisitor;

impl<'de> Visitor<'de> for CommandVisitor {
    type Value = WireCommand;

    fn expecting(&self, formatter: &mut fmt::Formatter) -> fmt::Result {
        formatter.write_str("enum Command")
    }

    fn visit_enum<A: EnumAccess<'de>>(self, data: A) -> Result<WireCommand, A::Error> {
        let (index, variant) = data.variant::<u32>()?;
        match index {
            0 => variant.tuple_variant(2, AaaVisitor),
            1 => variant.tuple_variant(3, BbbVisitor),
            _ => Err(de::Error::custom("unknown variant")),
        }
    }
}

impl<'de> Deserialize<'de> for WireCommand {
    fn deserialize<D: Deserializer<'de>>(deserializer: D) -> Result<WireCommand, D::Error> {
        deserializer.deserialize_enum("Command", &["Aaa", "Bbb"], CommandVisitor)
    }
}

fn connect(room_id: &str, player_id: &str, password: &str) -> NetConnect {
    NetConnect {
        room_id: room_id.to_string(),
        player_id: player_id.to_string(),
        password: password.to_string(),
    }
}

fn encoded(msg: &NetMessage) -> Vec<u8> {
    let mut bytes = Vec::new();
    let written = msg.encode(&mut bytes).unwrap();
    assert_eq!(written, bytes.len());
    bytes
}

#[test]
fn test_message_encode() {
    let mut bytes = Vec::new();

    bytes.clear();
    NetMessage::Connect(NetConnect::default())
        .encode(&mut bytes)
        .unwrap();
    assert_eq!(bytes[0], NetType::Connect as u8);

    bytes.clear();
    NetMessage::Accept(NetAccept::default())
        .encode(&mut bytes)
        .unwrap();
    assert_eq!(bytes[0], NetType::Accept as u8);

    bytes.clear();
    NetMessage::State(NetState::default())
        .encode(&mut bytes)
        .unwrap();
    assert_eq!(bytes[0], NetType::State as u8);

    bytes.clear();
    NetMessage::Start(NetStart::default())
        .encode(&mut bytes)
        .unwrap();
    assert_eq!(bytes[0], NetType::Start as u8);

    bytes.clear();
    NetMessage::Finish(NetFinish::default())
        .encode(&mut bytes)
        .unwrap();
    assert_eq!(bytes[0], NetType::Finish as u8);

    bytes.clear();
    NetMessage::Command(NetCommand::default())
        .encode(&mut bytes)
        .unwrap();
    assert_eq!(bytes[0], NetType::Command as u8);

    let mut hash = NetHash::default();
    hash.frame = 3333;
    hash.hash.extend_from_slice(&[9, 9, 9, 9, 9]);
    bytes.clear();
    NetMessage::Hash(hash.clone()).encode(&mut bytes).unwrap();
    assert_eq!(hash.compute_size() as usize + 3, bytes.len());
    assert_eq!(bytes[0], NetType::Hash as u8);
    assert_eq!(BigEndian::read_u16(&bytes[1..]) as u32, hash.compute_size());

    let mut hash = NetHash::default();
    hash.hash = vec![0; KCP_MAX_PACKET + 1];
    let err = NetMessage::Hash(hash).encode(&mut bytes).unwrap_err();
    assert_eq!(err.to_string(), "message too long");
}

#[test]
fn test_message_decode() {
    let (msg, _) = NetMessage::decode(&[NetType::Connect as u8, 0, 0]).unwrap();
    assert_eq!(msg, NetMessage::Connect(NetConnect::default()));

    let (msg, _) = NetMessage::decode(&[NetType::Accept as u8, 0, 0]).unwrap();
    assert_eq!(msg, NetMessage::Accept(NetAccept::default()));

    let (msg, _) = NetMessage::decode(&[NetType::State as u8, 0, 0]).unwrap();
    assert_eq!(msg, NetMessage::State(NetState::default()));

    let (msg, _) = NetMessage::decode(&[NetType::Start as u8, 0, 0]).unwrap();
    assert_eq!(msg, NetMessage::Start(NetStart::default()));

    let (msg, _) = NetMessage::decode(&[NetType::Finish as u8, 0, 0]).unwrap();
    assert_eq!(msg, NetMessage::Finish(NetFinish::default()));

    let (msg, _) = NetMessage::decode(&[NetType::Hash as u8, 0, 0]).unwrap();
    assert_eq!(msg, NetMessage::Hash(NetHash::default()));

    let mut bytes = vec![NetType::Command as u8, 0, 7];
    let mut cmd = NetCommand::default();
    cmd.conv = 98765;
    cmd.frame = 545;
    cmd.write_to_vec(&mut bytes).unwrap();
    let (msg, offset) = NetMessage::decode(&bytes).unwrap();
    assert_eq!(msg, NetMessage::Command(cmd));
    assert_eq!(offset, bytes.len());

    let err = NetMessage::decode(&[0]).unwrap_err();
    assert_eq!(err.to_string(), "packet too short");

    let err = NetMessage::decode(&vec![0; KCP_MAX_PACKET + 1]).unwrap_err();
    assert_eq!(err.to_string(), "packet too long");

    let err = NetMessage::decode(&[NetType::Hash as u8, 0, 100]).unwrap_err();
    assert_eq!(err.to_string(), "packet broken");
}

#[test]
fn test_command_encoder() {
    let mut ce = CommandEncoder::new(0);
    ce.commands().push(WireCommand::Aaa(47, 57).to_command());
    ce.commands()
        .push(WireCommand::Bbb(3.0, 3.0, 8.0).to_command());
    ce.hash().extend_from_slice(&[8, 7, 8, 6]);
    ce.encode(345).unwrap();

    let (msg, _) = NetMessage::decode(ce.hash_bytes()).unwrap();
    let mut hash = NetHash::default();
    hash.frame = 345;
    hash.hash = vec![8, 7, 8, 6];
    assert_eq!(msg, NetMessage::Hash(hash));

    let (msg, offset) = NetMessage::decode(ce.command_bytes()).unwrap();
    let mut cmd = NetCommand::default();
    cmd.frame = 345;
    assert_eq!(msg, NetMessage::Command(cmd));

    let cmds: Vec<WireCommand> = DefaultOptions::default()
        .with_fixint_encoding()
        .deserialize(&ce.command_bytes()[offset..])
        .unwrap();
    assert_eq!(cmds[0], WireCommand::Aaa(47, 57));
    assert_eq!(cmds[1], WireCommand::Bbb(3.0, 3.0, 8.0));
}

#[test]
fn test_command_decoder() {
    let mut bytes = Vec::<u8>::new();
    let mut net_cmd = NetCommand::default();
    net_cmd.conv = 6666;
    net_cmd.frame = 123;
    NetMessage::Command(net_cmd).encode(&mut bytes).unwrap();

    let mut cmds = Vec::<WireCommand>::new();
    cmds.push(WireCommand::Aaa(22, 33));
    cmds.push(WireCommand::Bbb(5.0, 6.0, 7.0));
    cmds.push(WireCommand::Bbb(9.0, 8.0, 7.0));
    DefaultOptions::default()
        .with_fixint_encoding()
        .serialize_into(&mut bytes, &cmds)
        .unwrap();

    let mut cd = CommandDecoder::new(0);
    cd.decode(&bytes).unwrap();

    assert_eq!(cd.commands().len(), 3);
    assert_eq!(
        cd.command(0).clone(),
        CommandEx {
            conv: 6666,
            frame: 123,
            command: WireCommand::Aaa(22, 33).to_command(),
        }
    );
    assert_eq!(
        cd.command(2).clone(),
        CommandEx {
            conv: 6666,
            frame: 123,
            command: WireCommand::Bbb(9.0, 8.0, 7.0).to_command(),
        }
    );
}

#[test]
fn encode_writes_tag_length_and_payload() {
    let msg = NetMessage::Command(NetCommand { conv: 98765, frame: 545 });
    assert_eq!(
        encoded(&msg),
        vec![6, 0, 7, 0x08, 0xcd, 0x83, 0x06, 0x10, 0xa1, 0x04]
    );

    let msg = NetMessage::State(NetState { conv: 1, state: NetPlayerState::Running });
    assert_eq!(encoded(&msg), vec![3, 0, 4, 0x08, 1, 0x10, 2]);

    let msg = NetMessage::Finish(NetFinish { cause: NetFinishCause::GameOver });
    assert_eq!(encoded(&msg), vec![5, 0, 2, 0x08, 2]);

    let msg = NetMessage::Hash(NetHash { frame: 300, hash: vec![0xaa, 0xbb] });
    assert_eq!(encoded(&msg), vec![7, 0, 7, 0x08, 0xac, 0x02, 0x12, 2, 0xaa, 0xbb]);

    let msg = NetMessage::Connect(connect("r", "p", "x"));
    assert_eq!(
        encoded(&msg),
        vec![1, 0, 9, 0x0a, 1, b'r', 0x12, 1, b'p', 0x1a, 1, b'x']
    );
}

#[test]
fn encode_appends_and_keeps_what_was_there() {
    let mut bytes = vec![0xee, 0xff];
    let written = NetMessage::Accept(NetAccept::default())
        .encode(&mut bytes)
        .unwrap();
    assert_eq!(written, 3);
    assert_eq!(bytes, vec![0xee, 0xff, 2, 0, 0]);
}

#[test]
fn encode_states_a_two_byte_length() {
    let msg = NetMessage::Hash(NetHash { frame: 0, hash: vec![7; 300] });
    let bytes = encoded(&msg);
    // tag of field 2, a two-byte length, 300 bytes
    assert_eq!(bytes.len(), 3 + 1 + 2 + 300);
    assert_eq!(&bytes[..3], &[7, 1, 47]);
    assert_eq!(BigEndian::read_u16(&bytes[1..]), 303);
}

#[test]
fn encode_refuses_a_frame_over_the_limit_and_writes_nothing() {
    // payload: one tag byte, two length bytes and the hash
    let fits = NetMessage::Hash(NetHash { frame: 0, hash: vec![1; KCP_MAX_PACKET - 6] });
    assert_eq!(encoded(&fits).len(), KCP_MAX_PACKET);

    let over = NetMessage::Hash(NetHash { frame: 0, hash: vec![1; KCP_MAX_PACKET - 5] });
    let mut bytes = vec![1, 2, 3];
    assert_eq!(over.encode(&mut bytes), Err(KCPError::MessageTooLong));
    assert_eq!(bytes, vec![1, 2, 3]);

    let long = "a".repeat(KCP_MAX_PACKET);
    let over = NetMessage::Connect(connect("", &long, ""));
    assert_eq!(over.encode(&mut bytes), Err(KCPError::MessageTooLong));
    assert_eq!(bytes, vec![1, 2, 3]);
}

#[test]
fn decode_gives_back_what_encode_was_given() {
    let messages = vec![
        NetMessage::Connect(connect("room-7", "pl\u{e4}yer \u{1F600}", "s3cr\u{e9}t")),
        NetMessage::Connect(connect("", "only player", "")),
        NetMessage::Accept(NetAccept::default()),
        NetMessage::State(NetState { conv: u32::MAX, state: NetPlayerState::Stopped }),
        NetMessage::State(NetState { conv: 0, state: NetPlayerState::Waiting }),
        NetMessage::Start(NetStart::default()),
        NetMessage::Finish(NetFinish { cause: NetFinishCause::NetworkBroken }),
        NetMessage::Finish(NetFinish { cause: NetFinishCause::InvalidPacket }),
        NetMessage::Finish(NetFinish { cause: NetFinishCause::GameOver }),
        NetMessage::Finish(NetFinish { cause: NetFinishCause::ClientError }),
        NetMessage::Finish(NetFinish { cause: NetFinishCause::ServerDefined(4) }),
        NetMessage::Finish(NetFinish { cause: NetFinishCause::ServerDefined(0x7fff_ffff) }),
        NetMessage::Command(NetCommand { conv: 127, frame: 128 }),
        NetMessage::Command(NetCommand { conv: 16383, frame: 16384 }),
        NetMessage::Command(NetCommand { conv: u32::MAX, frame: u32::MAX - 1 }),
        NetMessage::Hash(NetHash { frame: 9, hash: vec![0, 255, 128, 127] }),
        NetMessage::Hash(NetHash { frame: 0, hash: vec![3; KCP_MAX_PACKET - 6] }),
    ];
    for msg in messages {
        let bytes = encoded(&msg);
        assert!(bytes.len() >= 3 && bytes.len() <= KCP_MAX_PACKET);
        let (decoded, consumed) = NetMessage::decode(&bytes).unwrap();
        assert_eq!(decoded, msg);
        assert_eq!(consumed, bytes.len());
    }
}

#[test]
fn a_cause_that_is_not_well_formed_is_read_as_its_number_says() {
    // written with its number, read as the named cause of that number
    for (code, read) in [
        (0, NetFinishCause::NetworkBroken),
        (1, NetFinishCause::InvalidPacket),
        (2, NetFinishCause::GameOver),
        (3, NetFinishCause::ClientError),
    ] {
        let msg = NetMessage::Finish(NetFinish { cause: NetFinishCause::ServerDefined(code) });
        let bytes = encoded(&msg);
        assert_eq!(bytes, encoded(&NetMessage::Finish(NetFinish { cause: read })));
        let (decoded, consumed) = NetMessage::decode(&bytes).unwrap();
        assert_eq!(decoded, NetMessage::Finish(NetFinish { cause: read }));
        assert_eq!(consumed, bytes.len());
    }
    // a number over the largest is written and passed over by the reader
    for code in [0x8000_0000, u32::MAX] {
        let msg = NetMessage::Finish(NetFinish { cause: NetFinishCause::ServerDefined(code) });
        let bytes = encoded(&msg);
        assert_eq!(bytes.len(), 3 + 6);
        let (decoded, _) = NetMessage::decode(&bytes).unwrap();
        assert_eq!(decoded, NetMessage::Finish(NetFinish::default()));
    }
}

#[test]
fn decode_leaves_what_follows_the_frame() {
    let mut bytes = encoded(&NetMessage::Command(NetCommand { conv: 5, frame: 6 }));
    let frame_len = bytes.len();
    bytes.extend_from_slice(&[1, 2, 3, 4, 5]);
    let (msg, consumed) = NetMessage::decode(&bytes).unwrap();
    assert_eq!(msg, NetMessage::Command(NetCommand { conv: 5, frame: 6 }));
    assert_eq!(consumed, frame_len);
}

#[test]
fn decode_checks_the_bounds_in_order() {
    assert_eq!(NetMessage::decode(&[]), Err(KCPError::PacketTooShort));
    assert_eq!(NetMessage::decode(&[6, 0]), Err(KCPError::PacketTooShort));
    assert_eq!(
        NetMessage::decode(&vec![6; KCP_MAX_PACKET + 1]),
        Err(KCPError::PacketTooLong)
    );
    // exactly at the limit the length is looked at
    let mut bytes = vec![0u8; KCP_MAX_PACKET];
    bytes[0] = 7;
    bytes[1] = 0xff;
    bytes[2] = 0xff;
    assert_eq!(NetMessage::decode(&bytes), Err(KCPError::PacketBroken));
    // the stated length is one more than what is there
    assert_eq!(NetMessage::decode(&[2, 0, 1]), Err(KCPError::PacketBroken));
    // a tag that names no message
    assert_eq!(NetMessage::decode(&[0, 0, 0]), Err(KCPError::PacketBroken));
    assert_eq!(NetMessage::decode(&[8, 0, 0]), Err(KCPError::PacketBroken));
    assert_eq!(NetMessage::decode(&[255, 0, 0]), Err(KCPError::PacketBroken));
    // the length is checked before the tag
    assert_eq!(NetMessage::decode(&[9, 0, 1]), Err(KCPError::PacketBroken));
}

#[test]
fn decode_reports_a_malformed_payload() {
    // a varint that never ends
    assert_eq!(NetMessage::decode(&[6, 0, 2, 0x08, 0x80]), Err(KCPError::Protobuf));
    // field number 0
    assert_eq!(NetMessage::decode(&[6, 0, 2, 0x00, 0x01]), Err(KCPError::Protobuf));
    // wire type 6
    assert_eq!(NetMessage::decode(&[6, 0, 2, 0x0e, 0x01]), Err(KCPError::Protobuf));
    // a group that is not closed
    assert_eq!(NetMessage::decode(&[2, 0, 1, 0x0b]), Err(KCPError::Protobuf));
    assert_eq!(
        NetMessage::decode(&[2, 0, 3, 0x0b, 0x08, 0x01]),
        Err(KCPError::Protobuf)
    );
    // a closing tag without a group
    assert_eq!(NetMessage::decode(&[2, 0, 1, 0x0c]), Err(KCPError::Protobuf));
    // a group within a group
    assert_eq!(
        NetMessage::decode(&[2, 0, 4, 0x0b, 0x0b, 0x0c, 0x0c]),
        Err(KCPError::Protobuf)
    );
    // a group where a varint belongs
    assert_eq!(
        NetMessage::decode(&[6, 0, 2, 0x0b, 0x0c]),
        Err(KCPError::Protobuf)
    );
    // bytes where a varint belongs
    assert_eq!(
        NetMessage::decode(&[6, 0, 3, 0x0a, 1, 0x41]),
        Err(KCPError::Protobuf)
    );
    // a varint where a string belongs
    assert_eq!(NetMessage::decode(&[1, 0, 2, 0x08, 1]), Err(KCPError::Protobuf));
    // a string that is not UTF-8
    assert_eq!(
        NetMessage::decode(&[1, 0, 3, 0x0a, 1, 0xff]),
        Err(KCPError::Protobuf)
    );
    // a string cut short
    assert_eq!(
        NetMessage::decode(&[1, 0, 3, 0x0a, 5, b'a']),
        Err(KCPError::Protobuf)
    );
    // eleven bytes of varint
    let mut bytes = vec![6, 0, 12, 0x08];
    bytes.extend_from_slice(&[0x80; 10]);
    bytes.push(0x01);
    assert_eq!(NetMessage::decode(&bytes), Err(KCPError::Protobuf));
}

#[test]
fn decode_skips_fields_it_does_not_know() {
    // field 9 as varint, fixed64, bytes and fixed32 around the known fields
    let mut bytes = vec![6, 0, 0];
    bytes.extend_from_slice(&[0x48, 0x96, 0x01]);
    bytes.extend_from_slice(&[0x08, 0x05]);
    bytes.extend_from_slice(&[0x49, 1, 2, 3, 4, 5, 6, 7, 8]);
    bytes.extend_from_slice(&[0x4a, 3, b'a', b'b', b'c']);
    bytes.extend_from_slice(&[0x10, 0x06]);
    bytes.extend_from_slice(&[0x4d, 1, 2, 3, 4]);
    bytes[2] = (bytes.len() - 3) as u8;
    let (msg, consumed) = NetMessage::decode(&bytes).unwrap();
    assert_eq!(msg, NetMessage::Command(NetCommand { conv: 5, frame: 6 }));
    assert_eq!(consumed, bytes.len());

    // a message without fields takes any fields
    let (msg, _) = NetMessage::decode(&[2, 0, 2, 0x08, 0x01]).unwrap();
    assert_eq!(msg, NetMessage::Accept(NetAccept::default()));

    // a group in a field it does not know is passed over, with what is in it
    let (msg, consumed) = NetMessage::decode(&[2, 0, 2, 0x0b, 0x0c]).unwrap();
    assert_eq!(msg, NetMessage::Accept(NetAccept::default()));
    assert_eq!(consumed, 5);
    let mut bytes = vec![6, 0, 0, 0x08, 0x05];
    bytes.extend_from_slice(&[0x4b, 0x08, 0x09, 0x12, 2, b'a', b'b', 0x15, 1, 2, 3, 4, 0x4c]);
    bytes.extend_from_slice(&[0x10, 0x06]);
    bytes[2] = (bytes.len() - 3) as u8;
    let (msg, consumed) = NetMessage::decode(&bytes).unwrap();
    assert_eq!(msg, NetMessage::Command(NetCommand { conv: 5, frame: 6 }));
    assert_eq!(consumed, bytes.len());
    // the tag that closes a group need not have the number of the one that opened it
    let (msg, _) = NetMessage::decode(&[4, 0, 2, 0x0b, 0x14]).unwrap();
    assert_eq!(msg, NetMessage::Start(NetStart::default()));
}

#[test]
fn decode_takes_the_last_of_a_repeated_field() {
    let (msg, _) = NetMessage::decode(&[6, 0, 6, 0x08, 1, 0x10, 9, 0x08, 2]).unwrap();
    assert_eq!(msg, NetMessage::Command(NetCommand { conv: 2, frame: 9 }));
}

#[test]
fn decode_cuts_a_long_varint_to_32_bits() {
    // ten bytes: 2^64 - 1
    let mut bytes = vec![6, 0, 11, 0x08];
    bytes.extend_from_slice(&[0xff; 9]);
    bytes.push(0x01);
    let (msg, _) = NetMessage::decode(&bytes).unwrap();
    assert_eq!(msg, NetMessage::Command(NetCommand { conv: u32::MAX, frame: 0 }));

    // 2^32 + 7
    let (msg, _) = NetMessage::decode(&[6, 0, 6, 0x10, 0x87, 0x80, 0x80, 0x80, 0x10]).unwrap();
    assert_eq!(msg, NetMessage::Command(NetCommand { conv: 0, frame: 7 }));
}

#[test]
fn decode_passes_over_enum_numbers_without_a_meaning() {
    // state 9 is no state: the field keeps what it had
    let (msg, _) = NetMessage::decode(&[3, 0, 4, 0x10, 2, 0x10, 9]).unwrap();
    assert_eq!(
        msg,
        NetMessage::State(NetState { conv: 0, state: NetPlayerState::Running })
    );
    // a cause beyond the largest is no cause
    let (msg, _) =
        NetMessage::decode(&[5, 0, 6, 0x08, 0xff, 0xff, 0xff, 0xff, 0x0f]).unwrap();
    assert_eq!(msg, NetMessage::Finish(NetFinish::default()));
    // a cause the server defines
    let (msg, _) = NetMessage::decode(&[5, 0, 2, 0x08, 77]).unwrap();
    assert_eq!(
        msg,
        NetMessage::Finish(NetFinish { cause: NetFinishCause::ServerDefined(77) })
    );
}

#[test]
fn command_list_is_what_bincode_writes() {
    let cmds = vec![
        WireCommand::Aaa(-1, i32::MIN),
        WireCommand::Bbb(1.5, -0.0, f32::INFINITY),
        WireCommand::Aaa(i32::MAX, 0),
    ];
    let mut expected = Vec::new();
    DefaultOptions::default()
        .with_fixint_encoding()
        .serialize_into(&mut expected, &cmds)
        .unwrap();

    let mut ce = CommandEncoder::new(4);
    for cmd in &cmds {
        ce.commands().push(cmd.to_command());
    }
    ce.encode(1).unwrap();
    let (_, offset) = NetMessage::decode(ce.command_bytes()).unwrap();
    assert_eq!(&ce.command_bytes()[offset..], &expected[..]);
    assert_eq!(expected.len(), 8 + 12 + 16 + 12);
    assert_eq!(
        &expected[..20],
        &[3, 0, 0, 0, 0, 0, 0, 0, 0, 0, 0, 0, 0xff, 0xff, 0xff, 0xff, 0, 0, 0, 0x80]
    );
}

#[test]
fn command_encoder_writes_both_frames_and_empties_the_staging() {
    let mut ce = CommandEncoder::new(0);
    ce.buffers().0.push(Command::Aaa(1, 2));
    ce.buffers().1.extend_from_slice(&[5, 6]);
    ce.encode(7).unwrap();
    assert_eq!(ce.hash_bytes(), &[7, 0, 6, 0x08, 7, 0x12, 2, 5, 6]);
    assert_eq!(
        ce.command_bytes(),
        &[6, 0, 2, 0x10, 7, 1, 0, 0, 0, 0, 0, 0, 0, 0, 0, 0, 0, 1, 0, 0, 0, 2, 0, 0, 0]
    );
    assert!(ce.commands().is_empty());
    assert!(ce.hash().is_empty());

    // the next frame starts from nothing
    ce.encode(8).unwrap();
    assert_eq!(ce.hash_bytes(), &[7, 0, 2, 0x08, 8]);
    assert_eq!(ce.command_bytes(), &[6, 0, 2, 0x10, 8, 0, 0, 0, 0, 0, 0, 0, 0]);
}

#[test]
fn command_encoder_keeps_the_staging_when_the_hash_is_too_long() {
    let mut ce = CommandEncoder::new(0);
    ce.commands().push(Command::Aaa(1, 2));
    ce.encode(1).unwrap();
    let command_bytes = ce.command_bytes().to_vec();

    ce.commands().push(Command::Bbb(1, 2, 3));
    ce.hash().extend_from_slice(&vec![9; KCP_MAX_PACKET]);
    assert_eq!(ce.encode(2), Err(KCPError::MessageTooLong));
    assert_eq!(ce.hash_bytes(), &[] as &[u8]);
    assert_eq!(ce.command_bytes(), &command_bytes[..]);
    assert_eq!(ce.commands().clone(), vec![Command::Bbb(1, 2, 3)]);
    assert_eq!(ce.hash().len(), KCP_MAX_PACKET);
}

#[test]
fn command_decoder_keeps_the_order_of_the_encoder() {
    let cmds = vec![
        Command::Bbb(3, 2, 1),
        Command::Aaa(-5, 5),
        Command::Aaa(0, 0),
        Command::Bbb(u32::MAX, 0, 0x7fc0_0000),
    ];
    let mut ce = CommandEncoder::new(0);
    ce.commands().extend_from_slice(&cmds);
    ce.encode(77).unwrap();

    let mut cd = CommandDecoder::new(0);
    cd.decode(ce.command_bytes()).unwrap();
    assert_eq!(cd.len(), 4);
    for (i, cmd) in cmds.iter().enumerate() {
        assert_eq!(
            *cd.command(i),
            CommandEx { conv: 0, frame: 77, command: *cmd }
        );
    }
}

#[test]
fn command_decoder_takes_an_empty_list() {
    let mut bytes = encoded(&NetMessage::Command(NetCommand { conv: 1, frame: 2 }));
    bytes.extend_from_slice(&[0; 8]);
    let mut cd = CommandDecoder::new(0);
    cd.decode(&bytes).unwrap();
    assert_eq!(cd.len(), 0);
    assert!(cd.commands().is_empty());
}

#[test]
fn command_decoder_refuses_other_frames_and_keeps_its_commands() {
    let mut good = encoded(&NetMessage::Command(NetCommand { conv: 1, frame: 2 }));
    good.extend_from_slice(&[1, 0, 0, 0, 0, 0, 0, 0, 0, 0, 0, 0, 4, 0, 0, 0, 5, 0, 0, 0]);
    let mut cd = CommandDecoder::new(0);
    cd.decode(&good).unwrap();
    let held = cd.commands().to_vec();
    assert_eq!(
        held,
        vec![CommandEx { conv: 1, frame: 2, command: Command::Aaa(4, 5) }]
    );

    let mut hash = encoded(&NetMessage::Hash(NetHash { frame: 1, hash: vec![1] }));
    hash.extend_from_slice(&[0; 8]);
    assert_eq!(cd.decode(&hash), Err(KCPError::PacketBroken));
    assert_eq!(cd.commands(), &held[..]);

    assert_eq!(cd.decode(&[6]), Err(KCPError::PacketTooShort));
    assert_eq!(cd.decode(&vec![6; KCP_MAX_PACKET + 1]), Err(KCPError::PacketTooLong));
    assert_eq!(cd.decode(&[6, 0, 9]), Err(KCPError::PacketBroken));
    assert_eq!(cd.decode(&[6, 0, 1, 0x08]), Err(KCPError::Protobuf));
    assert_eq!(cd.commands(), &held[..]);
}

#[test]
fn command_decoder_reports_a_malformed_list() {
    let head = encoded(&NetMessage::Command(NetCommand { conv: 3, frame: 4 }));
    let list = |tail: &[u8]| {
        let mut bytes = head.clone();
        bytes.extend_from_slice(tail);
        bytes
    };
    let mut cd = CommandDecoder::new(0);

    // no list at all
    assert_eq!(cd.decode(&list(&[])), Err(KCPError::Bincode));
    // a count cut short
    assert_eq!(cd.decode(&list(&[0; 7])), Err(KCPError::Bincode));
    // one command announced, none there
    assert_eq!(cd.decode(&list(&[1, 0, 0, 0, 0, 0, 0, 0])), Err(KCPError::Bincode));
    assert_eq!(cd.len(), 0);
    // a variant that does not exist
    assert_eq!(
        cd.decode(&list(&[1, 0, 0, 0, 0, 0, 0, 0, 2, 0, 0, 0, 0, 0, 0, 0, 0, 0, 0, 0])),
        Err(KCPError::Bincode)
    );
    // bytes after the list
    assert_eq!(cd.decode(&list(&[0, 0, 0, 0, 0, 0, 0, 0, 9])), Err(KCPError::Bincode));
    // a count of 2^64 - 1
    assert_eq!(cd.decode(&list(&[0xff; 8])), Err(KCPError::Bincode));

    // the second command is cut short: the first stays
    let mut tail = vec![2, 0, 0, 0, 0, 0, 0, 0];
    tail.extend_from_slice(&[0, 0, 0, 0, 7, 0, 0, 0, 8, 0, 0, 0]);
    tail.extend_from_slice(&[1, 0, 0, 0, 1, 0, 0, 0]);
    assert_eq!(cd.decode(&list(&tail)), Err(KCPError::Bincode));
    assert_eq!(
        cd.commands(),
        &[CommandEx { conv: 3, frame: 4, command: Command::Aaa(7, 8) }]
    );
}

#[test]
fn command_decoder_agrees_with_bincode_on_what_is_a_list() {
    let head = encoded(&NetMessage::Command(NetCommand { conv: 3, frame: 4 }));
    let tails: Vec<Vec<u8>> = vec![
        vec![],
        vec![0; 8],
        vec![0; 9],
        vec![1, 0, 0, 0, 0, 0, 0, 0, 0, 0, 0, 0, 1, 0, 0, 0, 2, 0, 0, 0],
        vec![1, 0, 0, 0, 0, 0, 0, 0, 0, 0, 0, 0, 1, 0, 0, 0, 2, 0, 0],
        vec![1, 0, 0, 0, 0, 0, 0, 0, 1, 0, 0, 0, 1, 0, 0, 0, 2, 0, 0, 0],
        vec![1, 0, 0, 0, 0, 0, 0, 0, 1, 0, 0, 0, 1, 0, 0, 0, 2, 0, 0, 0, 3, 0, 0, 0],
        vec![1, 0, 0, 0, 0, 0, 0, 0, 0, 1, 0, 0, 1, 0, 0, 0, 2, 0, 0, 0],
        vec![2, 0, 0, 0, 0, 0, 0, 0, 0, 0, 0, 0, 1, 0, 0, 0, 2, 0, 0, 0],
    ];
    for tail in tails {
        let expected: Result<Vec<WireCommand>, _> = DefaultOptions::default()
            .with_fixint_encoding()
            .deserialize(&tail);
        let mut bytes = head.clone();
        bytes.extend_from_slice(&tail);
        let mut cd = CommandDecoder::new(0);
        match expected {
            Ok(cmds) => {
                cd.decode(&bytes).unwrap();
                let got: Vec<Command> = cd.commands().iter().map(|c| c.command).collect();
                let want: Vec<Command> = cmds.iter().map(|c| c.to_command()).collect();
                assert_eq!(got, want);
            }
            Err(_) => assert_eq!(cd.decode(&bytes), Err(KCPError::Bincode)),
        }
    }
}

#[test]
fn net_type_numbers() {
    let types = [
        NetType::Unknown,
        NetType::Connect,
        NetType::Accept,
        NetType::State,
        NetType::Start,
        NetType::Finish,
        NetType::Command,
        NetType::Hash,
    ];
    for (i, typ) in types.iter().enumerate() {
        assert_eq!(typ.value(), i as i32);
        assert_eq!(NetType::from_i32(i as i32), Some(*typ));
    }
    assert_eq!(NetType::from_i32(8), None);
    assert_eq!(NetType::from_i32(-1), None);
}

#[test]
fn finish_cause_numbers() {
    assert_eq!(NetFinishCause::NetworkBroken.value(), 0);
    assert_eq!(NetFinishCause::InvalidPacket.value(), 1);
    assert_eq!(NetFinishCause::GameOver.value(), 2);
    assert_eq!(NetFinishCause::ClientError.value(), 3);
    assert_eq!(NetFinishCause::ServerDefined(9).value(), 9);
    for value in 0..10 {
        assert_eq!(NetFinishCause::from_value(value).value(), value);
    }
    assert_eq!(NetFinishCause::from_value(2), NetFinishCause::GameOver);
    assert_eq!(NetFinishCause::from_value(4), NetFinishCause::ServerDefined(4));
}

#[test]
fn player_state_numbers() {
    let states = [
        NetPlayerState::Initing,
        NetPlayerState::Waiting,
        NetPlayerState::Running,
        NetPlayerState::Stopped,
    ];
    for (i, state) in states.iter().enumerate() {
        assert_eq!(state.value(), i as u32);
        assert_eq!(NetPlayerState::from_value(i as u32), *state);
    }
    assert_eq!(NetPlayerState::from_value(4), NetPlayerState::Initing);
}

#[test]
fn error_causes_and_messages() {
    let table = [
        (KCPError::IO, NetFinishCause::NetworkBroken, "io error"),
        (KCPError::Timeout, NetFinishCause::NetworkBroken, "timeout"),
        (KCPError::WindowExhausted, NetFinishCause::NetworkBroken, "window exhausted"),
        (KCPError::PacketBroken, NetFinishCause::InvalidPacket, "packet broken"),
        (KCPError::PacketTooShort, NetFinishCause::InvalidPacket, "packet too short"),
        (KCPError::PacketTooLong, NetFinishCause::InvalidPacket, "packet too long"),
        (KCPError::UnexpectedPacket, NetFinishCause::InvalidPacket, "unexpected packet"),
        (KCPError::GameOver, NetFinishCause::GameOver, "game over"),
        (
            KCPError::RemoteFinished(NetFinishCause::ServerDefined(9)),
            NetFinishCause::ServerDefined(9),
            "remote finished",
        ),
        (
            KCPError::RemoteFinished(NetFinishCause::GameOver),
            NetFinishCause::GameOver,
            "remote finished",
        ),
        (KCPError::Protobuf, NetFinishCause::ClientError, "protobuf error"),
        (KCPError::Bincode, NetFinishCause::ClientError, "bincode error"),
        (KCPError::KCP(-3), NetFinishCause::ClientError, "kcp error -3"),
        (KCPError::Unexpected, NetFinishCause::ClientError, "unexpected error"),
        (KCPError::InvalidFrame, NetFinishCause::ClientError, "invalid frame"),
        (KCPError::MessageTooLong, NetFinishCause::ClientError, "message too long"),
    ];
    for (err, cause, message) in table {
        assert_eq!(err.cause(), cause);
        assert_eq!(err.to_string(), message);
    }
}
