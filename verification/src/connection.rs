use vstd::prelude::*;
use vstd::string::StringExecFns;
use vstd::utf8::*;

use crate::chat::{
    escape_text, ChatMessage, ListPingResponse, ListPingResponsePlayerSample,
    ListPingResponsePlayers, ListPingResponseVersion,
};
use crate::error::ProtocolError;
use crate::packet::{
    be_bytes, be_value, frame_spec, lemma_be_bytes_len, PacketReader, PacketWriter,
};
use crate::varint::{lemma_varint_size, varint_encoding, varint_size, varint_value,
    MAX_DECODE_GROUPS};

verus! {

/// Packet id of the status response.
pub const STATUS_RESPONSE_PACKET_ID: i32 = 0x00;

/// Packet id of the login-success response.
pub const LOGIN_SUCCESS_PACKET_ID: i32 = 0x02;

/// Packet id of the server's keep-alive ping during login.
pub const LOGIN_PING_PACKET_ID: i32 = 0x30;

/// The fixed payload of the server's keep-alive ping.
pub const LOGIN_PING_PAYLOAD: i32 = 14881337;

/// Reading one varint from the front of `b`: the value and the rest.
pub open spec fn spec_read_varint(b: Seq<u8>) -> Result<(nat, Seq<u8>), ProtocolError> {
    match varint_value(b, MAX_DECODE_GROUPS as nat) {
        Some(p) => Ok((p.0, b.skip(p.1 as int))),
        None => Err(ProtocolError::PacketParsing),
    }
}

/// Reading one big-endian 16-bit value from the front of `b`.
pub open spec fn spec_read_u16(b: Seq<u8>) -> Result<(u16, Seq<u8>), ProtocolError> {
    if b.len() >= 2 {
        Ok((be_value(b.take(2)) as u16, b.skip(2)))
    } else {
        Err(ProtocolError::BufferExhausted)
    }
}

/// Reading one big-endian 32-bit value from the front of `b`.
pub open spec fn spec_read_i32(b: Seq<u8>) -> Result<(i32, Seq<u8>), ProtocolError> {
    if b.len() >= 4 {
        Ok(((be_value(b.take(4)) as u32) as i32, b.skip(4)))
    } else {
        Err(ProtocolError::BufferExhausted)
    }
}

/// Reading one length-prefixed UTF-8 string from the front of `b`.
pub open spec fn spec_read_string(b: Seq<u8>) -> Result<(Seq<char>, Seq<u8>), ProtocolError> {
    match varint_value(b, MAX_DECODE_GROUPS as nat) {
        None => Err(ProtocolError::PacketParsing),
        Some(p) => if b.len() < p.1 + p.0 {
            Err(ProtocolError::BufferExhausted)
        } else {
            let body = b.subrange(p.1 as int, (p.1 + p.0) as int);
            if valid_utf8(body) {
                Ok((decode_utf8(body), b.skip((p.1 + p.0) as int)))
            } else {
                Err(ProtocolError::PacketParsing)
            }
        },
    }
}

/// The decoded handshake packet: total length, packet id, protocol version,
/// the server address the client dialed, its port, and the requested next
/// state. Nothing beyond the next-state field is read, and neither the packet
/// id nor the protocol version is validated.
pub struct Handshake {
    pub length: i32,
    pub packet_id: i32,
    pub protocol_version: i32,
    pub server_address: String,
    pub server_port: u16,
    pub next_state: i32,
}

/// The mathematical content of a decoded handshake.
pub ghost struct HandshakeView {
    pub length: i32,
    pub packet_id: i32,
    pub protocol_version: i32,
    pub server_address: Seq<char>,
    pub server_port: u16,
    pub next_state: i32,
}

impl View for Handshake {
    type V = HandshakeView;

    open spec fn view(&self) -> HandshakeView {
        HandshakeView {
            length: self.length,
            packet_id: self.packet_id,
            protocol_version: self.protocol_version,
            server_address: self.server_address@,
            server_port: self.server_port,
            next_state: self.next_state,
        }
    }
}

/// What a handshake packet's bytes hold: length, packet id and protocol
/// version as varints, then the address string, the port, and the next-state
/// varint; or the first field's failure.
pub open spec fn spec_parse_handshake(b: Seq<u8>) -> Result<HandshakeView, ProtocolError> {
    match spec_read_varint(b) {
        Err(e) => Err(e),
        Ok((length, b1)) => match spec_read_varint(b1) {
            Err(e) => Err(e),
            Ok((packet_id, b2)) => match spec_read_varint(b2) {
                Err(e) => Err(e),
                Ok((protocol_version, b3)) => match spec_read_string(b3) {
                    Err(e) => Err(e),
                    Ok((server_address, b4)) => match spec_read_u16(b4) {
                        Err(e) => Err(e),
                        Ok((server_port, b5)) => match spec_read_varint(b5) {
                            Err(e) => Err(e),
                            Ok((next_state, _)) => Ok(
                                HandshakeView {
                                    length: length as i32,
                                    packet_id: packet_id as i32,
                                    protocol_version: protocol_version as i32,
                                    server_address,
                                    server_port,
                                    next_state: next_state as i32,
                                },
                            ),
                        },
                    },
                },
            },
        },
    }
}

/// Decodes the handshake packet that opens every connection.
pub fn parse_handshake(packet: Vec<u8>) -> (r: Result<Handshake, ProtocolError>)
    ensures
        spec_parse_handshake(packet@) matches Ok(h) ==> (r matches Ok(x) && x@ == h),
        spec_parse_handshake(packet@) matches Err(e) ==> r == Err::<Handshake, ProtocolError>(e),
{
    let mut reader = PacketReader::new(packet);
    let length = match reader.get_varint() {
        Ok(v) => v,
        Err(e) => {
            return Err(e);
        },
    };
    let packet_id = match reader.get_varint() {
        Ok(v) => v,
        Err(e) => {
            return Err(e);
        },
    };
    let protocol_version = match reader.get_varint() {
        Ok(v) => v,
        Err(e) => {
            return Err(e);
        },
    };
    let server_address = match reader.get_string() {
        Ok(v) => v,
        Err(e) => {
            return Err(e);
        },
    };
    let server_port = match reader.get_u16() {
        Ok(v) => v,
        Err(e) => {
            return Err(e);
        },
    };
    let next_state = match reader.get_varint() {
        Ok(v) => v,
        Err(e) => {
            return Err(e);
        },
    };
    Ok(Handshake { length, packet_id, protocol_version, server_address, server_port, next_state })
}

/// Where a handshake sends the connection next.
#[derive(Clone, Copy, Debug, PartialEq, Eq, Structural)]
pub enum NextState {
    /// The status/list-ping exchange.
    Status,
    /// The login exchange.
    Login,
    /// No defined transition: the connection is dropped without a response.
    Dropped,
}

/// The handshake dispatch rule: next-state 1 selects the status exchange,
/// 2 selects login, and every other value drops the connection.
pub open spec fn dispatch_of(next_state: i32) -> NextState {
    if next_state == 1 {
        NextState::Status
    } else if next_state == 2 {
        NextState::Login
    } else {
        NextState::Dropped
    }
}

/// Routes a handshake's next-state field to its sub-protocol.
pub fn dispatch(next_state: i32) -> (r: NextState)
    ensures
        r == dispatch_of(next_state),
{
    if next_state == 1 {
        NextState::Status
    } else if next_state == 2 {
        NextState::Login
    } else {
        NextState::Dropped
    }
}

/// What a status request's bytes hold: its length and packet id; any payload
/// after them is ignored.
pub open spec fn spec_parse_status_request(b: Seq<u8>) -> Result<(i32, i32), ProtocolError> {
    match spec_read_varint(b) {
        Err(e) => Err(e),
        Ok((length, b1)) => match spec_read_varint(b1) {
            Err(e) => Err(e),
            Ok((packet_id, _)) => Ok((length as i32, packet_id as i32)),
        },
    }
}

/// Decodes a status request packet: length and packet id, payload ignored.
pub fn parse_status_request(packet: Vec<u8>) -> (r: Result<(i32, i32), ProtocolError>)
    ensures
        spec_parse_status_request(packet@) matches Ok(v) ==> r == Ok::<
            (i32, i32),
            ProtocolError,
        >(v),
        spec_parse_status_request(packet@) matches Err(e) ==> r == Err::<
            (i32, i32),
            ProtocolError,
        >(e),
{
    let mut reader = PacketReader::new(packet);
    let length = match reader.get_varint() {
        Ok(v) => v,
        Err(e) => {
            return Err(e);
        },
    };
    let packet_id = match reader.get_varint() {
        Ok(v) => v,
        Err(e) => {
            return Err(e);
        },
    };
    Ok((length, packet_id))
}

/// The fixed list-ping answer this server gives: its version name and
/// protocol number, its player counts with an empty sample, and the
/// description text.
pub fn build_status_response() -> (r: ListPingResponse)
    ensures
        r.version.name@ == "ULE"@,
        r.version.protocol == 758,
        r.players.max == 88,
        r.players.online == 14,
        r.players.sample@ == Seq::<ListPingResponsePlayerSample>::empty(),
        r.description.text@ == escape_text("o4ko"@),
        r.description.bold@ == Seq::<char>::empty(),
        r.description.extra@ == Seq::<ChatMessage>::empty(),
{
    ListPingResponse {
        version: ListPingResponseVersion { name: String::from_str("ULE"), protocol: 758 },
        players: ListPingResponsePlayers { max: 88, online: 14, sample: Vec::new() },
        description: ChatMessage::str("o4ko"),
    }
}

/// Frames the serialized status response: the JSON text as a length-prefixed
/// string, under the status response packet id.
pub fn status_response_packet(json: String) -> (r: Vec<u8>)
    ensures
        encode_utf8(json@).len() < 0x10000000 ==> r@ == frame_spec(
            varint_encoding(encode_utf8(json@).len()) + encode_utf8(json@),
            STATUS_RESPONSE_PACKET_ID,
        ),
{
    let mut writer = PacketWriter::new();
    write_string_checked(&mut writer, json);
    writer.create_packet(STATUS_RESPONSE_PACKET_ID)
}

/// The status ping/pong echo: the reply is byte-for-byte the ping received.
pub fn pong_reply(ping: Vec<u8>) -> (r: Vec<u8>)
    ensures
        r@ == ping@,
{
    ping
}

/// The decoded login-start packet: total length, packet id and the player's
/// chosen name.
pub struct LoginStart {
    pub length: i32,
    pub packet_id: i32,
    pub name: String,
}

/// The mathematical content of a decoded login-start packet.
pub ghost struct LoginStartView {
    pub length: i32,
    pub packet_id: i32,
    pub name: Seq<char>,
}

impl View for LoginStart {
    type V = LoginStartView;

    open spec fn view(&self) -> LoginStartView {
        LoginStartView { length: self.length, packet_id: self.packet_id, name: self.name@ }
    }
}

/// What a login-start packet's bytes hold: length, packet id and the name.
pub open spec fn spec_parse_login_start(b: Seq<u8>) -> Result<LoginStartView, ProtocolError> {
    match spec_read_varint(b) {
        Err(e) => Err(e),
        Ok((length, b1)) => match spec_read_varint(b1) {
            Err(e) => Err(e),
            Ok((packet_id, b2)) => match spec_read_string(b2) {
                Err(e) => Err(e),
                Ok((name, _)) => Ok(
                    LoginStartView { length: length as i32, packet_id: packet_id as i32, name },
                ),
            },
        },
    }
}

/// Decodes a login-start packet.
pub fn parse_login_start(packet: Vec<u8>) -> (r: Result<LoginStart, ProtocolError>)
    ensures
        spec_parse_login_start(packet@) matches Ok(v) ==> (r matches Ok(x) && x@ == v),
        spec_parse_login_start(packet@) matches Err(e) ==> r == Err::<LoginStart, ProtocolError>(
            e,
        ),
{
    let mut reader = PacketReader::new(packet);
    let length = match reader.get_varint() {
        Ok(v) => v,
        Err(e) => {
            return Err(e);
        },
    };
    let packet_id = match reader.get_varint() {
        Ok(v) => v,
        Err(e) => {
            return Err(e);
        },
    };
    let name = match reader.get_string() {
        Ok(v) => v,
        Err(e) => {
            return Err(e);
        },
    };
    Ok(LoginStart { length, packet_id, name })
}

/// Frames the login-success response: the 16-byte session identifier, then
/// the player's name, under the login-success packet id.
pub fn login_success_packet(session_id: u128, name: String) -> (r: Vec<u8>)
    ensures
        encode_utf8(name@).len() < 0x10000000 ==> r@ == frame_spec(
            be_bytes(session_id as nat, 16) + varint_encoding(encode_utf8(name@).len())
                + encode_utf8(name@),
            LOGIN_SUCCESS_PACKET_ID,
        ),
{
    let mut writer = PacketWriter::new();
    writer.write_u128(session_id);
    proof {
        lemma_be_bytes_len(session_id as nat, 16);
        assert(Seq::<u8>::empty() + be_bytes(session_id as nat, 16) =~= be_bytes(
            session_id as nat,
            16,
        ));
    }
    write_string_checked(&mut writer, name);
    writer.create_packet(LOGIN_SUCCESS_PACKET_ID)
}

/// Relies on uuid::Uuid::new_v4 and Uuid::as_u128: a freshly drawn random
/// version-4 identifier, returned as its 128-bit big-endian value. The result
/// is random, so nothing is promised of it; the caller must work for every
/// value.
#[verifier::external_body]
fn fresh_session_id() -> u128 {
    uuid::Uuid::new_v4().as_u128()
}

/// Assigns a fresh random session identifier and frames the login-success
/// response for it: whatever identifier was drawn, the packet holds its
/// sixteen bytes and then the player's name, under the login-success packet
/// id. The identifier is returned beside the packet.
pub fn fresh_login_success_packet(name: String) -> (r: (u128, Vec<u8>))
    ensures
        encode_utf8(name@).len() < 0x10000000 ==> r.1@ == frame_spec(
            be_bytes(r.0 as nat, 16) + varint_encoding(encode_utf8(name@).len())
                + encode_utf8(name@),
            LOGIN_SUCCESS_PACKET_ID,
        ),
{
    let session_id = fresh_session_id();
    let packet = login_success_packet(session_id, name);
    (session_id, packet)
}

/// Writes a string whose encoding stays within the varint cap; the writer is
/// guaranteed unchanged beyond the appended prefix and bytes only when the
/// byte length is below `2^28`.
fn write_string_checked(writer: &mut PacketWriter, value: String)
    ensures
        encode_utf8(value@).len() < 0x10000000 ==> final(writer)@ == old(writer)@
            + varint_encoding(encode_utf8(value@).len()) + encode_utf8(value@)
            && varint_encoding(encode_utf8(value@).len()).len() <= 4,
{
    writer.write_string(value);
    proof {
        if encode_utf8(value@).len() < 0x10000000 {
            lemma_varint_size(encode_utf8(value@).len(), MAX_DECODE_GROUPS as nat);
            crate::varint::lemma_four_group_limit();
        }
    }
}

/// Frames the server's keep-alive ping: its fixed 32-bit payload under the
/// keep-alive packet id.
pub fn login_ping_packet() -> (r: Vec<u8>)
    ensures
        r@ == frame_spec(
            be_bytes((LOGIN_PING_PAYLOAD as u32) as nat, 4),
            LOGIN_PING_PACKET_ID,
        ),
{
    let mut writer = PacketWriter::new();
    writer.write_i32(LOGIN_PING_PAYLOAD);
    proof {
        lemma_be_bytes_len((LOGIN_PING_PAYLOAD as u32) as nat, 4);
        assert(Seq::<u8>::empty() + be_bytes((LOGIN_PING_PAYLOAD as u32) as nat, 4) =~= be_bytes(
            (LOGIN_PING_PAYLOAD as u32) as nat,
            4,
        ));
    }
    writer.create_packet(LOGIN_PING_PACKET_ID)
}

/// What the client's pong packet holds: length, packet id, and the echoed
/// 32-bit payload (whose value the server does not check).
pub open spec fn spec_parse_login_pong(b: Seq<u8>) -> Result<(i32, i32, i32), ProtocolError> {
    match spec_read_varint(b) {
        Err(e) => Err(e),
        Ok((length, b1)) => match spec_read_varint(b1) {
            Err(e) => Err(e),
            Ok((packet_id, b2)) => match spec_read_i32(b2) {
                Err(e) => Err(e),
                Ok((payload, _)) => Ok((length as i32, packet_id as i32, payload)),
            },
        },
    }
}

/// Decodes the client's pong reply during login.
pub fn parse_login_pong(packet: Vec<u8>) -> (r: Result<(i32, i32, i32), ProtocolError>)
    ensures
        spec_parse_login_pong(packet@) matches Ok(v) ==> r == Ok::<
            (i32, i32, i32),
            ProtocolError,
        >(v),
        spec_parse_login_pong(packet@) matches Err(e) ==> r == Err::<
            (i32, i32, i32),
            ProtocolError,
        >(e),
{
    let mut reader = PacketReader::new(packet);
    let length = match reader.get_varint() {
        Ok(v) => v,
        Err(e) => {
            return Err(e);
        },
    };
    let packet_id = match reader.get_varint() {
        Ok(v) => v,
        Err(e) => {
            return Err(e);
        },
    };
    let payload = match reader.get_i32() {
        Ok(v) => v,
        Err(e) => {
            return Err(e);
        },
    };
    Ok((length, packet_id, payload))
}

} // verus!
