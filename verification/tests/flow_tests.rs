use rscraft::chat::ChatMessage;
use rscraft::connection::{
    build_status_response, dispatch, fresh_login_success_packet, login_ping_packet,
    login_success_packet, parse_handshake, parse_login_pong, parse_login_start,
    parse_status_request, pong_reply, status_response_packet, NextState, LOGIN_PING_PAYLOAD,
};
use rscraft::error::ProtocolError;
use rscraft::packet::{PacketReader, PacketWriter};

fn handshake_packet(next_state: i32) -> Vec<u8> {
    let mut w = PacketWriter::new();
    w.write_varint(758);
    w.write_string(String::from("localhost"));
    w.write_u8(0x63);
    w.write_u8(0xDD);
    w.write_varint(next_state);
    w.create_packet(0x00)
}

#[test]
fn handshake_fields_decode() {
    let h = parse_handshake(handshake_packet(1)).unwrap();
    assert_eq!(h.packet_id, 0);
    assert_eq!(h.protocol_version, 758);
    assert_eq!(h.server_address, "localhost");
    assert_eq!(h.server_port, 25565);
    assert_eq!(h.next_state, 1);
}

#[test]
fn handshake_dispatch_routes() {
    let status = parse_handshake(handshake_packet(1)).unwrap();
    assert_eq!(dispatch(status.next_state), NextState::Status);
    let login = parse_handshake(handshake_packet(2)).unwrap();
    assert_eq!(dispatch(login.next_state), NextState::Login);
    let other = parse_handshake(handshake_packet(7)).unwrap();
    assert_eq!(dispatch(other.next_state), NextState::Dropped);
    assert_eq!(dispatch(0), NextState::Dropped);
    assert_eq!(dispatch(-2), NextState::Dropped);
}

#[test]
fn truncated_handshake_is_an_error() {
    let full = handshake_packet(1);
    let short = full[..5].to_vec();
    assert!(matches!(
        parse_handshake(short),
        Err(ProtocolError::BufferExhausted)
    ));
}

#[test]
fn status_request_decodes() {
    let w = PacketWriter::new();
    let packet = w.create_packet(0x00);
    assert_eq!(packet, vec![0x01, 0x00]);
    assert_eq!(parse_status_request(packet), Ok((1, 0)));
}

#[test]
fn status_response_values() {
    let r = build_status_response();
    assert_eq!(r.version.name, "ULE");
    assert_eq!(r.version.protocol, 758);
    assert_eq!(r.players.max, 88);
    assert_eq!(r.players.online, 14);
    assert!(r.players.sample.is_empty());
    assert_eq!(r.description.text, "o4ko");
    assert_eq!(r.description.bold, "");
    assert!(r.description.extra.is_empty());
}

#[test]
fn status_response_packet_frames_json() {
    let packet = status_response_packet(String::from("{}"));
    assert_eq!(packet, vec![0x04, 0x00, 0x02, b'{', b'}']);
}

#[test]
fn status_echo_returns_identical_bytes() {
    let ping = vec![0x09, 0x01, 0xDE, 0xAD, 0xBE, 0xEF, 0x00, 0x7F, 0x80, 0xFF];
    let pong = pong_reply(ping.clone());
    assert_eq!(pong, ping);
}

#[test]
fn chat_escape_convention() {
    let m = ChatMessage::text(String::from("a&b"));
    assert_eq!(m.text, "a\u{00A7}b");
    assert_eq!(m.bold, "");
    assert!(m.extra.is_empty());
}

#[test]
fn chat_str_and_bold() {
    let mut m = ChatMessage::str("&a&lJOPPA!");
    assert_eq!(m.text, "\u{00A7}a\u{00A7}lJOPPA!");
    m.set_bold(true);
    assert_eq!(m.bold, "true");
    m.set_bold(false);
    assert_eq!(m.bold, "false");
}

#[test]
fn login_start_decodes() {
    let mut w = PacketWriter::new();
    w.write_string(String::from("Steve"));
    let login = parse_login_start(w.create_packet(0x00)).unwrap();
    assert_eq!(login.length, 7);
    assert_eq!(login.packet_id, 0);
    assert_eq!(login.name, "Steve");
}

#[test]
fn login_flow_scenario() {
    // Client sends login-start with name "Steve".
    let mut w = PacketWriter::new();
    w.write_string(String::from("Steve"));
    let start = parse_login_start(w.create_packet(0x00)).unwrap();
    assert_eq!(start.name, "Steve");

    // Server responds with the 16-byte identifier and the name under 0x02.
    let id: u128 = 0x00112233445566778899AABBCCDDEEFF;
    let success = login_success_packet(id, start.name);
    let mut expected = vec![0x17, 0x02];
    expected.extend_from_slice(&[
        0x00, 0x11, 0x22, 0x33, 0x44, 0x55, 0x66, 0x77, 0x88, 0x99, 0xAA, 0xBB, 0xCC, 0xDD,
        0xEE, 0xFF,
    ]);
    expected.extend_from_slice(&[0x05, b'S', b't', b'e', b'v', b'e']);
    assert_eq!(success, expected);

    // Then a 4-byte payload 14881337 framed under 0x30.
    let ping = login_ping_packet();
    assert_eq!(ping, vec![0x05, 0x30, 0x00, 0xE3, 0x12, 0x39]);

    // The client replies with any 4-byte integer; its value is not checked.
    let mut w = PacketWriter::new();
    w.write_i32(-123456);
    let pong = parse_login_pong(w.create_packet(0x00)).unwrap();
    assert_eq!(pong, (5, 0, -123456));
}

#[test]
fn login_pong_truncated_is_buffer_exhausted() {
    let mut w = PacketWriter::new();
    w.write_u8(0xAA);
    assert_eq!(
        parse_login_pong(w.create_packet(0x00)),
        Err(ProtocolError::BufferExhausted)
    );
}

#[test]
fn login_ping_payload_reads_back() {
    let ping = login_ping_packet();
    let mut r = PacketReader::new(ping);
    assert_eq!(r.get_varint(), Ok(5));
    assert_eq!(r.get_varint(), Ok(0x30));
    assert_eq!(r.get_i32(), Ok(LOGIN_PING_PAYLOAD));
    assert_eq!(r.remaining(), 0);
}

#[test]
fn fresh_login_success_packet_carries_id_and_name() {
    let (id, packet) = fresh_login_success_packet(String::from("Steve"));
    assert_eq!(packet, login_success_packet(id, String::from("Steve")));
    let mut r = PacketReader::new(packet);
    assert_eq!(r.get_varint(), Ok(23));
    assert_eq!(r.get_varint(), Ok(0x02));
    let mut read_id: u128 = 0;
    for _ in 0..16 {
        read_id = (read_id << 8) | r.get_u8().unwrap() as u128;
    }
    assert_eq!(read_id, id);
    assert_eq!(r.get_string(), Ok(String::from("Steve")));
    assert_eq!(r.remaining(), 0);
}

#[test]
fn error_descriptions() {
    assert_eq!(ProtocolError::BufferExhausted.describe(), "buffer exhausted");
    assert_eq!(ProtocolError::PacketParsing.describe(), "packet parsing failed");
    assert_eq!(ProtocolError::StreamError.describe(), "stream error");
}
