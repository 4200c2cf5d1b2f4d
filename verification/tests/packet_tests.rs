use rscraft::error::ProtocolError;
use rscraft::packet::{PacketReader, PacketWriter};

#[test]
fn read_u8_pops_from_front() {
    let mut r = PacketReader::new(vec![0xAB, 0xCD]);
    assert_eq!(r.get_u8(), Ok(0xAB));
    assert_eq!(r.get_u8(), Ok(0xCD));
    assert_eq!(r.get_u8(), Err(ProtocolError::BufferExhausted));
}

#[test]
fn read_u16_big_endian() {
    let mut r = PacketReader::new(vec![0x63, 0xDD]);
    assert_eq!(r.get_u16(), Ok(25565));
}

#[test]
fn read_i32_big_endian() {
    let mut r = PacketReader::new(vec![0x00, 0xE3, 0x12, 0x39]);
    assert_eq!(r.get_i32(), Ok(14881337));
    let mut r = PacketReader::new(vec![0xFF, 0xFF, 0xFF, 0xFF]);
    assert_eq!(r.get_i32(), Ok(-1));
}

#[test]
fn truncated_u16_is_buffer_exhausted() {
    let mut r = PacketReader::new(vec![0x01]);
    assert_eq!(r.get_u16(), Err(ProtocolError::BufferExhausted));
}

#[test]
fn truncated_i32_is_buffer_exhausted() {
    let mut r = PacketReader::new(vec![0x01, 0x02, 0x03]);
    assert_eq!(r.get_i32(), Err(ProtocolError::BufferExhausted));
}

#[test]
fn truncated_string_body_is_buffer_exhausted() {
    // Length prefix says five bytes, only two follow.
    let mut r = PacketReader::new(vec![0x05, b'h', b'i']);
    assert_eq!(r.get_string(), Err(ProtocolError::BufferExhausted));
}

#[test]
fn unterminated_varint_is_packet_parsing() {
    let mut r = PacketReader::new(vec![0x80]);
    assert_eq!(r.get_varint(), Err(ProtocolError::PacketParsing));
}

#[test]
fn invalid_utf8_is_packet_parsing() {
    let mut r = PacketReader::new(vec![0x02, 0xC3, 0x28]);
    assert_eq!(r.get_string(), Err(ProtocolError::PacketParsing));
}

#[test]
fn writer_primitives() {
    let mut w = PacketWriter::new();
    w.write_u8(0x41);
    w.write_i32(14881337);
    w.write_varint(300);
    let packet = w.create_packet(0x00);
    // total = 1 (u8) + 4 (i32) + 2 (varint) + 1 (packet id byte) = 8
    assert_eq!(
        packet,
        vec![0x08, 0x00, 0x41, 0x00, 0xE3, 0x12, 0x39, 0xAC, 0x02]
    );
}

#[test]
fn writer_u128_big_endian() {
    let mut w = PacketWriter::new();
    w.write_u128(0x00112233445566778899AABBCCDDEEFF);
    let packet = w.create_packet(0x02);
    let mut expected = vec![0x11, 0x02];
    expected.extend_from_slice(&[
        0x00, 0x11, 0x22, 0x33, 0x44, 0x55, 0x66, 0x77, 0x88, 0x99, 0xAA, 0xBB, 0xCC, 0xDD,
        0xEE, 0xFF,
    ]);
    assert_eq!(packet, expected);
}

#[test]
fn frame_and_reread_payload() {
    let mut w = PacketWriter::new();
    w.write_u8(1);
    w.write_u8(2);
    w.write_u8(3);
    let packet = w.create_packet(0x1FFFFF);
    // id bytes: FF FF 7F, total = 3 + 3 = 6
    assert_eq!(packet, vec![0x06, 0xFF, 0xFF, 0x7F, 0x01, 0x02, 0x03]);
    let mut r = PacketReader::new(packet);
    assert_eq!(r.get_varint(), Ok(6));
    assert_eq!(r.get_varint(), Ok(0x1FFFFF));
    assert_eq!(r.get_u8(), Ok(1));
    assert_eq!(r.get_u8(), Ok(2));
    assert_eq!(r.get_u8(), Ok(3));
    assert_eq!(r.remaining(), 0);
}

#[test]
fn string_round_trip_ascii() {
    let mut w = PacketWriter::new();
    w.write_string(String::from("hello"));
    let packet = w.create_packet(0x00);
    let mut r = PacketReader::new(packet);
    r.get_varint().unwrap();
    r.get_varint().unwrap();
    let before = r.remaining();
    assert_eq!(r.get_string(), Ok(String::from("hello")));
    // consumed = varint length of the byte length (1) + byte length (5)
    assert_eq!(before - r.remaining(), 6);
}

#[test]
fn string_round_trip_empty() {
    let mut w = PacketWriter::new();
    w.write_string(String::new());
    let mut r = PacketReader::new(w.create_packet(0x00));
    r.get_varint().unwrap();
    r.get_varint().unwrap();
    assert_eq!(r.get_string(), Ok(String::new()));
    assert_eq!(r.remaining(), 0);
}

#[test]
fn string_round_trip_multibyte() {
    let text = "héllo \u{00A7}min\u{00E9}craft \u{1F600}";
    let mut w = PacketWriter::new();
    w.write_string(String::from(text));
    let mut r = PacketReader::new(w.create_packet(0x00));
    r.get_varint().unwrap();
    r.get_varint().unwrap();
    let before = r.remaining();
    assert_eq!(r.get_string(), Ok(String::from(text)));
    assert_eq!(before - r.remaining(), 1 + text.len());
}
