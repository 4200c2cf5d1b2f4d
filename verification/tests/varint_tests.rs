use rscraft::error::VarintError;
use rscraft::varint;

#[test]
fn encode_small_values() {
    assert_eq!(varint::encode(0), vec![0x00]);
    assert_eq!(varint::encode(1), vec![0x01]);
    assert_eq!(varint::encode(127), vec![0x7F]);
}

#[test]
fn encode_multi_byte_values() {
    assert_eq!(varint::encode(128), vec![0x80, 0x01]);
    assert_eq!(varint::encode(300), vec![0xAC, 0x02]);
    assert_eq!(varint::encode(2097151), vec![0xFF, 0xFF, 0x7F]);
    assert_eq!(varint::encode(0x0FFF_FFFF), vec![0xFF, 0xFF, 0xFF, 0x7F]);
}

#[test]
fn encode_negative_needs_five_groups() {
    assert_eq!(varint::encode(-1), vec![0xFF, 0xFF, 0xFF, 0xFF, 0x0F]);
}

#[test]
fn decode_single_byte() {
    let buf = vec![0x07, 0x99];
    assert_eq!(varint::decode(&buf, 0), Ok((7, 1)));
}

#[test]
fn decode_multi_byte() {
    let buf = vec![0x80, 0x01];
    assert_eq!(varint::decode(&buf, 0), Ok((128, 2)));
    let buf = vec![0xAC, 0x02, 0x55];
    assert_eq!(varint::decode(&buf, 0), Ok((300, 2)));
}

#[test]
fn decode_at_offset() {
    let buf = vec![0x55, 0xAC, 0x02];
    assert_eq!(varint::decode(&buf, 1), Ok((300, 2)));
}

#[test]
fn decode_truncated_input() {
    let buf = vec![0x80];
    assert_eq!(varint::decode(&buf, 0), Err(VarintError::Truncated));
    let empty: Vec<u8> = Vec::new();
    assert_eq!(varint::decode(&empty, 0), Err(VarintError::Truncated));
}

#[test]
fn decode_rejects_fifth_group() {
    // A correctly encoded value that needs a fifth group is out of the
    // representable domain under the four-group cap.
    let buf = varint::encode(-1);
    assert_eq!(varint::decode(&buf, 0), Err(VarintError::Truncated));
    let buf = varint::encode(0x1000_0000);
    assert_eq!(varint::decode(&buf, 0), Err(VarintError::Truncated));
}

#[test]
fn round_trip_representable_values() {
    for v in [
        0,
        1,
        127,
        128,
        300,
        16383,
        16384,
        2097151,
        2097152,
        14881337,
        0x0FFF_FFFF,
    ] {
        let enc = varint::encode(v);
        assert_eq!(varint::decode(&enc, 0), Ok((v, enc.len())));
    }
}
