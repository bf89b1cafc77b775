use protowire::buffer::{DecodeBuf, EncodeBuf};
use protowire::varint::{decode_varint_slow, Varint};

fn check(value: u64, encoded: &[u8]) {
    // Exact-size buffer.
    let mut buf = EncodeBuf::new(encoded.len());
    Varint::from(value).encode(&mut buf);
    assert_eq!(buf.as_slice(), encoded);

    // Large buffer.
    let mut buf = EncodeBuf::new(100);
    Varint::from(value).encode(&mut buf);
    assert_eq!(buf.as_slice(), encoded);

    assert_eq!(Varint::from(value).encoded_len(), encoded.len());

    let mut cursor = DecodeBuf::new(encoded.to_vec());
    let roundtrip_value = Varint::decode(&mut cursor).expect("decoding failed");
    assert_eq!(value, u64::from(roundtrip_value));
    assert_eq!(cursor.remaining(), 0);

    let mut cursor = DecodeBuf::new(encoded.to_vec());
    let roundtrip_value = decode_varint_slow(&mut cursor).expect("slow decoding failed");
    assert_eq!(value, roundtrip_value);
    assert_eq!(cursor.remaining(), 0);
}

#[test]
fn varint() {
    check(2u64.pow(0) - 1, &[0x00]);
    check(2u64.pow(0), &[0x01]);

    check(2u64.pow(7) - 1, &[0x7F]);
    check(2u64.pow(7), &[0x80, 0x01]);
    check(300, &[0xAC, 0x02]);

    check(2u64.pow(14) - 1, &[0xFF, 0x7F]);
    check(2u64.pow(14), &[0x80, 0x80, 0x01]);

    check(2u64.pow(21) - 1, &[0xFF, 0xFF, 0x7F]);
    check(2u64.pow(21), &[0x80, 0x80, 0x80, 0x01]);

    check(2u64.pow(28) - 1, &[0xFF, 0xFF, 0xFF, 0x7F]);
    check(2u64.pow(28), &[0x80, 0x80, 0x80, 0x80, 0x01]);

    check(2u64.pow(35) - 1, &[0xFF, 0xFF, 0xFF, 0xFF, 0x7F]);
    check(2u64.pow(35), &[0x80, 0x80, 0x80, 0x80, 0x80, 0x01]);

    check(2u64.pow(42) - 1, &[0xFF, 0xFF, 0xFF, 0xFF, 0xFF, 0x7F]);
    check(2u64.pow(42), &[0x80, 0x80, 0x80, 0x80, 0x80, 0x80, 0x01]);

    check(
        2u64.pow(49) - 1,
        &[0xFF, 0xFF, 0xFF, 0xFF, 0xFF, 0xFF, 0x7F],
    );
    check(
        2u64.pow(49),
        &[0x80, 0x80, 0x80, 0x80, 0x80, 0x80, 0x80, 0x01],
    );

    check(
        2u64.pow(56) - 1,
        &[0xFF, 0xFF, 0xFF, 0xFF, 0xFF, 0xFF, 0xFF, 0x7F],
    );
    check(
        2u64.pow(56),
        &[0x80, 0x80, 0x80, 0x80, 0x80, 0x80, 0x80, 0x80, 0x01],
    );

    check(
        2u64.pow(63) - 1,
        &[0xFF, 0xFF, 0xFF, 0xFF, 0xFF, 0xFF, 0xFF, 0xFF, 0x7F],
    );
    check(
        2u64.pow(63),
        &[0x80, 0x80, 0x80, 0x80, 0x80, 0x80, 0x80, 0x80, 0x80, 0x01],
    );

    check(
        u64::MAX,
        &[0xFF, 0xFF, 0xFF, 0xFF, 0xFF, 0xFF, 0xFF, 0xFF, 0xFF, 0x01],
    );
}

fn u64_max_plus_one() -> Vec<u8> {
    vec![0xFF, 0xFF, 0xFF, 0xFF, 0xFF, 0xFF, 0xFF, 0xFF, 0xFF, 0x02]
}

#[test]
fn varint_overflow() {
    let mut cursor = DecodeBuf::new(u64_max_plus_one());
    Varint::decode(&mut cursor).expect_err("decoding u64::MAX + 1 succeeded");
}

#[test]
fn variant_slow_overflow() {
    let mut cursor = DecodeBuf::new(u64_max_plus_one());
    decode_varint_slow(&mut cursor).expect_err("slow decoding u64::MAX + 1 succeeded");
}

#[test]
fn varint_empty_input_fails() {
    let mut cursor = DecodeBuf::new(Vec::new());
    assert_eq!(
        Varint::decode(&mut cursor),
        Err(protowire::DecodeError::InvalidVarint)
    );
}

#[test]
fn varint_truncated_run_fails() {
    // a continuation byte with no terminator: both paths must reject it
    let mut cursor = DecodeBuf::new(vec![0x80]);
    assert_eq!(
        Varint::decode(&mut cursor),
        Err(protowire::DecodeError::InvalidVarint)
    );
    let mut cursor = DecodeBuf::new(vec![0x80]);
    assert_eq!(
        decode_varint_slow(&mut cursor),
        Err(protowire::DecodeError::InvalidVarint)
    );
}

#[test]
fn varint_eleven_byte_run_fails() {
    // a run that never terminates within 10 bytes is corrupt even when more
    // bytes are available
    let mut cursor = DecodeBuf::new(vec![0x80; 11]);
    assert_eq!(
        Varint::decode(&mut cursor),
        Err(protowire::DecodeError::InvalidVarint)
    );
}

#[test]
fn varint_decode_leaves_trailing_bytes() {
    // decoding consumes exactly the run, whatever follows it
    let mut cursor = DecodeBuf::new(vec![0xAC, 0x02, 0x7F, 0x00]);
    let v = Varint::decode(&mut cursor).unwrap();
    assert_eq!(u64::from(v), 300);
    assert_eq!(cursor.remaining(), 2);
    let v = Varint::decode(&mut cursor).unwrap();
    assert_eq!(u64::from(v), 127);
    assert_eq!(cursor.remaining(), 1);
}
