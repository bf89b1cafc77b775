use protowire::buffer::{DecodeBuf, EncodeBuf};
use protowire::{
    decode_length_delimiter, encode_length_delimiter, length_delimiter_len, DecodeError,
    LengthDelimiter, Varint,
};

#[test]
fn delimiter_length_agrees_with_varint() {
    let lengths = [0usize, 1, 127, 128, 300, 16383, 16384, 2097151, usize::MAX];
    for length in lengths {
        let len = length_delimiter_len(length);
        assert_eq!(len, Varint::from(length as u64).encoded_len());
        assert_eq!(len, LengthDelimiter::from(length).encoded_len());
        assert!((1..=10).contains(&len));
    }
}

#[test]
fn capacity_checked_encode_fails_without_room() {
    let mut buf = EncodeBuf::new(1);
    let err = encode_length_delimiter(300, &mut buf).expect_err("1 byte cannot hold 300");
    assert_eq!(err.required_capacity(), 2);
    assert_eq!(err.remaining(), 1);
    assert_eq!(buf.len(), 0);
}

#[test]
fn capacity_checked_encode_succeeds_with_room() {
    let mut buf = EncodeBuf::new(2);
    encode_length_delimiter(300, &mut buf).expect("2 bytes hold 300");
    assert_eq!(buf.len(), 2);
    assert_eq!(buf.as_slice(), &[0xAC, 0x02]);

    let mut cursor = DecodeBuf::new(buf.as_slice().to_vec());
    assert_eq!(decode_length_delimiter(&mut cursor), Ok(300));
    assert_eq!(cursor.remaining(), 0);
}

#[test]
fn delimiter_round_trip() {
    let lengths = [0usize, 1, 127, 128, 300, 16384, usize::MAX];
    for length in lengths {
        let mut buf = EncodeBuf::new(10);
        encode_length_delimiter(length, &mut buf).expect("10 bytes hold any delimiter");
        assert_eq!(buf.len(), length_delimiter_len(length));
        let mut cursor = DecodeBuf::new(buf.as_slice().to_vec());
        assert_eq!(decode_length_delimiter(&mut cursor), Ok(length));
    }
}

#[test]
fn delimiter_rejects_corrupt_varint() {
    let mut cursor = DecodeBuf::new(vec![0xFF, 0xFF]);
    assert_eq!(
        decode_length_delimiter(&mut cursor),
        Err(DecodeError::InvalidVarint)
    );
}
