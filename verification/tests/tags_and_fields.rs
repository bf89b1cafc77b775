use protowire::buffer::{DecodeBuf, EncodeBuf};
use protowire::{DecodeError, FieldNumber, Tag, WireType};

#[test]
fn field_number_boundaries() {
    assert_eq!(
        FieldNumber::try_new(0),
        Err(DecodeError::InvalidFieldNumber { value: 0 })
    );
    assert_eq!(
        FieldNumber::try_new(1 << 29),
        Err(DecodeError::InvalidFieldNumber { value: 1 << 29 })
    );
    let max = FieldNumber::try_new((1 << 29) - 1).unwrap();
    assert_eq!(max.into_inner(), (1u32 << 29) - 1);
    assert_eq!(FieldNumber::new(1).into_inner(), 1);
    assert_eq!(FieldNumber::new((1 << 29) - 1), max);
}

#[test]
fn tag_round_trip_all_wire_types() {
    let wire_types = [
        WireType::Varint,
        WireType::Fixed64,
        WireType::LengthDelimited,
        WireType::StartGroup,
        WireType::EndGroup,
        WireType::Fixed32,
    ];
    let field_numbers = [1u32, 2, 15, 16, 100, 2047, 2048, 262143, 262144, (1 << 29) - 1];
    for wire_type in wire_types {
        for field_number in field_numbers {
            let tag = Tag::new(FieldNumber::new(field_number), wire_type);
            let mut buf = EncodeBuf::new(10);
            tag.encode(&mut buf);
            assert_eq!(buf.len(), tag.encoded_len());
            let mut cursor = DecodeBuf::new(buf.as_slice().to_vec());
            let decoded = Tag::decode(&mut cursor).expect("tag decoding failed");
            assert_eq!(decoded, tag);
            assert_eq!(cursor.remaining(), 0);
        }
    }
}

#[test]
fn one_byte_tag_for_small_field_numbers() {
    // fields 1 to 15 pack with the wire type into a single byte
    let tag = Tag::new(FieldNumber::new(15), WireType::LengthDelimited);
    assert_eq!(tag.encoded_len(), 1);
    let mut buf = EncodeBuf::new(1);
    tag.encode(&mut buf);
    assert_eq!(buf.as_slice(), &[0x7A]);
}

#[test]
fn tag_rejects_field_number_zero() {
    let mut cursor = DecodeBuf::new(vec![0x00]);
    assert_eq!(
        Tag::decode(&mut cursor),
        Err(DecodeError::InvalidFieldNumber { value: 0 })
    );
}

#[test]
fn tag_rejects_wire_types_six_and_seven() {
    // field number 1 with the two illegal 3-bit codes
    let mut cursor = DecodeBuf::new(vec![0x0E]);
    assert_eq!(
        Tag::decode(&mut cursor),
        Err(DecodeError::InvalidWireType { value: 6 })
    );
    let mut cursor = DecodeBuf::new(vec![0x0F]);
    assert_eq!(
        Tag::decode(&mut cursor),
        Err(DecodeError::InvalidWireType { value: 7 })
    );
}

#[test]
fn tag_rejects_key_above_32_bits() {
    // the varint encoding of 2^32
    let mut cursor = DecodeBuf::new(vec![0x80, 0x80, 0x80, 0x80, 0x10]);
    assert_eq!(
        Tag::decode(&mut cursor),
        Err(DecodeError::InvalidKey { value: 1 << 32 })
    );
}

#[test]
fn tag_rejects_corrupt_key_varint() {
    let mut cursor = DecodeBuf::new(vec![0x80]);
    assert_eq!(Tag::decode(&mut cursor), Err(DecodeError::InvalidVarint));
}
