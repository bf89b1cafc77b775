use protowire::any::{Any, DecodeAnyError, Message, Name};
use protowire::buffer::{DecodeBuf, EncodeBuf};
use protowire::{DecodeError, FieldNumber, Tag, Varint, WireType};

#[derive(Debug, Clone, Copy, PartialEq, Eq, Default)]
struct Timestamp {
    seconds: i64,
    nanos: i32,
}

impl Timestamp {
    /// Midnight UTC at the given civil date.
    fn date(year: i64, month: u8, day: u8) -> Result<Timestamp, ()> {
        if !(1..=12).contains(&month) || !(1..=31).contains(&day) {
            return Err(());
        }
        let y = if month <= 2 { year - 1 } else { year };
        let era = if y >= 0 { y } else { y - 399 } / 400;
        let yoe = y - era * 400;
        let mp = i64::from((month + 9) % 12);
        let doy = (153 * mp + 2) / 5 + i64::from(day) - 1;
        let doe = yoe * 365 + yoe / 4 - yoe / 100 + doy;
        let days = era * 146097 + doe - 719468;
        Ok(Timestamp { seconds: days * 86400, nanos: 0 })
    }
}

fn encode_varint_field(buf: &mut EncodeBuf, field: u32, value: u64) {
    Tag::new(FieldNumber::new(field), WireType::Varint).encode(buf);
    Varint::from(value).encode(buf);
}

fn decode_two_varint_fields(bytes: &[u8]) -> Result<(u64, u64), DecodeError> {
    let mut buf = DecodeBuf::new(bytes.to_vec());
    let mut first = 0u64;
    let mut second = 0u64;
    while buf.remaining() > 0 {
        let tag = Tag::decode(&mut buf)?;
        let value = u64::from(Varint::decode(&mut buf)?);
        match tag.field_number.into_inner() {
            1 => first = value,
            2 => second = value,
            _ => {}
        }
    }
    Ok((first, second))
}

impl Name for Timestamp {
    fn spec_type_url() -> vstd::prelude::Seq<char> {
        panic!("specification-only item")
    }

    fn type_url() -> String {
        "type.googleapis.com/google.protobuf.Timestamp".to_owned()
    }
}

impl Message for Timestamp {
    fn spec_encoding(&self) -> vstd::prelude::Seq<u8> {
        panic!("specification-only item")
    }

    fn encode_to_vec(&self) -> Vec<u8> {
        let mut buf = EncodeBuf::new(22);
        encode_varint_field(&mut buf, 1, self.seconds as u64);
        encode_varint_field(&mut buf, 2, self.nanos as u32 as u64);
        buf.as_slice().to_vec()
    }

    fn decode_from(bytes: &[u8]) -> Result<Timestamp, DecodeError> {
        let (seconds, nanos) = decode_two_varint_fields(bytes)?;
        Ok(Timestamp { seconds: seconds as i64, nanos: nanos as u32 as i32 })
    }
}

#[derive(Debug, Clone, Copy, PartialEq, Eq, Default)]
struct Duration {
    seconds: i64,
    nanos: i32,
}

impl Name for Duration {
    fn spec_type_url() -> vstd::prelude::Seq<char> {
        panic!("specification-only item")
    }

    fn type_url() -> String {
        "type.googleapis.com/google.protobuf.Duration".to_owned()
    }
}

impl Message for Duration {
    fn spec_encoding(&self) -> vstd::prelude::Seq<u8> {
        panic!("specification-only item")
    }

    fn encode_to_vec(&self) -> Vec<u8> {
        let mut buf = EncodeBuf::new(22);
        encode_varint_field(&mut buf, 1, self.seconds as u64);
        encode_varint_field(&mut buf, 2, self.nanos as u32 as u64);
        buf.as_slice().to_vec()
    }

    fn decode_from(bytes: &[u8]) -> Result<Duration, DecodeError> {
        let (seconds, nanos) = decode_two_varint_fields(bytes)?;
        Ok(Duration { seconds: seconds as i64, nanos: nanos as u32 as i32 })
    }
}

#[test]
fn check_any_serialization() {
    let message = Timestamp::date(2000, 1, 1).unwrap();
    let any = Any::from_msg(&message).unwrap();
    assert_eq!(
        &any.type_url,
        "type.googleapis.com/google.protobuf.Timestamp"
    );

    let message2 = any.to_msg::<Timestamp>().unwrap();
    assert_eq!(message, message2);

    // Wrong type URL
    assert!(any.to_msg::<Duration>().is_err());
}

#[test]
fn mismatched_type_url_carries_both_urls() {
    let message = Timestamp::date(2000, 1, 1).unwrap();
    let any = Any::from_msg(&message).unwrap();
    match any.to_msg::<Duration>() {
        Err(DecodeAnyError::UnexpectedTypeUrl { actual, expected }) => {
            assert_eq!(actual, "type.googleapis.com/google.protobuf.Timestamp");
            assert_eq!(expected, "type.googleapis.com/google.protobuf.Duration");
        }
        other => panic!("expected a type URL mismatch, got {:?}", other),
    }
}

#[test]
fn malformed_type_url_never_matches() {
    let message = Timestamp::date(2000, 1, 1).unwrap();
    let encoded = message.encode_to_vec();

    // no slash at all
    let any = Any {
        type_url: "google.protobuf.Timestamp".to_owned(),
        value: encoded.clone(),
    };
    assert!(matches!(
        any.to_msg::<Timestamp>(),
        Err(DecodeAnyError::UnexpectedTypeUrl { .. })
    ));

    // nothing after the last slash
    let any = Any {
        type_url: "type.googleapis.com/".to_owned(),
        value: encoded,
    };
    assert!(matches!(
        any.to_msg::<Timestamp>(),
        Err(DecodeAnyError::UnexpectedTypeUrl { .. })
    ));
}

#[test]
fn matching_url_with_corrupt_bytes_reports_decode_error() {
    let any = Any {
        type_url: "type.googleapis.com/google.protobuf.Timestamp".to_owned(),
        value: vec![0x08, 0xFF],
    };
    assert_eq!(
        any.to_msg::<Timestamp>(),
        Err(DecodeAnyError::Decode(DecodeError::InvalidVarint))
    );
}

#[test]
fn any_names_itself() {
    assert_eq!(
        Any::type_url(),
        "type.googleapis.com/google.protobuf.Any"
    );
}
