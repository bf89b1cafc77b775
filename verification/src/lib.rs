//! Wire-format encoding core of a Protocol-Buffers-compatible serialization
//! library: the LEB128 varint codec, field numbers, wire types, tags,
//! length delimiters, the decode/encode error taxonomy, and the type-erased
//! `Any` container.
//!
//! Every encoder states the exact byte sequence it appends, every decoder
//! states exactly on which inputs it succeeds and what it returns, and the
//! round-trip laws are proved as lemmas next to the functions they relate.

pub mod any;
pub mod buffer;
pub mod error;
pub mod field_number;
pub mod length_delimiter;
pub mod tag;
pub mod varint;
pub mod wire_type;

pub use any::Any;
pub use any::DecodeAnyError;
pub use any::Message;
pub use any::Name;
pub use buffer::DecodeBuf;
pub use buffer::EncodeBuf;
pub use error::DecodeError;
pub use error::EncodeError;
pub use error::UnknownEnumValue;
pub use field_number::FieldNumber;
pub use length_delimiter::LengthDelimiter;
pub use length_delimiter::decode_length_delimiter;
pub use length_delimiter::encode_length_delimiter;
pub use length_delimiter::length_delimiter_len;
pub use tag::Tag;
pub use varint::Varint;
pub use wire_type::WireType;
