//! Decoder for DNS messages in RFC 1035 wire format: a 12-byte header, one
//! question, and zero or more answer resource records, with support for
//! domain-name compression pointers.
//!
//! The decoder is pure computation over an in-memory byte buffer: bytes in,
//! structured message (or a decode error) out.

pub mod cache;
pub mod cursor;
pub mod decode;
pub mod error;
pub mod label;
pub mod laws;
pub mod message;
pub mod model;

pub use cache::NameCache;
pub use cursor::Buffer;
pub use decode::bits_set;
pub use decode::encode_header;
pub use decode::parse_header;
pub use decode::parse_message;
pub use decode::parse_resource_records;
pub use decode::parse_name;
pub use decode::parse_question;
pub use error::DecodeError;
pub use message::Header;
pub use message::Ipv4Address;
pub use message::Message;
pub use message::Question;
pub use message::ResourceData;
pub use message::ResourceRecord;
