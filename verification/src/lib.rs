//! Verified codec and streaming parser for the UBX binary wire protocol.
//!
//! A frame on the wire is: two sync bytes (`0xB5`, `0x62`), a class byte, an
//! id byte, a little-endian 16-bit payload length, the payload, and a
//! two-byte Fletcher-style checksum computed over class, id, length and
//! payload.  Message payloads are described by declarative [`schema`]s
//! (ordered fixed-width fields, optionally mapped to enums); the field
//! [`codec`] turns a schema into byte-exact encode/decode routines, the
//! [`parser`] turns an arbitrarily fragmented byte stream into framed,
//! checksum-verified, schema-dispatched messages, and the [`generator`]
//! derives valid and chaos payload samplers from the same schema for
//! differential testing.

pub mod checksum;
pub mod codec;
pub mod enums;
pub mod errors;
pub mod frame;
pub mod generator;
pub mod parser;
pub mod schema;
pub mod wire;

pub use checksum::calculate_checksum;
pub use frame::build_ubx_frame;
