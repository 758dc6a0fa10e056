//! A native PCAPNG capture-file engine.
//!
//! PCAPNG is a block-structured binary container for packet captures. Every
//! block carries its type, its total length twice (once at the start, once at
//! the end), and a body padded to a 32-bit boundary. This crate provides:
//!
//! - a block codec that encodes the Section Header / Interface Description
//!   preamble, Enhanced Packet Blocks (with and without a timestamp), and
//!   Custom Blocks carrying an arbitrary payload under a Private Enterprise
//!   Number;
//! - a stream reader that walks a byte stream block by block, validates the
//!   double-length framing, and hands each block to a caller-supplied handler;
//! - a capture handle that ties a byte stream to an access mode (write,
//!   append, read) and guards each operation against the mode it requires.
//!
//! The engine works entirely on in-memory byte streams; opening, reading and
//! writing the backing file is left to the surrounding application.

pub mod codec;
pub mod error;
pub mod pcapng;
pub mod reader;

pub use codec::encode_custom_block;
pub use codec::encode_enhanced_packet;
pub use codec::encode_enhanced_packet_with_time;
pub use codec::encode_section_header;
pub use codec::get_u32_le;
pub use codec::BYTE_ORDER_MAGIC;
pub use codec::CUSTOM_BLOCK_TYPE;
pub use codec::CUSTOM_PAYLOAD_MAX;
pub use codec::EPB_BLOCK_TYPE;
pub use codec::IDB_BLOCK_TYPE;
pub use codec::LINKTYPE_RAW;
pub use codec::PACKET_PAYLOAD_MAX;
pub use codec::PACKET_WITH_TIME_PAYLOAD_MAX;
pub use codec::PCAPNG_PEN;
pub use codec::SHB_BLOCK_TYPE;
pub use error::PcapNgError;
pub use pcapng::PcapNg;
pub use pcapng::PcapNgOpenMode;
pub use reader::decode_block_header;
pub use reader::decode_block_payload;
pub use reader::read_all;
pub use reader::read_all_into;
pub use reader::read_all_blocks;
pub use reader::BlockHandler;
pub use reader::BlockRecord;
pub use reader::NoopBlockHandler;
