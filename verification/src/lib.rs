//! Codec for the Intel HEX (IHEX) object-file text format.
//!
//! The crate parses hexadecimal record lines into structured [`Record`]
//! values, serializes records back into their exact textual form, validates
//! per-record checksums, and flattens a record stream into a contiguous
//! binary image with explicit address-base tracking.

pub mod checksum;
pub mod hex;
pub mod hextobin;
pub mod reader;
pub mod record;
pub mod writer;

pub use crate::hextobin::convert_to_bytes;
pub use crate::hextobin::get_address_space;
pub use crate::hextobin::BinaryData;
pub use crate::reader::Reader;
pub use crate::reader::ReaderError;
pub use crate::record::Record;
pub use crate::writer::create_object_file_representation;
