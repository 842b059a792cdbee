//! The binary codec.
//!
//! A packed value lives in one byte buffer. Its *fixed region* has a size
//! known from its type alone; whatever has a variable size is appended to the
//! *dynamic region* at the end of the buffer and reached through a
//! [`PackPointer`] stored in the fixed region.

pub mod buffer;
pub mod endian;
pub mod extern_types;
pub mod generics;
pub mod laws;
pub mod numbers;
pub mod pack;
pub mod pack_pointer;
pub mod text;
pub mod packer;
pub mod packer_format;
pub mod unpacker;

pub use extern_types::{Date, TimeOfDay, Timestamp, Ulid};
pub use pack::{Pack, RoundTrip, Unpack};
pub use pack_pointer::PackPointer;
pub use packer::{BytePacker, FieldPacker};
pub use packer_format::{FieldWithPointer, PackerField, PackerFormat};
pub use unpacker::{ByteUnpacker, FieldUnpacker};
