//! Decoding and encoding of the class-file format: a position-tracking cursor
//! over input bytes, the constant pool with typed indices, and output buffers
//! that support appending, splicing and patching of reserved fields.

pub mod bigendian;
pub mod error;
pub mod header;
pub mod mutf8;
pub mod reader;
pub mod text;
pub mod writer;
