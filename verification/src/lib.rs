//! A binary stream reader: typed, fixed-width little-endian decoding over a
//! seekable byte source, with an absolute read cursor.
//!
//! The decoding rules live in [`codec`] as specification functions; [`source`]
//! defines the byte-source abstraction and an in-memory source; [`reader`]
//! holds the reader itself.

pub mod codec;
pub mod reader;
pub mod source;
