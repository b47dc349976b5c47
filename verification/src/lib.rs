//! A little-endian binary codec for game-style wire formats: primitive
//! integers and booleans, length-prefixed strings whose prefix sign selects
//! between 8-bit and 16-bit character units, fixed-count element runs, and
//! length-prefixed dynamic sequences.
//!
//! Values are decoded from a [`stream::ByteReader`] and encoded into a
//! [`stream::ByteWriter`]; the wire layout of every codec is pinned down by
//! spec functions (`parse`, `enc`), and the round-trip laws are proved in
//! [`laws`].

pub mod codec;
pub mod containers;
pub mod err;
pub mod laws;
pub mod prim;
pub mod stream;
pub mod text;

pub use crate::codec::{
    enc_seq, parse_seq, read_array, seq_serializable, ReadExt, Readable, ReadableCtx, WriteExt,
    Writeable,
};
pub use crate::err::CodecError;
pub use crate::laws::Lossless;
pub use crate::stream::{ByteReader, ByteWriter};
pub use crate::text::{read_string, write_string};
