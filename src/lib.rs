//! Decoding of MessagePack data: a marker-driven dispatcher that reads one item at a
//! time from a byte source, with zero-copy reads from buffers in memory.
use vstd::prelude::*;

pub mod access;
pub mod de;
pub mod error;
pub mod laws;
pub mod marker;
pub mod read;
pub mod token;

pub use access::{EnumAccess, MapAccess, SeqAccess, UnitVariantAccess, VariantAccess};
pub use de::{utf8_fallback, Deserializer, DEFAULT_MAX_DEPTH};
pub use error::Error;
pub use read::{ByteStream, ReadReader, ReadRefReader, ReadSlice, Reference};
pub use token::{StrRef, Token};

verus! {

} // verus!
