//! An encoder that writes images as PNG files without compressing them: the
//! pixel rows are framed with the "no filter" tag and carried in stored
//! (uncompressed) deflate blocks inside a zlib stream.
use vstd::prelude::*;

pub mod bytes;
pub mod checksum;
pub mod color;
pub mod decode;
pub mod png;
pub mod stored;

pub use color::Color;
pub use png::{chunk, chunk_len, frame, ode, size, EncodeError};
pub use stored::{deflate, deflate_size, CHUNK_SIZE};

verus! {

} // verus!
