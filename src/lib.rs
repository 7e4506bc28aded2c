//! Cache-line aligned, padded byte buffers, shared zero-copy views over them,
//! and a bulk copy that streams its writes in aligned chunks.
use vstd::prelude::*;

pub mod buffer;
pub mod buffer_ref;
pub mod cold_load;

pub use buffer::Buffer;
pub use buffer_ref::BufferRef;
pub use cold_load::{cold_copy, copy_portable};

verus! {

/// Alignment of the memory behind a `Buffer`, and the size its allocation is padded to.
pub const ALIGNMENT: usize = 64;

} // verus!
