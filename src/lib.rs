//! Zero-copy, bounds-checked reading of binary formats.
//!
//! A [`read::ReadScope`] is an immutable view of a byte range, a
//! [`read::ReadCtxt`] walks one sequentially, fixed-size element types decode
//! through the [`read::ReadUnchecked`] / [`read::ReadBinary`] pair, and
//! [`read::ReadArray`] is a lazy view over a run of fixed-stride elements.
use vstd::prelude::*;

pub mod error;
pub mod owned;
pub mod read;

use crate::read::{ReadArray, ReadScope, U32Be};

verus! {

/// A table whose bitmap sizes are a run of big-endian `u32`s.
pub struct TestTable<'a> {
    bitmap_sizes: ReadArray<'a, U32Be>,
}

/// A table kept as the scope of its bytes.
pub struct WorkingTable<'a> {
    data: ReadScope<'a>,
}

} // verus!
