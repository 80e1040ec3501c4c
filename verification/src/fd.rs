use vstd::prelude::*;

use crate::buffer::Buffer;

verus! {

/// A reader that collects what a descriptor yields in a buffer.
pub struct FdReader<B: Buffer> {
    pub buffer: B,
}

} // verus!
