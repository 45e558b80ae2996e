use vstd::prelude::*;

verus! {

/// Bytes in one page of DMA memory.
pub const PAGE_SIZE: usize = 4096;

/// The DMA policy of the kernel: buffers are page-aligned, zeroed heap
/// memory, identity-mapped.
pub struct VirtIOHal {}

impl VirtIOHal {
    /// Bytes to allocate for `pages` pages of DMA memory.
    pub fn dma_size(pages: usize) -> (size: usize)
        requires
            pages * PAGE_SIZE <= isize::MAX - (PAGE_SIZE - 1),
        ensures
            size == pages * PAGE_SIZE,
    {
        pages * PAGE_SIZE
    }
}

} // verus!
