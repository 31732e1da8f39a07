//! The UMEM: a contiguous arena of equally sized frame chunks.
//!
//! `Umem` is the arena's shape, and the arithmetic between chunk indices and
//! byte offsets. The arena's memory is mapped by the caller, who hands its
//! bytes to the functions that read and write frames.

use vstd::prelude::*;
use crate::error::Error;

verus! {

/// Chunk size of a 2 KiB arena, in bytes.
pub const CHUNK_SIZE_2K: usize = 2048;

/// Chunk size of a 4 KiB arena, in bytes.
pub const CHUNK_SIZE_4K: usize = 4096;

/// Whether `chunk_size` is one of the two supported chunk sizes.
pub open spec fn supported_chunk_size(chunk_size: int) -> bool {
    chunk_size == 2048 || chunk_size == 4096
}

/// What the call that maps the arena's memory came to: the address of the
/// memory, or an allocation failure where the call returned no address.
pub fn mapping_outcome(address: usize) -> (r: Result<usize, Error>)
    ensures
        address != 0 && address != usize::MAX ==> r is Ok && r->Ok_0 == address,
        address == 0 || address == usize::MAX ==> r is Err && r->Err_0
            == Error::MemoryAllocationFailure,
{
    if address == usize::MAX || address == 0 {
        return Err(Error::MemoryAllocationFailure);
    }
    Ok(address)
}

/// Whether `address` is a multiple of `alignment`, a page size.
pub fn is_aligned(address: usize, alignment: usize) -> (r: bool)
    requires
        alignment > 0,
    ensures
        r == (address as int % alignment as int == 0),
{
    address % alignment == 0
}

/// The shape of a frame arena: `num_chunks` chunks of `chunk_size` bytes each.
///
/// The shape is fixed at construction.
pub struct Umem {
    chunk_size: usize,
    num_chunks: usize,
}

impl Umem {
    /// Size of one chunk, in bytes.
    pub closed spec fn spec_chunk_size(&self) -> usize {
        self.chunk_size
    }

    /// Number of chunks.
    pub closed spec fn spec_num_chunks(&self) -> usize {
        self.num_chunks
    }

    /// Size of the whole arena, in bytes.
    pub open spec fn spec_memory_size(&self) -> int {
        self.spec_chunk_size() * self.spec_num_chunks()
    }

    /// Offset of the start of chunk `index` from the start of the arena.
    pub open spec fn offset_of(&self, index: int) -> int {
        self.spec_chunk_size() * index
    }

    /// Index of the chunk that holds the byte at `offset`.
    pub open spec fn index_of(&self, offset: int) -> int {
        offset / (self.spec_chunk_size() as int)
    }

    /// A well-formed arena has a supported chunk size and fits the address space.
    pub open spec fn wf(&self) -> bool {
        &&& supported_chunk_size(self.spec_chunk_size() as int)
        &&& self.spec_memory_size() <= usize::MAX
    }

    /// Describes an arena of `num_chunks` chunks of 2048 bytes.
    ///
    /// Fails with `MemoryAllocationFailure` exactly when the arena would not
    /// fit the address space.
    pub fn new_2k(num_chunks: usize) -> (r: Result<Self, Error>)
        ensures
            2048 * num_chunks <= usize::MAX ==> r is Ok,
            2048 * num_chunks > usize::MAX ==> r is Err && r->Err_0
                == Error::MemoryAllocationFailure,
            r matches Ok(umem) ==> umem.wf() && umem.spec_chunk_size() == 2048
                && umem.spec_num_chunks() == num_chunks,
    {
        Self::new(CHUNK_SIZE_2K, num_chunks)
    }

    /// Describes an arena of `num_chunks` chunks of 4096 bytes.
    ///
    /// Fails with `MemoryAllocationFailure` exactly when the arena would not
    /// fit the address space.
    pub fn new_4k(num_chunks: usize) -> (r: Result<Self, Error>)
        ensures
            4096 * num_chunks <= usize::MAX ==> r is Ok,
            4096 * num_chunks > usize::MAX ==> r is Err && r->Err_0
                == Error::MemoryAllocationFailure,
            r matches Ok(umem) ==> umem.wf() && umem.spec_chunk_size() == 4096
                && umem.spec_num_chunks() == num_chunks,
    {
        Self::new(CHUNK_SIZE_4K, num_chunks)
    }

    fn new(chunk_size: usize, num_chunks: usize) -> (r: Result<Self, Error>)
        requires
            supported_chunk_size(chunk_size as int),
        ensures
            chunk_size * num_chunks <= usize::MAX ==> r is Ok,
            chunk_size * num_chunks > usize::MAX ==> r is Err && r->Err_0
                == Error::MemoryAllocationFailure,
            r matches Ok(umem) ==> umem.wf() && umem.spec_chunk_size() == chunk_size
                && umem.spec_num_chunks() == num_chunks,
    {
        match chunk_size.checked_mul(num_chunks) {
            Some(_) => Ok(Self { chunk_size, num_chunks }),
            None => Err(Error::MemoryAllocationFailure),
        }
    }

    /// How big in bytes an individual chunk is.
    pub fn chunk_size(&self) -> (r: usize)
        ensures
            r == self.spec_chunk_size(),
    {
        self.chunk_size
    }

    /// How big the whole arena is, in bytes.
    pub fn memory_size(&self) -> (r: usize)
        requires
            self.wf(),
        ensures
            r == self.spec_memory_size(),
    {
        self.chunk_size * self.num_chunks
    }

    /// How many chunks the arena holds.
    pub fn num_chunks(&self) -> (r: usize)
        ensures
            r == self.spec_num_chunks(),
    {
        self.num_chunks
    }

    /// Given a chunk index, the offset from the start of the arena at which
    /// that chunk starts.
    pub fn chunk_start_offset_for_index(&self, index: usize) -> (r: u64)
        requires
            self.wf(),
            index < self.spec_num_chunks(),
        ensures
            r == self.offset_of(index as int),
            r < self.spec_memory_size(),
    {
        proof {
            self.lemma_index_of_offset_of(index as int);
        }
        (self.chunk_size * index) as u64
    }

    /// Given an offset into the arena, the index of the chunk that holds it.
    pub fn chunk_index_for_offset(&self, offset: u64) -> (r: usize)
        requires
            self.wf(),
        ensures
            r == self.index_of((offset as usize) as int),
            offset < self.spec_memory_size() ==> r == self.index_of(offset as int) && r
                < self.spec_num_chunks(),
    {
        let within: usize = #[verifier::truncate] (offset as usize);
        proof {
            if offset < self.spec_memory_size() {
                assert(within == offset);
                self.lemma_index_in_range(offset as int);
            }
        }
        within / self.chunk_size
    }

    /// An offset below the arena's size lies in one of its chunks.
    pub proof fn lemma_index_in_range(&self, offset: int)
        requires
            self.wf(),
            0 <= offset < self.spec_memory_size(),
        ensures
            0 <= self.index_of(offset) < self.spec_num_chunks(),
    {
        let chunk_size = self.spec_chunk_size() as int;
        let num_chunks = self.spec_num_chunks() as int;
        assert(0 <= offset / chunk_size < num_chunks) by (nonlinear_arith)
            requires
                chunk_size > 0,
                0 <= offset < chunk_size * num_chunks,
        ;
    }

    /// For every chunk of the arena, the chunk that holds the chunk's first
    /// byte is that chunk; and that byte lies inside the arena.
    pub proof fn lemma_index_of_offset_of(&self, index: int)
        requires
            self.wf(),
            0 <= index < self.spec_num_chunks(),
        ensures
            self.index_of(self.offset_of(index)) == index,
            0 <= self.offset_of(index) < self.spec_memory_size(),
            self.offset_of(index) % (self.spec_chunk_size() as int) == 0,
    {
        let chunk_size = self.spec_chunk_size() as int;
        let num_chunks = self.spec_num_chunks() as int;
        assert((chunk_size * index) / chunk_size == index && (chunk_size * index) % chunk_size
            == 0) by (nonlinear_arith)
            requires
                chunk_size > 0,
                0 <= index,
        ;
        assert(0 <= chunk_size * index < chunk_size * num_chunks) by (nonlinear_arith)
            requires
                chunk_size > 0,
                0 <= index < num_chunks,
        ;
    }

    /// For every chunk-aligned offset inside the arena, the chunk that holds
    /// it starts at that offset.
    pub proof fn lemma_offset_of_index_of(&self, offset: int)
        requires
            self.wf(),
            0 <= offset < self.spec_memory_size(),
            offset % (self.spec_chunk_size() as int) == 0,
        ensures
            self.offset_of(self.index_of(offset)) == offset,
            0 <= self.index_of(offset) < self.spec_num_chunks(),
    {
        let chunk_size = self.spec_chunk_size() as int;
        self.lemma_index_in_range(offset);
        assert(chunk_size * (offset / chunk_size) == offset) by (nonlinear_arith)
            requires
                chunk_size > 0,
                offset % chunk_size == 0,
        ;
    }
}

} // verus!
