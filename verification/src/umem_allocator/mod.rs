//! Allocators of arena chunks: which chunks are free to be handed out.
//!
//! An allocator serves one arena. It starts with every chunk free, hands out
//! free chunks by index, and takes chunks back. Two allocators are provided:
//! one keeps the free indices in a bounded queue, the other keeps one bit per
//! chunk.
//!
//! Allocating and releasing take an exclusive reference. Threads that share
//! an allocator take turns, for example behind a lock.

use vstd::prelude::*;
use vstd::multiset::Multiset;
use std::sync::Arc;
use crate::umem::Umem;

pub mod atomics;
pub mod chunks;
pub mod queue;

pub use atomics::AtomicBitSetAllocator;
pub use queue::ConcurrentQueueAllocator;

verus! {

/// The allocator to use where nothing speaks for the other one.
pub type DefaultAllocator = ConcurrentQueueAllocator;

/// An allocator of the chunks of one arena.
pub trait UmemAllocator: Sized {
    /// The allocator's state is consistent.
    spec fn wf(&self) -> bool;

    /// The arena whose chunks the allocator hands out.
    spec fn umem(&self) -> Umem;

    /// The chunk indices that are free, each as often as it can be handed
    /// out.
    spec fn free(&self) -> Multiset<usize>;

    /// Whether an allocator of this kind can serve `umem`.
    spec fn supports(umem: &Umem) -> bool;

    /// Whether the allocator takes back chunk `index` in its present state.
    spec fn accepts(&self, index: usize) -> bool;

    /// Every free index is a chunk of the arena, and the arena is well formed;
    /// only chunks of the arena are taken back.
    proof fn lemma_free_in_range(&self)
        requires
            self.wf(),
        ensures
            self.umem().wf(),
            forall|index: usize| #[trigger]
                self.free().count(index) > 0 ==> index < self.umem().spec_num_chunks(),
            forall|index: usize| #[trigger]
                self.accepts(index) ==> index < self.umem().spec_num_chunks(),
    ;

    /// A chunk of the arena that is not free is taken back, as long as no
    /// chunk is free more than once.
    proof fn lemma_accepts_held(&self, index: usize)
        requires
            self.wf(),
            self.free().subset_of(chunks::all_chunks(self.umem().spec_num_chunks() as nat)),
            index < self.umem().spec_num_chunks(),
            self.free().count(index) == 0,
        ensures
            self.accepts(index),
    ;

    /// Whether an allocator of this kind can serve `umem`.
    fn supported(umem: &Umem) -> (r: bool)
        ensures
            r == Self::supports(umem),
    ;

    /// Create an allocator prepopulated with all the chunks in the provided
    /// arena.
    fn for_umem(umem: Arc<Umem>) -> (r: Self)
        requires
            umem.wf(),
            Self::supports(&*umem),
        ensures
            r.wf(),
            r.umem() == *umem,
            r.free() == chunks::all_chunks(umem.spec_num_chunks() as nat),
    ;

    /// Get the arena utilized by this allocator.
    fn umem_reference(&self) -> (r: &Umem)
        requires
            self.wf(),
        ensures
            *r == self.umem(),
            r.wf(),
    ;

    /// Try to allocate a chunk, returning its index.
    ///
    /// Succeeds exactly when a chunk is free; the chunk returned was free and
    /// is free once less afterwards.
    fn try_allocate(&mut self) -> (r: Option<usize>)
        requires
            old(self).wf(),
        ensures
            final(self).wf(),
            final(self).umem() == old(self).umem(),
            r is None <==> old(self).free().len() == 0,
            r is None ==> final(self).free() == old(self).free(),
            r matches Some(index) ==> {
                &&& index < old(self).umem().spec_num_chunks()
                &&& old(self).free().count(index) > 0
                &&& final(self).free() == old(self).free().remove(index)
            },
    ;

    /// Try to release a chunk back to the allocator, provided by its index.
    ///
    /// Succeeds exactly when the allocator accepts the chunk; the chunk is
    /// then free once more, and otherwise nothing changes.
    fn try_release(&mut self, index: usize) -> (r: bool)
        requires
            old(self).wf(),
        ensures
            final(self).wf(),
            final(self).umem() == old(self).umem(),
            r == old(self).accepts(index),
            r ==> final(self).free() == old(self).free().insert(index),
            !r ==> final(self).free() == old(self).free(),
    ;

    /// Release a chunk back to the allocator, provided by its index.
    ///
    /// The allocator must accept the chunk.
    fn release(&mut self, index: usize)
        requires
            old(self).wf(),
            old(self).accepts(index),
        ensures
            final(self).wf(),
            final(self).umem() == old(self).umem(),
            final(self).free() == old(self).free().insert(index),
    {
        let released = self.try_release(index);
        assert(released);
    }

    /// Try to release a chunk back to the allocator, provided by its offset
    /// in the arena.
    fn try_release_offset(&mut self, offset: u64) -> (r: bool)
        requires
            old(self).wf(),
        ensures
            final(self).wf(),
            final(self).umem() == old(self).umem(),
            r == old(self).accepts(old(self).umem().index_of((offset as usize) as int) as usize),
            r ==> final(self).free() == old(self).free().insert(
                old(self).umem().index_of((offset as usize) as int) as usize,
            ),
            !r ==> final(self).free() == old(self).free(),
    {
        let index = self.umem_reference().chunk_index_for_offset(offset);
        self.try_release(index)
    }

    /// Release a chunk back to the allocator, provided by its offset in the
    /// arena.
    ///
    /// The allocator must accept the chunk.
    fn release_offset(&mut self, offset: u64)
        requires
            old(self).wf(),
            old(self).accepts(old(self).umem().index_of((offset as usize) as int) as usize),
        ensures
            final(self).wf(),
            final(self).umem() == old(self).umem(),
            final(self).free() == old(self).free().insert(
                old(self).umem().index_of((offset as usize) as int) as usize,
            ),
    {
        let released = self.try_release_offset(offset);
        assert(released);
    }

    /// The number of free chunks, where the allocator keeps count.
    fn num_available(&self) -> (r: Option<usize>)
        requires
            self.wf(),
        ensures
            r matches Some(count) ==> count == self.free().len(),
    {
        None
    }

    /// The number of chunks handed out, where the allocator keeps count.
    fn num_allocated(&self) -> (r: Option<usize>)
        requires
            self.wf(),
        ensures
            r matches Some(count) ==> count == self.umem().spec_num_chunks() - self.free().len(),
    {
        None
    }
}

/// The free chunks after each of `held` was taken back, in order.
pub open spec fn after_release_of(free: Multiset<usize>, held: Seq<usize>) -> Multiset<usize>
    decreases held.len(),
{
    if held.len() == 0 {
        free
    } else {
        after_release_of(free.insert(held.first()), held.drop_first())
    }
}

/// Taking chunks back adds them to the free ones.
pub proof fn lemma_after_release_of(free: Multiset<usize>, held: Seq<usize>)
    ensures
        after_release_of(free, held) =~= free.add(held.to_multiset()),
    decreases held.len(),
{
    broadcast use vstd::multiset::group_multiset_axioms;

    held.to_multiset_ensures();
    if held.len() == 0 {
        assert(held.to_multiset().len() == 0);
        assert(held.to_multiset() =~= Multiset::empty());
    } else {
        lemma_after_release_of(free.insert(held.first()), held.drop_first());
        held.drop_first().to_multiset_ensures();
        assert(held.remove(0) =~= held.drop_first());
        assert(held.contains(held.first()));
        assert(held.to_multiset() =~= held.drop_first().to_multiset().insert(held.first()));
    }
}

/// Handing a chunk out and taking it back leaves the free chunks as they
/// were.
pub proof fn lemma_release_undoes_allocate(free: Multiset<usize>, index: usize)
    requires
        free.count(index) > 0,
    ensures
        free.remove(index).insert(index) =~= free,
{
    broadcast use vstd::multiset::group_multiset_axioms;

}

/// While every chunk of an arena of `count` chunks is either free or held,
/// once, a held chunk is not free, so that an allocator takes it back.
pub proof fn lemma_held_is_not_free(free: Multiset<usize>, held: Seq<usize>, count: nat)
    requires
        count <= usize::MAX + 1,
        free.add(held.to_multiset()) =~= chunks::all_chunks(count),
        held.len() > 0,
    ensures
        held.first() < count,
        free.count(held.first()) == 0,
        free.subset_of(chunks::all_chunks(count)),
        free.insert(held.first()).add(held.drop_first().to_multiset()) =~= chunks::all_chunks(
            count,
        ),
{
    broadcast use vstd::multiset::group_multiset_axioms;

    chunks::lemma_all_chunks(count);
    held.to_multiset_ensures();
    held.drop_first().to_multiset_ensures();
    assert(held.remove(0) =~= held.drop_first());
    assert(held.contains(held.first()));
    assert(held.to_multiset() =~= held.drop_first().to_multiset().insert(held.first()));
    assert(chunks::all_chunks(count).count(held.first()) >= 1);
}

/// Once every chunk that was handed out has been taken back, all chunks of
/// the arena are free again, each once: as many as the arena has, so that
/// the next allocation succeeds if the arena has a chunk at all.
pub proof fn lemma_all_released(free: Multiset<usize>, held: Seq<usize>, count: nat)
    requires
        count <= usize::MAX + 1,
        free.add(held.to_multiset()) =~= chunks::all_chunks(count),
    ensures
        after_release_of(free, held) =~= chunks::all_chunks(count),
        after_release_of(free, held).len() == count,
{
    lemma_after_release_of(free, held);
    chunks::lemma_all_chunks(count);
}

/// Once an allocator has nothing left to hand out, the chunks it handed out
/// since it was made are all the chunks of the arena, each once.
pub proof fn lemma_drained(free: Multiset<usize>, held: Seq<usize>, count: nat)
    requires
        count <= usize::MAX + 1,
        free.add(held.to_multiset()) =~= chunks::all_chunks(count),
        free.len() == 0,
    ensures
        held.to_multiset() =~= chunks::all_chunks(count),
        held.len() == count,
        held.no_duplicates(),
        forall|index: usize| index < count <==> held.contains(index),
{
    broadcast use vstd::multiset::group_multiset_axioms;

    chunks::lemma_all_chunks(count);
    held.to_multiset_ensures();
    assert(free =~= Multiset::empty());
    assert(held.to_multiset() =~= chunks::all_chunks(count));
    held.lemma_multiset_has_no_duplicates_conv();
    assert forall|index: usize| index < count <==> held.contains(index) by {
        assert(held.contains(index) <==> held.to_multiset().count(index) > 0);
        assert(chunks::all_chunks(count).count(index) == (if index < count {
            1nat
        } else {
            0nat
        }));
    }
}

} // verus!
