//! The queue allocator: the free chunk indices wait in a bounded queue, and
//! are handed out first in, first out.

use vstd::prelude::*;
use vstd::multiset::Multiset;
use std::sync::Arc;
use crossbeam::queue::ArrayQueue;
use crate::umem::Umem;
use crate::umem_allocator::chunks::{all_chunks, lemma_all_chunks};
use crate::umem_allocator::UmemAllocator;

verus! {

/// The bounded queue of `crossbeam`, whose inside Verus does not see.
#[verifier::external_type_specification]
#[verifier::external_body]
#[verifier::reject_recursive_types(T)]
pub struct ExArrayQueue<T>(ArrayQueue<T>);

/// The items that wait in a queue, the oldest first.
pub uninterp spec fn queue_items(queue: ArrayQueue<usize>) -> Seq<usize>;

/// The number of items that a queue was made to hold.
pub uninterp spec fn queue_limit(queue: ArrayQueue<usize>) -> nat;

/// Most items that a queue can be made for: its buffer of 16-byte slots must
/// not exceed the largest allocation.
pub open spec fn max_queue_limit() -> int {
    isize::MAX / 16
}

/// Calls `ArrayQueue::new`, which allocates a buffer of `capacity` slots and
/// refuses a capacity of zero or one whose buffer cannot be allocated. The
/// new queue is claimed to be empty and to have that capacity.
#[verifier::external_body]
fn queue_new(capacity: usize) -> (queue: ArrayQueue<usize>)
    requires
        0 < capacity <= max_queue_limit(),
    ensures
        queue_items(queue) == Seq::<usize>::empty(),
        queue_limit(queue) == capacity,
{
    ArrayQueue::new(capacity)
}

/// Calls `ArrayQueue::push` on a queue that nobody else can reach. It is
/// claimed to append the value where the queue holds fewer items than its
/// capacity, and otherwise to hand the value back and leave the queue as it
/// was.
#[verifier::external_body]
fn queue_push(queue: &mut ArrayQueue<usize>, value: usize) -> (r: Result<(), usize>)
    ensures
        queue_limit(*final(queue)) == queue_limit(*old(queue)),
        queue_items(*old(queue)).len() < queue_limit(*old(queue)) ==> r is Ok && queue_items(
            *final(queue),
        ) == queue_items(*old(queue)).push(value),
        queue_items(*old(queue)).len() >= queue_limit(*old(queue)) ==> r is Err && r->Err_0
            == value && queue_items(*final(queue)) == queue_items(*old(queue)),
{
    queue.push(value)
}

/// Calls `ArrayQueue::pop` on a queue that nobody else can reach. It is
/// claimed to take the oldest item out and return it, and to return nothing
/// and leave the queue as it was where the queue is empty.
#[verifier::external_body]
fn queue_pop(queue: &mut ArrayQueue<usize>) -> (r: Option<usize>)
    ensures
        queue_limit(*final(queue)) == queue_limit(*old(queue)),
        queue_items(*old(queue)).len() > 0 ==> r == Some(queue_items(*old(queue)).first())
            && queue_items(*final(queue)) == queue_items(*old(queue)).drop_first(),
        queue_items(*old(queue)).len() == 0 ==> r.is_none() && queue_items(*final(queue))
            == queue_items(*old(queue)),
{
    queue.pop()
}

/// Calls `ArrayQueue::len`, claimed to return the number of items that wait.
#[verifier::external_body]
fn queue_len(queue: &ArrayQueue<usize>) -> (r: usize)
    ensures
        r == queue_items(*queue).len(),
{
    queue.len()
}

/// Calls `ArrayQueue::capacity`, claimed to return the capacity that the
/// queue was made with.
#[verifier::external_body]
fn queue_capacity(queue: &ArrayQueue<usize>) -> (r: usize)
    ensures
        r == queue_limit(*queue),
{
    queue.capacity()
}

/// The indices of the first `count` chunks, in order.
pub open spec fn chunks_in_order(count: nat) -> Seq<usize> {
    Seq::new(count, |index: int| index as usize)
}

/// The chunks in order hold each chunk once.
pub proof fn lemma_chunks_in_order(count: nat)
    requires
        count <= usize::MAX + 1,
    ensures
        chunks_in_order(count).no_duplicates(),
        chunks_in_order(count).to_multiset() =~= all_chunks(count),
{
    let chunks = chunks_in_order(count);
    chunks.lemma_multiset_has_no_duplicates();
    chunks.to_multiset_ensures();
    lemma_all_chunks(count);
    assert forall|index: usize| #[trigger]
        chunks.to_multiset().count(index) == all_chunks(count).count(index) by {
        if index < count {
            assert(chunks[index as int] == index);
            assert(chunks.contains(index));
        } else {
            assert(!chunks.contains(index));
        }
    }
}

/// A very simple allocator that keeps the available chunks in a queue.
///
/// The allocator is changed through an exclusive reference, by one caller at
/// a time: that is what lets it say which chunk comes next.
pub struct ConcurrentQueueAllocator {
    umem: Arc<Umem>,
    available_chunks: ArrayQueue<usize>,
}

impl ConcurrentQueueAllocator {
    /// The arena served.
    pub closed spec fn arena(&self) -> Umem {
        *self.umem
    }

    /// The free chunks in the order in which they will be handed out.
    pub closed spec fn queue(&self) -> Seq<usize> {
        queue_items(self.available_chunks)
    }

    /// The number of chunks that the queue can hold.
    pub closed spec fn limit(&self) -> nat {
        queue_limit(self.available_chunks)
    }

    /// The state is consistent: the arena is well formed and not empty, the
    /// queue can hold one entry per chunk and holds no more, and every entry
    /// is a chunk of the arena.
    pub open spec fn well_formed(&self) -> bool {
        &&& self.arena().wf()
        &&& self.arena().spec_num_chunks() > 0
        &&& self.limit() == self.arena().spec_num_chunks()
        &&& self.queue().len() <= self.limit()
        &&& forall|k: int|
            0 <= k < self.queue().len() ==> #[trigger] self.queue()[k]
                < self.arena().spec_num_chunks()
    }
}

impl UmemAllocator for ConcurrentQueueAllocator {
    open spec fn wf(&self) -> bool {
        self.well_formed()
    }

    open spec fn umem(&self) -> Umem {
        self.arena()
    }

    open spec fn free(&self) -> Multiset<usize> {
        self.queue().to_multiset()
    }

    /// The arena must have at least one chunk.
    open spec fn supports(umem: &Umem) -> bool {
        umem.spec_num_chunks() > 0
    }

    /// A chunk is taken back when it is a chunk of the arena and the queue
    /// has room.
    open spec fn accepts(&self, index: usize) -> bool {
        index < self.arena().spec_num_chunks() && self.queue().len() < self.limit()
    }

    proof fn lemma_free_in_range(&self) {
        self.queue().to_multiset_ensures();
        assert forall|index: usize| #[trigger] self.free().count(index) > 0 implies index
            < self.umem().spec_num_chunks() by {
            assert(self.queue().contains(index));
            let k = choose|k: int| 0 <= k < self.queue().len() && self.queue()[k] == index;
            assert(self.queue()[k] < self.arena().spec_num_chunks());
        }
    }

    proof fn lemma_accepts_held(&self, index: usize) {
        broadcast use vstd::multiset::group_multiset_axioms;

        let count = self.arena().spec_num_chunks() as nat;
        let full = all_chunks(count);
        lemma_all_chunks(count);
        self.queue().to_multiset_ensures();
        // The free chunks and the chunk in question are among all chunks.
        assert(self.free().insert(index).subset_of(full));
        assert(full =~= self.free().insert(index).add(full.sub(self.free().insert(index))));
    }

    fn supported(umem: &Umem) -> (r: bool) {
        umem.num_chunks() > 0
    }

    /// The chunks wait in the order of their indices.
    fn for_umem(umem: Arc<Umem>) -> (r: Self)
        ensures
            r.queue() == chunks_in_order(umem.spec_num_chunks() as nat),
            r.queue().no_duplicates(),
    {
        // make the chunk list
        let count = umem.num_chunks();
        let mut available_chunks = queue_new(count);
        let mut i: usize = 0;
        while i < count
            invariant
                i <= count,
                queue_limit(available_chunks) == count,
                queue_items(available_chunks) == chunks_in_order(i as nat),
            decreases count - i,
        {
            let pushed = queue_push(&mut available_chunks, i);
            assert(pushed.is_ok());
            assert(chunks_in_order(i as nat).push(i) =~= chunks_in_order((i + 1) as nat));
            i += 1;
        }
        proof {
            lemma_chunks_in_order(count as nat);
        }
        Self { umem, available_chunks }
    }

    fn umem_reference(&self) -> (r: &Umem) {
        &self.umem
    }

    /// Hands out the chunk that has waited longest.
    fn try_allocate(&mut self) -> (r: Option<usize>)
        ensures
            old(self).queue().len() > 0 ==> r == Some(old(self).queue().first()) && final(self).queue() == old(self).queue().drop_first(),
            old(self).queue().len() == 0 ==> r.is_none() && final(self).queue() == old(self).queue(),
            old(self).queue().no_duplicates() ==> final(self).queue().no_duplicates(),
    {
        proof {
            let queue = self.queue();
            queue.to_multiset_ensures();
            if queue.len() > 0 {
                assert(queue.remove(0) =~= queue.drop_first());
                assert(queue[0] < self.arena().spec_num_chunks());
                assert(queue.contains(queue[0]));
            }
        }
        queue_pop(&mut self.available_chunks)
    }

    /// Puts the chunk at the end of the queue.
    ///
    /// If no chunk is released that waits in the queue already, no index ever
    /// appears twice in the queue.
    fn try_release(&mut self, index: usize) -> (r: bool)
        ensures
            r ==> final(self).queue() == old(self).queue().push(index),
            !r ==> final(self).queue() == old(self).queue(),
            old(self).queue().no_duplicates() && !old(self).queue().contains(index) ==> final(self).queue().no_duplicates(),
    {
        // check
        if index >= self.umem.num_chunks() {
            return false;
        }
        proof {
            self.queue().to_multiset_ensures();
        }
        // try to push
        if let Err(_) = queue_push(&mut self.available_chunks, index) {
            return false;
        }
        true
    }

    /// The number of chunks handed out: those that do not wait in the queue.
    fn num_allocated(&self) -> (r: Option<usize>)
        ensures
            r == Some((self.arena().spec_num_chunks() - self.queue().len()) as usize),
    {
        proof {
            self.queue().to_multiset_ensures();
        }
        Some(queue_capacity(&self.available_chunks) - queue_len(&self.available_chunks))
    }

    /// The number of free chunks: those that wait in the queue.
    fn num_available(&self) -> (r: Option<usize>)
        ensures
            r == Some(self.queue().len() as usize),
    {
        proof {
            self.queue().to_multiset_ensures();
        }
        Some(queue_len(&self.available_chunks))
    }
}

} // verus!
