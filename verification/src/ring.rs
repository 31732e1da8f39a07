//! Single-producer / single-consumer descriptor rings.
//!
//! A ring has a power-of-two number of slots and two free-running 32-bit
//! cursors, one owned by the producer and one by the consumer. The cursors are
//! only ever compared after reduction modulo the number of slots: the ring is
//! empty when the reduced cursors are equal, and full when the producer's
//! cursor is one step behind the consumer's.
//!
//! `XDPRing` holds its cursors and slots as plain values. For a ring that
//! lies in memory shared with the kernel, the functions on bare cursors and
//! descriptors (`slot_index`, `cursors_can_consume`, `cursors_can_produce`,
//! `frame_of`) take the same decisions on values read from that memory.

use vstd::prelude::*;
use vstd::arithmetic::div_mod::{
    lemma_add_mod_noop, lemma_add_mod_noop_right, lemma_mod_bound, lemma_small_mod,
    lemma_sub_mod_noop,
};
use vstd::arithmetic::power2::is_pow2;
use crate::error::Error;
use crate::mask::{cursor_range, lemma_exponent_of, lemma_mask_is_mod, lemma_wrap_keeps_residue};

verus! {

/// Largest number of slots a ring can have: the mask must fit a 32-bit cursor.
pub const MAX_RING_ELEMENTS: usize = 0x8000_0000;

/// A frame descriptor of the RX and TX rings: where the frame starts in the
/// arena, how long it is, and its option bits.
#[derive(Debug, Clone, Copy, PartialEq, Eq, Structural)]
pub struct XdpDesc {
    pub addr: u64,
    pub len: u32,
    pub options: u32,
}

/// Where the three parts of a ring lie in its mapping, in bytes from its start.
#[derive(Debug, Clone, Copy, PartialEq, Eq, Structural)]
pub struct RingOffsets {
    pub producer: u64,
    pub consumer: u64,
    pub desc: u64,
}

impl RingOffsets {
    /// Size in bytes of the mapping of a ring of `num_elements` slots of
    /// `element_size` bytes each: the slots end the mapping.
    pub open spec fn spec_mmap_size(&self, element_size: int, num_elements: int) -> int {
        self.desc + element_size * num_elements
    }

    /// Computes the size of a ring's mapping.
    ///
    /// Fails with `MemoryMapFailure` exactly when that size does not fit the
    /// address space.
    pub fn mmap_size(&self, element_size: usize, num_elements: usize) -> (r: Result<usize, Error>)
        ensures
            self.spec_mmap_size(element_size as int, num_elements as int) <= usize::MAX ==> r is Ok
                && r->Ok_0 == self.spec_mmap_size(element_size as int, num_elements as int),
            self.spec_mmap_size(element_size as int, num_elements as int) > usize::MAX ==> r is Err
                && r->Err_0 == Error::MemoryMapFailure,
    {
        if self.desc > usize::MAX as u64 {
            assert(element_size * num_elements >= 0) by (nonlinear_arith);
            return Err(Error::MemoryMapFailure);
        }
        let start: usize = self.desc as usize;
        match element_size.checked_mul(num_elements) {
            Some(slots) => match start.checked_add(slots) {
                Some(size) => Ok(size),
                None => Err(Error::MemoryMapFailure),
            },
            None => Err(Error::MemoryMapFailure),
        }
    }
}

/// What a ring is: its size, its two cursors and its slots.
pub struct RingModel<D> {
    pub num_elements: nat,
    pub consumer: int,
    pub producer: int,
    pub slots: Seq<D>,
}

impl<D> RingModel<D> {
    /// The size is a power of two whose mask fits a cursor, there is one slot
    /// per element, and both cursors are 32-bit values.
    pub open spec fn wf(self) -> bool {
        &&& is_pow2(self.num_elements as int)
        &&& self.num_elements <= 0x8000_0000
        &&& self.slots.len() == self.num_elements
        &&& 0 <= self.consumer < cursor_range()
        &&& 0 <= self.producer < cursor_range()
    }

    /// Slot from which the consumer reads next.
    pub open spec fn consumer_index(self) -> int {
        self.consumer % (self.num_elements as int)
    }

    /// Slot to which the producer writes next.
    pub open spec fn producer_index(self) -> int {
        self.producer % (self.num_elements as int)
    }

    /// The ring is not empty.
    pub open spec fn can_consume(self) -> bool {
        self.consumer_index() != self.producer_index()
    }

    /// The ring is not full.
    pub open spec fn can_produce(self) -> bool {
        (self.producer_index() + 1) % (self.num_elements as int) != self.consumer_index()
    }

    /// Number of descriptors produced and not yet consumed.
    pub open spec fn pending_len(self) -> nat {
        ((self.producer - self.consumer) % (self.num_elements as int)) as nat
    }

    /// The descriptors produced and not yet consumed, oldest first.
    pub open spec fn pending(self) -> Seq<D> {
        Seq::new(
            self.pending_len(),
            |k: int| self.slots[(self.consumer + k) % (self.num_elements as int)],
        )
    }

    /// The ring after the consumer's cursor moved one step.
    pub open spec fn advance_consumer(self) -> Self {
        RingModel { consumer: (self.consumer + 1) % cursor_range(), ..self }
    }

    /// The ring after the producer's cursor moved one step.
    pub open spec fn advance_producer(self) -> Self {
        RingModel { producer: (self.producer + 1) % cursor_range(), ..self }
    }

    /// The ring with slot `index` holding `value`.
    pub open spec fn set_nth(self, index: int, value: D) -> Self {
        RingModel { slots: self.slots.update(index, value), ..self }
    }

    /// The ring after `value` was written to the producer's slot and the
    /// producer's cursor moved one step.
    pub open spec fn produce(self, value: D) -> Self {
        self.set_nth(self.producer_index(), value).advance_producer()
    }

    /// The ring after each of `values` was produced, in order.
    pub open spec fn produce_all(self, values: Seq<D>) -> Self
        decreases values.len(),
    {
        if values.len() == 0 {
            self
        } else {
            self.produce(values.first()).produce_all(values.drop_first())
        }
    }

    /// The descriptors read by `count` successive consumptions, in order: each
    /// is the one in the consumer's slot at its turn.
    pub open spec fn consumed(self, count: nat) -> Seq<D>
        decreases count,
    {
        if count == 0 {
            Seq::empty()
        } else {
            seq![self.slots[self.consumer_index()]] + self.advance_consumer().consumed(
                (count - 1) as nat,
            )
        }
    }

    /// The ring after `count` successive consumptions.
    pub open spec fn consume_all(self, count: nat) -> Self
        decreases count,
    {
        if count == 0 {
            self
        } else {
            self.advance_consumer().consume_all((count - 1) as nat)
        }
    }

    /// Both slot indices lie inside the ring.
    pub proof fn lemma_indices_in_range(self)
        requires
            self.wf(),
        ensures
            0 <= self.consumer_index() < self.num_elements,
            0 <= self.producer_index() < self.num_elements,
            self.pending_len() < self.num_elements,
    {
        let n = self.num_elements as int;
        lemma_exponent_of(n);
        lemma_mod_bound(self.consumer, n);
        lemma_mod_bound(self.producer, n);
        lemma_mod_bound(self.producer - self.consumer, n);
    }

    /// The ring reports itself empty exactly when nothing is pending, and
    /// full exactly when all slots but one are pending.
    pub proof fn lemma_empty_and_full(self)
        requires
            self.wf(),
        ensures
            !self.can_consume() <==> self.pending_len() == 0,
            !self.can_consume() <==> self.pending() =~= Seq::<D>::empty(),
            !self.can_produce() <==> self.pending_len() == self.num_elements - 1,
    {
        let n = self.num_elements as int;
        let p = self.producer;
        let c = self.consumer;
        lemma_exponent_of(n);
        self.lemma_indices_in_range();
        lemma_sub_mod_noop(p, c, n);
        // (p % n - c % n) % n == (p - c) % n
        if p % n == c % n {
            lemma_small_mod(0, n as nat);
        } else if p % n > c % n {
            lemma_small_mod((p % n - c % n) as nat, n as nat);
        } else {
            lemma_residue_of_negative(p % n - c % n, n);
        }
        lemma_add_mod_noop(p % n, 1, n);
        if p % n + 1 < n {
            lemma_small_mod((p % n + 1) as nat, n as nat);
        } else {
            lemma_wrapped_to_zero(n);
        }
        if n > 1 {
            lemma_small_mod(1, n as nat);
        }
    }

    /// Moving a cursor keeps the ring well formed.
    pub proof fn lemma_advance_wf(self)
        requires
            self.wf(),
        ensures
            self.advance_consumer().wf(),
            self.advance_producer().wf(),
            self.advance_consumer().consumer_index() == (self.consumer_index() + 1) % (
            self.num_elements as int),
            self.advance_producer().producer_index() == (self.producer_index() + 1) % (
            self.num_elements as int),
    {
        let n = self.num_elements as int;
        lemma_exponent_of(n);
        lemma_mod_bound(self.consumer + 1, cursor_range());
        lemma_mod_bound(self.producer + 1, cursor_range());
        lemma_wrap_keeps_residue(self.consumer + 1, n);
        lemma_wrap_keeps_residue(self.producer + 1, n);
        lemma_add_mod_noop_right(1, self.consumer, n);
        lemma_add_mod_noop_right(1, self.producer, n);
    }

    /// Producing into a ring that is not full appends to what is pending.
    pub proof fn lemma_produce_appends(self, value: D)
        requires
            self.wf(),
            self.can_produce(),
        ensures
            self.produce(value).wf(),
            self.produce(value).pending() =~= self.pending().push(value),
    {
        let n = self.num_elements as int;
        let p = self.producer;
        let c = self.consumer;
        let written = self.set_nth(self.producer_index(), value);
        let after = self.produce(value);
        lemma_exponent_of(n);
        self.lemma_indices_in_range();
        self.lemma_empty_and_full();
        written.lemma_advance_wf();
        let len = self.pending_len() as int;
        // The new cursor difference is one more than the old one.
        lemma_wrap_keeps_residue(p + 1, n);
        lemma_sub_mod_noop(after.producer, c, n);
        lemma_sub_mod_noop(p + 1, c, n);
        lemma_add_mod_noop(p - c, 1, n);
        lemma_small_mod((len + 1) as nat, n as nat);
        if n > 1 {
            lemma_small_mod(1, n as nat);
        }
        assert(after.pending_len() == len + 1);
        // The slot written is the one just past the pending ones.
        lemma_residue_of_sum(c, p - c, n);
        assert((c + len) % n == self.producer_index());
        assert(after.pending().len() == self.pending().push(value).len());
        assert forall|k: int| 0 <= k < len + 1 implies after.pending()[k] == self.pending().push(
            value,
        )[k] by {
            if k < len {
                lemma_distinct_residues(c, k, len, n);
            }
        }
    }

    /// Consuming from a ring that is not empty reads the oldest pending
    /// descriptor and leaves the others pending, in order.
    pub proof fn lemma_consume_takes_oldest(self)
        requires
            self.wf(),
            self.can_consume(),
        ensures
            self.advance_consumer().wf(),
            self.slots[self.consumer_index()] == self.pending().first(),
            self.advance_consumer().pending() =~= self.pending().drop_first(),
    {
        let n = self.num_elements as int;
        let p = self.producer;
        let c = self.consumer;
        let after = self.advance_consumer();
        lemma_exponent_of(n);
        self.lemma_indices_in_range();
        self.lemma_empty_and_full();
        self.lemma_advance_wf();
        let len = self.pending_len() as int;
        lemma_wrap_keeps_residue(c + 1, n);
        lemma_sub_mod_noop(p, after.consumer, n);
        lemma_sub_mod_noop(p, c + 1, n);
        lemma_sub_mod_noop(p - c, 1, n);
        lemma_small_mod((len - 1) as nat, n as nat);
        if n > 1 {
            lemma_small_mod(1, n as nat);
        }
        assert(after.pending_len() == len - 1);
        assert forall|k: int| 0 <= k < len - 1 implies after.pending()[k]
            == self.pending().drop_first()[k] by {
            lemma_add_mod_noop(after.consumer, k, n);
            lemma_add_mod_noop(c + 1, k, n);
        }
    }

    /// First in, first out: producing `values` into a ring with room for them
    /// appends them, in order, to what is pending.
    pub proof fn lemma_produce_all_appends(self, values: Seq<D>)
        requires
            self.wf(),
            self.pending_len() + values.len() <= self.num_elements - 1,
        ensures
            self.produce_all(values).wf(),
            self.produce_all(values).pending() =~= self.pending() + values,
        decreases values.len(),
    {
        if values.len() > 0 {
            self.lemma_empty_and_full();
            self.lemma_produce_appends(values.first());
            let next = self.produce(values.first());
            next.lemma_produce_all_appends(values.drop_first());
            assert(self.pending().push(values.first()) + values.drop_first() =~= self.pending()
                + values);
        }
    }

    /// First in, first out: `count` consumptions from a ring that holds at
    /// least that many descriptors read the oldest `count` of them, in the
    /// order in which they were produced, and leave the others pending.
    pub proof fn lemma_consumed_in_order(self, count: nat)
        requires
            self.wf(),
            count <= self.pending_len(),
        ensures
            self.consume_all(count).wf(),
            self.consumed(count) =~= self.pending().take(count as int),
            self.consume_all(count).pending() =~= self.pending().skip(count as int),
        decreases count,
    {
        if count > 0 {
            self.lemma_empty_and_full();
            self.lemma_consume_takes_oldest();
            let next = self.advance_consumer();
            next.lemma_consumed_in_order((count - 1) as nat);
            assert(self.consumed(count) =~= self.pending().take(count as int));
            assert(self.consume_all(count).pending() =~= self.pending().skip(count as int));
        }
    }

    /// Round trip: what is produced into an empty ring with room for it is
    /// consumed again in the same order, and the ring is empty afterwards.
    pub proof fn lemma_round_trip(self, values: Seq<D>)
        requires
            self.wf(),
            !self.can_consume(),
            values.len() <= self.num_elements - 1,
        ensures
            self.produce_all(values).consumed(values.len()) =~= values,
            !self.produce_all(values).consume_all(values.len()).can_consume(),
    {
        self.lemma_empty_and_full();
        self.lemma_produce_all_appends(values);
        let filled = self.produce_all(values);
        assert(filled.pending() =~= values);
        filled.lemma_consumed_in_order(values.len());
        filled.consume_all(values.len()).lemma_empty_and_full();
    }
}

/// The residue of a negative number above `-n` is that number plus `n`.
proof fn lemma_residue_of_negative(x: int, n: int)
    requires
        n > 0,
        -n < x < 0,
    ensures
        x % n == x + n,
{
    assert(x % n == x + n) by (nonlinear_arith)
        requires
            n > 0,
            -n < x < 0,
    ;
}

/// `n` is a multiple of itself.
proof fn lemma_wrapped_to_zero(n: int)
    requires
        n > 0,
    ensures
        n % n == 0,
{
    assert(n % n == 0) by (nonlinear_arith)
        requires
            n > 0,
    ;
}

/// Adding the residue of a difference leads to the residue of the target.
proof fn lemma_residue_of_sum(c: int, d: int, n: int)
    requires
        n > 0,
    ensures
        (c + d % n) % n == (c + d) % n,
{
    lemma_add_mod_noop(c, d, n);
    lemma_add_mod_noop(c, d % n, n);
    vstd::arithmetic::div_mod::lemma_mod_twice(d, n);
}

/// Two different steps of less than `n` from one cursor reach different slots.
proof fn lemma_distinct_residues(c: int, j: int, k: int, n: int)
    requires
        n > 0,
        0 <= j < k < n,
    ensures
        (c + j) % n != (c + k) % n,
{
    if (c + j) % n == (c + k) % n {
        lemma_sub_mod_noop(c + k, c + j, n);
        lemma_small_mod(0, n as nat);
        lemma_small_mod((k - j) as nat, n as nat);
        assert(false);
    }
}

/// The slot that a cursor points to in a ring of `num_elements` slots: the
/// cursor reduced modulo the ring's size.
pub fn slot_index(cursor: u32, num_elements: usize) -> (r: u32)
    requires
        is_pow2(num_elements as int),
        num_elements <= MAX_RING_ELEMENTS,
    ensures
        r == cursor as int % num_elements as int,
        r < num_elements,
{
    proof {
        lemma_exponent_of(num_elements as int);
        lemma_mask_is_mod(cursor, num_elements as u32);
        lemma_mod_bound(cursor as int, num_elements as int);
    }
    cursor & (num_elements as u32 - 1)
}

/// Whether a ring of `num_elements` slots with these cursors is not empty:
/// the cursors point to different slots.
pub fn cursors_can_consume(consumer: u32, producer: u32, num_elements: usize) -> (r: bool)
    requires
        is_pow2(num_elements as int),
        num_elements <= MAX_RING_ELEMENTS,
    ensures
        r == (consumer as int % num_elements as int != producer as int % num_elements as int),
{
    slot_index(consumer, num_elements) != slot_index(producer, num_elements)
}

/// Whether a ring of `num_elements` slots with these cursors is not full: the
/// slot after the producer's is not the consumer's.
pub fn cursors_can_produce(consumer: u32, producer: u32, num_elements: usize) -> (r: bool)
    requires
        is_pow2(num_elements as int),
        num_elements <= MAX_RING_ELEMENTS,
    ensures
        r == ((producer as int % num_elements as int + 1) % num_elements as int != consumer as int
            % num_elements as int),
{
    let next = slot_index(producer, num_elements) + 1;
    slot_index(next, num_elements) != slot_index(consumer, num_elements)
}

/// What a call that maps a ring came to: the address of the mapping, or a
/// map failure where the call returned no address.
pub fn mapping_outcome(address: usize) -> (r: Result<usize, Error>)
    ensures
        address != 0 && address != usize::MAX ==> r is Ok && r->Ok_0 == address,
        address == 0 || address == usize::MAX ==> r is Err && r->Err_0 == Error::MemoryMapFailure,
{
    if address == usize::MAX || address == 0 {
        return Err(Error::MemoryMapFailure);
    }
    Ok(address)
}

/// A ring of descriptors of type `D`, with its two cursors.
pub struct XDPRing<D> {
    num_elements: usize,
    consumer_index: u32,
    producer_index: u32,
    descriptors: Vec<D>,
}

impl<D> View for XDPRing<D> {
    type V = RingModel<D>;

    closed spec fn view(&self) -> RingModel<D> {
        RingModel {
            num_elements: self.num_elements as nat,
            consumer: self.consumer_index as int,
            producer: self.producer_index as int,
            slots: self.descriptors@,
        }
    }
}

impl<D> XDPRing<D> {
    /// The ring's model is well formed.
    pub open spec fn wf(&self) -> bool {
        self@.wf()
    }

    /// Makes a ring of `num_elements` slots that hold `descriptors`, with the
    /// cursors at `consumer` and `producer`.
    pub fn new(num_elements: usize, consumer: u32, producer: u32, descriptors: Vec<D>) -> (r: Self)
        requires
            is_pow2(num_elements as int),
            num_elements <= MAX_RING_ELEMENTS,
            descriptors@.len() == num_elements,
        ensures
            r.wf(),
            r@ == (RingModel {
                num_elements: num_elements as nat,
                consumer: consumer as int,
                producer: producer as int,
                slots: descriptors@,
            }),
    {
        Self { num_elements, consumer_index: consumer, producer_index: producer, descriptors }
    }

    /// The size of this ring.
    pub fn num_elements(&self) -> (r: usize)
        ensures
            r == self@.num_elements,
    {
        self.num_elements
    }

    /// The mask that reduces a cursor to a slot index.
    pub fn num_elements_mask(&self) -> (r: u32)
        requires
            self.wf(),
        ensures
            r == self@.num_elements - 1,
    {
        proof {
            lemma_exponent_of(self.num_elements as int);
        }
        self.num_elements as u32 - 1
    }

    /// The next index from which the consumer should read.
    pub fn get_consumer_index(&self) -> (r: u32)
        requires
            self.wf(),
        ensures
            r == self@.consumer_index(),
            r < self@.num_elements,
    {
        slot_index(self.consumer_index, self.num_elements)
    }

    /// Advance the consumer index by one.
    pub fn advance_consumer_index(&mut self)
        requires
            old(self).wf(),
        ensures
            final(self).wf(),
            final(self)@ == old(self)@.advance_consumer(),
            old(self)@.can_consume() ==> final(self)@.pending() == old(self)@.pending().drop_first(),
    {
        proof {
            self@.lemma_advance_wf();
            if self@.can_consume() {
                self@.lemma_consume_takes_oldest();
            }
        }
        self.consumer_index = self.consumer_index.wrapping_add(1);
    }

    /// The next index to which the producer should produce.
    pub fn get_producer_index(&self) -> (r: u32)
        requires
            self.wf(),
        ensures
            r == self@.producer_index(),
            r < self@.num_elements,
    {
        slot_index(self.producer_index, self.num_elements)
    }

    /// Advance the producer index by one.
    pub fn advance_producer_index(&mut self)
        requires
            old(self).wf(),
        ensures
            final(self).wf(),
            final(self)@ == old(self)@.advance_producer(),
            old(self)@.can_produce() ==> final(self)@.pending() == old(self)@.pending().push(
                old(self)@.slots[old(self)@.producer_index()],
            ),
    {
        proof {
            self@.lemma_advance_wf();
            if self@.can_produce() {
                let index = self@.producer_index();
                self@.lemma_indices_in_range();
                self@.lemma_produce_appends(self@.slots[index]);
                assert(self@.slots.update(index, self@.slots[index]) =~= self@.slots);
            }
        }
        self.producer_index = self.producer_index.wrapping_add(1);
    }

    /// Obtain an immutable reference to the contents of the nth descriptor.
    pub fn get_nth_descriptor(&self, index: usize) -> (r: &D)
        requires
            self.wf(),
            index < self@.num_elements,
        ensures
            *r == self@.slots[index as int],
    {
        &self.descriptors[index]
    }

    /// Obtain a mutable reference to the contents of the nth descriptor.
    pub fn get_nth_descriptor_mut(&mut self, index: usize) -> (r: &mut D)
        requires
            old(self).wf(),
            index < old(self)@.num_elements,
        ensures
            *r == old(self)@.slots[index as int],
            final(self)@ == old(self)@.set_nth(index as int, *final(r)),
            final(self).wf(),
    {
        &mut self.descriptors[index]
    }

    /// Checks if a consumer can consume an element out of this ring.
    pub fn can_consume(&self) -> (r: bool)
        requires
            self.wf(),
        ensures
            r == self@.can_consume(),
            r == (self@.pending_len() != 0),
    {
        proof {
            self@.lemma_empty_and_full();
        }
        cursors_can_consume(self.consumer_index, self.producer_index, self.num_elements)
    }

    /// Checks if a producer can produce an element to this ring.
    pub fn can_produce(&self) -> (r: bool)
        requires
            self.wf(),
        ensures
            r == self@.can_produce(),
            r == (self@.pending_len() != self@.num_elements - 1),
    {
        proof {
            self@.lemma_empty_and_full();
        }
        cursors_can_produce(self.consumer_index, self.producer_index, self.num_elements)
    }
}

/// The descriptor `descriptor` after its frame was retargeted: a given offset
/// replaces its address, and a given length, cut to 32 bits, replaces its
/// length.
pub open spec fn retargeted(
    descriptor: XdpDesc,
    set_offset: Option<u64>,
    set_length: Option<usize>,
) -> XdpDesc {
    XdpDesc {
        addr: match set_offset {
            Some(offset) => offset,
            None => descriptor.addr,
        },
        len: match set_length {
            Some(length) => length as u32,
            None => descriptor.len,
        },
        options: descriptor.options,
    }
}

/// The frame of `descriptor` lies inside an arena of `memory_size` bytes.
pub open spec fn frame_in_bounds(descriptor: XdpDesc, memory_size: int) -> bool {
    descriptor.addr + descriptor.len <= memory_size
}

/// Brings a descriptor's frame to a given offset or length: a given offset
/// replaces its address, and a given length, cut to 32 bits, replaces its
/// length.
pub fn retarget(descriptor: XdpDesc, set_offset: Option<u64>, set_length: Option<usize>) -> (r:
    XdpDesc)
    ensures
        r == retargeted(descriptor, set_offset, set_length),
{
    let mut target = descriptor;
    if let Some(offset) = set_offset {
        target.addr = offset;
    }
    if let Some(length) = set_length {
        target.len = #[verifier::truncate] (length as u32);
    }
    target
}

/// Whether the frame of `descriptor` lies inside an arena of `memory_size`
/// bytes.
pub fn frame_fits(descriptor: &XdpDesc, memory_size: usize) -> (r: bool)
    ensures
        r == frame_in_bounds(*descriptor, memory_size as int),
{
    let size = memory_size as u64;
    descriptor.addr <= size && descriptor.len as u64 <= size - descriptor.addr
}

/// The bytes of the frame of `descriptor`, out of `memory`, the bytes of the
/// arena.
pub fn frame_of<'m>(descriptor: &XdpDesc, memory: &'m [u8]) -> (r: &'m [u8])
    requires
        frame_in_bounds(*descriptor, memory@.len() as int),
    ensures
        r@ == memory@.subrange(descriptor.addr as int, descriptor.addr + descriptor.len),
{
    let total = memory.len();
    let start: usize = descriptor.addr as usize;
    let length: usize = descriptor.len as usize;
    vstd::slice::slice_subrange(memory, start, start + length)
}

/// The bytes of the frame of `descriptor`, for writing, out of `memory`, the
/// bytes of the arena. The bytes around the frame stay as they are.
pub fn frame_of_mut<'m>(descriptor: &XdpDesc, memory: &'m mut [u8]) -> (r: &'m mut [u8])
    requires
        frame_in_bounds(*descriptor, old(memory)@.len() as int),
    ensures
        r@ == old(memory)@.subrange(descriptor.addr as int, descriptor.addr + descriptor.len),
        final(memory)@ == old(memory)@.subrange(0, descriptor.addr as int) + final(r)@ + old(memory)@.subrange(descriptor.addr + descriptor.len, old(memory)@.len() as int),
{
    let total = memory.len();
    let start: usize = descriptor.addr as usize;
    let length: usize = descriptor.len as usize;
    let ghost before = memory@;
    let (head, rest) = memory.split_at_mut(start);
    let (frame, tail) = rest.split_at_mut(length);
    proof {
        assert(frame@ =~= before.subrange(start as int, start + length));
        assert(head@ =~= before.subrange(0, start as int));
        assert(tail@ =~= before.subrange(start + length, total as int));
    }
    frame
}

impl XDPRing<XdpDesc> {
    /// Obtain the bytes of the frame that the nth descriptor points to, out
    /// of `memory`, the bytes of the arena.
    pub fn get_nth_slice<'m>(&self, index: usize, memory: &'m [u8]) -> (r: &'m [u8])
        requires
            self.wf(),
            index < self@.num_elements,
            frame_in_bounds(self@.slots[index as int], memory@.len() as int),
        ensures
            r@ == memory@.subrange(
                self@.slots[index as int].addr as int,
                self@.slots[index as int].addr + self@.slots[index as int].len,
            ),
    {
        frame_of(self.get_nth_descriptor(index), memory)
    }

    /// Obtain the bytes of the frame that the nth descriptor points to, for
    /// writing, out of `memory`, the bytes of the arena. A given offset or
    /// length is stored in the descriptor first.
    pub fn get_nth_slice_mut<'m>(
        &mut self,
        index: usize,
        memory: &'m mut [u8],
        set_offset: Option<u64>,
        set_length: Option<usize>,
    ) -> (r: &'m mut [u8])
        requires
            old(self).wf(),
            index < old(self)@.num_elements,
            frame_in_bounds(
                retargeted(old(self)@.slots[index as int], set_offset, set_length),
                old(memory)@.len() as int,
            ),
        ensures
            final(self).wf(),
            final(self)@ == old(self)@.set_nth(
                index as int,
                retargeted(old(self)@.slots[index as int], set_offset, set_length),
            ),
            r@ == old(memory)@.subrange(
                final(self)@.slots[index as int].addr as int,
                final(self)@.slots[index as int].addr + final(self)@.slots[index as int].len,
            ),
            final(memory)@ == old(memory)@.subrange(
                0,
                final(self)@.slots[index as int].addr as int,
            ) + final(r)@ + old(memory)@.subrange(
                final(self)@.slots[index as int].addr + final(self)@.slots[index as int].len,
                old(memory)@.len() as int,
            ),
    {
        let descriptor = self.get_nth_descriptor_mut(index);
        let target = retarget(*descriptor, set_offset, set_length);
        *descriptor = target;
        frame_of_mut(&target, memory)
    }
}

impl XDPRing<u64> {
    /// Gets the arena offset held by the nth slot.
    pub fn get_nth_umem_offset(&self, index: usize) -> (r: u64)
        requires
            self.wf(),
            index < self@.num_elements,
        ensures
            r == self@.slots[index as int],
    {
        *self.get_nth_descriptor(index)
    }

    /// Sets the arena offset held by the nth slot.
    pub fn set_nth_umem_offset(&mut self, index: usize, umem_offset: u64)
        requires
            old(self).wf(),
            index < old(self)@.num_elements,
        ensures
            final(self).wf(),
            final(self)@ == old(self)@.set_nth(index as int, umem_offset),
    {
        *self.get_nth_descriptor_mut(index) = umem_offset
    }

    /// Produces one arena offset to the ring: writes it to the producer's
    /// slot and advances the producer's cursor.
    ///
    /// On a ring that is not full this appends the offset to what is pending.
    /// On a full ring it overwrites the oldest pending offset: check
    /// `can_produce` beforehand.
    pub fn produce_umem_offset(&mut self, umem_offset: u64)
        requires
            old(self).wf(),
        ensures
            final(self).wf(),
            final(self)@ == old(self)@.produce(umem_offset),
            old(self)@.can_produce() ==> final(self)@.pending() == old(self)@.pending().push(
                umem_offset,
            ),
    {
        proof {
            if self@.can_produce() {
                self@.lemma_produce_appends(umem_offset);
            }
        }
        let index = self.get_producer_index();
        self.set_nth_umem_offset(index as usize, umem_offset);
        self.advance_producer_index();
    }
}

} // verus!
