//! The bit set allocator: one bit per chunk, set while the chunk is handed
//! out.
//!
//! The bits are kept in 64-bit words, most significant bit first: chunk 0 is
//! the leftmost bit of word 0. A hint names the word at which the search for
//! a free chunk starts; the search goes round the words once.

use vstd::prelude::*;
use vstd::multiset::Multiset;
use vstd::string::StringExecFns;
use vstd::std_specs::bits::{axiom_u64_leading_ones, u64_leading_ones};
use std::sync::Arc;
use crate::error::{decimal_digits, unsigned_text};
use crate::umem::Umem;
use crate::umem_allocator::chunks::{all_chunks, chunks_below, lemma_all_chunks, lemma_chunks_below, lemma_from_set};
use crate::umem_allocator::UmemAllocator;

verus! {

/// Number of chunks that one word keeps track of.
pub const BITS_PER_WORD: usize = 64;

/// A word with every bit set: all of its chunks are handed out.
pub const FULL_WORD: u64 = 0xffff_ffff_ffff_ffff;

/// Bit `position` of `word` is set, counting from the most significant bit.
pub open spec fn bit_at(word: u64, position: int) -> bool {
    (word >> ((63 - position) as u64)) & 1 == 1
}

/// The word that has only bit `position` set, counting from the most
/// significant bit.
pub open spec fn mask_of(position: int) -> u64 {
    1u64 << ((63 - position) as u64)
}

/// Number of set bits among the first `count` bits of `word`, counting from
/// the most significant bit.
pub open spec fn ones_below(word: u64, count: nat) -> nat
    decreases count,
{
    if count == 0 {
        0
    } else {
        ones_below(word, (count - 1) as nat) + (if bit_at(word, count - 1) {
            1nat
        } else {
            0nat
        })
    }
}

/// Setting one bit of a word sets that bit and leaves the others.
pub proof fn lemma_set_bit(word: u64, position: int, other: int)
    requires
        0 <= position < 64,
        0 <= other < 64,
    ensures
        bit_at(word | mask_of(position), other) == (other == position || bit_at(word, other)),
{
    let s = (63 - position) as u64;
    let t = (63 - other) as u64;
    assert((((word | (1u64 << s)) >> t) & 1 == 1) == (t == s || (word >> t) & 1 == 1))
        by (bit_vector)
        requires
            s < 64,
            t < 64,
    ;
}

/// Clearing one bit of a word clears that bit and leaves the others.
pub proof fn lemma_clear_bit(word: u64, position: int, other: int)
    requires
        0 <= position < 64,
        0 <= other < 64,
    ensures
        bit_at(word & !mask_of(position), other) == (other != position && bit_at(word, other)),
{
    let s = (63 - position) as u64;
    let t = (63 - other) as u64;
    assert((((word & !(1u64 << s)) >> t) & 1 == 1) == (t != s && (word >> t) & 1 == 1))
        by (bit_vector)
        requires
            s < 64,
            t < 64,
    ;
}

/// A word has a bit in common with a one-bit mask exactly when that bit is
/// set; clearing a bit that is not set changes nothing.
pub proof fn lemma_test_bit(word: u64, position: int)
    requires
        0 <= position < 64,
    ensures
        (word & mask_of(position) > 0) == bit_at(word, position),
        !bit_at(word, position) ==> word & !mask_of(position) == word,
{
    let s = (63 - position) as u64;
    assert(((word & (1u64 << s)) > 0) == ((word >> s) & 1 == 1)) by (bit_vector)
        requires
            s < 64,
    ;
    assert(!((word >> s) & 1 == 1) ==> word & !(1u64 << s) == word) by (bit_vector)
        requires
            s < 64,
    ;
}

/// A word is full exactly when each of its 64 bits is set.
pub proof fn lemma_full_word(word: u64)
    ensures
        (word == FULL_WORD) == (forall|position: int| 0 <= position < 64 ==> bit_at(word, position)),
{
    axiom_u64_leading_ones(word);
    let first = u64_leading_ones(word) as int;
    if word == FULL_WORD {
        assert forall|position: int| 0 <= position < 64 implies bit_at(word, position) by {
            let shift = (63 - position) as u64;
            assert((word >> shift) & 1 == 1);
        }
    } else {
        assert(first < 64);
        assert(!bit_at(word, first));
    }
}

/// The position of the first bit of `word` that is not set, counting from the
/// most significant bit; 64 if every bit is set.
pub fn first_clear_bit(word: u64) -> (r: u32)
    ensures
        r <= 64,
        (r == 64) == (word == FULL_WORD),
        r < 64 ==> !bit_at(word, r as int),
        forall|position: int| 0 <= position < r ==> bit_at(word, position),
{
    proof {
        axiom_u64_leading_ones(word);
        let first = u64_leading_ones(word) as int;
        assert forall|position: int| 0 <= position < first implies bit_at(word, position) by {
            let shift = (63 - position) as u64;
            assert((word >> shift) & 1 == 1);
        }
    }
    word.leading_ones()
}

/// The word that has only bit `position` set, counting from the most
/// significant bit.
pub fn bit_mask(position: u32) -> (r: u64)
    requires
        position < 64,
    ensures
        r == mask_of(position as int),
{
    1u64 << (63 - position)
}

/// The first `count` bits of a word hold at most `count` set bits.
pub proof fn lemma_ones_below_bound(word: u64, count: nat)
    ensures
        ones_below(word, count) <= count,
    decreases count,
{
    if count > 0 {
        lemma_ones_below_bound(word, (count - 1) as nat);
    }
}

/// The number of set bits of `word`.
pub fn count_set_bits(word: u64) -> (r: u32)
    ensures
        r == ones_below(word, 64),
        r <= 64,
{
    let mut count: u32 = 0;
    let mut position: u32 = 0;
    while position < 64
        invariant
            position <= 64,
            count <= position,
            count == ones_below(word, position as nat),
        decreases 64 - position,
    {
        if (word >> (63 - position)) & 1 == 1 {
            count += 1;
        }
        position += 1;
    }
    count
}

/// Number of set bits in the first `count` words of `words`.
pub open spec fn ones_in_words(words: Seq<u64>, count: nat) -> nat
    decreases count,
{
    if count == 0 {
        0
    } else {
        ones_in_words(words, (count - 1) as nat) + ones_below(words[count - 1], 64)
    }
}

/// The first `count` words hold at most 64 set bits each.
pub proof fn lemma_ones_in_words_bound(words: Seq<u64>, count: nat)
    ensures
        ones_in_words(words, count) <= 64 * count,
    decreases count,
{
    if count > 0 {
        lemma_ones_in_words_bound(words, (count - 1) as nat);
        lemma_ones_below_bound(words[count - 1], 64);
    }
}

/// The 64 bits of `word` as the characters `0` and `1`, the most
/// significant bit first.
pub open spec fn bits_text(word: u64) -> Seq<char> {
    Seq::new(
        64,
        |position: int|
            if bit_at(word, position) {
                '1'
            } else {
                '0'
            },
    )
}

/// One line for each of the first `count` words: a space, the word's bits,
/// an arrow and the word's number.
pub open spec fn words_text(words: Seq<u64>, count: nat) -> Seq<char>
    decreases count,
{
    if count == 0 {
        Seq::empty()
    } else {
        words_text(words, (count - 1) as nat) + " "@ + bits_text(words[count - 1]) + " => "@
            + decimal_digits((count - 1) as nat) + "\n"@
    }
}

/// The text that shows the words of an allocator: a heading, one line per
/// word, and a closing line.
pub open spec fn storage_text(words: Seq<u64>) -> Seq<char> {
    "AtomicBitSetAllocator (storage = [\n"@ + words_text(words, words.len()) + "])\n"@
}

/// The smaller of two word indices.
pub open spec fn lower(a: int, b: int) -> int {
    if a <= b {
        a
    } else {
        b
    }
}

/// An allocator that keeps one bit per chunk.
///
/// The bits are kept in plain words, and the allocator is changed through an
/// exclusive reference, by one caller at a time. The hint starts at the first
/// word and is only ever lowered.
pub struct AtomicBitSetAllocator {
    umem: Arc<Umem>,
    storage: Vec<u64>,
    // Hint for next word that might have free slots
    next_word_hint: usize,
}

impl AtomicBitSetAllocator {
    /// The words of bits, in order.
    pub closed spec fn words(&self) -> Seq<u64> {
        self.storage@
    }

    /// The word at which the search for a free chunk starts.
    pub closed spec fn hint(&self) -> usize {
        self.next_word_hint
    }

    /// The arena served.
    pub closed spec fn arena(&self) -> Umem {
        *self.umem
    }

    /// Chunk `index` is handed out.
    pub open spec fn is_allocated(&self, index: int) -> bool {
        bit_at(self.words()[index / 64], index % 64)
    }

    /// Chunk `index` is a chunk of the arena and is not handed out.
    pub open spec fn is_free(&self, index: int) -> bool {
        0 <= index < self.arena().spec_num_chunks() && !self.is_allocated(index)
    }

    /// The free chunks.
    pub open spec fn free_set(&self) -> Set<usize> {
        Set::new(|index: usize| self.is_free(index as int))
    }

    /// How far into the search chunk `index` is looked at: the search starts
    /// at the hinted word, goes through each word from its most significant
    /// bit, and wraps round after the last word.
    pub open spec fn search_rank(&self, index: int) -> int {
        ((index / 64 - self.hint()) % (self.words().len() as int)) * 64 + index % 64
    }

    /// The state is consistent: the arena is well formed and has a multiple
    /// of 64 chunks, there is one word per 64 chunks, and the hint names a
    /// word.
    pub open spec fn well_formed(&self) -> bool {
        &&& self.arena().wf()
        &&& self.arena().spec_num_chunks() == 64 * self.words().len()
        &&& (self.words().len() > 0 ==> self.hint() < self.words().len())
        &&& (self.words().len() == 0 ==> self.hint() == 0)
    }

    /// The free chunks are finitely many, and the multiset of free chunks
    /// holds each of them once.
    pub proof fn lemma_free_count(&self)
        requires
            self.well_formed(),
        ensures
            self.free_set().finite(),
            forall|index: usize| #[trigger]
                self.free().count(index) == (if self.is_free(index as int) {
                    1nat
                } else {
                    0nat
                }),
            self.free().len() == self.free_set().len(),
            self.free().len() <= self.arena().spec_num_chunks(),
    {
        let count = self.arena().spec_num_chunks() as nat;
        lemma_chunks_below(count);
        assert(self.free_set().subset_of(chunks_below(count)));
        vstd::set_lib::lemma_set_subset_finite(chunks_below(count), self.free_set());
        vstd::set_lib::lemma_len_subset(self.free_set(), chunks_below(count));
        lemma_from_set(self.free_set());
    }

    /// The free chunks with an index below `bound`.
    pub open spec fn free_below(&self, bound: int) -> Set<usize> {
        Set::new(|index: usize| index < bound && self.is_free(index as int))
    }

    /// Number of free chunks with an index below `bound`.
    pub open spec fn free_count_below(&self, bound: nat) -> nat
        decreases bound,
    {
        if bound == 0 {
            0
        } else {
            self.free_count_below((bound - 1) as nat) + (if self.is_free(bound - 1) {
                1nat
            } else {
                0nat
            })
        }
    }

    /// The free chunks below a bound are as many as their count says.
    proof fn lemma_free_below_len(&self, bound: nat)
        requires
            self.well_formed(),
            bound <= self.arena().spec_num_chunks(),
        ensures
            self.free_below(bound as int).finite(),
            self.free_below(bound as int).len() == self.free_count_below(bound),
        decreases bound,
    {
        if bound == 0 {
            assert(self.free_below(0) =~= Set::<usize>::empty());
        } else {
            let last = (bound - 1) as usize;
            self.lemma_free_below_len((bound - 1) as nat);
            if self.is_free(last as int) {
                assert(self.free_below(bound as int) =~= self.free_below(bound - 1).insert(last));
            } else {
                assert(self.free_below(bound as int) =~= self.free_below(bound - 1));
            }
        }
    }

    /// Within a word, the free chunks are the bits that are not set; over
    /// whole words, they are the bits that are not set in those words.
    proof fn lemma_free_count_by_words(&self, word: nat, bits: nat)
        requires
            self.well_formed(),
            bits <= 64,
            word < self.words().len() || (word == self.words().len() && bits == 0),
        ensures
            self.free_count_below(64 * word + bits) + ones_in_words(self.words(), word) + (if bits
                == 0 {
                0nat
            } else {
                ones_below(self.words()[word as int], bits)
            }) == 64 * word + bits,
        decreases word, bits,
    {
        let words = self.words();
        if bits == 0 {
            if word > 0 {
                let before = (word - 1) as nat;
                self.lemma_free_count_by_words(before, 64);
                assert(64 * before + 64 == 64 * word + bits);
                assert(ones_in_words(words, word) == ones_in_words(words, before) + ones_below(
                    words[before as int],
                    64,
                ));
            } else {
                assert(self.free_count_below(0) == 0);
                assert(ones_in_words(words, 0) == 0);
            }
        } else {
            let fewer = (bits - 1) as nat;
            self.lemma_free_count_by_words(word, fewer);
            let index = (64 * word + fewer) as int;
            assert(index / 64 == word && index % 64 == fewer);
            assert(index < self.arena().spec_num_chunks());
            assert(self.is_free(index) == !bit_at(words[word as int], fewer as int));
            assert(64 * word + bits - 1 == index);
            assert(self.free_count_below(64 * word + bits) == self.free_count_below(index as nat)
                + (if self.is_free(index) {
                1nat
            } else {
                0nat
            }));
            assert(ones_below(words[word as int], bits) == ones_below(words[word as int], fewer)
                + (if bit_at(words[word as int], fewer as int) {
                1nat
            } else {
                0nat
            }));
            assert(ones_below(words[word as int], 0) == 0);
        }
    }

    /// The free chunks are those that no set bit stands for.
    pub proof fn lemma_free_len(&self)
        requires
            self.well_formed(),
        ensures
            self.free().len() + ones_in_words(self.words(), self.words().len())
                == self.arena().spec_num_chunks(),
    {
        let count = self.arena().spec_num_chunks() as nat;
        self.lemma_free_count();
        self.lemma_free_below_len(count);
        assert(self.free_below(count as int) =~= self.free_set());
        self.lemma_free_count_by_words(self.words().len(), 0);
    }

    /// Number of set bits in all words.
    fn count_allocated(&self) -> (r: usize)
        requires
            self.well_formed(),
        ensures
            r == ones_in_words(self.words(), self.words().len()),
            r + self.free().len() == self.arena().spec_num_chunks(),
    {
        let mut total: usize = 0;
        let mut word_index: usize = 0;
        while word_index < self.storage.len()
            invariant
                self.well_formed(),
                word_index <= self.words().len(),
                total == ones_in_words(self.words(), word_index as nat),
                total <= 64 * word_index,
            decreases self.words().len() - word_index,
        {
            let ones = count_set_bits(self.storage[word_index]);
            total += ones as usize;
            word_index += 1;
        }
        proof {
            self.lemma_free_len();
        }
        total
    }

    /// After a chunk was released, the next allocation hands that chunk out
    /// again, provided that the search meets no other free chunk first: the
    /// words from the hint up to the chunk's word are full, and the chunk's
    /// word has no earlier free bit.
    ///
    /// Here `after` is `before` with chunk `index` released, and `next` is
    /// the chunk that an allocation hands out in `after`.
    pub proof fn lemma_released_chunk_is_next(
        before: &Self,
        after: &Self,
        index: usize,
        next: usize,
    )
        requires
            before.well_formed(),
            index < before.arena().spec_num_chunks(),
            after.arena() == before.arena(),
            after.words() == before.words().update(
                index as int / 64,
                before.words()[index as int / 64] & !mask_of(index as int % 64),
            ),
            after.hint() == lower(before.hint() as int, index as int / 64),
            forall|word: int|
                after.hint() <= word < index as int / 64 ==> #[trigger] after.words()[word]
                    == FULL_WORD,
            forall|position: int|
                0 <= position < index as int % 64 ==> #[trigger] bit_at(
                    after.words()[index as int / 64],
                    position,
                ),
            after.is_free(next as int),
            forall|other: int| #[trigger]
                after.is_free(other) ==> after.search_rank(next as int) <= after.search_rank(
                    other,
                ),
        ensures
            after.well_formed(),
            next == index,
    {
        let count = after.words().len() as int;
        let hint = after.hint() as int;
        let index_word = index as int / 64;
        let next_word = next as int / 64;
        lemma_clear_bit(before.words()[index_word], index as int % 64, index as int % 64);
        assert(after.is_free(index as int));
        assert(after.search_rank(next as int) <= after.search_rank(index as int));
        vstd::arithmetic::div_mod::lemma_small_mod((index_word - hint) as nat, count as nat);
        if next_word >= hint {
            vstd::arithmetic::div_mod::lemma_small_mod((next_word - hint) as nat, count as nat);
            if next_word < index_word {
                lemma_full_word(after.words()[next_word]);
                assert(bit_at(after.words()[next_word], next as int % 64));
            } else if next_word == index_word {
                if next as int % 64 < index as int % 64 {
                    assert(bit_at(after.words()[index_word], next as int % 64));
                }
            }
        } else {
            vstd::arithmetic::div_mod::lemma_mod_add_multiples_vanish(next_word - hint, count);
            vstd::arithmetic::div_mod::lemma_small_mod(
                (next_word - hint + count) as nat,
                count as nat,
            );
        }
    }

    /// The word at which the search for a free chunk starts.
    pub fn next_word_hint(&self) -> (r: usize)
        ensures
            r == self.hint(),
    {
        self.next_word_hint
    }

    /// Renders the words of the allocator, one line per word, each bit as
    /// `0` or `1`.
    pub fn describe(&self) -> (r: String)
        ensures
            r@ == storage_text(self.words()),
    {
        let mut text = String::from_str("AtomicBitSetAllocator (storage = [\n");
        let ghost heading = text@;
        let mut word_index: usize = 0;
        assert(text@ =~= heading + words_text(self.words(), 0));
        while word_index < self.storage.len()
            invariant
                word_index <= self.words().len(),
                text@ == heading + words_text(self.words(), word_index as nat),
            decreases self.words().len() - word_index,
        {
            let word = self.storage[word_index];
            let ghost before = text@;
            text.append(" ");
            let ghost line = text@;
            let mut position: u32 = 0;
            assert(text@ =~= line + bits_text(word).take(0));
            while position < 64
                invariant
                    position <= 64,
                    text@ == line + bits_text(word).take(position as int),
                decreases 64 - position,
            {
                proof {
                    reveal_strlit("0");
                    reveal_strlit("1");
                }
                if (word >> (63 - position)) & 1 == 1 {
                    text.append("1");
                } else {
                    text.append("0");
                }
                position += 1;
                assert(text@ =~= line + bits_text(word).take(position as int));
            }
            assert(bits_text(word).take(64) =~= bits_text(word));
            text.append(" => ");
            text.append(unsigned_text(word_index as u64).as_str());
            text.append("\n");
            word_index += 1;
            assert(text@ =~= heading + words_text(self.words(), word_index as nat));
        }
        text.append("])\n");
        text
    }

    /// While the search starts at the first word, it goes through the
    /// chunks in the order of their indices: the chunk handed out is the
    /// free chunk with the lowest index.
    pub proof fn lemma_search_from_first_word(&self, index: int)
        requires
            self.well_formed(),
            self.hint() == 0,
            0 <= index < self.arena().spec_num_chunks(),
        ensures
            self.search_rank(index) == index,
    {
        vstd::arithmetic::div_mod::lemma_small_mod(
            (index / 64) as nat,
            self.words().len() as nat,
        );
    }

    /// The hint never names a word past the last one.
    pub proof fn lemma_hint_in_range(&self)
        requires
            self.well_formed(),
            self.arena().spec_num_chunks() > 0,
        ensures
            self.hint() <= self.arena().spec_num_chunks() / 64 - 1,
    {
    }
}

/// Going `steps` words round from word `start` and back leads to `steps`.
proof fn lemma_round_from(start: int, steps: int, count: int)
    requires
        0 <= start < count,
        0 <= steps < count,
    ensures
        0 <= (start + steps) % count < count,
        ((start + steps) % count - start) % count == steps,
{
    if start + steps < count {
        vstd::arithmetic::div_mod::lemma_small_mod((start + steps) as nat, count as nat);
        vstd::arithmetic::div_mod::lemma_small_mod(steps as nat, count as nat);
    } else {
        vstd::arithmetic::div_mod::lemma_mod_sub_multiples_vanish(start + steps, count);
        vstd::arithmetic::div_mod::lemma_small_mod((start + steps - count) as nat, count as nat);
        vstd::arithmetic::div_mod::lemma_mod_add_multiples_vanish(steps - count, count);
        vstd::arithmetic::div_mod::lemma_small_mod(steps as nat, count as nat);
    }
}

/// The number of words from word `start` round to word `target` leads from
/// `start` to `target`.
proof fn lemma_round_to(start: int, target: int, count: int)
    requires
        0 <= start < count,
        0 <= target < count,
    ensures
        0 <= (target - start) % count < count,
        (start + (target - start) % count) % count == target,
{
    if target >= start {
        vstd::arithmetic::div_mod::lemma_small_mod((target - start) as nat, count as nat);
        vstd::arithmetic::div_mod::lemma_small_mod(target as nat, count as nat);
    } else {
        vstd::arithmetic::div_mod::lemma_mod_add_multiples_vanish(target - start, count);
        vstd::arithmetic::div_mod::lemma_small_mod((target - start + count) as nat, count as nat);
        vstd::arithmetic::div_mod::lemma_mod_sub_multiples_vanish(target + count, count);
        vstd::arithmetic::div_mod::lemma_small_mod(target as nat, count as nat);
    }
}

impl UmemAllocator for AtomicBitSetAllocator {
    open spec fn wf(&self) -> bool {
        self.well_formed()
    }

    open spec fn umem(&self) -> Umem {
        self.arena()
    }

    open spec fn free(&self) -> Multiset<usize> {
        Multiset::from_set(self.free_set())
    }

    /// The arena must have a multiple of 64 chunks.
    open spec fn supports(umem: &Umem) -> bool {
        umem.spec_num_chunks() % 64 == 0
    }

    /// A chunk is taken back when it is a chunk of the arena and is handed
    /// out.
    open spec fn accepts(&self, index: usize) -> bool {
        index < self.arena().spec_num_chunks() && self.is_allocated(index as int)
    }

    proof fn lemma_free_in_range(&self) {
        self.lemma_free_count();
    }

    proof fn lemma_accepts_held(&self, index: usize) {
        self.lemma_free_count();
    }

    fn supported(umem: &Umem) -> (r: bool) {
        umem.num_chunks() % BITS_PER_WORD == 0
    }

    fn for_umem(umem: Arc<Umem>) -> (r: Self)
        ensures
            r.hint() == 0,
            r.words() == Seq::new((umem.spec_num_chunks() / 64) as nat, |k: int| 0u64),
            forall|index: int| 0 <= index < umem.spec_num_chunks() ==> r.is_free(index),
    {
        let word_count = umem.num_chunks() / BITS_PER_WORD;
        let mut storage: Vec<u64> = Vec::new();
        while storage.len() < word_count
            invariant
                storage@.len() <= word_count,
                forall|k: int| 0 <= k < storage@.len() ==> storage@[k] == 0u64,
            decreases word_count - storage@.len(),
        {
            storage.push(0u64);
        }
        let r = Self { umem, storage, next_word_hint: 0 };
        proof {
            assert(r.words() =~= Seq::new((umem.spec_num_chunks() / 64) as nat, |k: int| 0u64));
            let count = umem.spec_num_chunks() as nat;
            lemma_all_chunks(count);
            r.lemma_free_count();
            assert forall|index: int| 0 <= index < count implies r.is_free(index) by {
                let word = r.words()[index / 64];
                assert(word == 0u64);
                lemma_test_bit(0u64, index % 64);
                assert(0u64 & mask_of(index % 64) == 0) by (bit_vector);
            }
            assert forall|index: usize| index < count implies r.is_free(index as int) by {
                assert(r.is_free(index as int));
            }
            assert(r.free() =~= all_chunks(count));
        }
        r
    }

    fn umem_reference(&self) -> (r: &Umem) {
        &self.umem
    }

    /// Hands out the free chunk that the search meets first, and lowers the
    /// hint to the word of that chunk, or to the word after it if the chunk
    /// was the last free one of its word.
    fn try_allocate(&mut self) -> (r: Option<usize>)
        ensures
            r is None ==> *final(self) == *old(self),
            r matches Some(index) ==> {
                &&& old(self).is_free(index as int)
                &&& old(self).hint() == 0 ==> forall|other: int| #[trigger]
                    old(self).is_free(other) ==> index <= other
                &&& forall|other: int| #[trigger]
                    old(self).is_free(other) ==> old(self).search_rank(index as int) <= old(self).search_rank(other)
                &&& final(self).words() == old(self).words().update(
                    index as int / 64,
                    old(self).words()[index as int / 64] | mask_of(index as int % 64),
                )
                &&& final(self).hint() == lower(
                    old(self).hint() as int,
                    if final(self).words()[index as int / 64] == FULL_WORD {
                        (index as int / 64 + 1) % (old(self).words().len() as int)
                    } else {
                        index as int / 64
                    },
                )
            },
    {
        let word_count = self.storage.len();
        let mut offset: usize = 0;
        while offset < word_count
            invariant
                *self == *old(self),
                self.well_formed(),
                word_count == self.words().len(),
                offset <= word_count,
                forall|steps: int|
                    0 <= steps < offset ==> #[trigger] self.words()[(self.hint() + steps) % (
                    word_count as int)] == FULL_WORD,
            decreases word_count - offset,
        {
            // get word index
            let word_index = (self.next_word_hint + offset) % word_count;
            proof {
                lemma_round_from(self.hint() as int, offset as int, word_count as int);
            }

            // load current value
            let word = self.storage[word_index];

            // skip full words
            if word != FULL_WORD {
                // the first position which is not a one
                // e.g. 1 1 1 1 0 0 0 0 => position 4
                let bit_index = first_clear_bit(word);
                let mask = bit_mask(bit_index);

                // allocate
                let allocated_word = word | mask;
                self.storage.set(word_index, allocated_word);

                // update hint
                let reached = if allocated_word == FULL_WORD {
                    (word_index + 1) % word_count
                } else {
                    word_index
                };
                if reached < self.next_word_hint {
                    self.next_word_hint = reached;
                }
                let index = word_index * BITS_PER_WORD + bit_index as usize;
                proof {
                    let before = *old(self);
                    let hint = before.hint() as int;
                    let count = word_count as int;
                    assert(index as int / 64 == word_index && index as int % 64 == bit_index);
                    assert(before.is_free(index as int));
                    assert forall|other: int| #[trigger] before.is_free(other) implies before.search_rank(
                        index as int,
                    ) <= before.search_rank(other) by {
                        let other_word = other / 64;
                        lemma_round_to(hint, other_word, count);
                        let steps = (other_word - hint) % count;
                        if steps < offset {
                            assert(before.words()[(hint + steps) % count] == FULL_WORD);
                            lemma_full_word(before.words()[other_word]);
                            assert(bit_at(before.words()[other_word], other % 64));
                        } else if steps == offset {
                            assert(other_word == word_index);
                        } else {
                            assert(steps * 64 >= (offset + 1) * 64);
                        }
                    }
                    if hint == 0 {
                        assert forall|other: int| #[trigger] before.is_free(other) implies index
                            <= other by {
                            before.lemma_search_from_first_word(index as int);
                            before.lemma_search_from_first_word(other);
                        }
                    }
                    before.lemma_free_count();
                    self.lemma_free_count();
                    assert forall|other: usize| #[trigger]
                        self.is_free(other as int) == (before.is_free(other as int) && other
                            != index) by {
                        if other < before.arena().spec_num_chunks() {
                            if other as int / 64 == word_index {
                                lemma_set_bit(word, bit_index as int, other as int % 64);
                            }
                        }
                    }
                    assert(self.free() =~= before.free().remove(index));
                    assert(before.free().len() > 0) by {
                        vstd::multiset::axiom_count_le_len(before.free(), index);
                    }
                }
                return Some(index);
            }
            offset += 1;
        }
        proof {
            let count = word_count as int;
            self.lemma_free_count();
            assert forall|index: usize| !self.is_free(index as int) by {
                if index < self.arena().spec_num_chunks() {
                    let word_index = index as int / 64;
                    lemma_round_to(self.hint() as int, word_index, count);
                    let steps = (word_index - self.hint()) % count;
                    assert(self.words()[(self.hint() + steps) % count] == FULL_WORD);
                    lemma_full_word(self.words()[word_index]);
                    assert(bit_at(self.words()[word_index], index as int % 64));
                }
            }
            assert(self.free_set() =~= Set::<usize>::empty());
        }
        None
    }

    /// Clears the chunk's bit and lowers the hint to the chunk's word. An
    /// index that is not a chunk of the arena changes nothing.
    fn try_release(&mut self, index: usize) -> (r: bool)
        ensures
            index >= old(self).arena().spec_num_chunks() ==> *final(self) == *old(self),
            index < old(self).arena().spec_num_chunks() ==> {
                &&& final(self).words() == old(self).words().update(
                    index as int / 64,
                    old(self).words()[index as int / 64] & !mask_of(index as int % 64),
                )
                &&& final(self).hint() == lower(old(self).hint() as int, index as int / 64)
            },
    {
        // get the indexes
        let word_index = index / BITS_PER_WORD;
        let bit_index = index - word_index * BITS_PER_WORD;

        // do a bounds check
        if word_index >= self.storage.len() {
            return false;
        }
        // calculate mask
        let mask = bit_mask(bit_index as u32);
        let neg_mask = !mask;

        // deallocate
        let prev_value = self.storage[word_index];
        self.storage.set(word_index, prev_value & neg_mask);

        // update next word hint
        if word_index < self.next_word_hint {
            self.next_word_hint = word_index;
        }
        proof {
            let before = *old(self);
            lemma_test_bit(prev_value, bit_index as int);
            before.lemma_free_count();
            self.lemma_free_count();
            assert forall|other: usize| #[trigger]
                self.is_free(other as int) == (before.is_free(other as int) || other == index) by {
                if other < before.arena().spec_num_chunks() {
                    if other as int / 64 == word_index {
                        lemma_clear_bit(prev_value, bit_index as int, other as int % 64);
                    }
                }
            }
            if before.is_allocated(index as int) {
                assert(self.free() =~= before.free().insert(index));
            } else {
                assert(self.free() =~= before.free());
            }
        }
        (prev_value & mask) > 0
    }

    /// The number of free chunks: the bits that are not set.
    fn num_available(&self) -> (r: Option<usize>)
        ensures
            r == Some(self.free().len() as usize),
    {
        let allocated = self.count_allocated();
        Some(self.umem.num_chunks() - allocated)
    }

    /// The number of chunks handed out: the bits that are set.
    fn num_allocated(&self) -> (r: Option<usize>)
        ensures
            r == Some((self.arena().spec_num_chunks() - self.free().len()) as usize),
    {
        Some(self.count_allocated())
    }
}

} // verus!
