use std::sync::Arc;

use xdrippi::umem_allocator::atomics::{bit_mask, count_set_bits, first_clear_bit};
use xdrippi::umem_allocator::{AtomicBitSetAllocator, ConcurrentQueueAllocator, UmemAllocator};
use xdrippi::Umem;

fn crunch_allocator_run<A: UmemAllocator>(n_slots: usize, n_workers: usize) {
    // settings
    let n_slots_per_worker = n_slots / n_workers;

    // create umem and allocator
    let umem = Arc::new(Umem::new_2k(n_slots).unwrap());
    let mut allocator = A::for_umem(umem);

    // allocate for every worker in turn, one chunk at a time
    let mut per_worker: Vec<Vec<usize>> =
        (0..n_workers).map(|_| Vec::with_capacity(n_slots_per_worker)).collect();
    for _ in 0..n_slots_per_worker {
        for positions in per_worker.iter_mut() {
            positions.push(allocator.try_allocate().unwrap());
        }
    }

    // gather what the workers hold
    let positions = per_worker.drain(..).reduce(|acc, x| [acc, x].concat()).unwrap();

    // assert we allocated the whole umem, uniquely
    assert_eq!(positions.len(), n_slots);
    let mut sorted = positions.clone();
    sorted.sort();
    assert_eq!(sorted, (0..n_slots).collect::<Vec<_>>());

    // assert allocator is empty
    assert_eq!(allocator.try_allocate(), None);

    // give back all allocations
    for position in positions {
        assert!(allocator.try_release(position), "Failed releasing position {position}");
    }

    // check the number of available slots
    match allocator.num_available() {
        Some(x) => assert_eq!(x, n_slots),
        None => {}
    }

    // everything can be handed out again
    assert!(allocator.try_allocate().is_some());
}

fn crunch_allocator<A: UmemAllocator>() {
    for n_slots in [1024, 2048, 4096, 8192] {
        for n_workers in [1, 2, 4, 8, 16, 32] {
            crunch_allocator_run::<A>(n_slots, n_workers);
        }
    }
}

#[test]
fn test_atomics_allocator() {
    crunch_allocator::<AtomicBitSetAllocator>();
}

#[test]
fn test_queue_allocator() {
    crunch_allocator::<ConcurrentQueueAllocator>();
}

fn exhaustion<A: UmemAllocator>() {
    let umem = Arc::new(Umem::new_2k(1024).unwrap());
    let mut allocator = A::for_umem(umem);
    let mut seen = vec![false; 1024];
    for _ in 0..1024 {
        let index = allocator.try_allocate().unwrap();
        assert!(index < 1024);
        assert!(!seen[index]);
        seen[index] = true;
    }
    assert_eq!(allocator.try_allocate(), None);
    assert!(allocator.try_release(517));
    assert_eq!(allocator.try_allocate(), Some(517));
    assert_eq!(allocator.try_allocate(), None);
}

#[test]
fn bit_set_allocator_exhaustion() {
    exhaustion::<AtomicBitSetAllocator>();
}

#[test]
fn queue_allocator_exhaustion() {
    exhaustion::<ConcurrentQueueAllocator>();
}

#[test]
fn bit_set_allocator_hands_out_lowest_free_chunk() {
    let umem = Arc::new(Umem::new_4k(128).unwrap());
    let mut allocator = AtomicBitSetAllocator::for_umem(umem);
    for expected in 0..70 {
        assert_eq!(allocator.try_allocate(), Some(expected));
    }
    assert!(allocator.try_release(65));
    assert!(allocator.try_release(3));
    assert!(allocator.try_release(64));
    assert_eq!(allocator.try_allocate(), Some(3));
    assert_eq!(allocator.try_allocate(), Some(64));
    assert_eq!(allocator.try_allocate(), Some(65));
    assert_eq!(allocator.try_allocate(), Some(70));
}

#[test]
fn bit_set_allocator_release_of_later_word_does_not_come_first() {
    let umem = Arc::new(Umem::new_2k(128).unwrap());
    let mut allocator = AtomicBitSetAllocator::for_umem(umem);
    for expected in 0..65 {
        assert_eq!(allocator.try_allocate(), Some(expected));
    }
    assert!(allocator.try_release(1));
    assert!(allocator.try_release(64));
    assert_eq!(allocator.try_allocate(), Some(1));
    assert_eq!(allocator.try_allocate(), Some(64));
}

#[test]
fn bit_set_allocator_refuses_what_is_not_handed_out() {
    let umem = Arc::new(Umem::new_2k(64).unwrap());
    let mut allocator = AtomicBitSetAllocator::for_umem(umem);
    assert!(!allocator.try_release(0));
    assert!(!allocator.try_release(64));
    assert!(!allocator.try_release(usize::MAX));
    assert_eq!(allocator.try_allocate(), Some(0));
    assert!(allocator.try_release(0));
    assert!(!allocator.try_release(0));
}

#[test]
fn bit_set_allocator_of_empty_arena_has_nothing() {
    let umem = Arc::new(Umem::new_2k(0).unwrap());
    let mut allocator = AtomicBitSetAllocator::for_umem(umem);
    assert_eq!(allocator.try_allocate(), None);
    assert!(!allocator.try_release(0));
}

#[test]
fn queue_allocator_hands_out_in_order_of_release() {
    let umem = Arc::new(Umem::new_2k(4).unwrap());
    let mut allocator = ConcurrentQueueAllocator::for_umem(umem);
    assert_eq!(allocator.num_available(), Some(4));
    assert_eq!(allocator.num_allocated(), Some(0));
    for expected in 0..4 {
        assert_eq!(allocator.try_allocate(), Some(expected));
    }
    assert_eq!(allocator.num_available(), Some(0));
    assert_eq!(allocator.num_allocated(), Some(4));
    assert_eq!(allocator.try_allocate(), None);
    assert!(allocator.try_release(2));
    assert!(allocator.try_release(0));
    assert_eq!(allocator.num_available(), Some(2));
    assert_eq!(allocator.num_allocated(), Some(2));
    assert_eq!(allocator.try_allocate(), Some(2));
    assert_eq!(allocator.try_allocate(), Some(0));
    assert_eq!(allocator.try_allocate(), None);
}

#[test]
fn queue_allocator_refuses_out_of_range_and_overfull() {
    let umem = Arc::new(Umem::new_2k(2).unwrap());
    let mut allocator = ConcurrentQueueAllocator::for_umem(umem);
    assert!(!allocator.try_release(2));
    assert!(!allocator.try_release(0));
    assert_eq!(allocator.try_allocate(), Some(0));
    assert!(allocator.try_release(0));
    assert!(!allocator.try_release(1));
    assert_eq!(allocator.num_available(), Some(2));
}

fn release_by_offset<A: UmemAllocator>() {
    let umem = Arc::new(Umem::new_2k(64).unwrap());
    let mut allocator = A::for_umem(umem);
    for _ in 0..64 {
        allocator.try_allocate().unwrap();
    }
    assert_eq!(allocator.umem_reference().num_chunks(), 64);
    assert!(allocator.try_release_offset(5 * 2048 + 17));
    assert_eq!(allocator.try_allocate(), Some(5));
    assert!(!allocator.try_release_offset(64 * 2048));
    allocator.release_offset(7 * 2048);
    assert_eq!(allocator.try_allocate(), Some(7));
    allocator.release(9);
    assert_eq!(allocator.try_allocate(), Some(9));
    assert_eq!(allocator.try_allocate(), None);
}

#[test]
fn bit_set_allocator_releases_by_offset() {
    release_by_offset::<AtomicBitSetAllocator>();
}

#[test]
fn queue_allocator_releases_by_offset() {
    release_by_offset::<ConcurrentQueueAllocator>();
}

#[test]
fn allocators_say_which_arenas_they_serve() {
    let none = Umem::new_2k(0).unwrap();
    let odd = Umem::new_2k(100).unwrap();
    let even = Umem::new_2k(128).unwrap();
    assert!(AtomicBitSetAllocator::supported(&none));
    assert!(!AtomicBitSetAllocator::supported(&odd));
    assert!(AtomicBitSetAllocator::supported(&even));
    assert!(!ConcurrentQueueAllocator::supported(&none));
    assert!(ConcurrentQueueAllocator::supported(&odd));
    assert!(ConcurrentQueueAllocator::supported(&even));
}

#[test]
fn bit_set_allocator_counts_its_chunks() {
    let umem = Arc::new(Umem::new_2k(192).unwrap());
    let mut allocator = AtomicBitSetAllocator::for_umem(umem);
    assert_eq!(allocator.num_available(), Some(192));
    assert_eq!(allocator.num_allocated(), Some(0));
    for _ in 0..100 {
        allocator.try_allocate().unwrap();
    }
    assert_eq!(allocator.num_available(), Some(92));
    assert_eq!(allocator.num_allocated(), Some(100));
    assert!(allocator.try_release(64));
    assert!(allocator.try_release(0));
    assert!(!allocator.try_release(150));
    assert_eq!(allocator.num_available(), Some(94));
    assert_eq!(allocator.num_allocated(), Some(98));
}

#[test]
fn bits_of_a_word_are_counted_from_the_left() {
    assert_eq!(first_clear_bit(0), 0);
    assert_eq!(first_clear_bit(u64::MAX), 64);
    assert_eq!(first_clear_bit(0xf000_0000_0000_0000), 4);
    assert_eq!(first_clear_bit(0x7fff_ffff_ffff_ffff), 0);
    assert_eq!(first_clear_bit(0xffff_ffff_ffff_fffe), 63);
    assert_eq!(bit_mask(0), 0x8000_0000_0000_0000);
    assert_eq!(bit_mask(4), 0x0800_0000_0000_0000);
    assert_eq!(bit_mask(63), 1);
    assert_eq!(count_set_bits(0), 0);
    assert_eq!(count_set_bits(u64::MAX), 64);
    assert_eq!(count_set_bits(0xf0f0), 8);
    assert_eq!(count_set_bits(0x8000_0000_0000_0001), 2);
    for word in [1u64, 0xdead_beef, 0x0123_4567_89ab_cdef, u64::MAX - 1] {
        assert_eq!(count_set_bits(word), word.count_ones());
        assert_eq!(first_clear_bit(word), word.leading_ones());
    }
}

#[test]
fn bit_set_allocator_shows_its_words() {
    let umem = Arc::new(Umem::new_2k(128).unwrap());
    let mut allocator = AtomicBitSetAllocator::for_umem(umem);
    for _ in 0..66 {
        allocator.try_allocate().unwrap();
    }
    assert!(allocator.try_release(3));
    let ones = "1".repeat(64);
    let zeros = "0".repeat(62);
    assert_eq!(
        allocator.describe(),
        format!(
            "AtomicBitSetAllocator (storage = [\n {} => 0\n 11{} => 1\n])\n",
            ones.replacen("1111", "1110", 1),
            zeros
        )
    );
    let empty = AtomicBitSetAllocator::for_umem(Arc::new(Umem::new_2k(0).unwrap()));
    assert_eq!(empty.describe(), "AtomicBitSetAllocator (storage = [\n])\n");
}

#[test]
fn bit_set_allocator_hint_stays_among_the_words() {
    let umem = Arc::new(Umem::new_2k(256).unwrap());
    let mut allocator = AtomicBitSetAllocator::for_umem(umem);
    assert_eq!(allocator.next_word_hint(), 0);
    let mut held = Vec::new();
    for round in 0..40usize {
        for _ in 0..(round * 7 % 64 + 1) {
            if let Some(index) = allocator.try_allocate() {
                held.push(index);
            }
            assert!(allocator.next_word_hint() <= 256 / 64 - 1);
        }
        for _ in 0..(round * 5 % 32) {
            if !held.is_empty() {
                let index = held.remove(round * 3 % held.len());
                assert!(allocator.try_release(index));
            }
            assert!(allocator.next_word_hint() <= 256 / 64 - 1);
        }
    }
    let mut sorted = held.clone();
    sorted.sort();
    sorted.dedup();
    assert_eq!(sorted.len(), held.len());
    assert_eq!(allocator.num_allocated(), Some(held.len()));
}

#[test]
fn default_allocator_is_the_queue_allocator() {
    let umem = Arc::new(Umem::new_2k(8).unwrap());
    let mut allocator = xdrippi::DefaultAllocator::for_umem(umem);
    assert_eq!(allocator.try_allocate(), Some(0));
    assert!(allocator.try_release(0));
    assert_eq!(allocator.try_allocate(), Some(1));
}
