use xdrippi::ring::{RingOffsets, XDPRing, XdpDesc};
use xdrippi::Error;
use xdrippi::ring::{
    cursors_can_consume, cursors_can_produce, frame_fits, frame_of, frame_of_mut,
    mapping_outcome, retarget, slot_index,
};

fn fill_ring(size: usize) -> XDPRing<u64> {
    XDPRing::new(size, 0, 0, vec![0u64; size])
}

#[test]
fn fill_ring_round_trip_preserves_order() {
    let mut ring = fill_ring(8);
    let produced = [0u64, 2048, 4096, 6144];
    for offset in produced {
        assert!(ring.can_produce());
        ring.produce_umem_offset(offset);
    }
    let mut observed = Vec::new();
    for _ in 0..4 {
        assert!(ring.can_consume());
        observed.push(ring.get_nth_umem_offset(ring.get_consumer_index() as usize));
        ring.advance_consumer_index();
    }
    assert_eq!(observed, vec![0u64, 2048, 4096, 6144]);
    assert!(!ring.can_consume());
}

#[test]
fn new_ring_is_empty_and_not_full() {
    let ring = fill_ring(8);
    assert_eq!(ring.num_elements(), 8);
    assert_eq!(ring.num_elements_mask(), 7);
    assert_eq!(ring.get_consumer_index(), 0);
    assert_eq!(ring.get_producer_index(), 0);
    assert!(!ring.can_consume());
    assert!(ring.can_produce());
}

#[test]
fn ring_is_full_one_slot_short_of_its_size() {
    let mut ring = fill_ring(4);
    for offset in [10u64, 20, 30] {
        assert!(ring.can_produce());
        ring.produce_umem_offset(offset);
    }
    assert!(!ring.can_produce());
    assert!(ring.can_consume());
    assert_eq!(ring.get_producer_index(), 3);
    ring.advance_consumer_index();
    assert!(ring.can_produce());
}

#[test]
fn ring_of_one_slot_is_always_empty_and_full() {
    let ring = fill_ring(1);
    assert_eq!(ring.num_elements_mask(), 0);
    assert!(!ring.can_consume());
    assert!(!ring.can_produce());
}

#[test]
fn cursors_are_reduced_modulo_the_size() {
    let ring: XDPRing<u64> = XDPRing::new(8, 13, 22, vec![0u64; 8]);
    assert_eq!(ring.get_consumer_index(), 5);
    assert_eq!(ring.get_producer_index(), 6);
    assert!(ring.can_consume());
    assert!(ring.can_produce());
}

#[test]
fn cursors_wrap_around_the_32_bit_range() {
    let mut ring: XDPRing<u64> = XDPRing::new(8, u32::MAX, u32::MAX, vec![0u64; 8]);
    assert_eq!(ring.get_producer_index(), 7);
    ring.produce_umem_offset(4096);
    assert_eq!(ring.get_producer_index(), 0);
    assert!(ring.can_consume());
    assert_eq!(ring.get_nth_umem_offset(ring.get_consumer_index() as usize), 4096);
    ring.advance_consumer_index();
    assert_eq!(ring.get_consumer_index(), 0);
    assert!(!ring.can_consume());
}

#[test]
fn ring_wraps_over_many_rounds_in_order() {
    let mut ring = fill_ring(4);
    let mut next_in = 1u64;
    let mut next_out = 1u64;
    for _ in 0..50 {
        while ring.can_produce() {
            ring.produce_umem_offset(next_in);
            next_in += 1;
        }
        while ring.can_consume() {
            let seen = ring.get_nth_umem_offset(ring.get_consumer_index() as usize);
            assert_eq!(seen, next_out);
            next_out += 1;
            ring.advance_consumer_index();
        }
    }
    assert_eq!(next_in, next_out);
    assert_eq!(next_in, 151);
}

#[test]
fn set_and_get_nth_offset() {
    let mut ring = fill_ring(8);
    ring.set_nth_umem_offset(3, 6144);
    assert_eq!(ring.get_nth_umem_offset(3), 6144);
    assert_eq!(*ring.get_nth_descriptor(3), 6144);
    *ring.get_nth_descriptor_mut(5) = 77;
    assert_eq!(ring.get_nth_umem_offset(5), 77);
    assert_eq!(ring.get_nth_umem_offset(0), 0);
    assert_eq!(ring.get_producer_index(), 0);
}

#[test]
fn advance_producer_moves_only_the_producer() {
    let mut ring = fill_ring(8);
    ring.advance_producer_index();
    assert_eq!(ring.get_producer_index(), 1);
    assert_eq!(ring.get_consumer_index(), 0);
    assert!(ring.can_consume());
}

fn descriptor(addr: u64, len: u32) -> XdpDesc {
    XdpDesc { addr, len, options: 0 }
}

#[test]
fn slice_of_descriptor_is_its_frame() {
    let mut slots = vec![descriptor(0, 0); 4];
    slots[2] = descriptor(4, 3);
    let ring = XDPRing::new(4, 0, 0, slots);
    let memory: Vec<u8> = (0u8..16).collect();
    assert_eq!(ring.get_nth_slice(2, &memory), &[4u8, 5, 6][..]);
    assert_eq!(ring.get_nth_slice(0, &memory), &[][..] as &[u8]);
}

#[test]
fn mutable_slice_retargets_the_descriptor_first() {
    let mut ring = XDPRing::new(4, 0, 0, vec![descriptor(0, 0); 4]);
    let mut memory = vec![0u8; 16];
    {
        let frame = ring.get_nth_slice_mut(1, &mut memory, Some(8), Some(4));
        assert_eq!(frame.len(), 4);
        frame.copy_from_slice(&[1, 2, 3, 4]);
    }
    assert_eq!(*ring.get_nth_descriptor(1), XdpDesc { addr: 8, len: 4, options: 0 });
    assert_eq!(memory, vec![0, 0, 0, 0, 0, 0, 0, 0, 1, 2, 3, 4, 0, 0, 0, 0]);
    {
        let frame = ring.get_nth_slice_mut(1, &mut memory, None, Some(2));
        assert_eq!(frame, &mut [1u8, 2][..]);
    }
    assert_eq!(*ring.get_nth_descriptor(1), XdpDesc { addr: 8, len: 2, options: 0 });
    {
        let frame = ring.get_nth_slice_mut(1, &mut memory, Some(10), None);
        assert_eq!(frame, &mut [3u8, 4][..]);
    }
    assert_eq!(ring.get_nth_slice(1, &memory), &[3u8, 4][..]);
}

#[test]
fn mapping_size_is_descriptor_offset_plus_slots() {
    let offsets = RingOffsets { producer: 128, consumer: 192, desc: 320 };
    assert_eq!(offsets.mmap_size(16, 512), Ok(320 + 16 * 512));
    assert_eq!(offsets.mmap_size(8, 8), Ok(384));
    assert_eq!(offsets.mmap_size(8, 0), Ok(320));
}

#[test]
fn mapping_size_that_does_not_fit_is_a_map_failure() {
    let offsets = RingOffsets { producer: 0, consumer: 0, desc: 320 };
    assert_eq!(offsets.mmap_size(16, usize::MAX), Err(Error::MemoryMapFailure));
    assert_eq!(offsets.mmap_size(1, usize::MAX - 10), Err(Error::MemoryMapFailure));
    let far = RingOffsets { producer: 0, consumer: 0, desc: u64::MAX };
    assert_eq!(far.mmap_size(1, 1), Err(Error::MemoryMapFailure));
}


#[test]
fn slot_of_a_cursor_is_its_residue() {
    assert_eq!(slot_index(0, 8), 0);
    assert_eq!(slot_index(13, 8), 5);
    assert_eq!(slot_index(u32::MAX, 8), 7);
    assert_eq!(slot_index(u32::MAX, 1), 0);
    assert_eq!(slot_index(0x8000_0001, 0x8000_0000), 1);
    assert_eq!(slot_index(1000, 512), 488);
}

#[test]
fn cursors_tell_empty_and_full() {
    assert!(!cursors_can_consume(0, 0, 8));
    assert!(cursors_can_produce(0, 0, 8));
    assert!(cursors_can_consume(0, 7, 8));
    assert!(!cursors_can_produce(0, 7, 8));
    assert!(!cursors_can_consume(3, 11, 8));
    assert!(cursors_can_produce(3, 11, 8));
    assert!(!cursors_can_produce(4, 11, 8));
    assert!(!cursors_can_produce(0, u32::MAX, 8));
    assert!(cursors_can_consume(0, u32::MAX, 8));
    assert!(cursors_can_produce(2, u32::MAX, 8));
}

#[test]
fn mapping_without_address_is_a_map_failure() {
    assert_eq!(mapping_outcome(0), Err(Error::MemoryMapFailure));
    assert_eq!(mapping_outcome(usize::MAX), Err(Error::MemoryMapFailure));
    assert_eq!(mapping_outcome(4096), Ok(4096));
    assert_eq!(mapping_outcome(1), Ok(1));
}

#[test]
fn frames_are_cut_out_of_the_arena() {
    let mut memory: Vec<u8> = (0u8..32).collect();
    let inside = descriptor(8, 4);
    let at_end = descriptor(30, 2);
    let past_end = descriptor(30, 3);
    let far = descriptor(u64::MAX, 1);
    let empty_at_end = descriptor(32, 0);
    assert!(frame_fits(&inside, 32));
    assert!(frame_fits(&at_end, 32));
    assert!(!frame_fits(&past_end, 32));
    assert!(!frame_fits(&far, 32));
    assert!(frame_fits(&empty_at_end, 32));
    assert!(!frame_fits(&descriptor(33, 0), 32));
    assert_eq!(frame_of(&inside, &memory), &[8u8, 9, 10, 11][..]);
    assert_eq!(frame_of(&at_end, &memory), &[30u8, 31][..]);
    assert_eq!(frame_of(&empty_at_end, &memory).len(), 0);
    frame_of_mut(&inside, &mut memory).copy_from_slice(&[0, 0, 0, 0]);
    assert_eq!(&memory[6..14], &[6, 7, 0, 0, 0, 0, 12, 13]);
}

#[test]
fn retargeting_replaces_what_is_given() {
    let before = XdpDesc { addr: 100, len: 60, options: 9 };
    assert_eq!(retarget(before, None, None), before);
    assert_eq!(retarget(before, Some(4096), None), XdpDesc { addr: 4096, len: 60, options: 9 });
    assert_eq!(retarget(before, None, Some(64)), XdpDesc { addr: 100, len: 64, options: 9 });
    assert_eq!(
        retarget(before, Some(2048), Some(1500)),
        XdpDesc { addr: 2048, len: 1500, options: 9 }
    );
    assert_eq!(
        retarget(before, None, Some(0x1_0000_0005)),
        XdpDesc { addr: 100, len: 5, options: 9 }
    );
}
