use std::sync::Arc;

use xdrippi::ring::RingOffsets;
use xdrippi::socket::{
    is_power_of_two, MmapOffsets, RingKind, SetupOutcome, SetupRequest, SetupStage, SocketSetup,
    AF_XDP, DESCRIPTOR_SIZE, MAP_FAILED, MMAP_OFFSETS_SIZE, OFFSET_SIZE, SOCK_RAW, SOL_XDP,
    XDP_MMAP_OFFSETS, XDP_OPTIONS, XDP_PGOFF_RX_RING, XDP_PGOFF_TX_RING, XDP_RX_RING,
    XDP_STATISTICS, XDP_TX_RING, XDP_UMEM_COMPLETION_RING, XDP_UMEM_FILL_RING,
    XDP_UMEM_PGOFF_COMPLETION_RING, XDP_UMEM_PGOFF_FILL_RING, XDP_UMEM_REG, XDP_USE_NEED_WAKEUP,
};
use xdrippi::{Error, Umem};
use xdrippi::socket::{ring_text, statistics_text, Statistics};

fn offsets() -> MmapOffsets {
    MmapOffsets {
        rx: RingOffsets { producer: 128, consumer: 192, desc: 320 },
        tx: RingOffsets { producer: 128, consumer: 192, desc: 320 },
        fr: RingOffsets { producer: 128, consumer: 192, desc: 448 },
        cr: RingOffsets { producer: 128, consumer: 192, desc: 512 },
    }
}

fn ok() -> SetupOutcome {
    SetupOutcome::Returned { result: 0, error: 0 }
}

fn failed(error: i32) -> SetupOutcome {
    SetupOutcome::Returned { result: -1, error }
}

fn offsets_read() -> SetupOutcome {
    SetupOutcome::OffsetsRead { result: 0, error: 0, received: 96, offsets: offsets() }
}

fn mapped() -> SetupOutcome {
    SetupOutcome::Mapped { address: 0x7f00_0000_1000 }
}

fn setup(rings_size: usize) -> SocketSetup {
    let umem = Arc::new(Umem::new_2k(512).unwrap());
    SocketSetup::new(7, 3, umem, rings_size)
}

/// Hands `count` successful outcomes to the setup.
fn run(setup: &mut SocketSetup, count: usize) {
    let all = [
        SetupOutcome::Returned { result: 5, error: 0 },
        ok(),
        ok(),
        ok(),
        ok(),
        ok(),
        offsets_read(),
        mapped(),
        mapped(),
        mapped(),
        mapped(),
        ok(),
    ];
    for outcome in all.into_iter().take(count) {
        assert!(setup.expects(&outcome));
        assert_eq!(setup.advance(outcome), Ok(()));
    }
}

#[test]
fn constants_are_those_of_the_kernel_interface() {
    assert_eq!(AF_XDP, libc::AF_XDP);
    assert_eq!(SOCK_RAW, libc::SOCK_RAW);
    assert_eq!(SOL_XDP, libc::SOL_XDP);
    assert_eq!(XDP_MMAP_OFFSETS, libc::XDP_MMAP_OFFSETS);
    assert_eq!(XDP_RX_RING, libc::XDP_RX_RING);
    assert_eq!(XDP_TX_RING, libc::XDP_TX_RING);
    assert_eq!(XDP_UMEM_REG, libc::XDP_UMEM_REG);
    assert_eq!(XDP_UMEM_FILL_RING, libc::XDP_UMEM_FILL_RING);
    assert_eq!(XDP_UMEM_COMPLETION_RING, libc::XDP_UMEM_COMPLETION_RING);
    assert_eq!(XDP_STATISTICS, libc::XDP_STATISTICS);
    assert_eq!(XDP_OPTIONS, libc::XDP_OPTIONS);
    assert_eq!(XDP_USE_NEED_WAKEUP, libc::XDP_USE_NEED_WAKEUP);
    assert_eq!(XDP_PGOFF_RX_RING, libc::XDP_PGOFF_RX_RING as u64);
    assert_eq!(XDP_PGOFF_TX_RING, libc::XDP_PGOFF_TX_RING as u64);
    assert_eq!(XDP_UMEM_PGOFF_FILL_RING, libc::XDP_UMEM_PGOFF_FILL_RING);
    assert_eq!(XDP_UMEM_PGOFF_COMPLETION_RING, libc::XDP_UMEM_PGOFF_COMPLETION_RING);
    assert_eq!(MMAP_OFFSETS_SIZE, std::mem::size_of::<libc::xdp_mmap_offsets_v1>());
    assert_eq!(DESCRIPTOR_SIZE, std::mem::size_of::<libc::xdp_desc>());
    assert_eq!(OFFSET_SIZE, std::mem::size_of::<u64>());
    assert_eq!(MAP_FAILED, libc::MAP_FAILED as usize);
    assert_eq!(std::mem::size_of::<xdrippi::ring::XdpDesc>(), DESCRIPTOR_SIZE);
}

#[test]
fn ring_kinds_have_their_sizes_offsets_and_options() {
    assert_eq!(RingKind::Rx.element_size(), 16);
    assert_eq!(RingKind::Tx.element_size(), 16);
    assert_eq!(RingKind::Fill.element_size(), 8);
    assert_eq!(RingKind::Completion.element_size(), 8);
    assert_eq!(RingKind::Rx.page_offset(), 0);
    assert_eq!(RingKind::Tx.page_offset(), 0x8000_0000);
    assert_eq!(RingKind::Fill.page_offset(), 0x1_0000_0000);
    assert_eq!(RingKind::Completion.page_offset(), 0x1_8000_0000);
    assert_eq!(RingKind::Rx.size_option(), 2);
    assert_eq!(RingKind::Tx.size_option(), 3);
    assert_eq!(RingKind::Fill.size_option(), 5);
    assert_eq!(RingKind::Completion.size_option(), 6);
    assert_eq!(offsets().of(RingKind::Fill).desc, 448);
    assert_eq!(offsets().of(RingKind::Completion).desc, 512);
}

#[test]
fn ring_size_must_be_a_power_of_two() {
    assert!(!is_power_of_two(1000));
    assert!(is_power_of_two(1024));
    assert!(!is_power_of_two(0));
    assert!(is_power_of_two(1));
    assert!(is_power_of_two(2));
    assert!(!is_power_of_two(3));
    assert!(is_power_of_two(512));
    assert!(!is_power_of_two(usize::MAX));
    assert!(is_power_of_two(1 << (usize::BITS - 1)));
    let mut setup = setup(1024);
    run(&mut setup, 12);
    assert!(setup.is_done());
}

#[test]
fn setup_asks_for_each_step_in_order() {
    let mut setup = setup(512);
    assert_eq!(setup.stage(), SetupStage::CreateSocket);
    assert_eq!(
        setup.request(),
        SetupRequest::CreateSocket { domain: 44, kind: 3, protocol: 0 }
    );
    run(&mut setup, 1);
    assert_eq!(setup.fd(), 5);
    assert_eq!(
        setup.request(),
        SetupRequest::RegisterUmem {
            level: 283,
            name: 4,
            len: 512 * 2048,
            chunk_size: 2048,
            headroom: 0
        }
    );
    run_from(&mut setup, ok());
    assert_eq!(setup.request(), SetupRequest::SizeRing { level: 283, name: 2, size: 512 });
    run_from(&mut setup, ok());
    assert_eq!(setup.request(), SetupRequest::SizeRing { level: 283, name: 3, size: 512 });
    run_from(&mut setup, ok());
    assert_eq!(setup.request(), SetupRequest::SizeRing { level: 283, name: 5, size: 512 });
    run_from(&mut setup, ok());
    assert_eq!(setup.request(), SetupRequest::SizeRing { level: 283, name: 6, size: 512 });
    run_from(&mut setup, ok());
    assert_eq!(
        setup.request(),
        SetupRequest::QueryOffsets { level: 283, name: 1, expecting: 96 }
    );
    run_from(&mut setup, offsets_read());
    assert_eq!(setup.offsets(), offsets());
    assert_eq!(
        setup.request(),
        SetupRequest::MapRing { ring: RingKind::Rx, length: 320 + 16 * 512, page_offset: 0 }
    );
    run_from(&mut setup, mapped());
    assert_eq!(
        setup.request(),
        SetupRequest::MapRing {
            ring: RingKind::Tx,
            length: 320 + 16 * 512,
            page_offset: 0x8000_0000
        }
    );
    run_from(&mut setup, mapped());
    assert_eq!(
        setup.request(),
        SetupRequest::MapRing {
            ring: RingKind::Completion,
            length: 512 + 8 * 512,
            page_offset: 0x1_8000_0000
        }
    );
    run_from(&mut setup, mapped());
    assert_eq!(
        setup.request(),
        SetupRequest::MapRing {
            ring: RingKind::Fill,
            length: 448 + 8 * 512,
            page_offset: 0x1_0000_0000
        }
    );
    run_from(&mut setup, mapped());
    assert_eq!(
        setup.request(),
        SetupRequest::Bind {
            family: 44,
            flags: 8,
            interface_index: 7,
            queue_id: 3,
            shared_umem_fd: 0
        }
    );
    assert!(!setup.is_done());
    run_from(&mut setup, ok());
    assert!(setup.is_done());
    assert_eq!(setup.stage(), SetupStage::Done);
    assert_eq!(setup.request(), SetupRequest::Nothing);
    assert_eq!(setup.interface_index(), 7);
    assert_eq!(setup.queue_id(), 3);
    assert_eq!(setup.rings_size(), 512);
    assert_eq!(setup.umem().num_chunks(), 512);
    assert_eq!(setup.fd(), 5);
}

fn run_from(setup: &mut SocketSetup, outcome: SetupOutcome) {
    assert!(setup.expects(&outcome));
    assert_eq!(setup.advance(outcome), Ok(()));
}

#[test]
fn setup_expects_the_outcome_of_its_request_only() {
    let mut setup = setup(512);
    assert!(setup.expects(&ok()));
    assert!(!setup.expects(&mapped()));
    assert!(!setup.expects(&offsets_read()));
    run(&mut setup, 6);
    assert!(!setup.expects(&ok()));
    assert!(setup.expects(&offsets_read()));
    run(&mut setup, 0);
    run_from(&mut setup, offsets_read());
    assert!(setup.expects(&mapped()));
    assert!(!setup.expects(&ok()));
}

#[test]
fn failed_socket_call_is_a_creation_failure() {
    let mut setup = setup(512);
    assert_eq!(setup.advance(failed(13)), Err(Error::SocketCreationFailure));
    assert_eq!(setup.stage(), SetupStage::Failed);
    assert_eq!(setup.request(), SetupRequest::Nothing);
    assert!(!setup.expects(&ok()));
    assert!(!setup.is_done());
}

#[test]
fn failed_registration_is_a_set_option_failure() {
    let mut setup = setup(512);
    run(&mut setup, 1);
    assert_eq!(
        setup.advance(failed(22)),
        Err(Error::SocketSetOptionFailure { error: 22, level: 283, name: 4 })
    );
    assert_eq!(setup.stage(), SetupStage::Failed);
}

#[test]
fn failed_ring_size_is_a_set_option_failure_of_that_ring() {
    for (steps, name) in [(2, 2), (3, 3), (4, 5), (5, 6)] {
        let mut setup = setup(512);
        run(&mut setup, steps);
        assert_eq!(
            setup.advance(failed(12)),
            Err(Error::SocketSetOptionFailure { error: 12, level: 283, name })
        );
        assert_eq!(setup.stage(), SetupStage::Failed);
    }
}

#[test]
fn failed_offsets_query_is_a_get_option_failure() {
    let mut setup = setup(512);
    run(&mut setup, 6);
    let outcome =
        SetupOutcome::OffsetsRead { result: -1, error: 95, received: 96, offsets: offsets() };
    assert_eq!(
        setup.advance(outcome),
        Err(Error::SocketGetOptionFailure { error: 95, level: 283, name: 1 })
    );
    assert_eq!(setup.stage(), SetupStage::Failed);
}

#[test]
fn offsets_reply_of_another_size_is_a_size_failure() {
    let mut setup = setup(512);
    run(&mut setup, 6);
    let outcome =
        SetupOutcome::OffsetsRead { result: 0, error: 0, received: 128, offsets: offsets() };
    assert_eq!(
        setup.advance(outcome),
        Err(Error::SocketGetOptionSizeFailure { expecting: 96, received: 128 })
    );
    assert_eq!(setup.stage(), SetupStage::Failed);
}

#[test]
fn failed_mapping_is_a_map_failure() {
    for steps in [7, 8, 9, 10] {
        for address in [0, usize::MAX] {
            let mut setup = setup(512);
            run(&mut setup, steps);
            assert_eq!(
                setup.advance(SetupOutcome::Mapped { address }),
                Err(Error::MemoryMapFailure)
            );
            assert_eq!(setup.stage(), SetupStage::Failed);
        }
    }
}

#[test]
fn ring_larger_than_the_address_space_is_a_map_failure() {
    let mut setup = setup(512);
    run(&mut setup, 6);
    let mut far = offsets();
    far.rx.desc = u64::MAX - 100;
    let outcome = SetupOutcome::OffsetsRead { result: 0, error: 0, received: 96, offsets: far };
    assert_eq!(setup.advance(outcome), Err(Error::MemoryMapFailure));
    assert_eq!(setup.stage(), SetupStage::Failed);

    let mut setup = self::setup(512);
    run(&mut setup, 6);
    let mut far = offsets();
    far.cr.desc = u64::MAX - 100;
    let outcome = SetupOutcome::OffsetsRead { result: 0, error: 0, received: 96, offsets: far };
    assert_eq!(setup.advance(outcome), Ok(()));
    assert_eq!(setup.advance(mapped()), Ok(()));
    assert_eq!(setup.advance(mapped()), Err(Error::MemoryMapFailure));
    assert_eq!(setup.stage(), SetupStage::Failed);
}

#[test]
fn failed_bind_is_a_bind_failure() {
    let mut setup = setup(512);
    run(&mut setup, 11);
    assert_eq!(setup.advance(failed(16)), Err(Error::SocketBindFailure { error: 16 }));
    assert_eq!(setup.stage(), SetupStage::Failed);
}

#[test]
fn stages_follow_each_other() {
    let mut stage = SetupStage::CreateSocket;
    let mut seen = vec![stage];
    while stage != SetupStage::Done {
        stage = stage.successor();
        seen.push(stage);
    }
    assert_eq!(
        seen,
        vec![
            SetupStage::CreateSocket,
            SetupStage::RegisterUmem,
            SetupStage::SizeRing(RingKind::Rx),
            SetupStage::SizeRing(RingKind::Tx),
            SetupStage::SizeRing(RingKind::Fill),
            SetupStage::SizeRing(RingKind::Completion),
            SetupStage::QueryOffsets,
            SetupStage::MapRing(RingKind::Rx),
            SetupStage::MapRing(RingKind::Tx),
            SetupStage::MapRing(RingKind::Completion),
            SetupStage::MapRing(RingKind::Fill),
            SetupStage::Bind,
            SetupStage::Done,
        ]
    );
    assert_eq!(SetupStage::Done.successor(), SetupStage::Done);
    assert_eq!(SetupStage::Failed.successor(), SetupStage::Failed);
}


#[test]
fn statistics_are_reported_line_by_line() {
    let statistics = Statistics { rx_dropped: 1, rx_invalid_descs: 20, tx_invalid_descs: 300 };
    assert_eq!(
        statistics_text(5, &statistics),
        "stats for AF_XDP sock 5\n  rx dropped (other reason)       = 1\n  rx dropped (invalid descriptor) = 20\n  tx dropped (invalid descriptor) = 300\n"
    );
    let statistics =
        Statistics { rx_dropped: u64::MAX, rx_invalid_descs: 0, tx_invalid_descs: 7 };
    assert_eq!(
        statistics_text(-1, &statistics),
        format!(
            "stats for AF_XDP sock {}\n  rx dropped (other reason)       = {}\n  rx dropped (invalid descriptor) = {}\n  tx dropped (invalid descriptor) = {}\n",
            -1,
            u64::MAX,
            0,
            7
        )
    );
}

#[test]
fn ring_cursors_are_reported_in_ten_columns() {
    assert_eq!(
        ring_text("TX", 0, 511),
        "TX ring (consumer idx =          0, producer idx =        511)\n"
    );
    for (consumer, producer) in [(0u32, 0u32), (7, 12345), (u32::MAX, 1_000_000_000)] {
        assert_eq!(
            ring_text("FL", consumer, producer),
            format!("FL ring (consumer idx = {:10}, producer idx = {:10})\n", consumer, producer)
        );
    }
}
