//! Setting up an AF_XDP socket: which system call comes next, with which
//! arguments, and what its outcome means.
//!
//! The caller makes the calls. It asks the setup for the next request, carries
//! it out, and hands the outcome back; the setup then moves on to the next
//! request, or fails with the error that the outcome stands for.

use vstd::prelude::*;
use vstd::arithmetic::power2::is_pow2;
use std::sync::Arc;
use vstd::string::{StrSliceExecFns, StringExecFns};
use crate::error::{decimal, decimal_digits, signed_text, unsigned_text, Error};
use crate::ring::{RingOffsets, MAX_RING_ELEMENTS};
use crate::umem::Umem;
use crate::utils::{getsockopt_outcome, setsockopt_outcome, spec_getsockopt_outcome, spec_setsockopt_outcome};

verus! {

/// The XDP socket family.
pub const AF_XDP: i32 = 44;

/// The raw socket type.
pub const SOCK_RAW: i32 = 3;

/// The level of the XDP socket options.
pub const SOL_XDP: i32 = 283;

/// Socket option: the offsets of the parts of the four rings' mappings.
pub const XDP_MMAP_OFFSETS: i32 = 1;

/// Socket option: the size of the RX ring.
pub const XDP_RX_RING: i32 = 2;

/// Socket option: the size of the TX ring.
pub const XDP_TX_RING: i32 = 3;

/// Socket option: the registration of the arena.
pub const XDP_UMEM_REG: i32 = 4;

/// Socket option: the size of the Fill ring.
pub const XDP_UMEM_FILL_RING: i32 = 5;

/// Socket option: the size of the Completion ring.
pub const XDP_UMEM_COMPLETION_RING: i32 = 6;

/// Socket option: the drop counters.
pub const XDP_STATISTICS: i32 = 7;

/// Socket option: the option flags.
pub const XDP_OPTIONS: i32 = 8;

/// Bind flag: the kernel asks to be woken for transmission.
pub const XDP_USE_NEED_WAKEUP: u16 = 8;

/// Page offset at which the RX ring is mapped.
pub const XDP_PGOFF_RX_RING: u64 = 0;

/// Page offset at which the TX ring is mapped.
pub const XDP_PGOFF_TX_RING: u64 = 0x8000_0000;

/// Page offset at which the Fill ring is mapped.
pub const XDP_UMEM_PGOFF_FILL_RING: u64 = 0x1_0000_0000;

/// Page offset at which the Completion ring is mapped.
pub const XDP_UMEM_PGOFF_COMPLETION_RING: u64 = 0x1_8000_0000;

/// Size in bytes of the reply to the ring offsets query.
pub const MMAP_OFFSETS_SIZE: usize = 96;

/// Size in bytes of a frame descriptor, the element of the RX and TX rings.
pub const DESCRIPTOR_SIZE: usize = 16;

/// Size in bytes of an arena offset, the element of the Fill and Completion
/// rings.
pub const OFFSET_SIZE: usize = 8;

/// The address that a failed mapping returns.
pub const MAP_FAILED: usize = usize::MAX;

/// The four rings of a socket.
#[derive(Debug, Clone, Copy, PartialEq, Eq, Structural)]
pub enum RingKind {
    Rx,
    Tx,
    Completion,
    Fill,
}

impl RingKind {
    /// Size in bytes of one element of the ring.
    pub open spec fn spec_element_size(self) -> usize {
        match self {
            RingKind::Rx | RingKind::Tx => 16,
            RingKind::Completion | RingKind::Fill => 8,
        }
    }

    /// Page offset at which the ring is mapped.
    pub open spec fn spec_page_offset(self) -> u64 {
        match self {
            RingKind::Rx => 0,
            RingKind::Tx => 0x8000_0000,
            RingKind::Fill => 0x1_0000_0000,
            RingKind::Completion => 0x1_8000_0000,
        }
    }

    /// The socket option that announces the ring's size.
    pub open spec fn spec_size_option(self) -> i32 {
        match self {
            RingKind::Rx => 2,
            RingKind::Tx => 3,
            RingKind::Fill => 5,
            RingKind::Completion => 6,
        }
    }

    /// Size in bytes of one element of the ring.
    pub fn element_size(self) -> (r: usize)
        ensures
            r == self.spec_element_size(),
    {
        match self {
            RingKind::Rx | RingKind::Tx => DESCRIPTOR_SIZE,
            RingKind::Completion | RingKind::Fill => OFFSET_SIZE,
        }
    }

    /// Page offset at which the ring is mapped.
    pub fn page_offset(self) -> (r: u64)
        ensures
            r == self.spec_page_offset(),
    {
        match self {
            RingKind::Rx => XDP_PGOFF_RX_RING,
            RingKind::Tx => XDP_PGOFF_TX_RING,
            RingKind::Fill => XDP_UMEM_PGOFF_FILL_RING,
            RingKind::Completion => XDP_UMEM_PGOFF_COMPLETION_RING,
        }
    }

    /// The socket option that announces the ring's size.
    pub fn size_option(self) -> (r: i32)
        ensures
            r == self.spec_size_option(),
    {
        match self {
            RingKind::Rx => XDP_RX_RING,
            RingKind::Tx => XDP_TX_RING,
            RingKind::Fill => XDP_UMEM_FILL_RING,
            RingKind::Completion => XDP_UMEM_COMPLETION_RING,
        }
    }
}

/// Each ring is mapped at a page offset of its own, and announces its size
/// by an option of its own.
pub proof fn lemma_rings_are_told_apart(one: RingKind, other: RingKind)
    requires
        one != other,
    ensures
        one.spec_page_offset() != other.spec_page_offset(),
        one.spec_size_option() != other.spec_size_option(),
{
}

/// The offsets of the parts of the mappings of the four rings, as the socket
/// reports them.
#[derive(Debug, Clone, Copy, PartialEq, Eq, Structural)]
pub struct MmapOffsets {
    pub rx: RingOffsets,
    pub tx: RingOffsets,
    pub fr: RingOffsets,
    pub cr: RingOffsets,
}

impl MmapOffsets {
    /// The offsets of one ring.
    pub open spec fn spec_of(self, ring: RingKind) -> RingOffsets {
        match ring {
            RingKind::Rx => self.rx,
            RingKind::Tx => self.tx,
            RingKind::Fill => self.fr,
            RingKind::Completion => self.cr,
        }
    }

    /// The offsets of one ring.
    pub fn of(&self, ring: RingKind) -> (r: RingOffsets)
        ensures
            r == self.spec_of(ring),
    {
        match ring {
            RingKind::Rx => self.rx,
            RingKind::Tx => self.tx,
            RingKind::Fill => self.fr,
            RingKind::Completion => self.cr,
        }
    }
}

/// How far the setup of a socket has come: the step that is to be taken next.
#[derive(Debug, Clone, Copy, PartialEq, Eq, Structural)]
pub enum SetupStage {
    /// Create the kernel socket.
    CreateSocket,
    /// Register the arena with the socket.
    RegisterUmem,
    /// Announce the size of a ring.
    SizeRing(RingKind),
    /// Query the offsets of the rings' mappings.
    QueryOffsets,
    /// Map a ring.
    MapRing(RingKind),
    /// Bind the socket to its interface and queue.
    Bind,
    /// The socket is set up.
    Done,
    /// A step failed; the setup is over.
    Failed,
}

impl SetupStage {
    /// The step that follows this one when it succeeds. The ring sizes are
    /// announced in the order RX, TX, Fill, Completion; the rings are mapped
    /// in the order RX, TX, Completion, Fill.
    pub open spec fn spec_successor(self) -> SetupStage {
        match self {
            SetupStage::CreateSocket => SetupStage::RegisterUmem,
            SetupStage::RegisterUmem => SetupStage::SizeRing(RingKind::Rx),
            SetupStage::SizeRing(RingKind::Rx) => SetupStage::SizeRing(RingKind::Tx),
            SetupStage::SizeRing(RingKind::Tx) => SetupStage::SizeRing(RingKind::Fill),
            SetupStage::SizeRing(RingKind::Fill) => SetupStage::SizeRing(RingKind::Completion),
            SetupStage::SizeRing(RingKind::Completion) => SetupStage::QueryOffsets,
            SetupStage::QueryOffsets => SetupStage::MapRing(RingKind::Rx),
            SetupStage::MapRing(RingKind::Rx) => SetupStage::MapRing(RingKind::Tx),
            SetupStage::MapRing(RingKind::Tx) => SetupStage::MapRing(RingKind::Completion),
            SetupStage::MapRing(RingKind::Completion) => SetupStage::MapRing(RingKind::Fill),
            SetupStage::MapRing(RingKind::Fill) => SetupStage::Bind,
            SetupStage::Bind => SetupStage::Done,
            SetupStage::Done => SetupStage::Done,
            SetupStage::Failed => SetupStage::Failed,
        }
    }

    /// Number of steps taken before this one; 12 once the socket is set up.
    pub open spec fn steps_taken(self) -> int {
        match self {
            SetupStage::CreateSocket => 0,
            SetupStage::RegisterUmem => 1,
            SetupStage::SizeRing(RingKind::Rx) => 2,
            SetupStage::SizeRing(RingKind::Tx) => 3,
            SetupStage::SizeRing(RingKind::Fill) => 4,
            SetupStage::SizeRing(RingKind::Completion) => 5,
            SetupStage::QueryOffsets => 6,
            SetupStage::MapRing(RingKind::Rx) => 7,
            SetupStage::MapRing(RingKind::Tx) => 8,
            SetupStage::MapRing(RingKind::Completion) => 9,
            SetupStage::MapRing(RingKind::Fill) => 10,
            SetupStage::Bind => 11,
            SetupStage::Done => 12,
            SetupStage::Failed => -1,
        }
    }

    /// No step is left to take.
    pub open spec fn is_over(self) -> bool {
        self == SetupStage::Done || self == SetupStage::Failed
    }

    /// The step that follows this one when it succeeds.
    pub fn successor(self) -> (r: SetupStage)
        ensures
            r == self.spec_successor(),
    {
        match self {
            SetupStage::CreateSocket => SetupStage::RegisterUmem,
            SetupStage::RegisterUmem => SetupStage::SizeRing(RingKind::Rx),
            SetupStage::SizeRing(RingKind::Rx) => SetupStage::SizeRing(RingKind::Tx),
            SetupStage::SizeRing(RingKind::Tx) => SetupStage::SizeRing(RingKind::Fill),
            SetupStage::SizeRing(RingKind::Fill) => SetupStage::SizeRing(RingKind::Completion),
            SetupStage::SizeRing(RingKind::Completion) => SetupStage::QueryOffsets,
            SetupStage::QueryOffsets => SetupStage::MapRing(RingKind::Rx),
            SetupStage::MapRing(RingKind::Rx) => SetupStage::MapRing(RingKind::Tx),
            SetupStage::MapRing(RingKind::Tx) => SetupStage::MapRing(RingKind::Completion),
            SetupStage::MapRing(RingKind::Completion) => SetupStage::MapRing(RingKind::Fill),
            SetupStage::MapRing(RingKind::Fill) => SetupStage::Bind,
            SetupStage::Bind => SetupStage::Done,
            SetupStage::Done => SetupStage::Done,
            SetupStage::Failed => SetupStage::Failed,
        }
    }
}

/// What the caller is asked to do next.
#[derive(Debug, Clone, Copy, PartialEq, Eq, Structural)]
pub enum SetupRequest {
    /// Create a socket of the given family, type and protocol.
    CreateSocket { domain: i32, kind: i32, protocol: i32 },
    /// Set the arena registration option: the arena's address, which the
    /// caller knows, its length, chunk size and headroom.
    RegisterUmem { level: i32, name: i32, len: u64, chunk_size: u32, headroom: u32 },
    /// Set a ring size option.
    SizeRing { level: i32, name: i32, size: usize },
    /// Read the ring offsets option, whose reply has `expecting` bytes.
    QueryOffsets { level: i32, name: i32, expecting: usize },
    /// Map `length` bytes of the socket at `page_offset`.
    MapRing { ring: RingKind, length: usize, page_offset: u64 },
    /// Bind the socket to this address.
    Bind { family: u16, flags: u16, interface_index: u32, queue_id: u32, shared_umem_fd: u32 },
    /// Nothing is left to do.
    Nothing,
}

/// What came of a request.
#[derive(Debug, Clone, Copy, PartialEq, Eq, Structural)]
pub enum SetupOutcome {
    /// A system call returned `result`; `error` is the error number that
    /// goes with a negative result.
    Returned { result: i32, error: i32 },
    /// The ring offsets query returned `result`, with a reply of `received`
    /// bytes that holds `offsets`.
    OffsetsRead { result: i32, error: i32, received: usize, offsets: MmapOffsets },
    /// The mapping call returned `address`.
    Mapped { address: usize },
}

/// Whether `address` is what a mapping call returns when it succeeds.
pub open spec fn is_mapped(address: usize) -> bool {
    address != 0 && address != usize::MAX
}

/// The setup of a socket, as a value: what is being set up and how far the
/// setup has come.
pub struct SetupModel {
    pub interface_index: u32,
    pub queue_id: u32,
    pub umem: Umem,
    pub rings_size: usize,
    pub stage: SetupStage,
    pub fd: i32,
    pub offsets: MmapOffsets,
    pub map_length: usize,
}

impl SetupModel {
    /// The rings' size is a power of two that a ring can have, the arena is
    /// well formed, and a ring that is to be mapped has a length.
    pub open spec fn wf(self) -> bool {
        &&& is_pow2(self.rings_size as int)
        &&& self.rings_size <= MAX_RING_ELEMENTS
        &&& self.umem.wf()
        &&& self.stage.steps_taken() > 0 ==> self.fd >= 0
        &&& (self.stage matches SetupStage::MapRing(ring) ==> self.map_length
            == self.offsets.spec_of(ring).spec_mmap_size(
            ring.spec_element_size() as int,
            self.rings_size as int,
        ))
    }

    /// A setup of which no step is taken yet: there is no socket, and no
    /// offsets are known.
    pub open spec fn initial(
        interface_index: u32,
        queue_id: u32,
        umem: Umem,
        rings_size: usize,
    ) -> SetupModel {
        let nowhere = RingOffsets { producer: 0, consumer: 0, desc: 0 };
        SetupModel {
            interface_index,
            queue_id,
            umem,
            rings_size,
            stage: SetupStage::CreateSocket,
            fd: -1i32,
            offsets: MmapOffsets { rx: nowhere, tx: nowhere, fr: nowhere, cr: nowhere },
            map_length: 0,
        }
    }

    /// What the caller is asked to do at this stage.
    pub open spec fn request(self) -> SetupRequest {
        match self.stage {
            SetupStage::CreateSocket => SetupRequest::CreateSocket {
                domain: AF_XDP,
                kind: SOCK_RAW,
                protocol: 0,
            },
            SetupStage::RegisterUmem => SetupRequest::RegisterUmem {
                level: SOL_XDP,
                name: XDP_UMEM_REG,
                len: self.umem.spec_memory_size() as u64,
                chunk_size: self.umem.spec_chunk_size() as u32,
                headroom: 0,
            },
            SetupStage::SizeRing(ring) => SetupRequest::SizeRing {
                level: SOL_XDP,
                name: ring.spec_size_option(),
                size: self.rings_size,
            },
            SetupStage::QueryOffsets => SetupRequest::QueryOffsets {
                level: SOL_XDP,
                name: XDP_MMAP_OFFSETS,
                expecting: MMAP_OFFSETS_SIZE,
            },
            SetupStage::MapRing(ring) => SetupRequest::MapRing {
                ring,
                length: self.map_length,
                page_offset: ring.spec_page_offset(),
            },
            SetupStage::Bind => SetupRequest::Bind {
                family: 44,
                flags: XDP_USE_NEED_WAKEUP,
                interface_index: self.interface_index,
                queue_id: self.queue_id,
                shared_umem_fd: 0,
            },
            SetupStage::Done | SetupStage::Failed => SetupRequest::Nothing,
        }
    }

    /// Whether `outcome` is an outcome of the request of this stage.
    pub open spec fn expects(self, outcome: SetupOutcome) -> bool {
        match self.stage {
            SetupStage::CreateSocket | SetupStage::RegisterUmem | SetupStage::SizeRing(_)
            | SetupStage::Bind => outcome is Returned,
            SetupStage::QueryOffsets => outcome is OffsetsRead,
            SetupStage::MapRing(_) => outcome is Mapped,
            SetupStage::Done | SetupStage::Failed => false,
        }
    }

    /// The failure that `outcome` stands for at this stage, if it is one.
    pub open spec fn failure_of(self, outcome: SetupOutcome) -> Option<Error> {
        match (self.stage, outcome) {
            (SetupStage::CreateSocket, SetupOutcome::Returned { result, error }) => if result < 0 {
                Some(Error::SocketCreationFailure)
            } else {
                None
            },
            (SetupStage::RegisterUmem, SetupOutcome::Returned { result, error }) => {
                match spec_setsockopt_outcome(result, error, SOL_XDP, XDP_UMEM_REG) {
                    Err(failure) => Some(failure),
                    Ok(_) => None,
                }
            },
            (SetupStage::SizeRing(ring), SetupOutcome::Returned { result, error }) => {
                match spec_setsockopt_outcome(result, error, SOL_XDP, ring.spec_size_option()) {
                    Err(failure) => Some(failure),
                    Ok(_) => None,
                }
            },
            (
                SetupStage::QueryOffsets,
                SetupOutcome::OffsetsRead { result, error, received, offsets },
            ) => {
                match spec_getsockopt_outcome(
                    result,
                    error,
                    SOL_XDP,
                    XDP_MMAP_OFFSETS,
                    MMAP_OFFSETS_SIZE,
                    received,
                ) {
                    Err(failure) => Some(failure),
                    Ok(_) => None,
                }
            },
            (SetupStage::MapRing(ring), SetupOutcome::Mapped { address }) => if is_mapped(
                address,
            ) {
                None
            } else {
                Some(Error::MemoryMapFailure)
            },
            (SetupStage::Bind, SetupOutcome::Returned { result, error }) => if result < 0 {
                Some(Error::SocketBindFailure { error })
            } else {
                None
            },
            _ => None,
        }
    }

    /// The setup after a successful `outcome`, before the next step is
    /// looked at: it remembers the socket's descriptor and the ring offsets.
    pub open spec fn recorded(self, outcome: SetupOutcome) -> SetupModel {
        match (self.stage, outcome) {
            (SetupStage::CreateSocket, SetupOutcome::Returned { result, error }) => SetupModel {
                fd: result,
                ..self
            },
            (
                SetupStage::QueryOffsets,
                SetupOutcome::OffsetsRead { result, error, received, offsets },
            ) => SetupModel { offsets, ..self },
            _ => self,
        }
    }

    /// The length of the mapping of the ring that `stage` maps, given the
    /// offsets that were read; zero where `stage` maps no ring.
    pub open spec fn length_for(self, stage: SetupStage) -> int {
        match stage {
            SetupStage::MapRing(ring) => self.offsets.spec_of(ring).spec_mmap_size(
                ring.spec_element_size() as int,
                self.rings_size as int,
            ),
            _ => 0,
        }
    }

    /// What `advance` returns for `outcome`: the failure that the outcome
    /// stands for; else a map failure if the ring to map next is larger than
    /// the address space; else success.
    pub open spec fn result_of(self, outcome: SetupOutcome) -> Result<(), Error> {
        match self.failure_of(outcome) {
            Some(failure) => Err(failure),
            None => if self.recorded(outcome).length_for(self.stage.spec_successor())
                > usize::MAX {
                Err(Error::MemoryMapFailure)
            } else {
                Ok(())
            },
        }
    }

    /// The setup after `outcome`: failed if `advance` returns an error, and
    /// else at the next stage.
    pub open spec fn after(self, outcome: SetupOutcome) -> SetupModel {
        match self.result_of(outcome) {
            Err(_) => SetupModel { stage: SetupStage::Failed, ..self },
            Ok(_) => SetupModel {
                stage: self.stage.spec_successor(),
                map_length: self.recorded(outcome).length_for(self.stage.spec_successor()) as usize,
                ..self.recorded(outcome)
            },
        }
    }

    /// The setup after each of `outcomes`, in order.
    pub open spec fn after_all(self, outcomes: Seq<SetupOutcome>) -> SetupModel
        decreases outcomes.len(),
    {
        if outcomes.len() == 0 {
            self
        } else {
            self.after(outcomes.first()).after_all(outcomes.drop_first())
        }
    }

    /// Each step either fails the setup or takes it one step further, and
    /// keeps it well formed.
    pub proof fn lemma_step(self, outcome: SetupOutcome)
        requires
            self.wf(),
            self.expects(outcome),
        ensures
            self.after(outcome).wf(),
            self.result_of(outcome) is Err <==> self.after(outcome).stage == SetupStage::Failed,
            self.result_of(outcome) is Ok <==> self.after(outcome).stage.steps_taken()
                == self.stage.steps_taken() + 1,
            self.after(outcome).interface_index == self.interface_index,
            self.after(outcome).queue_id == self.queue_id,
            self.after(outcome).umem == self.umem,
            self.after(outcome).rings_size == self.rings_size,
    {
        assert(self.recorded(outcome).length_for(self.stage.spec_successor()) >= 0) by {
            let next = self.stage.spec_successor();
            if let SetupStage::MapRing(ring) = next {
                let size = ring.spec_element_size() as int;
                let count = self.rings_size as int;
                assert(size * count >= 0) by (nonlinear_arith)
                    requires
                        size >= 0,
                        count >= 0,
                ;
            }
        }
    }

    /// Whether `outcomes` can be handed to the setup one after the other:
    /// each is an outcome of the request of the stage that the ones before it
    /// led to.
    pub open spec fn is_run(self, outcomes: Seq<SetupOutcome>) -> bool
        decreases outcomes.len(),
    {
        outcomes.len() > 0 ==> self.expects(outcomes.first()) && self.after(
            outcomes.first(),
        ).is_run(outcomes.drop_first())
    }

    /// A setup is done exactly after one outcome for each step that was
    /// left, none of which was a failure.
    pub proof fn lemma_done_after_every_step(self, outcomes: Seq<SetupOutcome>)
        requires
            self.wf(),
            !self.stage.is_over(),
            self.is_run(outcomes),
            self.after_all(outcomes).stage == SetupStage::Done,
        ensures
            outcomes.len() == 12 - self.stage.steps_taken(),
            forall|k: int|
                0 <= k < outcomes.len() ==> #[trigger] self.after_all(outcomes.take(k)).result_of(
                    outcomes[k],
                ) is Ok,
        decreases outcomes.len(),
    {
        if outcomes.len() > 0 {
            let first = outcomes.first();
            let rest = outcomes.drop_first();
            let next = self.after(first);
            self.lemma_step(first);
            if next.stage == SetupStage::Failed {
                lemma_failed_stays(next, rest);
            }
            assert(outcomes.take(0) =~= Seq::<SetupOutcome>::empty());
            if next.stage == SetupStage::Done {
                assert(next.is_run(rest));
                if rest.len() > 0 {
                    assert(!next.expects(rest.first()));
                }
            } else {
                next.lemma_done_after_every_step(rest);
            }
            assert forall|k: int| 0 <= k < outcomes.len() implies #[trigger] self.after_all(
                outcomes.take(k),
            ).result_of(outcomes[k]) is Ok by {
                if k > 0 {
                    assert(outcomes.take(k).drop_first() =~= rest.take(k - 1));
                    assert(outcomes.take(k).first() == first);
                    assert(rest[k - 1] == outcomes[k]);
                    assert(self.after_all(outcomes.take(k)) == next.after_all(rest.take(k - 1)));
                }
            }
        }
    }

    /// If no outcome is a failure and no ring is larger than the address
    /// space, the setup is done after twelve steps.
    pub proof fn lemma_success_is_done(self, outcomes: Seq<SetupOutcome>)
        requires
            self.wf(),
            self.is_run(outcomes),
            outcomes.len() == 12 - self.stage.steps_taken(),
            forall|k: int|
                0 <= k < outcomes.len() ==> #[trigger] self.after_all(outcomes.take(k)).result_of(
                    outcomes[k],
                ) is Ok,
        ensures
            self.after_all(outcomes).stage == SetupStage::Done,
        decreases outcomes.len(),
    {
        if outcomes.len() > 0 {
            let first = outcomes.first();
            let rest = outcomes.drop_first();
            let next = self.after(first);
            self.lemma_step(first);
            assert(outcomes.take(0) =~= Seq::<SetupOutcome>::empty());
            assert(self.after_all(outcomes.take(0)) == self);
            assert forall|k: int| 0 <= k < rest.len() implies #[trigger] next.after_all(
                rest.take(k),
            ).result_of(rest[k]) is Ok by {
                assert(outcomes.take(k + 1).drop_first() =~= rest.take(k));
                assert(outcomes.take(k + 1).first() == first);
                assert(self.after_all(outcomes.take(k + 1)) == next.after_all(rest.take(k)));
            }
            next.lemma_success_is_done(rest);
        }
    }
}

/// A failed setup stays failed.
proof fn lemma_failed_stays(setup: SetupModel, outcomes: Seq<SetupOutcome>)
    requires
        setup.stage == SetupStage::Failed,
    ensures
        setup.after_all(outcomes).stage == SetupStage::Failed,
    decreases outcomes.len(),
{
    if outcomes.len() > 0 {
        lemma_failed_stays(setup.after(outcomes.first()), outcomes.drop_first());
    }
}

/// The setup of one socket: bound to an interface and one of its queues, on
/// one arena, with four rings of one size.
pub struct SocketSetup {
    interface_index: u32,
    queue_id: u32,
    umem: Arc<Umem>,
    rings_size: usize,
    stage: SetupStage,
    fd: i32,
    offsets: MmapOffsets,
    map_length: usize,
}

impl View for SocketSetup {
    type V = SetupModel;

    closed spec fn view(&self) -> SetupModel {
        SetupModel {
            interface_index: self.interface_index,
            queue_id: self.queue_id,
            umem: *self.umem,
            rings_size: self.rings_size,
            stage: self.stage,
            fd: self.fd,
            offsets: self.offsets,
            map_length: self.map_length,
        }
    }
}

impl SocketSetup {
    /// The setup's model is well formed.
    pub open spec fn wf(&self) -> bool {
        self@.wf()
    }

    /// Begins the setup of a socket bound to the interface with index
    /// `interface_index` and its queue `queue_id`, on the provided arena, with
    /// rings of `rings_size` slots. The size must be a power of two.
    pub fn new(interface_index: u32, queue_id: u32, umem: Arc<Umem>, rings_size: usize) -> (r:
        Self)
        requires
            is_pow2(rings_size as int),
            rings_size <= MAX_RING_ELEMENTS,
            umem.wf(),
        ensures
            r.wf(),
            r@ == SetupModel::initial(interface_index, queue_id, *umem, rings_size),
    {
        let nowhere = RingOffsets { producer: 0, consumer: 0, desc: 0 };
        Self {
            interface_index,
            queue_id,
            umem,
            rings_size,
            stage: SetupStage::CreateSocket,
            fd: -1,
            offsets: MmapOffsets { rx: nowhere, tx: nowhere, fr: nowhere, cr: nowhere },
            map_length: 0,
        }
    }

    /// The step that is to be taken next.
    pub fn stage(&self) -> (r: SetupStage)
        ensures
            r == self@.stage,
    {
        self.stage
    }

    /// Whether the socket is set up.
    pub fn is_done(&self) -> (r: bool)
        ensures
            r == (self@.stage == SetupStage::Done),
    {
        matches!(self.stage, SetupStage::Done)
    }

    /// The socket's descriptor, once the socket is created.
    pub fn fd(&self) -> (r: i32)
        ensures
            r == self@.fd,
    {
        self.fd
    }

    /// The ring offsets, once they are read.
    pub fn offsets(&self) -> (r: MmapOffsets)
        ensures
            r == self@.offsets,
    {
        self.offsets
    }

    /// The index of the interface that the socket is bound to.
    pub fn interface_index(&self) -> (r: u32)
        ensures
            r == self@.interface_index,
    {
        self.interface_index
    }

    /// The queue that the socket is bound to.
    pub fn queue_id(&self) -> (r: u32)
        ensures
            r == self@.queue_id,
    {
        self.queue_id
    }

    /// The size of the socket's rings.
    pub fn rings_size(&self) -> (r: usize)
        ensures
            r == self@.rings_size,
    {
        self.rings_size
    }

    /// The arena that the socket uses.
    pub fn umem(&self) -> (r: &Arc<Umem>)
        ensures
            **r == self@.umem,
    {
        &self.umem
    }

    /// What the caller is asked to do next.
    pub fn request(&self) -> (r: SetupRequest)
        requires
            self.wf(),
        ensures
            r == self@.request(),
    {
        match self.stage {
            SetupStage::CreateSocket => SetupRequest::CreateSocket {
                domain: AF_XDP,
                kind: SOCK_RAW,
                protocol: 0,
            },
            SetupStage::RegisterUmem => SetupRequest::RegisterUmem {
                level: SOL_XDP,
                name: XDP_UMEM_REG,
                len: self.umem.memory_size() as u64,
                chunk_size: self.umem.chunk_size() as u32,
                headroom: 0,
            },
            SetupStage::SizeRing(ring) => SetupRequest::SizeRing {
                level: SOL_XDP,
                name: ring.size_option(),
                size: self.rings_size,
            },
            SetupStage::QueryOffsets => SetupRequest::QueryOffsets {
                level: SOL_XDP,
                name: XDP_MMAP_OFFSETS,
                expecting: MMAP_OFFSETS_SIZE,
            },
            SetupStage::MapRing(ring) => SetupRequest::MapRing {
                ring,
                length: self.map_length,
                page_offset: ring.page_offset(),
            },
            SetupStage::Bind => SetupRequest::Bind {
                family: 44,
                flags: XDP_USE_NEED_WAKEUP,
                interface_index: self.interface_index,
                queue_id: self.queue_id,
                shared_umem_fd: 0,
            },
            SetupStage::Done | SetupStage::Failed => SetupRequest::Nothing,
        }
    }

    /// Whether `outcome` is an outcome of the request of this stage.
    pub fn expects(&self, outcome: &SetupOutcome) -> (r: bool)
        ensures
            r == self@.expects(*outcome),
    {
        match self.stage {
            SetupStage::CreateSocket | SetupStage::RegisterUmem | SetupStage::SizeRing(_)
            | SetupStage::Bind => matches!(outcome, SetupOutcome::Returned { .. }),
            SetupStage::QueryOffsets => matches!(outcome, SetupOutcome::OffsetsRead { .. }),
            SetupStage::MapRing(_) => matches!(outcome, SetupOutcome::Mapped { .. }),
            SetupStage::Done | SetupStage::Failed => false,
        }
    }

    /// The failure that `outcome` stands for at this stage, if it is one.
    fn failure_of(&self, outcome: &SetupOutcome) -> (r: Option<Error>)
        ensures
            r == self@.failure_of(*outcome),
    {
        match (self.stage, *outcome) {
            (SetupStage::CreateSocket, SetupOutcome::Returned { result, error }) => {
                if result < 0 {
                    Some(Error::SocketCreationFailure)
                } else {
                    None
                }
            },
            (SetupStage::RegisterUmem, SetupOutcome::Returned { result, error }) => {
                match setsockopt_outcome(result, error, SOL_XDP, XDP_UMEM_REG) {
                    Err(failure) => Some(failure),
                    Ok(_) => None,
                }
            },
            (SetupStage::SizeRing(ring), SetupOutcome::Returned { result, error }) => {
                match setsockopt_outcome(result, error, SOL_XDP, ring.size_option()) {
                    Err(failure) => Some(failure),
                    Ok(_) => None,
                }
            },
            (
                SetupStage::QueryOffsets,
                SetupOutcome::OffsetsRead { result, error, received, offsets },
            ) => {
                match getsockopt_outcome(
                    result,
                    error,
                    SOL_XDP,
                    XDP_MMAP_OFFSETS,
                    MMAP_OFFSETS_SIZE,
                    received,
                ) {
                    Err(failure) => Some(failure),
                    Ok(_) => None,
                }
            },
            (SetupStage::MapRing(ring), SetupOutcome::Mapped { address }) => {
                if address != 0 && address != MAP_FAILED {
                    None
                } else {
                    Some(Error::MemoryMapFailure)
                }
            },
            (SetupStage::Bind, SetupOutcome::Returned { result, error }) => {
                if result < 0 {
                    Some(Error::SocketBindFailure { error })
                } else {
                    None
                }
            },
            _ => None,
        }
    }

    /// Takes the outcome of the request of this stage. An outcome that is a
    /// failure ends the setup with the error that it stands for; any other
    /// moves the setup to its next stage.
    pub fn advance(&mut self, outcome: SetupOutcome) -> (r: Result<(), Error>)
        requires
            old(self).wf(),
            old(self)@.expects(outcome),
        ensures
            final(self).wf(),
            final(self)@ == old(self)@.after(outcome),
            r == old(self)@.result_of(outcome),
    {
        proof {
            self@.lemma_step(outcome);
        }
        if let Some(failure) = self.failure_of(&outcome) {
            self.stage = SetupStage::Failed;
            return Err(failure);
        }
        let mut fd = self.fd;
        let mut offsets = self.offsets;
        match (self.stage, outcome) {
            (SetupStage::CreateSocket, SetupOutcome::Returned { result, error }) => {
                fd = result;
            },
            (
                SetupStage::QueryOffsets,
                SetupOutcome::OffsetsRead { result, error, received, offsets: read },
            ) => {
                offsets = read;
            },
            _ => {},
        }
        let next = self.stage.successor();
        let mut map_length: usize = 0;
        if let SetupStage::MapRing(ring) = next {
            match offsets.of(ring).mmap_size(ring.element_size(), self.rings_size) {
                Ok(length) => {
                    map_length = length;
                },
                Err(failure) => {
                    self.stage = SetupStage::Failed;
                    return Err(failure);
                },
            }
        }
        self.fd = fd;
        self.offsets = offsets;
        self.map_length = map_length;
        self.stage = next;
        Ok(())
    }
}

/// The drop counters of a socket, as the kernel reports them.
#[derive(Debug, Clone, Copy, PartialEq, Eq, Structural)]
pub struct Statistics {
    /// Frames dropped for other reasons.
    pub rx_dropped: u64,
    /// Frames dropped due to an invalid descriptor on reception.
    pub rx_invalid_descs: u64,
    /// Frames dropped due to an invalid descriptor on transmission.
    pub tx_invalid_descs: u64,
}

/// `count` spaces.
pub open spec fn spaces(count: nat) -> Seq<char> {
    Seq::new(count, |k: int| ' ')
}

/// `value` in decimal, filled up with spaces on the left to ten characters.
pub open spec fn padded(value: nat) -> Seq<char> {
    if decimal_digits(value).len() >= 10 {
        decimal_digits(value)
    } else {
        spaces((10 - decimal_digits(value).len()) as nat) + decimal_digits(value)
    }
}

/// The text that reports the drop counters of socket `fd`: a heading and one
/// line per counter.
pub open spec fn spec_statistics_text(fd: i32, statistics: Statistics) -> Seq<char> {
    "stats for AF_XDP sock "@ + decimal(fd as int) + "\n"@
        + "  rx dropped (other reason)       = "@ + decimal_digits(statistics.rx_dropped as nat)
        + "\n"@ + "  rx dropped (invalid descriptor) = "@ + decimal_digits(
        statistics.rx_invalid_descs as nat,
    ) + "\n"@ + "  tx dropped (invalid descriptor) = "@ + decimal_digits(
        statistics.tx_invalid_descs as nat,
    ) + "\n"@
}

/// The line that reports the slots that the cursors of the ring called
/// `name` point to.
pub open spec fn spec_ring_text(name: Seq<char>, consumer: u32, producer: u32) -> Seq<char> {
    name + " ring (consumer idx = "@ + padded(consumer as nat) + ", producer idx = "@ + padded(
        producer as nat,
    ) + ")\n"@
}

/// Renders `value` in decimal, filled up with spaces on the left to ten
/// characters.
fn padded_text(value: u32) -> (r: String)
    ensures
        r@ == padded(value as nat),
{
    let digits = unsigned_text(value as u64);
    let width = digits.as_str().unicode_len();
    if width >= 10 {
        return digits;
    }
    proof {
        reveal_strlit("");
    }
    let mut text = String::from_str("");
    let mut added: usize = 0;
    assert(text@ =~= spaces(0));
    while added < 10 - width
        invariant
            width < 10,
            added <= 10 - width,
            text@ == spaces(added as nat),
        decreases 10 - width - added,
    {
        proof {
            reveal_strlit(" ");
        }
        text.append(" ");
        added += 1;
        assert(text@ =~= spaces(added as nat));
    }
    text.append(digits.as_str());
    text
}

/// Renders the report of the drop counters of socket `fd`.
pub fn statistics_text(fd: i32, statistics: &Statistics) -> (r: String)
    ensures
        r@ == spec_statistics_text(fd, *statistics),
{
    let mut text = String::from_str("stats for AF_XDP sock ");
    text.append(signed_text(fd).as_str());
    text.append("\n");
    text.append("  rx dropped (other reason)       = ");
    text.append(unsigned_text(statistics.rx_dropped).as_str());
    text.append("\n");
    text.append("  rx dropped (invalid descriptor) = ");
    text.append(unsigned_text(statistics.rx_invalid_descs).as_str());
    text.append("\n");
    text.append("  tx dropped (invalid descriptor) = ");
    text.append(unsigned_text(statistics.tx_invalid_descs).as_str());
    text.append("\n");
    text
}

/// Renders the line that reports the slots that the cursors of the ring
/// called `name` point to.
pub fn ring_text(name: &str, consumer: u32, producer: u32) -> (r: String)
    ensures
        r@ == spec_ring_text(name@, consumer, producer),
{
    let mut text = String::from_str(name);
    text.append(" ring (consumer idx = ");
    text.append(padded_text(consumer).as_str());
    text.append(", producer idx = ");
    text.append(padded_text(producer).as_str());
    text.append(")\n");
    text
}

/// Whether `value` is a power of two.
pub fn is_power_of_two(value: usize) -> (r: bool)
    ensures
        r == is_pow2(value as int),
{
    reveal(is_pow2);
    if value == 0 {
        return false;
    }
    let mut rest = value;
    while rest % 2 == 0
        invariant
            rest > 0,
            is_pow2(rest as int) == is_pow2(value as int),
        decreases rest,
    {
        proof {
            reveal(is_pow2);
        }
        rest = rest / 2;
    }
    rest == 1
}

} // verus!
