//! Verified core of a user-space AF_XDP binding: the UMEM frame arena's
//! arithmetic, the single-producer / single-consumer descriptor rings, the
//! chunk allocators, and the decisions taken while a socket is set up.
//!
//! Everything here works on plain values. System calls and memory mappings
//! are made by the caller, who hands their outcomes to the functions below.

pub mod bpf;
pub mod error;
pub mod mask;
pub mod ring;
pub mod socket;
pub mod umem;
pub mod umem_allocator;
pub mod utils;

pub use error::Error;
pub use ring::XDPRing;
pub use socket::SocketSetup;
pub use umem::Umem;
pub use umem_allocator::{DefaultAllocator, UmemAllocator};
