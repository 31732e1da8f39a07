//! The steering program: the names by which its entry point and its socket
//! map are found, and the bytes of the map's entries.
//!
//! The map is keyed by the queue's number and holds the descriptor of the
//! socket that receives the queue's frames, both as four bytes in the
//! machine's byte order.

use vstd::prelude::*;

verus! {

/// The bytes of `value`, least significant first.
pub open spec fn little_endian(value: u32) -> Seq<u8> {
    seq![
        (value & 0xff) as u8,
        ((value >> 8) & 0xff) as u8,
        ((value >> 16) & 0xff) as u8,
        ((value >> 24) & 0xff) as u8,
    ]
}

/// The bytes of `value`, most significant first.
pub open spec fn big_endian(value: u32) -> Seq<u8> {
    little_endian(value).reverse()
}

/// Whether `bytes` are the bytes of `value` in one of the two byte orders.
pub open spec fn is_native(bytes: Seq<u8>, value: u32) -> bool {
    bytes == little_endian(value) || bytes == big_endian(value)
}

/// Calls `u32::to_ne_bytes`, documented to return the value's bytes in the
/// machine's byte order: which of the two orders is not claimed.
#[verifier::external_body]
fn native_bytes(value: u32) -> (r: [u8; 4])
    ensures
        is_native(r@, value),
{
    value.to_ne_bytes()
}

/// The name of the steering program's entry point.
pub fn program_name() -> (r: &'static str)
    ensures
        r@ == "xdp_sock_redir"@,
{
    "xdp_sock_redir"
}

/// The name of the map from queues to sockets.
pub fn map_name() -> (r: &'static str)
    ensures
        r@ == "xsks_map"@,
{
    "xsks_map"
}

/// Whether `name` is the name of the steering program's entry point.
pub fn is_redirect_program(name: &str) -> (r: bool)
    ensures
        r == (name@ == "xdp_sock_redir"@),
{
    name.to_owned() == program_name().to_owned()
}

/// Whether `name` is the name of the map from queues to sockets.
pub fn is_socket_map(name: &str) -> (r: bool)
    ensures
        r == (name@ == "xsks_map"@),
{
    name.to_owned() == map_name().to_owned()
}

/// The key of the map entry of queue `queue_id`.
pub fn redirect_key(queue_id: u32) -> (r: [u8; 4])
    ensures
        is_native(r@, queue_id),
{
    native_bytes(queue_id)
}

/// The value of a map entry that redirects to the socket `socket_fd`: the
/// descriptor's 32 bits.
pub fn redirect_value(socket_fd: i32) -> (r: [u8; 4])
    ensures
        is_native(r@, socket_fd as u32),
{
    native_bytes(#[verifier::truncate] (socket_fd as u32))
}

} // verus!
