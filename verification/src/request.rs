//! Building the one-shot "dump all listening sockets" request: a netlink
//! header followed by a fixed-shape inet socket-diagnostics payload.

use vstd::prelude::*;
use crate::Protocol;

verus! {

/// `n` zero bytes.
pub open spec fn zero_bytes(n: nat) -> Seq<u8> {
    Seq::new(n, |i: int| 0u8)
}

/// The exact bytes of a dump request for `p`: a 16-byte netlink header
/// (total length 72, inet socket-diagnostics message type, REQUEST|DUMP
/// flags, a fixed sequence number of 1, sender id 0) followed by the
/// 56-byte payload (IPv4 family, the protocol identifier, no extended
/// statistics, a state filter restricted to listening sockets, and an
/// all-zero wildcard socket id). Deterministic: the protocol alone picks
/// the bytes.
pub open spec fn dump_request_spec(p: Protocol) -> Seq<u8> {
    seq![
        72u8,
        0u8,
        0u8,
        0u8,  // total message length
        20u8,
        0u8,  // inet socket-diagnostics message type
        0x01u8,
        0x03u8,  // flags: REQUEST | DUMP
        1u8,
        0u8,
        0u8,
        0u8,  // fixed sequence number
        0u8,
        0u8,
        0u8,
        0u8,  // sender id: kernel assigns
        2u8,  // address family: IPv4
        p.spec_id(),  // transport protocol identifier
        0u8,  // no extended statistics
        0u8,  // padding
        0x00u8,
        0x04u8,
        0u8,
        0u8,  // state filter: listening sockets only
    ] + zero_bytes(48)  // wildcard socket id: match all sockets
}

/// Encode the dump request for `protocol`. Same input, same bytes.
pub fn build_dump_request(protocol: Protocol) -> (r: Vec<u8>)
    ensures
        r@ == dump_request_spec(protocol),
        r@.len() == 72,
{
    let mut v: Vec<u8> = Vec::new();
    v.push(72);
    v.push(0);
    v.push(0);
    v.push(0);
    v.push(20);
    v.push(0);
    v.push(0x01);
    v.push(0x03);
    v.push(1);
    v.push(0);
    v.push(0);
    v.push(0);
    v.push(0);
    v.push(0);
    v.push(0);
    v.push(0);
    v.push(2);
    v.push(protocol.id());
    v.push(0);
    v.push(0);
    v.push(0x00);
    v.push(0x04);
    v.push(0);
    v.push(0);
    let mut i: usize = 0;
    while i < 48
        invariant
            i <= 48,
            v@.len() == 24 + i,
            v@ =~= dump_request_spec(protocol).take(24 + i),
        decreases 48 - i,
    {
        v.push(0);
        i = i + 1;
    }
    proof {
        assert(v@ =~= dump_request_spec(protocol));
    }
    v
}

} // verus!
