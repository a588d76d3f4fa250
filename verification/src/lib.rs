//! Discovery of listening TCP and UDP ports through the kernel's
//! socket-diagnostics netlink facility: building a dump request, decoding
//! the response frame stream, driving a per-protocol scan session, and
//! merging the two protocols' results into one sorted, duplicate-free list.

use vstd::prelude::*;

pub mod aggregate;
pub mod request;
pub mod session;
pub mod wire;

verus! {

/// Transport protocol of a scanned socket.
#[derive(Clone, Copy, Debug, PartialEq, Eq, Hash, Structural)]
pub enum Protocol {
    Tcp,
    Udp,
}

impl Protocol {
    /// Kernel protocol identifier: IPPROTO_TCP or IPPROTO_UDP.
    pub open spec fn spec_id(self) -> u8 {
        match self {
            Protocol::Tcp => 6,
            Protocol::Udp => 17,
        }
    }

    /// Kernel protocol identifier: IPPROTO_TCP or IPPROTO_UDP.
    pub fn id(self) -> (r: u8)
        ensures
            r == self.spec_id(),
    {
        match self {
            Protocol::Tcp => 6,
            Protocol::Udp => 17,
        }
    }

    /// The conventional lowercase name of the protocol.
    pub fn label(self) -> (r: &'static str)
        ensures
            self is Tcp ==> r@ == "tcp"@,
            self is Udp ==> r@ == "udp"@,
    {
        match self {
            Protocol::Tcp => "tcp",
            Protocol::Udp => "udp",
        }
    }

    /// Stable ordering used to break ties between equal ports: TCP first.
    pub open spec fn spec_rank(self) -> int {
        match self {
            Protocol::Tcp => 0,
            Protocol::Udp => 1,
        }
    }
}

/// One listening socket: its local port and transport protocol.
#[derive(Clone, Copy, Debug, PartialEq, Eq, Hash, Structural)]
pub struct PortInfo {
    pub port: u16,
    pub protocol: Protocol,
}

/// Why one protocol's scan failed. Every error is fatal for its own
/// protocol's scan and is never retried.
#[derive(Clone, Copy, Debug, PartialEq, Eq, Structural)]
pub enum ScanError {
    /// The kernel-communication socket could not be opened.
    SocketOpen,
    /// The socket could not be bound to a local endpoint.
    Bind,
    /// The dump request could not be sent.
    Send,
    /// A receive call failed.
    Receive,
    /// A response frame was malformed.
    Decode,
    /// The kernel reported an explicit diagnostic code.
    Protocol(i32),
    /// The isolated worker running the scan failed to complete.
    WorkerJoin,
}

/// Strict ordering of result entries: ascending by port, with the stable
/// protocol order breaking ties.
pub open spec fn entry_lt(a: PortInfo, b: PortInfo) -> bool {
    a.port < b.port || (a.port == b.port && a.protocol.spec_rank() < b.protocol.spec_rank())
}

/// A well-formed scan result: every port is nonzero (port 0 signals
/// "wildcard" in the kernel response and is filtered), and the entries are
/// strictly increasing under `entry_lt` — hence sorted ascending by port
/// and free of duplicate (port, protocol) pairs.
pub open spec fn scan_result_wf(s: Seq<PortInfo>) -> bool {
    &&& forall|i: int| 0 <= i < s.len() ==> 1 <= (#[trigger] s[i]).port
    &&& forall|i: int, j: int| 0 <= i < j < s.len() ==> entry_lt(#[trigger] s[i], #[trigger] s[j])
}

/// The per-port lists produced by one protocol's scan: strictly increasing
/// (hence duplicate-free) and with no wildcard port.
pub open spec fn ports_wf(s: Seq<u16>) -> bool {
    &&& forall|i: int| 0 <= i < s.len() ==> 1 <= #[trigger] s[i]
    &&& forall|i: int, j: int| 0 <= i < j < s.len() ==> #[trigger] s[i] < #[trigger] s[j]
}

/// What well-formedness buys every scan result: each port lies in
/// 1..=65535, the entries are sorted ascending by port, and no two
/// entries share the same (port, protocol) pair.
pub proof fn lemma_scan_result_properties(s: Seq<PortInfo>)
    requires
        scan_result_wf(s),
    ensures
        forall|i: int| 0 <= i < s.len() ==> 1 <= (#[trigger] s[i]).port <= 0xffff,
        forall|i: int, j: int|
            0 <= i < j < s.len() ==> (#[trigger] s[i]).port <= (#[trigger] s[j]).port,
        forall|i: int, j: int|
            0 <= i < j < s.len() ==> !((#[trigger] s[i]).port == (#[trigger] s[j]).port && s[i].protocol
                == s[j].protocol),
{
    assert forall|i: int, j: int| 0 <= i < j < s.len() implies (#[trigger] s[i]).port <= (
    #[trigger] s[j]).port && !(s[i].port == s[j].port && s[i].protocol == s[j].protocol) by {
        assert(entry_lt(s[i], s[j]));
    }
}

} // verus!
