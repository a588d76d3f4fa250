//! Merging the two protocols' scan outcomes into one result, under the
//! best-effort policy: a failed scan contributes nothing, and the
//! surviving entries form one sorted, duplicate-free sequence.

use vstd::prelude::*;
use crate::{entry_lt, ports_wf, scan_result_wf, PortInfo, Protocol, ScanError};

verus! {

/// The ports a scan outcome contributes: those of a successful scan, and
/// none of a failed one. This is the whole best-effort policy: an error
/// is never propagated, only dropped.
pub open spec fn ok_ports(r: Result<Vec<u16>, ScanError>) -> Seq<u16> {
    match r {
        Ok(v) => v@,
        Err(_) => Seq::empty(),
    }
}

/// Merge the TCP and UDP scan outcomes into one scan result: exactly the
/// successful scans' ports, each tagged with its own scan's protocol,
/// sorted ascending by port with TCP first on a tie, and free of
/// duplicates. Both scans failing yields the empty result, not an error.
pub fn merge_scan_results(tcp: Result<Vec<u16>, ScanError>, udp: Result<Vec<u16>, ScanError>) -> (r:
    Vec<PortInfo>)
    requires
        (tcp matches Ok(v) ==> ports_wf(v@)),
        (udp matches Ok(v) ==> ports_wf(v@)),
    ensures
        scan_result_wf(r@),
        forall|e: PortInfo|
            #[trigger] r@.contains(e) <==> ((e.protocol is Tcp && ok_ports(tcp).contains(e.port))
                || (e.protocol is Udp && ok_ports(udp).contains(e.port))),
{
    let ghost tspec = ok_ports(tcp);
    let ghost uspec = ok_ports(udp);
    let tv: Vec<u16> = match tcp {
        Ok(v) => v,
        Err(_) => Vec::new(),
    };
    let uv: Vec<u16> = match udp {
        Ok(v) => v,
        Err(_) => Vec::new(),
    };
    proof {
        assert(tv@ =~= tspec);
        assert(uv@ =~= uspec);
    }
    let mut out: Vec<PortInfo> = Vec::new();
    let mut i: usize = 0;
    let mut j: usize = 0;
    while i < tv.len() || j < uv.len()
        invariant
            ports_wf(tv@),
            ports_wf(uv@),
            tv@ == tspec,
            uv@ == uspec,
            i <= tv@.len(),
            j <= uv@.len(),
            scan_result_wf(out@),
            forall|k: int|
                0 <= k < out@.len() && i < tv@.len() ==> entry_lt(
                    #[trigger] out@[k],
                    (PortInfo { port: tv@[i as int], protocol: Protocol::Tcp }),
                ),
            forall|k: int|
                0 <= k < out@.len() && j < uv@.len() ==> entry_lt(
                    #[trigger] out@[k],
                    (PortInfo { port: uv@[j as int], protocol: Protocol::Udp }),
                ),
            forall|e: PortInfo|
                #[trigger] out@.contains(e) <==> ((e.protocol is Tcp && (exists|k: int|
                    0 <= k < i && tv@[k] == e.port)) || (e.protocol is Udp && (exists|k: int|
                    0 <= k < j && uv@[k] == e.port))),
        decreases tv@.len() - i + uv@.len() - j,
    {
        let take_tcp: bool = if i < tv.len() {
            if j < uv.len() {
                tv[i] <= uv[j]
            } else {
                true
            }
        } else {
            false
        };
        if take_tcp {
            let e = PortInfo { port: tv[i], protocol: Protocol::Tcp };
            let ghost pre = out@;
            out.push(e);
            proof {
                assert forall|e2: PortInfo| #[trigger] out@.contains(e2) <==> ((e2.protocol is Tcp
                    && (exists|k: int| 0 <= k < i + 1 && tv@[k] == e2.port)) || (e2.protocol is Udp
                    && (exists|k: int| 0 <= k < j && uv@[k] == e2.port))) by {
                    if out@.contains(e2) {
                        let m = choose|m: int| 0 <= m < out@.len() && out@[m] == e2;
                        if m < pre.len() {
                            assert(pre.contains(e2));
                        } else {
                            assert(e2 == e);
                            assert(tv@[i as int] == e2.port);
                        }
                    }
                    if e2.protocol is Tcp && (exists|k: int| 0 <= k < i + 1 && tv@[k] == e2.port) {
                        let k = choose|k: int| 0 <= k < i + 1 && tv@[k] == e2.port;
                        if k < i {
                            assert(pre.contains(e2));
                            let m = choose|m: int| 0 <= m < pre.len() && pre[m] == e2;
                            assert(out@[m] == e2);
                        } else {
                            assert(e2 == e);
                            assert(out@[pre.len() as int] == e2);
                        }
                        assert(out@.contains(e2));
                    }
                    if e2.protocol is Udp && (exists|k: int| 0 <= k < j && uv@[k] == e2.port) {
                        assert(pre.contains(e2));
                        let m = choose|m: int| 0 <= m < pre.len() && pre[m] == e2;
                        assert(out@[m] == e2);
                        assert(out@.contains(e2));
                    }
                }
            }
            i = i + 1;
        } else {
            let e = PortInfo { port: uv[j], protocol: Protocol::Udp };
            let ghost pre = out@;
            out.push(e);
            proof {
                assert forall|e2: PortInfo| #[trigger] out@.contains(e2) <==> ((e2.protocol is Tcp
                    && (exists|k: int| 0 <= k < i && tv@[k] == e2.port)) || (e2.protocol is Udp && (
                    exists|k: int| 0 <= k < j + 1 && uv@[k] == e2.port))) by {
                    if out@.contains(e2) {
                        let m = choose|m: int| 0 <= m < out@.len() && out@[m] == e2;
                        if m < pre.len() {
                            assert(pre.contains(e2));
                        } else {
                            assert(e2 == e);
                            assert(uv@[j as int] == e2.port);
                        }
                    }
                    if e2.protocol is Udp && (exists|k: int| 0 <= k < j + 1 && uv@[k] == e2.port) {
                        let k = choose|k: int| 0 <= k < j + 1 && uv@[k] == e2.port;
                        if k < j {
                            assert(pre.contains(e2));
                            let m = choose|m: int| 0 <= m < pre.len() && pre[m] == e2;
                            assert(out@[m] == e2);
                        } else {
                            assert(e2 == e);
                            assert(out@[pre.len() as int] == e2);
                        }
                        assert(out@.contains(e2));
                    }
                    if e2.protocol is Tcp && (exists|k: int| 0 <= k < i && tv@[k] == e2.port) {
                        assert(pre.contains(e2));
                        let m = choose|m: int| 0 <= m < pre.len() && pre[m] == e2;
                        assert(out@[m] == e2);
                        assert(out@.contains(e2));
                    }
                }
            }
            j = j + 1;
        }
    }
    proof {
        assert forall|e: PortInfo| #[trigger] out@.contains(e) <==> ((e.protocol is Tcp
            && ok_ports(tcp).contains(e.port)) || (e.protocol is Udp && ok_ports(udp).contains(
            e.port,
        ))) by {
            assert(i == tv@.len() && j == uv@.len());
        }
    }
    out
}

} // verus!
