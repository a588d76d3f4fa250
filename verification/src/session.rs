//! One protocol's scan session: the state machine driven by received
//! response chunks, accumulating the reported ports. The caller owns the
//! kernel-communication socket and feeds every received chunk here; the
//! session decides how the scan proceeds and what it yields.

use vstd::prelude::*;
use crate::{ports_wf, Protocol, ScanError};
use crate::wire::{
    decode_frames, frames_from, has_entry, lemma_frames_entries_nonzero, lemma_frames_entry_prefix,
    Frame,
};

verus! {

/// Progress of one protocol's scan:
/// `Idle -> RequestSent -> Receiving -> {Complete, Failed}`, where
/// `Receiving` self-loops on each chunk that yields neither a terminal
/// marker nor an error.
#[derive(Clone, Copy, Debug, PartialEq, Eq, Structural)]
pub enum ScanState {
    Idle,
    RequestSent,
    Receiving,
    Complete,
    Failed,
}

/// A per-protocol scan in progress. Entries for one protocol are only
/// ever produced by that protocol's own session.
pub struct ScanSession {
    pub protocol: Protocol,
    pub state: ScanState,
    pub error: Option<ScanError>,
    pub ports: Vec<u16>,
}

impl ScanSession {
    /// The session's invariant: the accumulated ports are strictly
    /// increasing and nonzero, and an error is recorded exactly when the
    /// session has failed.
    pub open spec fn wf(self) -> bool {
        &&& ports_wf(self.ports@)
        &&& (self.state is Failed <==> self.error is Some)
    }

    /// A fresh, idle session for `protocol` with no ports collected.
    pub fn new(protocol: Protocol) -> (s: Self)
        ensures
            s.wf(),
            s.protocol == protocol,
            s.state is Idle,
            s.ports@ == Seq::<u16>::empty(),
    {
        ScanSession { protocol, state: ScanState::Idle, error: None, ports: Vec::new() }
    }

    /// The dump request to send for this session's protocol; sending it
    /// moves the session from `Idle` to `RequestSent`.
    pub fn request(&mut self) -> (r: Vec<u8>)
        requires
            old(self).wf(),
            old(self).state is Idle,
        ensures
            final(self).wf(),
            final(self).state is RequestSent,
            final(self).protocol == old(self).protocol,
            final(self).ports@ == old(self).ports@,
            final(self).error == old(self).error,
            r@ == crate::request::dump_request_spec(old(self).protocol),
    {
        self.state = ScanState::RequestSent;
        crate::request::build_dump_request(self.protocol)
    }

    /// Feed one received chunk. Its frames decide the transition: a
    /// malformed frame fails the scan with a decode error; a kernel
    /// diagnostic frame fails it with that code; a terminal marker
    /// completes it; otherwise the session keeps receiving. All entry
    /// ports of the chunk are absorbed, without duplicates.
    pub fn handle_chunk(&mut self, buf: &[u8])
        requires
            old(self).wf(),
            old(self).state is RequestSent || old(self).state is Receiving,
        ensures
            final(self).wf(),
            final(self).protocol == old(self).protocol,
            frames_from(buf@, 0) is None ==> final(self).state is Failed && final(self).error
                == Some(ScanError::Decode) && final(self).ports@ == old(self).ports@,
            (frames_from(buf@, 0) matches Some(fs) ==> {
                &&& (forall|q: u16|
                    #[trigger] final(self).ports@.contains(q) <==> old(self).ports@.contains(q)
                        || has_entry(fs, q))
                &&& (fs.len() > 0 && fs.last() is Done ==> final(self).state is Complete)
                &&& (fs.len() > 0 && fs.last() is ProtocolError
                    ==> final(self).state is Failed
                    && final(self).error == Some(ScanError::Protocol(fs.last()->ProtocolError_0)))
                &&& ((fs.len() == 0 || fs.last() is Entry) ==> final(self).state is Receiving)
            }),
    {
        match decode_frames(buf) {
            Err(_) => {
                self.state = ScanState::Failed;
                self.error = Some(ScanError::Decode);
            },
            Ok(frames) => {
                proof {
                    lemma_frames_entry_prefix(buf@, 0);
                    lemma_frames_entries_nonzero(buf@, 0);
                }
                let ghost fs = frames@;
                let n = frames.len();
                let mut k: usize = 0;
                while k < n
                    invariant
                        frames@ == fs,
                        n == fs.len(),
                        k <= n,
                        ports_wf(self.ports@),
                        self.protocol == old(self).protocol,
                        self.state == old(self).state,
                        self.error == old(self).error,
                        forall|i: int|
                            0 <= i < fs.len() ==> ((#[trigger] fs[i]) matches Frame::Entry(p)
                                ==> 1 <= p),
                        forall|q: u16|
                            #[trigger] self.ports@.contains(q) <==> old(self).ports@.contains(q)
                                || (exists|i: int| 0 <= i < k && fs[i] == Frame::Entry(q)),
                    decreases n - k,
                {
                    let ghost pre = self.ports@;
                    match frames[k] {
                        Frame::Entry(p) => {
                            insert_port(&mut self.ports, p);
                        },
                        Frame::Done => {},
                        Frame::ProtocolError(_) => {},
                    }
                    proof {
                        assert forall|q: u16| #[trigger] self.ports@.contains(q) <==> old(
                            self,
                        ).ports@.contains(q) || (exists|i: int|
                            0 <= i < k + 1 && fs[i] == Frame::Entry(q)) by {
                            if self.ports@.contains(q) {
                                if pre.contains(q) {
                                    if !old(self).ports@.contains(q) {
                                        let i = choose|i: int|
                                            0 <= i < k && fs[i] == Frame::Entry(q);
                                        assert(0 <= i < k + 1 && fs[i] == Frame::Entry(q));
                                    }
                                } else {
                                    assert(fs[k as int] == Frame::Entry(q));
                                }
                            }
                            if old(self).ports@.contains(q) {
                                assert(self.ports@.contains(q));
                            }
                            if exists|i: int| 0 <= i < k + 1 && fs[i] == Frame::Entry(q) {
                                let i = choose|i: int|
                                    0 <= i < k + 1 && fs[i] == Frame::Entry(q);
                                if i < k {
                                    assert(pre.contains(q));
                                } else {
                                    assert(fs[k as int] == Frame::Entry(q));
                                }
                                assert(self.ports@.contains(q));
                            }
                        }
                    }
                    k = k + 1;
                }
                if n == 0 {
                    self.state = ScanState::Receiving;
                } else {
                    match frames[n - 1] {
                        Frame::Entry(_) => {
                            self.state = ScanState::Receiving;
                        },
                        Frame::Done => {
                            self.state = ScanState::Complete;
                        },
                        Frame::ProtocolError(c) => {
                            self.state = ScanState::Failed;
                            self.error = Some(ScanError::Protocol(c));
                        },
                    }
                }
            },
        }
    }

    /// A receive call returned no bytes: the stream has ended without an
    /// explicit error, which completes the scan.
    pub fn stream_end(&mut self)
        requires
            old(self).wf(),
            old(self).state is RequestSent || old(self).state is Receiving,
        ensures
            final(self).wf(),
            final(self).protocol == old(self).protocol,
            final(self).state is Complete,
            final(self).ports@ == old(self).ports@,
    {
        self.state = ScanState::Complete;
    }

    /// A transport step failed (socket open, bind, send, receive, or the
    /// isolated worker): record the error and fail the scan.
    pub fn fail(&mut self, e: ScanError)
        requires
            old(self).wf(),
        ensures
            final(self).wf(),
            final(self).protocol == old(self).protocol,
            final(self).state is Failed,
            final(self).error == Some(e),
            final(self).ports@ == old(self).ports@,
    {
        self.state = ScanState::Failed;
        self.error = Some(e);
    }

    /// Whether the session has reached a terminal state.
    pub fn finished(&self) -> (r: bool)
        ensures
            r == (self.state is Complete || self.state is Failed),
    {
        match self.state {
            ScanState::Complete => true,
            ScanState::Failed => true,
            _ => false,
        }
    }

    /// The scan's outcome: the collected ports of a completed session, or
    /// the recorded error of a failed one.
    pub fn finish(self) -> (r: Result<Vec<u16>, ScanError>)
        requires
            self.wf(),
            self.state is Complete || self.state is Failed,
        ensures
            self.state is Complete ==> (r matches Ok(v) && v@ == self.ports@),
            self.state is Failed ==> r == Err::<Vec<u16>, ScanError>(self.error->0),
            (r matches Ok(v) ==> ports_wf(v@)),
    {
        match self.error {
            Some(e) => Err(e),
            None => Ok(self.ports),
        }
    }
}

/// Insert `p` into the strictly increasing port list `v`, keeping it
/// strictly increasing; inserting a port already present changes nothing.
fn insert_port(v: &mut Vec<u16>, p: u16)
    requires
        ports_wf(old(v)@),
        1 <= p,
    ensures
        ports_wf(final(v)@),
        forall|q: u16| #[trigger] final(v)@.contains(q) <==> old(v)@.contains(q) || q == p,
{
    let n = v.len();
    let mut i: usize = 0;
    while i < n
        invariant_except_break
            v@ == old(v)@,
            n == v@.len(),
            i <= n,
            forall|j: int| 0 <= j < i ==> v@[j] < p,
        ensures
            v@ == old(v)@,
            i <= v@.len(),
            forall|j: int| 0 <= j < i ==> v@[j] < p,
            i < v@.len() ==> v@[i as int] >= p,
        decreases n - i,
    {
        if v[i] >= p {
            break ;
        }
        i = i + 1;
    }
    if i < v.len() {
        if v[i] == p {
            proof {
                assert(old(v)@.contains(p)) by {
                    assert(old(v)@[i as int] == p);
                }
            }
            return ;
        }
    }
    let ghost pre = v@;
    v.insert(i, p);
    proof {
        assert(v@.len() == pre.len() + 1);
        assert(forall|j: int| 0 <= j < i ==> v@[j] == pre[j]);
        assert(v@[i as int] == p);
        assert(forall|j: int| i < j < v@.len() ==> v@[j] == pre[j - 1]);
        assert forall|q: u16| #[trigger] v@.contains(q) implies (pre.contains(q) || q == p) by {
            let j = choose|j: int| 0 <= j < v@.len() && v@[j] == q;
            if j < i {
                assert(pre[j] == q);
            } else if j > i {
                assert(pre[j - 1] == q);
            }
        }
        assert forall|q: u16| pre.contains(q) || q == p implies #[trigger] v@.contains(q) by {
            if pre.contains(q) {
                let j = choose|j: int| 0 <= j < pre.len() && pre[j] == q;
                if j < i {
                    assert(v@[j] == q);
                } else {
                    assert(v@[j + 1] == q);
                }
            } else {
                assert(v@[i as int] == q);
            }
        }
    }
}

} // verus!
