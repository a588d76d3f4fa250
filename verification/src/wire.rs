//! The netlink frame stream: length-prefixed binary frames carrying inet
//! socket-diagnostics responses, terminated by a `Done` marker or an
//! explicit kernel-reported error.

use vstd::prelude::*;
use crate::ScanError;

verus! {

/// Byte length of a netlink frame header.
pub const NL_HEADER_LEN: usize = 16;

/// Netlink control message type: explicit kernel-reported error.
pub const NL_TYPE_ERROR: u16 = 2;

/// Netlink control message type: terminal marker of a dump.
pub const NL_TYPE_DONE: u16 = 3;

/// Message type of inet socket-diagnostics requests and responses.
pub const NL_TYPE_SOCK_DIAG: u16 = 20;

/// Byte length of an inet socket-diagnostics response payload: four header
/// bytes, a 48-byte socket id, and five 32-bit counters.
pub const INET_DIAG_MSG_LEN: usize = 72;

/// The 16-bit value stored at `i` in the kernel's byte order, which is
/// little-endian on the targets this library supports.
pub open spec fn le_u16_at(s: Seq<u8>, i: int) -> int {
    s[i] + 0x100 * s[i + 1]
}

/// The 32-bit value stored at `i` in the kernel's byte order, which is
/// little-endian on the targets this library supports.
pub open spec fn le_u32_at(s: Seq<u8>, i: int) -> int {
    s[i] + 0x100 * s[i + 1] + 0x1_0000 * s[i + 2] + 0x100_0000 * s[i + 3]
}

/// The 16-bit value stored big-endian (network order) at `i`.
pub open spec fn be_u16_at(s: Seq<u8>, i: int) -> int {
    0x100 * s[i] + s[i + 1]
}

/// The 32-bit two's-complement value stored at `i` in the kernel's byte
/// order.
pub open spec fn err_code_at(s: Seq<u8>, i: int) -> i32 {
    if le_u32_at(s, i) < 0x8000_0000 {
        le_u32_at(s, i) as i32
    } else {
        (le_u32_at(s, i) - 0x1_0000_0000) as i32
    }
}

/// One decoded frame of a socket-diagnostics response stream.
#[derive(Clone, Copy, Debug, PartialEq, Eq, Structural)]
pub enum Frame {
    /// A reported socket with a nonzero local port.
    Entry(u16),
    /// Terminal marker: no more frames follow in this logical dump.
    Done,
    /// The kernel's reported diagnostic code; aborts the scan.
    ProtocolError(i32),
}

/// The frames encoded in `s` from offset `off` on, or `None` if a frame is
/// malformed (declared length inconsistent with the remaining buffer, or a
/// payload too short to decode). Each frame declares its own total length;
/// decoding stops after a `Done` or `ProtocolError` frame, skips frames of
/// unknown kinds, and skips entries whose port is the wildcard 0.
pub open spec fn frames_from(s: Seq<u8>, off: int) -> Option<Seq<Frame>>
    decreases s.len() - off,
{
    if off == s.len() {
        Some(Seq::empty())
    } else if off + NL_HEADER_LEN > s.len() {
        None
    } else {
        let len = le_u32_at(s, off);
        if len < NL_HEADER_LEN || off + len > s.len() {
            None
        } else {
            let ty = le_u16_at(s, off + 4);
            if ty == NL_TYPE_DONE {
                Some(seq![Frame::Done])
            } else if ty == NL_TYPE_ERROR {
                if len < NL_HEADER_LEN + 4 {
                    None
                } else {
                    Some(seq![Frame::ProtocolError(err_code_at(s, off + NL_HEADER_LEN))])
                }
            } else if ty == NL_TYPE_SOCK_DIAG {
                if len < NL_HEADER_LEN + INET_DIAG_MSG_LEN {
                    None
                } else {
                    let port = be_u16_at(s, off + NL_HEADER_LEN + 4);
                    match frames_from(s, off + len) {
                        Some(rest) => Some(
                            if port == 0 {
                                rest
                            } else {
                                seq![Frame::Entry(port as u16)] + rest
                            },
                        ),
                        None => None,
                    }
                }
            } else {
                frames_from(s, off + len)
            }
        }
    }
}

/// No frame in `fs` ends the stream: all are entries.
pub open spec fn no_terminal(fs: Seq<Frame>) -> bool {
    forall|i: int| 0 <= i < fs.len() ==> (#[trigger] fs[i]) is Entry
}

/// Port `q` is reported by some entry frame of `fs`.
pub open spec fn has_entry(fs: Seq<Frame>, q: u16) -> bool {
    exists|i: int| 0 <= i < fs.len() && fs[i] == Frame::Entry(q)
}

/// Every frame of a decoded sequence but the last is an entry: a terminal
/// `Done` or `ProtocolError` frame, where present, stands last and alone.
pub proof fn lemma_frames_entry_prefix(s: Seq<u8>, off: int)
    requires
        frames_from(s, off) is Some,
    ensures
        forall|i: int|
            0 <= i < frames_from(s, off)->0.len() - 1 ==> (#[trigger] frames_from(s, off)->0[i])
                is Entry,
    decreases s.len() - off,
{
    let fs = frames_from(s, off)->0;
    if off == s.len() {
    } else {
        let len = le_u32_at(s, off);
        let ty = le_u16_at(s, off + 4);
        if ty == NL_TYPE_DONE || ty == NL_TYPE_ERROR {
        } else if ty == NL_TYPE_SOCK_DIAG {
            let port = be_u16_at(s, off + NL_HEADER_LEN + 4);
            let rest = frames_from(s, off + len)->0;
            lemma_frames_entry_prefix(s, off + len);
            if port != 0 {
                assert(forall|i: int| 1 <= i < fs.len() ==> fs[i] == rest[i - 1]);
            }
        } else {
            lemma_frames_entry_prefix(s, off + len);
        }
    }
}

/// Entry frames always carry a nonzero port: the wildcard port 0 of the
/// kernel response is filtered out while decoding.
pub proof fn lemma_frames_entries_nonzero(s: Seq<u8>, off: int)
    requires
        frames_from(s, off) is Some,
    ensures
        forall|i: int|
            0 <= i < frames_from(s, off)->0.len() ==> ((#[trigger] frames_from(s, off)->0[i])
                matches Frame::Entry(p) ==> 1 <= p),
    decreases s.len() - off,
{
    let fs = frames_from(s, off)->0;
    if off == s.len() {
    } else {
        let len = le_u32_at(s, off);
        let ty = le_u16_at(s, off + 4);
        if ty == NL_TYPE_DONE || ty == NL_TYPE_ERROR {
        } else if ty == NL_TYPE_SOCK_DIAG {
            let port = be_u16_at(s, off + NL_HEADER_LEN + 4);
            let rest = frames_from(s, off + len)->0;
            lemma_frames_entries_nonzero(s, off + len);
            if port != 0 {
                assert(forall|i: int| 1 <= i < fs.len() ==> fs[i] == rest[i - 1]);
            }
        } else {
            lemma_frames_entries_nonzero(s, off + len);
        }
    }
}

/// Decoding depends only on the bytes from the offset on: decoding `b`
/// from `k` equals decoding `a + b` from `a.len() + k`.
proof fn lemma_frames_from_shift(a: Seq<u8>, b: Seq<u8>, k: int)
    requires
        0 <= k <= b.len(),
    ensures
        frames_from(a + b, a.len() + k) == frames_from(b, k),
    decreases b.len() - k,
{
    let s = a + b;
    let off = a.len() + k;
    assert(s.len() == a.len() + b.len());
    if k == b.len() {
    } else if k + NL_HEADER_LEN > b.len() {
    } else {
        assert(forall|m: int| 0 <= m < b.len() ==> s[a.len() + m] == #[trigger] b[m]);
        assert(le_u32_at(s, off) == le_u32_at(b, k));
        assert(le_u16_at(s, off + 4) == le_u16_at(b, k + 4));
        let len = le_u32_at(b, k);
        if len < NL_HEADER_LEN || k + len > b.len() {
        } else {
            let ty = le_u16_at(b, k + 4);
            if ty == NL_TYPE_DONE {
            } else if ty == NL_TYPE_ERROR {
                if len >= NL_HEADER_LEN + 4 {
                    assert(le_u32_at(s, off + NL_HEADER_LEN) == le_u32_at(b, k + NL_HEADER_LEN));
                }
            } else if ty == NL_TYPE_SOCK_DIAG {
                if len >= NL_HEADER_LEN + INET_DIAG_MSG_LEN {
                    assert(be_u16_at(s, off + NL_HEADER_LEN + 4) == be_u16_at(
                        b,
                        k + NL_HEADER_LEN + 4,
                    ));
                    lemma_frames_from_shift(a, b, k + len);
                }
            } else {
                lemma_frames_from_shift(a, b, k + len);
            }
        }
    }
}

/// Appending bytes to a buffer whose frames hold no terminal extends its
/// decoding by the decoding of the appended bytes.
proof fn lemma_frames_from_append_at(a: Seq<u8>, b: Seq<u8>, off: int, fa: Seq<Frame>)
    requires
        0 <= off <= a.len(),
        frames_from(a, off) == Some(fa),
        no_terminal(fa),
    ensures
        frames_from(a + b, off) == (match frames_from(b, 0) {
            Some(fb) => Some(fa + fb),
            None => None::<Seq<Frame>>,
        }),
    decreases a.len() - off,
{
    let s = a + b;
    assert(s.len() == a.len() + b.len());
    if off == a.len() {
        lemma_frames_from_shift(a, b, 0);
        assert(fa =~= Seq::<Frame>::empty());
        if frames_from(b, 0) is Some {
            assert(fa + frames_from(b, 0)->0 =~= frames_from(b, 0)->0);
        }
    } else {
        assert(forall|m: int| 0 <= m < a.len() ==> s[m] == #[trigger] a[m]);
        let len = le_u32_at(a, off);
        assert(off + NL_HEADER_LEN <= a.len() && NL_HEADER_LEN <= len && off + len <= a.len());
        assert(le_u32_at(s, off) == len);
        assert(le_u16_at(s, off + 4) == le_u16_at(a, off + 4));
        let ty = le_u16_at(a, off + 4);
        if ty == NL_TYPE_DONE {
            assert(fa[0] is Done);
            assert(false);
        } else if ty == NL_TYPE_ERROR {
            assert(fa[0] is ProtocolError);
            assert(false);
        } else if ty == NL_TYPE_SOCK_DIAG {
            let port = be_u16_at(a, off + NL_HEADER_LEN + 4);
            assert(be_u16_at(s, off + NL_HEADER_LEN + 4) == port);
            let rest = frames_from(a, off + len)->0;
            if port == 0 {
                assert(rest == fa);
            } else {
                assert(forall|i: int| 0 <= i < rest.len() ==> rest[i] == #[trigger] fa[i + 1]);
                assert forall|i: int| 0 <= i < rest.len() implies (#[trigger] rest[i]) is Entry by {
                    assert(rest[i] == fa[i + 1]);
                }
            }
            lemma_frames_from_append_at(a, b, off + len, rest);
            if frames_from(b, 0) is Some {
                let fb = frames_from(b, 0)->0;
                if port != 0 {
                    assert(seq![Frame::Entry(port as u16)] + (rest + fb) =~= (seq![
                        Frame::Entry(port as u16),
                    ] + rest) + fb);
                }
            }
        } else {
            lemma_frames_from_append_at(a, b, off + len, fa);
        }
    }
}

/// Frame reassembly: when a first buffer decodes completely and reaches no
/// terminal frame, decoding it and a second buffer separately yields
/// exactly the frames of their concatenation — so feeding a dump to the
/// decoder in one chunk or in several changes nothing.
pub proof fn lemma_decode_append(a: Seq<u8>, b: Seq<u8>, fa: Seq<Frame>)
    requires
        frames_from(a, 0) == Some(fa),
        no_terminal(fa),
    ensures
        frames_from(a + b, 0) == (match frames_from(b, 0) {
            Some(fb) => Some(fa + fb),
            None => None::<Seq<Frame>>,
        }),
{
    lemma_frames_from_append_at(a, b, 0, fa);
}

/// The 16-bit value stored at `i` in the kernel's byte order.
fn read_le_u16(buf: &[u8], i: usize) -> (r: u16)
    requires
        i + 2 <= buf@.len(),
    ensures
        r == le_u16_at(buf@, i as int),
{
    buf[i] as u16 + 0x100 * buf[i + 1] as u16
}

/// The 32-bit value stored at `i` in the kernel's byte order.
fn read_le_u32(buf: &[u8], i: usize) -> (r: u32)
    requires
        i + 4 <= buf@.len(),
    ensures
        r == le_u32_at(buf@, i as int),
{
    buf[i] as u32 + 0x100 * buf[i + 1] as u32 + 0x1_0000 * buf[i + 2] as u32 + 0x100_0000 * buf[
        i + 3
    ] as u32
}

/// The 16-bit value stored big-endian at `i`.
fn read_be_u16(buf: &[u8], i: usize) -> (r: u16)
    requires
        i + 2 <= buf@.len(),
    ensures
        r == be_u16_at(buf@, i as int),
{
    0x100 * buf[i] as u16 + buf[i + 1] as u16
}

/// The 32-bit two's-complement value stored at `i` in the kernel's byte
/// order.
fn read_err_code(buf: &[u8], i: usize) -> (r: i32)
    requires
        i + 4 <= buf@.len(),
    ensures
        r == err_code_at(buf@, i as int),
{
    let v: u32 = read_le_u32(buf, i);
    if v < 0x8000_0000 {
        v as i32
    } else {
        (v as i64 - 0x1_0000_0000i64) as i32
    }
}

/// Decode a received buffer into its sequence of frames, exactly as
/// `frames_from` describes: frames are sliced by their declared lengths,
/// unknown kinds and wildcard ports are skipped, and decoding stops after
/// a terminal frame. A malformed frame is a fatal decode error.
pub fn decode_frames(buf: &[u8]) -> (r: Result<Vec<Frame>, ScanError>)
    ensures
        (match r {
            Ok(frames) => frames_from(buf@, 0) == Some(frames@),
            Err(e) => e == ScanError::Decode && frames_from(buf@, 0) is None,
        }),
{
    let mut frames: Vec<Frame> = Vec::new();
    let mut off: usize = 0;
    loop
        invariant
            off <= buf@.len(),
            (match frames_from(buf@, off as int) {
                Some(rest) => frames_from(buf@, 0) == Some(frames@ + rest),
                None => frames_from(buf@, 0) is None,
            }),
        decreases buf@.len() - off,
    {
        if off == buf.len() {
            proof {
                assert(frames@ + Seq::<Frame>::empty() =~= frames@);
            }
            return Ok(frames);
        }
        if buf.len() - off < NL_HEADER_LEN {
            return Err(ScanError::Decode);
        }
        let len = read_le_u32(buf, off) as usize;
        if len < NL_HEADER_LEN || len > buf.len() - off {
            return Err(ScanError::Decode);
        }
        let ty = read_le_u16(buf, off + 4);
        if ty == NL_TYPE_DONE {
            let ghost pre = frames@;
            frames.push(Frame::Done);
            proof {
                assert(frames@ =~= pre + seq![Frame::Done]);
            }
            return Ok(frames);
        } else if ty == NL_TYPE_ERROR {
            if len < NL_HEADER_LEN + 4 {
                return Err(ScanError::Decode);
            }
            let code = read_err_code(buf, off + NL_HEADER_LEN);
            let ghost pre = frames@;
            frames.push(Frame::ProtocolError(code));
            proof {
                assert(frames@ =~= pre + seq![Frame::ProtocolError(code)]);
            }
            return Ok(frames);
        } else if ty == NL_TYPE_SOCK_DIAG {
            if len < NL_HEADER_LEN + INET_DIAG_MSG_LEN {
                return Err(ScanError::Decode);
            }
            let port = read_be_u16(buf, off + NL_HEADER_LEN + 4);
            let ghost pre = frames@;
            if port != 0 {
                frames.push(Frame::Entry(port));
            }
            proof {
                if port != 0 {
                    assert(frames@ =~= pre + seq![Frame::Entry(port)]);
                }
                let orest = frames_from(buf@, off + len);
                if orest is Some {
                    let rest = orest->0;
                    assert(pre + (seq![Frame::Entry(port)] + rest) =~= (pre + seq![
                        Frame::Entry(port),
                    ]) + rest);
                }
            }
            off = off + len;
        } else {
            off = off + len;
        }
    }
}

} // verus!
