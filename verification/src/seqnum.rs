//! Wrap-aware arithmetic on 32-bit TCP sequence numbers.
//!
//! Sequence numbers live on a circle of size `2^32`.  All protocol-level
//! comparisons ("is this segment in the receive window", "does this ACK
//! cover unacknowledged data") are phrased over the forward distance
//! `seq_sub(a, b)`: the unique `d < 2^32` with `b + d == a (mod 2^32)`.

use vstd::prelude::*;

verus! {

/// Forward distance from `b` to `a` on the sequence circle:
/// the unique `d < 2^32` with `b + d == a (mod 2^32)`.
pub open spec fn seq_sub(a: u32, b: u32) -> u32 {
    if a >= b {
        (a - b) as u32
    } else {
        (a + 0x1_0000_0000 - b) as u32
    }
}

/// `a + n` on the sequence circle.
pub open spec fn seq_add(a: u32, n: u32) -> u32 {
    if a + n < 0x1_0000_0000 {
        (a + n) as u32
    } else {
        (a + n - 0x1_0000_0000) as u32
    }
}

/// Strictly-before in wrap-aware order: `b` lies ahead of `a` by less
/// than half the sequence space.
pub open spec fn seq_lt(a: u32, b: u32) -> bool {
    0 < seq_sub(b, a) < 0x8000_0000
}

/// Wrap-aware `<=`.
pub open spec fn seq_le(a: u32, b: u32) -> bool {
    a == b || seq_lt(a, b)
}

/// `x` lies in the half-open window `[base, base + wnd)` on the circle.
pub open spec fn in_window(base: u32, wnd: u16, x: u32) -> bool {
    seq_sub(x, base) < wnd
}

/// RFC 793 acceptability test for an inbound segment occupying `seg_len`
/// sequence numbers starting at `seq`, against receive state
/// `(rcv_nxt, rcv_wnd)`.
pub open spec fn seg_acceptable(rcv_nxt: u32, rcv_wnd: u16, seq: u32, seg_len: u32) -> bool {
    if seg_len == 0 {
        if rcv_wnd == 0 {
            seq == rcv_nxt
        } else {
            in_window(rcv_nxt, rcv_wnd, seq)
        }
    } else {
        if rcv_wnd == 0 {
            false
        } else {
            in_window(rcv_nxt, rcv_wnd, seq)
                || in_window(rcv_nxt, rcv_wnd, seq_add(seq, (seg_len - 1) as u32))
        }
    }
}

/// An inbound ACK number is acceptable when `snd_una < ack <= snd_nxt`
/// in wrap-aware order, phrased over forward distances from `una`.
pub open spec fn ack_acceptable(una: u32, ack: u32, nxt: u32) -> bool {
    1 <= seq_sub(ack, una) && seq_sub(ack, una) <= seq_sub(nxt, una)
}

/// Adding `n` and measuring the distance back gives `n` again.
pub proof fn lemma_seq_add_sub(a: u32, n: u32)
    ensures
        seq_sub(seq_add(a, n), a) == n,
{
}

/// The distance from `b` to `a` carries `b` back to `a`.
pub proof fn lemma_seq_sub_add(a: u32, b: u32)
    ensures
        seq_add(b, seq_sub(a, b)) == a,
{
}

/// Forward distances compose: if `b` is no further ahead of `a` than `c`
/// is, then the distance from `b` to `c` is the difference.
pub proof fn lemma_seq_sub_chain(a: u32, b: u32, c: u32)
    requires
        seq_sub(b, a) <= seq_sub(c, a),
    ensures
        seq_sub(c, b) == seq_sub(c, a) - seq_sub(b, a),
{
}

/// Executable form of `seq_add`.
pub fn wrap_add(a: u32, n: u32) -> (r: u32)
    ensures
        r == seq_add(a, n),
{
    let s: u64 = (a as u64) + (n as u64);
    if s < 0x1_0000_0000u64 {
        s as u32
    } else {
        (s - 0x1_0000_0000u64) as u32
    }
}

/// Executable form of `seq_sub`.
pub fn wrap_sub(a: u32, b: u32) -> (r: u32)
    ensures
        r == seq_sub(a, b),
{
    if a >= b {
        a - b
    } else {
        (((a as u64) + 0x1_0000_0000u64) - (b as u64)) as u32
    }
}

/// Executable form of `seq_lt`.
pub fn wrapping_lt(a: u32, b: u32) -> (r: bool)
    ensures
        r == seq_lt(a, b),
{
    let d = wrap_sub(b, a);
    0 < d && d < 0x8000_0000
}

/// Executable form of `seg_acceptable`.
pub fn segment_acceptable(rcv_nxt: u32, rcv_wnd: u16, seq: u32, seg_len: u32) -> (r: bool)
    ensures
        r == seg_acceptable(rcv_nxt, rcv_wnd, seq, seg_len),
{
    if seg_len == 0 {
        if rcv_wnd == 0 {
            seq == rcv_nxt
        } else {
            wrap_sub(seq, rcv_nxt) < rcv_wnd as u32
        }
    } else {
        if rcv_wnd == 0 {
            false
        } else {
            wrap_sub(seq, rcv_nxt) < rcv_wnd as u32
                || wrap_sub(wrap_add(seq, seg_len - 1), rcv_nxt) < rcv_wnd as u32
        }
    }
}

/// Executable form of `ack_acceptable`.
pub fn is_ack_acceptable(una: u32, ack: u32, nxt: u32) -> (r: bool)
    ensures
        r == ack_acceptable(una, ack, nxt),
{
    let d = wrap_sub(ack, una);
    1 <= d && d <= wrap_sub(nxt, una)
}

} // verus!
