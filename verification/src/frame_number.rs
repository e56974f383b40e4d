//! A wrapping 16-bit simulation tick counter.
//!
//! Frame numbers count simulation ticks and wrap around after `u16::MAX`.
//! Over a long session the raw value is therefore meaningless on its own;
//! ordering is defined through the wrap-aware difference `wrap_diff`: `a` is
//! at or before `b` when `b` is reachable from `a` in fewer than `0x8000`
//! increments. On any set of frames spanning fewer than `0x8000` ticks this
//! behaves exactly like integer order.

use vstd::prelude::*;

verus! {

/// A simulation tick index, wrapping at the 16-bit boundary.
#[derive(Clone, Copy, PartialEq, Eq, Structural, Debug)]
pub struct FrameNumber {
    pub value: u16,
}

/// Number of increments that lead from `b` to `a`, in `[0, 0x10000)`.
pub open spec fn wrap_diff(a: FrameNumber, b: FrameNumber) -> int {
    if a.value >= b.value {
        a.value - b.value
    } else {
        a.value - b.value + 0x10000
    }
}

/// Wrap-aware "at or before": `b` is within half the counter range ahead of
/// `a`. On frames spanning fewer than `0x8000` ticks this is a total order.
pub open spec fn frame_le(a: FrameNumber, b: FrameNumber) -> bool {
    wrap_diff(b, a) < 0x8000
}

/// Wrap-aware "strictly before".
pub open spec fn frame_lt(a: FrameNumber, b: FrameNumber) -> bool {
    a != b && frame_le(a, b)
}

/// The frame `k` ticks after `a` (wrapping).
pub open spec fn frame_add(a: FrameNumber, k: int) -> FrameNumber
    recommends
        0 <= k < 0x10000,
{
    if a.value + k >= 0x10000 {
        (FrameNumber { value: (a.value + k - 0x10000) as u16 })
    } else {
        (FrameNumber { value: (a.value + k) as u16 })
    }
}

/// The frame `k` ticks before `a` (wrapping).
pub open spec fn frame_sub(a: FrameNumber, k: int) -> FrameNumber
    recommends
        0 <= k < 0x10000,
{
    if a.value - k < 0 {
        (FrameNumber { value: (a.value - k + 0x10000) as u16 })
    } else {
        (FrameNumber { value: (a.value - k) as u16 })
    }
}

/// The later of two frames under the wrap-aware order.
pub open spec fn frame_max(a: FrameNumber, b: FrameNumber) -> FrameNumber {
    if frame_le(a, b) {
        b
    } else {
        a
    }
}

/// The earlier of two frames under the wrap-aware order.
pub open spec fn frame_min(a: FrameNumber, b: FrameNumber) -> FrameNumber {
    if frame_le(a, b) {
        a
    } else {
        b
    }
}

impl FrameNumber {
    /// Wraps a raw tick value.
    pub fn new(value: u16) -> (r: FrameNumber)
        ensures
            r.value == value,
    {
        FrameNumber { value }
    }

    /// The raw tick value.
    pub fn value(self) -> (r: u16)
        ensures
            r == self.value,
    {
        self.value
    }

    /// The frame `rhs` ticks later, wrapping at the counter boundary.
    pub fn wrapping_add(self, rhs: u16) -> (r: FrameNumber)
        ensures
            r == frame_add(self, rhs as int),
            wrap_diff(r, self) == rhs as int,
    {
        FrameNumber { value: self.value.wrapping_add(rhs) }
    }

    /// The frame `rhs` ticks earlier, wrapping at the counter boundary.
    pub fn wrapping_sub(self, rhs: u16) -> (r: FrameNumber)
        ensures
            r == frame_sub(self, rhs as int),
            wrap_diff(self, r) == rhs as int,
    {
        FrameNumber { value: self.value.wrapping_sub(rhs) }
    }

    /// Wrap-aware "at or before" test.
    pub fn is_le(self, other: FrameNumber) -> (r: bool)
        ensures
            r == frame_le(self, other),
    {
        other.value.wrapping_sub(self.value) < 0x8000
    }

    /// Wrap-aware "strictly before" test.
    pub fn is_lt(self, other: FrameNumber) -> (r: bool)
        ensures
            r == frame_lt(self, other),
    {
        self.value != other.value && self.is_le(other)
    }

    /// The later of `self` and `other` under the wrap-aware order.
    pub fn max(self, other: FrameNumber) -> (r: FrameNumber)
        ensures
            r == frame_max(self, other),
    {
        if self.is_le(other) {
            other
        } else {
            self
        }
    }

    /// The earlier of `self` and `other` under the wrap-aware order.
    pub fn min(self, other: FrameNumber) -> (r: FrameNumber)
        ensures
            r == frame_min(self, other),
    {
        if self.is_le(other) {
            self
        } else {
            other
        }
    }
}

/// `frame_add` is determined by, and determines, the wrap-aware difference:
/// stepping `k` ticks from `b` reaches `a` exactly when `wrap_diff(a, b)`
/// is `k`.
pub proof fn lemma_add_diff(a: FrameNumber, b: FrameNumber, k: int)
    requires
        0 <= k < 0x10000,
    ensures
        wrap_diff(frame_add(b, k), b) == k,
        a == frame_add(b, wrap_diff(a, b)),
{
}

} // verus!
