//! A fixed-capacity, frame-indexed history window.
//!
//! A `FrameBuffer` holds one optional value per simulation frame over a
//! window of consecutive frames `[start_frame, end_frame]`. The window never
//! holds more than `limit` frames: inserting at a frame beyond `end_frame`
//! advances the window forward and evicts the oldest frames once the span
//! would exceed the capacity. Frames older than `start_frame` can never be
//! (re)written, so memory stays bounded however long a session runs.

use vstd::prelude::*;

use crate::frame_number::{frame_add, frame_le, frame_sub, lemma_add_diff, wrap_diff, FrameNumber};

verus! {

/// A bounded window of per-frame optional values.
pub struct FrameBuffer<T> {
    start_frame: FrameNumber,
    values: Vec<Option<T>>,
    limit: u16,
}

/// The mathematical value of a `FrameBuffer`: a window start, the sequence
/// of per-frame slots, and the capacity.
pub struct BufferModel<T> {
    pub start_frame: FrameNumber,
    pub frames: Seq<Option<T>>,
    pub limit: u16,
}

impl<T> BufferModel<T> {
    /// The window is non-empty, within capacity, and small enough that the
    /// wrap-aware frame order is unambiguous over it.
    pub open spec fn wf(self) -> bool {
        &&& 1 <= self.limit < 0x8000
        &&& 1 <= self.frames.len() <= self.limit
    }

    /// Whether `frame` lies inside the retained window.
    pub open spec fn contains_frame(self, frame: FrameNumber) -> bool {
        wrap_diff(frame, self.start_frame) < self.frames.len()
    }

    /// The value at `frame`: the slot's content inside the window, `None`
    /// outside it.
    pub open spec fn get(self, frame: FrameNumber) -> Option<T> {
        if self.contains_frame(frame) {
            self.frames[wrap_diff(frame, self.start_frame)]
        } else {
            None
        }
    }

    /// Whether an insertion at `frame` is accepted: only frames at or after
    /// the window's start.
    pub open spec fn can_insert(self, frame: FrameNumber) -> bool {
        frame_le(self.start_frame, frame)
    }

    /// Last frame currently representable.
    pub open spec fn end_frame(self) -> FrameNumber {
        frame_add(self.start_frame, self.frames.len() - 1)
    }

    /// Window length after inserting at `frame`: unchanged within the
    /// window, else grown to span `frame`, capped at the capacity.
    pub open spec fn len_after_insert(self, frame: FrameNumber) -> int {
        let off = wrap_diff(frame, self.start_frame);
        if off < self.frames.len() {
            self.frames.len() as int
        } else if off + 1 <= self.limit {
            off + 1
        } else {
            self.limit as int
        }
    }

    /// Window start after inserting at `frame`: advances exactly as far as
    /// needed for `frame` to be the window's end without exceeding capacity.
    pub open spec fn start_after_insert(self, frame: FrameNumber) -> FrameNumber {
        let off = wrap_diff(frame, self.start_frame);
        if off < self.frames.len() {
            self.start_frame
        } else {
            frame_sub(frame, self.len_after_insert(frame) - 1)
        }
    }

    /// The window after storing `value` at `frame`: a rejected frame leaves
    /// the window unchanged; otherwise `frame`'s slot holds `value`, every
    /// other retained frame keeps its old value, and frames that fell off
    /// the advanced window's front are gone.
    pub open spec fn insert(self, frame: FrameNumber, value: Option<T>) -> BufferModel<T> {
        if !self.can_insert(frame) {
            self
        } else {
            let new_len = self.len_after_insert(frame);
            let new_start = self.start_after_insert(frame);
            let shift = wrap_diff(new_start, self.start_frame);
            BufferModel {
                start_frame: new_start,
                frames: Seq::new(
                    new_len as nat,
                    |i: int|
                        if i == wrap_diff(frame, new_start) {
                            value
                        } else if shift + i < self.frames.len() {
                            self.frames[shift + i]
                        } else {
                            None
                        },
                ),
                limit: self.limit,
            }
        }
    }
}

/// Pointwise reading of `BufferModel::insert`: the inserted frame holds
/// `value`, every other frame of the new window keeps its old value, and the
/// window advances exactly as `len_after_insert` / `start_after_insert` say.
pub proof fn lemma_insert_model_props<T>(m: BufferModel<T>, frame: FrameNumber, value: Option<T>)
    requires
        m.wf(),
        m.can_insert(frame),
    ensures
        m.insert(frame, value).wf(),
        m.insert(frame, value).limit == m.limit,
        m.insert(frame, value).frames.len() == m.len_after_insert(frame),
        m.insert(frame, value).start_frame == m.start_after_insert(frame),
        m.insert(frame, value).get(frame) == value,
        frame_le(m.start_frame, m.insert(frame, value).start_frame),
        forall|f: FrameNumber|
            f != frame && m.insert(frame, value).contains_frame(f) ==> m.insert(
                frame,
                value,
            ).get(f) == m.get(f),
{
    let r = m.insert(frame, value);
    let off = wrap_diff(frame, m.start_frame);
    let shift = wrap_diff(r.start_frame, m.start_frame);
    lemma_add_diff(frame, m.start_frame, off);
    lemma_diff_sum(m.start_frame, r.start_frame, frame);
    assert(r.get(frame) == value);
    assert forall|f: FrameNumber| f != frame && r.contains_frame(f) implies r.get(f) == m.get(
        f,
    ) by {
        let d = wrap_diff(f, r.start_frame);
        lemma_add_diff(f, r.start_frame, d);
        lemma_add_diff(frame, r.start_frame, wrap_diff(frame, r.start_frame));
        lemma_diff_sum(m.start_frame, r.start_frame, f);
        assert(wrap_diff(f, m.start_frame) == shift + d);
    }
}

impl<T> View for FrameBuffer<T> {
    type V = BufferModel<T>;

    closed spec fn view(&self) -> BufferModel<T> {
        BufferModel { start_frame: self.start_frame, frames: self.values@, limit: self.limit }
    }
}

impl<T> FrameBuffer<T> {
    /// First frame currently representable.
    pub open spec fn spec_start(self) -> FrameNumber {
        self@.start_frame
    }

    /// The stored slots; index `i` belongs to frame `spec_start() + i`.
    pub open spec fn frames(self) -> Seq<Option<T>> {
        self@.frames
    }

    /// The fixed capacity.
    pub open spec fn spec_limit(self) -> u16 {
        self@.limit
    }

    /// Number of frames currently retained.
    pub open spec fn spec_len(self) -> int {
        self.frames().len() as int
    }

    /// Last frame currently representable.
    pub open spec fn spec_end(self) -> FrameNumber {
        frame_add(self.spec_start(), self.spec_len() - 1)
    }

    /// The window is non-empty, within capacity, and small enough that the
    /// wrap-aware frame order is unambiguous over it.
    pub open spec fn well_formed(self) -> bool {
        &&& 1 <= self.spec_limit() < 0x8000
        &&& 1 <= self.spec_len() <= self.spec_limit()
    }

    /// Whether `frame` lies inside the retained window.
    pub open spec fn contains_frame(self, frame: FrameNumber) -> bool {
        wrap_diff(frame, self.spec_start()) < self.spec_len()
    }

    /// The value stored at `frame`: the slot's content inside the window,
    /// `None` outside it.
    pub open spec fn spec_get(self, frame: FrameNumber) -> Option<T> {
        if self.contains_frame(frame) {
            self.frames()[wrap_diff(frame, self.spec_start())]
        } else {
            None
        }
    }

    /// Whether an insertion at `frame` is accepted: only frames at or after
    /// the window's start; history is never extended backward.
    pub open spec fn can_insert_spec(self, frame: FrameNumber) -> bool {
        frame_le(self.spec_start(), frame)
    }

    /// Window length after inserting at `frame`: unchanged within the
    /// window, else grown to span `frame`, capped at the capacity.
    pub open spec fn len_after_insert(self, frame: FrameNumber) -> int {
        let off = wrap_diff(frame, self.spec_start());
        if off < self.spec_len() {
            self.spec_len()
        } else if off + 1 <= self.spec_limit() {
            off + 1
        } else {
            self.spec_limit() as int
        }
    }

    /// Window start after inserting at `frame`: advances exactly as far as
    /// needed for `frame` to be the window's end without exceeding capacity.
    pub open spec fn start_after_insert(self, frame: FrameNumber) -> FrameNumber {
        let off = wrap_diff(frame, self.spec_start());
        if off < self.spec_len() {
            self.spec_start()
        } else {
            frame_sub(frame, self.len_after_insert(frame) - 1)
        }
    }

    /// Creates a window of capacity `limit` holding the single unset frame
    /// `start_frame`.
    pub fn new(start_frame: FrameNumber, limit: u16) -> (r: FrameBuffer<T>)
        requires
            1 <= limit < 0x8000,
        ensures
            r.well_formed(),
            r.spec_start() == start_frame,
            r.spec_limit() == limit,
            r.spec_len() == 1,
            r.frames() == seq![Option::<T>::None],
    {
        let mut values: Vec<Option<T>> = Vec::new();
        values.push(None);
        proof {
            assert(values@ =~= seq![Option::<T>::None]);
        }
        FrameBuffer { start_frame, values, limit }
    }

    /// The fixed capacity.
    pub fn limit(&self) -> (r: u16)
        ensures
            r == self.spec_limit(),
    {
        self.limit
    }

    /// Number of frames currently retained.
    pub fn len(&self) -> (r: usize)
        ensures
            r == self.spec_len(),
    {
        self.values.len()
    }

    /// First frame currently representable.
    pub fn start_frame(&self) -> (r: FrameNumber)
        ensures
            r == self.spec_start(),
    {
        self.start_frame
    }

    /// Last frame currently representable.
    pub fn end_frame(&self) -> (r: FrameNumber)
        requires
            self.well_formed(),
        ensures
            r == self.spec_end(),
    {
        self.start_frame.wrapping_add((self.values.len() - 1) as u16)
    }

    /// Whether an insertion at `frame` would be accepted.
    pub fn can_insert(&self, frame: FrameNumber) -> (r: bool)
        ensures
            r == self.can_insert_spec(frame),
    {
        self.start_frame.is_le(frame)
    }

    /// The value stored at `frame`, or `None` if unset or out of window.
    pub fn get(&self, frame: FrameNumber) -> (r: Option<&T>)
        requires
            self.well_formed(),
        ensures
            match r {
                Some(v) => self.spec_get(frame) == Some(*v),
                None => self.spec_get(frame) is None,
            },
    {
        let off16: u16 = frame.value.wrapping_sub(self.start_frame.value);
        let off: usize = off16 as usize;
        if off < self.values.len() {
            match &self.values[off] {
                Some(v) => Some(v),
                None => None,
            }
        } else {
            None
        }
    }

    /// Stores `value` at `frame`. A frame before the window's start is
    /// rejected (no-op). A frame beyond the window's end advances the
    /// window so that `frame` becomes its end, evicting the oldest frames
    /// once the span would exceed the capacity. All other retained frames
    /// keep their values.
    #[verifier::loop_isolation(false)]
    #[verifier::rlimit(100)]
    pub fn insert(&mut self, frame: FrameNumber, value: Option<T>)
        requires
            old(self).well_formed(),
        ensures
            final(self).well_formed(),
            final(self).spec_limit() == old(self).spec_limit(),
            !old(self).can_insert_spec(frame) ==> *final(self) == *old(self),
            old(self).can_insert_spec(frame) ==> {
                &&& final(self).spec_len() == old(self).len_after_insert(frame)
                &&& final(self).spec_start() == old(self).start_after_insert(frame)
                &&& final(self).spec_get(frame) == value
                &&& forall|f: FrameNumber|
                    f != frame && final(self).contains_frame(f) ==> final(self).spec_get(f)
                        == old(self).spec_get(f)
            },
            final(self)@ == old(self)@.insert(frame, value),
    {
        let ghost old_self = *self;
        let ghost old_frames = self.values@;
        let ghost old_len = self.values@.len() as int;
        let off16: u16 = frame.value.wrapping_sub(self.start_frame.value);
        if off16 >= 0x8000 {
            return ;
        }
        let off: usize = off16 as usize;
        let limit: usize = self.limit as usize;
        if off < self.values.len() {
            // Overwrite inside the live window.
            self.values[off] = value;
            proof {
                assert forall|f: FrameNumber| f != frame && self.contains_frame(f) implies self
                    .spec_get(f) == old_self.spec_get(f) by {
                    if wrap_diff(f, self.start_frame) == off as int {
                        lemma_add_diff(f, self.start_frame, off as int);
                        lemma_add_diff(frame, self.start_frame, off as int);
                    }
                }
            }
        } else if off < limit {
            // Extend the window in place: `frame` becomes the new end.
            while self.values.len() < off
                invariant
                    self.start_frame == old_self.spec_start(),
                    self.limit == old_self.spec_limit(),
                    old_len <= self.values@.len() <= off,
                    off < 0x8000,
                    self.values@.subrange(0, old_len) == old_frames,
                    forall|i: int|
                        old_len <= i < self.values@.len() ==> self.values@[i] is None,
                decreases off - self.values.len(),
            {
                self.values.push(None);
                proof {
                    assert(self.values@.subrange(0, old_len) =~= old_frames);
                }
            }
            self.values.push(value);
            proof {
                assert(self.values@.subrange(0, old_len) =~= old_frames);
                assert(self.spec_get(frame) == value);
                assert forall|f: FrameNumber| f != frame && self.contains_frame(f) implies self
                    .spec_get(f) == old_self.spec_get(f) by {
                    let d = wrap_diff(f, self.start_frame);
                    lemma_add_diff(f, self.start_frame, d);
                    lemma_add_diff(frame, self.start_frame, off as int);
                    if d < old_len {
                        assert(self.values@[d] == old_frames[d]);
                    }
                }
            }
        } else {
            // The new span exceeds the capacity: evict the oldest frames.
            let drop_n: usize = off + 1 - limit;
            if drop_n >= self.values.len() {
                // Nothing retained survives the jump.
                self.values.clear();
                self.start_frame = frame.wrapping_sub(self.limit - 1);
                while self.values.len() < limit - 1
                    invariant
                        self.start_frame == frame_sub(frame, limit - 1),
                        self.limit == old_self.spec_limit(),
                        self.values@.len() <= limit - 1,
                        limit == self.limit as int,
                        1 <= self.limit < 0x8000,
                        forall|i: int| 0 <= i < self.values@.len() ==> self.values@[i] is None,
                    decreases limit - 1 - self.values.len(),
                {
                    self.values.push(None);
                }
                self.values.push(value);
                proof {
                    lemma_add_diff(frame, old_self.start_frame, off as int);
                    lemma_diff_sum(old_self.start_frame, self.start_frame, frame);
                    assert(wrap_diff(frame, self.start_frame) == limit - 1);
                    assert(self.spec_get(frame) == value);
                    assert forall|f: FrameNumber| f != frame && self.contains_frame(f) implies self
                        .spec_get(f) == old_self.spec_get(f) by {
                        let d = wrap_diff(f, self.start_frame);
                        lemma_add_diff(f, self.start_frame, d);
                        lemma_add_diff(frame, self.start_frame, (limit - 1) as int);
                        lemma_diff_sum(f, self.start_frame, old_self.start_frame);
                        assert(wrap_diff(f, old_self.start_frame) == wrap_diff(
                            self.start_frame,
                            old_self.start_frame,
                        ) + d);
                        assert(!old_self.contains_frame(f));
                    }
                }
            } else {
                // Drop the evicted prefix, keep the rest, pad to `frame`.
                let mut k: usize = 0;
                while k < drop_n
                    invariant
                        self.start_frame == old_self.spec_start(),
                        self.limit == old_self.spec_limit(),
                        0 <= k <= drop_n,
                        drop_n < old_frames.len(),
                        self.values@ == old_frames.skip(k as int),
                    decreases drop_n - k,
                {
                    self.values.remove(0);
                    k = k + 1;
                    proof {
                        assert(self.values@ =~= old_frames.skip(k as int));
                    }
                }
                self.start_frame = self.start_frame.wrapping_add(drop_n as u16);
                let ghost kept = old_len - drop_n;
                while self.values.len() < limit - 1
                    invariant
                        self.start_frame == frame_add(old_self.spec_start(), drop_n as int),
                        self.limit == old_self.spec_limit(),
                        kept == old_len - drop_n,
                        kept <= self.values@.len() <= limit - 1,
                        limit == self.limit as int,
                        1 <= self.limit < 0x8000,
                        self.values@.subrange(0, kept) == old_frames.skip(drop_n as int),
                        forall|i: int| kept <= i < self.values@.len() ==> self.values@[i] is None,
                    decreases limit - 1 - self.values.len(),
                {
                    self.values.push(None);
                    proof {
                        assert(self.values@.subrange(0, kept) =~= old_frames.skip(drop_n as int));
                    }
                }
                self.values.push(value);
                proof {
                    assert(self.values@.subrange(0, kept) =~= old_frames.skip(drop_n as int));
                    lemma_add_diff(frame, old_self.start_frame, off as int);
                    lemma_add_diff(self.start_frame, old_self.start_frame, drop_n as int);
                    assert(wrap_diff(frame, self.start_frame) == limit - 1) by {
                        lemma_diff_sum(old_self.start_frame, self.start_frame, frame);
                    }
                    assert(self.spec_start() == old_self.start_after_insert(frame));
                    assert(self.spec_get(frame) == value);
                    assert forall|f: FrameNumber| f != frame && self.contains_frame(f) implies self
                        .spec_get(f) == old_self.spec_get(f) by {
                        let d = wrap_diff(f, self.start_frame);
                        lemma_add_diff(f, self.start_frame, d);
                        lemma_add_diff(frame, self.start_frame, (limit - 1) as int);
                        lemma_diff_sum(f, self.start_frame, old_self.start_frame);
                        assert(wrap_diff(f, old_self.start_frame) == drop_n + d);
                        if d < kept {
                            assert(self.values@[d] == old_frames.skip(drop_n as int)[d]);
                            assert(old_frames.skip(drop_n as int)[d] == old_frames[drop_n + d]);
                        } else {
                            assert(!old_self.contains_frame(f));
                        }
                    }
                }
            }
        }
        proof {
            let m0 = old_self@;
            let m1 = self@;
            let r = m0.insert(frame, value);
            lemma_insert_model_props(m0, frame, value);
            assert forall|i: int| 0 <= i < m1.frames.len() implies m1.frames[i] == r.frames[i] by {
                let f = frame_add(m1.start_frame, i);
                lemma_add_diff(f, m1.start_frame, i);
                assert(m1.get(f) == m1.frames[i]);
                assert(r.get(f) == r.frames[i]);
                if f != frame {
                    assert(self.spec_get(f) == old_self.spec_get(f));
                }
            }
            assert(m1.frames =~= r.frames);
        }
    }
}

/// Adding wrap-aware differences along a chain of frames telescopes, up to
/// one wrap of the counter.
pub proof fn lemma_diff_sum(a: FrameNumber, b: FrameNumber, c: FrameNumber)
    ensures
        wrap_diff(c, a) == if wrap_diff(c, b) + wrap_diff(b, a) < 0x10000 {
            wrap_diff(c, b) + wrap_diff(b, a)
        } else {
            wrap_diff(c, b) + wrap_diff(b, a) - 0x10000
        },
{
}

/// Law: bounded capacity. Appending the frame just past the window's end
/// grows the window by one while it is under its capacity; once full, the
/// length stays at the capacity and the start advances by exactly one, so
/// `k` consecutive appends beyond a full window retain exactly `limit`
/// frames and evict the `k` oldest.
pub proof fn lemma_bounded_capacity<T>(m: BufferModel<T>, v: Option<T>)
    requires
        m.wf(),
    ensures
        m.insert(frame_add(m.end_frame(), 1), v).frames.len() == if m.frames.len() < m.limit {
            m.frames.len() + 1 as int
        } else {
            m.limit as int
        },
        m.insert(frame_add(m.end_frame(), 1), v).start_frame == if m.frames.len() < m.limit {
            m.start_frame
        } else {
            frame_add(m.start_frame, 1)
        },
        m.insert(frame_add(m.end_frame(), 1), v).get(frame_add(m.end_frame(), 1)) == v,
{
    let f = frame_add(m.end_frame(), 1);
    lemma_add_diff(m.end_frame(), m.start_frame, m.frames.len() - 1);
    lemma_diff_sum(m.start_frame, m.end_frame(), f);
    lemma_add_diff(f, m.end_frame(), 1);
    assert(wrap_diff(f, m.start_frame) == m.frames.len() as int);
    lemma_insert_model_props(m, f, v);
}

} // verus!
