//! The per-tick reconciliation pass: drains the staged raw input, removes
//! duplicates, orders each player's batch by frame, backfills the implied
//! frame ranges into the player's history, and rewinds the simulation clock
//! when input arrives for an already-simulated frame.

use vstd::prelude::*;

use crate::frame_buffer::{lemma_insert_model_props, BufferModel};
use crate::frame_number::{
    frame_add, frame_le, frame_lt, frame_max, frame_sub, lemma_add_diff, wrap_diff, FrameNumber,
};
use crate::player::{
    entries_contain, entry_buffer_of, entry_index_of, lemma_updates_wf_preserved,
    PlayerDirection, PlayerDirectionUpdate, PlayerInput, PlayerNetId, PlayerUpdates,
};
use crate::simulation_time::{rewound, SimulationTime};
use crate::deferred::DeferredUpdates;
use crate::{lag_compensated_frames, lag_compensated_frames_spec, SERVER_UPDATES_LIMIT};

verus! {

/// Per-connection acknowledgment record (the transport collaborator's view):
/// the last frame the remote peer has acknowledged, `None` before the first
/// acknowledgment arrives.
#[derive(Clone, Copy, PartialEq, Eq, Structural, Debug)]
pub struct ConnectionState {
    pub incoming_acknowledgment: Option<FrameNumber>,
}

impl ConnectionState {
    /// The last acknowledged incoming frame, if any.
    pub fn incoming_acknowledgments(&self) -> (r: Option<FrameNumber>)
        ensures
            r == self.incoming_acknowledgment,
    {
        self.incoming_acknowledgment
    }
}

/// A conflicting historical write that was discarded: the committed value at
/// `frame_number` differed from the incoming direction. Returned to the
/// caller so it can be logged; the committed history is left untouched.
#[derive(Clone, Copy, PartialEq, Eq, Structural, Debug)]
pub struct InputConflict {
    pub player: PlayerNetId,
    pub frame_number: FrameNumber,
    pub existing: PlayerDirectionUpdate,
    pub incoming: PlayerDirection,
}

/// Whether some update in `s` is for frame `f`.
pub open spec fn seq_has_frame(s: Seq<PlayerInput>, f: FrameNumber) -> bool {
    exists|i: int| 0 <= i < s.len() && s[i].frame_number == f
}

/// `s` with every update dropped whose frame already occurs earlier in `s`:
/// the first claim for a frame wins, later duplicates are redundant.
pub open spec fn dedup_first_by_frame(s: Seq<PlayerInput>) -> Seq<PlayerInput>
    decreases s.len(),
{
    if s.len() == 0 {
        Seq::empty()
    } else if seq_has_frame(s.drop_last(), s.last().frame_number) {
        dedup_first_by_frame(s.drop_last())
    } else {
        dedup_first_by_frame(s.drop_last()).push(s.last())
    }
}

/// `u` inserted into `s` before the suffix of updates whose frames come
/// after `u`'s (updates at or before `u`'s frame stay ahead of it).
pub open spec fn insert_by_frame(s: Seq<PlayerInput>, u: PlayerInput) -> Seq<PlayerInput>
    decreases s.len(),
{
    if s.len() == 0 {
        seq![u]
    } else if frame_le(s.last().frame_number, u.frame_number) {
        s.push(u)
    } else {
        insert_by_frame(s.drop_last(), u).push(s.last())
    }
}

/// `s` reordered ascending by frame (insertion sort under the wrap-aware
/// order).
pub open spec fn sort_by_frame(s: Seq<PlayerInput>) -> Seq<PlayerInput>
    decreases s.len(),
{
    if s.len() == 0 {
        Seq::empty()
    } else {
        insert_by_frame(sort_by_frame(s.drop_last()), s.last())
    }
}

/// A frame occurs in `s.push(u)` exactly when it occurs in `s` or is `u`'s.
proof fn lemma_has_frame_push(s: Seq<PlayerInput>, u: PlayerInput, f: FrameNumber)
    ensures
        seq_has_frame(s.push(u), f) == (seq_has_frame(s, f) || u.frame_number == f),
{
    if seq_has_frame(s.push(u), f) {
        let w = choose|i: int| 0 <= i < s.push(u).len() && s.push(u)[i].frame_number == f;
        if w < s.len() {
            assert(s[w].frame_number == f);
        }
    }
    if seq_has_frame(s, f) {
        let w = choose|i: int| 0 <= i < s.len() && s[i].frame_number == f;
        assert(s.push(u)[w].frame_number == f);
    }
    if u.frame_number == f {
        assert(s.push(u)[s.len() as int].frame_number == f);
    }
}

/// Whether any update in `v` is for frame `frame`.
fn contains_frame_value(v: &Vec<PlayerInput>, frame: FrameNumber) -> (r: bool)
    ensures
        r == seq_has_frame(v@, frame),
{
    let n = v.len();
    let mut i: usize = 0;
    while i < n
        invariant
            n == v@.len(),
            0 <= i <= n,
            forall|j: int| 0 <= j < i ==> v@[j].frame_number != frame,
        decreases n - i,
    {
        if v[i].frame_number.value == frame.value {
            proof {
                assert(v@[i as int].frame_number == frame);
            }
            return true;
        }
        i = i + 1;
    }
    false
}

/// Drops every update whose frame already occurs earlier in the batch,
/// keeping the first occurrence per frame: a client may resend the same
/// update before being acknowledged, and later duplicates are redundant,
/// not corrections.
pub fn dedup_by_frame(updates: &Vec<PlayerInput>) -> (r: Vec<PlayerInput>)
    ensures
        r@ == dedup_first_by_frame(updates@),
{
    let n = updates.len();
    let mut result: Vec<PlayerInput> = Vec::new();
    let mut i: usize = 0;
    while i < n
        invariant
            n == updates@.len(),
            0 <= i <= n,
            result@ == dedup_first_by_frame(updates@.take(i as int)),
            forall|f: FrameNumber|
                seq_has_frame(result@, f) == seq_has_frame(updates@.take(i as int), f),
        decreases n - i,
    {
        let u = updates[i];
        let ghost prefix = updates@.take(i as int);
        let ghost prefix1 = updates@.take(i as int + 1);
        proof {
            assert(prefix1.drop_last() =~= prefix);
            assert(prefix1.last() == updates@[i as int]);
        }
        let had = contains_frame_value(&result, u.frame_number);
        if !had {
            result.push(u);
        }
        proof {
            assert forall|f: FrameNumber|
                seq_has_frame(result@, f) == seq_has_frame(prefix1, f) by {
                lemma_has_frame_push(prefix, u, f);
                assert(prefix1 =~= prefix.push(u));
                if !had {
                    lemma_has_frame_push(dedup_first_by_frame(prefix), u, f);
                }
            }
        }
        i = i + 1;
    }
    proof {
        assert(updates@.take(n as int) =~= updates@);
    }
    result
}

/// Placing `u` at a boundary position `j` (everything from `j` on comes
/// after `u`'s frame, the element before `j`, if any, does not) realizes
/// `insert_by_frame`.
proof fn lemma_insert_by_frame_at(s: Seq<PlayerInput>, u: PlayerInput, j: int)
    requires
        0 <= j <= s.len(),
        forall|k: int| j <= k < s.len() ==> !frame_le((#[trigger] s[k]).frame_number, u.frame_number),
        j > 0 ==> frame_le(s[j - 1].frame_number, u.frame_number),
    ensures
        insert_by_frame(s, u) == s.take(j).push(u) + s.skip(j),
    decreases s.len(),
{
    if s.len() == 0 {
        assert(insert_by_frame(s, u) =~= s.take(j).push(u) + s.skip(j));
    } else if frame_le(s.last().frame_number, u.frame_number) {
        assert(j == s.len());
        assert(s.take(j) =~= s);
        assert(insert_by_frame(s, u) =~= s.take(j).push(u) + s.skip(j));
    } else {
        assert(j < s.len());
        let d = s.drop_last();
        assert(forall|k: int|
            j <= k < d.len() ==> !frame_le((#[trigger] d[k]).frame_number, u.frame_number));
        if j > 0 {
            assert(d[j - 1] == s[j - 1]);
        }
        lemma_insert_by_frame_at(d, u, j);
        assert(insert_by_frame(s, u) == insert_by_frame(d, u).push(s.last()));
        assert(d.take(j) =~= s.take(j));
        assert((d.take(j).push(u) + d.skip(j)).push(s.last()) =~= s.take(j).push(u) + s.skip(j));
    }
}

/// Reorders the batch ascending by frame under the wrap-aware order, so
/// each update's effective range ends where the next update begins.
pub fn sort_updates_by_frame(updates: &Vec<PlayerInput>) -> (r: Vec<PlayerInput>)
    ensures
        r@ == sort_by_frame(updates@),
{
    let n = updates.len();
    let mut result: Vec<PlayerInput> = Vec::new();
    let mut i: usize = 0;
    while i < n
        invariant
            n == updates@.len(),
            0 <= i <= n,
            result@ == sort_by_frame(updates@.take(i as int)),
        decreases n - i,
    {
        let u = updates[i];
        let ghost prefix = updates@.take(i as int);
        let ghost prefix1 = updates@.take(i as int + 1);
        proof {
            assert(prefix1.drop_last() =~= prefix);
            assert(prefix1.last() == updates@[i as int]);
        }
        let ghost before = result@;
        let mut j: usize = result.len();
        while j > 0 && !result[j - 1].frame_number.is_le(u.frame_number)
            invariant
                result@ == before,
                0 <= j <= result@.len(),
                forall|k: int|
                    j <= k < result@.len() ==> !frame_le(
                        (#[trigger] result@[k]).frame_number,
                        u.frame_number,
                    ),
            decreases j,
        {
            j = j - 1;
        }
        proof {
            lemma_insert_by_frame_at(before, u, j as int);
        }
        result.insert(j, u);
        proof {
            assert(result@ =~= before.take(j as int).push(u) + before.skip(j as int));
        }
        i = i + 1;
    }
    proof {
        assert(updates@.take(n as int) =~= updates@);
    }
    result
}


/// The committed slot an incoming direction becomes: not yet consumed by the
/// simulation step.
pub open spec fn committed_update(direction: PlayerDirection) -> PlayerDirectionUpdate {
    PlayerDirectionUpdate { direction, is_processed_client_input: None }
}

/// The state one player's reconciliation threads along: the player's
/// history window, the simulation clock, and the conflicts discarded so far.
pub struct ReconcileState {
    pub buffer: BufferModel<PlayerDirectionUpdate>,
    pub time: SimulationTime,
    pub conflicts: Seq<InputConflict>,
}

/// Applying one direction to one frame: an unset, writable frame is filled
/// (rewinding the clock if the frame was already simulated); a frame outside
/// the writable window is skipped silently; a committed equal value is a
/// no-op; a committed different value stays and the incoming one is recorded
/// as a discarded conflict.
pub open spec fn fill_frame(
    st: ReconcileState,
    player: PlayerNetId,
    direction: PlayerDirection,
    f: FrameNumber,
) -> ReconcileState {
    match st.buffer.get(f) {
        Option::None => {
            if st.buffer.can_insert(f) {
                ReconcileState {
                    buffer: st.buffer.insert(f, Some(committed_update(direction))),
                    time: rewound(st.time, f),
                    conflicts: st.conflicts,
                }
            } else {
                st
            }
        },
        Option::Some(existing) => {
            if existing == committed_update(direction) {
                st
            } else {
                ReconcileState {
                    buffer: st.buffer,
                    time: st.time,
                    conflicts: st.conflicts.push(
                        InputConflict { player, frame_number: f, existing, incoming: direction },
                    ),
                }
            }
        },
    }
}

/// Number of frames in the inclusive wrap-aware range `[from, to]`; empty
/// when `to` comes before `from`.
pub open spec fn range_len(from: FrameNumber, to: FrameNumber) -> nat {
    if frame_le(from, to) {
        (wrap_diff(to, from) + 1) as nat
    } else {
        0
    }
}

/// `fill_frame` applied to the `n` consecutive frames starting at `from`,
/// in ascending order.
pub open spec fn fill_range(
    st: ReconcileState,
    player: PlayerNetId,
    direction: PlayerDirection,
    from: FrameNumber,
    n: nat,
) -> ReconcileState
    decreases n,
{
    if n == 0 {
        st
    } else {
        fill_range(
            fill_frame(st, player, direction, from),
            player,
            direction,
            frame_add(from, 1),
            (n - 1) as nat,
        )
    }
}

/// One application step keeps the window valid and its capacity.
pub proof fn lemma_fill_frame_wf(
    st: ReconcileState,
    player: PlayerNetId,
    direction: PlayerDirection,
    f: FrameNumber,
)
    requires
        st.buffer.wf(),
    ensures
        fill_frame(st, player, direction, f).buffer.wf(),
        fill_frame(st, player, direction, f).buffer.limit == st.buffer.limit,
{
    if st.buffer.get(f) is None && st.buffer.can_insert(f) {
        lemma_insert_model_props(st.buffer, f, Some(committed_update(direction)));
    }
}

/// A whole range application keeps the window valid and its capacity.
pub proof fn lemma_fill_range_wf(
    st: ReconcileState,
    player: PlayerNetId,
    direction: PlayerDirection,
    from: FrameNumber,
    n: nat,
)
    requires
        st.buffer.wf(),
    ensures
        fill_range(st, player, direction, from, n).buffer.wf(),
        fill_range(st, player, direction, from, n).buffer.limit == st.buffer.limit,
    decreases n,
{
    if n > 0 {
        lemma_fill_frame_wf(st, player, direction, from);
        lemma_fill_range_wf(
            fill_frame(st, player, direction, from),
            player,
            direction,
            frame_add(from, 1),
            (n - 1) as nat,
        );
    }
}

/// Stepping past the first frame of a non-empty range shortens it by one.
proof fn lemma_range_len_step(from: FrameNumber, to: FrameNumber)
    requires
        frame_le(from, to),
    ensures
        range_len(frame_add(from, 1), to) == range_len(from, to) - 1,
{
    lemma_add_diff(to, from, wrap_diff(to, from));
    lemma_add_diff(frame_add(from, 1), from, 1);
}

/// Where update `i`'s fill range ends: one frame before the next update, or
/// at the last acknowledged frame for the final update.
pub open spec fn fill_bound(s: Seq<PlayerInput>, i: int, ack: FrameNumber) -> FrameNumber {
    if i + 1 < s.len() {
        frame_sub(s[i + 1].frame_number, 1)
    } else {
        ack
    }
}

/// Applies updates `s[i..]` (already deduplicated and frame-ordered): each
/// one fills `[max(its frame, min), fill_bound]`, the frames for which its
/// direction is assumed to have been in effect.
pub open spec fn apply_updates_from(
    st: ReconcileState,
    player: PlayerNetId,
    s: Seq<PlayerInput>,
    i: int,
    min: FrameNumber,
    ack: FrameNumber,
) -> ReconcileState
    decreases s.len() - i,
{
    if !(0 <= i < s.len()) {
        st
    } else {
        let from = frame_max(s[i].frame_number, min);
        let to = fill_bound(s, i, ack);
        apply_updates_from(
            fill_range(st, player, s[i].direction, from, range_len(from, to)),
            player,
            s,
            i + 1,
            min,
            ack,
        )
    }
}

/// One player's whole reconciliation step over a raw batch: deduplicate
/// (first claim per frame wins), order by frame, then backfill each update's
/// implied range.
pub open spec fn reconcile_batch(
    st: ReconcileState,
    player: PlayerNetId,
    batch: Seq<PlayerInput>,
    min: FrameNumber,
    ack: FrameNumber,
) -> ReconcileState {
    apply_updates_from(st, player, sort_by_frame(dedup_first_by_frame(batch)), 0, min, ack)
}

/// Applying a tail of updates keeps the window valid and its capacity.
pub proof fn lemma_apply_updates_wf(
    st: ReconcileState,
    player: PlayerNetId,
    s: Seq<PlayerInput>,
    i: int,
    min: FrameNumber,
    ack: FrameNumber,
)
    requires
        st.buffer.wf(),
    ensures
        apply_updates_from(st, player, s, i, min, ack).buffer.wf(),
        apply_updates_from(st, player, s, i, min, ack).buffer.limit == st.buffer.limit,
    decreases s.len() - i,
{
    if 0 <= i < s.len() {
        let from = frame_max(s[i].frame_number, min);
        let to = fill_bound(s, i, ack);
        lemma_fill_range_wf(st, player, s[i].direction, from, range_len(from, to));
        lemma_apply_updates_wf(
            fill_range(st, player, s[i].direction, from, range_len(from, to)),
            player,
            s,
            i + 1,
            min,
            ack,
        );
    }
}

/// Reconciles one player's raw batch into their history window.
///
/// Every frame in each update's fill range is treated by the policy of
/// `fill_frame`: unset frames are committed (rewinding `time` for frames
/// before the replay start), committed frames are never overwritten, and a
/// differing committed value leaves the incoming one in `conflicts`.
#[verifier::loop_isolation(false)]
pub fn reconcile_player(
    buffer: &mut crate::frame_buffer::FrameBuffer<PlayerDirectionUpdate>,
    time: &mut SimulationTime,
    conflicts: &mut Vec<InputConflict>,
    player: PlayerNetId,
    updates: &Vec<PlayerInput>,
    min_frame_number: FrameNumber,
    player_frame_number: FrameNumber,
)
    requires
        old(buffer)@.wf(),
    ensures
        ({
            let st = reconcile_batch(
                ReconcileState {
                    buffer: old(buffer)@,
                    time: *old(time),
                    conflicts: old(conflicts)@,
                },
                player,
                updates@,
                min_frame_number,
                player_frame_number,
            );
            &&& final(buffer)@ == st.buffer
            &&& *final(time) == st.time
            &&& final(conflicts)@ == st.conflicts
        }),
        final(buffer)@.wf(),
        final(buffer)@.limit == old(buffer)@.limit,
{
    let deduped = dedup_by_frame(updates);
    let sorted = sort_updates_by_frame(&deduped);
    let ghost s = sorted@;
    let ghost st0 = ReconcileState {
        buffer: old(buffer)@,
        time: *old(time),
        conflicts: old(conflicts)@,
    };
    let ghost target = apply_updates_from(
        st0,
        player,
        s,
        0,
        min_frame_number,
        player_frame_number,
    );
    let n = sorted.len();
    let mut i: usize = 0;
    while i < n
        invariant
            0 <= i <= n,
            buffer@.wf(),
            buffer@.limit == old(buffer)@.limit,
            apply_updates_from(
                ReconcileState { buffer: buffer@, time: *time, conflicts: conflicts@ },
                player,
                s,
                i as int,
                min_frame_number,
                player_frame_number,
            ) == target,
        decreases n - i,
    {
        let u = sorted[i];
        let from = u.frame_number.max(min_frame_number);
        let to = if i + 1 < n {
            sorted[i + 1].frame_number.wrapping_sub(1)
        } else {
            player_frame_number
        };
        let ghost st_range = ReconcileState { buffer: buffer@, time: *time, conflicts: conflicts@ };
        let ghost range_target = fill_range(
            st_range,
            player,
            u.direction,
            from,
            range_len(from, to),
        );
        proof {
            assert(to == fill_bound(s, i as int, player_frame_number));
            lemma_fill_range_wf(st_range, player, u.direction, from, range_len(from, to));
        }
        let mut cursor = from;
        while cursor.is_le(to)
            invariant
                buffer@.wf(),
                buffer@.limit == old(buffer)@.limit,
                fill_range(
                    ReconcileState { buffer: buffer@, time: *time, conflicts: conflicts@ },
                    player,
                    u.direction,
                    cursor,
                    range_len(cursor, to),
                ) == range_target,
            decreases range_len(cursor, to),
        {
            let ghost st_pre = ReconcileState {
                buffer: buffer@,
                time: *time,
                conflicts: conflicts@,
            };
            let mut existing: Option<PlayerDirectionUpdate> = None;
            match buffer.get(cursor) {
                Some(v) => {
                    existing = Some(*v);
                },
                None => {},
            }
            match existing {
                None => {
                    if buffer.can_insert(cursor) {
                        time.rewind_to(cursor);
                        buffer.insert(
                            cursor,
                            Some(
                                PlayerDirectionUpdate {
                                    direction: u.direction,
                                    is_processed_client_input: None,
                                },
                            ),
                        );
                    }
                },
                Some(v) => {
                    let expected = PlayerDirectionUpdate {
                        direction: u.direction,
                        is_processed_client_input: None,
                    };
                    if !(v == expected) {
                        conflicts.push(
                            InputConflict {
                                player,
                                frame_number: cursor,
                                existing: v,
                                incoming: u.direction,
                            },
                        );
                    }
                },
            }
            proof {
                let st_post = ReconcileState { buffer: buffer@, time: *time, conflicts: conflicts@ };
                assert(st_post == fill_frame(st_pre, player, u.direction, cursor));
                lemma_fill_frame_wf(st_pre, player, u.direction, cursor);
                lemma_range_len_step(cursor, to);
            }
            cursor = cursor.wrapping_add(1);
        }
        i = i + 1;
    }
}

/// Each connection appears at most once in the acknowledgment table.
pub open spec fn acks_wf(s: Seq<(PlayerNetId, ConnectionState)>) -> bool {
    forall|i: int, j: int| 0 <= i < j < s.len() ==> s[i].0 != s[j].0
}

/// Whether the table has an entry for `player`.
pub open spec fn acks_has(s: Seq<(PlayerNetId, ConnectionState)>, player: PlayerNetId) -> bool {
    exists|i: int| 0 <= i < s.len() && s[i].0 == player
}

/// `player`'s connection record; meaningful only when `acks_has`.
pub open spec fn ack_of(s: Seq<(PlayerNetId, ConnectionState)>, player: PlayerNetId) -> ConnectionState {
    s[choose|i: int| 0 <= i < s.len() && s[i].0 == player].1
}

/// The frame up to which `player`'s input may be backfilled: the last frame
/// the peer acknowledged, or the current frame for a freshly connected
/// player with no acknowledgment yet (trust nothing beyond "now").
pub open spec fn ack_frame_of(
    s: Seq<(PlayerNetId, ConnectionState)>,
    player: PlayerNetId,
    current: FrameNumber,
) -> FrameNumber {
    match ack_of(s, player).incoming_acknowledgment {
        Option::Some(f) => f,
        Option::None => current,
    }
}

/// Finds `player`'s connection record, if registered.
#[verifier::loop_isolation(false)]
fn lookup_connection(
    connection_states: &Vec<(PlayerNetId, ConnectionState)>,
    player: PlayerNetId,
) -> (r: Option<ConnectionState>)
    requires
        acks_wf(connection_states@),
    ensures
        r == if acks_has(connection_states@, player) {
            Some(ack_of(connection_states@, player))
        } else {
            None::<ConnectionState>
        },
{
    let n = connection_states.len();
    let mut i: usize = 0;
    while i < n
        invariant
            n == connection_states@.len(),
            0 <= i <= n,
            forall|j: int| 0 <= j < i ==> connection_states@[j].0 != player,
        decreases n - i,
    {
        if connection_states[i].0.value == player.value {
            proof {
                assert(connection_states@[i as int].0 == player);
                assert(acks_has(connection_states@, player));
                let w = choose|k: int|
                    0 <= k < connection_states@.len() && connection_states@[k].0 == player;
                assert(connection_states@[w].0 == player);
                assert(w == i as int);
            }
            return Some(connection_states[i].1);
        }
        i = i + 1;
    }
    proof {
        assert(!acks_has(connection_states@, player));
    }
    None
}

/// Every player with a staged batch has a registered connection: the
/// lifecycle invariant the enqueuing side must maintain.
pub open spec fn all_players_registered(
    entries: Seq<(PlayerNetId, Seq<PlayerInput>)>,
    acks: Seq<(PlayerNetId, ConnectionState)>,
) -> bool {
    forall|i: int| 0 <= i < entries.len() ==> acks_has(acks, (#[trigger] entries[i]).0)
}

/// The state the whole pass threads across players: every player's history
/// window, the simulation clock, and the conflicts discarded so far.
pub struct ProcessState {
    pub updates: Seq<(PlayerNetId, BufferModel<PlayerDirectionUpdate>)>,
    pub time: SimulationTime,
    pub conflicts: Seq<InputConflict>,
}

/// One player's contribution to the pass: their batch is reconciled into
/// their buffer (created lazily, anchored at the batch's first update, with
/// the server's retention capacity), bounded below by the lag-compensation
/// window and above by the player's acknowledged frame.
pub open spec fn process_one(
    st: ProcessState,
    player: PlayerNetId,
    batch: Seq<PlayerInput>,
    current_frame: FrameNumber,
    acks: Seq<(PlayerNetId, ConnectionState)>,
) -> ProcessState {
    let min = frame_sub(current_frame, lag_compensated_frames_spec());
    let ack_frame = ack_frame_of(acks, player, current_frame);
    let b0 = if entries_contain(st.updates, player) {
        entry_buffer_of(st.updates, player)
    } else {
        (BufferModel {
            start_frame: batch[0].frame_number,
            frames: seq![Option::<PlayerDirectionUpdate>::None],
            limit: SERVER_UPDATES_LIMIT,
        })
    };
    let rst = reconcile_batch(
        ReconcileState { buffer: b0, time: st.time, conflicts: st.conflicts },
        player,
        batch,
        min,
        ack_frame,
    );
    ProcessState {
        updates: if entries_contain(st.updates, player) {
            st.updates.update(entry_index_of(st.updates, player), (player, rst.buffer))
        } else {
            st.updates.push((player, rst.buffer))
        },
        time: rst.time,
        conflicts: rst.conflicts,
    }
}

/// The pass over the drained batches `entries[i..]`, player by player in
/// drain order.
pub open spec fn process_from(
    st: ProcessState,
    entries: Seq<(PlayerNetId, Seq<PlayerInput>)>,
    i: int,
    current_frame: FrameNumber,
    acks: Seq<(PlayerNetId, ConnectionState)>,
) -> ProcessState
    decreases entries.len() - i,
{
    if !(0 <= i < entries.len()) {
        st
    } else {
        process_from(
            process_one(st, entries[i].0, entries[i].1, current_frame, acks),
            entries,
            i + 1,
            current_frame,
            acks,
        )
    }
}

/// The complete pass's outcome from an initial collection of histories and
/// clock, with no conflicts yet recorded.
pub open spec fn process_result(
    updates0: Seq<(PlayerNetId, BufferModel<PlayerDirectionUpdate>)>,
    time0: SimulationTime,
    entries: Seq<(PlayerNetId, Seq<PlayerInput>)>,
    current_frame: FrameNumber,
    acks: Seq<(PlayerNetId, ConnectionState)>,
) -> ProcessState {
    process_from(
        ProcessState { updates: updates0, time: time0, conflicts: Seq::empty() },
        entries,
        0,
        current_frame,
        acks,
    )
}

/// Runs the per-tick reconciliation pass.
///
/// Drains every staged batch and folds it, player by player, into the
/// players' history windows: duplicates are dropped (first claim per frame
/// wins), each update fills the frames up to the next update or the
/// player's acknowledged frame, committed history is never overwritten, and
/// the simulation clock is rewound to the earliest newly committed frame.
/// Discarded conflicting writes are returned for logging. Every player with
/// a staged batch must have a registered connection; that is the caller's
/// lifecycle invariant.
#[verifier::loop_isolation(false)]
pub fn process_player_input_updates(
    current_frame: FrameNumber,
    connection_states: &Vec<(PlayerNetId, ConnectionState)>,
    simulation_time: &mut SimulationTime,
    updates: &mut PlayerUpdates,
    deferred_updates: &mut DeferredUpdates<PlayerInput>,
) -> (conflicts: Vec<InputConflict>)
    requires
        old(updates).wf(),
        old(deferred_updates).wf(),
        acks_wf(connection_states@),
        all_players_registered(old(deferred_updates)@, connection_states@),
    ensures
        final(deferred_updates)@.len() == 0,
        final(updates).wf(),
        final(updates)@ == process_result(
            old(updates)@,
            *old(simulation_time),
            old(deferred_updates)@,
            current_frame,
            connection_states@,
        ).updates,
        *final(simulation_time) == process_result(
            old(updates)@,
            *old(simulation_time),
            old(deferred_updates)@,
            current_frame,
            connection_states@,
        ).time,
        conflicts@ == process_result(
            old(updates)@,
            *old(simulation_time),
            old(deferred_updates)@,
            current_frame,
            connection_states@,
        ).conflicts,
{
    let lag = lag_compensated_frames();
    let min_frame_number = current_frame.wrapping_sub(lag);
    let mut conflicts: Vec<InputConflict> = Vec::new();
    let drained = deferred_updates.drain();
    let ghost entries = old(deferred_updates)@;
    let ghost target = process_result(
        old(updates)@,
        *old(simulation_time),
        entries,
        current_frame,
        connection_states@,
    );
    let n = drained.len();
    let mut i: usize = 0;
    while i < n
        invariant
            0 <= i <= n,
            n == entries.len(),
            drained@.len() == n,
            forall|j: int|
                0 <= j < n ==> (#[trigger] drained@[j]).0 == entries[j].0 && drained@[j].1@
                    == entries[j].1,
            updates.wf(),
            process_from(
                ProcessState { updates: updates@, time: *simulation_time, conflicts: conflicts@ },
                entries,
                i as int,
                current_frame,
                connection_states@,
            ) == target,
        decreases n - i,
    {
        let ghost st_pre = ProcessState {
            updates: updates@,
            time: *simulation_time,
            conflicts: conflicts@,
        };
        let ghost s_pre = updates@;
        let player = drained[i].0;
        let batch = &drained[i].1;
        let connection = lookup_connection(connection_states, player);
        let ack_frame = match connection {
            Some(c) => match c.incoming_acknowledgments() {
                Some(f) => f,
                None => current_frame,
            },
            None => {
                proof {
                    assert(acks_has(connection_states@, entries[i as int].0));
                    assert(false);
                }
                current_frame
            },
        };
        proof {
            assert(entries[i as int].1.len() >= 1);
        }
        let first_frame = batch[0].frame_number;
        let ghost contained = updates.contains_player(player);
        let ghost tidx = updates.target_index(player);
        let buffer = updates.get_direction_mut(player, first_frame, SERVER_UPDATES_LIMIT);
        reconcile_player(
            buffer,
            simulation_time,
            &mut conflicts,
            player,
            batch,
            min_frame_number,
            ack_frame,
        );
        proof {
            let st1 = process_one(
                st_pre,
                player,
                entries[i as int].1,
                current_frame,
                connection_states@,
            );
            lemma_apply_updates_wf(
                ReconcileState {
                    buffer: updates@[tidx].1,
                    time: st_pre.time,
                    conflicts: st_pre.conflicts,
                },
                player,
                sort_by_frame(dedup_first_by_frame(entries[i as int].1)),
                0,
                frame_sub(current_frame, lag_compensated_frames_spec()),
                ack_frame_of(connection_states@, player, current_frame),
            );
            if contained {
                assert(updates@ =~= st1.updates);
            } else {
                assert(updates@ =~= st1.updates);
            }
            lemma_updates_wf_preserved(s_pre, updates@, player, tidx, updates@[tidx].1);
        }
        i = i + 1;
    }
    conflicts
}

/// A frame occurs in a concatenation exactly when it occurs in a part.
proof fn lemma_has_frame_concat(a: Seq<PlayerInput>, b: Seq<PlayerInput>, f: FrameNumber)
    ensures
        seq_has_frame(a + b, f) == (seq_has_frame(a, f) || seq_has_frame(b, f)),
{
    if seq_has_frame(a + b, f) {
        let w = choose|i: int| 0 <= i < (a + b).len() && (a + b)[i].frame_number == f;
        if w < a.len() {
            assert(a[w].frame_number == f);
        } else {
            assert(b[w - a.len()].frame_number == f);
        }
    }
    if seq_has_frame(a, f) {
        let w = choose|i: int| 0 <= i < a.len() && a[i].frame_number == f;
        assert((a + b)[w].frame_number == f);
    }
    if seq_has_frame(b, f) {
        let w = choose|i: int| 0 <= i < b.len() && b[i].frame_number == f;
        assert((a + b)[a.len() + w].frame_number == f);
    }
}

/// Law: a redelivered update is ignored. Once a batch holds an update for a
/// frame, inserting a further update for the same frame anywhere after it
/// leaves the deduplicated batch unchanged, so redelivering a triple any
/// number of times before the drain changes nothing, and of two updates that
/// disagree about one frame only the first is ever considered.
pub proof fn lemma_redelivery_ignored(s1: Seq<PlayerInput>, u: PlayerInput, s2: Seq<PlayerInput>)
    requires
        seq_has_frame(s1, u.frame_number),
    ensures
        dedup_first_by_frame(s1 + seq![u] + s2) == dedup_first_by_frame(s1 + s2),
    decreases s2.len(),
{
    if s2.len() == 0 {
        assert((s1 + seq![u] + s2) =~= s1.push(u));
        assert(s1.push(u).drop_last() =~= s1);
        assert((s1 + s2) =~= s1);
    } else {
        let s2p = s2.drop_last();
        let last = s2.last();
        assert((s1 + seq![u] + s2).drop_last() =~= s1 + seq![u] + s2p);
        assert((s1 + seq![u] + s2).last() == last);
        assert((s1 + s2).drop_last() =~= s1 + s2p);
        assert((s1 + s2).last() == last);
        lemma_redelivery_ignored(s1, u, s2p);
        lemma_has_frame_concat(s1 + seq![u], s2p, last.frame_number);
        lemma_has_frame_concat(s1, seq![u], last.frame_number);
        lemma_has_frame_concat(s1, s2p, last.frame_number);
        assert((s1 + seq![u] + s2p) =~= (s1 + seq![u]) + s2p);
        if u.frame_number == last.frame_number {
            assert(seq![u][0].frame_number == last.frame_number);
        }
        if seq_has_frame(seq![u], last.frame_number) {
            let w = choose|i: int| 0 <= i < 1 && seq![u][i].frame_number == last.frame_number;
            assert(seq![u][w] == u);
        }
    }
}

/// Law: redelivery does not change the reconciliation outcome. One player's
/// whole reconciliation step produces the same buffer, clock and conflicts
/// whether a frame's update was delivered once or delivered again later in
/// the batch.
pub proof fn lemma_reconcile_redelivery_idempotent(
    st: ReconcileState,
    player: PlayerNetId,
    s1: Seq<PlayerInput>,
    u: PlayerInput,
    s2: Seq<PlayerInput>,
    min: FrameNumber,
    ack: FrameNumber,
)
    requires
        seq_has_frame(s1, u.frame_number),
    ensures
        reconcile_batch(st, player, s1 + seq![u] + s2, min, ack) == reconcile_batch(
            st,
            player,
            s1 + s2,
            min,
            ack,
        ),
{
    lemma_redelivery_ignored(s1, u, s2);
}

/// Law: committed history is never silently overwritten. Applying an
/// incoming direction to a frame that already holds a committed value leaves
/// the window and the clock exactly as they were; a differing value is
/// recorded as a discarded conflict, an equal one changes nothing at all.
pub proof fn lemma_no_silent_overwrite(
    st: ReconcileState,
    player: PlayerNetId,
    direction: PlayerDirection,
    f: FrameNumber,
    v: PlayerDirectionUpdate,
)
    requires
        st.buffer.get(f) == Some(v),
    ensures
        fill_frame(st, player, direction, f).buffer == st.buffer,
        fill_frame(st, player, direction, f).time == st.time,
        v != committed_update(direction) ==> fill_frame(st, player, direction, f).conflicts
            == st.conflicts.push(
            (InputConflict { player, frame_number: f, existing: v, incoming: direction }),
        ),
        v == committed_update(direction) ==> fill_frame(st, player, direction, f) == st,
{
}

/// Law: a range application touches only its own frames. Any frame outside
/// the `n` frames starting at `from` keeps its value, except that the
/// window's advance may carry it out of retention; it is never set or
/// replaced.
pub proof fn lemma_fill_range_untouched(
    st: ReconcileState,
    player: PlayerNetId,
    direction: PlayerDirection,
    from: FrameNumber,
    n: nat,
    f: FrameNumber,
)
    requires
        st.buffer.wf(),
        n <= 0x8000,
        !(frame_le(from, f) && wrap_diff(f, from) < n),
    ensures
        fill_range(st, player, direction, from, n).buffer.get(f) == st.buffer.get(f)
            || fill_range(st, player, direction, from, n).buffer.get(f) is None,
    decreases n,
{
    if n > 0 {
        let st1 = fill_frame(st, player, direction, from);
        lemma_fill_frame_wf(st, player, direction, from);
        if st.buffer.get(from) is None && st.buffer.can_insert(from) {
            lemma_insert_model_props(st.buffer, from, Some(committed_update(direction)));
        }
        assert(st1.buffer.get(f) == st.buffer.get(f) || st1.buffer.get(f) is None);
        let from1 = frame_add(from, 1);
        lemma_add_diff(from1, from, 1);
        if frame_le(from1, f) && wrap_diff(f, from1) < n - 1 {
            crate::frame_buffer::lemma_diff_sum(from, from1, f);
            assert(false);
        }
        lemma_fill_range_untouched(st1, player, direction, from1, (n - 1) as nat, f);
    }
}

/// Law: lag-window clamping. A fill range starts at the later of the
/// update's own frame and the lag-compensation bound, so a frame strictly
/// before that start is never written: its value survives unchanged unless
/// the advancing window evicts it.
pub proof fn lemma_lag_window_clamping(
    st: ReconcileState,
    player: PlayerNetId,
    direction: PlayerDirection,
    from: FrameNumber,
    n: nat,
    f: FrameNumber,
)
    requires
        st.buffer.wf(),
        n <= 0x8000,
        frame_lt(f, from),
    ensures
        fill_range(st, player, direction, from, n).buffer.get(f) == st.buffer.get(f)
            || fill_range(st, player, direction, from, n).buffer.get(f) is None,
{
    lemma_fill_range_untouched(st, player, direction, from, n, f);
}

} // verus!
