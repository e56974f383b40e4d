//! Player identity, directional input, and the per-player reconciled-input
//! history.

use vstd::prelude::*;

use crate::frame_buffer::{BufferModel, FrameBuffer};
use crate::frame_number::FrameNumber;

verus! {

/// Network-wide identity of a connected player.
#[derive(Clone, Copy, PartialEq, Eq, Structural, Debug)]
pub struct PlayerNetId {
    pub value: u32,
}

impl PlayerNetId {
    /// Wraps a raw identity value.
    pub fn new(value: u32) -> (r: PlayerNetId)
        ensures
            r.value == value,
    {
        PlayerNetId { value }
    }
}

/// A player's movement direction for one frame, as fixed-point plane
/// components.
#[derive(Clone, Copy, PartialEq, Eq, Structural, Debug)]
pub struct PlayerDirection {
    pub x: i32,
    pub y: i32,
}

/// A committed, frame-indexed input slot: the reconciled direction, and
/// whether the simulation step has consumed it (`None` until it has run).
#[derive(Clone, Copy, PartialEq, Eq, Structural, Debug)]
pub struct PlayerDirectionUpdate {
    pub direction: PlayerDirection,
    pub is_processed_client_input: Option<bool>,
}

/// A raw input message from the network: the frame the direction took
/// effect, and the direction itself. Clients send one only on change.
#[derive(Clone, Copy, PartialEq, Eq, Structural, Debug)]
pub struct PlayerInput {
    pub frame_number: FrameNumber,
    pub direction: PlayerDirection,
}

/// Per-player frame-indexed history of reconciled directional input.
/// Buffers are created lazily on first use and live until the player
/// disconnects.
pub struct PlayerUpdates {
    direction_buffers: Vec<(PlayerNetId, FrameBuffer<PlayerDirectionUpdate>)>,
}

impl View for PlayerUpdates {
    type V = Seq<(PlayerNetId, BufferModel<PlayerDirectionUpdate>)>;

    closed spec fn view(&self) -> Seq<(PlayerNetId, BufferModel<PlayerDirectionUpdate>)> {
        Seq::new(
            self.direction_buffers@.len(),
            |i: int| (self.direction_buffers@[i].0, self.direction_buffers@[i].1@),
        )
    }
}

/// Each player has at most one buffer, and every buffer is a valid window.
pub open spec fn updates_wf(s: Seq<(PlayerNetId, BufferModel<PlayerDirectionUpdate>)>) -> bool {
    &&& forall|i: int, j: int| 0 <= i < j < s.len() ==> s[i].0 != s[j].0
    &&& forall|i: int| 0 <= i < s.len() ==> (#[trigger] s[i]).1.wf()
}

/// Whether `player` has an entry in `s`.
pub open spec fn entries_contain(
    s: Seq<(PlayerNetId, BufferModel<PlayerDirectionUpdate>)>,
    player: PlayerNetId,
) -> bool {
    exists|i: int| 0 <= i < s.len() && s[i].0 == player
}

/// Index of `player`'s entry in `s`; meaningful only when `entries_contain`.
pub open spec fn entry_index_of(
    s: Seq<(PlayerNetId, BufferModel<PlayerDirectionUpdate>)>,
    player: PlayerNetId,
) -> int {
    choose|i: int| 0 <= i < s.len() && s[i].0 == player
}

/// `player`'s buffer in `s`; meaningful only when `entries_contain`.
pub open spec fn entry_buffer_of(
    s: Seq<(PlayerNetId, BufferModel<PlayerDirectionUpdate>)>,
    player: PlayerNetId,
) -> BufferModel<PlayerDirectionUpdate> {
    s[entry_index_of(s, player)].1
}

/// Replacing (or appending) one player's entry with a valid buffer keeps the
/// whole collection well-formed, provided the slot matches that player.
pub proof fn lemma_updates_wf_preserved(
    s0: Seq<(PlayerNetId, BufferModel<PlayerDirectionUpdate>)>,
    s1: Seq<(PlayerNetId, BufferModel<PlayerDirectionUpdate>)>,
    player: PlayerNetId,
    t: int,
    b: BufferModel<PlayerDirectionUpdate>,
)
    requires
        updates_wf(s0),
        b.wf(),
        0 <= t <= s0.len(),
        s1.len() == if t < s0.len() {
            s0.len() as int
        } else {
            s0.len() + 1 as int
        },
        t < s0.len() ==> s0[t].0 == player,
        t == s0.len() ==> forall|j: int| 0 <= j < s0.len() ==> s0[j].0 != player,
        forall|j: int| 0 <= j < s1.len() && j != t ==> s1[j] == s0[j],
        s1[t] == (player, b),
    ensures
        updates_wf(s1),
{
    assert forall|i: int, j: int| 0 <= i < j < s1.len() implies s1[i].0 != s1[j].0 by {
        if i != t && j != t {
            assert(s1[i] == s0[i] && s1[j] == s0[j]);
        } else if i == t {
            assert(s1[j] == s0[j]);
        } else {
            assert(s1[i] == s0[i]);
        }
    }
    assert forall|i: int| 0 <= i < s1.len() implies (#[trigger] s1[i]).1.wf() by {
        if i != t {
            assert(s1[i] == s0[i]);
        }
    }
}

impl PlayerUpdates {
    /// Each player has at most one buffer, and every buffer is a valid
    /// window.
    pub open spec fn wf(self) -> bool {
        updates_wf(self@)
    }

    /// Whether `player` already has a buffer.
    pub open spec fn contains_player(self, player: PlayerNetId) -> bool {
        entries_contain(self@, player)
    }

    /// Index of `player`'s entry; meaningful only when `contains_player`.
    pub open spec fn index_of(self, player: PlayerNetId) -> int {
        entry_index_of(self@, player)
    }

    /// `player`'s buffer; meaningful only when `contains_player`.
    pub open spec fn buffer_of(self, player: PlayerNetId) -> BufferModel<PlayerDirectionUpdate> {
        entry_buffer_of(self@, player)
    }

    /// Where `player`'s entry stands after `get_direction_mut`: its current
    /// slot, or a new one appended at the end.
    pub open spec fn target_index(self, player: PlayerNetId) -> int {
        if self.contains_player(player) {
            self.index_of(player)
        } else {
            self@.len() as int
        }
    }

    /// An empty collection: no player has a buffer yet.
    pub fn new() -> (r: PlayerUpdates)
        ensures
            r.wf(),
            r@.len() == 0,
    {
        PlayerUpdates { direction_buffers: Vec::new() }
    }

    /// Number of players that have a buffer.
    pub fn len(&self) -> (r: usize)
        ensures
            r == self@.len(),
    {
        self.direction_buffers.len()
    }

    /// The player's direction history, created lazily on first use: a new
    /// buffer of capacity `limit` is anchored at `frame`, so `frame` is
    /// insertable immediately. Idempotent for an existing player.
    pub fn get_direction_mut(
        &mut self,
        player: PlayerNetId,
        frame: FrameNumber,
        limit: u16,
    ) -> (buffer: &mut FrameBuffer<PlayerDirectionUpdate>)
        requires
            old(self).wf(),
            1 <= limit < 0x8000,
        ensures
            (*buffer)@ == (if old(self).contains_player(player) {
                old(self).buffer_of(player)
            } else {
                (BufferModel {
                    start_frame: frame,
                    frames: seq![Option::<PlayerDirectionUpdate>::None],
                    limit,
                })
            }),
            (*buffer)@.wf(),
            final(self)@.len() == old(self).target_index(player) + 1 || final(self)@.len() == old(
                self,
            )@.len(),
            final(self)@.len() == if old(self).contains_player(player) {
                old(self)@.len() as int
            } else {
                old(self)@.len() + 1 as int
            },
            forall|j: int|
                0 <= j < final(self)@.len() && j != old(self).target_index(player)
                    ==> final(self)@[j] == old(self)@[j],
            final(self)@[old(self).target_index(player)] == (player, (*final(buffer))@),
            old(self).contains_player(player) ==> 0 <= old(self).target_index(player) < old(
                self,
            )@.len() && old(self)@[old(self).target_index(player)].0 == player,
            !old(self).contains_player(player) ==> forall|j: int|
                0 <= j < old(self)@.len() ==> old(self)@[j].0 != player,
    {
        let ghost old_entries = self.direction_buffers@;
        let n = self.direction_buffers.len();
        let mut idx: usize = n;
        let mut i: usize = 0;
        while i < n
            invariant
                n == self.direction_buffers@.len(),
                self.direction_buffers@ == old_entries,
                0 <= i <= n,
                idx == n || (idx < i && self.direction_buffers@[idx as int].0 == player),
                idx == n ==> forall|j: int|
                    0 <= j < i ==> self.direction_buffers@[j].0 != player,
            decreases n - i,
        {
            if idx == n && self.direction_buffers[i].0.value == player.value {
                idx = i;
            }
            i = i + 1;
        }
        proof {
            if idx < n {
                assert(old(self)@[idx as int].0 == player);
                assert(old(self).contains_player(player));
                let w = old(self).index_of(player);
                assert(old(self)@[w].0 == player);
                assert(w == idx as int);
            } else {
                assert forall|j: int| 0 <= j < old(self)@.len() implies old(self)@[j].0
                    != player by {
                    assert(old(self)@[j].0 == old(self).direction_buffers@[j].0);
                }
                assert(!old(self).contains_player(player));
            }
        }
        if idx == n {
            self.direction_buffers.push((player, FrameBuffer::new(frame, limit)));
        }
        let pair = &mut self.direction_buffers[idx];
        &mut pair.1
    }
}

} // verus!
