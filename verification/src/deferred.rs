//! The staging inbox for raw, not-yet-reconciled updates.

use vstd::prelude::*;

use crate::player::PlayerNetId;

verus! {

/// Raw updates received since the last reconciliation pass, grouped by
/// player in arrival order. The network-receive side only pushes; the
/// reconciliation pass drains everything exactly once per tick. Duplicates
/// and out-of-order entries are expected here and resolved downstream.
pub struct DeferredUpdates<T> {
    updates: Vec<(PlayerNetId, Vec<T>)>,
}

impl<T> View for DeferredUpdates<T> {
    type V = Seq<(PlayerNetId, Seq<T>)>;

    closed spec fn view(&self) -> Seq<(PlayerNetId, Seq<T>)> {
        Seq::new(self.updates@.len(), |i: int| (self.updates@[i].0, self.updates@[i].1@))
    }
}

impl<T> Default for DeferredUpdates<T> {
    /// An empty inbox.
    fn default() -> (r: DeferredUpdates<T>)
        ensures
            r.wf(),
            r@.len() == 0,
    {
        DeferredUpdates { updates: Vec::new() }
    }
}

impl<T> DeferredUpdates<T> {
    /// Each player has at most one pending list, and no pending list is
    /// empty (a list exists only once something was pushed to it).
    pub open spec fn wf(self) -> bool {
        &&& forall|i: int, j: int| 0 <= i < j < self@.len() ==> self@[i].0 != self@[j].0
        &&& forall|i: int| 0 <= i < self@.len() ==> (#[trigger] self@[i]).1.len() >= 1
    }

    /// Whether `player` has pending updates.
    pub open spec fn contains_player(self, player: PlayerNetId) -> bool {
        exists|i: int| 0 <= i < self@.len() && self@[i].0 == player
    }

    /// Index of `player`'s pending list; meaningful only when
    /// `contains_player`.
    pub open spec fn index_of(self, player: PlayerNetId) -> int {
        choose|i: int| 0 <= i < self@.len() && self@[i].0 == player
    }

    /// An empty inbox.
    pub fn new() -> (r: DeferredUpdates<T>)
        ensures
            r.wf(),
            r@.len() == 0,
    {
        DeferredUpdates { updates: Vec::new() }
    }

    /// Appends `update` to `player`'s pending list, creating the list on
    /// first use. Never drops and never deduplicates: a later duplicate may
    /// carry different bookkeeping, so resolution happens at drain time.
    pub fn push(&mut self, player_net_id: PlayerNetId, update: T)
        requires
            old(self).wf(),
        ensures
            final(self).wf(),
            old(self).contains_player(player_net_id) ==> {
                &&& final(self)@.len() == old(self)@.len()
                &&& forall|j: int|
                    0 <= j < final(self)@.len() && j != old(self).index_of(player_net_id)
                        ==> final(self)@[j] == old(self)@[j]
                &&& final(self)@[old(self).index_of(player_net_id)].0 == player_net_id
                &&& final(self)@[old(self).index_of(player_net_id)].1 == old(self)@[old(
                    self,
                ).index_of(player_net_id)].1.push(update)
            },
            !old(self).contains_player(player_net_id) ==> {
                &&& final(self)@.len() == old(self)@.len() + 1
                &&& forall|j: int| 0 <= j < old(self)@.len() ==> final(self)@[j] == old(self)@[j]
                &&& final(self)@[old(self)@.len() as int] == (player_net_id, seq![update])
            },
    {
        let n = self.updates.len();
        let mut idx: usize = n;
        let mut i: usize = 0;
        while i < n
            invariant
                n == self.updates@.len(),
                self.updates@ == old(self).updates@,
                0 <= i <= n,
                idx == n || (idx < i && self.updates@[idx as int].0 == player_net_id),
                idx == n ==> forall|j: int| 0 <= j < i ==> self.updates@[j].0 != player_net_id,
            decreases n - i,
        {
            if idx == n && self.updates[i].0.value == player_net_id.value {
                idx = i;
            }
            i = i + 1;
        }
        if idx == n {
            let mut list: Vec<T> = Vec::new();
            list.push(update);
            self.updates.push((player_net_id, list));
            proof {
                assert forall|j: int| 0 <= j < old(self)@.len() implies old(self)@[j].0
                    != player_net_id by {
                    assert(old(self)@[j].0 == old(self).updates@[j].0);
                }
                assert(!old(self).contains_player(player_net_id));
                assert(list@ =~= seq![update]);
                assert forall|j: int| 0 <= j < old(self)@.len() implies final(self)@[j] == old(
                    self,
                )@[j] by {}
            }
        } else {
            proof {
                assert(old(self)@[idx as int].0 == player_net_id);
                assert(old(self).contains_player(player_net_id));
                let w = old(self).index_of(player_net_id);
                assert(old(self)@[w].0 == player_net_id);
                assert(w == idx as int);
            }
            let pair = &mut self.updates[idx];
            pair.1.push(update);
        }
        proof {
            let s0 = old(self)@;
            let s1 = self@;
            assert forall|a: int, c: int| 0 <= a < c < s1.len() implies s1[a].0 != s1[c].0 by {
                assert(s1[a].0 == self.updates@[a].0);
                assert(s1[c].0 == self.updates@[c].0);
                if idx == n {
                    if c < n {
                        assert(s1[a] == s0[a] && s1[c] == s0[c]);
                    } else {
                        assert(s1[c].0 == player_net_id);
                        assert(s0[a].0 != player_net_id);
                        assert(s1[a] == s0[a]);
                    }
                } else {
                    assert(s1[a].0 == s0[a].0);
                    assert(s1[c].0 == s0[c].0);
                }
            }
            assert forall|a: int| 0 <= a < s1.len() implies (#[trigger] s1[a]).1.len() >= 1 by {
                if idx == n {
                    if a < n {
                        assert(s1[a] == s0[a]);
                    }
                } else {
                    if a != idx as int {
                        assert(s1[a] == s0[a]);
                    }
                }
            }
        }
    }

    /// Takes ownership of everything pending and resets the inbox to empty,
    /// so an immediate second drain returns an empty batch. Safe to call on
    /// an empty inbox.
    pub fn drain(&mut self) -> (r: Vec<(PlayerNetId, Vec<T>)>)
        ensures
            r@.len() == old(self)@.len(),
            forall|i: int|
                0 <= i < r@.len() ==> (#[trigger] r@[i]).0 == old(self)@[i].0 && r@[i].1@ == old(
                    self,
                )@[i].1,
            final(self)@.len() == 0,
            final(self).wf(),
    {
        let mut taken: Vec<(PlayerNetId, Vec<T>)> = Vec::new();
        core::mem::swap(&mut taken, &mut self.updates);
        taken
    }
}

} // verus!
