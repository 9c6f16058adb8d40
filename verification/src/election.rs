//! Leader election: turn a discovery snapshot into a single deterministic
//! outcome under the strict priority order, with the peer id as the final
//! tie-break.

use vstd::prelude::*;
use vstd::string::StringExecFns;
use crate::discovery::DiscoveredLeader;
use crate::peer::Peer;
use crate::types::{priority_lt, Priority};

verus! {

/// Terminal outcome of one election pass.
#[derive(Debug, Clone, Copy, PartialEq, Eq, Structural)]
pub enum ElectionResult {
    BecameLeader,
    Follower { leader_id: u128 },
    NoPeers,
}

/// The priority a discovered leader advertised.
pub open spec fn advertised_priority(d: DiscoveredLeader) -> Priority {
    Priority { device_type_score: d.priority.0, startup_time_ms: d.priority.1 }
}

/// One candidate key strictly beats another: strictly higher priority, or
/// equal priority and the larger identifier.
pub open spec fn candidate_beats(p: Priority, id: u128, q: Priority, qid: u128) -> bool {
    priority_lt(q, p) || (p == q && id > qid)
}

/// The winning (priority, id) key over self plus the discovered snapshot,
/// folded in discovery order.
pub open spec fn spec_winner(self_pri: Priority, self_id: u128, d: Seq<DiscoveredLeader>) -> (Priority, u128)
    decreases d.len(),
{
    if d.len() == 0 {
        (self_pri, self_id)
    } else {
        let prev = spec_winner(self_pri, self_id, d.drop_last());
        let last = d.last();
        if candidate_beats(advertised_priority(last), last.peer_id, prev.0, prev.1) {
            (advertised_priority(last), last.peer_id)
        } else {
            prev
        }
    }
}

/// The outcome of an election over the given snapshot.
pub open spec fn spec_elect(self_pri: Priority, self_id: u128, d: Seq<DiscoveredLeader>) -> ElectionResult {
    if d.len() == 0 {
        ElectionResult::NoPeers
    } else if spec_winner(self_pri, self_id, d).1 == self_id {
        ElectionResult::BecameLeader
    } else {
        ElectionResult::Follower { leader_id: spec_winner(self_pri, self_id, d).1 }
    }
}

/// The id the election leaves recorded as current leader: self when no peer
/// was discovered, else the winner.
pub open spec fn spec_elected_leader(self_pri: Priority, self_id: u128, d: Seq<DiscoveredLeader>) -> u128 {
    if d.len() == 0 {
        self_id
    } else {
        spec_winner(self_pri, self_id, d).1
    }
}

/// The winner is either self or one of the discovered candidates, and no
/// candidate (nor self) strictly beats it.
pub proof fn lemma_winner_unbeaten(self_pri: Priority, self_id: u128, d: Seq<DiscoveredLeader>)
    ensures
        ({
            let w = spec_winner(self_pri, self_id, d);
            &&& (w == (self_pri, self_id) || exists|i: int|
                0 <= i < d.len() && advertised_priority(#[trigger] d[i]) == w.0 && d[i].peer_id == w.1)
            &&& !candidate_beats(self_pri, self_id, w.0, w.1)
            &&& forall|i: int| 0 <= i < d.len()
                ==> !candidate_beats(advertised_priority(#[trigger] d[i]), d[i].peer_id, w.0, w.1)
        }),
    decreases d.len(),
{
    let w = spec_winner(self_pri, self_id, d);
    if d.len() > 0 {
        let dd = d.drop_last();
        lemma_winner_unbeaten(self_pri, self_id, dd);
        let prev = spec_winner(self_pri, self_id, dd);
        let last = d.last();
        if candidate_beats(advertised_priority(last), last.peer_id, prev.0, prev.1) {
            assert(advertised_priority(d[d.len() - 1]) == w.0 && d[d.len() - 1].peer_id == w.1);
        } else if prev != (self_pri, self_id) {
            let i = choose|i: int|
                0 <= i < dd.len() && advertised_priority(#[trigger] dd[i]) == prev.0
                    && dd[i].peer_id == prev.1;
            assert(advertised_priority(d[i]) == w.0 && d[i].peer_id == w.1);
        }
        assert forall|i: int| 0 <= i < d.len()
            implies !candidate_beats(advertised_priority(#[trigger] d[i]), d[i].peer_id, w.0, w.1) by {
            if i < d.len() - 1 {
                assert(d[i] == dd[i]);
                assert(!candidate_beats(advertised_priority(dd[i]), dd[i].peer_id, prev.0, prev.1));
            }
        }
    }
}

/// Given pairwise-distinct priorities (self included) and discovered ids
/// other than self's, the election returns `BecameLeader` precisely when
/// self's priority is the maximum, and otherwise follows the unique
/// highest-priority candidate.
pub proof fn lemma_elect_unique_max(self_pri: Priority, self_id: u128, d: Seq<DiscoveredLeader>)
    requires
        forall|i: int, j: int| 0 <= i < d.len() && 0 <= j < d.len() && i != j
            ==> advertised_priority(#[trigger] d[i]) != advertised_priority(#[trigger] d[j]),
        forall|i: int| 0 <= i < d.len() ==> advertised_priority(#[trigger] d[i]) != self_pri,
        forall|i: int| 0 <= i < d.len() ==> (#[trigger] d[i]).peer_id != self_id,
        d.len() > 0,
    ensures
        spec_elect(self_pri, self_id, d) == ElectionResult::BecameLeader <==> (forall|i: int|
            0 <= i < d.len() ==> priority_lt(advertised_priority(#[trigger] d[i]), self_pri)),
        forall|k: int|
            0 <= k < d.len() && priority_lt(self_pri, advertised_priority(#[trigger] d[k]))
                && (forall|j: int| 0 <= j < d.len() && j != k
                    ==> priority_lt(advertised_priority(#[trigger] d[j]), advertised_priority(d[k])))
                ==> spec_elect(self_pri, self_id, d) == (ElectionResult::Follower { leader_id: d[k].peer_id }),
{
    lemma_winner_unbeaten(self_pri, self_id, d);
    let w = spec_winner(self_pri, self_id, d);
    if forall|i: int| 0 <= i < d.len() ==> priority_lt(advertised_priority(#[trigger] d[i]), self_pri) {
        if w != (self_pri, self_id) {
            let i = choose|i: int|
                0 <= i < d.len() && advertised_priority(#[trigger] d[i]) == w.0 && d[i].peer_id == w.1;
            assert(candidate_beats(self_pri, self_id, w.0, w.1));
            assert(false);
        }
    }
    if w.1 == self_id {
        if w != (self_pri, self_id) {
            let i = choose|i: int|
                0 <= i < d.len() && advertised_priority(#[trigger] d[i]) == w.0 && d[i].peer_id == w.1;
            assert(false);
        }
        assert forall|i: int| 0 <= i < d.len()
            implies priority_lt(advertised_priority(#[trigger] d[i]), self_pri) by {
            assert(!candidate_beats(advertised_priority(d[i]), d[i].peer_id, self_pri, self_id));
        }
    }
    assert forall|k: int|
        0 <= k < d.len() && priority_lt(self_pri, advertised_priority(#[trigger] d[k]))
            && (forall|j: int| 0 <= j < d.len() && j != k
                ==> priority_lt(advertised_priority(#[trigger] d[j]), advertised_priority(d[k])))
        implies spec_elect(self_pri, self_id, d) == (ElectionResult::Follower { leader_id: d[k].peer_id }) by {
        if w == (self_pri, self_id) {
            assert(candidate_beats(advertised_priority(d[k]), d[k].peer_id, w.0, w.1));
            assert(false);
        }
        let i = choose|i: int|
            0 <= i < d.len() && advertised_priority(#[trigger] d[i]) == w.0 && d[i].peer_id == w.1;
        if i != k {
            assert(priority_lt(advertised_priority(d[i]), advertised_priority(d[k])));
            assert(candidate_beats(advertised_priority(d[k]), d[k].peer_id, w.0, w.1));
            assert(false);
        }
        assert(w.1 == d[k].peer_id && w.1 != self_id);
    }
}

/// Leader election service: remembers the local peer and the outcome of the
/// last election pass.
pub struct ElectionService {
    pub self_peer: Option<Peer>,
    pub current_leader: Option<u128>,
}

impl ElectionService {
    pub fn new() -> (r: Self)
        ensures
            r.self_peer is None,
            r.current_leader is None,
    {
        ElectionService { self_peer: None, current_leader: None }
    }

    /// Set the peer for this device.
    pub fn set_peer(&mut self, peer: Peer)
        ensures
            final(self).self_peer == Some(peer),
            final(self).current_leader == old(self).current_leader,
    {
        self.self_peer = Some(peer);
    }

    /// Run one election pass over a discovery snapshot. Fails only when no
    /// local peer was set. An empty snapshot yields `NoPeers` and records
    /// self as leader; otherwise the winner of the strict (priority, id)
    /// order over self and the snapshot is recorded and reported.
    pub fn elect_leader(&mut self, discovered: &Vec<DiscoveredLeader>) -> (r: Result<ElectionResult, String>)
        ensures
            old(self).self_peer is None ==> r is Err && *final(self) == *old(self),
            old(self).self_peer matches Some(peer) ==> {
                &&& r == Ok::<ElectionResult, String>(spec_elect(peer.spec_priority(), peer.id, discovered@))
                &&& final(self).current_leader == Some(
                    spec_elected_leader(peer.spec_priority(), peer.id, discovered@))
                &&& final(self).self_peer == old(self).self_peer
            },
    {
        let (self_priority, self_id) = match &self.self_peer {
            Some(p) => (p.priority(), p.id),
            None => {
                return Err(String::from_str("Peer not set"));
            },
        };

        if discovered.len() == 0 {
            self.current_leader = Some(self_id);
            return Ok(ElectionResult::NoPeers);
        }

        let mut highest_priority = self_priority;
        let mut highest_peer_id = self_id;
        let mut idx: usize = 0;
        while idx < discovered.len()
            invariant
                0 <= idx <= discovered@.len(),
                (highest_priority, highest_peer_id) == spec_winner(
                    self_priority, self_id, discovered@.subrange(0, idx as int)),
            decreases discovered@.len() - idx,
        {
            let other = &discovered[idx];
            let other_priority = Priority {
                device_type_score: other.priority.0,
                startup_time_ms: other.priority.1,
            };
            proof {
                assert(discovered@.subrange(0, idx as int + 1).drop_last()
                    =~= discovered@.subrange(0, idx as int));
                assert(discovered@.subrange(0, idx as int + 1).last() == discovered@[idx as int]);
            }
            if other_priority > highest_priority
                || (other_priority == highest_priority && other.peer_id > highest_peer_id) {
                highest_priority = other_priority;
                highest_peer_id = other.peer_id;
            }
            idx = idx + 1;
        }
        proof {
            assert(discovered@.subrange(0, discovered@.len() as int) =~= discovered@);
        }

        if highest_peer_id == self_id {
            self.current_leader = Some(self_id);
            Ok(ElectionResult::BecameLeader)
        } else {
            self.current_leader = Some(highest_peer_id);
            Ok(ElectionResult::Follower { leader_id: highest_peer_id })
        }
    }

    /// The id recorded by the last election pass, if any.
    pub fn get_leader(&self) -> (r: Option<u128>)
        ensures
            r == self.current_leader,
    {
        self.current_leader
    }

    /// Whether the local peer is the recorded leader.
    pub fn am_i_leader(&self) -> (r: bool)
        ensures
            r == match (self.self_peer, self.current_leader) {
                (Some(peer), Some(leader_id)) => peer.id == leader_id,
                _ => false,
            },
    {
        match (&self.self_peer, &self.current_leader) {
            (Some(peer), Some(leader_id)) => peer.id == *leader_id,
            _ => false,
        }
    }
}

} // verus!
