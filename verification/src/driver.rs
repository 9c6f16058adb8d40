//! Coordination driver decisions: the startup branch after an election,
//! the bind-conflict fallback, the periodic membership diff, and the
//! transport choice for outbound messages. The surrounding process runs
//! these decisions against real sockets and timers.

use vstd::prelude::*;
use crate::election::{ElectionResult, ElectionService};
use crate::signaling::{has_client, SignalingServer};
use crate::tcp::{has_conn, TcpP2pManager};
use crate::types::{LeaderStatus, PeerInfo, PeerInfoView, PeerType};

verus! {

/// The step a process takes after one election pass.
#[derive(Debug, Clone, Copy, PartialEq, Eq, Structural)]
pub enum StartupAction {
    /// Start the signaling hub and register self as leader.
    StartHub,
    /// Connect to the elected leader's hub as a follower.
    ConnectToHub { leader_id: u128 },
}

/// The startup branch for an election outcome: a winner, and a process
/// that saw no peers at all, hosts the hub; a follower attaches to the
/// winner's hub.
pub fn plan_after_election(result: &ElectionResult) -> (r: StartupAction)
    ensures
        match result {
            ElectionResult::BecameLeader => r == StartupAction::StartHub,
            ElectionResult::NoPeers => r == StartupAction::StartHub,
            ElectionResult::Follower { leader_id } => r == (StartupAction::ConnectToHub {
                leader_id: *leader_id }),
        },
{
    match result {
        ElectionResult::BecameLeader => StartupAction::StartHub,
        ElectionResult::NoPeers => StartupAction::StartHub,
        ElectionResult::Follower { leader_id } => StartupAction::ConnectToHub {
            leader_id: *leader_id },
    }
}

/// How an attempt to bind the hub's port ended.
#[derive(Debug, Clone, Copy, PartialEq, Eq, Structural)]
pub enum HubStartOutcome {
    /// The listener is bound.
    Started,
    /// The port is already bound by another process.
    AddrInUse,
    /// Any other failure.
    OtherError,
}

/// What the process does about a hub start outcome.
#[derive(Debug, Clone, Copy, PartialEq, Eq, Structural)]
pub enum HubFallback {
    /// Register self as leader and run the membership task.
    ProceedAsLeader,
    /// Another leader won the port race: connect to the local hub port as
    /// a follower instead.
    ConnectAsFollower,
    /// Surface the failure.
    Fail,
}

/// The deconfliction rule for a hub bind: a port collision is the expected
/// signal of a lost leader race and demotes the process to a follower;
/// only other failures surface.
pub fn resolve_hub_start(outcome: HubStartOutcome) -> (r: HubFallback)
    ensures
        outcome == HubStartOutcome::Started ==> r == HubFallback::ProceedAsLeader,
        outcome == HubStartOutcome::AddrInUse ==> r == HubFallback::ConnectAsFollower,
        outcome == HubStartOutcome::OtherError ==> r == HubFallback::Fail,
{
    match outcome {
        HubStartOutcome::Started => HubFallback::ProceedAsLeader,
        HubStartOutcome::AddrInUse => HubFallback::ConnectAsFollower,
        HubStartOutcome::OtherError => HubFallback::Fail,
    }
}

/// The views of a peer list.
pub open spec fn info_views(s: Seq<PeerInfo>) -> Seq<PeerInfoView> {
    Seq::new(s.len(), |i: int| s[i]@)
}

/// The display peers of a list that are not yet known, in list order.
pub open spec fn spec_new_displays(views: Seq<PeerInfoView>, known: Seq<u128>) -> Seq<PeerInfoView>
    decreases views.len(),
{
    if views.len() == 0 {
        Seq::empty()
    } else {
        let prefix = spec_new_displays(views.drop_last(), known);
        let last = views.last();
        if last.peer_type == PeerType::Display && !known.contains(last.id) {
            prefix.push(last)
        } else {
            prefix
        }
    }
}

/// One pass of the membership-diff task: a controller opens a transport
/// connection to every newly seen display; any other role connects to
/// nothing.
pub fn new_display_peers(current: &Vec<PeerInfo>, known: &Vec<u128>, my_role: PeerType)
    -> (r: Vec<PeerInfo>)
    ensures
        my_role != PeerType::Controller ==> r@.len() == 0,
        my_role == PeerType::Controller ==> info_views(r@) == spec_new_displays(
            info_views(current@), known@),
{
    if !matches!(my_role, PeerType::Controller) {
        return Vec::new();
    }
    let ghost cviews = info_views(current@);
    let mut out: Vec<PeerInfo> = Vec::new();
    let mut i: usize = 0;
    proof {
        assert(cviews.subrange(0, 0) =~= Seq::<PeerInfoView>::empty());
        assert(info_views(out@) =~= Seq::<PeerInfoView>::empty());
    }
    while i < current.len()
        invariant
            0 <= i <= current@.len(),
            cviews == info_views(current@),
            cviews.len() == current@.len(),
            info_views(out@) == spec_new_displays(cviews.subrange(0, i as int), known@),
        decreases current@.len() - i,
    {
        let p = &current[i];
        proof {
            assert(cviews.subrange(0, i as int + 1).drop_last() =~= cviews.subrange(0, i as int));
            assert(cviews.subrange(0, i as int + 1).last() == cviews[i as int]);
            assert(cviews[i as int] == current@[i as int]@);
        }
        let mut is_known = false;
        let mut k: usize = 0;
        while k < known.len()
            invariant
                0 <= k <= known@.len(),
                is_known <==> exists|j: int| 0 <= j < k && known@[j] == p.id,
                p == &current@[i as int],
            decreases known@.len() - k,
        {
            if known[k] == p.id {
                is_known = true;
            }
            k = k + 1;
        }
        proof {
            assert(is_known == known@.contains(p.id)) by {
                if known@.contains(p.id) {
                    let j = choose|j: int| 0 <= j < known@.len() && known@[j] == p.id;
                    assert(exists|j2: int| 0 <= j2 < known@.len() && known@[j2] == p.id);
                }
            }
        }
        if matches!(p.peer_type, PeerType::Display) && !is_known {
            let ghost old_out = out@;
            out.push(p.clone());
            proof {
                assert(info_views(out@) =~= info_views(old_out).push(current@[i as int]@));
            }
        }
        i = i + 1;
    }
    proof {
        assert(cviews.subrange(0, current@.len() as int) =~= cviews);
    }
    out
}

/// The peer ids of a list, in order: the next pass's known set.
pub fn peer_ids(current: &Vec<PeerInfo>) -> (r: Vec<u128>)
    ensures
        r@.len() == current@.len(),
        forall|i: int| 0 <= i < r@.len() ==> r@[i] == current@[i].id,
{
    let mut out: Vec<u128> = Vec::new();
    let mut i: usize = 0;
    while i < current.len()
        invariant
            0 <= i <= current@.len(),
            out@.len() == i,
            forall|j: int| 0 <= j < i ==> out@[j] == current@[j].id,
        decreases current@.len() - i,
    {
        out.push(current[i].id);
        i = i + 1;
    }
    out
}

/// The transport an outbound message takes to a target.
#[derive(Debug, Clone, Copy, PartialEq, Eq, Structural)]
pub enum SendRoute {
    /// The direct transport holds a live connection: send there.
    Direct,
    /// No direct connection; the hub has the target: relay through it.
    HubRelay,
    /// Neither transport can reach the target.
    NoConnection,
}

/// Pick the transport for an outbound control message: the direct channel
/// when one is live, else hub relay when the hub knows the target, else a
/// failure the caller surfaces as "no connection available".
pub fn plan_send(tcp: &TcpP2pManager, hub: &SignalingServer, target: u128) -> (r: SendRoute)
    ensures
        has_conn(tcp.connections@, target) ==> r == SendRoute::Direct,
        !has_conn(tcp.connections@, target) && has_client(hub.clients@, target)
            ==> r == SendRoute::HubRelay,
        !has_conn(tcp.connections@, target) && !has_client(hub.clients@, target)
            ==> r == SendRoute::NoConnection,
{
    if tcp.is_connected(target) {
        SendRoute::Direct
    } else if hub.is_client(target) {
        SendRoute::HubRelay
    } else {
        SendRoute::NoConnection
    }
}

/// The leader status reported to the UI layer: the last elected leader,
/// whether this process is it, and the current directory size.
pub fn get_leader_status(election: &ElectionService, peer_count: usize) -> (r: LeaderStatus)
    ensures
        r.leader_id == election.current_leader,
        r.am_i_leader == match (election.self_peer, election.current_leader) {
            (Some(peer), Some(leader_id)) => peer.id == leader_id,
            _ => false,
        },
        r.peer_count == peer_count,
{
    LeaderStatus {
        leader_id: election.get_leader(),
        am_i_leader: election.am_i_leader(),
        peer_count,
    }
}

} // verus!
