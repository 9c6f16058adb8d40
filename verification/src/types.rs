//! Value types shared by the coordination subsystem: device roles, peer
//! projections, and the comparable election priority.

use vstd::prelude::*;

verus! {

use core::cmp::Ordering;

/// Device type in the live control network.
#[derive(Debug, Clone, Copy, PartialEq, Eq, Structural)]
pub enum PeerType {
    Controller,
    Display,
}

/// Display class for display-type peers.
#[derive(Debug, Clone, Copy, PartialEq, Eq, Structural)]
pub enum DisplayClass {
    Audience,
    Stage,
    Lobby,
}

/// Peer information projected for the UI and for the wire.
#[derive(Debug)]
pub struct PeerInfo {
    /// The peer's 128-bit identifier.
    pub id: u128,
    pub peer_type: PeerType,
    pub display_name: String,
    pub is_connected: bool,
    pub is_leader: bool,
}

/// Mathematical image of a `PeerInfo`.
pub ghost struct PeerInfoView {
    pub id: u128,
    pub peer_type: PeerType,
    pub display_name: Seq<char>,
    pub is_connected: bool,
    pub is_leader: bool,
}

impl View for PeerInfo {
    type V = PeerInfoView;

    open spec fn view(&self) -> PeerInfoView {
        PeerInfoView {
            id: self.id,
            peer_type: self.peer_type,
            display_name: self.display_name@,
            is_connected: self.is_connected,
            is_leader: self.is_leader,
        }
    }
}

impl Clone for PeerInfo {
    fn clone(&self) -> (res: Self)
        ensures
            res@ == self@,
    {
        PeerInfo {
            id: self.id,
            peer_type: self.peer_type,
            display_name: self.display_name.clone(),
            is_connected: self.is_connected,
            is_leader: self.is_leader,
        }
    }
}

/// Leader status information reported to the hosting process.
#[derive(Debug, Clone, Copy)]
pub struct LeaderStatus {
    pub leader_id: Option<u128>,
    pub am_i_leader: bool,
    pub peer_count: usize,
}

/// Priority for leader election. A higher `device_type_score` wins; on equal
/// scores an earlier (smaller) `startup_time_ms` wins.
#[derive(Debug, Clone, Copy, PartialEq, Eq, Structural)]
pub struct Priority {
    /// Controller scores 2, Display scores 1.
    pub device_type_score: u8,
    /// Lower is better (earlier startup).
    pub startup_time_ms: u64,
}

/// The strict order on priorities: `a` ranks below `b` when `b` has the higher
/// device score, or the same score and the earlier startup time.
pub open spec fn priority_lt(a: Priority, b: Priority) -> bool {
    ||| a.device_type_score < b.device_type_score
    ||| (a.device_type_score == b.device_type_score && a.startup_time_ms > b.startup_time_ms)
}

impl PartialOrd for Priority {
    fn partial_cmp(&self, other: &Self) -> (r: Option<Ordering>) {
        if self.device_type_score < other.device_type_score {
            Some(Ordering::Less)
        } else if other.device_type_score < self.device_type_score {
            Some(Ordering::Greater)
        } else if self.startup_time_ms > other.startup_time_ms {
            Some(Ordering::Less)
        } else if other.startup_time_ms > self.startup_time_ms {
            Some(Ordering::Greater)
        } else {
            Some(Ordering::Equal)
        }
    }
}

impl vstd::std_specs::cmp::PartialOrdSpecImpl for Priority {
    open spec fn obeys_partial_cmp_spec() -> bool {
        true
    }

    open spec fn partial_cmp_spec(&self, other: &Self) -> Option<Ordering> {
        if priority_lt(*self, *other) {
            Some(Ordering::Less)
        } else if priority_lt(*other, *self) {
            Some(Ordering::Greater)
        } else {
            Some(Ordering::Equal)
        }
    }
}

/// The priority order is a strict total order: of `a < b`, `a == b` and
/// `b < a` exactly one holds, and `<` is transitive. A controller priority
/// always outranks a display priority, whatever the startup times.
pub proof fn lemma_priority_strict_total_order(a: Priority, b: Priority, c: Priority)
    ensures
        priority_lt(a, b) || a == b || priority_lt(b, a),
        priority_lt(a, b) ==> !(a == b) && !priority_lt(b, a),
        a == b ==> !priority_lt(a, b) && !priority_lt(b, a),
        priority_lt(a, b) && priority_lt(b, c) ==> priority_lt(a, c),
        a.device_type_score == 1 && b.device_type_score == 2 ==> priority_lt(a, b),
{
}

/// Signaling message exchanged over the hub's text channel.
#[derive(Debug, Clone)]
pub enum SignalingMessage {
    Register {
        peer_id: u128,
        peer_type: PeerType,
        display_name: String,
        display_class: Option<DisplayClass>,
        priority: Option<(u8, u64)>,
    },
    Offer {
        from_peer_id: u128,
        to_peer_id: u128,
        sdp: String,
    },
    Answer {
        from_peer_id: u128,
        to_peer_id: u128,
        sdp: String,
    },
    IceCandidate {
        from_peer_id: u128,
        to_peer_id: u128,
        candidate: String,
        sdp_mid: Option<String>,
        sdp_mline_index: Option<u16>,
    },
    PeerList {
        peers: Vec<PeerInfo>,
    },
    Heartbeat {
        peer_id: u128,
    },
    Data {
        from_peer_id: u128,
        to_peer_id: u128,
        message: String,
    },
}

/// Data channel message payload.
pub type DataChannelMessage = String;

} // verus!
