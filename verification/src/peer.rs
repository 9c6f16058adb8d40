//! The local peer: identity, role, and its derived election priority.

use vstd::prelude::*;
use crate::types::{PeerInfo, PeerType, Priority};

verus! {

/// A peer in the coordination network.
#[derive(Debug)]
pub struct Peer {
    /// 128-bit identifier, fresh per process.
    pub id: u128,
    pub peer_type: PeerType,
    pub display_name: String,
    pub is_leader: bool,
    /// Unix time in milliseconds captured at construction.
    pub startup_time_ms: u64,
}

/// Mathematical image of a `Peer`.
pub ghost struct PeerView {
    pub id: u128,
    pub peer_type: PeerType,
    pub display_name: Seq<char>,
    pub is_leader: bool,
    pub startup_time_ms: u64,
}

impl View for Peer {
    type V = PeerView;

    open spec fn view(&self) -> PeerView {
        PeerView {
            id: self.id,
            peer_type: self.peer_type,
            display_name: self.display_name@,
            is_leader: self.is_leader,
            startup_time_ms: self.startup_time_ms,
        }
    }
}

impl Clone for Peer {
    fn clone(&self) -> (res: Self)
        ensures
            res@ == self@,
    {
        Peer {
            id: self.id,
            peer_type: self.peer_type,
            display_name: self.display_name.clone(),
            is_leader: self.is_leader,
            startup_time_ms: self.startup_time_ms,
        }
    }
}

/// The election score of a role: a controller outranks a display.
pub open spec fn role_score(t: PeerType) -> u8 {
    match t {
        PeerType::Controller => 2u8,
        PeerType::Display => 1u8,
    }
}

/// Relies on std::time::SystemTime::now: the milliseconds since the Unix
/// epoch, or 0 if the clock reads earlier than the epoch. The result depends
/// on the wall clock, so nothing is promised of it.
#[verifier::external_body]
fn now_unix_millis() -> u64 {
    match std::time::SystemTime::now().duration_since(std::time::UNIX_EPOCH) {
        Ok(d) => d.as_millis() as u64,
        Err(_) => 0,
    }
}

/// Relies on uuid::Uuid::new_v4: a freshly generated random identifier,
/// returned as its 128-bit value. The result is random, so nothing is
/// promised of it.
#[verifier::external_body]
fn fresh_id() -> u128 {
    uuid::Uuid::new_v4().as_u128()
}

impl Peer {
    /// Create a peer with a fresh random identifier and the current wall
    /// clock as its startup time.
    pub fn new(peer_type: PeerType, display_name: String) -> (r: Peer)
        ensures
            r.peer_type == peer_type,
            r.display_name@ == display_name@,
            !r.is_leader,
    {
        let startup_time_ms = now_unix_millis();
        Peer { id: fresh_id(), peer_type, display_name, is_leader: false, startup_time_ms }
    }

    /// Create a peer from explicit identity and startup time.
    pub fn from_parts(id: u128, peer_type: PeerType, display_name: String, startup_time_ms: u64) -> (r: Peer)
        ensures
            r.id == id,
            r.peer_type == peer_type,
            r.display_name@ == display_name@,
            !r.is_leader,
            r.startup_time_ms == startup_time_ms,
    {
        Peer { id, peer_type, display_name, is_leader: false, startup_time_ms }
    }

    /// The election priority this peer would be advertised and elected with.
    pub open spec fn spec_priority(self) -> Priority {
        Priority { device_type_score: role_score(self.peer_type), startup_time_ms: self.startup_time_ms }
    }

    /// Compute the election priority: the role score paired with the startup
    /// time.
    pub fn priority(&self) -> (r: Priority)
        ensures
            r == self.spec_priority(),
    {
        let device_type_score: u8 = match self.peer_type {
            PeerType::Controller => 2,
            PeerType::Display => 1,
        };
        Priority { device_type_score, startup_time_ms: self.startup_time_ms }
    }

    /// Project this peer into its wire/UI form with the given connectivity.
    pub fn to_info(&self, is_connected: bool) -> (r: PeerInfo)
        ensures
            r.id == self.id,
            r.peer_type == self.peer_type,
            r.display_name@ == self.display_name@,
            r.is_connected == is_connected,
            r.is_leader == self.is_leader,
    {
        PeerInfo {
            id: self.id,
            peer_type: self.peer_type,
            display_name: self.display_name.clone(),
            is_connected,
            is_leader: self.is_leader,
        }
    }
}

} // verus!
