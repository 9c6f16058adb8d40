//! The signaling hub: the authoritative peer directory of one session, the
//! relay decisions for targeted messages, and the follower-side client
//! state. WebSocket plumbing runs outside this crate and acts only on the
//! decisions made here.

use vstd::prelude::*;
use crate::peer::{role_score, Peer};
use crate::types::{PeerInfo, PeerType, SignalingMessage};

verus! {

/// A connected client in the hub's directory. Its outbound channel is keyed
/// by the peer id outside the crate.
#[derive(Debug)]
pub struct ConnectedClient {
    pub peer_id: u128,
    pub peer_info: PeerInfo,
}

/// A peer id is present in a client list.
pub open spec fn has_client(clients: Seq<ConnectedClient>, id: u128) -> bool {
    exists|i: int| 0 <= i < clients.len() && (#[trigger] clients[i]).peer_id == id
}

/// Client lists hold at most one entry per peer.
pub open spec fn clients_wf(clients: Seq<ConnectedClient>) -> bool {
    forall|i: int, j: int| 0 <= i < j < clients.len()
        ==> (#[trigger] clients[i]).peer_id != (#[trigger] clients[j]).peer_id
}

/// A reported peer list: the local peer first when present, then every
/// client's projection in directory order.
pub open spec fn peer_list_ok(local: Option<PeerInfo>, clients: Seq<ConnectedClient>, r: Seq<PeerInfo>) -> bool {
    match local {
        Some(lp) => {
            &&& r.len() == clients.len() + 1
            &&& r[0]@ == lp@
            &&& forall|i: int| 0 <= i < clients.len() ==> (#[trigger] r[i + 1])@
                == clients[i].peer_info@
        },
        None => {
            &&& r.len() == clients.len()
            &&& forall|i: int| 0 <= i < clients.len() ==> (#[trigger] r[i])@
                == clients[i].peer_info@
        },
    }
}

/// What the hub does with one incoming, already-decoded message.
#[derive(Debug, Clone, Copy, PartialEq, Eq, Structural)]
pub enum RelayAction {
    /// Forward the message, verbatim, to that connected peer.
    DeliverTo { peer_id: u128 },
    /// The message addresses the hosting process itself: hand it to the
    /// local negotiation handler.
    HandleLocal,
    /// Silently dropped: unknown target, or nothing to do.
    Drop,
}

/// WebSocket signaling hub: peer directory, self-registration point, and
/// message relay.
#[derive(Debug)]
pub struct SignalingServer {
    pub clients: Vec<ConnectedClient>,
    pub running: bool,
    pub leader_id: Option<u128>,
    pub local_peer: Option<PeerInfo>,
    pub local_peer_id: Option<u128>,
}

impl SignalingServer {
    pub fn new() -> (r: Self)
        ensures
            r.clients@.len() == 0,
            !r.running,
            r.leader_id is None,
            r.local_peer is None,
            r.local_peer_id is None,
            clients_wf(r.clients@),
    {
        SignalingServer {
            clients: Vec::new(),
            running: false,
            leader_id: None,
            local_peer: None,
            local_peer_id: None,
        }
    }

    /// Record the hosting process's own peer id.
    pub fn set_local_peer_id(&mut self, peer_id: u128)
        ensures
            final(self).local_peer_id == Some(peer_id),
            final(self).clients == old(self).clients,
            final(self).running == old(self).running,
            final(self).leader_id == old(self).leader_id,
            final(self).local_peer == old(self).local_peer,
    {
        self.local_peer_id = Some(peer_id);
    }

    /// Register the hosting process itself into the directory as leader and
    /// return the peer list to broadcast.
    pub fn set_local_peer(&mut self, peer_info: PeerInfo) -> (r: Vec<PeerInfo>)
        ensures
            final(self).local_peer matches Some(p) && p@ == peer_info@,
            final(self).leader_id == Some(peer_info.id),
            final(self).clients == old(self).clients,
            final(self).running == old(self).running,
            final(self).local_peer_id == old(self).local_peer_id,
            peer_list_ok(final(self).local_peer, final(self).clients@, r@),
    {
        self.leader_id = Some(peer_info.id);
        self.local_peer = Some(peer_info);
        self.get_peer_list()
    }

    /// The current leader id, if any.
    pub fn get_leader_id(&self) -> (r: Option<u128>)
        ensures
            r == self.leader_id,
    {
        self.leader_id
    }

    /// Note that the listener is bound and the accept loop may run.
    pub fn note_started(&mut self)
        ensures
            final(self).running,
            final(self).clients == old(self).clients,
            final(self).leader_id == old(self).leader_id,
            final(self).local_peer == old(self).local_peer,
            final(self).local_peer_id == old(self).local_peer_id,
    {
        self.running = true;
    }

    /// Stop the hub: the accept loop ends when it observes the flag.
    pub fn stop(&mut self)
        ensures
            !final(self).running,
            final(self).clients == old(self).clients,
            final(self).leader_id == old(self).leader_id,
            final(self).local_peer == old(self).local_peer,
            final(self).local_peer_id == old(self).local_peer_id,
    {
        self.running = false;
    }

    /// The index of a client, if connected.
    fn find_client(&self, peer_id: u128) -> (r: Option<usize>)
        ensures
            r matches Some(i) ==> i < self.clients@.len()
                && self.clients@[i as int].peer_id == peer_id,
            r is None ==> !has_client(self.clients@, peer_id),
    {
        let mut i: usize = 0;
        while i < self.clients.len()
            invariant
                0 <= i <= self.clients@.len(),
                forall|j: int| 0 <= j < i ==> (#[trigger] self.clients@[j]).peer_id != peer_id,
            decreases self.clients@.len() - i,
        {
            if self.clients[i].peer_id == peer_id {
                return Some(i);
            }
            i = i + 1;
        }
        None
    }

    /// Whether a peer is currently connected to the hub.
    pub fn is_client(&self, peer_id: u128) -> (r: bool)
        ensures
            r == has_client(self.clients@, peer_id),
    {
        match self.find_client(peer_id) {
            Some(_) => true,
            None => false,
        }
    }

    /// Admit a registration: the very first remote registrant is marked
    /// leader only when no local peer is registered; the connection enters
    /// the directory, replacing any stale entry under the same id, and the
    /// returned peer list is broadcast to everyone.
    pub fn handle_register(&mut self, peer_id: u128, peer_type: PeerType, display_name: String)
        -> (r: Vec<PeerInfo>)
        requires
            clients_wf(old(self).clients@),
        ensures
            clients_wf(final(self).clients@),
            has_client(final(self).clients@, peer_id),
            forall|id: u128| id != peer_id ==> has_client(final(self).clients@, id)
                == has_client(old(self).clients@, id),
            ({
                let added = final(self).clients@.last();
                &&& added.peer_id == peer_id
                &&& added.peer_info.id == peer_id
                &&& added.peer_info.peer_type == peer_type
                &&& added.peer_info.display_name@ == display_name@
                &&& added.peer_info.is_connected
                &&& added.peer_info.is_leader == (old(self).clients@.len() == 0
                    && old(self).local_peer is None)
            }),
            final(self).running == old(self).running,
            final(self).leader_id == old(self).leader_id,
            final(self).local_peer == old(self).local_peer,
            final(self).local_peer_id == old(self).local_peer_id,
            peer_list_ok(final(self).local_peer, final(self).clients@, r@),
    {
        let is_leader = self.clients.len() == 0 && matches!(self.local_peer, None);
        let info = PeerInfo {
            id: peer_id,
            peer_type,
            display_name,
            is_connected: true,
            is_leader,
        };
        let ghost old_clients = self.clients@;
        match self.find_client(peer_id) {
            Some(i) => {
                self.clients.remove(i);
                proof {
                    assert forall|id: u128| has_client(self.clients@, id)
                        implies has_client(old_clients, id) by {
                        let j = choose|j: int|
                            0 <= j < self.clients@.len() && (#[trigger] self.clients@[j]).peer_id
                                == id;
                        if j < i {
                            assert(old_clients[j].peer_id == id);
                        } else {
                            assert(old_clients[j + 1].peer_id == id);
                        }
                    }
                    assert(!has_client(self.clients@, peer_id));
                    assert forall|id: u128| id != peer_id && has_client(old_clients, id)
                        implies has_client(self.clients@, id) by {
                        let j = choose|j: int|
                            0 <= j < old_clients.len() && (#[trigger] old_clients[j]).peer_id == id;
                        if j < i {
                            assert(self.clients@[j].peer_id == id);
                        } else {
                            assert(self.clients@[j - 1].peer_id == id);
                        }
                    }
                }
            },
            None => {
            },
        }
        let ghost mid_clients = self.clients@;
        self.clients.push(ConnectedClient { peer_id, peer_info: info });
        proof {
            assert(self.clients@[mid_clients.len() as int].peer_id == peer_id);
            assert forall|id: u128| id != peer_id
                implies has_client(self.clients@, id) == has_client(mid_clients, id) by {
                if has_client(self.clients@, id) {
                    let j = choose|j: int|
                        0 <= j < self.clients@.len() && (#[trigger] self.clients@[j]).peer_id
                            == id;
                    assert(j < mid_clients.len());
                    assert(mid_clients[j].peer_id == id);
                }
                if has_client(mid_clients, id) {
                    let j = choose|j: int|
                        0 <= j < mid_clients.len() && (#[trigger] mid_clients[j]).peer_id == id;
                    assert(self.clients@[j].peer_id == id);
                }
            }
        }
        self.get_peer_list()
    }

    /// Remove a disconnected peer and return whether it was present, with
    /// the fresh peer list to broadcast.
    pub fn handle_disconnect(&mut self, peer_id: u128) -> (r: (bool, Vec<PeerInfo>))
        requires
            clients_wf(old(self).clients@),
        ensures
            clients_wf(final(self).clients@),
            r.0 == has_client(old(self).clients@, peer_id),
            !has_client(final(self).clients@, peer_id),
            forall|id: u128| id != peer_id ==> has_client(final(self).clients@, id)
                == has_client(old(self).clients@, id),
            !r.0 ==> final(self).clients == old(self).clients,
            final(self).running == old(self).running,
            final(self).leader_id == old(self).leader_id,
            final(self).local_peer == old(self).local_peer,
            final(self).local_peer_id == old(self).local_peer_id,
            peer_list_ok(final(self).local_peer, final(self).clients@, r.1@),
    {
        let ghost old_clients = self.clients@;
        let removed: bool;
        match self.find_client(peer_id) {
            Some(i) => {
                self.clients.remove(i);
                removed = true;
                proof {
                    assert forall|id: u128| has_client(self.clients@, id)
                        implies has_client(old_clients, id) by {
                        let j = choose|j: int|
                            0 <= j < self.clients@.len() && (#[trigger] self.clients@[j]).peer_id
                                == id;
                        if j < i {
                            assert(old_clients[j].peer_id == id);
                        } else {
                            assert(old_clients[j + 1].peer_id == id);
                        }
                    }
                    assert(!has_client(self.clients@, peer_id));
                    assert forall|id: u128| id != peer_id && has_client(old_clients, id)
                        implies has_client(self.clients@, id) by {
                        let j = choose|j: int|
                            0 <= j < old_clients.len() && (#[trigger] old_clients[j]).peer_id == id;
                        if j < i {
                            assert(self.clients@[j].peer_id == id);
                        } else {
                            assert(self.clients@[j - 1].peer_id == id);
                        }
                    }
                    assert(has_client(old_clients, peer_id));
                }
            },
            None => {
                removed = false;
            },
        }
        let list = self.get_peer_list();
        (removed, list)
    }

    /// Route one incoming message. Negotiation messages addressed to the
    /// hosting process are handled locally; ones addressed to a connected
    /// client are forwarded verbatim; data is relayed only to connected
    /// clients; everything else, and any unknown target, is dropped.
    pub fn route_message(&self, msg: &SignalingMessage) -> (r: RelayAction)
        ensures
            match msg {
                SignalingMessage::Offer { to_peer_id, .. } => r == spec_route_negotiation(
                    *self, *to_peer_id),
                SignalingMessage::Answer { to_peer_id, .. } => r == spec_route_negotiation(
                    *self, *to_peer_id),
                SignalingMessage::IceCandidate { to_peer_id, .. } => r == spec_route_negotiation(
                    *self, *to_peer_id),
                SignalingMessage::Data { to_peer_id, .. } => if has_client(self.clients@, *to_peer_id) {
                    r == (RelayAction::DeliverTo { peer_id: *to_peer_id })
                } else {
                    r == RelayAction::Drop
                },
                _ => r == RelayAction::Drop,
            },
    {
        match msg {
            SignalingMessage::Offer { to_peer_id, .. } => self.route_negotiation(*to_peer_id),
            SignalingMessage::Answer { to_peer_id, .. } => self.route_negotiation(*to_peer_id),
            SignalingMessage::IceCandidate { to_peer_id, .. } => self.route_negotiation(
                *to_peer_id),
            SignalingMessage::Data { to_peer_id, .. } => {
                match self.find_client(*to_peer_id) {
                    Some(_) => RelayAction::DeliverTo { peer_id: *to_peer_id },
                    None => RelayAction::Drop,
                }
            },
            _ => RelayAction::Drop,
        }
    }

    /// Where a negotiation message to this target goes.
    fn route_negotiation(&self, to_peer_id: u128) -> (r: RelayAction)
        ensures
            r == spec_route_negotiation(*self, to_peer_id),
    {
        let local = match &self.local_peer_id {
            Some(id) => *id == to_peer_id,
            None => false,
        };
        if local {
            RelayAction::HandleLocal
        } else {
            match self.find_client(to_peer_id) {
                Some(_) => RelayAction::DeliverTo { peer_id: to_peer_id },
                None => RelayAction::Drop,
            }
        }
    }

    /// Address a data message from the hosting process: delivered only when
    /// the target is connected, silently dropped otherwise.
    pub fn send_data(&self, from_peer_id: u128, to_peer_id: u128, message: String)
        -> (r: Option<SignalingMessage>)
        ensures
            r is Some <==> has_client(self.clients@, to_peer_id),
            r matches Some(m) ==> (m matches SignalingMessage::Data {
                from_peer_id: f, to_peer_id: t, message: s }
                && f == from_peer_id && t == to_peer_id && s@ == message@),
    {
        match self.find_client(to_peer_id) {
            Some(_) => Some(SignalingMessage::Data { from_peer_id, to_peer_id, message }),
            None => None,
        }
    }

    /// The ids a broadcast goes to: every connected client, in directory
    /// order.
    pub fn client_ids(&self) -> (r: Vec<u128>)
        ensures
            r@.len() == self.clients@.len(),
            forall|i: int| 0 <= i < r@.len() ==> r@[i] == self.clients@[i].peer_id,
    {
        let mut out: Vec<u128> = Vec::new();
        let mut i: usize = 0;
        while i < self.clients.len()
            invariant
                0 <= i <= self.clients@.len(),
                out@.len() == i,
                forall|j: int| 0 <= j < i ==> out@[j] == self.clients@[j].peer_id,
            decreases self.clients@.len() - i,
        {
            out.push(self.clients[i].peer_id);
            i = i + 1;
        }
        out
    }

    /// The full peer list: the local peer first, then every client.
    pub fn get_peer_list(&self) -> (r: Vec<PeerInfo>)
        ensures
            peer_list_ok(self.local_peer, self.clients@, r@),
    {
        let mut out: Vec<PeerInfo> = Vec::new();
        match &self.local_peer {
            Some(lp) => {
                out.push(lp.clone());
            },
            None => {
            },
        }
        let ghost off = out@.len();
        let mut i: usize = 0;
        while i < self.clients.len()
            invariant
                0 <= i <= self.clients@.len(),
                out@.len() == off + i,
                off == (if self.local_peer is Some { 1int } else { 0int }),
                self.local_peer matches Some(lp) ==> out@[0]@ == lp@,
                forall|j: int| 0 <= j < i ==> (#[trigger] out@[off + j])@
                    == self.clients@[j].peer_info@,
            decreases self.clients@.len() - i,
        {
            out.push(self.clients[i].peer_info.clone());
            i = i + 1;
        }
        proof {
            if self.local_peer is Some {
                assert forall|j: int| 0 <= j < self.clients@.len()
                    implies (#[trigger] out@[j + 1])@ == self.clients@[j].peer_info@ by {
                    assert(out@[off + j]@ == self.clients@[j].peer_info@);
                }
            } else {
                assert forall|j: int| 0 <= j < self.clients@.len()
                    implies (#[trigger] out@[j])@ == self.clients@[j].peer_info@ by {
                    assert(out@[off + j]@ == self.clients@[j].peer_info@);
                }
            }
        }
        out
    }

    /// The connected clients' projections only.
    pub fn get_peers(&self) -> (r: Vec<PeerInfo>)
        ensures
            r@.len() == self.clients@.len(),
            forall|i: int| 0 <= i < r@.len() ==> (#[trigger] r@[i])@ == self.clients@[i].peer_info@,
    {
        let mut out: Vec<PeerInfo> = Vec::new();
        let mut i: usize = 0;
        while i < self.clients.len()
            invariant
                0 <= i <= self.clients@.len(),
                out@.len() == i,
                forall|j: int| 0 <= j < i ==> (#[trigger] out@[j])@ == self.clients@[j].peer_info@,
            decreases self.clients@.len() - i,
        {
            out.push(self.clients[i].peer_info.clone());
            i = i + 1;
        }
        out
    }
}

/// Where a negotiation message lands: the local handler when it addresses
/// the hosting process, else the targeted client, else nowhere.
pub open spec fn spec_route_negotiation(s: SignalingServer, to_peer_id: u128) -> RelayAction {
    if s.local_peer_id == Some(to_peer_id) {
        RelayAction::HandleLocal
    } else if has_client(s.clients@, to_peer_id) {
        RelayAction::DeliverTo { peer_id: to_peer_id }
    } else {
        RelayAction::Drop
    }
}

/// What a follower does with one message from the hub.
#[derive(Debug)]
pub enum ClientAction {
    /// The cached membership was replaced.
    UpdatedPeerList,
    /// Hand the payload to the application's message callback.
    DeliverData { from_peer_id: u128, message: String },
    /// Negotiation-only message this client need not act on.
    Ignore,
}

/// Follower-side state: a WebSocket client attached to an existing hub.
#[derive(Debug)]
pub struct HubClient {
    pub my_peer_id: u128,
    /// The membership last broadcast by the hub; transiently stale.
    pub peers: Vec<PeerInfo>,
}

impl HubClient {
    pub fn new(my_peer_id: u128) -> (r: Self)
        ensures
            r.my_peer_id == my_peer_id,
            r.peers@.len() == 0,
    {
        HubClient { my_peer_id, peers: Vec::new() }
    }

    /// The registration a follower sends as its first message after
    /// connecting.
    pub fn register_message(peer: &Peer) -> (r: SignalingMessage)
        ensures
            r matches SignalingMessage::Register {
                peer_id, peer_type, display_name, display_class, priority }
                && peer_id == peer.id && peer_type == peer.peer_type
                && display_name@ == peer.display_name@ && display_class is None
                && priority == Some((role_score(peer.peer_type), peer.startup_time_ms)),
    {
        let p = peer.priority();
        SignalingMessage::Register {
            peer_id: peer.id,
            peer_type: peer.peer_type,
            display_name: peer.display_name.clone(),
            display_class: None,
            priority: Some((p.device_type_score, p.startup_time_ms)),
        }
    }

    /// Apply one hub message: a peer list replaces the cached membership, a
    /// data message is handed to the application, anything else is ignored.
    pub fn handle_hub_message(&mut self, msg: SignalingMessage) -> (r: ClientAction)
        ensures
            final(self).my_peer_id == old(self).my_peer_id,
            match msg {
                SignalingMessage::PeerList { peers } => r is UpdatedPeerList
                    && final(self).peers@.len() == peers@.len()
                    && (forall|i: int| 0 <= i < peers@.len()
                        ==> (#[trigger] final(self).peers@[i])@ == peers@[i]@),
                SignalingMessage::Data { from_peer_id, message, .. } => (r
                    matches ClientAction::DeliverData { from_peer_id: f, message: m }
                    && f == from_peer_id && m@ == message@)
                    && final(self).peers == old(self).peers,
                _ => r is Ignore && final(self).peers == old(self).peers,
            },
    {
        match msg {
            SignalingMessage::PeerList { peers } => {
                self.peers = peers;
                ClientAction::UpdatedPeerList
            },
            SignalingMessage::Data { from_peer_id, to_peer_id: _, message } => {
                ClientAction::DeliverData { from_peer_id, message }
            },
            _ => ClientAction::Ignore,
        }
    }
}

} // verus!
