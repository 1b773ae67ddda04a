//! The state of a WebSocket hub: the connected peers and which group each
//! belongs to. A group exists exactly while it has members.
use vstd::prelude::*;
use crate::auth::AuthUser;
use crate::text::{char_is_space, chars_of, is_space, string_views};
use crate::websocket::protocol::{ClientMessage, EventActor, ServerMessage};
use crate::websocket::server::{
    actor_for, check_frame_format, is_actor_of, is_valid_name, validate_event_name, validate_group_name,
    WebSocketError, WebSocketFrameFormat,
};

verus! {

broadcast use vstd::seq_lib::group_seq_properties;

/// A connected peer.
#[derive(Debug)]
pub struct PeerRecord {
    pub connection_id: String,
    pub auth_user: Option<AuthUser>,
}

/// One connection's membership of one group.
#[derive(Debug)]
pub struct Membership {
    pub connection_id: String,
    pub group: String,
}

/// The peers and memberships of a hub.
#[derive(Debug)]
pub struct HubState {
    peers: Vec<PeerRecord>,
    memberships: Vec<Membership>,
}

/// The content of a hub: the user of each connected peer (by connection id)
/// and the set of (connection id, group) memberships.
pub struct HubView {
    pub peers: Map<Seq<char>, Option<AuthUser>>,
    pub memberships: Set<(Seq<char>, Seq<char>)>,
}

/// The connection ids of `peers`.
pub open spec fn peer_ids(peers: Seq<PeerRecord>) -> Seq<Seq<char>> {
    peers.map_values(|p: PeerRecord| p.connection_id@)
}

/// The (connection id, group) pairs of `ms`.
pub open spec fn membership_pairs(ms: Seq<Membership>) -> Seq<(Seq<char>, Seq<char>)> {
    ms.map_values(|m: Membership| (m.connection_id@, m.group@))
}

/// The members of group `group`.
pub open spec fn group_members(v: HubView, group: Seq<char>) -> Set<Seq<char>> {
    Set::new(|c: Seq<char>| v.memberships.contains((c, group)))
}

/// Whether group `group` exists, that is, has a member.
pub open spec fn group_exists(v: HubView, group: Seq<char>) -> bool {
    exists|c: Seq<char>| v.memberships.contains((c, group))
}

/// The user of each peer, by connection id.
pub open spec fn peers_map(peers: Seq<PeerRecord>) -> Map<Seq<char>, Option<AuthUser>> {
    Map::new(
        |c: Seq<char>| peer_ids(peers).contains(c),
        |c: Seq<char>| peers[peer_ids(peers).index_of(c)].auth_user,
    )
}

impl View for HubState {
    type V = HubView;

    closed spec fn view(&self) -> HubView {
        HubView {
            peers: peers_map(self.peers@),
            memberships: membership_pairs(self.memberships@).to_set(),
        }
    }
}

/// In a sequence without duplicates, an element is found at its own index.
proof fn lemma_index_of_unique<A>(s: Seq<A>, i: int)
    requires
        s.no_duplicates(),
        0 <= i < s.len(),
    ensures
        s.index_of(s[i]) == i,
{
    assert(s.contains(s[i]));
}

/// Removing a peer removes its entry from the map of peers.
proof fn lemma_peers_map_remove(peers: Seq<PeerRecord>, i: int)
    requires
        peer_ids(peers).no_duplicates(),
        0 <= i < peers.len(),
    ensures
        peer_ids(peers.remove(i)).no_duplicates(),
        peers_map(peers.remove(i)) =~= peers_map(peers).remove(peers[i].connection_id@),
{
    let ids = peer_ids(peers);
    let r = peers.remove(i);
    let rids = peer_ids(r);
    assert(rids =~= ids.remove(i));
    assert forall|c: Seq<char>| rids.contains(c) <==> (ids.contains(c) && c != peers[i].connection_id@) by {
        if rids.contains(c) {
            let k = choose|k: int| 0 <= k < rids.len() && rids[k] == c;
            if k < i {
                assert(ids[k] == c);
                assert(ids[k] != ids[i]);
                assert(ids.contains(c));
            } else {
                assert(ids[k + 1] == c);
                assert(ids[k + 1] != ids[i]);
                assert(ids.contains(c));
            }
        }
        if ids.contains(c) && c != peers[i].connection_id@ {
            let k = choose|k: int| 0 <= k < ids.len() && ids[k] == c;
            if k < i {
                assert(rids[k] == c);
            } else {
                assert(k != i);
                assert(rids[k - 1] == c);
            }
        }
    }
    assert forall|c: Seq<char>| #[trigger] rids.contains(c) implies r[rids.index_of(c)].auth_user == peers[ids.index_of(c)].auth_user by {
        let k = rids.index_of(c);
        let k0 = if k < i { k } else { k + 1 };
        assert(ids[k0] == c);
        lemma_index_of_unique(ids, k0);
    }
}

/// Adding a peer with a new id adds its entry to the map of peers.
proof fn lemma_peers_map_push(peers: Seq<PeerRecord>, p: PeerRecord)
    requires
        peer_ids(peers).no_duplicates(),
        !peer_ids(peers).contains(p.connection_id@),
    ensures
        peer_ids(peers.push(p)).no_duplicates(),
        peers_map(peers.push(p)) =~= peers_map(peers).insert(p.connection_id@, p.auth_user),
{
    let ids = peer_ids(peers);
    let r = peers.push(p);
    let rids = peer_ids(r);
    assert(rids =~= ids.push(p.connection_id@));
    assert forall|c: Seq<char>| #[trigger] rids.contains(c) implies r[rids.index_of(c)].auth_user == (
        if c == p.connection_id@ { p.auth_user } else { peers[ids.index_of(c)].auth_user }) by {
        let k = rids.index_of(c);
        if c == p.connection_id@ {
            lemma_index_of_unique(rids, ids.len() as int);
        } else {
            assert(k < ids.len());
            assert(ids[k] == c);
            lemma_index_of_unique(ids, k);
        }
    }
}

/// Finds the index of `id` among the peers.
fn find_peer(peers: &Vec<PeerRecord>, id: &String) -> (res: Option<usize>)
    ensures
        match res {
            Some(i) => i < peers@.len() && peers@[i as int].connection_id@ == id@,
            None => !peer_ids(peers@).contains(id@),
        },
{
    let mut i: usize = 0;
    while i < peers.len()
        invariant
            i <= peers@.len(),
            forall|j: int| 0 <= j < i ==> (#[trigger] peers@[j]).connection_id@ != id@,
        decreases peers.len() - i,
    {
        if peers[i].connection_id == *id {
            return Some(i);
        }
        i += 1;
    }
    assert forall|j: int| 0 <= j < peer_ids(peers@).len() implies peer_ids(peers@)[j] != id@ by {
        assert(peer_ids(peers@)[j] == peers@[j].connection_id@);
    }
    None
}

/// Whether `ms` holds the membership of `id` in `group`.
fn has_membership(ms: &Vec<Membership>, id: &String, group: &String) -> (res: bool)
    ensures
        res == membership_pairs(ms@).contains((id@, group@)),
{
    let mut i: usize = 0;
    while i < ms.len()
        invariant
            i <= ms@.len(),
            forall|j: int| 0 <= j < i ==> (#[trigger] membership_pairs(ms@)[j]) != (id@, group@),
        decreases ms.len() - i,
    {
        if ms[i].connection_id == *id && ms[i].group == *group {
            assert(membership_pairs(ms@)[i as int] == (id@, group@));
            return true;
        }
        assert(membership_pairs(ms@)[i as int] == (ms@[i as int].connection_id@, ms@[i as int].group@));
        i += 1;
    }
    false
}

/// The view of an optional group name.
pub open spec fn opt_view(group: Option<&String>) -> Option<Seq<char>> {
    match group {
        Some(g) => Some(g@),
        None => None,
    }
}

/// Whether membership `p` belongs to connection `id` (and to `group`, when given).
pub open spec fn selects(p: (Seq<char>, Seq<char>), id: Seq<char>, group: Option<Seq<char>>) -> bool {
    &&& p.0 == id
    &&& match group {
        Some(g) => p.1 == g,
        None => true,
    }
}

/// A copy of a membership.
fn copy_membership(m: &Membership) -> (res: Membership)
    ensures
        res.connection_id@ == m.connection_id@,
        res.group@ == m.group@,
{
    Membership { connection_id: m.connection_id.clone(), group: m.group.clone() }
}

/// `ms` without the memberships of `id` (in `group` only, when a group is given).
fn without_memberships(ms: &Vec<Membership>, id: &String, group: Option<&String>) -> (res: Vec<Membership>)
    requires
        membership_pairs(ms@).no_duplicates(),
    ensures
        membership_pairs(res@).no_duplicates(),
        forall|p: (Seq<char>, Seq<char>)| #[trigger] membership_pairs(res@).contains(p) <==> (
            membership_pairs(ms@).contains(p) && !selects(p, id@, opt_view(group))),
{
    let ghost gv = opt_view(group);
    let mut kept: Vec<Membership> = Vec::new();
    let mut i: usize = 0;
    while i < ms.len()
        invariant
            i <= ms@.len(),
            gv == opt_view(group),
            membership_pairs(ms@).no_duplicates(),
            membership_pairs(kept@).no_duplicates(),
            forall|p: (Seq<char>, Seq<char>)| #[trigger] membership_pairs(kept@).contains(p) <==> (
                exists|j: int| 0 <= j < i && membership_pairs(ms@)[j] == p && !selects(p, id@, gv)),
        decreases ms.len() - i,
    {
        let m = &ms[i];
        let drop = m.connection_id == *id && match group {
            Some(g) => m.group == *g,
            None => true,
        };
        let ghost p = membership_pairs(ms@)[i as int];
        assert(p == (m.connection_id@, m.group@));
        assert(drop == selects(p, id@, gv));
        let ghost before = kept@;
        if !drop {
            kept.push(copy_membership(m));
            assert(membership_pairs(kept@) =~= membership_pairs(before).push(p));
            assert(!membership_pairs(before).contains(p)) by {
                if membership_pairs(before).contains(p) {
                    let j = choose|j: int| 0 <= j < i && membership_pairs(ms@)[j] == p && !selects(p, id@, gv);
                    assert(membership_pairs(ms@)[j] == membership_pairs(ms@)[i as int]);
                }
            }
        } else {
            assert(kept@ == before);
        }
        assert forall|q: (Seq<char>, Seq<char>)| #[trigger] membership_pairs(kept@).contains(q) <==> (
            exists|j: int| 0 <= j < i + 1 && membership_pairs(ms@)[j] == q && !selects(q, id@, gv)) by {
            if membership_pairs(kept@).contains(q) && q != p {
                assert(membership_pairs(before).contains(q));
            }
            if exists|j: int| 0 <= j < i + 1 && membership_pairs(ms@)[j] == q && !selects(q, id@, gv) {
                let j = choose|j: int| 0 <= j < i + 1 && membership_pairs(ms@)[j] == q && !selects(q, id@, gv);
                if j < i {
                    assert(membership_pairs(before).contains(q));
                    let k = choose|k: int| 0 <= k < membership_pairs(before).len() && membership_pairs(before)[k] == q;
                    assert(membership_pairs(kept@)[k] == q);
                } else {
                    assert(membership_pairs(kept@)[membership_pairs(kept@).len() - 1] == q);
                }
            }
        }
        i += 1;
    }
    assert forall|p: (Seq<char>, Seq<char>)| #[trigger] membership_pairs(kept@).contains(p) <==> (
        membership_pairs(ms@).contains(p) && !selects(p, id@, gv)) by {
        if membership_pairs(ms@).contains(p) && !selects(p, id@, gv) {
            let j = choose|j: int| 0 <= j < membership_pairs(ms@).len() && membership_pairs(ms@)[j] == p;
            assert(exists|j2: int| 0 <= j2 < i && membership_pairs(ms@)[j2] == p && !selects(p, id@, gv));
        }
    }
    kept
}

/// A fresh random connection id (`uuid::Uuid::new_v4()` in its hyphenated
/// text form, 36 characters). Which id comes out is left open.
#[verifier::external_body]
fn new_connection_id() -> (res: String)
    ensures
        res@.len() == 36,
{
    uuid::Uuid::new_v4().to_string()
}

impl HubState {
    /// The hub's internal consistency: peer ids are distinct, memberships are
    /// distinct, and every membership belongs to a connected peer.
    pub closed spec fn wf(&self) -> bool {
        &&& peer_ids(self.peers@).no_duplicates()
        &&& membership_pairs(self.memberships@).no_duplicates()
        &&& forall|j: int| 0 <= j < self.memberships@.len()
            ==> peer_ids(self.peers@).contains(#[trigger] self.memberships@[j].connection_id@)
    }

    /// An empty hub.
    pub fn new() -> (res: Self)
        ensures
            res.wf(),
            res@.peers == Map::<Seq<char>, Option<AuthUser>>::empty(),
            res@.memberships == Set::<(Seq<char>, Seq<char>)>::empty(),
    {
        let res = HubState { peers: Vec::new(), memberships: Vec::new() };
        assert(res@.peers =~= Map::<Seq<char>, Option<AuthUser>>::empty());
        assert(res@.memberships =~= Set::<(Seq<char>, Seq<char>)>::empty());
        res
    }

    /// Every membership belongs to a connected peer.
    pub proof fn lemma_members_are_peers(&self)
        requires
            self.wf(),
        ensures
            forall|p: (Seq<char>, Seq<char>)| #[trigger] self@.memberships.contains(p)
                ==> self@.peers.dom().contains(p.0),
    {
        assert forall|p: (Seq<char>, Seq<char>)| #[trigger] self@.memberships.contains(p)
            implies self@.peers.dom().contains(p.0) by {
            let pairs = membership_pairs(self.memberships@);
            let j = choose|j: int| 0 <= j < pairs.len() && pairs[j] == p;
            assert(peer_ids(self.peers@).contains(self.memberships@[j].connection_id@));
        }
    }

    /// Whether connection `connection_id` is connected.
    pub fn has_peer(&self, connection_id: &str) -> (res: bool)
        ensures
            res == self@.peers.dom().contains(connection_id@),
    {
        let id = String::from_str(connection_id);
        match find_peer(&self.peers, &id) {
            Some(i) => {
                assert(peer_ids(self.peers@)[i as int] == id@);
                true
            },
            None => false,
        }
    }

    /// The number of connected peers.
    pub fn peer_count(&self) -> (res: usize)
        requires
            self.wf(),
        ensures
            res == self@.peers.dom().len(),
    {
        proof {
            peer_ids(self.peers@).unique_seq_to_set();
            assert(self@.peers.dom() =~= peer_ids(self.peers@).to_set());
        }
        self.peers.len()
    }

    /// Removes connection `connection_id` and all its memberships; groups
    /// left without members cease to exist. Nothing happens when it is not
    /// connected.
    pub fn unregister(&mut self, connection_id: &str)
        requires
            old(self).wf(),
        ensures
            final(self).wf(),
            final(self)@.peers == old(self)@.peers.remove(connection_id@),
            final(self)@.memberships == old(self)@.memberships.filter(
                |p: (Seq<char>, Seq<char>)| p.0 != connection_id@),
    {
        let id = String::from_str(connection_id);
        match find_peer(&self.peers, &id) {
            None => {
                proof {
                    assert(self@.peers =~= old(self)@.peers.remove(connection_id@));
                    self.lemma_members_are_peers();
                    assert(self@.memberships =~= old(self)@.memberships.filter(
                        |p: (Seq<char>, Seq<char>)| p.0 != connection_id@));
                }
            },
            Some(i) => {
                let ghost old_peers = self.peers@;
                let ghost old_pairs = membership_pairs(self.memberships@);
                let kept = without_memberships(&self.memberships, &id, None);
                self.memberships = kept;
                let _removed = self.peers.remove(i);
                proof {
                    lemma_peers_map_remove(old_peers, i as int);
                    assert(membership_pairs(self.memberships@).to_set() =~= old_pairs.to_set().filter(
                        |p: (Seq<char>, Seq<char>)| p.0 != connection_id@)) by {
                        assert forall|p: (Seq<char>, Seq<char>)| #[trigger] membership_pairs(self.memberships@).contains(p)
                            <==> (old_pairs.contains(p) && !selects(p, id@, None)) by {}
                    }
                    assert forall|j: int| 0 <= j < self.memberships@.len()
                        implies peer_ids(self.peers@).contains(#[trigger] self.memberships@[j].connection_id@) by {
                        let p = membership_pairs(self.memberships@)[j];
                        assert(membership_pairs(self.memberships@).contains(p));
                        assert(old_pairs.contains(p));
                        let k = choose|k: int| 0 <= k < old_pairs.len() && old_pairs[k] == p;
                        assert(peer_ids(old_peers).contains(p.0));
                        assert(peers_map(old_peers).dom().contains(p.0));
                        assert(peers_map(self.peers@).dom().contains(p.0));
                    }
                }
            },
        }
    }

    /// Adds peer `connection_id` authenticated as `auth_user`; a peer already
    /// connected under that id is replaced and loses its memberships.
    pub fn insert_peer(&mut self, connection_id: String, auth_user: Option<AuthUser>)
        requires
            old(self).wf(),
        ensures
            final(self).wf(),
            final(self)@.peers == old(self)@.peers.insert(connection_id@, auth_user),
            final(self)@.memberships == old(self)@.memberships.filter(
                |p: (Seq<char>, Seq<char>)| p.0 != connection_id@),
    {
        self.unregister(connection_id.as_str());
        let ghost mid_peers = self.peers@;
        proof {
            assert(!peers_map(mid_peers).dom().contains(connection_id@));
        }
        let record = PeerRecord { connection_id, auth_user };
        self.peers.push(record);
        proof {
            lemma_peers_map_push(mid_peers, record);
            assert(self@.peers =~= old(self)@.peers.insert(connection_id@, auth_user));
            assert forall|j: int| 0 <= j < self.memberships@.len()
                implies peer_ids(self.peers@).contains(#[trigger] self.memberships@[j].connection_id@) by {
                let c = self.memberships@[j].connection_id@;
                assert(peers_map(mid_peers).dom().contains(c));
                assert(peers_map(self.peers@).dom().contains(c));
            }
        }
    }

    /// Connects a new peer under a fresh random id, and returns the id with
    /// the `connected` message that greets the peer.
    pub fn register(&mut self, auth_user: Option<AuthUser>) -> (res: (String, ServerMessage))
        requires
            old(self).wf(),
        ensures
            final(self).wf(),
            final(self)@.peers == old(self)@.peers.insert(res.0@, auth_user),
            final(self)@.memberships == old(self)@.memberships.filter(
                |p: (Seq<char>, Seq<char>)| p.0 != res.0@),
            res.0@.len() == 36,
            res.1 matches ServerMessage::Connected { connection_id, actor }
                && connection_id@ == res.0@ && is_actor_of(actor, res.0@, auth_user),
    {
        let id = new_connection_id();
        let actor = actor_for(id.as_str(), &auth_user);
        self.insert_peer(id.clone(), auth_user);
        let greeting = ServerMessage::Connected { connection_id: id.clone(), actor };
        (id, greeting)
    }

    /// Adds connection `connection_id` to group `group`.
    pub fn join_group(&mut self, connection_id: &str, group: &str) -> (res: Result<(), WebSocketError>)
        requires
            old(self).wf(),
        ensures
            final(self).wf(),
            !is_valid_name(group@) ==> (res matches Err(WebSocketError::InvalidGroup) && final(self)@ == old(self)@),
            is_valid_name(group@) && !old(self)@.peers.dom().contains(connection_id@) ==> (
                res matches Err(WebSocketError::ConnectionNotFound) && final(self)@ == old(self)@),
            is_valid_name(group@) && old(self)@.peers.dom().contains(connection_id@) ==> (res is Ok
                && final(self)@.peers == old(self)@.peers
                && final(self)@.memberships == old(self)@.memberships.insert((connection_id@, group@))),
    {
        validate_group_name(group)?;
        let id = String::from_str(connection_id);
        let i = match find_peer(&self.peers, &id) {
            Some(i) => {
                assert(peer_ids(self.peers@)[i as int] == id@);
                i
            },
            None => {
                return Err(WebSocketError::ConnectionNotFound);
            },
        };
        let g = String::from_str(group);
        let ghost old_pairs = membership_pairs(self.memberships@);
        if !has_membership(&self.memberships, &id, &g) {
            self.memberships.push(Membership { connection_id: id, group: g });
            proof {
                assert(membership_pairs(self.memberships@) =~= old_pairs.push((connection_id@, group@)));
                assert forall|j: int| 0 <= j < self.memberships@.len()
                    implies peer_ids(self.peers@).contains(#[trigger] self.memberships@[j].connection_id@) by {
                    if j == self.memberships@.len() - 1 {
                        assert(peer_ids(self.peers@)[i as int] == connection_id@);
                    }
                }
            }
        } else {
            assert(old(self)@.memberships.insert((connection_id@, group@)) =~= old(self)@.memberships);
        }
        Ok(())
    }

    /// Removes connection `connection_id` from group `group`; the group ceases
    /// to exist when no member is left.
    pub fn leave_group(&mut self, connection_id: &str, group: &str) -> (res: Result<(), WebSocketError>)
        requires
            old(self).wf(),
        ensures
            final(self).wf(),
            !is_valid_name(group@) ==> (res matches Err(WebSocketError::InvalidGroup) && final(self)@ == old(self)@),
            is_valid_name(group@) && !old(self)@.peers.dom().contains(connection_id@) ==> (
                res matches Err(WebSocketError::ConnectionNotFound) && final(self)@ == old(self)@),
            is_valid_name(group@) && old(self)@.peers.dom().contains(connection_id@) ==> (res is Ok
                && final(self)@.peers == old(self)@.peers
                && final(self)@.memberships == old(self)@.memberships.remove((connection_id@, group@))),
    {
        validate_group_name(group)?;
        let id = String::from_str(connection_id);
        match find_peer(&self.peers, &id) {
            Some(i) => {
                assert(peer_ids(self.peers@)[i as int] == id@);
            },
            None => {
                return Err(WebSocketError::ConnectionNotFound);
            },
        }
        let g = String::from_str(group);
        let ghost old_pairs = membership_pairs(self.memberships@);
        let kept = without_memberships(&self.memberships, &id, Some(&g));
        self.memberships = kept;
        proof {
            assert forall|p: (Seq<char>, Seq<char>)| #[trigger] membership_pairs(self.memberships@).contains(p)
                <==> (old_pairs.contains(p) && !selects(p, id@, Some(g@))) by {}
            assert(self@.memberships =~= old(self)@.memberships.remove((connection_id@, group@)));
            assert forall|j: int| 0 <= j < self.memberships@.len()
                implies peer_ids(self.peers@).contains(#[trigger] self.memberships@[j].connection_id@) by {
                let p = membership_pairs(self.memberships@)[j];
                assert(membership_pairs(self.memberships@).contains(p));
                let k = choose|k: int| 0 <= k < old_pairs.len() && old_pairs[k] == p;
                assert(peer_ids(self.peers@).contains(old(self).memberships@[k].connection_id@));
            }
        }
        Ok(())
    }

    /// The number of members of group `group` (0 when it does not exist).
    pub fn group_member_count(&self, group: &str) -> (res: usize)
        requires
            self.wf(),
        ensures
            res == group_members(self@, group@).len(),
    {
        let g = String::from_str(group);
        let members = members_of(&self.memberships, &g);
        proof {
            string_views(members@).unique_seq_to_set();
            assert(string_views(members@).to_set() =~= group_members(self@, group@));
            assert(string_views(members@).len() == members@.len());
        }
        members.len()
    }

    /// The actor of connected peer `connection_id`.
    pub fn peer_actor(&self, connection_id: &str) -> (res: Option<EventActor>)
        requires
            self.wf(),
        ensures
            match res {
                Some(a) => self@.peers.dom().contains(connection_id@)
                    && is_actor_of(a, connection_id@, self@.peers[connection_id@]),
                None => !self@.peers.dom().contains(connection_id@),
            },
    {
        let id = String::from_str(connection_id);
        match find_peer(&self.peers, &id) {
            Some(i) => {
                proof {
                    assert(peer_ids(self.peers@)[i as int] == id@);
                    lemma_index_of_unique(peer_ids(self.peers@), i as int);
                }
                Some(actor_for(connection_id, &self.peers[i].auth_user))
            },
            None => None,
        }
    }

    /// Who receives an event that connection `connection_id` sends to group
    /// `group`, and as which actor: every member of the group, once each.
    /// The group and event names must be valid, the group must exist and the
    /// sender must be a member.
    pub fn emit_plan(&self, connection_id: &str, group: &str, event: &str) -> (res: Result<(Vec<String>, EventActor), WebSocketError>)
        requires
            self.wf(),
        ensures
            !is_valid_name(group@) ==> res matches Err(WebSocketError::InvalidGroup),
            is_valid_name(group@) && !is_valid_name(event@) ==> res matches Err(WebSocketError::InvalidEvent),
            is_valid_name(group@) && is_valid_name(event@) && !group_exists(self@, group@) ==> (
                res matches Err(WebSocketError::GroupNotFound { group: g }) && g@ == group@),
            is_valid_name(group@) && is_valid_name(event@) && group_exists(self@, group@)
                && !self@.memberships.contains((connection_id@, group@)) ==> (
                res matches Err(WebSocketError::NotInGroup { group: g }) && g@ == group@),
            is_valid_name(group@) && is_valid_name(event@) && self@.memberships.contains((connection_id@, group@)) ==> (
                res matches Ok((r, a))
                && string_views(r@).no_duplicates()
                && string_views(r@).to_set() == group_members(self@, group@)
                && self@.peers.dom().contains(connection_id@)
                && is_actor_of(a, connection_id@, self@.peers[connection_id@])),
    {
        validate_group_name(group)?;
        validate_event_name(event)?;
        let g = String::from_str(group);
        let id = String::from_str(connection_id);
        let recipients = members_of(&self.memberships, &g);
        if recipients.len() == 0 {
            proof {
                assert forall|c: Seq<char>| !self@.memberships.contains((c, group@)) by {
                    if self@.memberships.contains((c, group@)) {
                        assert(string_views(recipients@).contains(c));
                    }
                }
            }
            return Err(WebSocketError::GroupNotFound { group: g });
        }
        proof {
            assert(string_views(recipients@).contains(string_views(recipients@)[0]));
            assert(self@.memberships.contains((string_views(recipients@)[0], group@)));
        }
        if !has_membership(&self.memberships, &id, &g) {
            return Err(WebSocketError::NotInGroup { group: g });
        }
        proof {
            self.lemma_members_are_peers();
            assert(string_views(recipients@).to_set() =~= group_members(self@, group@));
        }
        match self.peer_actor(connection_id) {
            Some(actor) => Ok((recipients, actor)),
            None => Err(WebSocketError::ConnectionNotFound),
        }
    }
}

/// The groups that exist in `v`.
pub open spec fn existing_groups(v: HubView) -> Set<Seq<char>> {
    Set::new(|g: Seq<char>| group_exists(v, g))
}

impl HubState {
    /// The names of the groups that exist, once each.
    pub fn group_names(&self) -> (res: Vec<String>)
        requires
            self.wf(),
        ensures
            string_views(res@).no_duplicates(),
            string_views(res@).to_set() == existing_groups(self@),
    {
        let ghost pairs = membership_pairs(self.memberships@);
        let mut names: Vec<String> = Vec::new();
        let mut i: usize = 0;
        while i < self.memberships.len()
            invariant
                i <= self.memberships@.len(),
                pairs == membership_pairs(self.memberships@),
                string_views(names@).no_duplicates(),
                forall|g: Seq<char>| #[trigger] string_views(names@).contains(g) <==> exists|j: int| 0 <= j < i && pairs[j].1 == g,
            decreases self.memberships.len() - i,
        {
            let ghost before = string_views(names@);
            let ghost g = pairs[i as int].1;
            assert(g == self.memberships@[i as int].group@);
            if !contains_name(&names, &self.memberships[i].group) {
                names.push(self.memberships[i].group.clone());
                assert(string_views(names@) =~= before.push(g));
                assert forall|g2: Seq<char>| #[trigger] string_views(names@).contains(g2) <==> exists|j: int| 0 <= j < i + 1 && pairs[j].1 == g2 by {
                    if string_views(names@).contains(g2) && g2 != g {
                        let k = choose|k: int| 0 <= k < string_views(names@).len() && string_views(names@)[k] == g2;
                        assert(before[k] == g2);
                        assert(before.contains(g2));
                    }
                    if exists|j: int| 0 <= j < i + 1 && pairs[j].1 == g2 {
                        let j = choose|j: int| 0 <= j < i + 1 && pairs[j].1 == g2;
                        if j < i {
                            assert(before.contains(g2));
                            let k = choose|k: int| 0 <= k < before.len() && before[k] == g2;
                            assert(string_views(names@)[k] == g2);
                        } else {
                            assert(string_views(names@)[string_views(names@).len() - 1] == g2);
                        }
                    }
                }
            } else {
                assert forall|g2: Seq<char>| #[trigger] string_views(names@).contains(g2) <==> exists|j: int| 0 <= j < i + 1 && pairs[j].1 == g2 by {
                    if exists|j: int| 0 <= j < i + 1 && pairs[j].1 == g2 {
                        let j = choose|j: int| 0 <= j < i + 1 && pairs[j].1 == g2;
                        if j == i {
                            assert(before.contains(g2));
                        }
                    }
                }
            }
            i += 1;
        }
        proof {
            assert forall|g: Seq<char>| string_views(names@).to_set().contains(g) <==> existing_groups(self@).contains(g) by {
                if string_views(names@).contains(g) {
                    let j = choose|j: int| 0 <= j < i && pairs[j].1 == g;
                    assert(pairs.contains(pairs[j]));
                    assert(self@.memberships.contains((pairs[j].0, g)));
                }
                if existing_groups(self@).contains(g) {
                    let c = choose|c: Seq<char>| self@.memberships.contains((c, g));
                    let j = choose|j: int| 0 <= j < pairs.len() && pairs[j] == (c, g);
                    assert(pairs[j].1 == g);
                }
            }
            assert(string_views(names@).to_set() =~= existing_groups(self@));
        }
        names
    }

    /// The number of groups that exist.
    pub fn group_count(&self) -> (res: usize)
        requires
            self.wf(),
        ensures
            res == existing_groups(self@).len(),
    {
        let names = self.group_names();
        proof {
            string_views(names@).unique_seq_to_set();
        }
        names.len()
    }
}

/// Whether `names` holds `name`.
fn contains_name(names: &Vec<String>, name: &String) -> (res: bool)
    ensures
        res == string_views(names@).contains(name@),
{
    let mut i: usize = 0;
    while i < names.len()
        invariant
            i <= names@.len(),
            forall|j: int| 0 <= j < i ==> (#[trigger] names@[j])@ != name@,
        decreases names.len() - i,
    {
        if names[i] == *name {
            assert(string_views(names@)[i as int] == name@);
            return true;
        }
        i += 1;
    }
    assert forall|j: int| 0 <= j < string_views(names@).len() implies string_views(names@)[j] != name@ by {
        assert(string_views(names@)[j] == names@[j]@);
    }
    false
}

/// The connection ids of the members of group `group` in `ms`, once each.
fn members_of(ms: &Vec<Membership>, group: &String) -> (res: Vec<String>)
    requires
        membership_pairs(ms@).no_duplicates(),
    ensures
        string_views(res@).no_duplicates(),
        forall|c: Seq<char>| #[trigger] string_views(res@).contains(c) <==> membership_pairs(ms@).contains((c, group@)),
{
    let ghost pairs = membership_pairs(ms@);
    let mut res: Vec<String> = Vec::new();
    let mut i: usize = 0;
    while i < ms.len()
        invariant
            i <= ms@.len(),
            pairs == membership_pairs(ms@),
            pairs.no_duplicates(),
            string_views(res@).no_duplicates(),
            forall|c: Seq<char>| #[trigger] string_views(res@).contains(c) <==> exists|j: int| 0 <= j < i && pairs[j] == (c, group@),
        decreases ms.len() - i,
    {
        let ghost before = string_views(res@);
        if ms[i].group == *group {
            let ghost c = ms@[i as int].connection_id@;
            assert(pairs[i as int] == (c, group@));
            assert(!before.contains(c)) by {
                if before.contains(c) {
                    let j = choose|j: int| 0 <= j < i && pairs[j] == (c, group@);
                    assert(pairs[j] == pairs[i as int]);
                }
            }
            res.push(ms[i].connection_id.clone());
            assert(string_views(res@) =~= before.push(c));
            assert forall|c2: Seq<char>| #[trigger] string_views(res@).contains(c2) <==> exists|j: int| 0 <= j < i + 1 && pairs[j] == (c2, group@) by {
                if string_views(res@).contains(c2) && c2 != c {
                    let k = choose|k: int| 0 <= k < string_views(res@).len() && string_views(res@)[k] == c2;
                    assert(before[k] == c2);
                    assert(before.contains(c2));
                }
                if exists|j: int| 0 <= j < i + 1 && pairs[j] == (c2, group@) {
                    let j = choose|j: int| 0 <= j < i + 1 && pairs[j] == (c2, group@);
                    if j < i {
                        assert(before.contains(c2));
                        let k = choose|k: int| 0 <= k < before.len() && before[k] == c2;
                        assert(string_views(res@)[k] == c2);
                    } else {
                        assert(string_views(res@)[string_views(res@).len() - 1] == c2);
                    }
                }
            }
        } else {
            assert forall|c2: Seq<char>| #[trigger] string_views(res@).contains(c2) <==> exists|j: int| 0 <= j < i + 1 && pairs[j] == (c2, group@) by {
                if exists|j: int| 0 <= j < i + 1 && pairs[j] == (c2, group@) {
                    let j = choose|j: int| 0 <= j < i + 1 && pairs[j] == (c2, group@);
                    assert(j != i);
                }
            }
        }
        i += 1;
    }
    res
}

/// The groups of connection `id` in `ms`, once each.
fn groups_of(ms: &Vec<Membership>, id: &String) -> (res: Vec<String>)
    requires
        membership_pairs(ms@).no_duplicates(),
    ensures
        string_views(res@).no_duplicates(),
        forall|c: Seq<char>| #[trigger] string_views(res@).contains(c) <==> membership_pairs(ms@).contains((id@, c)),
{
    let ghost pairs = membership_pairs(ms@);
    let mut res: Vec<String> = Vec::new();
    let mut i: usize = 0;
    while i < ms.len()
        invariant
            i <= ms@.len(),
            pairs == membership_pairs(ms@),
            pairs.no_duplicates(),
            string_views(res@).no_duplicates(),
            forall|c: Seq<char>| #[trigger] string_views(res@).contains(c) <==> exists|j: int| 0 <= j < i && pairs[j] == (id@, c),
        decreases ms.len() - i,
    {
        let ghost before = string_views(res@);
        if ms[i].connection_id == *id {
            let ghost c = ms@[i as int].group@;
            assert(pairs[i as int] == (id@, c));
            assert(!before.contains(c)) by {
                if before.contains(c) {
                    let j = choose|j: int| 0 <= j < i && pairs[j] == (id@, c);
                    assert(pairs[j] == pairs[i as int]);
                }
            }
            res.push(ms[i].group.clone());
            assert(string_views(res@) =~= before.push(c));
            assert forall|c2: Seq<char>| #[trigger] string_views(res@).contains(c2) <==> exists|j: int| 0 <= j < i + 1 && pairs[j] == (id@, c2) by {
                if string_views(res@).contains(c2) && c2 != c {
                    let k = choose|k: int| 0 <= k < string_views(res@).len() && string_views(res@)[k] == c2;
                    assert(before[k] == c2);
                    assert(before.contains(c2));
                }
                if exists|j: int| 0 <= j < i + 1 && pairs[j] == (id@, c2) {
                    let j = choose|j: int| 0 <= j < i + 1 && pairs[j] == (id@, c2);
                    if j < i {
                        assert(before.contains(c2));
                        let k = choose|k: int| 0 <= k < before.len() && before[k] == c2;
                        assert(string_views(res@)[k] == c2);
                    } else {
                        assert(string_views(res@)[string_views(res@).len() - 1] == c2);
                    }
                }
            }
        } else {
            assert forall|c2: Seq<char>| #[trigger] string_views(res@).contains(c2) <==> exists|j: int| 0 <= j < i + 1 && pairs[j] == (id@, c2) by {
                if exists|j: int| 0 <= j < i + 1 && pairs[j] == (id@, c2) {
                    let j = choose|j: int| 0 <= j < i + 1 && pairs[j] == (id@, c2);
                    assert(j != i);
                }
            }
        }
        i += 1;
    }
    res
}

/// The groups that connection `connection_id` belongs to in `v`.
pub open spec fn connection_groups(v: HubView, connection_id: Seq<char>) -> Set<Seq<char>> {
    Set::new(|g: Seq<char>| v.memberships.contains((connection_id, g)))
}

/// One group as an inspection of the hub shows it.
pub struct GroupInspection {
    pub group: String,
    pub member_count: usize,
    pub members: Vec<String>,
}

/// One connection as an inspection of the hub shows it: who it acts as and
/// the groups it belongs to.
pub struct ConnectionInspection {
    pub connection_id: String,
    pub actor: EventActor,
    pub groups: Vec<String>,
}

/// A snapshot of the hub: its connections and groups.
pub struct HubInspection {
    pub total_connections: usize,
    pub total_groups: usize,
    pub groups: Vec<GroupInspection>,
    pub connections: Vec<ConnectionInspection>,
}

/// Whether `gi` shows group `gi.group` of `v` truly: its members, once each,
/// and their number.
pub open spec fn is_group_inspection(gi: GroupInspection, v: HubView) -> bool {
    &&& string_views(gi.members@).no_duplicates()
    &&& string_views(gi.members@).to_set() == group_members(v, gi.group@)
    &&& gi.member_count == group_members(v, gi.group@).len()
}

/// Whether `ci` shows connected peer `ci.connection_id` of `v` truly: its
/// actor, and its groups once each.
pub open spec fn is_connection_inspection(ci: ConnectionInspection, v: HubView) -> bool {
    &&& v.peers.dom().contains(ci.connection_id@)
    &&& is_actor_of(ci.actor, ci.connection_id@, v.peers[ci.connection_id@])
    &&& string_views(ci.groups@).no_duplicates()
    &&& string_views(ci.groups@).to_set() == connection_groups(v, ci.connection_id@)
}

/// The group names of `gs`.
pub open spec fn inspected_groups(gs: Seq<GroupInspection>) -> Seq<Seq<char>> {
    gs.map_values(|g: GroupInspection| g.group@)
}

/// The connection ids of `cs`.
pub open spec fn inspected_connections(cs: Seq<ConnectionInspection>) -> Seq<Seq<char>> {
    cs.map_values(|c: ConnectionInspection| c.connection_id@)
}

impl HubState {
    /// Group `group` as an inspection shows it.
    fn group_inspection(&self, group: &String) -> (res: GroupInspection)
        requires
            self.wf(),
        ensures
            res.group@ == group@,
            is_group_inspection(res, self@),
    {
        let members = members_of(&self.memberships, group);
        proof {
            string_views(members@).unique_seq_to_set();
            assert(string_views(members@).to_set() =~= group_members(self@, group@));
        }
        GroupInspection { group: group.clone(), member_count: members.len(), members }
    }

    /// The peer at index `i` as an inspection shows it.
    fn connection_inspection(&self, i: usize) -> (res: ConnectionInspection)
        requires
            self.wf(),
            i < self.peers@.len(),
        ensures
            res.connection_id@ == peer_ids(self.peers@)[i as int],
            is_connection_inspection(res, self@),
    {
        let id = self.peers[i].connection_id.clone();
        let groups = groups_of(&self.memberships, &id);
        proof {
            assert(peer_ids(self.peers@)[i as int] == id@);
            lemma_index_of_unique(peer_ids(self.peers@), i as int);
            assert(string_views(groups@).to_set() =~= connection_groups(self@, id@));
        }
        let actor = actor_for(id.as_str(), &self.peers[i].auth_user);
        ConnectionInspection { connection_id: id, actor, groups }
    }

    /// A snapshot of the hub: the number of connections and of groups, each
    /// group with its members, and each connection with its actor and groups.
    pub fn inspect(&self) -> (res: HubInspection)
        requires
            self.wf(),
        ensures
            res.total_connections == self@.peers.dom().len(),
            res.total_groups == existing_groups(self@).len(),
            inspected_groups(res.groups@).no_duplicates(),
            inspected_groups(res.groups@).to_set() == existing_groups(self@),
            forall|k: int| 0 <= k < res.groups@.len() ==> is_group_inspection(#[trigger] res.groups@[k], self@),
            inspected_connections(res.connections@).no_duplicates(),
            inspected_connections(res.connections@).to_set() == self@.peers.dom(),
            forall|k: int| 0 <= k < res.connections@.len()
                ==> is_connection_inspection(#[trigger] res.connections@[k], self@),
    {
        let names = self.group_names();
        let mut groups: Vec<GroupInspection> = Vec::new();
        let mut k: usize = 0;
        while k < names.len()
            invariant
                self.wf(),
                k <= names@.len(),
                groups@.len() == k,
                forall|j: int| 0 <= j < k ==> (#[trigger] groups@[j]).group@ == names@[j]@
                    && is_group_inspection(groups@[j], self@),
            decreases names.len() - k,
        {
            groups.push(self.group_inspection(&names[k]));
            k += 1;
        }
        proof {
            assert(inspected_groups(groups@) =~= string_views(names@));
            string_views(names@).unique_seq_to_set();
        }
        let mut connections: Vec<ConnectionInspection> = Vec::new();
        let mut i: usize = 0;
        while i < self.peers.len()
            invariant
                self.wf(),
                i <= self.peers@.len(),
                connections@.len() == i,
                forall|j: int| 0 <= j < i ==> (#[trigger] connections@[j]).connection_id@ == peer_ids(self.peers@)[j]
                    && is_connection_inspection(connections@[j], self@),
            decreases self.peers.len() - i,
        {
            connections.push(self.connection_inspection(i));
            i += 1;
        }
        proof {
            assert(inspected_connections(connections@) =~= peer_ids(self.peers@));
            assert(self@.peers.dom() =~= peer_ids(self.peers@).to_set());
        }
        let total_connections = self.peer_count();
        HubInspection { total_connections, total_groups: names.len(), groups, connections }
    }
}

/// The outcome of reserving room in one recipient's outgoing queue.
#[derive(Debug, Clone, Copy, PartialEq, Eq, Structural)]
pub enum Reservation {
    Reserved,
    QueueFull,
    Closed,
}

/// Whether every reservation of `rs` before index `k` succeeded.
pub open spec fn reserved_before(rs: Seq<Reservation>, k: int) -> bool {
    forall|j: int| 0 <= j < k ==> #[trigger] rs[j] == Reservation::Reserved
}

/// The result of delivering one message to `recipients`, given the outcomes
/// of reserving room in their queues, in order (reserving stops at the first
/// failure): the number delivered when every reservation succeeded, else the
/// error of the first failure, a full queue naming its connection.
pub fn delivery_outcome(recipients: &Vec<String>, reservations: &Vec<Reservation>) -> (res: Result<usize, WebSocketError>)
    requires
        reservations@.len() <= recipients@.len(),
    ensures
        reserved_before(reservations@, reservations@.len() as int) ==> res == Ok::<usize, WebSocketError>(reservations@.len() as usize),
        forall|k: int| 0 <= k < reservations@.len() && reserved_before(reservations@, k)
            && #[trigger] reservations@[k] == Reservation::QueueFull ==> (
            res matches Err(WebSocketError::OutboundQueueFull { connection_id }) && connection_id@ == recipients@[k]@),
        forall|k: int| 0 <= k < reservations@.len() && reserved_before(reservations@, k)
            && #[trigger] reservations@[k] == Reservation::Closed ==> res matches Err(WebSocketError::ConnectionNotFound),
{
    let mut i: usize = 0;
    while i < reservations.len()
        invariant
            i <= reservations@.len() <= recipients@.len(),
            reserved_before(reservations@, i as int),
        decreases reservations.len() - i,
    {
        match reservations[i] {
            Reservation::Reserved => {},
            Reservation::QueueFull => {
                proof {
                    assert forall|k: int| 0 <= k < reservations@.len() && reserved_before(reservations@, k)
                        && #[trigger] reservations@[k] != Reservation::Reserved implies k == i by {
                        if k < i {
                        } else if k > i {
                            assert(reservations@[i as int] == Reservation::Reserved);
                        }
                    }
                }
                return Err(WebSocketError::OutboundQueueFull { connection_id: recipients[i].clone() });
            },
            Reservation::Closed => {
                proof {
                    assert forall|k: int| 0 <= k < reservations@.len() && reserved_before(reservations@, k)
                        && #[trigger] reservations@[k] != Reservation::Reserved implies k == i by {
                        if k > i {
                            assert(reservations@[i as int] == Reservation::Reserved);
                        }
                    }
                }
                return Err(WebSocketError::ConnectionNotFound);
            },
        }
        i += 1;
    }
    Ok(reservations.len())
}

/// What a session does after a client message: reply to the sender, or
/// deliver a message to recipients (through their queues, all or none).
pub enum SessionAction {
    Reply(ServerMessage),
    Deliver { recipients: Vec<String>, message: ServerMessage },
}

/// Whether `id` may name a direct message's target: 1 to 128 characters,
/// none of them white space.
pub open spec fn is_valid_connection_id(id: Seq<char>) -> bool {
    &&& 0 < id.len() <= 128
    &&& forall|i: int| 0 <= i < id.len() ==> !is_space(#[trigger] id[i])
}

/// Whether `id` may name a direct message's target (see [`is_valid_connection_id`]).
pub fn connection_id_is_valid(id: &str) -> (res: bool)
    ensures
        res == is_valid_connection_id(id@),
{
    let chars = chars_of(id);
    if chars.len() == 0 || chars.len() > 128 {
        return false;
    }
    let mut i: usize = 0;
    while i < chars.len()
        invariant
            i <= chars@.len(),
            chars@ == id@,
            forall|j: int| 0 <= j < i ==> !is_space(#[trigger] chars@[j]),
        decreases chars.len() - i,
    {
        if char_is_space(chars[i]) {
            return false;
        }
        i += 1;
    }
    true
}

/// Whether `a` replies with the error message of `e`.
pub open spec fn replies_error(a: SessionAction, e: WebSocketError) -> bool {
    a matches SessionAction::Reply(ServerMessage::Error { code, message })
        && code@ == crate::websocket::server::error_code(e) && message@ == crate::websocket::server::error_text(e)
}

/// Whether `a` replies with the error message for an unknown group `group`.
pub open spec fn replies_group_not_found(a: SessionAction, group: Seq<char>) -> bool {
    a matches SessionAction::Reply(ServerMessage::Error { code, message })
        && code@ == "group_not_found"@ && message@ == "group '"@ + group + "' not found"@
}

/// Whether `a` replies with the error message for a sender outside group `group`.
pub open spec fn replies_not_in_group(a: SessionAction, group: Seq<char>) -> bool {
    a matches SessionAction::Reply(ServerMessage::Error { code, message })
        && code@ == "not_in_group"@ && message@ == "connection is not in group '"@ + group + "'"@
}

/// What handling `message` from connection `connection_id` at `timestamp`
/// does: the hub goes from `before` to `after`, and `res` is what the
/// session does next. `join` and `leave` change the sender's memberships
/// and are acknowledged, `ping` is answered with `pong`, `event` goes to
/// every member of the group, `direct` goes to the target connection, and a
/// refused request is answered with its error, the hub unchanged.
pub open spec fn message_outcome(
    before: HubView,
    after: HubView,
    connection_id: Seq<char>,
    message: ClientMessage,
    timestamp: String,
    res: SessionAction,
) -> bool {
    match message {
        ClientMessage::Join { group } => {
            &&& !is_valid_name(group@) ==> after == before && replies_error(res, WebSocketError::InvalidGroup)
            &&& is_valid_name(group@) && !before.peers.dom().contains(connection_id) ==>
                after == before && replies_error(res, WebSocketError::ConnectionNotFound)
            &&& is_valid_name(group@) && before.peers.dom().contains(connection_id) ==> {
                &&& after.peers == before.peers
                &&& after.memberships == before.memberships.insert((connection_id, group@))
                &&& res matches SessionAction::Reply(ServerMessage::Joined { group: g }) && g@ == group@
            }
        },
        ClientMessage::Leave { group } => {
            &&& !is_valid_name(group@) ==> after == before && replies_error(res, WebSocketError::InvalidGroup)
            &&& is_valid_name(group@) && !before.peers.dom().contains(connection_id) ==>
                after == before && replies_error(res, WebSocketError::ConnectionNotFound)
            &&& is_valid_name(group@) && before.peers.dom().contains(connection_id) ==> {
                &&& after.peers == before.peers
                &&& after.memberships == before.memberships.remove((connection_id, group@))
                &&& res matches SessionAction::Reply(ServerMessage::Left { group: g }) && g@ == group@
            }
        },
        ClientMessage::Event { group, event, payload } => {
            &&& after == before
            &&& !is_valid_name(group@) ==> replies_error(res, WebSocketError::InvalidGroup)
            &&& is_valid_name(group@) && !is_valid_name(event@) ==> replies_error(res, WebSocketError::InvalidEvent)
            &&& is_valid_name(group@) && is_valid_name(event@) && !group_exists(before, group@)
                ==> replies_group_not_found(res, group@)
            &&& is_valid_name(group@) && is_valid_name(event@) && group_exists(before, group@)
                && !before.memberships.contains((connection_id, group@)) ==> replies_not_in_group(res, group@)
            &&& is_valid_name(group@) && is_valid_name(event@)
                && before.memberships.contains((connection_id, group@)) ==> {
                &&& res matches SessionAction::Deliver { recipients, message: ServerMessage::Event {
                    group: g, event: e, payload: p, from, timestamp: t } }
                &&& string_views(recipients@).no_duplicates()
                &&& string_views(recipients@).to_set() == group_members(before, group@)
                &&& g@ == group@ && e@ == event@ && p == payload && t == timestamp
                &&& is_actor_of(from, connection_id, before.peers[connection_id])
            }
        },
        ClientMessage::Direct { to_connection_id, event, payload } => {
            &&& after == before
            &&& !is_valid_name(event@) ==> replies_error(res, WebSocketError::InvalidEvent)
            &&& is_valid_name(event@) && !(is_valid_connection_id(to_connection_id@)
                && before.peers.dom().contains(connection_id)
                && before.peers.dom().contains(to_connection_id@)) ==> replies_error(res, WebSocketError::ConnectionNotFound)
            &&& is_valid_name(event@) && is_valid_connection_id(to_connection_id@)
                && before.peers.dom().contains(connection_id)
                && before.peers.dom().contains(to_connection_id@) ==> {
                &&& res matches SessionAction::Deliver { recipients, message: ServerMessage::Direct {
                    from_connection_id: f, event: e, payload: p, from, timestamp: t } }
                &&& string_views(recipients@) == seq![to_connection_id@]
                &&& f@ == connection_id && e@ == event@ && p == payload && t == timestamp
                &&& is_actor_of(from, connection_id, before.peers[connection_id])
            }
        },
        ClientMessage::Ping { nonce } => {
            &&& after == before
            &&& res matches SessionAction::Reply(ServerMessage::Pong { nonce: n }) && n == nonce
        },
    }
}

impl HubState {
    /// Handles one message from connection `connection_id`, at `timestamp`:
    /// `join` and `leave` change its memberships and are acknowledged,
    /// `ping` is answered with `pong`, `event` goes to every member of the
    /// group, `direct` goes to the target connection, and a refused request
    /// is answered with its error.
    pub fn process_client_message(&mut self, connection_id: &str, message: ClientMessage, timestamp: String) -> (res: SessionAction)
        requires
            old(self).wf(),
        ensures
            final(self).wf(),
            message_outcome(old(self)@, final(self)@, connection_id@, message, timestamp, res),
    {
        match message {
            ClientMessage::Join { group } => {
                match self.join_group(connection_id, group.as_str()) {
                    Ok(()) => SessionAction::Reply(ServerMessage::Joined { group }),
                    Err(e) => SessionAction::Reply(e.to_server_message()),
                }
            },
            ClientMessage::Leave { group } => {
                match self.leave_group(connection_id, group.as_str()) {
                    Ok(()) => SessionAction::Reply(ServerMessage::Left { group }),
                    Err(e) => SessionAction::Reply(e.to_server_message()),
                }
            },
            ClientMessage::Event { group, event, payload } => {
                match self.emit_plan(connection_id, group.as_str(), event.as_str()) {
                    Ok((recipients, actor)) => SessionAction::Deliver {
                        recipients,
                        message: ServerMessage::Event { group, event, payload, from: actor, timestamp },
                    },
                    Err(e) => SessionAction::Reply(e.to_server_message()),
                }
            },
            ClientMessage::Direct { to_connection_id, event, payload } => {
                match validate_event_name(event.as_str()) {
                    Err(e) => {
                        return SessionAction::Reply(e.to_server_message());
                    },
                    Ok(()) => {},
                }
                if !connection_id_is_valid(to_connection_id.as_str()) || !self.has_peer(to_connection_id.as_str()) {
                    return SessionAction::Reply(WebSocketError::ConnectionNotFound.to_server_message());
                }
                match self.peer_actor(connection_id) {
                    Some(actor) => {
                        let mut recipients: Vec<String> = Vec::new();
                        recipients.push(to_connection_id);
                        assert(string_views(recipients@) =~= seq![to_connection_id@]);
                        SessionAction::Deliver {
                            recipients,
                            message: ServerMessage::Direct {
                                from_connection_id: String::from_str(connection_id),
                                event,
                                payload,
                                from: actor,
                                timestamp,
                            },
                        }
                    },
                    None => SessionAction::Reply(WebSocketError::ConnectionNotFound.to_server_message()),
                }
            },
            ClientMessage::Ping { nonce } => SessionAction::Reply(ServerMessage::Pong { nonce }),
        }
    }
}

/// Joining a group and then leaving it restores the memberships, when the
/// connection was not a member before: in particular the member count comes
/// back to what it was.
pub proof fn lemma_join_then_leave(v: HubView, connection_id: Seq<char>, group: Seq<char>)
    requires
        !v.memberships.contains((connection_id, group)),
    ensures
        v.memberships.insert((connection_id, group)).remove((connection_id, group)) == v.memberships,
        group_members(HubView { memberships: v.memberships.insert((connection_id, group)), ..v }, group)
            == group_members(v, group).insert(connection_id),
{
    assert(v.memberships.insert((connection_id, group)).remove((connection_id, group)) =~= v.memberships);
    assert(group_members(HubView { memberships: v.memberships.insert((connection_id, group)), ..v }, group)
        =~= group_members(v, group).insert(connection_id));
}

/// After a connection is removed it is a member of no group, and every other
/// membership stays.
pub proof fn lemma_unregister_clears_memberships(v: HubView, connection_id: Seq<char>, group: Seq<char>, other: Seq<char>)
    requires
        other != connection_id,
    ensures
        !group_members(HubView {
            memberships: v.memberships.filter(|p: (Seq<char>, Seq<char>)| p.0 != connection_id),
            ..v
        }, group).contains(connection_id),
        group_members(HubView {
            memberships: v.memberships.filter(|p: (Seq<char>, Seq<char>)| p.0 != connection_id),
            ..v
        }, group).contains(other) == group_members(v, group).contains(other),
{
}

/// A group exists exactly while it has a member.
pub proof fn lemma_group_exists_iff_members(v: HubView, group: Seq<char>)
    ensures
        group_exists(v, group) <==> group_members(v, group) != Set::<Seq<char>>::empty(),
{
    if group_exists(v, group) {
        let c = choose|c: Seq<char>| v.memberships.contains((c, group));
        assert(group_members(v, group).contains(c));
    } else {
        assert(group_members(v, group) =~= Set::<Seq<char>>::empty());
    }
}

/// The hub `v` with connection `connection_id` and all its memberships removed.
pub open spec fn without_connection(v: HubView, connection_id: Seq<char>) -> HubView {
    HubView {
        peers: v.peers.remove(connection_id),
        memberships: v.memberships.filter(|p: (Seq<char>, Seq<char>)| p.0 != connection_id),
    }
}

/// A frame as a session reads it.
pub enum SessionFrame {
    /// A data frame of framing `format` (text for JSON, binary for
    /// MessagePack), with the message it decodes to in that framing, or the
    /// decoder's error text.
    Data { format: WebSocketFrameFormat, decoded: Result<ClientMessage, String> },
    /// A ping or a pong.
    Control,
    /// A close frame or a failed read: nothing more comes.
    End,
}

/// What a session does after one frame.
pub enum SessionStep {
    /// Carry out the action, then read the next frame.
    Act(SessionAction),
    /// Read the next frame.
    Ignore,
    /// Send the message to this connection, then close it: it has already
    /// left the hub.
    CloseWith(ServerMessage),
    /// Close the connection: it has already left the hub.
    Close,
}

/// The error code for a data frame that does not decode in framing `format`.
pub open spec fn decode_error_code(format: WebSocketFrameFormat) -> Seq<char> {
    match format {
        WebSocketFrameFormat::TextJson => "invalid_json"@,
        WebSocketFrameFormat::BinaryMessagePack => "invalid_binary"@,
    }
}

/// The error text for a data frame that does not decode in framing
/// `format`, the decoder having said `detail`.
pub open spec fn decode_error_text(format: WebSocketFrameFormat, detail: Seq<char>) -> Seq<char> {
    match format {
        WebSocketFrameFormat::TextJson => "Failed to parse JSON message: "@ + detail,
        WebSocketFrameFormat::BinaryMessagePack => "Failed to parse MessagePack frame: "@ + detail,
    }
}

/// The error message for a data frame that does not decode in framing
/// `format`, the decoder having said `detail`.
pub fn decode_error_message(format: WebSocketFrameFormat, detail: &str) -> (res: ServerMessage)
    ensures
        res matches ServerMessage::Error { code, message }
            && code@ == decode_error_code(format) && message@ == decode_error_text(format, detail@),
{
    match format {
        WebSocketFrameFormat::TextJson => {
            let mut message = String::from_str("Failed to parse JSON message: ");
            message.append(detail);
            ServerMessage::Error { code: String::from_str("invalid_json"), message }
        },
        WebSocketFrameFormat::BinaryMessagePack => {
            let mut message = String::from_str("Failed to parse MessagePack frame: ");
            message.append(detail);
            ServerMessage::Error { code: String::from_str("invalid_binary"), message }
        },
    }
}

impl HubState {
    /// One step of the session of connection `connection_id`, whose framing
    /// was settled as `negotiated` at the handshake, on reading `frame` at
    /// `timestamp`. A data frame of the other framing is not processed: the
    /// connection leaves the hub and is closed after a `frame_format_mismatch`
    /// error. A data frame of the settled framing is handled as its message
    /// says, or answered with a decoding error. Pings and pongs change
    /// nothing, and at the end of the stream the connection leaves the hub.
    pub fn session_step(
        &mut self,
        connection_id: &str,
        negotiated: WebSocketFrameFormat,
        frame: SessionFrame,
        timestamp: String,
    ) -> (res: SessionStep)
        requires
            old(self).wf(),
        ensures
            final(self).wf(),
            match frame {
                SessionFrame::Data { format, decoded } => {
                    &&& format != negotiated ==> {
                        &&& final(self)@ == without_connection(old(self)@, connection_id@)
                        &&& res matches SessionStep::CloseWith(ServerMessage::Error { code, message })
                            && code@ == "frame_format_mismatch"@
                            && message@ == "frame format does not match the negotiated subprotocol"@
                    }
                    &&& format == negotiated ==> match decoded {
                        Ok(message) => res matches SessionStep::Act(a)
                            && message_outcome(old(self)@, final(self)@, connection_id@, message, timestamp, a),
                        Err(detail) => {
                            &&& final(self)@ == old(self)@
                            &&& res matches SessionStep::Act(SessionAction::Reply(ServerMessage::Error { code, message }))
                                && code@ == decode_error_code(format) && message@ == decode_error_text(format, detail@)
                        },
                    }
                },
                SessionFrame::Control => final(self)@ == old(self)@ && res is Ignore,
                SessionFrame::End => final(self)@ == without_connection(old(self)@, connection_id@) && res is Close,
            },
    {
        match frame {
            SessionFrame::Data { format, decoded } => {
                match check_frame_format(negotiated, format) {
                    Some(mismatch) => {
                        self.unregister(connection_id);
                        proof {
                            assert(self@ =~= without_connection(old(self)@, connection_id@));
                        }
                        SessionStep::CloseWith(mismatch)
                    },
                    None => match decoded {
                        Ok(message) => SessionStep::Act(self.process_client_message(connection_id, message, timestamp)),
                        Err(detail) => SessionStep::Act(SessionAction::Reply(decode_error_message(format, detail.as_str()))),
                    },
                }
            },
            SessionFrame::Control => SessionStep::Ignore,
            SessionFrame::End => {
                self.unregister(connection_id);
                proof {
                    assert(self@ =~= without_connection(old(self)@, connection_id@));
                }
                SessionStep::Close
            },
        }
    }
}

} // verus!
