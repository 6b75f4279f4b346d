//! Who is in the room, and whose traffic currently fails to decrypt.

use crate::peer::PeerId;
use vstd::prelude::*;

verus! {

/// The name shown for a peer that never announced itself.
pub const UNKNOWN_NAME: &'static str = "Unknown";

/// One registered peer.
struct PeerEntry {
    id: PeerId,
    name: String,
}

/// The peer registry: the display name under which each known peer
/// announced itself.
pub struct ChatState {
    users: Vec<PeerEntry>,
}

spec fn has_id(users: Seq<PeerEntry>, i: int, id: Seq<u8>) -> bool {
    0 <= i < users.len() && users[i].id@ == id
}

spec fn distinct_ids(users: Seq<PeerEntry>) -> bool {
    forall|i: int, j: int|
        0 <= i < users.len() && 0 <= j < users.len() && i != j ==> #[trigger] users[i].id@
            != #[trigger] users[j].id@
}

spec fn users_map(users: Seq<PeerEntry>) -> Map<Seq<u8>, Seq<char>> {
    Map::new(
        |id: Seq<u8>| exists|i: int| has_id(users, i, id),
        |id: Seq<u8>| users[choose|i: int| has_id(users, i, id)].name@,
    )
}

proof fn lemma_users_map_at(users: Seq<PeerEntry>, i: int)
    requires
        distinct_ids(users),
        0 <= i < users.len(),
    ensures
        users_map(users).contains_key(users[i].id@),
        users_map(users)[users[i].id@] == users[i].name@,
{
    let id = users[i].id@;
    assert(has_id(users, i, id));
    let j = choose|j: int| has_id(users, j, id);
    assert(has_id(users, j, id));
    assert(i == j);
}

proof fn lemma_users_map_absent(users: Seq<PeerEntry>, id: Seq<u8>)
    requires
        forall|i: int| 0 <= i < users.len() ==> (#[trigger] users[i]).id@ != id,
    ensures
        !users_map(users).contains_key(id),
{
    assert forall|i: int| !has_id(users, i, id) by {
        if 0 <= i < users.len() {
            assert(users[i].id@ != id);
        }
    }
}

proof fn lemma_users_map_remove(users: Seq<PeerEntry>, i: int)
    requires
        distinct_ids(users),
        0 <= i < users.len(),
    ensures
        distinct_ids(users.remove(i)),
        users_map(users.remove(i)) == users_map(users).remove(users[i].id@),
{
    let rest = users.remove(i);
    let gone = users[i].id@;
    assert forall|a: int, b: int| 0 <= a < rest.len() && 0 <= b < rest.len() && a != b implies rest[a].id@
        != rest[b].id@ by {
        let a0 = if a < i { a } else { a + 1 };
        let b0 = if b < i { b } else { b + 1 };
        assert(rest[a] == users[a0]);
        assert(rest[b] == users[b0]);
    }
    assert forall|id: Seq<u8>| #[trigger]
        users_map(rest).contains_key(id) == users_map(users).remove(gone).contains_key(id) by {
        if users_map(rest).contains_key(id) {
            let a = choose|a: int| has_id(rest, a, id);
            let a0 = if a < i { a } else { a + 1 };
            assert(rest[a] == users[a0]);
            assert(has_id(users, a0, id));
            assert(users[a0].id@ != users[i].id@);
        }
        if users_map(users).remove(gone).contains_key(id) {
            let a0 = choose|a0: int| has_id(users, a0, id);
            let a = if a0 < i { a0 } else { a0 - 1 };
            assert(rest[a] == users[a0]);
            assert(has_id(rest, a, id));
        }
    }
    assert forall|id: Seq<u8>| users_map(rest).contains_key(id) implies #[trigger] users_map(rest)[id]
        == users_map(users).remove(gone)[id] by {
        let a = choose|a: int| has_id(rest, a, id);
        let a0 = if a < i { a } else { a + 1 };
        assert(rest[a] == users[a0]);
        lemma_users_map_at(users, a0);
    }
    assert(users_map(rest) =~= users_map(users).remove(gone));
}

proof fn lemma_users_map_push(users: Seq<PeerEntry>, entry: PeerEntry)
    requires
        distinct_ids(users),
        !users_map(users).contains_key(entry.id@),
    ensures
        distinct_ids(users.push(entry)),
        users_map(users.push(entry)) == users_map(users).insert(entry.id@, entry.name@),
{
    let more = users.push(entry);
    let last = users.len() as int;
    assert forall|a: int, b: int| 0 <= a < more.len() && 0 <= b < more.len() && a != b implies more[a].id@
        != more[b].id@ by {
        if a < last {
            assert(more[a] == users[a]);
            if more[a].id@ == entry.id@ {
                assert(has_id(users, a, entry.id@));
            }
        }
        if b < last {
            assert(more[b] == users[b]);
            if more[b].id@ == entry.id@ {
                assert(has_id(users, b, entry.id@));
            }
        }
    }
    assert forall|id: Seq<u8>| #[trigger]
        users_map(more).contains_key(id) == users_map(users).insert(
            entry.id@,
            entry.name@,
        ).contains_key(id) by {
        if users_map(more).contains_key(id) {
            let a = choose|a: int| has_id(more, a, id);
            if a < last {
                assert(more[a] == users[a]);
                assert(has_id(users, a, id));
            }
        }
        if users_map(users).contains_key(id) {
            let a = choose|a: int| has_id(users, a, id);
            assert(more[a] == users[a]);
            assert(has_id(more, a, id));
        }
        if id == entry.id@ {
            assert(has_id(more, last, id));
        }
    }
    assert forall|id: Seq<u8>| users_map(more).contains_key(id) implies #[trigger] users_map(more)[id]
        == users_map(users).insert(entry.id@, entry.name@)[id] by {
        let a = choose|a: int| has_id(more, a, id);
        lemma_users_map_at(more, a);
        if a < last {
            assert(more[a] == users[a]);
            lemma_users_map_at(users, a);
        }
    }
    assert(users_map(more) =~= users_map(users).insert(entry.id@, entry.name@));
}

impl View for ChatState {
    type V = Map<Seq<u8>, Seq<char>>;

    closed spec fn view(&self) -> Map<Seq<u8>, Seq<char>> {
        users_map(self.users@)
    }
}

/// The name that the registry shows for a peer.
pub open spec fn resolved_name(users: Map<Seq<u8>, Seq<char>>, id: Seq<u8>) -> Seq<char> {
    if users.contains_key(id) {
        users[id]
    } else {
        UNKNOWN_NAME@
    }
}

/// What a lookup in the registry finds for a peer.
pub open spec fn registered_name(users: Map<Seq<u8>, Seq<char>>, id: Seq<u8>) -> Option<Seq<char>> {
    if users.contains_key(id) {
        Some(users[id])
    } else {
        None
    }
}

/// The view of an optional name.
pub open spec fn name_view(name: Option<String>) -> Option<Seq<char>> {
    match name {
        Some(name) => Some(name@),
        None => None,
    }
}

impl ChatState {
    #[verifier::type_invariant]
    spec fn well_formed(self) -> bool {
        distinct_ids(self.users@)
    }

    /// An empty registry.
    pub fn new() -> (state: ChatState)
        ensures
            state@ == Map::<Seq<u8>, Seq<char>>::empty(),
    {
        let state = ChatState { users: Vec::new() };
        proof {
            assert(users_map(state.users@) =~= Map::<Seq<u8>, Seq<char>>::empty()) by {
                assert forall|id: Seq<u8>| !users_map(state.users@).contains_key(id) by {
                    lemma_users_map_absent(state.users@, id);
                }
            }
        }
        state
    }

    fn position(&self, author: &PeerId) -> (found: Option<usize>)
        ensures
            match found {
                Some(i) => i < self.users@.len() && self.users@[i as int].id@ == author@,
                None => !self@.contains_key(author@),
            },
    {
        let mut i: usize = 0;
        while i < self.users.len()
            invariant
                i <= self.users@.len(),
                forall|k: int| 0 <= k < i ==> (#[trigger] self.users@[k]).id@ != author@,
            decreases self.users@.len() - i,
        {
            if self.users[i].id.same(author) {
                return Some(i);
            }
            i += 1;
        }
        proof {
            lemma_users_map_absent(self.users@, author@);
        }
        None
    }

    /// Registers `name` for `author`, replacing and returning the name that
    /// was registered before, if any.
    pub fn update_user(&mut self, author: PeerId, name: String) -> (previous: Option<String>)
        ensures
            final(self)@ == old(self)@.insert(author@, name@),
            name_view(previous) == registered_name(old(self)@, author@),
    {
        proof {
            use_type_invariant(&*self);
        }
        let found = self.position(&author);
        let ghost before = self.users@;
        let entry = PeerEntry { id: author, name };
        let mut users: Vec<PeerEntry> = Vec::new();
        core::mem::swap(&mut self.users, &mut users);
        match found {
            Some(i) => {
                let gone = users.remove(i);
                proof {
                    lemma_users_map_at(before, i as int);
                    lemma_users_map_remove(before, i as int);
                    lemma_users_map_push(before.remove(i as int), entry);
                    assert(users_map(before).remove(author@).insert(author@, entry.name@) =~= users_map(
                        before,
                    ).insert(author@, entry.name@));
                }
                users.push(entry);
                self.users = users;
                Some(gone.name)
            },
            None => {
                proof {
                    lemma_users_map_push(before, entry);
                }
                users.push(entry);
                self.users = users;
                None
            },
        }
    }

    /// The name registered for `author`, or `"Unknown"` for a peer that
    /// never announced itself.
    pub fn resolve_name(&self, author: PeerId) -> (name: &str)
        ensures
            name@ == resolved_name(self@, author@),
    {
        proof {
            use_type_invariant(self);
        }
        match self.position(&author) {
            Some(i) => {
                proof {
                    lemma_users_map_at(self.users@, i as int);
                }
                self.users[i].name.as_str()
            },
            None => UNKNOWN_NAME,
        }
    }

    /// Forgets `author`, returning the name that was registered, if any.
    pub fn remove_user(&mut self, author: &PeerId) -> (removed: Option<String>)
        ensures
            final(self)@ == old(self)@.remove(author@),
            name_view(removed) == registered_name(old(self)@, author@),
    {
        proof {
            use_type_invariant(&*self);
        }
        let found = self.position(author);
        let ghost before = self.users@;
        match found {
            Some(i) => {
                let mut users: Vec<PeerEntry> = Vec::new();
                core::mem::swap(&mut self.users, &mut users);
                let gone = users.remove(i);
                proof {
                    lemma_users_map_at(before, i as int);
                    lemma_users_map_remove(before, i as int);
                }
                self.users = users;
                Some(gone.name)
            },
            None => {
                proof {
                    assert(users_map(before).remove(author@) =~= users_map(before));
                }
                None
            },
        }
    }
}

impl Default for ChatState {
    fn default() -> (state: ChatState)
        ensures
            state@ == Map::<Seq<u8>, Seq<char>>::empty(),
    {
        ChatState::new()
    }
}

/// The registry never fails a lookup, and a second registration replaces
/// the first: a peer that is not registered resolves to `"Unknown"`; once
/// a peer is registered under one name and then under another, the second
/// registration finds the first name, and the peer resolves to the second.
pub proof fn lemma_registry_replaces(
    users: Map<Seq<u8>, Seq<char>>,
    peer: Seq<u8>,
    first: Seq<char>,
    second: Seq<char>,
)
    ensures
        !users.contains_key(peer) ==> resolved_name(users, peer) == UNKNOWN_NAME@,
        registered_name(users.insert(peer, first), peer) == Some(first),
        resolved_name(users.insert(peer, first).insert(peer, second), peer) == second,
        resolved_name(users.insert(peer, first).remove(peer), peer) == UNKNOWN_NAME@,
{
}

/// The peers whose traffic currently fails to decrypt.
pub struct Quarantine {
    peers: Vec<PeerId>,
}

spec fn distinct_peers(peers: Seq<PeerId>) -> bool {
    forall|i: int, j: int|
        0 <= i < peers.len() && 0 <= j < peers.len() && i != j ==> #[trigger] peers[i]@
            != #[trigger] peers[j]@
}

spec fn peers_set(peers: Seq<PeerId>) -> Set<Seq<u8>> {
    Set::new(|id: Seq<u8>| exists|i: int| 0 <= i < peers.len() && #[trigger] peers[i]@ == id)
}

impl View for Quarantine {
    type V = Set<Seq<u8>>;

    closed spec fn view(&self) -> Set<Seq<u8>> {
        peers_set(self.peers@)
    }
}

impl Quarantine {
    #[verifier::type_invariant]
    spec fn well_formed(self) -> bool {
        distinct_peers(self.peers@)
    }

    /// No peer is failing.
    pub fn new() -> (q: Quarantine)
        ensures
            q@ == Set::<Seq<u8>>::empty(),
    {
        let q = Quarantine { peers: Vec::new() };
        assert(peers_set(q.peers@) =~= Set::<Seq<u8>>::empty());
        q
    }

    fn position(&self, peer: &PeerId) -> (found: Option<usize>)
        ensures
            match found {
                Some(i) => i < self.peers@.len() && self.peers@[i as int]@ == peer@,
                None => !self@.contains(peer@),
            },
    {
        let mut i: usize = 0;
        while i < self.peers.len()
            invariant
                i <= self.peers@.len(),
                forall|k: int| 0 <= k < i ==> (#[trigger] self.peers@[k])@ != peer@,
            decreases self.peers@.len() - i,
        {
            if self.peers[i].same(peer) {
                return Some(i);
            }
            i += 1;
        }
        None
    }

    /// Whether the peer is currently failing.
    pub fn is_failing(&self, peer: &PeerId) -> (failing: bool)
        ensures
            failing == self@.contains(peer@),
    {
        self.position(peer).is_some()
    }

    /// Marks the peer as failing. Returns `true` only if it was not failing
    /// before: on the first failure since its last success.
    pub fn record_failure(&mut self, peer: PeerId) -> (first: bool)
        ensures
            final(self)@ == old(self)@.insert(peer@),
            first == !old(self)@.contains(peer@),
    {
        proof {
            use_type_invariant(&*self);
        }
        let ghost before = self.peers@;
        match self.position(&peer) {
            Some(i) => {
                assert(peers_set(before).insert(peer@) =~= peers_set(before));
                false
            },
            None => {
                let mut peers: Vec<PeerId> = Vec::new();
                core::mem::swap(&mut self.peers, &mut peers);
                peers.push(peer);
                self.peers = peers;
                proof {
                    let after = before.push(peer);
                    assert forall|a: int, b: int|
                        0 <= a < after.len() && 0 <= b < after.len() && a != b implies after[a]@
                        != after[b]@ by {
                        if a < before.len() {
                            assert(after[a] == before[a]);
                        }
                        if b < before.len() {
                            assert(after[b] == before[b]);
                        }
                    }
                    assert forall|id: Seq<u8>| #[trigger]
                        peers_set(after).contains(id) == peers_set(before).insert(peer@).contains(
                            id,
                        ) by {
                        if peers_set(after).contains(id) {
                            let a = choose|a: int| 0 <= a < after.len() && after[a]@ == id;
                            if a < before.len() {
                                assert(after[a] == before[a]);
                            }
                        }
                        if peers_set(before).contains(id) {
                            let a = choose|a: int| 0 <= a < before.len() && before[a]@ == id;
                            assert(after[a] == before[a]);
                        }
                        if id == peer@ {
                            assert(after[before.len() as int]@ == id);
                        }
                    }
                    assert(peers_set(after) =~= peers_set(before).insert(peer@));
                }
                true
            },
        }
    }

    /// Clears the peer's failing mark. Returns `true` only if the peer was
    /// failing: on a recovery.
    pub fn record_success(&mut self, peer: &PeerId) -> (recovered: bool)
        ensures
            final(self)@ == old(self)@.remove(peer@),
            recovered == old(self)@.contains(peer@),
    {
        proof {
            use_type_invariant(&*self);
        }
        let ghost before = self.peers@;
        match self.position(peer) {
            Some(i) => {
                let mut peers: Vec<PeerId> = Vec::new();
                core::mem::swap(&mut self.peers, &mut peers);
                let gone = peers.remove(i);
                self.peers = peers;
                proof {
                    let after = before.remove(i as int);
                    assert forall|a: int, b: int|
                        0 <= a < after.len() && 0 <= b < after.len() && a != b implies after[a]@
                        != after[b]@ by {
                        let a0 = if a < i { a } else { a + 1 };
                        let b0 = if b < i { b } else { b + 1 };
                        assert(after[a] == before[a0]);
                        assert(after[b] == before[b0]);
                    }
                    assert forall|id: Seq<u8>| #[trigger]
                        peers_set(after).contains(id) == peers_set(before).remove(peer@).contains(
                            id,
                        ) by {
                        if peers_set(after).contains(id) {
                            let a = choose|a: int| 0 <= a < after.len() && after[a]@ == id;
                            let a0 = if a < i { a } else { a + 1 };
                            assert(after[a] == before[a0]);
                            assert(before[a0]@ != before[i as int]@);
                        }
                        if peers_set(before).remove(peer@).contains(id) {
                            let a0 = choose|a0: int| 0 <= a0 < before.len() && before[a0]@ == id;
                            let a = if a0 < i { a0 } else { a0 - 1 };
                            assert(after[a] == before[a0]);
                        }
                    }
                    assert(peers_set(after) =~= peers_set(before).remove(peer@));
                }
                true
            },
            None => {
                assert(peers_set(before).remove(peer@) =~= peers_set(before));
                false
            },
        }
    }
}

/// Edge-triggering of the quarantine: of any run of failures of one peer
/// only the first is announced, the success that follows is announced as a
/// recovery, and a further success is not.
pub proof fn lemma_quarantine_edge_triggered(failing: Set<Seq<u8>>, peer: Seq<u8>)
    ensures
        ({
            let first_announced = !failing.contains(peer);
            let after_first = failing.insert(peer);
            let second_announced = !after_first.contains(peer);
            let after_second = after_first.insert(peer);
            let third_announced = !after_second.contains(peer);
            let after_third = after_second.insert(peer);
            let recovery_announced = after_third.contains(peer);
            let after_recovery = after_third.remove(peer);
            let repeat_announced = after_recovery.contains(peer);
            &&& !failing.contains(peer) ==> first_announced
            &&& !second_announced
            &&& !third_announced
            &&& recovery_announced
            &&& !repeat_announced
        }),
{
}

} // verus!
