//! The host's state-vector-floor garbage collection.
//!
//! Every peer reports the clocks it has seen per client (its state vector).
//! The floor is the per-client minimum over the host's own state vector and
//! every joined peer's last report; a deleted range may be compacted once it
//! starts below the floor of its client, because then every participant has
//! seen the whole prefix that the range belongs to.
use vstd::prelude::*;
use std::collections::HashMap;
use vstd::std_specs::hash::spec_hash_map_iter;
use vstd::std_specs::iter::IteratorSpec;

verus! {

/// A CRDT client identity.
pub type ClientId = u64;

/// The map of a key-value sequence, later entries winning.
pub open spec fn map_of<V>(s: Seq<(u64, V)>) -> Map<u64, V>
    decreases s.len(),
{
    if s.len() == 0 {
        Map::empty()
    } else {
        map_of(s.drop_last()).insert(s.last().0, s.last().1)
    }
}

/// No key occurs twice in the sequence.
pub open spec fn keys_unique<V>(s: Seq<(u64, V)>) -> bool {
    forall|i: int, j: int| 0 <= i < j < s.len() ==> s[i].0 != s[j].0
}

/// What `map_of` holds: exactly the keys of the sequence, each with its
/// (unique) entry's value.
pub proof fn lemma_map_of<V>(s: Seq<(u64, V)>)
    ensures
        forall|k: u64|
            #![trigger map_of(s).contains_key(k)]
            map_of(s).contains_key(k) <==> exists|i: int| 0 <= i < s.len() && s[i].0 == k,
        keys_unique(s) ==> forall|i: int|
            #![trigger s[i]]
            0 <= i < s.len() ==> map_of(s)[s[i].0] == s[i].1,
    decreases s.len(),
{
    if s.len() > 0 {
        let t = s.drop_last();
        lemma_map_of(t);
        assert forall|k: u64| map_of(s).contains_key(k) <==> exists|i: int|
            0 <= i < s.len() && s[i].0 == k by {
            if map_of(s).contains_key(k) {
                if k == s.last().0 {
                    assert(s[s.len() - 1].0 == k);
                } else {
                    assert(map_of(t).contains_key(k));
                    let i = choose|i: int| 0 <= i < t.len() && t[i].0 == k;
                    assert(s[i].0 == k);
                }
            }
            if exists|i: int| 0 <= i < s.len() && s[i].0 == k {
                let i = choose|i: int| 0 <= i < s.len() && s[i].0 == k;
                if i < s.len() - 1 {
                    assert(t[i].0 == k);
                    assert(map_of(t).contains_key(k));
                }
            }
        }
        if keys_unique(s) {
            assert(keys_unique(t));
            assert forall|i: int| 0 <= i < s.len() implies map_of(s)[s[i].0] == s[i].1 by {
                if i < s.len() - 1 {
                    assert(t[i] == s[i]);
                    assert(s[i].0 != s.last().0);
                }
            }
        }
    }
}

/// Two sequences with unique keys, the same keys and the same value per
/// key have the same map.
pub proof fn lemma_map_of_ext<V>(s: Seq<(u64, V)>, m: Map<u64, V>)
    requires
        keys_unique(s),
        forall|k: u64| #[trigger] m.contains_key(k) <==> exists|i: int| 0 <= i < s.len() && s[i].0 == k,
        forall|i: int| #![trigger s[i]] 0 <= i < s.len() ==> m[s[i].0] == s[i].1,
    ensures
        map_of(s) == m,
{
    lemma_map_of(s);
    assert forall|k: u64| #[trigger] map_of(s).contains_key(k) implies map_of(s)[k] == m[k] by {
        let i = choose|i: int| 0 <= i < s.len() && s[i].0 == k;
        assert(s[i].0 == k);
    }
    assert(map_of(s) =~= m);
}

/// The clock of client `c` in a state vector; absent clients are at 0.
pub open spec fn clock_of(m: Map<u64, u64>, c: u64) -> u64 {
    if m.contains_key(c) {
        m[c]
    } else {
        0
    }
}

/// The per-client maximum of two state vectors, over the clients of both.
pub open spec fn merge_spec(dst: Map<u64, u64>, src: Map<u64, u64>) -> Map<u64, u64> {
    Map::new(
        |c: u64| dst.contains_key(c) || src.contains_key(c),
        |c: u64|
            if clock_of(dst, c) >= clock_of(src, c) {
                clock_of(dst, c)
            } else {
                clock_of(src, c)
            },
    )
}

/// A state vector: for each client, the number of its operations seen.
pub struct StateVector {
    clocks: Vec<(u64, u64)>,
}

impl View for StateVector {
    type V = Map<u64, u64>;

    closed spec fn view(&self) -> Map<u64, u64> {
        map_of(self.clocks@)
    }
}

impl StateVector {
    #[verifier::type_invariant]
    closed spec fn unique_clients(self) -> bool {
        keys_unique(self.clocks@)
    }

    /// The empty state vector.
    pub fn new() -> (r: StateVector)
        ensures
            r@ == Map::<u64, u64>::empty(),
    {
        StateVector { clocks: Vec::new() }
    }

    /// The clock of `client`, 0 when it is absent.
    pub fn get(&self, client: ClientId) -> (r: u64)
        ensures
            r == clock_of(self@, client),
    {
        proof {
            use_type_invariant(self);
            lemma_map_of(self.clocks@);
        }
        assert(keys_unique(self.clocks@));
        let mut i: usize = 0;
        while i < self.clocks.len()
            invariant
                i <= self.clocks.len(),
                keys_unique(self.clocks@),
                forall|j: int| 0 <= j < i ==> self.clocks@[j].0 != client,
            decreases self.clocks.len() - i,
        {
            if self.clocks[i].0 == client {
                proof {
                    lemma_map_of(self.clocks@);
                }
                assert(map_of(self.clocks@)[self.clocks@[i as int].0] == self.clocks@[i as int].1);
                return self.clocks[i].1;
            }
            i = i + 1;
        }
        proof {
            lemma_map_of(self.clocks@);
        }
        assert(!self@.contains_key(client));
        0
    }

    /// Raises the clock of `client` to at least `clock`.
    pub fn update(&mut self, client: ClientId, clock: u64)
        ensures
            final(self)@ == old(self)@.insert(
                client,
                if clock_of(old(self)@, client) >= clock {
                    clock_of(old(self)@, client)
                } else {
                    clock
                },
            ),
    {
        proof {
            use_type_invariant(&*self);
            lemma_map_of(self.clocks@);
        }
        let ghost before = self.clocks@;
        assert(keys_unique(before));
        let mut i: usize = 0;
        while i < self.clocks.len()
            invariant
                self.clocks@ == before,
                old(self)@ == map_of(before),
                keys_unique(before),
                i <= self.clocks.len(),
                forall|j: int| 0 <= j < i ==> self.clocks@[j].0 != client,
            decreases self.clocks.len() - i,
        {
            if self.clocks[i].0 == client {
                let old_clock = self.clocks[i].1;
                let new_clock = if old_clock >= clock {
                    old_clock
                } else {
                    clock
                };
                let ghost target = map_of(before).insert(client, new_clock);
                proof {
                    lemma_map_of(before);
                    assert(map_of(before)[before[i as int].0] == before[i as int].1);
                    let after = before.update(i as int, (client, new_clock));
                    assert(keys_unique(after));
                    assert forall|k: u64| #[trigger] target.contains_key(k) <==> exists|j: int|
                        0 <= j < after.len() && after[j].0 == k by {
                        if k == client {
                            assert(after[i as int].0 == client);
                        }
                        if target.contains_key(k) && k != client {
                            assert(map_of(before).contains_key(k));
                            let j = choose|j: int| 0 <= j < before.len() && before[j].0 == k;
                            assert(after[j].0 == k);
                        }
                        if exists|j: int| 0 <= j < after.len() && after[j].0 == k {
                            let j = choose|j: int| 0 <= j < after.len() && after[j].0 == k;
                            if j != i {
                                assert(before[j].0 == k);
                            }
                        }
                    }
                    assert forall|j: int| #![trigger after[j]] 0 <= j < after.len() implies target[after[j].0]
                        == after[j].1 by {
                        if j != i {
                            assert(before[j] == after[j]);
                        }
                    }
                    lemma_map_of_ext(after, target);
                    assert(clock_of(map_of(before), client) == old_clock);
                }
                let mut clocks: Vec<(u64, u64)> = Vec::new();
                std::mem::swap(&mut clocks, &mut self.clocks);
                assert(clocks@ == before);
                clocks.set(i, (client, new_clock));
                assert(clocks@ == before.update(i as int, (client, new_clock)));
                self.clocks = clocks;
                assert(self@ == target);
                assert(old(self)@ == map_of(before));
                assert(clock_of(old(self)@, client) == old_clock);
                return;
            }
            i = i + 1;
        }
        proof {
            lemma_map_of(before);
            let after = before.push((client, clock));
            assert(keys_unique(after));
            assert(after.drop_last() == before);
        }
        let mut clocks: Vec<(u64, u64)> = Vec::new();
        std::mem::swap(&mut clocks, &mut self.clocks);
        clocks.push((client, clock));
        self.clocks = clocks;
    }

    /// The state vector holding `entries`, a client listed twice keeping its
    /// larger clock.
    pub fn from_entries(entries: Vec<(ClientId, u64)>) -> (r: StateVector)
        ensures
            r@ == merge_spec(Map::empty(), map_of_max(entries@)),
    {
        let mut r = StateVector::new();
        let mut i: usize = 0;
        while i < entries.len()
            invariant
                i <= entries.len(),
                r@ == merge_spec(Map::empty(), map_of_max(entries@.take(i as int))),
            decreases entries.len() - i,
        {
            let (c, n) = entries[i];
            r.update(c, n);
            proof {
                let t = entries@.take(i + 1);
                assert(t.drop_last() == entries@.take(i as int));
                assert(t.last() == (c, n));
                assert(r@ =~= merge_spec(Map::empty(), map_of_max(t)));
            }
            i = i + 1;
        }
        assert(entries@.take(entries@.len() as int) == entries@);
        r
    }

    /// The entries of the state vector, each client once.
    pub fn entries(&self) -> (r: Vec<(ClientId, u64)>)
        ensures
            keys_unique(r@),
            map_of(r@) == self@,
    {
        proof {
            use_type_invariant(self);
        }
        copy_pairs(&self.clocks)
    }

    /// Whether no client has an entry.
    pub fn is_empty(&self) -> (r: bool)
        ensures
            r == (self@.dom() == Set::<u64>::empty()),
    {
        proof {
            use_type_invariant(self);
            lemma_map_of(self.clocks@);
            if self.clocks@.len() > 0 {
                assert(self@.contains_key(self.clocks@[0].0));
            } else {
                assert(self@.dom() =~= Set::<u64>::empty());
            }
        }
        self.clocks.len() == 0
    }
}

/// The per-client maximum over a list of (client, clock) entries.
pub open spec fn map_of_max(s: Seq<(u64, u64)>) -> Map<u64, u64>
    decreases s.len(),
{
    if s.len() == 0 {
        Map::empty()
    } else {
        let m = map_of_max(s.drop_last());
        let (c, n) = s.last();
        m.insert(c, if clock_of(m, c) >= n { clock_of(m, c) } else { n })
    }
}

/// `StateVector::clone`: the same clocks.
pub fn clone_state_vector(sv: &StateVector) -> (r: StateVector)
    ensures
        r@ == sv@,
{
    proof {
        use_type_invariant(sv);
    }
    StateVector { clocks: copy_pairs(&sv.clocks) }
}

fn copy_pairs(v: &Vec<(u64, u64)>) -> (r: Vec<(u64, u64)>)
    ensures
        r@ == v@,
{
    let mut r: Vec<(u64, u64)> = Vec::new();
    let mut i: usize = 0;
    while i < v.len()
        invariant
            i <= v.len(),
            r@ == v@.take(i as int),
        decreases v.len() - i,
    {
        r.push(v[i]);
        assert(v@.take(i + 1) == v@.take(i as int).push(v@[i as int]));
        i = i + 1;
    }
    assert(v@.take(v@.len() as int) == v@);
    r
}


/// `dst` raised, client by client, to the clocks of `src`.
pub fn merge_into(dst: &mut StateVector, src: &StateVector)
    ensures
        final(dst)@ == merge_spec(old(dst)@, src@),
{
    let entries = src.entries();
    let ghost start = dst@;
    let mut i: usize = 0;
    proof {
        assert(merge_spec(start, map_of(entries@.take(0))) =~= start);
    }
    while i < entries.len()
        invariant
            i <= entries.len(),
            keys_unique(entries@),
            dst@ == merge_spec(start, map_of(entries@.take(i as int))),
        decreases entries.len() - i,
    {
        let (c, n) = entries[i];
        let ghost m = map_of(entries@.take(i as int));
        proof {
            let t = entries@.take(i + 1);
            assert(t.drop_last() == entries@.take(i as int));
            lemma_map_of(entries@.take(i as int));
            assert(!m.contains_key(c)) by {
                if m.contains_key(c) {
                    let j = choose|j: int| 0 <= j < i && entries@.take(i as int)[j].0 == c;
                    assert(entries@[j].0 == entries@[i as int].0);
                }
            }
        }
        dst.update(c, n);
        proof {
            let t = entries@.take(i + 1);
            assert(map_of(t) == m.insert(c, n));
            assert(dst@ =~= merge_spec(start, map_of(t)));
        }
        i = i + 1;
    }
    assert(entries@.take(entries@.len() as int) == entries@);
}

/// The peers' state vectors viewed as maps, in order.
pub open spec fn peer_views(s: Seq<(u64, StateVector)>) -> Seq<(u64, Map<u64, u64>)> {
    Seq::new(s.len(), |i: int| (s[i].0, s[i].1@))
}

/// The clocks of each peer's state vector.
pub open spec fn views_of(m: Map<u64, StateVector>) -> Map<u64, Map<u64, u64>> {
    Map::new(|k: u64| m.contains_key(k), |k: u64| m[k]@)
}

/// The last state vector each joined peer reported, by peer.
pub struct PeerStates {
    peers: HashMap<ClientId, StateVector>,
}

impl View for PeerStates {
    type V = Map<u64, Map<u64, u64>>;

    closed spec fn view(&self) -> Map<u64, Map<u64, u64>> {
        views_of(self.peers@)
    }
}

impl PeerStates {
    /// No peers.
    pub fn new() -> (r: PeerStates)
        ensures
            r@ == Map::<u64, Map<u64, u64>>::empty(),
    {
        let r = PeerStates { peers: HashMap::new() };
        assert(r@ =~= Map::<u64, Map<u64, u64>>::empty());
        r
    }

    /// The number of peers (of which there are finitely many).
    pub fn len(&self) -> (r: usize)
        ensures
            self@.dom().finite(),
            r as nat == self@.dom().len(),
    {
        broadcast use vstd::std_specs::hash::group_hash_axioms;
        assert(self@.dom() =~= self.peers@.dom());
        self.peers.len()
    }

    /// Whether there is no peer.
    pub fn is_empty(&self) -> (r: bool)
        ensures
            self@.dom().finite(),
            r == (self@.dom().len() == 0),
            r == (self@ == Map::<u64, Map<u64, u64>>::empty()),
    {
        let n = self.len();
        proof {
            if n == 0 {
                assert(self@.dom() =~= Set::<u64>::empty());
                assert(self@ =~= Map::<u64, Map<u64, u64>>::empty());
            }
        }
        n == 0
    }

    /// Whether `client` has joined.
    pub fn contains_key(&self, client: ClientId) -> (r: bool)
        ensures
            r == self@.contains_key(client),
    {
        broadcast use vstd::std_specs::hash::group_hash_axioms;
        self.peers.contains_key(&client)
    }

    /// The state vector `client` last reported, if it has joined.
    pub fn get(&self, client: ClientId) -> (r: Option<&StateVector>)
        ensures
            r is Some == self@.contains_key(client),
            r matches Some(sv) ==> sv@ == self@[client],
    {
        broadcast use vstd::std_specs::hash::group_hash_axioms;
        self.peers.get(&client)
    }

    /// Joins `client` with `sv`, replacing what it had.
    pub fn insert(&mut self, client: ClientId, sv: StateVector)
        ensures
            final(self)@ == old(self)@.insert(client, sv@),
    {
        broadcast use vstd::std_specs::hash::group_hash_axioms;
        let ghost target = self@.insert(client, sv@);
        self.peers.insert(client, sv);
        assert(self@ =~= target);
    }

    /// Merges `sv` into the entry of `client`, if it has joined.
    pub fn merge_report(&mut self, client: ClientId, sv: &StateVector)
        ensures
            final(self)@ == if old(self)@.contains_key(client) {
                old(self)@.insert(client, merge_spec(old(self)@[client], sv@))
            } else {
                old(self)@
            },
    {
        broadcast use vstd::std_specs::hash::group_hash_axioms;
        let ghost before = self@;
        match self.peers.remove(&client) {
            Some(mut entry) => {
                assert(entry@ == before[client]);
                merge_into(&mut entry, sv);
                self.peers.insert(client, entry);
                assert(self@ =~= before.insert(client, merge_spec(before[client], sv@)));
            },
            None => {
                assert(self@ =~= before);
            },
        }
    }

    /// Adds `client` with an empty state vector unless it has joined.
    pub fn join(&mut self, client: ClientId)
        ensures
            final(self)@ == if old(self)@.contains_key(client) {
                old(self)@
            } else {
                old(self)@.insert(client, Map::empty())
            },
    {
        if !self.contains_key(client) {
            self.insert(client, StateVector::new());
        }
    }

    /// Removes `client`.
    pub fn remove(&mut self, client: ClientId)
        ensures
            final(self)@ == old(self)@.remove(client),
    {
        broadcast use vstd::std_specs::hash::group_hash_axioms;
        let ghost before = self@;
        let _ = self.peers.remove(&client);
        assert(self@ =~= before.remove(client));
    }

    /// Keeps every peer, each with an empty state vector.
    pub fn clear_reports(&mut self)
        ensures
            final(self)@ == Map::new(
                |k: u64| old(self)@.contains_key(k),
                |k: u64| Map::<u64, u64>::empty(),
            ),
    {
        let snap = self.snapshot();
        let ghost a = peer_views(snap@);
        let ghost before = self@;
        let mut fresh = PeerStates::new();
        let mut i: usize = 0;
        while i < snap.len()
            invariant
                a == peer_views(snap@),
                map_of(a) == before,
                i <= snap.len(),
                forall|k: u64|
                    #[trigger] fresh@.contains_key(k) <==> exists|j: int| 0 <= j < i && a[j].0 == k,
                forall|k: u64| #[trigger] fresh@.contains_key(k) ==> fresh@[k] == Map::<u64, u64>::empty(),
            decreases snap.len() - i,
        {
            let c = snap[i].0;
            assert(a[i as int].0 == c);
            fresh.insert(c, StateVector::new());
            proof {
                assert forall|k: u64| #[trigger] fresh@.contains_key(k) <==> exists|j: int|
                    0 <= j < i + 1 && a[j].0 == k by {
                    if fresh@.contains_key(k) && k == c {
                        assert(a[i as int].0 == k);
                    }
                }
            }
            i = i + 1;
        }
        proof {
            lemma_map_of(a);
            let target = Map::new(
                |k: u64| before.contains_key(k),
                |k: u64| Map::<u64, u64>::empty(),
            );
            assert(fresh@ =~= target);
        }
        *self = fresh;
    }

    /// The peers and their state vectors as a list, each peer once.
    fn snapshot(&self) -> (r: Vec<(ClientId, StateVector)>)
        ensures
            keys_unique(peer_views(r@)),
            map_of(peer_views(r@)) == self@,
    {
        broadcast use vstd::std_specs::hash::group_hash_axioms;
        let m = &self.peers;
        let mut out: Vec<(ClientId, StateVector)> = Vec::new();
        let ghost pairs = spec_hash_map_iter(m).remaining();
        for e in it: m.iter()
            invariant
                pairs == spec_hash_map_iter(m).remaining(),
                it.seq() == pairs,
                out@.len() == it.index(),
                forall|j: int|
                    #![trigger out@[j]]
                    0 <= j < it.index() ==> out@[j].0 == *it.seq()[j].0 && out@[j].1@
                        == (*it.seq()[j].1)@,
        {
            let (c, sv) = e;
            out.push((*c, clone_state_vector(sv)));
        }
        let ghost v = peer_views(out@);
        proof {
            assert(out@.len() == pairs.len());
            assert forall|x: int, y: int| 0 <= x < y < v.len() implies v[x].0 != v[y].0 by {
                if v[x].0 == v[y].0 {
                    assert(m@[*pairs[x].0] == *pairs[x].1);
                    assert(m@[*pairs[y].0] == *pairs[y].1);
                    assert(pairs[x] == pairs[y]);
                }
            }
            assert forall|k: u64| #[trigger] self@.contains_key(k) <==> exists|j: int|
                0 <= j < v.len() && v[j].0 == k by {
                if self@.contains_key(k) {
                    assert(m@.contains_key(k));
                    assert(pairs.contains((&k, &m@[k])));
                    let j = choose|j: int| 0 <= j < pairs.len() && pairs[j] == (&k, &m@[k]);
                    assert(v[j].0 == k);
                }
                if exists|j: int| 0 <= j < v.len() && v[j].0 == k {
                    let j = choose|j: int| 0 <= j < v.len() && v[j].0 == k;
                    assert(m@.contains_key(*pairs[j].0));
                }
            }
            assert forall|j: int| #![trigger v[j]] 0 <= j < v.len() implies self@[v[j].0] == v[j].1 by {
                assert(m@.contains_key(*pairs[j].0) && m@[*pairs[j].0] == *pairs[j].1);
            }
            lemma_map_of_ext(v, self@);
        }
        out
    }
}


/// What the coordinator learns about its peers.
pub enum GcEvent {
    /// A peer reported the state vector it has seen.
    PeerSvReport { client: ClientId, sv: StateVector },
    /// A peer joined the room.
    Joined(ClientId),
    /// A peer left the room.
    Left(ClientId),
    /// The host replaced the whole document.
    DocumentReplaced,
}

/// The peer table after one event.
pub open spec fn apply_event_spec(peers: Map<u64, Map<u64, u64>>, event: GcEvent) -> Map<
    u64,
    Map<u64, u64>,
> {
    match event {
        GcEvent::PeerSvReport { client, sv } => if peers.contains_key(client) {
            peers.insert(client, merge_spec(peers[client], sv@))
        } else {
            peers
        },
        GcEvent::Joined(client) => if peers.contains_key(client) {
            peers
        } else {
            peers.insert(client, Map::empty())
        },
        GcEvent::Left(client) => peers.remove(client),
        GcEvent::DocumentReplaced => Map::new(
            |k: u64| peers.contains_key(k),
            |k: u64| Map::<u64, u64>::empty(),
        ),
    }
}

/// Applies one event to the peer table: a report merges into a joined
/// peer's entry (and is dropped for a peer that is not there), a join adds
/// an empty entry, a leave removes it, and a document replacement empties
/// every entry while keeping the peers.
pub fn apply_event(peer_svs: &mut PeerStates, event: GcEvent)
    ensures
        final(peer_svs)@ == apply_event_spec(old(peer_svs)@, event),
{
    match event {
        GcEvent::PeerSvReport { client, sv } => {
            peer_svs.merge_report(client, &sv);
        },
        GcEvent::Joined(client) => {
            peer_svs.join(client);
        },
        GcEvent::Left(client) => {
            peer_svs.remove(client);
        },
        GcEvent::DocumentReplaced => {
            peer_svs.clear_reports();
        },
    }
}


/// `f` is the minimum of client `c`'s clock over the host's own state
/// vector and every peer's.
pub open spec fn is_floor_clock(
    peers: Map<u64, Map<u64, u64>>,
    own: Map<u64, u64>,
    c: u64,
    f: u64,
) -> bool {
    &&& f <= clock_of(own, c)
    &&& forall|p: u64| #[trigger] peers.contains_key(p) ==> f <= clock_of(peers[p], c)
    &&& (f == clock_of(own, c) || exists|p: u64| #[trigger]
        peers.contains_key(p) && f == clock_of(peers[p], c))
}

/// Client `c` appears in the host's own state vector or in a peer's.
pub open spec fn floor_has_client(
    peers: Map<u64, Map<u64, u64>>,
    own: Map<u64, u64>,
    c: u64,
) -> bool {
    own.contains_key(c) || exists|p: u64| #[trigger] peers.contains_key(p) && peers[p].contains_key(c)
}

/// Some peer among the first `i` has an entry for `c`.
pub open spec fn seen_in_prefix(a: Seq<(u64, Map<u64, u64>)>, i: int, c: u64) -> bool {
    exists|j: int| 0 <= j < i && #[trigger] a[j].1.contains_key(c)
}

/// The minimum clock of `c` over `own` and every peer.
fn floor_for(
    peer_svs: &PeerStates,
    snap: &Vec<(ClientId, StateVector)>,
    own_sv: &StateVector,
    c: ClientId,
) -> (f: u64)
    requires
        keys_unique(peer_views(snap@)),
        map_of(peer_views(snap@)) == peer_svs@,
    ensures
        is_floor_clock(peer_svs@, own_sv@, c, f),
{
    let ghost a = peer_views(snap@);
    let mut f = own_sv.get(c);
    let mut i: usize = 0;
    while i < snap.len()
        invariant
            a == peer_views(snap@),
            i <= snap.len(),
            f <= clock_of(own_sv@, c),
            forall|j: int| 0 <= j < i ==> f <= clock_of(#[trigger] a[j].1, c),
            f == clock_of(own_sv@, c) || exists|j: int|
                0 <= j < i && f == clock_of(#[trigger] a[j].1, c),
        decreases snap.len() - i,
    {
        let n = snap[i].1.get(c);
        assert(a[i as int].1 == snap@[i as int].1@);
        if n < f {
            f = n;
        }
        i = i + 1;
    }
    proof {
        lemma_map_of(a);
        let m = map_of(a);
        assert forall|p: u64| #[trigger] m.contains_key(p) implies f <= clock_of(m[p], c) by {
            let j = choose|j: int| 0 <= j < a.len() && a[j].0 == p;
            assert(m[a[j].0] == a[j].1);
        }
        if f != clock_of(own_sv@, c) {
            let j = choose|j: int| 0 <= j < i && f == clock_of(#[trigger] a[j].1, c);
            assert(m[a[j].0] == a[j].1);
            assert(m.contains_key(a[j].0));
        }
    }
    f
}

/// Every client of `own` and of the peers, each once.
fn floor_clients(
    peer_svs: &PeerStates,
    snap: &Vec<(ClientId, StateVector)>,
    own_sv: &StateVector,
) -> (clients: Vec<ClientId>)
    requires
        keys_unique(peer_views(snap@)),
        map_of(peer_views(snap@)) == peer_svs@,
    ensures
        clients@.no_duplicates(),
        forall|c: u64| #[trigger] clients@.contains(c) <==> floor_has_client(peer_svs@, own_sv@, c),
{
    let ghost a = peer_views(snap@);
    let own_entries = own_sv.entries();
    let mut clients: Vec<ClientId> = Vec::new();
    let mut k: usize = 0;
    while k < own_entries.len()
        invariant
            keys_unique(own_entries@),
            k <= own_entries.len(),
            clients@.no_duplicates(),
            clients@.len() == k,
            forall|x: int| 0 <= x < k ==> #[trigger] clients@[x] == own_entries@[x].0,
        decreases own_entries.len() - k,
    {
        clients.push(own_entries[k].0);
        proof {
            assert forall|x: int, y: int| 0 <= x < y < clients@.len() implies clients@[x]
                != clients@[y] by {
                assert(own_entries@[x].0 != own_entries@[y].0);
            }
        }
        k = k + 1;
    }
    proof {
        lemma_map_of(own_entries@);
        assert forall|c: u64| #[trigger] clients@.contains(c) <==> own_sv@.contains_key(c) by {
            if clients@.contains(c) {
                let x = choose|x: int| 0 <= x < clients@.len() && clients@[x] == c;
                assert(own_entries@[x].0 == c);
            }
            if own_sv@.contains_key(c) {
                let x = choose|x: int| 0 <= x < own_entries@.len() && own_entries@[x].0 == c;
                assert(clients@[x] == c);
            }
        }
    }
    let mut i: usize = 0;
    while i < snap.len()
        invariant
            a == peer_views(snap@),
            i <= snap.len(),
            clients@.no_duplicates(),
            forall|c: u64| #[trigger]
                clients@.contains(c) <==> (own_sv@.contains_key(c) || seen_in_prefix(a, i as int, c)),
        decreases snap.len() - i,
    {
        let entries = snap[i].1.entries();
        assert(a[i as int].1 == snap@[i as int].1@);
        let ghost before = clients@;
        let mut k: usize = 0;
        while k < entries.len()
            invariant
                keys_unique(entries@),
                k <= entries.len(),
                clients@.no_duplicates(),
                forall|c: u64| #[trigger]
                    clients@.contains(c) <==> (before.contains(c) || exists|x: int|
                        0 <= x < k && entries@[x].0 == c),
            decreases entries.len() - k,
        {
            let c = entries[k].0;
            let ghost c0 = clients@;
            if !contains_client(&clients, c) {
                clients.push(c);
                proof {
                    assert forall|d: u64| #[trigger] clients@.contains(d) <==> (c0.contains(d) || d
                        == c) by {
                        if clients@.contains(d) && d != c {
                            let x = choose|x: int| 0 <= x < clients@.len() && clients@[x] == d;
                            assert(c0[x] == d);
                        }
                        if c0.contains(d) {
                            let x = choose|x: int| 0 <= x < c0.len() && c0[x] == d;
                            assert(clients@[x] == d);
                        }
                        if d == c {
                            assert(clients@[c0.len() as int] == d);
                        }
                    }
                }
            }
            proof {
                assert(c0.contains(c) ==> clients@ == c0);
                assert forall|d: u64| #[trigger] clients@.contains(d) <==> (before.contains(d)
                    || exists|x: int| 0 <= x < k + 1 && entries@[x].0 == d) by {
                    if exists|x: int| 0 <= x < k + 1 && entries@[x].0 == d {
                        let x = choose|x: int| 0 <= x < k + 1 && entries@[x].0 == d;
                        if x < k {
                            assert(c0.contains(d));
                        }
                    }
                    if clients@.contains(d) && d == c {
                        assert(entries@[k as int].0 == d);
                    }
                    if clients@.contains(d) && d != c {
                        assert(c0.contains(d));
                    }
                }
            }
            k = k + 1;
        }
        proof {
            lemma_map_of(entries@);
            assert forall|c: u64| #[trigger] clients@.contains(c) <==> (own_sv@.contains_key(c)
                || seen_in_prefix(a, i + 1, c)) by {
                if seen_in_prefix(a, i + 1, c) {
                    let j = choose|j: int| 0 <= j < i + 1 && #[trigger] a[j].1.contains_key(c);
                    if j == i {
                        assert(map_of(entries@).contains_key(c));
                        let x = choose|x: int| 0 <= x < entries@.len() && entries@[x].0 == c;
                        assert(clients@.contains(c));
                    } else {
                        assert(seen_in_prefix(a, i as int, c));
                    }
                }
                if clients@.contains(c) && !before.contains(c) {
                    let x = choose|x: int| 0 <= x < entries@.len() && entries@[x].0 == c;
                    assert(map_of(entries@).contains_key(c));
                    assert(a[i as int].1.contains_key(c));
                }
                if before.contains(c) && !own_sv@.contains_key(c) {
                    let j = choose|j: int| 0 <= j < i && #[trigger] a[j].1.contains_key(c);
                    assert(a[j].1.contains_key(c));
                }
            }
        }
        i = i + 1;
    }
    proof {
        lemma_map_of(a);
        let m = map_of(a);
        assert forall|c: u64| #[trigger] clients@.contains(c) <==> floor_has_client(
            peer_svs@,
            own_sv@,
            c,
        ) by {
            if seen_in_prefix(a, a.len() as int, c) {
                let j = choose|j: int| 0 <= j < a.len() && #[trigger] a[j].1.contains_key(c);
                assert(m[a[j].0] == a[j].1);
                assert(m.contains_key(a[j].0));
            }
            if exists|p: u64| #[trigger] m.contains_key(p) && m[p].contains_key(c) {
                let p = choose|p: u64| #[trigger] m.contains_key(p) && m[p].contains_key(c);
                let j = choose|j: int| 0 <= j < a.len() && a[j].0 == p;
                assert(m[a[j].0] == a[j].1);
                assert(a[j].1.contains_key(c));
            }
        }
    }
    clients
}

/// Whether `c` is in `clients`.
fn contains_client(clients: &Vec<ClientId>, c: ClientId) -> (r: bool)
    ensures
        r == clients@.contains(c),
{
    let mut i: usize = 0;
    while i < clients.len()
        invariant
            i <= clients.len(),
            forall|j: int| 0 <= j < i ==> clients@[j] != c,
        decreases clients.len() - i,
    {
        if clients[i] == c {
            return true;
        }
        i = i + 1;
    }
    false
}

/// The garbage-collection floor: for every client of the host's own state
/// vector or of a peer's, the minimum of its clock over `own_sv` and every
/// entry of `peer_svs`, an absent entry counting as 0.
pub fn compute_min_sv(peer_svs: &PeerStates, own_sv: &StateVector) -> (r: StateVector)
    ensures
        forall|c: u64| #[trigger] r@.contains_key(c) <==> floor_has_client(peer_svs@, own_sv@, c),
        forall|c: u64| #[trigger] is_floor_clock(peer_svs@, own_sv@, c, clock_of(r@, c)),
{
    let snap = peer_svs.snapshot();
    let clients = floor_clients(peer_svs, &snap, own_sv);
    let mut min_sv = StateVector::new();
    let mut i: usize = 0;
    while i < clients.len()
        invariant
            keys_unique(peer_views(snap@)),
            map_of(peer_views(snap@)) == peer_svs@,
            i <= clients.len(),
            clients@.no_duplicates(),
            forall|c: u64| #[trigger] min_sv@.contains_key(c) <==> exists|j: int|
                0 <= j < i && clients@[j] == c,
            forall|j: int|
                0 <= j < i ==> #[trigger] is_floor_clock(
                    peer_svs@,
                    own_sv@,
                    clients@[j],
                    clock_of(min_sv@, clients@[j]),
                ),
        decreases clients.len() - i,
    {
        let c = clients[i];
        let f = floor_for(peer_svs, &snap, own_sv, c);
        proof {
            assert(!min_sv@.contains_key(c)) by {
                if min_sv@.contains_key(c) {
                    let j = choose|j: int| 0 <= j < i && clients@[j] == c;
                    assert(clients@[j] == clients@[i as int]);
                }
            }
        }
        let ghost prev = min_sv@;
        min_sv.update(c, f);
        proof {
            assert(min_sv@ == prev.insert(c, f));
            assert forall|j: int| 0 <= j < i + 1 implies #[trigger] is_floor_clock(
                peer_svs@,
                own_sv@,
                clients@[j],
                clock_of(min_sv@, clients@[j]),
            ) by {
                if j < i {
                    assert(clients@[j] != clients@[i as int]);
                    assert(clock_of(min_sv@, clients@[j]) == clock_of(prev, clients@[j]));
                }
            }
            assert forall|d: u64| #[trigger] min_sv@.contains_key(d) <==> exists|j: int|
                0 <= j < i + 1 && clients@[j] == d by {
                if d == c {
                    assert(clients@[i as int] == d);
                }
            }
        }
        i = i + 1;
    }
    proof {
        assert forall|c: u64| #[trigger] min_sv@.contains_key(c) <==> floor_has_client(
            peer_svs@,
            own_sv@,
            c,
        ) by {
            if clients@.contains(c) {
                let j = choose|j: int| 0 <= j < clients@.len() && clients@[j] == c;
            }
        }
        assert forall|c: u64| #[trigger] is_floor_clock(
            peer_svs@,
            own_sv@,
            c,
            clock_of(min_sv@, c),
        ) by {
            if clients@.contains(c) {
                let j = choose|j: int| 0 <= j < clients@.len() && clients@[j] == c;
                assert(is_floor_clock(peer_svs@, own_sv@, clients@[j], clock_of(min_sv@, clients@[j])));
            } else {
                assert(!own_sv@.contains_key(c));
                assert(clock_of(min_sv@, c) == 0);
            }
        }
    }
    min_sv
}


/// A run of deleted items: `len` clocks of `client` from `start` on.
#[derive(Clone, Copy)]
pub struct DeleteRange {
    pub client: ClientId,
    pub start: u64,
    pub len: u64,
}

/// The deleted ranges of a document.
pub struct DeleteSet {
    ranges: Vec<DeleteRange>,
}

impl View for DeleteSet {
    type V = Seq<DeleteRange>;

    closed spec fn view(&self) -> Seq<DeleteRange> {
        self.ranges@
    }
}

impl DeleteSet {
    /// No deleted range.
    pub fn new() -> (r: DeleteSet)
        ensures
            r@ == Seq::<DeleteRange>::empty(),
    {
        DeleteSet { ranges: Vec::new() }
    }

    /// Records that `len` clocks of `client` from `start` on were deleted.
    pub fn add(&mut self, client: ClientId, start: u64, len: u64)
        ensures
            final(self)@ == old(self)@.push(DeleteRange { client, start, len }),
    {
        self.ranges.push(DeleteRange { client, start, len });
    }

    /// Whether nothing was deleted.
    pub fn is_empty(&self) -> (r: bool)
        ensures
            r == (self@.len() == 0),
    {
        self.ranges.len() == 0
    }

    /// The deleted ranges, in the order they were added.
    pub fn ranges(&self) -> (r: &Vec<DeleteRange>)
        ensures
            r@ == self@,
    {
        &self.ranges
    }
}

/// Some deleted range starts below the floor of its client.
pub open spec fn compactable(ds: Seq<DeleteRange>, floor: Map<u64, u64>) -> bool {
    exists|i: int| 0 <= i < ds.len() && #[trigger] ds[i].start < clock_of(floor, ds[i].client)
}

/// Whether some deleted range starts below the floor of its client, so that
/// a garbage-collection commit has something to compact.
pub fn has_compactable_deletes(ds: &DeleteSet, floor: &StateVector) -> (r: bool)
    ensures
        r == compactable(ds@, floor@),
        r == exists|i: int|
            0 <= i < ds@.len() && #[trigger] ds@[i].start < clock_of(floor@, ds@[i].client),
{
    let ranges = ds.ranges();
    let mut i: usize = 0;
    while i < ranges.len()
        invariant
            ranges@ == ds@,
            i <= ranges.len(),
            forall|j: int| 0 <= j < i ==> !(#[trigger] ranges@[j].start < clock_of(floor@, ranges@[j].client)),
        decreases ranges.len() - i,
    {
        let range = ranges[i];
        if range.start < floor.get(range.client) {
            assert(ds@[i as int].start < clock_of(floor@, ds@[i as int].client));
            return true;
        }
        i = i + 1;
    }
    false
}

/// `m` is the floor of `own` and `peers`: exactly their clients, each at its
/// minimum clock.
pub open spec fn is_floor(peers: Map<u64, Map<u64, u64>>, own: Map<u64, u64>, m: Map<u64, u64>) -> bool {
    &&& forall|c: u64| #[trigger] m.contains_key(c) <==> floor_has_client(peers, own, c)
    &&& forall|c: u64| #[trigger] is_floor_clock(peers, own, c, clock_of(m, c))
}

/// What the coordinator does on a tick: the floor to commit and broadcast
/// when some deleted range of the host's document starts below it, nothing
/// otherwise.
pub fn plan_gc_commit(peer_svs: &PeerStates, own_sv: &StateVector, own_ds: &DeleteSet) -> (r: Option<StateVector>)
    ensures
        r matches Some(floor) ==> is_floor(peer_svs@, own_sv@, floor@) && compactable(own_ds@, floor@),
        r is None ==> forall|m: Map<u64, u64>| is_floor(peer_svs@, own_sv@, m) ==> !compactable(own_ds@, m),
{
    let floor = compute_min_sv(peer_svs, own_sv);
    if !has_compactable_deletes(own_ds, &floor) {
        proof {
            assert forall|m: Map<u64, u64>| is_floor(peer_svs@, own_sv@, m) implies !compactable(own_ds@, m) by {
                law_floor_unique(peer_svs@, own_sv@, m, floor@);
            }
        }
        return None;
    }
    Some(floor)
}

/// The floor is a function of the reports: two maps that are both the floor
/// of the same state vectors are equal.
pub proof fn law_floor_unique(
    peers: Map<u64, Map<u64, u64>>,
    own: Map<u64, u64>,
    m1: Map<u64, u64>,
    m2: Map<u64, u64>,
)
    requires
        is_floor(peers, own, m1),
        is_floor(peers, own, m2),
    ensures
        m1 == m2,
{
    assert forall|c: u64| #[trigger] m1.contains_key(c) implies m1[c] == m2[c] by {
        let f1 = clock_of(m1, c);
        let f2 = clock_of(m2, c);
        assert(is_floor_clock(peers, own, c, f1));
        assert(is_floor_clock(peers, own, c, f2));
        if f1 != clock_of(own, c) {
            let p = choose|p: u64| #[trigger] peers.contains_key(p) && f1 == clock_of(peers[p], c);
            assert(f2 <= clock_of(peers[p], c));
        }
        if f2 != clock_of(own, c) {
            let p = choose|p: u64| #[trigger] peers.contains_key(p) && f2 == clock_of(peers[p], c);
            assert(f1 <= clock_of(peers[p], c));
        }
    }
    assert(m1 =~= m2);
}

/// With no peer in the room the floor is the host's own state vector.
pub proof fn law_floor_without_peers_is_own(own: Map<u64, u64>, m: Map<u64, u64>)
    requires
        is_floor(Map::empty(), own, m),
    ensures
        m == own,
{
    assert forall|c: u64| #[trigger] m.contains_key(c) implies m[c] == own[c] by {
        assert(is_floor_clock(Map::empty(), own, c, clock_of(m, c)));
        assert(floor_has_client(Map::empty(), own, c));
    }
    assert forall|c: u64| #[trigger] own.contains_key(c) implies m.contains_key(c) by {
        assert(floor_has_client(Map::empty(), own, c));
    }
    assert(m =~= own);
}

/// The floor never passes what any participant has seen: for every client it
/// is at most the host's clock and at most every joined peer's reported clock.
pub proof fn law_floor_below_every_participant(
    peers: Map<u64, Map<u64, u64>>,
    own: Map<u64, u64>,
    m: Map<u64, u64>,
    c: u64,
)
    requires
        is_floor(peers, own, m),
    ensures
        clock_of(m, c) <= clock_of(own, c),
        forall|p: u64| #[trigger] peers.contains_key(p) ==> clock_of(m, c) <= clock_of(peers[p], c),
{
    assert(is_floor_clock(peers, own, c, clock_of(m, c)));
}

/// A report that arrives after its peer left does not bring the peer back.
pub proof fn law_stale_report_after_left(
    peers: Map<u64, Map<u64, u64>>,
    client: ClientId,
    sv: StateVector,
)
    ensures
        apply_event_spec(
            apply_event_spec(peers, GcEvent::Left(client)),
            GcEvent::PeerSvReport { client, sv },
        ) == peers.remove(client),
        !apply_event_spec(
            apply_event_spec(peers, GcEvent::Left(client)),
            GcEvent::PeerSvReport { client, sv },
        ).contains_key(client),
{
}

/// A report of a joined peer raises each client of its entry to the larger
/// of the stored and the reported clock; other peers are untouched.
pub proof fn law_report_merges_per_client_max(
    peers: Map<u64, Map<u64, u64>>,
    client: ClientId,
    sv: StateVector,
    c: u64,
)
    requires
        peers.contains_key(client),
    ensures
        apply_event_spec(peers, GcEvent::PeerSvReport { client, sv }).contains_key(client),
        clock_of(apply_event_spec(peers, GcEvent::PeerSvReport { client, sv })[client], c) == if clock_of(
            peers[client],
            c,
        ) >= clock_of(sv@, c) {
            clock_of(peers[client], c)
        } else {
            clock_of(sv@, c)
        },
        apply_event_spec(peers, GcEvent::PeerSvReport { client, sv }).dom() == peers.dom(),
{
    assert(apply_event_spec(peers, GcEvent::PeerSvReport { client, sv }).dom() =~= peers.dom());
}

/// A report of a peer that has not joined changes nothing.
pub proof fn law_report_of_unknown_peer_ignored(
    peers: Map<u64, Map<u64, u64>>,
    client: ClientId,
    sv: StateVector,
)
    requires
        !peers.contains_key(client),
    ensures
        apply_event_spec(peers, GcEvent::PeerSvReport { client, sv }) == peers,
{
}

/// Joining a peer that is already there keeps what it reported.
pub proof fn law_join_keeps_reports(peers: Map<u64, Map<u64, u64>>, client: ClientId)
    requires
        peers.contains_key(client),
    ensures
        apply_event_spec(peers, GcEvent::Joined(client)) == peers,
{
}

/// Replacing the document keeps every peer and forgets every report.
pub proof fn law_document_replaced_keeps_membership(peers: Map<u64, Map<u64, u64>>, c: u64, p: u64)
    ensures
        apply_event_spec(peers, GcEvent::DocumentReplaced).dom() == peers.dom(),
        peers.contains_key(p) ==> clock_of(apply_event_spec(peers, GcEvent::DocumentReplaced)[p], c) == 0,
{
    assert(apply_event_spec(peers, GcEvent::DocumentReplaced).dom() =~= peers.dom());
}

/// Merging never lowers a clock: the result is at least each input.
pub proof fn law_merge_is_upper_bound(dst: Map<u64, u64>, src: Map<u64, u64>, c: u64)
    ensures
        clock_of(merge_spec(dst, src), c) >= clock_of(dst, c),
        clock_of(merge_spec(dst, src), c) >= clock_of(src, c),
{
}


/// A map with unique keys has as many keys as entries.
pub proof fn lemma_map_of_len<V>(s: Seq<(u64, V)>)
    requires
        keys_unique(s),
    ensures
        map_of(s).dom().len() == s.len(),
        map_of(s).dom().finite(),
    decreases s.len(),
{
    if s.len() > 0 {
        let t = s.drop_last();
        lemma_map_of_len(t);
        lemma_map_of(t);
        assert(!map_of(t).contains_key(s.last().0)) by {
            if map_of(t).contains_key(s.last().0) {
                let j = choose|j: int| 0 <= j < t.len() && t[j].0 == s.last().0;
                assert(s[j].0 == s[s.len() - 1].0);
            }
        }
    }
}



/// A compaction is due exactly when some deleted range, wherever it was
/// recorded, starts below the floor clock of its client. So adding a range
/// that starts below its client's floor, at the front or at the back, makes
/// it due; and adding one to a set with nothing due makes it due exactly
/// when that range starts below its client's floor.
pub proof fn law_compactable_any_range(ds: Seq<DeleteRange>, floor: Map<u64, u64>, r: DeleteRange)
    ensures
        compactable(ds, floor) <==> exists|i: int|
            0 <= i < ds.len() && #[trigger] ds[i].start < clock_of(floor, ds[i].client),
        r.start < clock_of(floor, r.client) ==> compactable(ds.push(r), floor),
        r.start < clock_of(floor, r.client) ==> compactable(seq![r] + ds, floor),
        !compactable(ds, floor) ==> (compactable(ds.push(r), floor) <==> r.start < clock_of(
            floor,
            r.client,
        )),
        compactable(ds, floor) ==> compactable(ds.push(r), floor) && compactable(seq![r] + ds, floor),
{
    let a = ds.push(r);
    let b = seq![r] + ds;
    if r.start < clock_of(floor, r.client) {
        assert(a[ds.len() as int] == r);
        assert(b[0] == r);
    }
    if compactable(ds, floor) {
        let i = choose|i: int| 0 <= i < ds.len() && #[trigger] ds[i].start < clock_of(floor, ds[i].client);
        assert(a[i] == ds[i]);
        assert(b[i + 1] == ds[i]);
    }
    if !compactable(ds, floor) && compactable(a, floor) {
        let i = choose|i: int| 0 <= i < a.len() && #[trigger] a[i].start < clock_of(floor, a[i].client);
        if i < ds.len() {
            assert(a[i] == ds[i]);
        }
    }
}

} // verus!
