//! When a node that starts up has caught up.
//!
//! A node is starting up until it has asked its neighbours, has worked through every key that they
//! told it of, and no neighbour still has hints that found no room.

use crate::ant_protocol::XorName;
use crate::name_map::NameMap;
use crate::name_map::{names_are_listed, place_of};
use crate::replication::types::PeerId;
use vstd::prelude::*;

verus! {

/// What a node still has to do before it has caught up.
pub struct BootstrapState {
    drained: bool,
    pending_peer_requests: usize,
    pending_keys: NameMap<()>,
    capacity_rejected: NameMap<()>,
}

/// What is to be seen of it.
pub struct BootstrapView {
    /// Whether the node has caught up.
    pub drained: bool,
    /// How many neighbours have not answered yet.
    pub pending_peer_requests: usize,
    /// The keys that are not dealt with yet.
    pub pending_keys: Map<XorName, ()>,
    /// The neighbours whose hints found no room.
    pub capacity_rejected: Map<XorName, ()>,
}

impl View for BootstrapState {
    type V = BootstrapView;

    closed spec fn view(&self) -> BootstrapView {
        BootstrapView {
            drained: self.drained,
            pending_peer_requests: self.pending_peer_requests,
            pending_keys: self.pending_keys@,
            capacity_rejected: self.capacity_rejected@,
        }
    }
}

/// The keys of `before` without those that were dealt with.
pub open spec fn without_keys(before: Map<XorName, ()>, done: Seq<XorName>) -> Map<XorName, ()>
    decreases done.len(),
{
    if done.len() == 0 {
        before
    } else {
        without_keys(before, done.drop_last()).remove(done.last())
    }
}

/// The keys of `before` and those that were found.
pub open spec fn with_keys(before: Map<XorName, ()>, found: Seq<XorName>) -> Map<XorName, ()>
    decreases found.len(),
{
    if found.len() == 0 {
        before
    } else {
        with_keys(before, found.drop_last()).insert(found.last(), ())
    }
}

/// Just the keys that were dealt with are gone.
pub proof fn done_keys_are_gone(before: Map<XorName, ()>, done: Seq<XorName>, key: XorName)
    ensures
        without_keys(before, done).contains_key(key) <==> before.contains_key(key)
            && !done.contains(key),
    decreases done.len(),
{
    if done.len() > 0 {
        done_keys_are_gone(before, done.drop_last(), key);
        if done.contains(key) && key != done.last() {
            let i = choose|i: int| 0 <= i < done.len() && done[i] == key;
            assert(done.drop_last()[i] == key);
        }
        if done.drop_last().contains(key) {
            let i = choose|i: int| 0 <= i < done.drop_last().len() && done.drop_last()[i] == key;
            assert(done[i] == key);
        }
        assert(done[done.len() - 1] == done.last());
    }
}

/// Just the keys that were found are added.
pub proof fn found_keys_are_pending(before: Map<XorName, ()>, found: Seq<XorName>, key: XorName)
    ensures
        with_keys(before, found).contains_key(key) <==> before.contains_key(key)
            || found.contains(key),
    decreases found.len(),
{
    if found.len() > 0 {
        found_keys_are_pending(before, found.drop_last(), key);
        if found.contains(key) && key != found.last() {
            let i = choose|i: int| 0 <= i < found.len() && found[i] == key;
            assert(found.drop_last()[i] == key);
        }
        if found.drop_last().contains(key) {
            let i = choose|i: int| 0 <= i < found.drop_last().len() && found.drop_last()[i] == key;
            assert(found[i] == key);
        }
        assert(found[found.len() - 1] == found.last());
    }
}

/// Whether the queues still hold one of the keys.
pub open spec fn work_is_queued<F: Fn(&XorName) -> bool>(
    keys: Map<XorName, ()>,
    queued: F,
) -> bool {
    exists|key: XorName| #[trigger] keys.contains_key(key) && call_ensures(queued, (&key,), true)
}

/// Whether none of the keys is in the queues.
pub open spec fn work_is_done<F: Fn(&XorName) -> bool>(
    keys: Map<XorName, ()>,
    queued: F,
) -> bool {
    forall|key: XorName| #[trigger] keys.contains_key(key) ==> call_ensures(queued, (&key,), false)
}

impl BootstrapView {
    /// Whether nothing but queued keys can keep the node from having caught up.
    pub open spec fn settled(self) -> bool {
        self.pending_peer_requests == 0 && self.capacity_rejected == Map::<XorName, ()>::empty()
    }

    /// The same, after the node has caught up.
    pub open spec fn finished(self) -> BootstrapView {
        BootstrapView { drained: true, ..self }
    }
}

/// Two things can hold a node back besides keys: a neighbour that has still to answer, and one that
/// has hints which found no room. Nothing else does.
pub proof fn held_back_by_neighbors(state: BootstrapView)
    ensures
        state.settled() <==> state.pending_peer_requests == 0 && forall|source: XorName|
            !#[trigger] state.capacity_rejected.dom().contains(source),
{
    if forall|source: XorName| !#[trigger] state.capacity_rejected.dom().contains(source) {
        assert(state.capacity_rejected =~= Map::<XorName, ()>::empty());
    } else {
        let source = choose|source: XorName| #[trigger]
            state.capacity_rejected.dom().contains(source);
        assert(!Map::<XorName, ()>::empty().dom().contains(source));
    }
}

/// A key that was found holds a node back as long as it is in the queues, and only then: the work is
/// not done while the queues surely hold one, and is queued only where they may hold one.
pub proof fn held_back_by_queued_keys<F: Fn(&XorName) -> bool>(
    keys: Map<XorName, ()>,
    queued: F,
    key: XorName,
)
    ensures
        keys.dom().contains(key) && !call_ensures(queued, (&key,), false) ==> !work_is_done(
            keys,
            queued,
        ),
        work_is_queued(keys, queued) ==> exists|held: XorName| #[trigger]
            keys.dom().contains(held) && call_ensures(queued, (&held,), true),
        (forall|held: XorName| #[trigger]
            keys.dom().contains(held) ==> call_ensures(queued, (&held,), false)) ==> work_is_done(
            keys,
            queued,
        ),
{
}

/// Once a node has caught up it stays so, with all else as it was.
pub proof fn catching_up_is_final(state: BootstrapView)
    ensures
        state.finished().drained,
        state.finished().pending_peer_requests == state.pending_peer_requests,
        state.finished().pending_keys == state.pending_keys,
        state.finished().capacity_rejected == state.capacity_rejected,
        state.finished().finished() == state.finished(),
{
}

impl BootstrapState {
    /// The state of a node that has just started.
    pub fn new() -> (state: Self)
        ensures
            state@ == (BootstrapView {
                drained: false,
                pending_peer_requests: 0,
                pending_keys: Map::empty(),
                capacity_rejected: Map::empty(),
            }),
    {
        BootstrapState {
            drained: false,
            pending_peer_requests: 0,
            pending_keys: NameMap::new(),
            capacity_rejected: NameMap::new(),
        }
    }

    /// Whether the node has caught up.
    pub fn is_drained(&self) -> (drained: bool)
        ensures
            drained == self@.drained,
    {
        self.drained
    }

    /// A key was dealt with.
    pub fn remove_key(&mut self, key: &XorName)
        ensures
            final(self)@ == (BootstrapView {
                pending_keys: old(self)@.pending_keys.remove(*key),
                ..old(self)@
            }),
    {
        self.pending_keys.remove(key);
    }

    /// Keys were found that are to be dealt with.
    pub fn track_discovered_keys(&mut self, keys: &Vec<XorName>)
        ensures
            final(self)@ == (BootstrapView {
                pending_keys: with_keys(old(self)@.pending_keys, keys@),
                ..old(self)@
            }),
    {
        let ghost before = self@;
        let mut i: usize = 0;
        assert(keys@.take(0) =~= Seq::empty());
        while i < keys.len()
            invariant
                i <= keys.len(),
                self@ == (BootstrapView {
                    pending_keys: with_keys(before.pending_keys, keys@.take(i as int)),
                    ..before
                }),
            decreases keys.len() - i,
        {
            self.pending_keys.insert(keys[i], ());
            assert(keys@.take(i + 1).drop_last() =~= keys@.take(i as int));
            i += 1;
        }
        assert(keys@.take(i as int) =~= keys@);
    }

    /// Some hints of `source` found no room; it has to give them again.
    pub fn note_capacity_rejected(&mut self, source: PeerId)
        ensures
            final(self)@ == (BootstrapView {
                capacity_rejected: old(self)@.capacity_rejected.insert(source, ()),
                ..old(self)@
            }),
    {
        self.capacity_rejected.insert(source, ());
    }

    /// All hints of `source` found room.
    pub fn clear_capacity_rejected(&mut self, source: &PeerId)
        ensures
            final(self)@ == (BootstrapView {
                capacity_rejected: old(self)@.capacity_rejected.remove(*source),
                ..old(self)@
            }),
    {
        self.capacity_rejected.remove(source);
    }

    /// Neighbours were asked.
    pub fn increment_pending_requests(&mut self, count: usize)
        ensures
            final(self)@ == (BootstrapView {
                pending_peer_requests: if old(self)@.pending_peer_requests + count <= usize::MAX {
                    (old(self)@.pending_peer_requests + count) as usize
                } else {
                    usize::MAX
                },
                ..old(self)@
            }),
    {
        self.pending_peer_requests = if count <= usize::MAX - self.pending_peer_requests {
            self.pending_peer_requests + count
        } else {
            usize::MAX
        };
    }

    /// Neighbours have answered, or will not.
    pub fn decrement_pending_requests(&mut self, count: usize)
        ensures
            final(self)@ == (BootstrapView {
                pending_peer_requests: if count <= old(self)@.pending_peer_requests {
                    (old(self)@.pending_peer_requests - count) as usize
                } else {
                    0
                },
                ..old(self)@
            }),
    {
        self.pending_peer_requests = if count <= self.pending_peer_requests {
            self.pending_peer_requests - count
        } else {
            0
        };
    }

    /// There are no neighbours to learn from.
    pub fn mark_bootstrap_drained(&mut self)
        ensures
            final(self)@ == old(self)@.finished(),
    {
        self.drained = true;
    }

    /// Whether the node has caught up by now: no neighbour is still to answer, none has to give its
    /// hints again, and no key that was found is still `queued`.
    pub fn check_bootstrap_drained<F: Fn(&XorName) -> bool>(&mut self, queued: F) -> (drained: bool)
        requires
            forall|key: &XorName| call_requires(queued, (key,)),
        ensures
            final(self)@ == if drained {
                old(self)@.finished()
            } else {
                old(self)@
            },
            drained ==> old(self)@.drained || old(self)@.settled() && work_is_done(
                old(self)@.pending_keys,
                queued,
            ),
            !drained ==> !old(self)@.drained && (!old(self)@.settled() || work_is_queued(
                old(self)@.pending_keys,
                queued,
            )),
    {
        if self.drained {
            return true;
        }
        if self.pending_peer_requests > 0 {
            return false;
        }
        if self.capacity_rejected.len() > 0 {
            proof {
                let listed = self.capacity_rejected.listed();
                names_are_listed(listed);
                assert(self.capacity_rejected@.contains_key(listed[0].0));
            }
            return false;
        }
        proof {
            let listed = self.capacity_rejected.listed();
            names_are_listed(listed);
            assert forall|name: XorName| !self.capacity_rejected@.contains_key(name) by {
                if self.capacity_rejected@.contains_key(name) {
                    let i = place_of(listed, name);
                    assert(listed[i].0 == name);
                }
            }
            assert(self.capacity_rejected@ =~= Map::<XorName, ()>::empty());
        }
        let len: usize = self.pending_keys.len();
        let ghost listed = self.pending_keys.listed();
        let ghost before = self@;
        let mut i: usize = 0;
        while i < len
            invariant
                i <= len,
                len == listed.len(),
                listed == self.pending_keys.listed(),
                self@ == before,
                before.pending_keys == self.pending_keys@,
                before == old(self)@,
                !before.drained,
                forall|key: &XorName| call_requires(queued, (key,)),
                forall|k: int|
                    0 <= k < i ==> call_ensures(queued, (&(#[trigger] listed[k]).0,), false),
            decreases len - i,
        {
            let key: XorName = self.pending_keys.at(i).0;
            if queued(&key) {
                assert(before.pending_keys.contains_key(key));
                return false;
            }
            i += 1;
        }
        proof {
            names_are_listed(listed);
            assert forall|key: XorName| #[trigger] before.pending_keys.contains_key(key) implies
                call_ensures(queued, (&key,), false) by {
                let k = place_of(listed, key);
                assert(listed[k].0 == key);
            }
        }
        self.drained = true;
        true
    }
}

/// Deal with the keys that a round of verification settled for good, and find out whether the node
/// has caught up with that. A node that had caught up before does not do so again.
pub fn update_bootstrap_after_verification<F: Fn(&XorName) -> bool>(
    terminal_keys: &Vec<XorName>,
    state: &mut BootstrapState,
    queued: F,
) -> (completed: bool)
    requires
        forall|key: &XorName| call_requires(queued, (key,)),
    ensures
        terminal_keys.len() == 0 || old(state)@.drained ==> !completed && final(state)@
            == old(state)@,
        terminal_keys.len() > 0 && !old(state)@.drained ==> {
            let left = BootstrapView {
                pending_keys: without_keys(old(state)@.pending_keys, terminal_keys@),
                ..old(state)@
            };
            &&& final(state)@ == if completed {
                left.finished()
            } else {
                left
            }
            &&& completed ==> left.settled() && work_is_done(left.pending_keys, queued)
            &&& !completed ==> !left.settled() || work_is_queued(left.pending_keys, queued)
        },
{
    if terminal_keys.len() == 0 || state.is_drained() {
        return false;
    }
    let ghost before = state@;
    let mut i: usize = 0;
    assert(terminal_keys@.take(0) =~= Seq::empty());
    while i < terminal_keys.len()
        invariant
            i <= terminal_keys.len(),
            state@ == (BootstrapView {
                pending_keys: without_keys(before.pending_keys, terminal_keys@.take(i as int)),
                ..before
            }),
        decreases terminal_keys.len() - i,
    {
        state.remove_key(&terminal_keys[i]);
        assert(terminal_keys@.take(i + 1).drop_last() =~= terminal_keys@.take(i as int));
        i += 1;
    }
    assert(terminal_keys@.take(i as int) =~= terminal_keys@);
    state.check_bootstrap_drained(queued)
}

/// Deal with the key of a fetch that is over.
pub fn update_bootstrap_after_fetch<F: Fn(&XorName) -> bool>(
    key: &XorName,
    state: &mut BootstrapState,
    queued: F,
) -> (completed: bool)
    requires
        forall|key: &XorName| call_requires(queued, (key,)),
    ensures
        old(state)@.drained ==> !completed && final(state)@ == old(state)@,
        !old(state)@.drained ==> {
            let left = BootstrapView {
                pending_keys: old(state)@.pending_keys.remove(*key),
                ..old(state)@
            };
            &&& final(state)@ == if completed {
                left.finished()
            } else {
                left
            }
            &&& completed ==> left.settled() && work_is_done(left.pending_keys, queued)
            &&& !completed ==> !left.settled() || work_is_queued(left.pending_keys, queued)
        },
{
    if state.is_drained() {
        return false;
    }
    state.remove_key(key);
    state.check_bootstrap_drained(queued)
}

/// How a node begins to catch up.
#[derive(Clone, Copy, Debug, PartialEq, Eq, Structural)]
pub enum BootstrapStart {
    /// It does not: it is shutting down.
    Stop,
    /// There is nobody to learn from, so it has caught up.
    Complete,
    /// It asks its neighbours.
    AskNeighbors,
}

/// Decide how a node begins to catch up, once the network is there or was waited for long enough.
pub fn begin_bootstrap_sync(
    state: &mut BootstrapState,
    shutting_down: bool,
    neighbor_count: usize,
) -> (start: BootstrapStart)
    ensures
        start == if shutting_down {
            BootstrapStart::Stop
        } else if neighbor_count == 0 {
            BootstrapStart::Complete
        } else {
            BootstrapStart::AskNeighbors
        },
        final(state)@ == if start is Complete {
            old(state)@.finished()
        } else {
            old(state)@
        },
{
    if shutting_down {
        return BootstrapStart::Stop;
    }
    if neighbor_count == 0 {
        state.mark_bootstrap_drained();
        return BootstrapStart::Complete;
    }
    BootstrapStart::AskNeighbors
}

/// Whether the hints of a neighbour are to be taken: it answered, and is not starting up itself.
pub fn takes_bootstrap_hints(neighbor_bootstrapping: Option<bool>) -> (takes: bool)
    ensures
        takes == (neighbor_bootstrapping == Some(false)),
{
    match neighbor_bootstrapping {
        Some(bootstrapping) => !bootstrapping,
        None => false,
    }
}

/// Note what became of the hints of a neighbour, for a node that is starting up.
pub fn note_admission(
    state: &mut BootstrapState,
    source: &PeerId,
    discovered: &Vec<XorName>,
    capacity_rejected_count: usize,
)
    ensures
        final(state)@ == (BootstrapView {
            pending_keys: with_keys(old(state)@.pending_keys, discovered@),
            capacity_rejected: if capacity_rejected_count > 0 {
                old(state)@.capacity_rejected.insert(*source, ())
            } else {
                old(state)@.capacity_rejected.remove(*source)
            },
            ..old(state)@
        }),
{
    state.track_discovered_keys(discovered);
    if capacity_rejected_count > 0 {
        state.note_capacity_rejected(*source);
    } else {
        state.clear_capacity_rejected(source);
    }
}

/// As long as a neighbour has hints that found no room, a node that is starting up has not caught
/// up.
pub proof fn rejected_hints_hold_back(state: BootstrapView, source: PeerId)
    requires
        state.capacity_rejected.contains_key(source),
    ensures
        !state.settled(),
{
    assert(!Map::<XorName, ()>::empty().contains_key(source));
}

} // verus!
