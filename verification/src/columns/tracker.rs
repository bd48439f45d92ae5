//! Decides which block root to fetch columns for next, and from which peers.
use std::collections::VecDeque;

use vstd::prelude::*;

use crate::bytes::B256;
use crate::columns::fetches::{FetchActionState, MAX_CONCURRENT_COLUMN_FETCHES, NO_COLUMN_PEER_TIMEOUT};
use crate::columns::fetches::{after_disconnect, after_enqueue, after_finish, after_next_fetch};
use crate::columns::fetches::{after_refresh, after_remove, after_retain, consistent, in_flight};
use crate::columns::fetches::{disconnect_keeps_consistent, enqueue_keeps_consistent};
use crate::columns::fetches::{finish_keeps_consistent, next_fetch_keeps_consistent};
use crate::columns::fetches::{no_fetches, no_fetches_are_consistent, other_than, refreshed};
use crate::columns::fetches::{remove_keeps_consistent, retain_keeps_consistent, started, untried};
use crate::columns::fetches::{wakes, with_attempt, Attempt, Fetches};
use crate::peer::{contains_peer, PeerId, PeerSet};
use crate::root_map::{distinct_roots, has_root, lemma_entry_found, lemma_keep};
use crate::root_map::{lemma_roots, map_of, position_of, rooted_in, roots_of, RootMap};

verus! {

#[derive(Debug)]
struct FetchEntry {
    action_state: FetchActionState,
    tried_peers: PeerSet,
}

impl View for FetchEntry {
    type V = Attempt;

    closed spec fn view(&self) -> Attempt {
        Attempt { state: self.action_state, tried: self.tried_peers@ }
    }
}

/// Deduplicates pending roots, queues work beyond the concurrency cap, and
/// retries incomplete responses without running two fetches for the same root.
#[derive(Debug)]
pub struct ColumnFetchTracker {
    entries: RootMap<FetchEntry>,
    queued: VecDeque<B256>,
}

/// The fetches that a sequence of entries stands for.
spec fn attempts(items: Seq<(B256, FetchEntry)>) -> Map<B256, Attempt> {
    map_of(items).map_values(|entry: FetchEntry| entry@)
}

/// Two sequences with the same roots stand for fetches that correspond entry by
/// entry.
proof fn lemma_attempts_correspond(
    before: Seq<(B256, FetchEntry)>,
    after: Seq<(B256, FetchEntry)>,
    change: spec_fn(Attempt) -> Attempt,
)
    requires
        distinct_roots(before),
        roots_of(before) == roots_of(after),
        forall|i: int|
            0 <= i < before.len() ==> (#[trigger] after[i]).1@ == change(before[i].1@),
    ensures
        distinct_roots(after),
        attempts(after) == attempts(before).map_values(change),
{
    assert(before.len() == roots_of(before).len());
    assert(after.len() == before.len());
    assert forall|i: int| 0 <= i < before.len() implies (#[trigger] after[i]).0 == before[i].0 by {
        assert(roots_of(after)[i] == after[i].0);
        assert(roots_of(before)[i] == before[i].0);
    }
    assert forall|i: int, j: int| 0 <= i < j < after.len() implies (#[trigger] after[i]).0 != (
    #[trigger] after[j]).0 by {
        assert(before[i].0 != before[j].0);
    }
    assert forall|root: B256| #[trigger] has_root(after, root) == has_root(before, root) by {
        if has_root(after, root) {
            assert(before[position_of(after, root)].0 == root);
        }
        if has_root(before, root) {
            assert(after[position_of(before, root)].0 == root);
        }
    }
    assert forall|root: B256| #[trigger] has_root(after, root) implies attempts(after)[root]
        == change(attempts(before)[root]) by {
        let i = position_of(after, root);
        lemma_entry_found(after, i);
        lemma_entry_found(before, i);
    }
    assert(attempts(after) =~= attempts(before).map_values(change));
}

/// Removing an entry drops its root from the order.
proof fn lemma_order_without(items: Seq<(B256, FetchEntry)>, i: int)
    requires
        distinct_roots(items),
        0 <= i < items.len(),
    ensures
        roots_of(items.remove(i)) == roots_of(items).filter(other_than(items[i].0)),
{
    let roots = roots_of(items);
    let root = items[i].0;
    let wanted = other_than(root);
    let front = roots.take(i);
    let back = roots.skip(i + 1);
    assert(roots =~= (front + seq![root]) + back);
    Seq::filter_distributes_over_add(front + seq![root], back, wanted);
    Seq::filter_distributes_over_add(front, seq![root], wanted);
    lemma_roots(items);
    lemma_filter_all(front, wanted);
    lemma_filter_all(back, wanted);
    reveal_with_fuel(Seq::filter, 2);
    assert(seq![root].drop_last() =~= Seq::<B256>::empty());
    assert(seq![root].filter(wanted) =~= Seq::<B256>::empty());
    assert(roots_of(items.remove(i)) =~= front + back);
}

/// Filtering keeps a sequence whose members are all wanted.
proof fn lemma_filter_all(roots: Seq<B256>, wanted: spec_fn(B256) -> bool)
    requires
        forall|i: int| 0 <= i < roots.len() ==> wanted(#[trigger] roots[i]),
    ensures
        roots.filter(wanted) == roots,
    decreases roots.len(),
{
    reveal(Seq::filter);
    if roots.len() > 0 {
        lemma_filter_all(roots.drop_last(), wanted);
        assert(roots.drop_last().push(roots.last()) =~= roots);
    }
}

impl View for ColumnFetchTracker {
    type V = Fetches;

    closed spec fn view(&self) -> Fetches {
        Fetches {
            entries: attempts(self.entries.items()),
            order: roots_of(self.entries.items()),
            queue: self.queued@,
        }
    }
}

impl Default for ColumnFetchTracker {
    fn default() -> (tracker: Self)
        ensures
            tracker.wf(),
            tracker@ == no_fetches(),
    {
        let tracker = ColumnFetchTracker { entries: RootMap::new(), queued: VecDeque::new() };
        proof {
            assert(tracker@ =~= no_fetches());
            no_fetches_are_consistent();
        }
        tracker
    }
}

impl ColumnFetchTracker {
    /// The tracked roots are distinct, every queued root stands in the queue,
    /// and the cap is kept.
    pub closed spec fn wf(&self) -> bool {
        self.entries.wf() && consistent(self@)
    }

    /// Every tracker is consistent.
    pub proof fn tracker_is_consistent(&self)
        requires
            self.wf(),
        ensures
            consistent(self@),
    {
    }

    /// Starts to track a root. Returns whether it was not tracked before.
    pub fn enqueue(&mut self, block_root: B256) -> (added: bool)
        requires
            old(self).wf(),
        ensures
            final(self).wf(),
            final(self)@ == after_enqueue(old(self)@, block_root),
            added == !old(self)@.entries.contains_key(block_root),
    {
        if self.entries.contains_key(&block_root) {
            return false;
        }
        proof {
            enqueue_keeps_consistent(self@, block_root);
        }
        let entry = FetchEntry {
            action_state: FetchActionState::Queued,
            tried_peers: PeerSet::new(),
        };
        self.entries.insert(block_root, entry);
        self.queued.push_back(block_root);
        assert(self@ =~= after_enqueue(old(self)@, block_root));
        true
    }

    /// Starts the next fetch: returns its root and every connected peer that has
    /// not yet been tried for it.
    pub fn next_fetch(&mut self, connected_peers: &[PeerId], now: u128) -> (next: Option<
        (B256, Vec<PeerId>),
    >)
        requires
            old(self).wf(),
        ensures
            final(self).wf(),
            final(self)@ == after_next_fetch(old(self)@, connected_peers@, now).0,
            match next {
                Some((root, peers)) => after_next_fetch(old(self)@, connected_peers@, now).1
                    == Some((root, peers@)),
                None => after_next_fetch(old(self)@, connected_peers@, now).1 is None,
            },
    {
        proof {
            next_fetch_keeps_consistent(self@, connected_peers@, now);
        }
        self.refresh_connected_peers(connected_peers, now);
        if self.count_in_flight() >= MAX_CONCURRENT_COLUMN_FETCHES {
            return None;
        }
        let ghost fresh = self@;
        loop
            invariant
                self.entries.wf(),
                started(self@, connected_peers@, now) == started(fresh, connected_peers@, now),
                after_next_fetch(old(self)@, connected_peers@, now) == started(
                    fresh,
                    connected_peers@,
                    now,
                ),
                consistent(after_next_fetch(old(self)@, connected_peers@, now).0),
            decreases self.queued@.len(),
        {
            let ghost before = self@;
            let block_root = match self.queued.pop_front() {
                Some(block_root) => block_root,
                None => {
                    assert(self@ == before);
                    return None;
                },
            };
            let ghost rest = Fetches { queue: before.queue.skip(1), ..before };
            assert(block_root == before.queue[0]);
            assert(self@.queue =~= rest.queue);
            assert(self@ =~= rest);
            let index = match self.entries.find(&block_root) {
                Some(index) => index,
                None => {
                    continue;
                },
            };
            let entry = &self.entries.entry(index).1;
            assert(before.entries[block_root] == entry@);
            if entry.action_state != FetchActionState::Queued {
                continue;
            }
            let mut tried_peers = entry.tried_peers.copy();
            let peers = select_untried(connected_peers, &tried_peers);
            if peers.len() == 0 {
                self.replace(
                    index,
                    FetchEntry {
                        action_state: FetchActionState::WaitingForPeers { since: now },
                        tried_peers,
                    },
                );
                continue;
            }
            tried_peers.extend(peers.as_slice());
            self.replace(
                index,
                FetchEntry { action_state: FetchActionState::InFlight, tried_peers },
            );
            return Some((block_root, peers));
        }
    }

    /// Ends a running fetch. A complete one is no longer tracked; any other
    /// waits for a peer that was not tried.
    pub fn finish(&mut self, block_root: B256, complete: bool, now: u128)
        requires
            old(self).wf(),
        ensures
            final(self).wf(),
            final(self)@ == after_finish(old(self)@, block_root, complete, now),
    {
        proof {
            finish_keeps_consistent(self@, block_root, complete, now);
        }
        let index = match self.entries.find(&block_root) {
            Some(index) => index,
            None => {
                return;
            },
        };
        let entry = &self.entries.entry(index).1;
        assert(self@.entries[block_root] == entry@);
        if entry.action_state != FetchActionState::InFlight {
            return;
        }
        if complete {
            proof {
                lemma_order_without(self.entries.items(), index as int);
            }
            self.entries.take_at(index);
            assert(self@ =~= after_finish(old(self)@, block_root, complete, now));
        } else {
            let tried_peers = entry.tried_peers.copy();
            self.replace(
                index,
                FetchEntry {
                    action_state: FetchActionState::WaitingForPeers { since: now },
                    tried_peers,
                },
            );
        }
    }

    /// Forgets disconnected peers and wakes waiting or parked roots only when an
    /// untried peer is available.
    fn refresh_connected_peers(&mut self, connected_peers: &[PeerId], now: u128)
        requires
            old(self).entries.wf(),
        ensures
            final(self).entries.wf(),
            final(self)@ == after_refresh(old(self)@, connected_peers@.to_set(), now),
    {
        let ghost start = self.entries.items();
        let ghost connected = connected_peers@.to_set();
        let ghost woken = |root: B256| wakes(old(self)@.entries[root], connected);
        let ghost change = |attempt: Attempt| refreshed(attempt, connected, now);
        let ghost order = roots_of(start);
        let mut index: usize = 0;
        proof {
            reveal(Seq::filter);
            assert(self.queued@ + order.take(0).filter(woken) =~= self.queued@);
        }
        while index < self.entries.len()
            invariant
                self.entries.wf(),
                distinct_roots(start),
                index <= start.len(),
                self.entries.items().len() == start.len(),
                order == roots_of(start),
                order == roots_of(self.entries.items()),
                connected == connected_peers@.to_set(),
                change == (|attempt: Attempt| refreshed(attempt, connected, now)),
                woken == (|root: B256| wakes(old(self)@.entries[root], connected)),
                start == old(self).entries.items(),
                forall|i: int|
                    0 <= i < index ==> (#[trigger] self.entries.items()[i]).1@ == change(
                        start[i].1@,
                    ),
                forall|i: int|
                    index <= i < start.len() ==> #[trigger] self.entries.items()[i] == start[i],
                self.queued@ == old(self).queued@ + order.take(index as int).filter(woken),
            decreases start.len() - index,
        {
            let ghost before = self.entries.items();
            let item = self.entries.entry(index);
            let block_root = item.0;
            let entry = &item.1;
            proof {
                lemma_entry_found(start, index as int);
                assert(old(self)@.entries[block_root] == entry@);
                assert(order[index as int] == block_root);
                reveal(Seq::filter);
                assert(order.take(index + 1).drop_last() =~= order.take(index as int));
                assert(order.take(index + 1).last() == block_root);
            }
            let can_try_peer = !all_tried(connected_peers, &entry.tried_peers);
            let tried_peers = entry.tried_peers.among(connected_peers);
            let state = entry.action_state;
            let wake = can_try_peer && match state {
                FetchActionState::WaitingForPeers { since } => true,
                FetchActionState::Parked => true,
                FetchActionState::Queued => false,
                FetchActionState::InFlight => false,
            };
            assert(wake == wakes(entry@, connected));
            let next = if wake {
                FetchActionState::Queued
            } else {
                match state {
                    FetchActionState::WaitingForPeers { since } => if now >= since && now - since
                        >= NO_COLUMN_PEER_TIMEOUT {
                        FetchActionState::Parked
                    } else {
                        state
                    },
                    _ => state,
                }
            };
            if wake {
                self.queued.push_back(block_root);
            }
            self.entries.set(index, FetchEntry { action_state: next, tried_peers });
            proof {
                assert(roots_of(self.entries.items()) =~= roots_of(before));
                assert(self.queued@ =~= old(self).queued@ + order.take(index + 1).filter(woken));
            }
            index = index + 1;
        }
        proof {
            lemma_attempts_correspond(start, self.entries.items(), change);
            assert(order.take(index as int) =~= order);
            assert(self@ =~= after_refresh(old(self)@, connected, now));
        }
    }

    /// Stops to track a root.
    pub fn remove(&mut self, block_root: &B256)
        requires
            old(self).wf(),
        ensures
            final(self).wf(),
            final(self)@ == after_remove(old(self)@, *block_root),
    {
        proof {
            remove_keeps_consistent(self@, *block_root);
        }
        match self.entries.find(block_root) {
            Some(index) => {
                proof {
                    lemma_order_without(self.entries.items(), index as int);
                }
                self.entries.take_at(index);
                assert(self@ =~= after_remove(old(self)@, *block_root));
            },
            None => {
                proof {
                    lemma_roots(self.entries.items());
                    assert forall|i: int| 0 <= i < self@.order.len() implies other_than(
                        *block_root,
                    )(#[trigger] self@.order[i]) by {
                        assert(self@.order.to_set().contains(self@.order[i]));
                    }
                    lemma_filter_all(self@.order, other_than(*block_root));
                }
                assert(self@ =~= after_remove(old(self)@, *block_root));
            },
        }
    }

    /// Counts a peer as untried for every root.
    pub fn peer_disconnected(&mut self, peer_id: PeerId)
        requires
            old(self).wf(),
        ensures
            final(self).wf(),
            final(self)@ == after_disconnect(old(self)@, peer_id),
    {
        proof {
            disconnect_keeps_consistent(self@, peer_id);
        }
        let ghost start = self.entries.items();
        let ghost change = |attempt: Attempt|
            Attempt { tried: attempt.tried.remove(peer_id), ..attempt };
        let mut index: usize = 0;
        while index < self.entries.len()
            invariant
                self.entries.wf(),
                self.queued == old(self).queued,
                index <= start.len(),
                self.entries.items().len() == start.len(),
                roots_of(start) == roots_of(self.entries.items()),
                change == (|attempt: Attempt|
                    Attempt { tried: attempt.tried.remove(peer_id), ..attempt }),
                forall|i: int|
                    0 <= i < index ==> (#[trigger] self.entries.items()[i]).1@ == change(
                        start[i].1@,
                    ),
                forall|i: int|
                    index <= i < start.len() ==> #[trigger] self.entries.items()[i] == start[i],
            decreases start.len() - index,
        {
            let ghost before = self.entries.items();
            let entry = &self.entries.entry(index).1;
            let tried_peers = entry.tried_peers.without(&peer_id);
            let action_state = entry.action_state;
            self.entries.set(index, FetchEntry { action_state, tried_peers });
            assert(roots_of(self.entries.items()) =~= roots_of(before));
            index = index + 1;
        }
        proof {
            lemma_attempts_correspond(start, self.entries.items(), change);
            assert(self@ =~= after_disconnect(old(self)@, peer_id));
        }
    }

    /// Stops to track every root that is not pending.
    pub fn retain_pending(&mut self, pending_roots: &[B256])
        requires
            old(self).wf(),
        ensures
            final(self).wf(),
            final(self)@ == after_retain(old(self)@, pending_roots@),
    {
        proof {
            retain_keeps_consistent(self@, pending_roots@);
            lemma_keep(self.entries.items(), pending_roots@);
        }
        self.entries.retain(pending_roots);
        let ghost wanted = |root: B256|
            old(self)@.entries.contains_key(root) && pending_roots@.contains(root);
        let ghost queue = self.queued@;
        let count: usize = self.queued.len();
        let mut index: usize = 0;
        proof {
            reveal(Seq::filter);
            assert(queue.skip(0) + queue.take(0).filter(wanted) =~= queue);
        }
        while index < count
            invariant
                self.entries.wf(),
                self.entries@ == old(self).entries@.restrict(pending_roots@.to_set()),
                self.entries.items() == old(self).entries.items().filter(
                    rooted_in(pending_roots@),
                ),
                wanted == (|root: B256|
                    old(self)@.entries.contains_key(root) && pending_roots@.contains(root)),
                count == queue.len(),
                index <= count,
                self.queued@ == queue.skip(index as int) + queue.take(index as int).filter(wanted),
            decreases count - index,
        {
            proof {
                reveal(Seq::filter);
                assert(queue.take(index + 1).drop_last() =~= queue.take(index as int));
            }
            match self.queued.pop_front() {
                Some(block_root) => {
                    assert(block_root == queue[index as int]);
                    if self.entries.contains_key(&block_root) {
                        self.queued.push_back(block_root);
                    }
                },
                None => {},
            }
            assert(self.queued@ =~= queue.skip(index + 1) + queue.take(index + 1).filter(wanted));
            index = index + 1;
        }
        proof {
            assert(queue.take(count as int) =~= queue);
            assert(self.queued@ =~= queue.filter(wanted));
            assert(self@.entries =~= after_retain(old(self)@, pending_roots@).entries);
            assert(self@ =~= after_retain(old(self)@, pending_roots@));
        }
    }

    /// How many fetches are running.
    pub fn in_flight_count(&self) -> (count: usize)
        requires
            self.wf(),
        ensures
            count == in_flight(self@.entries).len(),
    {
        self.count_in_flight()
    }

    /// How many fetches are running.
    fn count_in_flight(&self) -> (count: usize)
        requires
            self.entries.wf(),
        ensures
            count == in_flight(self@.entries).len(),
    {
        let ghost items = self.entries.items();
        let ghost mut running: Set<B256> = Set::empty();
        let mut count: usize = 0;
        let mut index: usize = 0;
        while index < self.entries.len()
            invariant
                self.entries.wf(),
                items == self.entries.items(),
                count <= index <= items.len(),
                running.finite(),
                count == running.len(),
                forall|root: B256| #[trigger]
                    running.contains(root) <==> exists|i: int|
                        0 <= i < index && (#[trigger] items[i]).0 == root && items[i].1@.state
                            == FetchActionState::InFlight,
            decreases items.len() - index,
        {
            let item = self.entries.entry(index);
            let ghost root = item.0;
            if item.1.action_state == FetchActionState::InFlight {
                assert(!running.contains(root)) by {
                    assert forall|i: int| 0 <= i < index implies (#[trigger] items[i]).0 != root by {
                        assert(items[i].0 != items[index as int].0);
                    }
                }
                proof {
                    let next = running.insert(root);
                    assert forall|other: B256| #[trigger]
                        next.contains(other) <==> exists|i: int|
                            0 <= i < index + 1 && (#[trigger] items[i]).0 == other
                                && items[i].1@.state == FetchActionState::InFlight by {
                        if other == root {
                            assert(items[index as int].0 == other);
                        }
                    }
                    running = next;
                }
                count = count + 1;
            }
            index = index + 1;
        }
        proof {
            assert(running =~= in_flight(self@.entries)) by {
                assert forall|root: B256| running.contains(root) == in_flight(
                    self@.entries,
                ).contains(root) by {
                    if running.contains(root) {
                        let i = choose|i: int|
                            0 <= i < items.len() && (#[trigger] items[i]).0 == root
                                && items[i].1@.state == FetchActionState::InFlight;
                        lemma_entry_found(items, i);
                    }
                    if in_flight(self@.entries).contains(root) {
                        let i = position_of(items, root);
                        lemma_entry_found(items, i);
                    }
                }
            }
        }
        count
    }

    /// Where the fetch of a root stands.
    pub fn action_state(&self, block_root: &B256) -> (state: Option<FetchActionState>)
        requires
            self.wf(),
        ensures
            state == (if self@.entries.contains_key(*block_root) {
                Some(self@.entries[*block_root].state)
            } else {
                None
            }),
    {
        match self.entries.get(block_root) {
            Some(entry) => Some(entry.action_state),
            None => None,
        }
    }

    /// Replaces the fetch at a position.
    fn replace(&mut self, index: usize, entry: FetchEntry)
        requires
            old(self).entries.wf(),
            index < old(self).entries.items().len(),
        ensures
            final(self).entries.wf(),
            final(self)@ == with_attempt(
                old(self)@,
                old(self).entries.items()[index as int].0,
                entry@,
            ),
    {
        let ghost before = self.entries.items();
        let ghost attempt = entry@;
        self.entries.set(index, entry);
        assert(roots_of(self.entries.items()) =~= roots_of(before));
        assert(self@ =~= with_attempt(old(self)@, before[index as int].0, attempt));
    }
}

/// The peers of `peers` that are not in `tried`, in order and each once.
fn select_untried(peers: &[PeerId], tried: &PeerSet) -> (selected: Vec<PeerId>)
    ensures
        selected@ == untried(peers@, tried@),
{
    let mut selected: Vec<PeerId> = Vec::new();
    let mut index: usize = 0;
    while index < peers.len()
        invariant
            index <= peers@.len(),
            selected@ == untried(peers@.take(index as int), tried@),
        decreases peers@.len() - index,
    {
        let peer = peers[index];
        assert(peers@.take(index + 1).drop_last() =~= peers@.take(index as int));
        if !tried.contains(&peer) && !contains_peer(selected.as_slice(), &peer) {
            selected.push(peer);
        }
        index = index + 1;
    }
    assert(peers@.take(peers@.len() as int) =~= peers@);
    selected
}

/// Whether every peer of `peers` is in `tried`.
fn all_tried(peers: &[PeerId], tried: &PeerSet) -> (all: bool)
    ensures
        all == peers@.to_set().subset_of(tried@),
{
    let mut index: usize = 0;
    while index < peers.len()
        invariant
            index <= peers@.len(),
            forall|i: int| 0 <= i < index ==> tried@.contains(#[trigger] peers@[i]),
        decreases peers@.len() - index,
    {
        if !tried.contains(&peers[index]) {
            assert(peers@.to_set().contains(peers@[index as int]));
            return false;
        }
        index = index + 1;
    }
    true
}

} // verus!
