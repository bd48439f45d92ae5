//! What a tracker of column fetches does, and what holds of every tracker.
use vstd::prelude::*;

use crate::bytes::B256;
use crate::peer::PeerId;

verus! {

/// How long a fetch without an untried peer waits before it is parked, in
/// nanoseconds: 30 seconds. A new or reconnected peer can still wake it later.
pub const NO_COLUMN_PEER_TIMEOUT: u128 = 30_000_000_000;

/// How many fetches may run at a time. A full 128-column response is about
/// 2.5 MiB, so this keeps buffered responses around 80 MiB.
pub const MAX_CONCURRENT_COLUMN_FETCHES: usize = 32;

/// Where the fetch of one root stands. Times are nanoseconds of one monotonic
/// clock.
#[derive(Debug, Clone, Copy, PartialEq, Eq, Structural)]
pub enum FetchActionState {
    /// The fetch waits for its turn.
    Queued,
    /// The fetch is running.
    InFlight,
    /// Every connected peer has been tried.
    WaitingForPeers { since: u128 },
    /// No untried peer appeared within the timeout.
    Parked,
}

/// The fetch of one root: its state and the peers already tried.
#[verifier::ext_equal]
pub struct Attempt {
    pub state: FetchActionState,
    pub tried: Set<PeerId>,
}

/// The fetches of a tracker: the fetches by root, the
/// roots in the order in which they were enqueued, and the queue of roots to
/// look at next. The queue may name roots that are no longer tracked.
#[verifier::ext_equal]
pub struct Fetches {
    pub entries: Map<B256, Attempt>,
    pub order: Seq<B256>,
    pub queue: Seq<B256>,
}

/// No fetches.
pub open spec fn no_fetches() -> Fetches {
    Fetches { entries: Map::empty(), order: Seq::empty(), queue: Seq::empty() }
}

/// The roots whose fetch is running.
pub open spec fn in_flight(entries: Map<B256, Attempt>) -> Set<B256> {
    entries.dom().filter(|root: B256| entries[root].state == FetchActionState::InFlight)
}

/// The tracked roots are listed once each, every queued root stands in the
/// queue, and no more fetches run than the cap allows.
pub open spec fn consistent(fetches: Fetches) -> bool {
    &&& fetches.order.no_duplicates()
    &&& fetches.order.to_set() == fetches.entries.dom()
    &&& fetches.entries.dom().finite()
    &&& forall|root: B256| #[trigger]
        fetches.entries.contains_key(root) && fetches.entries[root].state
            == FetchActionState::Queued ==> fetches.queue.contains(root)
    &&& in_flight(fetches.entries).len() <= MAX_CONCURRENT_COLUMN_FETCHES
}

/// The time from `since` to `now`, zero if the clock went backwards.
pub open spec fn elapsed(since: u128, now: u128) -> int {
    if now >= since {
        now - since
    } else {
        0
    }
}

/// Whether some connected peer has not been tried since it connected.
pub open spec fn has_untried_peer(attempt: Attempt, connected: Set<PeerId>) -> bool {
    !connected.subset_of(attempt.tried)
}

/// Whether a fetch that was waiting or parked has a peer to try again.
pub open spec fn wakes(attempt: Attempt, connected: Set<PeerId>) -> bool {
    (attempt.state is WaitingForPeers || attempt.state is Parked) && has_untried_peer(
        attempt,
        connected,
    )
}

/// A fetch once the connected peers are known: peers that are gone count as
/// untried, a fetch with a peer to try is queued again, and one that has waited
/// for the timeout is parked.
pub open spec fn refreshed(attempt: Attempt, connected: Set<PeerId>, now: u128) -> Attempt {
    Attempt {
        state: if wakes(attempt, connected) {
            FetchActionState::Queued
        } else {
            match attempt.state {
                FetchActionState::WaitingForPeers { since } => if elapsed(since, now)
                    >= NO_COLUMN_PEER_TIMEOUT {
                    FetchActionState::Parked
                } else {
                    attempt.state
                },
                _ => attempt.state,
            }
        },
        tried: attempt.tried.intersect(connected),
    }
}

/// All fetches once the connected peers are known. Woken roots join the queue
/// in the order in which they were enqueued.
pub open spec fn after_refresh(fetches: Fetches, connected: Set<PeerId>, now: u128) -> Fetches {
    Fetches {
        entries: fetches.entries.map_values(|attempt: Attempt| refreshed(attempt, connected, now)),
        order: fetches.order,
        queue: fetches.queue + fetches.order.filter(
            |root: B256| wakes(fetches.entries[root], connected),
        ),
    }
}

/// The peers of `peers` that are not in `tried`, in order and each once.
pub open spec fn untried(peers: Seq<PeerId>, tried: Set<PeerId>) -> Seq<PeerId>
    decreases peers.len(),
{
    if peers.len() == 0 {
        Seq::empty()
    } else {
        let before = untried(peers.drop_last(), tried);
        if tried.contains(peers.last()) || before.contains(peers.last()) {
            before
        } else {
            before.push(peers.last())
        }
    }
}

/// Gives the fetch of a tracked root a new value.
pub open spec fn with_attempt(fetches: Fetches, root: B256, attempt: Attempt) -> Fetches {
    Fetches { entries: fetches.entries.insert(root, attempt), ..fetches }
}

/// Starts the first queued root that has an untried peer. Roots in front of it
/// leave the queue; those among them that are queued wait for peers from now on.
pub open spec fn started(fetches: Fetches, peers: Seq<PeerId>, now: u128) -> (
    Fetches,
    Option<(B256, Seq<PeerId>)>,
)
    decreases fetches.queue.len(),
{
    if fetches.queue.len() == 0 {
        (fetches, None)
    } else {
        let root = fetches.queue[0];
        let rest = Fetches { queue: fetches.queue.skip(1), ..fetches };
        let attempt = fetches.entries[root];
        let candidates = untried(peers, attempt.tried);
        if !fetches.entries.contains_key(root) || attempt.state != FetchActionState::Queued {
            started(rest, peers, now)
        } else if candidates.len() == 0 {
            let waiting = Attempt {
                state: FetchActionState::WaitingForPeers { since: now },
                ..attempt
            };
            started(with_attempt(rest, root, waiting), peers, now)
        } else {
            let running = Attempt {
                state: FetchActionState::InFlight,
                tried: attempt.tried.union(candidates.to_set()),
            };
            (with_attempt(rest, root, running), Some((root, candidates)))
        }
    }
}

/// Refreshes the fetches and starts the next one, unless the cap is reached.
pub open spec fn after_next_fetch(fetches: Fetches, peers: Seq<PeerId>, now: u128) -> (
    Fetches,
    Option<(B256, Seq<PeerId>)>,
) {
    let fresh = after_refresh(fetches, peers.to_set(), now);
    if in_flight(fresh.entries).len() >= MAX_CONCURRENT_COLUMN_FETCHES {
        (fresh, None)
    } else {
        started(fresh, peers, now)
    }
}

/// Starts to track a root that is not tracked yet.
pub open spec fn after_enqueue(fetches: Fetches, root: B256) -> Fetches {
    if fetches.entries.contains_key(root) {
        fetches
    } else {
        Fetches {
            entries: fetches.entries.insert(
                root,
                Attempt { state: FetchActionState::Queued, tried: Set::empty() },
            ),
            order: fetches.order.push(root),
            queue: fetches.queue.push(root),
        }
    }
}

/// Holds of every root but one.
pub open spec fn other_than(root: B256) -> spec_fn(B256) -> bool {
    |other: B256| other != root
}

/// Stops to track a root.
pub open spec fn after_remove(fetches: Fetches, root: B256) -> Fetches {
    Fetches {
        entries: fetches.entries.remove(root),
        order: fetches.order.filter(other_than(root)),
        queue: fetches.queue,
    }
}

/// Ends a running fetch: a complete one is no longer tracked, any other waits
/// for another peer. A fetch that is not running is left alone.
pub open spec fn after_finish(fetches: Fetches, root: B256, complete: bool, now: u128) -> Fetches {
    if !in_flight(fetches.entries).contains(root) {
        fetches
    } else if complete {
        after_remove(fetches, root)
    } else {
        with_attempt(
            fetches,
            root,
            Attempt {
                state: FetchActionState::WaitingForPeers { since: now },
                ..fetches.entries[root]
            },
        )
    }
}

/// Counts a peer as untried for every root.
pub open spec fn after_disconnect(fetches: Fetches, peer: PeerId) -> Fetches {
    Fetches {
        entries: fetches.entries.map_values(
            |attempt: Attempt| Attempt { tried: attempt.tried.remove(peer), ..attempt },
        ),
        ..fetches
    }
}

/// Stops to track every root that is not pending.
pub open spec fn after_retain(fetches: Fetches, pending: Seq<B256>) -> Fetches {
    Fetches {
        entries: fetches.entries.restrict(pending.to_set()),
        order: fetches.order.filter(|root: B256| pending.contains(root)),
        queue: fetches.queue.filter(
            |root: B256| fetches.entries.contains_key(root) && pending.contains(root),
        ),
    }
}

/// Replacing one fetch adds its root to the running ones or takes it out.
proof fn lemma_in_flight_insert(entries: Map<B256, Attempt>, root: B256, attempt: Attempt)
    ensures
        in_flight(entries.insert(root, attempt)) == (if attempt.state
            == FetchActionState::InFlight {
            in_flight(entries).insert(root)
        } else {
            in_flight(entries).remove(root)
        }),
{
    let after = entries.insert(root, attempt);
    assert(in_flight(after) =~= if attempt.state == FetchActionState::InFlight {
        in_flight(entries).insert(root)
    } else {
        in_flight(entries).remove(root)
    });
}

/// Filtering keeps a sequence free of duplicates.
proof fn lemma_filter_distinct(roots: Seq<B256>, wanted: spec_fn(B256) -> bool)
    requires
        roots.no_duplicates(),
    ensures
        roots.filter(wanted).no_duplicates(),
    decreases roots.len(),
{
    reveal(Seq::filter);
    if roots.len() > 0 {
        let start = roots.drop_last();
        lemma_filter_distinct(start, wanted);
        broadcast use vstd::seq_lib::group_filter_ensures;

        let kept = start.filter(wanted);
        assert forall|i: int| 0 <= i < kept.len() implies kept[i] != roots.last() by {
            start.lemma_filter_contains_rev(wanted, kept[i]);
            assert(start.contains(kept[i]));
            let j = choose|j: int| 0 <= j < start.len() && start[j] == kept[i];
            assert(roots[j] == kept[i]);
        }
    }
}

/// A filtered sequence holds exactly the wanted members.
proof fn lemma_filter_members(roots: Seq<B256>, wanted: spec_fn(B256) -> bool)
    ensures
        forall|root: B256| #[trigger]
            roots.filter(wanted).contains(root) <==> roots.contains(root) && wanted(root),
{
    broadcast use vstd::seq_lib::group_filter_ensures;

    assert forall|root: B256| #[trigger] roots.filter(wanted).contains(root) implies roots.contains(
        root,
    ) && wanted(root) by {
        roots.lemma_filter_contains_rev(wanted, root);
        let i = choose|i: int|
            0 <= i < roots.filter(wanted).len() && roots.filter(wanted)[i] == root;
        assert(wanted(roots.filter(wanted)[i]));
    }
    assert forall|root: B256| roots.contains(root) && wanted(root) implies #[trigger] roots.filter(
        wanted,
    ).contains(root) by {
        let i = choose|i: int| 0 <= i < roots.len() && roots[i] == root;
        assert(roots.filter(wanted).contains(roots[i]));
    }
}

/// A tracker without fetches is consistent.
pub proof fn no_fetches_are_consistent()
    ensures
        consistent(no_fetches()),
{
    let none = no_fetches();
    assert(none.order.to_set() =~= none.entries.dom());
    assert(in_flight(none.entries) =~= Set::<B256>::empty());
}

/// Enqueueing keeps a tracker consistent.
pub proof fn enqueue_keeps_consistent(fetches: Fetches, root: B256)
    requires
        consistent(fetches),
    ensures
        consistent(after_enqueue(fetches, root)),
{
    let after = after_enqueue(fetches, root);
    if !fetches.entries.contains_key(root) {
        assert(!fetches.order.contains(root)) by {
            if fetches.order.contains(root) {
                assert(fetches.order.to_set().contains(root));
            }
        }
        fetches.order.lemma_push_to_set_commute(root);
        assert(after.entries.dom() =~= after.order.to_set());
        lemma_in_flight_insert(fetches.entries, root, after.entries[root]);
        assert(in_flight(fetches.entries).remove(root) =~= in_flight(fetches.entries));
        assert forall|other: B256| #[trigger]
            after.entries.contains_key(other) && after.entries[other].state
                == FetchActionState::Queued implies after.queue.contains(other) by {
            if other == root {
                assert(after.queue.last() == root);
            } else {
                assert(fetches.entries.contains_key(other));
                let i = choose|i: int|
                    0 <= i < fetches.queue.len() && fetches.queue[i] == other;
                assert(after.queue[i] == other);
            }
        }
    }
}

/// Giving up on a root keeps a tracker consistent.
pub proof fn remove_keeps_consistent(fetches: Fetches, root: B256)
    requires
        consistent(fetches),
    ensures
        consistent(after_remove(fetches, root)),
{
    let after = after_remove(fetches, root);
    let wanted = other_than(root);
    lemma_filter_distinct(fetches.order, wanted);
    lemma_filter_members(fetches.order, wanted);
    assert(after.order.to_set() =~= after.entries.dom()) by {
        assert forall|other: B256| after.order.to_set().contains(other)
            == after.entries.dom().contains(other) by {
            assert(fetches.order.contains(other) == fetches.order.to_set().contains(other));
        }
    }
    assert(in_flight(after.entries) =~= in_flight(fetches.entries).remove(root));
    assert forall|other: B256| #[trigger]
        after.entries.contains_key(other) && after.entries[other].state
            == FetchActionState::Queued implies after.queue.contains(other) by {
        assert(fetches.entries.contains_key(other));
    }
}

/// Ending a fetch keeps a tracker consistent.
pub proof fn finish_keeps_consistent(fetches: Fetches, root: B256, complete: bool, now: u128)
    requires
        consistent(fetches),
    ensures
        consistent(after_finish(fetches, root, complete, now)),
{
    if in_flight(fetches.entries).contains(root) {
        if complete {
            remove_keeps_consistent(fetches, root);
        } else {
            let after = after_finish(fetches, root, complete, now);
            lemma_in_flight_insert(fetches.entries, root, after.entries[root]);
            assert(after.entries.dom() =~= fetches.entries.dom());
            assert forall|other: B256| #[trigger]
                after.entries.contains_key(other) && after.entries[other].state
                    == FetchActionState::Queued implies after.queue.contains(other) by {
                assert(fetches.entries.contains_key(other));
            }
        }
    }
}

/// The loss of a peer keeps a tracker consistent.
pub proof fn disconnect_keeps_consistent(fetches: Fetches, peer: PeerId)
    requires
        consistent(fetches),
    ensures
        consistent(after_disconnect(fetches, peer)),
{
    let after = after_disconnect(fetches, peer);
    assert(after.entries.dom() =~= fetches.entries.dom());
    assert(in_flight(after.entries) =~= in_flight(fetches.entries));
    assert forall|other: B256| #[trigger]
        after.entries.contains_key(other) && after.entries[other].state
            == FetchActionState::Queued implies after.queue.contains(other) by {
        assert(fetches.entries.contains_key(other));
    }
}

/// Dropping the roots that are not pending keeps a tracker consistent.
pub proof fn retain_keeps_consistent(fetches: Fetches, pending: Seq<B256>)
    requires
        consistent(fetches),
    ensures
        consistent(after_retain(fetches, pending)),
{
    let after = after_retain(fetches, pending);
    let wanted = |root: B256| pending.contains(root);
    lemma_filter_distinct(fetches.order, wanted);
    lemma_filter_members(fetches.order, wanted);
    lemma_filter_members(
        fetches.queue,
        |root: B256| fetches.entries.contains_key(root) && pending.contains(root),
    );
    assert(after.order.to_set() =~= after.entries.dom()) by {
        assert forall|other: B256| after.order.to_set().contains(other)
            == after.entries.dom().contains(other) by {
            assert(fetches.order.contains(other) == fetches.order.to_set().contains(other));
        }
    }
    assert(after.entries.dom() =~= fetches.entries.dom().intersect(pending.to_set()));
    assert(in_flight(after.entries).subset_of(in_flight(fetches.entries)));
    vstd::set_lib::lemma_len_subset(in_flight(after.entries), in_flight(fetches.entries));
    assert forall|other: B256| #[trigger]
        after.entries.contains_key(other) && after.entries[other].state
            == FetchActionState::Queued implies after.queue.contains(other) by {
        assert(fetches.entries.contains_key(other));
    }
}

/// Learning the connected peers keeps a tracker consistent and starts nothing.
pub proof fn refresh_keeps_consistent(fetches: Fetches, connected: Set<PeerId>, now: u128)
    requires
        consistent(fetches),
    ensures
        consistent(after_refresh(fetches, connected, now)),
        in_flight(after_refresh(fetches, connected, now).entries) == in_flight(fetches.entries),
{
    let after = after_refresh(fetches, connected, now);
    let woken = |root: B256| wakes(fetches.entries[root], connected);
    assert(after.entries.dom() =~= fetches.entries.dom());
    assert(in_flight(after.entries) =~= in_flight(fetches.entries));
    lemma_filter_members(fetches.order, woken);
    assert forall|other: B256| #[trigger]
        after.entries.contains_key(other) && after.entries[other].state
            == FetchActionState::Queued implies after.queue.contains(other) by {
        assert(fetches.entries.contains_key(other));
        if fetches.entries[other].state == FetchActionState::Queued {
            let i = choose|i: int| 0 <= i < fetches.queue.len() && fetches.queue[i] == other;
            assert(after.queue[i] == other);
        } else {
            assert(woken(other));
            assert(fetches.order.to_set().contains(other));
            let added = fetches.order.filter(woken);
            assert(added.contains(other));
            let i = choose|i: int| 0 <= i < added.len() && added[i] == other;
            assert(after.queue[fetches.queue.len() + i] == other);
        }
    }
}

/// Starting a fetch below the cap keeps a tracker consistent.
pub proof fn start_keeps_consistent(fetches: Fetches, peers: Seq<PeerId>, now: u128)
    requires
        consistent(fetches),
        in_flight(fetches.entries).len() < MAX_CONCURRENT_COLUMN_FETCHES,
    ensures
        consistent(started(fetches, peers, now).0),
    decreases fetches.queue.len(),
{
    if fetches.queue.len() > 0 {
        let root = fetches.queue[0];
        let rest = Fetches { queue: fetches.queue.skip(1), ..fetches };
        let attempt = fetches.entries[root];
        let candidates = untried(peers, attempt.tried);
        assert forall|other: B256| other != root && fetches.queue.contains(other) implies
            #[trigger] rest.queue.contains(other) by {
            let i = choose|i: int| 0 <= i < fetches.queue.len() && fetches.queue[i] == other;
            assert(rest.queue[i - 1] == other);
        }
        if !fetches.entries.contains_key(root) || attempt.state != FetchActionState::Queued {
            start_keeps_consistent(rest, peers, now);
        } else {
            let next = Attempt {
                state: if candidates.len() == 0 {
                    FetchActionState::WaitingForPeers { since: now }
                } else {
                    FetchActionState::InFlight
                },
                tried: if candidates.len() == 0 {
                    attempt.tried
                } else {
                    attempt.tried.union(candidates.to_set())
                },
            };
            let after = with_attempt(rest, root, next);
            lemma_in_flight_insert(fetches.entries, root, next);
            assert(after.entries.dom() =~= fetches.entries.dom());
            assert forall|other: B256| #[trigger]
                after.entries.contains_key(other) && after.entries[other].state
                    == FetchActionState::Queued implies after.queue.contains(other) by {
                assert(fetches.entries.contains_key(other));
            }
            if candidates.len() == 0 {
                start_keeps_consistent(after, peers, now);
            }
        }
    }
}

/// Asking for the next fetch keeps a tracker consistent.
pub proof fn next_fetch_keeps_consistent(fetches: Fetches, peers: Seq<PeerId>, now: u128)
    requires
        consistent(fetches),
    ensures
        consistent(after_next_fetch(fetches, peers, now).0),
{
    refresh_keeps_consistent(fetches, peers.to_set(), now);
    let fresh = after_refresh(fetches, peers.to_set(), now);
    if in_flight(fresh.entries).len() < MAX_CONCURRENT_COLUMN_FETCHES {
        start_keeps_consistent(fresh, peers, now);
    }
}

/// The selected peers are the connected ones that were not tried, each once.
pub proof fn selected_peers_are_untried(peers: Seq<PeerId>, tried: Set<PeerId>)
    ensures
        untried(peers, tried).no_duplicates(),
        untried(peers, tried).to_set() == peers.to_set().difference(tried),
    decreases peers.len(),
{
    if peers.len() == 0 {
        assert(untried(peers, tried).to_set() =~= peers.to_set().difference(tried));
    } else {
        let start = peers.drop_last();
        let last = peers.last();
        selected_peers_are_untried(start, tried);
        assert(peers =~= start.push(last));
        start.lemma_push_to_set_commute(last);
        let before = untried(start, tried);
        before.lemma_push_to_set_commute(last);
        assert(before.contains(last) == before.to_set().contains(last));
        assert(untried(peers, tried).to_set() =~= peers.to_set().difference(tried));
    }
}

/// A root that is enqueued while it is tracked changes nothing: its tried peers
/// are kept and it is not queued twice.
pub proof fn root_is_tracked_once(fetches: Fetches, root: B256)
    requires
        fetches.entries.contains_key(root),
    ensures
        after_enqueue(fetches, root) == fetches,
        after_enqueue(after_enqueue(fetches, root), root) == after_enqueue(fetches, root),
{
}

/// A started root was queued, is running afterwards, and is asked of every
/// connected peer that was not tried, each once. No other root starts or ends,
/// and none is lost.
pub proof fn start_takes_one_queued_root(fetches: Fetches, peers: Seq<PeerId>, now: u128)
    ensures
        ({
            let (after, next) = started(fetches, peers, now);
            &&& after.entries.dom() == fetches.entries.dom()
            &&& after.order == fetches.order
            &&& match next {
                Some((root, selected)) => {
                    &&& fetches.entries.contains_key(root)
                    &&& fetches.entries[root].state == FetchActionState::Queued
                    &&& selected.len() > 0
                    &&& selected == untried(peers, fetches.entries[root].tried)
                    &&& after.entries[root] == Attempt {
                        state: FetchActionState::InFlight,
                        tried: fetches.entries[root].tried.union(selected.to_set()),
                    }
                    &&& in_flight(after.entries) == in_flight(fetches.entries).insert(root)
                },
                None => in_flight(after.entries) == in_flight(fetches.entries),
            }
            &&& forall|other: B256| #[trigger]
                fetches.entries.contains_key(other) && next != Some(
                    (other, untried(peers, fetches.entries[other].tried)),
                ) ==> after.entries[other].tried == fetches.entries[other].tried && (
                after.entries[other].state == fetches.entries[other].state || (
                fetches.entries[other].state == FetchActionState::Queued
                    && after.entries[other].state == FetchActionState::WaitingForPeers { since: now }
                    && untried(peers, fetches.entries[other].tried).len() == 0))
        }),
    decreases fetches.queue.len(),
{
    let (after, next) = started(fetches, peers, now);
    if fetches.queue.len() > 0 {
        let root = fetches.queue[0];
        let rest = Fetches { queue: fetches.queue.skip(1), ..fetches };
        let attempt = fetches.entries[root];
        let candidates = untried(peers, attempt.tried);
        if !fetches.entries.contains_key(root) || attempt.state != FetchActionState::Queued {
            start_takes_one_queued_root(rest, peers, now);
        } else if candidates.len() == 0 {
            let waiting = Attempt {
                state: FetchActionState::WaitingForPeers { since: now },
                ..attempt
            };
            let middle = with_attempt(rest, root, waiting);
            start_takes_one_queued_root(middle, peers, now);
            lemma_in_flight_insert(fetches.entries, root, waiting);
            assert(in_flight(fetches.entries).remove(root) =~= in_flight(fetches.entries));
            assert(middle.entries.dom() =~= fetches.entries.dom());
            assert forall|other: B256| #[trigger] fetches.entries.contains_key(other) implies
                middle.entries.contains_key(other) by {}
        } else {
            let running = Attempt {
                state: FetchActionState::InFlight,
                tried: attempt.tried.union(candidates.to_set()),
            };
            lemma_in_flight_insert(fetches.entries, root, running);
            assert(after.entries.dom() =~= fetches.entries.dom());
        }
    }
}

/// While the cap is not reached, nothing is started exactly if no queued root
/// has an untried peer.
pub proof fn nothing_starts_only_without_work(fetches: Fetches, peers: Seq<PeerId>, now: u128)
    requires
        consistent(fetches),
    ensures
        started(fetches, peers, now).1 is None <==> forall|root: B256| #[trigger]
            fetches.entries.contains_key(root) && fetches.entries[root].state
                == FetchActionState::Queued ==> untried(
                peers,
                fetches.entries[root].tried,
            ).len() == 0,
{
    lemma_nothing_starts(fetches, peers, now);
    if started(fetches, peers, now).1 is Some {
        start_takes_one_queued_root(fetches, peers, now);
    }
}

/// If nothing is started, no queued root in the queue has an untried peer.
proof fn lemma_nothing_starts(fetches: Fetches, peers: Seq<PeerId>, now: u128)
    ensures
        started(fetches, peers, now).1 is None ==> forall|i: int|
            0 <= i < fetches.queue.len() && fetches.entries.contains_key(
                #[trigger] fetches.queue[i],
            ) && fetches.entries[fetches.queue[i]].state == FetchActionState::Queued ==> untried(
                peers,
                fetches.entries[fetches.queue[i]].tried,
            ).len() == 0,
    decreases fetches.queue.len(),
{
    if fetches.queue.len() > 0 && started(fetches, peers, now).1 is None {
        let root = fetches.queue[0];
        let rest = Fetches { queue: fetches.queue.skip(1), ..fetches };
        let attempt = fetches.entries[root];
        let waiting = Attempt {
            state: FetchActionState::WaitingForPeers { since: now },
            ..attempt
        };
        let queued = fetches.entries.contains_key(root) && attempt.state
            == FetchActionState::Queued;
        let next = if queued {
            with_attempt(rest, root, waiting)
        } else {
            rest
        };
        lemma_nothing_starts(next, peers, now);
        assert forall|i: int|
            0 <= i < fetches.queue.len() && fetches.entries.contains_key(
                #[trigger] fetches.queue[i],
            ) && fetches.entries[fetches.queue[i]].state == FetchActionState::Queued implies untried(
            peers,
            fetches.entries[fetches.queue[i]].tried,
        ).len() == 0 by {
            if i > 0 {
                assert(next.queue[i - 1] == fetches.queue[i]);
                if fetches.queue[i] == root {
                    assert(queued);
                }
            }
        }
    }
}

/// While as many fetches run as the cap allows, none is started, whatever peers
/// are connected; the queued roots stay queued.
pub proof fn cap_holds_back_new_fetches(fetches: Fetches, peers: Seq<PeerId>, now: u128)
    requires
        consistent(fetches),
        in_flight(fetches.entries).len() >= MAX_CONCURRENT_COLUMN_FETCHES,
    ensures
        after_next_fetch(fetches, peers, now) == (
            after_refresh(fetches, peers.to_set(), now),
            None::<(B256, Seq<PeerId>)>,
        ),
        forall|root: B256| #[trigger]
            fetches.entries.contains_key(root) && fetches.entries[root].state
                == FetchActionState::Queued ==> after_next_fetch(
                fetches,
                peers,
                now,
            ).0.entries[root].state == FetchActionState::Queued,
{
    refresh_keeps_consistent(fetches, peers.to_set(), now);
}

/// Tracked roots are lost only by being removed, completed or no longer
/// pending: enqueueing, the next fetch, an incomplete end and the loss of a peer
/// keep every root.
pub proof fn roots_are_not_lost(
    fetches: Fetches,
    root: B256,
    other: B256,
    peers: Seq<PeerId>,
    peer: PeerId,
    now: u128,
)
    requires
        fetches.entries.contains_key(root),
    ensures
        after_enqueue(fetches, other).entries.contains_key(root),
        after_next_fetch(fetches, peers, now).0.entries.contains_key(root),
        after_finish(fetches, other, false, now).entries.contains_key(root),
        after_finish(fetches, other, true, now).entries.contains_key(root) || other == root,
        after_disconnect(fetches, peer).entries.contains_key(root),
{
    let fresh = after_refresh(fetches, peers.to_set(), now);
    start_takes_one_queued_root(fresh, peers, now);
    assert(fresh.entries.contains_key(root));
    assert(started(fresh, peers, now).0.entries.dom().contains(root));
}

/// A fetch that ended incomplete is not started again while no other peer
/// connects, and is queued again as soon as one does.
pub proof fn incomplete_fetch_waits_for_a_new_peer(
    attempt: Attempt,
    connected: Set<PeerId>,
    now: u128,
)
    requires
        attempt.state is WaitingForPeers || attempt.state is Parked,
    ensures
        connected.subset_of(attempt.tried) ==> refreshed(attempt, connected, now).state
            != FetchActionState::Queued,
        !connected.subset_of(attempt.tried) ==> refreshed(attempt, connected, now).state
            == FetchActionState::Queued,
{
}

/// A fetch without a peer to try is parked once it has waited for the timeout,
/// and not before.
pub proof fn waiting_fetch_parks_after_the_timeout(
    tried: Set<PeerId>,
    since: u128,
    connected: Set<PeerId>,
    now: u128,
)
    requires
        connected.subset_of(tried),
    ensures
        ({
            let waiting = Attempt { state: FetchActionState::WaitingForPeers { since }, tried };
            refreshed(waiting, connected, now).state == if now - since >= NO_COLUMN_PEER_TIMEOUT {
                FetchActionState::Parked
            } else {
                FetchActionState::WaitingForPeers { since }
            }
        }),
{
}

/// A peer that disconnected counts as untried, so a parked fetch that had tried
/// it is queued again when the peer is back.
pub proof fn reconnected_peer_wakes_a_fetch(
    attempt: Attempt,
    peer: PeerId,
    connected: Set<PeerId>,
    now: u128,
)
    requires
        attempt.state is WaitingForPeers || attempt.state is Parked,
        connected.contains(peer),
    ensures
        refreshed(
            Attempt { tried: attempt.tried.remove(peer), ..attempt },
            connected,
            now,
        ).state == FetchActionState::Queued,
{
}

/// A root that was removed or is no longer pending may be enqueued afresh: it
/// starts without tried peers.
pub proof fn dropped_root_starts_fresh(fetches: Fetches, root: B256, pending: Seq<B256>)
    requires
        !pending.contains(root),
    ensures
        after_enqueue(after_retain(fetches, pending), root).entries[root] == (Attempt {
            state: FetchActionState::Queued,
            tried: Set::empty(),
        }),
        after_enqueue(after_remove(fetches, root), root).entries[root] == (Attempt {
            state: FetchActionState::Queued,
            tried: Set::empty(),
        }),
{
}

/// A running fetch that ends complete is no longer tracked; one that ends
/// incomplete is still tracked, waits for peers from then on and keeps its tried
/// peers. Other roots, and fetches that do not run, keep their state and tried
/// peers.
pub proof fn finished_fetch_is_dropped_or_waits(
    fetches: Fetches,
    root: B256,
    complete: bool,
    now: u128,
)
    ensures
        ({
            let after = after_finish(fetches, root, complete, now);
            let running = fetches.entries.contains_key(root) && fetches.entries[root].state
                == FetchActionState::InFlight;
            &&& !running ==> after == fetches
            &&& running && complete ==> {
                &&& !after.entries.contains_key(root)
                &&& !after.order.contains(root)
            }
            &&& running && !complete ==> {
                &&& after.entries.contains_key(root)
                &&& after.entries[root].state == FetchActionState::WaitingForPeers { since: now }
                &&& after.entries[root].tried == fetches.entries[root].tried
                &&& after.order == fetches.order
            }
            &&& after.queue == fetches.queue
            &&& forall|other: B256| #![trigger after.entries.contains_key(other)]
                other != root ==> {
                    &&& after.entries.contains_key(other) == fetches.entries.contains_key(other)
                    &&& after.entries.contains_key(other) ==> after.entries[other]
                        == fetches.entries[other]
                    &&& after.order.contains(other) == fetches.order.contains(other)
                }
        }),
{
    lemma_filter_members(fetches.order, other_than(root));
}

/// A root that is enqueued for the first time is queued behind all others, without
/// tried peers; one that is tracked already changes nothing. No other root changes.
pub proof fn enqueued_root_waits_for_its_turn(fetches: Fetches, root: B256)
    ensures
        ({
            let after = after_enqueue(fetches, root);
            &&& fetches.entries.contains_key(root) ==> after == fetches
            &&& !fetches.entries.contains_key(root) ==> {
                &&& after.entries.contains_key(root)
                &&& after.entries[root].state == FetchActionState::Queued
                &&& after.entries[root].tried == Set::<PeerId>::empty()
                &&& after.queue == fetches.queue.push(root)
                &&& after.order == fetches.order.push(root)
            }
            &&& forall|other: B256| #![trigger after.entries.contains_key(other)]
                other != root ==> {
                    &&& after.entries.contains_key(other) == fetches.entries.contains_key(other)
                    &&& after.entries.contains_key(other) ==> after.entries[other]
                        == fetches.entries[other]
                }
        }),
{
}

/// A removed root is no longer tracked; no other root changes.
pub proof fn removed_root_is_forgotten(fetches: Fetches, root: B256)
    ensures
        ({
            let after = after_remove(fetches, root);
            &&& !after.entries.contains_key(root)
            &&& after.queue == fetches.queue
            &&& forall|other: B256| #![trigger after.entries.contains_key(other)]
                other != root ==> {
                    &&& after.entries.contains_key(other) == fetches.entries.contains_key(other)
                    &&& after.entries.contains_key(other) ==> after.entries[other]
                        == fetches.entries[other]
                }
        }),
{
}

/// The loss of a peer makes it untried for every root and changes nothing else.
pub proof fn lost_peer_is_untried_everywhere(fetches: Fetches, peer: PeerId, root: B256)
    ensures
        ({
            let after = after_disconnect(fetches, peer);
            &&& after.entries.contains_key(root) == fetches.entries.contains_key(root)
            &&& after.queue == fetches.queue
            &&& after.order == fetches.order
            &&& fetches.entries.contains_key(root) ==> {
                &&& after.entries[root].state == fetches.entries[root].state
                &&& forall|other: PeerId| #[trigger]
                    after.entries[root].tried.contains(other) <==> other != peer
                        && fetches.entries[root].tried.contains(other)
            }
        }),
{
}

/// Exactly the pending roots stay tracked, as they were, and the queue keeps those
/// of its roots that are tracked, in order.
pub proof fn exactly_pending_roots_are_retained(fetches: Fetches, pending: Seq<B256>, root: B256)
    ensures
        ({
            let after = after_retain(fetches, pending);
            &&& after.entries.contains_key(root) <==> fetches.entries.contains_key(root)
                && pending.contains(root)
            &&& after.entries.contains_key(root) ==> after.entries[root] == fetches.entries[root]
            &&& after.queue.contains(root) <==> fetches.queue.contains(root)
                && after.entries.contains_key(root)
            &&& after.queue == fetches.queue.filter(
                |root: B256| fetches.entries.contains_key(root) && pending.contains(root),
            )
        }),
{
    lemma_filter_members(
        fetches.queue,
        |root: B256| fetches.entries.contains_key(root) && pending.contains(root),
    );
}

/// Learning the connected peers forgets the tried peers that are gone. A fetch that
/// waits or is parked is queued again exactly if a connected peer was not tried;
/// without one it is parked once it has waited for the timeout. Queued and running
/// fetches keep their state. The woken roots, and no others, join the queue.
pub proof fn refresh_wakes_and_parks(
    fetches: Fetches,
    connected: Set<PeerId>,
    now: u128,
    root: B256,
)
    requires
        consistent(fetches),
    ensures
        ({
            let after = after_refresh(fetches, connected, now);
            let before = fetches.entries[root];
            let untried_peer = exists|peer: PeerId|
                connected.contains(peer) && !#[trigger] before.tried.contains(peer);
            &&& after.order == fetches.order
            &&& after.entries.contains_key(root) == fetches.entries.contains_key(root)
            &&& fetches.entries.contains_key(root) ==> {
                &&& forall|peer: PeerId| #[trigger]
                    after.entries[root].tried.contains(peer) <==> before.tried.contains(peer)
                        && connected.contains(peer)
                &&& after.entries[root].state == match before.state {
                    FetchActionState::Queued => FetchActionState::Queued,
                    FetchActionState::InFlight => FetchActionState::InFlight,
                    FetchActionState::Parked => if untried_peer {
                        FetchActionState::Queued
                    } else {
                        FetchActionState::Parked
                    },
                    FetchActionState::WaitingForPeers { since } => if untried_peer {
                        FetchActionState::Queued
                    } else if now - since >= NO_COLUMN_PEER_TIMEOUT {
                        FetchActionState::Parked
                    } else {
                        before.state
                    },
                }
            }
            &&& after.queue.len() >= fetches.queue.len()
            &&& after.queue.take(fetches.queue.len() as int) == fetches.queue
            &&& after.queue.skip(fetches.queue.len() as int).no_duplicates()
            &&& after.queue.skip(fetches.queue.len() as int).contains(root)
                <==> fetches.entries.contains_key(root) && untried_peer && (
            before.state is WaitingForPeers || before.state is Parked)
        }),
{
    let after = after_refresh(fetches, connected, now);
    let woken = |root: B256| wakes(fetches.entries[root], connected);
    let added = fetches.order.filter(woken);
    let before = fetches.entries[root];
    lemma_filter_members(fetches.order, woken);
    lemma_filter_distinct(fetches.order, woken);
    assert(after.queue.take(fetches.queue.len() as int) =~= fetches.queue);
    assert(after.queue.skip(fetches.queue.len() as int) =~= added);
    assert(fetches.order.contains(root) <==> fetches.order.to_set().contains(root));
    if !connected.subset_of(before.tried) {
        let peer = choose|peer: PeerId| connected.contains(peer) && !before.tried.contains(peer);
        assert(!before.tried.contains(peer));
    }
}

/// The selected peers stand in the order in which they first appear among the
/// connected ones.
pub proof fn selected_peers_keep_their_order(
    peers: Seq<PeerId>,
    tried: Set<PeerId>,
    i: int,
    j: int,
    at: int,
)
    requires
        0 <= i < j < untried(peers, tried).len(),
        0 <= at < peers.len(),
        peers[at] == untried(peers, tried)[j],
    ensures
        exists|before: int| 0 <= before < at && #[trigger] peers[before] == untried(peers, tried)[i],
    decreases peers.len(),
{
    let start = peers.drop_last();
    let last = peers.last();
    let all = untried(peers, tried);
    let less = untried(start, tried);
    selected_peers_are_untried(start, tried);
    selected_peers_are_untried(peers, tried);
    if j < less.len() {
        assert(all[i] == less[i] && all[j] == less[j]);
        if at < start.len() {
            assert(start[at] == peers[at]);
            selected_peers_keep_their_order(start, tried, i, j, at);
            let before = choose|before: int|
                0 <= before < at && #[trigger] start[before] == less[i];
            assert(peers[before] == all[i]);
        } else {
            assert(less.to_set().contains(less[i]));
            assert(start.to_set().contains(less[i]));
            let before = choose|before: int| 0 <= before < start.len() && start[before] == less[i];
            assert(peers[before] == all[i]);
        }
    } else {
        assert(all == less.push(last));
        assert(all[j] == last);
        assert(less.to_set().contains(less[i]));
        assert(start.to_set().contains(less[i]));
        if at < start.len() {
            assert(start[at] == last);
            assert(start.to_set().contains(last));
            assert(!tried.contains(last));
            assert(less.to_set().contains(last));
            assert(false);
        }
        let before = choose|before: int| 0 <= before < start.len() && start[before] == less[i];
        assert(peers[before] == all[i]);
    }
}

/// Whether a root is queued and some of the peers was not tried for it.
pub open spec fn startable(fetches: Fetches, peers: Seq<PeerId>, root: B256) -> bool {
    &&& fetches.entries.contains_key(root)
    &&& fetches.entries[root].state == FetchActionState::Queued
    &&& exists|i: int| 0 <= i < peers.len() && !fetches.entries[root].tried.contains(#[trigger] peers[i])
}

/// A root has a peer to select exactly if some peer was not tried.
proof fn lemma_untried_exists(peers: Seq<PeerId>, tried: Set<PeerId>)
    ensures
        untried(peers, tried).len() > 0 <==> exists|i: int|
            0 <= i < peers.len() && !tried.contains(#[trigger] peers[i]),
{
    selected_peers_are_untried(peers, tried);
    let selected = untried(peers, tried);
    if selected.len() > 0 {
        assert(selected.to_set().contains(selected[0]));
        let i = choose|i: int| 0 <= i < peers.len() && peers[i] == selected[0];
        assert(!tried.contains(peers[i]));
    }
    if exists|i: int| 0 <= i < peers.len() && !tried.contains(#[trigger] peers[i]) {
        let i = choose|i: int| 0 <= i < peers.len() && !tried.contains(#[trigger] peers[i]);
        assert(peers.to_set().contains(peers[i]));
        assert(selected.to_set().contains(peers[i]));
    }
}

/// The queue is served in order: the root that starts is the first one in it that
/// can start, it and all before it leave the queue, and the queued ones before it
/// wait for peers from then on. All others keep their state; if none can start, the
/// queue is left empty.
pub proof fn queue_is_served_in_order(fetches: Fetches, peers: Seq<PeerId>, now: u128) -> (served:
    int)
    ensures
        ({
            let (after, next) = started(fetches, peers, now);
            let queue = fetches.queue;
            &&& 0 <= served <= queue.len()
            &&& forall|i: int| 0 <= i < served ==> !startable(fetches, peers, #[trigger] queue[i])
            &&& match next {
                Some((root, _)) => served < queue.len() && queue[served] == root && startable(
                    fetches,
                    peers,
                    root,
                ) && after.queue == queue.skip(served + 1),
                None => served == queue.len() && after.queue.len() == 0,
            }
            &&& forall|root: B256| #![trigger after.entries.contains_key(root)]
                after.entries.contains_key(root) == fetches.entries.contains_key(root)
            &&& forall|root: B256| #![trigger after.entries[root]]
                fetches.entries.contains_key(root) ==> {
                    let skipped = queue.take(served).contains(root);
                    after.entries[root].state == (if next is Some && (next->0).0 == root {
                        FetchActionState::InFlight
                    } else if skipped && fetches.entries[root].state == FetchActionState::Queued {
                        FetchActionState::WaitingForPeers { since: now }
                    } else {
                        fetches.entries[root].state
                    })
                }
        }),
    decreases fetches.queue.len(),
{
    let queue = fetches.queue;
    let (after, next) = started(fetches, peers, now);
    if queue.len() == 0 {
        assert(queue.take(0) =~= Seq::empty());
        0
    } else {
        let root = queue[0];
        let rest = Fetches { queue: queue.skip(1), ..fetches };
        let attempt = fetches.entries[root];
        lemma_untried_exists(peers, attempt.tried);
        if startable(fetches, peers, root) {
            assert(queue.take(0) =~= Seq::empty());
            0
        } else {
            let moved = if !fetches.entries.contains_key(root) || attempt.state
                != FetchActionState::Queued {
                rest
            } else {
                with_attempt(
                    rest,
                    root,
                    Attempt { state: FetchActionState::WaitingForPeers { since: now }, ..attempt },
                )
            };
            let served = queue_is_served_in_order(moved, peers, now);
            assert(started(moved, peers, now) == (after, next));
            assert forall|other: B256| startable(moved, peers, other) == #[trigger] startable(
                fetches,
                peers,
                other,
            ) by {
                if other != root && fetches.entries.contains_key(other) {
                    assert(moved.entries[other] == fetches.entries[other]);
                }
            }
            assert forall|i: int| 0 <= i < served + 1 implies !startable(
                fetches,
                peers,
                #[trigger] queue[i],
            ) by {
                if i > 0 {
                    assert(moved.queue[i - 1] == queue[i]);
                }
            }
            if next is Some {
                assert(moved.queue.skip(served + 1) =~= queue.skip(served + 2));
            }
            let passed = queue.take(served + 1);
            let later = moved.queue.take(served);
            assert forall|other: B256| #[trigger]
                passed.contains(other) == (other == root || later.contains(other)) by {
                if passed.contains(other) && other != root {
                    let i = choose|i: int| 0 <= i < passed.len() && passed[i] == other;
                    assert(later[i - 1] == other);
                }
                if later.contains(other) {
                    let i = choose|i: int| 0 <= i < later.len() && later[i] == other;
                    assert(passed[i + 1] == other);
                }
                assert(passed[0] == root);
            }
            assert forall|other: B256| #![trigger after.entries[other]]
                fetches.entries.contains_key(other) implies {
                let skipped = queue.take(served + 1).contains(other);
                after.entries[other].state == (if next is Some && (next->0).0 == other {
                    FetchActionState::InFlight
                } else if skipped && fetches.entries[other].state == FetchActionState::Queued {
                    FetchActionState::WaitingForPeers { since: now }
                } else {
                    fetches.entries[other].state
                })
            } by {
                assert(moved.entries.contains_key(other));
                if other != root {
                    assert(moved.entries[other] == fetches.entries[other]);
                }
            }
            served + 1
        }
    }
}

/// A fetch starts exactly if fewer run than the cap allows and some tracked root
/// that does not run has a connected peer that was not tried for it. It is then such
/// a root, it is asked of exactly those peers, and has tried exactly the connected
/// ones afterwards.
pub proof fn fetch_starts_exactly_if_a_root_can_be_tried(
    fetches: Fetches,
    peers: Seq<PeerId>,
    now: u128,
)
    requires
        consistent(fetches),
    ensures
        ({
            let (after, next) = after_next_fetch(fetches, peers, now);
            let can_be_tried = |root: B256|
                {
                    &&& fetches.entries.contains_key(root)
                    &&& fetches.entries[root].state != FetchActionState::InFlight
                    &&& exists|peer: PeerId|
                        peers.contains(peer) && !#[trigger] fetches.entries[root].tried.contains(
                            peer,
                        )
                };
            &&& next is Some <==> in_flight(fetches.entries).len() < MAX_CONCURRENT_COLUMN_FETCHES
                && exists|root: B256| #[trigger] can_be_tried(root)
            &&& next matches Some((root, selected)) ==> {
                &&& can_be_tried(root)
                &&& selected.no_duplicates()
                &&& forall|peer: PeerId| #[trigger]
                    selected.contains(peer) <==> peers.contains(peer)
                        && !fetches.entries[root].tried.contains(peer)
                &&& after.entries[root].state == FetchActionState::InFlight
                &&& forall|peer: PeerId| #[trigger]
                    after.entries[root].tried.contains(peer) <==> peers.contains(peer)
            }
            &&& forall|root: B256| #[trigger]
                after.entries.contains_key(root) == fetches.entries.contains_key(root)
            &&& forall|root: B256, peer: PeerId| #![trigger after.entries[root].tried.contains(peer)]
                fetches.entries.contains_key(root) && !(next is Some && (next->0).0 == root) ==> (
                after.entries[root].tried.contains(peer) <==> peers.contains(peer)
                    && fetches.entries[root].tried.contains(peer))
        }),
{
    let connected = peers.to_set();
    let fresh = after_refresh(fetches, connected, now);
    let (after, next) = after_next_fetch(fetches, peers, now);
    let can_be_tried = |root: B256|
        {
            &&& fetches.entries.contains_key(root)
            &&& fetches.entries[root].state != FetchActionState::InFlight
            &&& exists|peer: PeerId|
                peers.contains(peer) && !#[trigger] fetches.entries[root].tried.contains(peer)
        };
    refresh_keeps_consistent(fetches, connected, now);
    assert forall|root: B256| #[trigger] can_be_tried(root) == startable(fresh, peers, root) by {
        refresh_wakes_and_parks(fetches, connected, now, root);
        if can_be_tried(root) {
            let peer = choose|peer: PeerId|
                peers.contains(peer) && !#[trigger] fetches.entries[root].tried.contains(peer);
            let i = choose|i: int| 0 <= i < peers.len() && peers[i] == peer;
            assert(connected.contains(peer));
            assert(!fresh.entries[root].tried.contains(peers[i]));
        }
        if startable(fresh, peers, root) {
            let i = choose|i: int|
                0 <= i < peers.len() && !fresh.entries[root].tried.contains(#[trigger] peers[i]);
            assert(connected.contains(peers[i]));
            assert(peers.contains(peers[i]));
            assert(!fetches.entries[root].tried.contains(peers[i]));
        }
    }
    if in_flight(fetches.entries).len() < MAX_CONCURRENT_COLUMN_FETCHES {
        let served = queue_is_served_in_order(fresh, peers, now);
        start_takes_one_queued_root(fresh, peers, now);
        if exists|root: B256| #[trigger] can_be_tried(root) {
            let root = choose|root: B256| #[trigger] can_be_tried(root);
            assert(startable(fresh, peers, root));
            assert(fresh.entries.contains_key(root));
            assert(fresh.queue.contains(root));
            let i = choose|i: int| 0 <= i < fresh.queue.len() && fresh.queue[i] == root;
            assert(startable(fresh, peers, fresh.queue[i]));
        }
        if let Some((root, selected)) = next {
            assert(startable(fresh, peers, root));
            assert(can_be_tried(root));
            refresh_wakes_and_parks(fetches, connected, now, root);
            selected_peers_are_untried(peers, fresh.entries[root].tried);
            assert forall|peer: PeerId| #[trigger]
                selected.contains(peer) <==> peers.contains(peer)
                    && !fetches.entries[root].tried.contains(peer) by {
                assert(selected.contains(peer) == selected.to_set().contains(peer));
                assert(peers.contains(peer) == connected.contains(peer));
            }
            assert forall|peer: PeerId| #[trigger]
                after.entries[root].tried.contains(peer) <==> peers.contains(peer) by {
                assert(selected.contains(peer) == selected.to_set().contains(peer));
                assert(peers.contains(peer) == connected.contains(peer));
            }
        }
    }
    assert forall|root: B256| #[trigger]
        after.entries.contains_key(root) == fetches.entries.contains_key(root) by {
        refresh_wakes_and_parks(fetches, connected, now, root);
    }
    assert forall|root: B256, peer: PeerId| #![trigger after.entries[root].tried.contains(peer)]
        fetches.entries.contains_key(root) && !(next is Some && (next->0).0 == root) implies (
    after.entries[root].tried.contains(peer) <==> peers.contains(peer)
        && fetches.entries[root].tried.contains(peer)) by {
        refresh_wakes_and_parks(fetches, connected, now, root);
        assert(fresh.entries.contains_key(root));
        assert(peers.contains(peer) == connected.contains(peer));
    }
}

/// The running fetches are those of the tracked roots that are in flight, and a
/// consistent tracker never runs more of them than the cap allows, tracks each root
/// once and keeps every queued root in its queue.
pub proof fn running_fetches_are_in_flight(fetches: Fetches, root: B256)
    ensures
        in_flight(fetches.entries).contains(root) <==> fetches.entries.contains_key(root)
            && fetches.entries[root].state == FetchActionState::InFlight,
        consistent(fetches) ==> {
            &&& in_flight(fetches.entries).len() <= MAX_CONCURRENT_COLUMN_FETCHES
            &&& fetches.order.no_duplicates()
            &&& fetches.order.contains(root) <==> fetches.entries.contains_key(root)
            &&& fetches.entries.contains_key(root) && fetches.entries[root].state
                == FetchActionState::Queued ==> fetches.queue.contains(root)
        },
{
    assert(fetches.order.contains(root) <==> fetches.order.to_set().contains(root));
}

} // verus!
