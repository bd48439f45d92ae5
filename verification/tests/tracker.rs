use std::time::{Duration, Instant};

use beacon_availability::bytes::B256;
use beacon_availability::columns::fetches::{
    FetchActionState, MAX_CONCURRENT_COLUMN_FETCHES, NO_COLUMN_PEER_TIMEOUT,
};
use beacon_availability::columns::tracker::ColumnFetchTracker;
use beacon_availability::peer::PeerId;

fn peer(seed: u8) -> PeerId {
    PeerId::new(0x12, &[seed; 32]).unwrap()
}

fn random_peer() -> PeerId {
    let id = libp2p::PeerId::random();
    PeerId::new(id.as_ref().code(), id.as_ref().digest()).unwrap()
}

fn nanos(start: Instant) -> u128 {
    start.elapsed().as_nanos()
}

#[test]
fn timeout_is_thirty_seconds() {
    assert_eq!(NO_COLUMN_PEER_TIMEOUT, Duration::from_secs(30).as_nanos());
    assert_eq!(MAX_CONCURRENT_COLUMN_FETCHES, 32);
}

#[test]
fn tracker_queues_beyond_concurrency_and_deduplicates_roots() {
    let start = Instant::now();
    let mut tracker = ColumnFetchTracker::default();
    let root = B256::repeat_byte(1);

    assert!(tracker.enqueue(root));
    assert!(!tracker.enqueue(root), "a root must not be queued twice");

    for index in 0..MAX_CONCURRENT_COLUMN_FETCHES {
        tracker.enqueue(B256::repeat_byte(index as u8 + 2));
    }
    for _ in 0..MAX_CONCURRENT_COLUMN_FETCHES {
        assert!(tracker.next_fetch(&[random_peer()], nanos(start)).is_some());
    }
    assert_eq!(tracker.in_flight_count(), MAX_CONCURRENT_COLUMN_FETCHES);
    assert!(tracker.next_fetch(&[], nanos(start)).is_none());

    tracker.finish(root, true, nanos(start));
    assert!(
        tracker.next_fetch(&[random_peer()], nanos(start)).is_some(),
        "the queued root must not be lost"
    );
}

#[test]
fn tracker_tries_each_peer_once_and_wakes_for_a_new_peer() {
    let mut tracker = ColumnFetchTracker::default();
    let root = B256::repeat_byte(1);
    let first_peer = random_peer();
    let second_peer = random_peer();
    let now = nanos(Instant::now());
    tracker.enqueue(root);

    assert_eq!(
        tracker.next_fetch(&[first_peer], now),
        Some((root, vec![first_peer]))
    );
    tracker.finish(root, false, now);
    assert!(tracker.next_fetch(&[first_peer], now).is_none());
    assert!(
        !tracker.enqueue(root),
        "a waiting root must not reset its tried peers"
    );

    assert_eq!(
        tracker.next_fetch(&[first_peer, second_peer], now),
        Some((root, vec![second_peer]))
    );
}

#[test]
fn tracker_parks_after_no_peer_timeout_and_wakes_after_reconnect() {
    let mut tracker = ColumnFetchTracker::default();
    let root = B256::repeat_byte(1);
    let peer = random_peer();
    let now = nanos(Instant::now());
    tracker.enqueue(root);

    assert_eq!(tracker.next_fetch(&[peer], now), Some((root, vec![peer])));
    tracker.finish(root, false, now);
    assert!(tracker
        .next_fetch(&[peer], now + NO_COLUMN_PEER_TIMEOUT)
        .is_none());
    assert_eq!(tracker.action_state(&root), Some(FetchActionState::Parked));

    tracker.peer_disconnected(peer);
    assert_eq!(
        tracker.next_fetch(&[peer], now + NO_COLUMN_PEER_TIMEOUT),
        Some((root, vec![peer]))
    );

    tracker.retain_pending(&[]);
    assert!(
        tracker.enqueue(root),
        "a pruned root may start fresh if seen later"
    );
}

#[test]
fn fetch_waits_until_just_before_the_timeout() {
    let mut tracker = ColumnFetchTracker::default();
    let root = B256::repeat_byte(1);
    tracker.enqueue(root);
    assert!(tracker.next_fetch(&[peer(1)], 5).is_some());
    tracker.finish(root, false, 10);
    let last = 10 + NO_COLUMN_PEER_TIMEOUT - 1;
    assert!(tracker.next_fetch(&[peer(1)], last).is_none());
    assert_eq!(
        tracker.action_state(&root),
        Some(FetchActionState::WaitingForPeers { since: 10 })
    );
    assert!(tracker.next_fetch(&[peer(1)], last + 1).is_none());
    assert_eq!(tracker.action_state(&root), Some(FetchActionState::Parked));
}

#[test]
fn clock_that_runs_backwards_does_not_park() {
    let mut tracker = ColumnFetchTracker::default();
    let root = B256::repeat_byte(1);
    tracker.enqueue(root);
    assert!(tracker.next_fetch(&[peer(1)], 100).is_some());
    tracker.finish(root, false, 100);
    assert!(tracker.next_fetch(&[peer(1)], 0).is_none());
    assert_eq!(
        tracker.action_state(&root),
        Some(FetchActionState::WaitingForPeers { since: 100 })
    );
}

#[test]
fn roots_start_in_the_order_of_arrival() {
    let mut tracker = ColumnFetchTracker::default();
    tracker.enqueue(B256::repeat_byte(1));
    tracker.enqueue(B256::repeat_byte(2));
    let peers = [peer(1), peer(2), peer(1)];
    assert_eq!(
        tracker.next_fetch(&peers, 0),
        Some((B256::repeat_byte(1), vec![peer(1), peer(2)]))
    );
    assert_eq!(
        tracker.next_fetch(&peers, 0),
        Some((B256::repeat_byte(2), vec![peer(1), peer(2)]))
    );
    assert_eq!(tracker.next_fetch(&peers, 0), None);
}

#[test]
fn root_without_peers_waits() {
    let mut tracker = ColumnFetchTracker::default();
    let root = B256::repeat_byte(1);
    tracker.enqueue(root);
    assert_eq!(tracker.action_state(&root), Some(FetchActionState::Queued));
    assert_eq!(tracker.next_fetch(&[], 3), None);
    assert_eq!(
        tracker.action_state(&root),
        Some(FetchActionState::WaitingForPeers { since: 3 })
    );
    assert_eq!(
        tracker.next_fetch(&[peer(1)], 4),
        Some((root, vec![peer(1)]))
    );
    assert_eq!(
        tracker.action_state(&root),
        Some(FetchActionState::InFlight)
    );
}

#[test]
fn disconnected_peer_is_forgotten_on_refresh() {
    let mut tracker = ColumnFetchTracker::default();
    let root = B256::repeat_byte(1);
    tracker.enqueue(root);
    assert!(tracker.next_fetch(&[peer(1)], 0).is_some());
    tracker.finish(root, false, 0);
    assert_eq!(tracker.next_fetch(&[], 1), None);
    assert_eq!(
        tracker.next_fetch(&[peer(1)], 2),
        Some((root, vec![peer(1)]))
    );
}

#[test]
fn finishing_what_does_not_run_changes_nothing() {
    let mut tracker = ColumnFetchTracker::default();
    let root = B256::repeat_byte(1);
    tracker.finish(root, true, 0);
    tracker.enqueue(root);
    tracker.finish(root, true, 0);
    assert_eq!(tracker.action_state(&root), Some(FetchActionState::Queued));
    tracker.remove(&root);
    assert_eq!(tracker.action_state(&root), None);
    assert_eq!(tracker.next_fetch(&[peer(1)], 0), None);
    assert_eq!(tracker.in_flight_count(), 0);
}

#[test]
fn retained_roots_keep_their_place() {
    let mut tracker = ColumnFetchTracker::default();
    for byte in 1..=3 {
        tracker.enqueue(B256::repeat_byte(byte));
    }
    tracker.retain_pending(&[B256::repeat_byte(3), B256::repeat_byte(1)]);
    assert_eq!(
        tracker.next_fetch(&[peer(1)], 0).unwrap().0,
        B256::repeat_byte(1)
    );
    assert_eq!(
        tracker.next_fetch(&[peer(1)], 0).unwrap().0,
        B256::repeat_byte(3)
    );
    assert_eq!(tracker.next_fetch(&[peer(1)], 0), None);
}

#[test]
fn peers_are_told_apart_by_code_and_digest() {
    assert_eq!(PeerId::new(0x12, &[1; 32]), PeerId::new(0x12, &[1; 32]));
    assert_ne!(PeerId::new(0x12, &[1; 32]), PeerId::new(0x00, &[1; 32]));
    assert_ne!(PeerId::new(0x12, &[0; 32]), PeerId::new(0x12, &[0; 31]));
    assert!(PeerId::new(0x12, &[0; 64]).is_some());
    assert!(PeerId::new(0x12, &[0; 65]).is_none());
}
