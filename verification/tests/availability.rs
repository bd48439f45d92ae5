use std::collections::HashSet;

use beacon_availability::availability::checker::{DataAvailabilityChecker, RequiredColumnsError};
use beacon_availability::availability::pending::{PendingAvailability, PendingBlock};
use beacon_availability::beacon::{
    BeaconBlock, BeaconBlockBody, SignedBeaconBlock, NUMBER_OF_COLUMNS,
};
use beacon_availability::bytes::{BLSSignature, KZGCommitment, B256};

fn block_with_blobs(blob_count: usize) -> SignedBeaconBlock {
    let commitments = vec![KZGCommitment([0u8; 48]); blob_count];
    SignedBeaconBlock {
        message: BeaconBlock {
            slot: 0,
            proposer_index: 0,
            parent_root: B256::repeat_byte(0),
            state_root: B256::repeat_byte(0),
            body_root: B256::repeat_byte(0),
            body: BeaconBlockBody {
                blob_kzg_commitments: commitments,
                attestations: Vec::new(),
            },
        },
        signature: BLSSignature([0u8; 96]),
    }
}

fn checker(required_columns: &[u64]) -> DataAvailabilityChecker<()> {
    DataAvailabilityChecker::new(required_columns.iter().copied().collect())
}

#[test]
fn zero_blob_block_is_available_immediately() {
    let mut checker = checker(&[0, 1, 2]);
    let root = B256::repeat_byte(1);

    let available = checker.insert_pending(root, block_with_blobs(0), ());

    assert!(available.is_some());
    assert!(checker.is_empty());
}

#[test]
fn block_waits_for_all_required_columns() {
    let mut checker = checker(&[0, 1, 2]);
    let root = B256::repeat_byte(2);

    assert!(checker
        .insert_pending(root, block_with_blobs(1), ())
        .is_none());
    assert!(checker.add_column(root, 0).is_none());
    assert!(checker.add_column(root, 1).is_none());

    let available = checker.add_column(root, 2);
    assert!(available.is_some());
    assert!(!checker.contains(&root));
}

#[test]
fn columns_arriving_before_block_complete_it_on_insert() {
    let mut checker = checker(&[0, 1]);
    let root = B256::repeat_byte(3);

    assert!(checker.add_column(root, 0).is_none());
    assert!(checker.add_column(root, 1).is_none());

    let available = checker.insert_pending(root, block_with_blobs(1), ());
    assert!(available.is_some());
    assert!(checker.is_empty());
}

#[test]
fn duplicate_columns_do_not_count_twice() {
    let mut checker = checker(&[0, 1]);
    let root = B256::repeat_byte(4);

    checker.insert_pending(root, block_with_blobs(1), ());
    assert!(checker.add_column(root, 0).is_none());
    assert!(checker.add_column(root, 0).is_none());
    assert!(checker.add_column(root, 1).is_some());
}

#[test]
fn columns_without_a_block_stay_pending() {
    let mut checker = checker(&[0]);
    let root = B256::repeat_byte(5);

    assert!(checker.add_column(root, 0).is_none());
    assert!(checker.contains(&root));
}

#[test]
fn columns_outside_the_required_set_do_not_complete() {
    let mut checker = checker(&[0]);
    let root = B256::repeat_byte(6);

    checker.insert_pending(root, block_with_blobs(1), ());
    assert!(checker.add_column(root, 5).is_none());
    assert!(checker.add_column(root, 0).is_some());
}

#[test]
fn columns_outside_the_required_set_do_not_create_entries() {
    let mut checker = checker(&[0]);
    let root = B256::repeat_byte(7);

    assert!(checker.add_column(root, 5).is_none());
    assert!(checker.is_empty());
}

#[test]
fn supernode_requires_all_128_columns() {
    let mut checker: DataAvailabilityChecker<()> = DataAvailabilityChecker::supernode();
    let root = B256::repeat_byte(8);

    checker.insert_pending(root, block_with_blobs(1), ());
    for index in 0..NUMBER_OF_COLUMNS - 1 {
        assert!(checker.add_column(root, index).is_none());
    }
    assert!(checker.add_column(root, NUMBER_OF_COLUMNS - 1).is_some());
}

#[test]
fn checker_rejects_empty_required_column_set() {
    let error = DataAvailabilityChecker::<()>::try_new(HashSet::new()).unwrap_err();
    assert_eq!(error, RequiredColumnsError::Empty);
    assert!(error.message().contains("at least one column"));
}

#[test]
fn checker_rejects_out_of_range_required_column_set() {
    let columns: HashSet<u64> = [NUMBER_OF_COLUMNS].into_iter().collect();
    let error = DataAvailabilityChecker::<()>::try_new(columns).unwrap_err();
    assert_eq!(error, RequiredColumnsError::OutOfRange);
    assert!(error.message().contains("out-of-range"));
    let mixed: HashSet<u64> = [0, 500, 3].into_iter().collect();
    assert!(DataAvailabilityChecker::<()>::try_new(mixed).is_err());
}

#[test]
fn checked_column_set_is_required() {
    let columns: HashSet<u64> = [0, NUMBER_OF_COLUMNS - 1].into_iter().collect();
    let mut checker = DataAvailabilityChecker::<()>::try_new(columns).unwrap();
    let root = B256::repeat_byte(1);
    assert!(checker.is_empty());
    checker.insert_pending(root, block_with_blobs(1), ());
    assert_eq!(checker.missing_columns(&root), vec![0, NUMBER_OF_COLUMNS - 1]);
}

#[test]
fn released_block_carries_its_state() {
    let mut checker: DataAvailabilityChecker<u32> =
        DataAvailabilityChecker::new([4].into_iter().collect());
    let root = B256::repeat_byte(1);
    let block = block_with_blobs(2);
    assert!(checker.insert_pending(root, block.clone(), 77).is_none());
    let released = checker.add_column(root, 4).unwrap();
    assert_eq!(released.signed_block, block);
    assert_eq!(released.post_state, 77);
}

#[test]
fn columns_may_arrive_in_any_order() {
    for order in [[0, 1, 2], [2, 1, 0], [1, 2, 0]] {
        let mut checker = checker(&[0, 1, 2]);
        let root = B256::repeat_byte(1);
        checker.insert_pending(root, block_with_blobs(1), ());
        assert!(checker.add_column(root, order[0]).is_none());
        assert!(checker.add_column(root, order[1]).is_none());
        assert!(checker.add_column(root, order[2]).is_some());
    }
}

#[test]
fn roots_are_independent() {
    let mut checker = checker(&[0, 1]);
    let first = B256::repeat_byte(1);
    let second = B256::repeat_byte(2);
    checker.insert_pending(first, block_with_blobs(1), ());
    checker.insert_pending(second, block_with_blobs(1), ());
    assert_eq!(checker.len(), 2);
    assert!(checker.add_column(first, 0).is_none());
    assert!(checker.add_column(second, 1).is_none());
    assert!(checker.add_column(first, 1).is_some());
    assert!(checker.contains(&second));
    assert!(!checker.contains(&first));
    assert_eq!(checker.len(), 1);
}

#[test]
fn missing_columns_shrink_as_columns_arrive() {
    let mut checker = checker(&[3, 7]);
    let root = B256::repeat_byte(1);
    assert!(checker.pending_block(&root).is_none());
    checker.insert_pending(root, block_with_blobs(1), ());
    let mut missing = checker.missing_columns(&root);
    missing.sort();
    assert_eq!(missing, vec![3, 7]);
    checker.add_column(root, 3);
    assert_eq!(checker.missing_columns(&root), vec![7]);
    assert_eq!(
        checker.pending_block(&root).unwrap().signed_block,
        block_with_blobs(1)
    );
}

#[test]
fn removed_root_starts_anew() {
    let mut checker = checker(&[0, 1]);
    let root = B256::repeat_byte(1);
    checker.add_column(root, 0);
    let entry = checker.remove(&root).unwrap();
    assert!(entry.received_columns.contains(&0));
    assert!(entry.pending_block.is_none());
    assert_eq!(entry.slot, 0);
    assert!(checker.remove(&root).is_none());
    checker.insert_pending(root, block_with_blobs(1), ());
    assert!(checker.add_column(root, 1).is_none());
}

#[test]
fn arrivals_start_empty_and_can_be_cloned() {
    let mut entry = PendingAvailability::<u8>::default();
    assert!(entry.pending_block.is_none());
    assert!(entry.received_columns.is_empty());
    assert_eq!(entry.slot, 0);
    entry.received_columns.insert(5);
    entry.slot = 9;
    let copy = entry.clone();
    assert_eq!(copy.received_columns, HashSet::from([5]));
    assert_eq!(copy.slot, 9);
    assert!(copy.pending_block.is_none());
    entry.pending_block = Some(PendingBlock {
        signed_block: block_with_blobs(2),
        post_state: 3,
    });
    let copied = entry.clone().pending_block.unwrap();
    assert_eq!(copied.signed_block, block_with_blobs(2));
    assert_eq!(copied.post_state, 3);
}
