use std::collections::HashSet;

use beacon_availability::beacon::{
    BeaconBlockHeader, Checkpoint, DataColumnSidecar, SignedBeaconBlockHeader,
};
use beacon_availability::bytes::{BLSSignature, B256};
use beacon_availability::gossip::validation::{
    is_not_from_future_slot, seen_key, validate_data_column_sidecar_full, HeadState,
    SidecarDecision, SidecarFacts, SidecarQuestion, ValidationResult,
};
use beacon_availability::network::NetworkSpec;

const NETWORK: NetworkSpec = NetworkSpec {
    slot_duration_ms: 12_000,
    seconds_per_slot: 12,
    maximum_gossip_clock_disparity: 500,
    fulu_fork_epoch: 10,
    max_message_size: 10_485_760,
};

const SUBNET: u64 = 5;
const NOW: u64 = 2_000_000;

fn sidecar() -> DataColumnSidecar {
    DataColumnSidecar {
        index: 5,
        column: Vec::new(),
        kzg_commitments: Vec::new(),
        kzg_proofs: Vec::new(),
        signed_block_header: SignedBeaconBlockHeader {
            message: BeaconBlockHeader {
                slot: 70,
                proposer_index: 3,
                parent_root: B256::repeat_byte(2),
                state_root: B256::repeat_byte(4),
                body_root: B256::repeat_byte(6),
            },
            signature: BLSSignature([0; 96]),
        },
        kzg_commitments_inclusion_proof: Vec::new(),
    }
}

fn no_facts() -> SidecarFacts {
    SidecarFacts {
        seen: None,
        verified: None,
        subnet: None,
        head_root: None,
        head_state: None,
        finalized_checkpoint: None,
        signature_valid: None,
        parent_slot: None,
        parent_state: None,
        checkpoint_block: None,
        inclusion_proof_valid: None,
        kzg_proofs_valid: None,
        parent_advanced: None,
        expected_proposer: None,
        inserted: None,
    }
}

fn good_facts() -> SidecarFacts {
    SidecarFacts {
        seen: Some(false),
        verified: Some(true),
        subnet: Some(SUBNET),
        head_root: Some(Ok(B256::repeat_byte(1))),
        head_state: Some(Ok(Some(HeadState {
            genesis_time: 1_000,
            validator_count: 4,
        }))),
        finalized_checkpoint: Some(Ok(Checkpoint {
            epoch: 2,
            root: B256::repeat_byte(7),
        })),
        signature_valid: Some(Ok(true)),
        parent_slot: Some(Ok(Some(69))),
        parent_state: Some(Ok(true)),
        checkpoint_block: Some(Ok(B256::repeat_byte(7))),
        inclusion_proof_valid: Some(true),
        kzg_proofs_valid: Some(Ok(true)),
        parent_advanced: Some(Ok(())),
        expected_proposer: Some(Ok(3)),
        inserted: Some(true),
    }
}

fn validate(facts: &SidecarFacts) -> SidecarDecision {
    validate_data_column_sidecar_full(&sidecar(), facts, &NETWORK, NOW, SUBNET)
}

fn assert_ignored(facts: SidecarFacts, text: &str) {
    match validate(&facts) {
        SidecarDecision::Done(ValidationResult::Ignore(reason)) => assert_eq!(reason, text),
        other => panic!("{other:?}"),
    }
}

fn assert_rejected(facts: SidecarFacts, text: &str) {
    match validate(&facts) {
        SidecarDecision::Done(ValidationResult::Reject(reason)) => assert_eq!(reason, text),
        other => panic!("{other:?}"),
    }
}

fn assert_failed(facts: SidecarFacts, text: &str) {
    match validate(&facts) {
        SidecarDecision::Failed(reason) => assert_eq!(reason, text),
        other => panic!("{other:?}"),
    }
}

#[test]
fn good_sidecar_is_accepted() {
    assert!(matches!(
        validate(&good_facts()),
        SidecarDecision::Done(ValidationResult::Accept)
    ));
}

#[test]
fn facts_are_asked_for_in_order() {
    let mut facts = no_facts();
    let mut asked = Vec::new();
    let parent_root = B256::repeat_byte(2);
    loop {
        let good = good_facts();
        let question = match validate(&facts) {
            SidecarDecision::Ask(question) => question,
            SidecarDecision::Done(ValidationResult::Accept) => break,
            other => panic!("{other:?}"),
        };
        asked.push(question);
        match question {
            SidecarQuestion::Seen => facts.seen = good.seen,
            SidecarQuestion::Verified => facts.verified = good.verified,
            SidecarQuestion::Subnet => facts.subnet = good.subnet,
            SidecarQuestion::HeadRoot => facts.head_root = good.head_root,
            SidecarQuestion::HeadState { .. } => facts.head_state = good.head_state,
            SidecarQuestion::FinalizedCheckpoint => {
                facts.finalized_checkpoint = good.finalized_checkpoint
            }
            SidecarQuestion::SignatureValid { .. } => facts.signature_valid = good.signature_valid,
            SidecarQuestion::ParentSlot { .. } => facts.parent_slot = good.parent_slot,
            SidecarQuestion::ParentState { .. } => facts.parent_state = good.parent_state,
            SidecarQuestion::CheckpointBlock { .. } => {
                facts.checkpoint_block = good.checkpoint_block
            }
            SidecarQuestion::InclusionProofValid => {
                facts.inclusion_proof_valid = good.inclusion_proof_valid
            }
            SidecarQuestion::KzgProofsValid => facts.kzg_proofs_valid = good.kzg_proofs_valid,
            SidecarQuestion::ParentAdvanced { .. } => facts.parent_advanced = good.parent_advanced,
            SidecarQuestion::ExpectedProposer => facts.expected_proposer = good.expected_proposer,
            SidecarQuestion::Inserted => facts.inserted = good.inserted,
        }
    }
    assert_eq!(
        asked,
        vec![
            SidecarQuestion::Seen,
            SidecarQuestion::Verified,
            SidecarQuestion::Subnet,
            SidecarQuestion::HeadRoot,
            SidecarQuestion::HeadState {
                head_root: B256::repeat_byte(1)
            },
            SidecarQuestion::FinalizedCheckpoint,
            SidecarQuestion::SignatureValid { epoch: 2 },
            SidecarQuestion::ParentSlot { parent_root },
            SidecarQuestion::ParentState { parent_root },
            SidecarQuestion::CheckpointBlock {
                parent_root,
                epoch: 2
            },
            SidecarQuestion::InclusionProofValid,
            SidecarQuestion::KzgProofsValid,
            SidecarQuestion::ParentAdvanced { slot: 70 },
            SidecarQuestion::ExpectedProposer,
            SidecarQuestion::Inserted,
        ]
    );
}

#[test]
fn ignored_sidecars() {
    assert_ignored(
        SidecarFacts { seen: Some(true), ..no_facts() },
        "Already seen sidecar from this proposer for this slot and index",
    );
    assert_ignored(
        SidecarFacts {
            head_state: Some(Ok(Some(HeadState { genesis_time: 2_000, validator_count: 4 }))),
            ..good_facts()
        },
        "The sidecar is from a future slot",
    );
    assert_ignored(
        SidecarFacts {
            finalized_checkpoint: Some(Ok(Checkpoint { epoch: 3, root: B256::repeat_byte(7) })),
            ..good_facts()
        },
        "The sidecar is from a slot less than or equal to the latest finalized slot",
    );
    assert_ignored(
        SidecarFacts { parent_slot: Some(Ok(None)), ..good_facts() },
        "Parent block not seen",
    );
    assert_ignored(
        SidecarFacts { parent_advanced: Some(Err("oops".to_string())), ..good_facts() },
        "Could not advance parent state to sidecar slot: oops",
    );
    assert_ignored(
        SidecarFacts { expected_proposer: Some(Err("oops".to_string())), ..good_facts() },
        "Could not get proposer index: oops",
    );
    assert_ignored(
        SidecarFacts { inserted: Some(false), ..good_facts() },
        "Duplicate data column sidecar for (slot, proposer_index, index)",
    );
}

#[test]
fn rejected_sidecars() {
    assert_rejected(
        SidecarFacts { verified: Some(false), ..good_facts() },
        "Data column sidecar failed basic verification",
    );
    assert_rejected(
        SidecarFacts { subnet: Some(SUBNET + 1), ..good_facts() },
        "Column sidecar not for correct subnet",
    );
    assert_rejected(
        SidecarFacts {
            head_state: Some(Ok(Some(HeadState { genesis_time: 1_000, validator_count: 3 }))),
            ..good_facts()
        },
        "Sidecar proposer index out of range",
    );
    assert_rejected(
        SidecarFacts { signature_valid: Some(Err("check failed".to_string())), ..good_facts() },
        "Invalid proposer signature on data column sidecar's block header",
    );
    assert_rejected(
        SidecarFacts { signature_valid: Some(Ok(false)), ..good_facts() },
        "Invalid proposer signature on data column sidecar's block header",
    );
    assert_rejected(
        SidecarFacts { parent_state: Some(Ok(false)), ..good_facts() },
        "Sidecar's parent failed validation",
    );
    assert_rejected(
        SidecarFacts { parent_slot: Some(Ok(Some(70))), ..good_facts() },
        "Sidecar slot not higher than parent block's slot",
    );
    assert_rejected(
        SidecarFacts { checkpoint_block: Some(Ok(B256::repeat_byte(8))), ..good_facts() },
        "Finalized checkpoint is not an ancestor of the sidecar's block",
    );
    assert_rejected(
        SidecarFacts { inclusion_proof_valid: Some(false), ..good_facts() },
        "Invalid data column sidecar inclusion proof",
    );
    assert_rejected(
        SidecarFacts { kzg_proofs_valid: Some(Err("check failed".to_string())), ..good_facts() },
        "Invalid KZG proofs for data column sidecar",
    );
    assert_rejected(
        SidecarFacts { kzg_proofs_valid: Some(Ok(false)), ..good_facts() },
        "Invalid KZG proofs for data column sidecar",
    );
    assert_rejected(
        SidecarFacts { expected_proposer: Some(Ok(11)), ..good_facts() },
        "Wrong proposer index: slot 70: expected 11, got 3",
    );
}

#[test]
fn failed_lookups_end_the_validation() {
    let error = || Some(Err("db".to_string()));
    assert_failed(SidecarFacts { head_root: Some(Err("db".to_string())), ..good_facts() }, "db");
    assert_failed(SidecarFacts { head_state: Some(Err("db".to_string())), ..good_facts() }, "db");
    assert_failed(
        SidecarFacts { finalized_checkpoint: Some(Err("db".to_string())), ..good_facts() },
        "db",
    );
    assert_failed(SidecarFacts { parent_slot: error(), ..good_facts() }, "db");
    assert_failed(SidecarFacts { parent_state: Some(Err("db".to_string())), ..good_facts() }, "db");
    assert_failed(
        SidecarFacts { checkpoint_block: Some(Err("db".to_string())), ..good_facts() },
        "db",
    );
    let mut root = [0u8; 32];
    root[0] = 0xab;
    root[31] = 0x09;
    assert_failed(
        SidecarFacts {
            head_root: Some(Ok(B256(root))),
            head_state: Some(Ok(None)),
            ..good_facts()
        },
        "No beacon state found for head root: \
         0xab00000000000000000000000000000000000000000000000000000000000009",
    );
}

#[test]
fn slot_may_start_early_by_the_clock_disparity() {
    // Slot 70 starts 840 seconds after genesis.
    let genesis = 1_000;
    let start = 1_840_000;
    assert!(is_not_from_future_slot(&NETWORK, genesis, 70, start));
    assert!(is_not_from_future_slot(&NETWORK, genesis, 70, start - 500));
    assert!(!is_not_from_future_slot(&NETWORK, genesis, 70, start - 501));
    assert!(!is_not_from_future_slot(&NETWORK, u64::MAX, 0, 0));
    assert!(is_not_from_future_slot(&NETWORK, u64::MAX, u64::MAX, u64::MAX));
}

#[test]
fn second_sidecar_with_the_same_key_is_a_duplicate() {
    let mut seen = HashSet::new();
    let key = seen_key(&sidecar());
    assert_eq!(key, (70, 3, 5));
    let first = SidecarFacts { inserted: Some(seen.insert(key)), ..good_facts() };
    assert!(matches!(
        validate(&first),
        SidecarDecision::Done(ValidationResult::Accept)
    ));
    let second = SidecarFacts { seen: Some(seen.contains(&key)), ..no_facts() };
    assert!(matches!(
        validate(&second),
        SidecarDecision::Done(ValidationResult::Ignore(_))
    ));
}

#[test]
fn verdict_does_not_change_with_more_facts() {
    let early = SidecarFacts { seen: Some(false), verified: Some(false), ..no_facts() };
    let late = SidecarFacts { verified: Some(false), ..good_facts() };
    match (validate(&early), validate(&late)) {
        (SidecarDecision::Done(first), SidecarDecision::Done(second)) => {
            assert_eq!(first, second)
        }
        other => panic!("{other:?}"),
    }
}
