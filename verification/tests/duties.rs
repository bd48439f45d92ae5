use beacon_availability::bytes::{PublicKey, B256};
use beacon_availability::duties::api::{parse_validator_indices, ApiError, ValidatorIndexRequest};
use beacon_availability::duties::attester::{
    attester_duties, plan_attester_duties, AttesterDuty, AttesterFacts, AttesterPlan,
    CommitteeAssignment,
};
use beacon_availability::duties::lookup::{use_state, BlockRootSearch, StateUse};
use beacon_availability::duties::proposer::{
    current_epoch, plan_proposer_duties, proposer_duties, proposer_shuffling_decision_slot,
    DependentRoot, ProposerDuty, ProposerFacts, ProposerPlan,
};
use beacon_availability::duties::sync_committee::{sync_committee_duties, SyncCommitteeDuty};
use beacon_availability::network::{
    compute_epoch_at_slot, compute_start_slot_at_epoch, NetworkSpec,
};

const NETWORK: NetworkSpec = NetworkSpec {
    slot_duration_ms: 12_000,
    seconds_per_slot: 12,
    maximum_gossip_clock_disparity: 500,
    fulu_fork_epoch: 10,
    max_message_size: 10_485_760,
};

fn keys(count: u8) -> Vec<PublicKey> {
    (0..count).map(|byte| PublicKey([byte; 48])).collect()
}

fn text(request: &str) -> ValidatorIndexRequest {
    ValidatorIndexRequest::Text(request.to_string())
}

#[test]
fn slots_and_epochs_fit_together() {
    for (slot, epoch) in [(0, 0), (31, 0), (32, 1), (95, 2), (u64::MAX, u64::MAX / 32)] {
        assert_eq!(compute_epoch_at_slot(slot), epoch);
    }
    assert_eq!(compute_start_slot_at_epoch(3), 96);
    assert_eq!(compute_epoch_at_slot(compute_start_slot_at_epoch(77)), 77);
}

#[test]
fn indices_are_numbers_or_numerals() {
    assert_eq!(
        parse_validator_indices(&vec![
            ValidatorIndexRequest::Number(7),
            text("7"),
            text("+8"),
            text("007"),
            text("18446744073709551615"),
        ]),
        Ok(vec![7, 7, 8, 7, u64::MAX])
    );
    assert_eq!(parse_validator_indices(&Vec::new()), Ok(Vec::new()));
}

#[test]
fn invalid_indices_are_refused_as_std_refuses_them() {
    for request in [
        "", "+", "-", "-1", "x", "1x", "1 ", " 1", "++1", "1_000", "18446744073709551616",
        "99999999999999999999x", "1844674407370955161x", "\u{661}",
    ] {
        let error = request.parse::<u64>().unwrap_err();
        assert_eq!(
            parse_validator_indices(&vec![ValidatorIndexRequest::Number(1), text(request)]),
            Err(ApiError::BadRequest(format!(
                "Invalid validator index `{request}`: {error}"
            )))
        );
    }
}

#[test]
fn first_invalid_index_is_reported() {
    assert_eq!(
        parse_validator_indices(&vec![text("a"), text("b")]),
        Err(ApiError::BadRequest(
            "Invalid validator index `a`: invalid digit found in string".to_string()
        ))
    );
}

#[test]
fn search_walks_back_to_the_latest_block() {
    let mut search = BlockRootSearch::new(3);
    assert_eq!(search.candidate(), 3);
    assert_eq!(search.answer(Ok(None)), None);
    assert_eq!(search.candidate(), 2);
    assert_eq!(search.answer(Ok(None)), None);
    assert_eq!(search.candidate(), 1);
    assert_eq!(
        search.answer(Ok(Some(B256::repeat_byte(1)))),
        Some(Ok(B256::repeat_byte(1)))
    );
    assert_eq!(search.candidate(), 1);
}

#[test]
fn search_ends_at_genesis_or_with_an_error() {
    let mut search = BlockRootSearch::new(1);
    assert_eq!(search.answer(Ok(None)), None);
    assert_eq!(
        search.answer(Ok(None)),
        Some(Err(ApiError::NotFound(
            "Failed to find block root at or before slot 1".to_string()
        )))
    );
    let mut search = BlockRootSearch::new(20);
    search.answer(Ok(None));
    assert_eq!(
        search.answer(Err("Io".to_string())),
        Some(Err(ApiError::InternalError(
            "Failed to get block root for slot 19, error: Io".to_string()
        )))
    );
}

#[test]
fn earlier_state_is_advanced() {
    assert_eq!(use_state(8, &Ok(Some(8)), &None), Ok(StateUse::Ready));
    assert_eq!(use_state(8, &Ok(Some(9)), &None), Ok(StateUse::Ready));
    assert_eq!(use_state(8, &Ok(Some(7)), &None), Ok(StateUse::Advance));
    assert_eq!(
        use_state(8, &Ok(Some(7)), &Some(Ok(()))),
        Ok(StateUse::Ready)
    );
    assert_eq!(
        use_state(8, &Ok(Some(7)), &Some(Err("bad".to_string()))),
        Err(ApiError::BadRequest("bad".to_string()))
    );
    assert_eq!(
        use_state(8, &Ok(None), &None),
        Err(ApiError::NotFound(
            "Failed to find beacon state for slot 8".to_string()
        ))
    );
    assert_eq!(
        use_state(8, &Err("Io".to_string()), &None),
        Err(ApiError::InternalError(
            "Failed to get beacon state by block root, error: Io".to_string()
        ))
    );
}

#[test]
fn furthest_epoch_is_the_one_after_the_current() {
    assert_eq!(current_epoch(Ok(0)), Ok(1));
    assert_eq!(current_epoch(Ok(63)), Ok(2));
    assert_eq!(current_epoch(Ok(64)), Ok(3));
    assert_eq!(current_epoch(Ok(u64::MAX)), Ok(u64::MAX / 32 + 1));
    assert_eq!(
        current_epoch(Err("Io".to_string())),
        Err(ApiError::InternalError(
            "Failed to get current slot: Io".to_string()
        ))
    );
}

#[test]
fn shuffling_is_decided_one_epoch_earlier_after_fulu() {
    let legacy = |epoch: u64| (epoch * 32).saturating_sub(1);
    for epoch in 0..=10 {
        assert_eq!(
            proposer_shuffling_decision_slot(epoch, &NETWORK),
            legacy(epoch)
        );
    }
    assert_eq!(proposer_shuffling_decision_slot(11, &NETWORK), 319);
    assert_eq!(proposer_shuffling_decision_slot(12, &NETWORK), 351);
    let from_genesis = NetworkSpec {
        fulu_fork_epoch: 0,
        ..NETWORK
    };
    assert_eq!(proposer_shuffling_decision_slot(0, &from_genesis), 0);
    assert_eq!(proposer_shuffling_decision_slot(1, &from_genesis), 0);
    assert_eq!(proposer_shuffling_decision_slot(2, &from_genesis), 31);
}

#[test]
fn plan_covers_up_to_the_next_epoch() {
    assert_eq!(
        plan_proposer_duties(21, 21, DependentRoot::Legacy, &NETWORK),
        Ok(ProposerPlan {
            decision_slot: 671,
            start_slot: 672,
            end_slot: 704
        })
    );
    assert_eq!(
        plan_proposer_duties(21, 21, DependentRoot::ForkAware, &NETWORK),
        Ok(ProposerPlan {
            decision_slot: 639,
            start_slot: 672,
            end_slot: 704
        })
    );
    assert_eq!(
        plan_proposer_duties(22, 21, DependentRoot::Legacy, &NETWORK),
        Err(ApiError::BadRequest(
            "Request epoch 22 is more than one epoch past the current epoch 20".to_string()
        ))
    );
    assert!(plan_proposer_duties(u64::MAX, 21, DependentRoot::ForkAware, &NETWORK).is_err());
}

fn proposer_facts() -> ProposerFacts {
    ProposerFacts {
        state_slot: 64,
        state_block_root: B256::repeat_byte(1),
        decision_root: Ok(B256::repeat_byte(2)),
        proposers: (0..32).map(|slot| Ok(slot % 3)).collect(),
        public_keys: keys(3),
    }
}

#[test]
fn proposer_duties_list_every_slot() {
    let plan = plan_proposer_duties(2, 2, DependentRoot::Legacy, &NETWORK).unwrap();
    let response = proposer_duties(2, &plan, &proposer_facts()).unwrap();
    assert_eq!(response.dependent_root, Some(B256::repeat_byte(2)));
    assert_eq!(response.data.len(), 32);
    for (offset, duty) in response.data.iter().enumerate() {
        let validator_index = offset as u64 % 3;
        assert_eq!(
            *duty,
            ProposerDuty {
                public_key: PublicKey([validator_index as u8; 48]),
                validator_index,
                slot: 64 + offset as u64,
            }
        );
    }
}

#[test]
fn state_at_or_before_the_decision_names_its_own_block() {
    let plan = plan_proposer_duties(2, 2, DependentRoot::Legacy, &NETWORK).unwrap();
    let facts = ProposerFacts {
        state_slot: 63,
        decision_root: Err("unused".to_string()),
        ..proposer_facts()
    };
    let response = proposer_duties(2, &plan, &facts).unwrap();
    assert_eq!(response.dependent_root, Some(B256::repeat_byte(1)));
}

#[test]
fn proposer_duties_report_errors() {
    let plan = plan_proposer_duties(2, 2, DependentRoot::Legacy, &NETWORK).unwrap();
    let unknown_root = ProposerFacts {
        decision_root: Err("too old".to_string()),
        ..proposer_facts()
    };
    assert_eq!(
        proposer_duties(2, &plan, &unknown_root).unwrap_err(),
        ApiError::NotFound(
            "Failed to find the block root deciding the proposer shuffling for epoch 2: too old"
                .to_string()
        )
    );
    let mut no_proposer = proposer_facts();
    no_proposer.proposers[4] = Err("no active validators".to_string());
    no_proposer.proposers[5] = Ok(9);
    assert_eq!(
        proposer_duties(2, &plan, &no_proposer).unwrap_err(),
        ApiError::BadRequest("no active validators".to_string())
    );
    let mut unknown = proposer_facts();
    unknown.proposers[31] = Ok(3);
    assert_eq!(
        proposer_duties(2, &plan, &unknown).unwrap_err(),
        ApiError::ValidatorNotFound("3".to_string())
    );
}

#[test]
fn both_kinds_of_request_agree_until_the_fork() {
    for epoch in 0..=10 {
        let legacy = plan_proposer_duties(epoch, 10, DependentRoot::Legacy, &NETWORK).unwrap();
        let aware = plan_proposer_duties(epoch, 10, DependentRoot::ForkAware, &NETWORK).unwrap();
        assert_eq!(legacy, aware);
    }
    assert_eq!(
        plan_proposer_duties(11, 10, DependentRoot::Legacy, &NETWORK),
        plan_proposer_duties(11, 10, DependentRoot::ForkAware, &NETWORK)
    );
}

#[test]
fn answers_reach_to_the_epoch_after_the_current_one() {
    let furthest = current_epoch(Ok(20 * 32 + 31)).unwrap();
    assert!(plan_proposer_duties(21, furthest, DependentRoot::Legacy, &NETWORK).is_ok());
    assert_eq!(
        plan_proposer_duties(22, furthest, DependentRoot::Legacy, &NETWORK),
        Err(ApiError::BadRequest(
            "Request epoch 22 is more than one epoch past the current epoch 20".to_string()
        ))
    );
}

#[test]
fn both_kinds_of_request_list_the_same_duties() {
    let legacy = plan_proposer_duties(12, 12, DependentRoot::Legacy, &NETWORK).unwrap();
    let aware = plan_proposer_duties(12, 12, DependentRoot::ForkAware, &NETWORK).unwrap();
    assert_ne!(legacy.decision_slot, aware.decision_slot);
    let facts = proposer_facts();
    assert_eq!(
        proposer_duties(12, &legacy, &facts).unwrap().data,
        proposer_duties(12, &aware, &facts).unwrap().data
    );
}

#[test]
fn attester_duties_depend_on_the_block_before_the_epoch() {
    assert_eq!(
        plan_attester_duties(0),
        AttesterPlan {
            start_slot: 0,
            dependent_slot: 0
        }
    );
    assert_eq!(
        plan_attester_duties(3),
        AttesterPlan {
            start_slot: 96,
            dependent_slot: 95
        }
    );
}

fn assignment(committee: Vec<u64>) -> CommitteeAssignment {
    CommitteeAssignment {
        committee,
        committee_index: 6,
        slot: 99,
    }
}

#[test]
fn attester_duties_name_the_place_in_the_committee() {
    let facts = AttesterFacts {
        committees_at_slot: 64,
        assignments: vec![
            Ok(Some(assignment(vec![5, 2, 1, 2]))),
            Ok(None),
            Ok(Some(assignment(vec![0]))),
        ],
        public_keys: keys(3),
    };
    let response = attester_duties(3, B256::repeat_byte(9), &vec![2, 1, 0], &facts).unwrap();
    assert_eq!(response.dependent_root, Some(B256::repeat_byte(9)));
    let duty = |validator_index: u64, validator_committee_index: u64| AttesterDuty {
        public_key: PublicKey([validator_index as u8; 48]),
        validator_index,
        committee_index: 6,
        committees_at_slot: 64,
        validator_committee_index,
        slot: 99,
    };
    assert_eq!(response.data, vec![duty(2, 1), duty(0, 0)]);
}

#[test]
fn attester_duties_report_errors() {
    let attempt = |index: u64, assignment: Result<Option<CommitteeAssignment>, String>| {
        let facts = AttesterFacts {
            committees_at_slot: 1,
            assignments: vec![assignment],
            public_keys: keys(2),
        };
        attester_duties(3, B256::repeat_byte(9), &vec![index], &facts).unwrap_err()
    };
    assert_eq!(
        attempt(2, Err("unused".to_string())),
        ApiError::ValidatorNotFound(
            "Validator with index 2 not found in state at epoch 3".to_string()
        )
    );
    assert_eq!(
        attempt(1, Err("too far".to_string())),
        ApiError::BadRequest(
            "Failed to get committee assignment for validator 1: too far".to_string()
        )
    );
    assert_eq!(
        attempt(1, Ok(Some(assignment(vec![0])))),
        ApiError::BadRequest("Validator not found in assigned committee".to_string())
    );
}

#[test]
fn sync_duties_list_every_place() {
    let committee = Ok(vec![1, 0, 1, 2, 1]);
    let response = sync_committee_duties(3, &vec![1, 3], &committee, &keys(4)).unwrap();
    assert_eq!(response.dependent_root, None);
    assert_eq!(
        response.data,
        vec![
            SyncCommitteeDuty {
                public_key: PublicKey([1; 48]),
                validator_index: 1,
                validator_sync_committee_indices: vec![0, 2, 4],
            },
            SyncCommitteeDuty {
                public_key: PublicKey([3; 48]),
                validator_index: 3,
                validator_sync_committee_indices: vec![],
            },
        ]
    );
}

#[test]
fn sync_duties_report_errors() {
    assert_eq!(
        sync_committee_duties(3, &vec![0, 4], &Ok(vec![0]), &keys(4)).unwrap_err(),
        ApiError::ValidatorNotFound(
            "Validator with index 4 not found in state at epoch 3".to_string()
        )
    );
    assert_eq!(
        sync_committee_duties(3, &vec![0], &Err("Io".to_string()), &keys(4)).unwrap_err(),
        ApiError::BadRequest("Failed to get sync committee indices Io".to_string())
    );
    let nobody = sync_committee_duties(3, &Vec::new(), &Err("Io".to_string()), &keys(4)).unwrap();
    assert!(nobody.data.is_empty());
}
