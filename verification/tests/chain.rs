use beacon_availability::availability::checker::DataAvailabilityChecker;
use beacon_availability::beacon::{
    Attestation, BeaconBlock, BeaconBlockBody, Checkpoint, SignedBeaconBlock,
};
use beacon_availability::bytes::{BLSSignature, KZGCommitment, B256};
use beacon_availability::chain::import::{
    BeaconChain, BlockImport, ImportAnswer, ImportStep, OnBlockOutcome,
};
use beacon_availability::chain::scenario::{
    expects_success, first_mismatch, BlockScenario, CheckedValue, Checks, ColumnCheck, Observed,
};
use beacon_availability::chain::status::{choose_head, ChainHead, Status};

fn block(slot: u64, attestations: usize) -> SignedBeaconBlock {
    SignedBeaconBlock {
        message: BeaconBlock {
            slot,
            proposer_index: 0,
            parent_root: B256::repeat_byte(slot as u8),
            state_root: B256::repeat_byte(0),
            body_root: B256::repeat_byte(0),
            body: BeaconBlockBody {
                blob_kzg_commitments: vec![KZGCommitment([0; 48])],
                attestations: (0..attestations)
                    .map(|index| Attestation {
                        ssz: vec![index as u8],
                    })
                    .collect(),
            },
        },
        signature: BLSSignature([0; 96]),
    }
}

fn chain() -> BeaconChain<u32> {
    BeaconChain::new(DataAvailabilityChecker::new([0, 1].into_iter().collect()))
}

fn judged(outcome: OnBlockOutcome) -> ImportAnswer<String> {
    ImportAnswer::Judged(Ok(outcome))
}

fn import_one(import: &mut BlockImport, children: Vec<SignedBeaconBlock>) {
    assert_eq!(import.step(), ImportStep::Judge);
    import.answer(judged(OnBlockOutcome::Imported)).unwrap();
    while let ImportStep::Attest(_) = import.step() {
        import
            .answer::<String>(ImportAnswer::Attested(Ok(())))
            .unwrap();
    }
    assert_eq!(import.step(), ImportStep::Announce);
    import
        .answer::<String>(ImportAnswer::Announced(Ok(())))
        .unwrap();
    assert_eq!(import.step(), ImportStep::Collect);
    import
        .answer::<String>(ImportAnswer::Collected(children))
        .unwrap();
}

#[test]
fn imported_block_hands_on_its_attestations_and_is_announced() {
    let mut import = chain().process_block(block(5, 2));
    assert_eq!(import.step(), ImportStep::Judge);
    assert_eq!(import.block(), &block(5, 2));
    assert!(import.attestation().is_none());
    assert!(import.verifies_availability(5));
    assert!(!import.verifies_availability(6));
    import.answer(judged(OnBlockOutcome::Imported)).unwrap();
    assert_eq!(import.step(), ImportStep::Attest(0));
    assert_eq!(import.attestation().unwrap().ssz, vec![0]);
    import
        .answer(ImportAnswer::Attested(Err("stale".to_string())))
        .unwrap();
    assert_eq!(import.step(), ImportStep::Attest(1));
    assert_eq!(import.attestation().unwrap().ssz, vec![1]);
    import
        .answer::<String>(ImportAnswer::Attested(Ok(())))
        .unwrap();
    assert_eq!(import.step(), ImportStep::Announce);
    import
        .answer::<String>(ImportAnswer::Announced(Ok(())))
        .unwrap();
    assert_eq!(import.step(), ImportStep::Collect);
    assert_eq!(
        import.collects_from(),
        block(5, 2).message.tree_hash_root()
    );
    import
        .answer::<String>(ImportAnswer::Collected(Vec::new()))
        .unwrap();
    assert_eq!(import.step(), ImportStep::Finished);
}

#[test]
fn waiting_blocks_follow_in_breadth_first_order() {
    let mut import = chain().process_block(block(1, 0));
    import_one(&mut import, vec![block(2, 0), block(3, 1)]);
    assert_eq!(import.block().message.slot, 2);
    import_one(&mut import, vec![block(4, 0)]);
    assert_eq!(import.block().message.slot, 3);
    import_one(&mut import, vec![block(5, 0)]);
    assert_eq!(import.block().message.slot, 4);
    import_one(&mut import, Vec::new());
    assert_eq!(import.block().message.slot, 5);
    import_one(&mut import, Vec::new());
    assert_eq!(import.step(), ImportStep::Finished);
}

#[test]
fn block_without_data_is_left_alone() {
    let mut import = chain().process_block(block(1, 3));
    import
        .answer(judged(OnBlockOutcome::PendingAvailability))
        .unwrap();
    assert_eq!(import.step(), ImportStep::Finished);
}

#[test]
fn block_without_parent_is_parked() {
    let mut import = chain().process_block(block(1, 0));
    import_one(&mut import, vec![block(2, 0), block(3, 0)]);
    import.answer(judged(OnBlockOutcome::PendingParent)).unwrap();
    assert_eq!(import.step(), ImportStep::Park);
    assert_eq!(import.parks_under(), B256::repeat_byte(2));
    import.answer::<String>(ImportAnswer::Parked).unwrap();
    assert_eq!(import.step(), ImportStep::Judge);
    assert_eq!(import.block().message.slot, 3);
}

#[test]
fn error_gives_up_the_import() {
    let mut import = chain().process_block(block(1, 0));
    import_one(&mut import, vec![block(2, 0), block(3, 0)]);
    assert_eq!(
        import.answer(ImportAnswer::Judged(Err("bad block"))),
        Err("bad block")
    );
    assert_eq!(import.step(), ImportStep::Failed);

    let mut import = chain().process_block(block(1, 0));
    import.answer(judged(OnBlockOutcome::Imported)).unwrap();
    assert_eq!(
        import.answer(ImportAnswer::Announced(Err("no event"))),
        Err("no event")
    );
    assert_eq!(import.step(), ImportStep::Failed);
}

#[test]
fn last_column_imports_the_block() {
    let mut chain = chain();
    let root = block(9, 1).message.tree_hash_root();
    assert!(chain
        .data_availability_checker
        .insert_pending(root, block(9, 1), 42)
        .is_none());
    assert!(chain.process_data_column_sidecar(root, 0, 9).is_none());
    assert!(chain.process_data_column_sidecar(root, 5, 9).is_none());
    let (mut import, state) = chain.process_data_column_sidecar(root, 1, 9).unwrap();
    assert_eq!(state, 42);
    assert_eq!(import.step(), ImportStep::Import);
    assert_eq!(import.block(), &block(9, 1));
    assert!(chain.data_availability_checker.is_empty());
    import
        .answer::<String>(ImportAnswer::Imported(Ok(())))
        .unwrap();
    assert_eq!(import.step(), ImportStep::Attest(0));

    chain
        .data_availability_checker
        .insert_pending(root, block(9, 1), 42);
    chain.process_data_column_sidecar(root, 0, 9);
    let (mut import, _) = chain.process_data_column_sidecar(root, 1, 9).unwrap();
    assert_eq!(
        import.answer(ImportAnswer::Imported(Err("bad state"))),
        Err("bad state")
    );
    assert_eq!(import.step(), ImportStep::Failed);
}

fn finalized() -> Checkpoint {
    Checkpoint {
        epoch: 3,
        root: B256::repeat_byte(3),
    }
}

#[test]
fn head_falls_back_to_the_finalized_block() {
    let head_root = B256::repeat_byte(8);
    assert_eq!(
        choose_head::<String>(Ok(finalized()), Ok(head_root)),
        Ok(ChainHead {
            finalized_checkpoint: finalized(),
            head_root
        })
    );
    assert_eq!(
        choose_head(Ok(finalized()), Err("no head")),
        Ok(ChainHead {
            finalized_checkpoint: finalized(),
            head_root: B256::repeat_byte(3)
        })
    );
    assert_eq!(
        choose_head(Err("Io"), Ok(head_root)),
        Err("Failed to get finalized checkpoint".to_string())
    );
}

#[test]
fn status_names_head_and_finalized_checkpoint() {
    let chain = chain();
    let head = ChainHead {
        finalized_checkpoint: finalized(),
        head_root: B256::repeat_byte(0xa8),
    };
    assert_eq!(
        chain.build_status_request(&head, Ok(Some(100)), [1, 2, 3, 4]),
        Ok(Status {
            fork_digest: [1, 2, 3, 4],
            finalized_root: B256::repeat_byte(3),
            finalized_epoch: 3,
            head_root: B256::repeat_byte(0xa8),
            head_slot: 100,
            earliest_available_slot: 0,
        })
    );
    let root = format!("0x{}", "a8".repeat(32));
    assert_eq!(
        chain.build_status_request(&head, Ok(None), [0; 4]),
        Err(format!("Failed to get block for head root {root}: Ok(None)"))
    );
    assert_eq!(
        chain.build_status_request(&head, Err("Io".to_string()), [0; 4]),
        Err(format!("Failed to get block for head root {root}: Err(Io)"))
    );
}

#[test]
fn scenario_step_holds_if_the_block_comes_out_as_expected() {
    let imported: Result<OnBlockOutcome, String> = Ok(OnBlockOutcome::Imported);
    let pending: Result<OnBlockOutcome, String> = Ok(OnBlockOutcome::PendingAvailability);
    let mut scenario = BlockScenario::new(true);
    assert!(scenario.verify_blob_availability());
    assert!(!BlockScenario::new(false).verify_blob_availability());
    let good = ColumnCheck::<String> {
        well_formed: true,
        proofs: Ok(true),
    };
    assert!(scenario.add_column(good));
    assert!(scenario.holds(imported.clone(), None));
    assert!(scenario.holds(imported.clone(), Some(true)));
    assert!(!scenario.holds(imported.clone(), Some(false)));
    assert!(scenario.holds(pending, Some(false)));
    assert!(!scenario.holds(Err("bad".to_string()), None));
    for (well_formed, proofs) in [(false, Ok(true)), (true, Ok(false)), (true, Err("kzg"))] {
        let mut scenario = BlockScenario::new(true);
        assert!(!scenario.add_column(ColumnCheck { well_formed, proofs }));
        assert!(scenario.add_column(ColumnCheck::<String> {
            well_formed: true,
            proofs: Ok(true)
        }));
        assert!(scenario.holds(imported.clone(), Some(false)));
        assert!(!scenario.holds(imported.clone(), None));
    }
    assert!(expects_success(None));
    assert!(!expects_success(Some(false)));
}

#[test]
fn first_unexpected_value_is_named() {
    let observed = Observed {
        time: 12,
        justified_checkpoint: finalized(),
        finalized_checkpoint: finalized(),
        proposer_boost_root: B256::repeat_byte(0),
    };
    let open = Checks {
        time: None,
        justified_checkpoint: None,
        finalized_checkpoint: None,
        proposer_boost_root: None,
    };
    let other = Checkpoint {
        epoch: 4,
        root: B256::repeat_byte(3),
    };
    assert_eq!(first_mismatch(&open, &observed), None);
    let same = Checks {
        time: Some(12),
        justified_checkpoint: Some(finalized()),
        finalized_checkpoint: Some(finalized()),
        proposer_boost_root: Some(B256::repeat_byte(0)),
    };
    assert_eq!(first_mismatch(&same, &observed), None);
    let cases = [
        (Checks { time: Some(13), ..same }, CheckedValue::Time),
        (
            Checks {
                justified_checkpoint: Some(other),
                ..same
            },
            CheckedValue::JustifiedCheckpoint,
        ),
        (
            Checks {
                finalized_checkpoint: Some(other),
                ..same
            },
            CheckedValue::FinalizedCheckpoint,
        ),
        (
            Checks {
                proposer_boost_root: Some(B256::repeat_byte(1)),
                ..same
            },
            CheckedValue::ProposerBoostRoot,
        ),
    ];
    for (checks, value) in cases {
        assert_eq!(first_mismatch(&checks, &observed), Some(value));
    }
}
