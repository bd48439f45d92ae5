use beacon_availability::beacon::{
    BeaconBlock, BeaconBlockBody, BeaconBlockHeader, ColumnIdentifier, DataColumnSidecar,
    SignedBeaconBlock, SignedBeaconBlockHeader,
};
use beacon_availability::bytes::{BLSSignature, B256};
use beacon_availability::columns::fetch::{
    ensure_column_of_pending_block, is_valid_rpc_column, judge_column, request_columns_by_root,
    ColumnChecks, ColumnEvent, ColumnFetch, ColumnRequestError, ColumnVerdict, FetchDirective,
    ImportRefusal,
};
use beacon_availability::columns::request::{
    DataColumnSidecarsByRootV1Request, DataColumnsByRootIdentifier, TooManyColumns,
};
use beacon_availability::peer::PeerId;

fn header() -> SignedBeaconBlockHeader {
    SignedBeaconBlockHeader {
        message: BeaconBlockHeader {
            slot: 1,
            proposer_index: 2,
            parent_root: B256::repeat_byte(3),
            state_root: B256::repeat_byte(4),
            body_root: B256::repeat_byte(5),
        },
        signature: BLSSignature([6; 96]),
    }
}

fn block() -> SignedBeaconBlock {
    SignedBeaconBlock {
        message: BeaconBlock {
            slot: 1,
            proposer_index: 2,
            parent_root: B256::repeat_byte(3),
            state_root: B256::repeat_byte(4),
            body_root: B256::repeat_byte(5),
            body: BeaconBlockBody {
                blob_kzg_commitments: Vec::new(),
                attestations: Vec::new(),
            },
        },
        signature: BLSSignature([6; 96]),
    }
}

fn column(index: u64) -> DataColumnSidecar {
    DataColumnSidecar {
        index,
        column: Vec::new(),
        kzg_commitments: Vec::new(),
        kzg_proofs: Vec::new(),
        signed_block_header: header(),
        kzg_commitments_inclusion_proof: Vec::new(),
    }
}

fn default_column(index: u64) -> DataColumnSidecar {
    DataColumnSidecar {
        signed_block_header: SignedBeaconBlockHeader {
            message: BeaconBlockHeader {
                slot: 0,
                proposer_index: 0,
                parent_root: B256::repeat_byte(0),
                state_root: B256::repeat_byte(0),
                body_root: B256::repeat_byte(0),
            },
            signature: BLSSignature([0; 96]),
        },
        ..column(index)
    }
}

const GOOD: ColumnChecks = ColumnChecks {
    verified: true,
    inclusion_proof_valid: true,
    kzg_proofs_valid: Some(true),
};

fn hex(root: &B256) -> String {
    root.0.iter().map(|byte| format!("{byte:02x}")).collect()
}

#[test]
fn header_root_is_the_merkle_root_of_its_fields() {
    assert_eq!(
        hex(&header().message.tree_hash_root()),
        "7a032425b545051efe04469c0afce63eccc32cc05c38529bea8907849c251a4d"
    );
    assert_eq!(block().message.tree_hash_root(), header().message.tree_hash_root());
    assert_eq!(block().signed_header(), header());
    let empty = BeaconBlockHeader {
        slot: 0,
        proposer_index: 0,
        parent_root: B256::repeat_byte(0),
        state_root: B256::repeat_byte(0),
        body_root: B256::repeat_byte(0),
    };
    assert_eq!(
        hex(&empty.tree_hash_root()),
        "c78009fdf07fc56a11f122370658a353aaa542ed63e44c4bc15ff4cd105ab33c"
    );
}

#[test]
fn duplicate_response_index_is_rejected() {
    let (_, mut response) = request_columns_by_root(B256::repeat_byte(1), &vec![0]).unwrap();
    assert!(matches!(
        response.accept(ColumnEvent::Sidecar(default_column(0))),
        Ok(false)
    ));
    assert!(response
        .accept(ColumnEvent::Sidecar(default_column(0)))
        .expect_err("duplicate index must fail the response")
        .message()
        .contains("more than once"));
}

#[test]
fn unrequested_response_index_is_rejected() {
    let (_, mut response) = request_columns_by_root(B256::repeat_byte(1), &vec![0]).unwrap();
    assert!(response
        .accept(ColumnEvent::Sidecar(default_column(1)))
        .expect_err("unrequested index must fail the response")
        .message()
        .contains("unrequested"));
}

#[test]
fn complete_response_keeps_the_order_of_arrival() {
    let (identifier, mut response) =
        request_columns_by_root(B256::repeat_byte(1), &vec![3, 1]).unwrap();
    assert_eq!(identifier.block_root, B256::repeat_byte(1));
    assert_eq!(identifier.columns.to_vec(), vec![3, 1]);
    assert!(matches!(
        response.accept(ColumnEvent::Sidecar(column(1))),
        Ok(false)
    ));
    assert!(matches!(
        response.accept(ColumnEvent::Sidecar(column(3))),
        Ok(false)
    ));
    assert!(matches!(
        response.accept(ColumnEvent::EndOfStream),
        Ok(true)
    ));
    let indices: Vec<u64> = response
        .into_sidecars()
        .iter()
        .map(|sidecar| sidecar.index)
        .collect();
    assert_eq!(indices, vec![1, 3]);
}

#[test]
fn every_failed_request_says_why() {
    let cases = [
        (
            ColumnEvent::Sidecar(column(12)),
            "peer returned unrequested data column index 12",
        ),
        (
            ColumnEvent::OtherMessage,
            "unexpected response type for data columns by root",
        ),
        (ColumnEvent::Disconnected, "peer disconnected"),
        (ColumnEvent::Timeout, "request timed out"),
        (
            ColumnEvent::CallbackFailed("io".to_string()),
            "callback failed: io",
        ),
        (
            ColumnEvent::ChannelClosed,
            "response channel closed before end-of-stream",
        ),
        (
            ColumnEvent::NotSent("channel closed".to_string()),
            "data column request channel closed: channel closed",
        ),
    ];
    for (event, text) in cases {
        let (_, mut response) = request_columns_by_root(B256::repeat_byte(1), &vec![0]).unwrap();
        assert_eq!(response.accept(event).unwrap_err().message(), text);
    }
    assert_eq!(
        ColumnRequestError::DuplicateIndex(7).message(),
        "peer returned data column index 7 more than once"
    );
    let many: Vec<u64> = (0..129).collect();
    let error = request_columns_by_root(B256::repeat_byte(1), &many).unwrap_err();
    assert_eq!(
        error.message(),
        "Too many data columns were requested for one block"
    );
}

#[test]
fn identifier_takes_up_to_128_columns() {
    let root = B256::repeat_byte(9);
    let identifier = DataColumnsByRootIdentifier::new(root, (0..128).collect()).unwrap();
    assert_eq!(identifier.columns.len(), 128);
    assert_eq!(
        DataColumnsByRootIdentifier::new(root, (0..129).collect()),
        Err(TooManyColumns)
    );
}

#[test]
fn columns_are_grouped_by_block() {
    let id = |byte: u8, index: u64| ColumnIdentifier {
        block_root: B256::repeat_byte(byte),
        index,
    };
    let request = DataColumnSidecarsByRootV1Request::from_column_identifiers(vec![
        id(2, 5),
        id(1, 0),
        id(2, 3),
        id(1, 0),
    ]);
    assert_eq!(request.inner.len(), 2);
    assert_eq!(request.inner[0].block_root, B256::repeat_byte(2));
    assert_eq!(request.inner[0].columns.to_vec(), vec![5, 3]);
    assert_eq!(request.inner[1].block_root, B256::repeat_byte(1));
    assert_eq!(request.inner[1].columns.to_vec(), vec![0, 0]);
    let none = DataColumnSidecarsByRootV1Request::from_column_identifiers(Vec::new());
    assert_eq!(none.inner.len(), 0);
}

#[test]
fn full_request_of_128_columns_fits() {
    let identifiers: Vec<ColumnIdentifier> = (0..128)
        .map(|index| ColumnIdentifier {
            block_root: B256::repeat_byte(1),
            index,
        })
        .collect();
    let request = DataColumnSidecarsByRootV1Request::from_column_identifiers(identifiers);
    assert_eq!(request.inner[0].columns.len(), 128);
    let groups: Vec<DataColumnsByRootIdentifier> = (0..128)
        .map(|byte| DataColumnsByRootIdentifier::new(B256::repeat_byte(byte), vec![0]).unwrap())
        .collect();
    let request = DataColumnSidecarsByRootV1Request::new(groups);
    assert_eq!(request.inner.len(), 128);
    assert_eq!(request.inner[127].block_root, B256::repeat_byte(127));
}

#[test]
fn peers_are_asked_one_after_the_other() {
    let peer = |byte: u8| PeerId::new(0, &[byte]).unwrap();
    let missing = vec![1, 2];
    let mut fetch = ColumnFetch::new(vec![peer(1), peer(2)]);
    assert_eq!(fetch.next(Some(&missing)), FetchDirective::Request(peer(1)));
    assert_eq!(fetch.next(Some(&missing)), FetchDirective::Request(peer(2)));
    assert_eq!(fetch.next(Some(&missing)), FetchDirective::Finished(false));
    assert_eq!(fetch.next(Some(&Vec::new())), FetchDirective::Finished(true));
    let mut fetch = ColumnFetch::new(vec![peer(1)]);
    assert_eq!(fetch.next(None), FetchDirective::Finished(true));
    assert_eq!(ColumnFetch::new(Vec::new()).next(Some(&missing)), FetchDirective::Finished(false));
}

#[test]
fn fetched_column_must_pass_every_check() {
    let root = header().message.tree_hash_root();
    let missing = vec![4];
    let judge = |sidecar: &DataColumnSidecar, checks: &ColumnChecks| {
        judge_column(sidecar, &missing, root, &header(), checks)
    };
    assert_eq!(judge(&column(4), &GOOD), ColumnVerdict::Import);
    assert_eq!(judge(&column(5), &GOOD), ColumnVerdict::Unrequested);
    for checks in [
        ColumnChecks { verified: false, ..GOOD },
        ColumnChecks { inclusion_proof_valid: false, ..GOOD },
        ColumnChecks { kzg_proofs_valid: Some(false), ..GOOD },
        ColumnChecks { kzg_proofs_valid: None, ..GOOD },
    ] {
        assert_eq!(judge(&column(4), &checks), ColumnVerdict::Invalid);
    }
    let mut forged = column(4);
    forged.signed_block_header.signature = BLSSignature([7; 96]);
    assert_eq!(judge(&forged, &GOOD), ColumnVerdict::Invalid);
    assert!(is_valid_rpc_column(&column(4), root, &header(), &GOOD));
    assert!(!is_valid_rpc_column(&column(4), B256::repeat_byte(1), &header(), &GOOD));
}

#[test]
fn column_is_imported_only_for_its_pending_block() {
    assert_eq!(ensure_column_of_pending_block(Some(&block()), &header()), Ok(()));
    assert_eq!(
        ensure_column_of_pending_block(None, &header()),
        Err(ImportRefusal::NotPending)
    );
    let mut other = header();
    other.message.slot = 9;
    let refusal = ensure_column_of_pending_block(Some(&block()), &other).unwrap_err();
    assert_eq!(refusal, ImportRefusal::HeaderMismatch);
    assert_eq!(
        refusal.message(),
        "data column signed header does not match the pending block"
    );
    assert_eq!(
        ImportRefusal::NotPending.message(),
        "block is no longer pending availability"
    );
}
