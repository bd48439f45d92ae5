//! Fetching the missing columns of one block, peer by peer.
use std::collections::HashSet;

use vstd::prelude::*;

use crate::beacon::{header_root, DataColumnSidecar, SignedBeaconBlock, SignedBeaconBlockHeader};
use crate::bytes::B256;
use crate::columns::request::{column_list, DataColumnsByRootIdentifier, MAX_COLUMNS};
use crate::peer::PeerId;
use crate::text::{append_decimal, decimal};

verus! {

broadcast use vstd::std_specs::hash::group_hash_axioms;

/// What to do next for a block whose columns are being fetched.
#[derive(Debug, Clone, Copy, PartialEq, Eq)]
pub enum FetchDirective {
    /// Stop; the value tells whether the block needs no more columns.
    Finished(bool),
    /// Ask this peer for the missing columns.
    Request(PeerId),
}

/// The fetch of one block's missing columns.
#[derive(Debug)]
pub struct ColumnFetch {
    peers: Vec<PeerId>,
    tried: usize,
}

/// Whether a block needs no more columns. `missing` is `None` if the block is no
/// longer pending.
pub open spec fn satisfied(missing: Option<Seq<u64>>) -> bool {
    missing is None || missing->0.len() == 0
}

/// What to do next after `tried` of `peers` have been asked.
pub open spec fn directive(
    peers: Seq<PeerId>,
    tried: int,
    missing: Option<Seq<u64>>,
) -> FetchDirective {
    if satisfied(missing) {
        FetchDirective::Finished(true)
    } else if tried >= peers.len() {
        FetchDirective::Finished(false)
    } else {
        FetchDirective::Request(peers[tried])
    }
}

impl ColumnFetch {
    /// The peers, in the order in which they are asked.
    pub closed spec fn peers(&self) -> Seq<PeerId> {
        self.peers@
    }

    /// How many peers have been asked.
    pub closed spec fn tried(&self) -> int {
        self.tried as int
    }

    /// No more peers have been asked than there are.
    pub open spec fn wf(&self) -> bool {
        0 <= self.tried() <= self.peers().len()
    }

    /// A fetch that asks `peers` in this order.
    pub fn new(peers: Vec<PeerId>) -> (fetch: ColumnFetch)
        ensures
            fetch.wf(),
            fetch.peers() == peers@,
            fetch.tried() == 0,
    {
        ColumnFetch { peers, tried: 0 }
    }

    /// Decides what to do next. `missing` is read anew before each call, since
    /// another arrival may have completed the block and an earlier attempt may
    /// have imported a part. It is `None` if the block is no longer pending.
    pub fn next(&mut self, missing: Option<&Vec<u64>>) -> (next: FetchDirective)
        requires
            old(self).wf(),
        ensures
            final(self).wf(),
            final(self).peers() == old(self).peers(),
            next == directive(
                old(self).peers(),
                old(self).tried(),
                match missing {
                    Some(columns) => Some(columns@),
                    None => None,
                },
            ),
            next == FetchDirective::Finished(true) <==> (match missing {
                Some(columns) => columns@.len() == 0,
                None => true,
            }),
            next matches FetchDirective::Request(peer) ==> old(self).tried() < old(
                self,
            ).peers().len() && peer == old(self).peers()[old(self).tried()],
            next == FetchDirective::Finished(false) ==> old(self).tried() == old(
                self,
            ).peers().len(),
            final(self).tried() == old(self).tried() + if next is Request {
                1int
            } else {
                0
            },
    {
        match missing {
            None => {
                return FetchDirective::Finished(true);
            },
            Some(columns) => if columns.len() == 0 {
                return FetchDirective::Finished(true);
            },
        }
        if self.tried == self.peers.len() {
            return FetchDirective::Finished(false);
        }
        let peer = self.peers[self.tried];
        self.tried = self.tried + 1;
        FetchDirective::Request(peer)
    }
}

/// What the cryptographic checks say about a column.
#[derive(Debug, Clone, Copy, PartialEq, Eq, Structural)]
pub struct ColumnChecks {
    /// Whether the sidecar passes its basic verification.
    pub verified: bool,
    /// Whether the inclusion proof of the commitments is valid.
    pub inclusion_proof_valid: bool,
    /// Whether the KZG proofs are valid; `None` if they could not be checked.
    pub kzg_proofs_valid: Option<bool>,
}

/// Whether a sidecar carries the expected header, whose root is `expected_root`.
pub open spec fn header_expected(
    sidecar: DataColumnSidecar,
    expected_root: B256,
    expected_header: SignedBeaconBlockHeader,
) -> bool {
    header_root(sidecar.signed_block_header.message) == expected_root.0@
        && sidecar.signed_block_header == expected_header
}

/// Whether a sidecar carries the expected header, whose root is `expected_root`.
pub fn has_expected_header(
    sidecar: &DataColumnSidecar,
    expected_root: B256,
    expected_header: &SignedBeaconBlockHeader,
) -> (expected: bool)
    ensures
        expected == header_expected(*sidecar, expected_root, *expected_header),
{
    let root = sidecar.signed_block_header.message.tree_hash_root();
    if !root.equals(&expected_root) {
        proof {
            if root.0@ == expected_root.0@ {
                assert forall|i: int| 0 <= i < 32 implies root.0[i] == expected_root.0[i] by {
                    assert(root.0@[i] == expected_root.0@[i]);
                }
                assert(root.0 =~= expected_root.0);
            }
        }
        return false;
    }
    sidecar.signed_block_header.equals(expected_header)
}

/// Whether a column obtained on request is valid. Conditions on gossip, such as
/// the subnet and the time of arrival, are not applied: the block is already
/// behind the head, so they would refuse every honest response.
pub fn is_valid_rpc_column(
    sidecar: &DataColumnSidecar,
    expected_root: B256,
    expected_header: &SignedBeaconBlockHeader,
    checks: &ColumnChecks,
) -> (valid: bool)
    ensures
        valid == (header_expected(*sidecar, expected_root, *expected_header) && checks.verified
            && checks.inclusion_proof_valid && checks.kzg_proofs_valid == Some(true)),
        valid ==> header_root(sidecar.signed_block_header.message) == expected_root.0@,
        valid ==> sidecar.signed_block_header == *expected_header,
{
    if !has_expected_header(sidecar, expected_root, expected_header) {
        return false;
    }
    if !checks.verified || !checks.inclusion_proof_valid {
        return false;
    }
    match checks.kzg_proofs_valid {
        Some(valid) => valid,
        None => false,
    }
}

/// What happens to a column that a peer returned.
#[derive(Debug, Clone, Copy, PartialEq, Eq, Structural)]
pub enum ColumnVerdict {
    /// The column was not asked for.
    Unrequested,
    /// The column is invalid.
    Invalid,
    /// The column is to be imported.
    Import,
}

/// Judges a column that a peer returned.
pub fn judge_column(
    sidecar: &DataColumnSidecar,
    missing: &Vec<u64>,
    block_root: B256,
    expected_header: &SignedBeaconBlockHeader,
    checks: &ColumnChecks,
) -> (verdict: ColumnVerdict)
    ensures
        verdict == (if !missing@.contains(sidecar.index) {
            ColumnVerdict::Unrequested
        } else if header_expected(*sidecar, block_root, *expected_header) && checks.verified
            && checks.inclusion_proof_valid && checks.kzg_proofs_valid == Some(true) {
            ColumnVerdict::Import
        } else {
            ColumnVerdict::Invalid
        }),
{
    if !contains_column(missing, sidecar.index) {
        return ColumnVerdict::Unrequested;
    }
    if is_valid_rpc_column(sidecar, block_root, expected_header, checks) {
        ColumnVerdict::Import
    } else {
        ColumnVerdict::Invalid
    }
}

/// Whether `columns` holds `column`.
fn contains_column(columns: &Vec<u64>, column: u64) -> (found: bool)
    ensures
        found == columns@.contains(column),
{
    let mut index: usize = 0;
    while index < columns.len()
        invariant
            index <= columns@.len(),
            forall|i: int| 0 <= i < index ==> columns@[i] != column,
        decreases columns@.len() - index,
    {
        if columns[index] == column {
            return true;
        }
        index = index + 1;
    }
    false
}

/// Why a fetched column is not imported after all.
#[derive(Debug, Clone, Copy, PartialEq, Eq, Structural)]
pub enum ImportRefusal {
    NotPending,
    HeaderMismatch,
}

impl ImportRefusal {
    /// The sentence that describes the refusal.
    pub open spec fn spec_message(self) -> Seq<char> {
        match self {
            ImportRefusal::NotPending => "block is no longer pending availability"@,
            ImportRefusal::HeaderMismatch =>
                "data column signed header does not match the pending block"@,
        }
    }

    /// The sentence that describes the refusal.
    pub fn message(&self) -> (text: &'static str)
        ensures
            text@ == self.spec_message(),
    {
        match self {
            ImportRefusal::NotPending => "block is no longer pending availability",
            ImportRefusal::HeaderMismatch =>
                "data column signed header does not match the pending block",
        }
    }
}

/// Checks, at the moment of import, that the block is still pending and that the
/// column belongs to it.
pub fn ensure_column_of_pending_block(
    pending: Option<&SignedBeaconBlock>,
    sidecar_header: &SignedBeaconBlockHeader,
) -> (importable: Result<(), ImportRefusal>)
    ensures
        importable == (match pending {
            None => Err::<(), ImportRefusal>(ImportRefusal::NotPending),
            Some(block) => if block.spec_signed_header() == *sidecar_header {
                Ok(())
            } else {
                Err(ImportRefusal::HeaderMismatch)
            },
        }),
{
    match pending {
        None => Err(ImportRefusal::NotPending),
        Some(block) => if block.signed_header().equals(sidecar_header) {
            Ok(())
        } else {
            Err(ImportRefusal::HeaderMismatch)
        },
    }
}

/// What comes of a request for columns.
#[derive(Debug)]
pub enum ColumnEvent {
    /// A column.
    Sidecar(DataColumnSidecar),
    /// A message of another kind.
    OtherMessage,
    /// The peer has sent everything.
    EndOfStream,
    /// The peer is gone.
    Disconnected,
    /// The peer did not answer in time.
    Timeout,
    /// The network reported an error with this text.
    CallbackFailed(String),
    /// Nothing more will arrive.
    ChannelClosed,
    /// The request could not be handed to the network, with the text of the error.
    NotSent(String),
}

/// Why a request for columns failed.
#[derive(Debug)]
pub enum ColumnRequestError {
    TooManyColumns,
    UnexpectedResponse,
    UnrequestedIndex(u64),
    DuplicateIndex(u64),
    Disconnected,
    TimedOut,
    CallbackFailed(String),
    ClosedEarly,
    RequestChannelClosed(String),
}

impl ColumnRequestError {
    /// The sentence that describes the error.
    pub open spec fn spec_message(self) -> Seq<char> {
        match self {
            ColumnRequestError::TooManyColumns =>
                "Too many data columns were requested for one block"@,
            ColumnRequestError::UnexpectedResponse =>
                "unexpected response type for data columns by root"@,
            ColumnRequestError::UnrequestedIndex(index) =>
                "peer returned unrequested data column index "@ + decimal(index as nat),
            ColumnRequestError::DuplicateIndex(index) =>
                "peer returned data column index "@ + decimal(index as nat) + " more than once"@,
            ColumnRequestError::Disconnected => "peer disconnected"@,
            ColumnRequestError::TimedOut => "request timed out"@,
            ColumnRequestError::CallbackFailed(error) => "callback failed: "@ + error@,
            ColumnRequestError::ClosedEarly => "response channel closed before end-of-stream"@,
            ColumnRequestError::RequestChannelClosed(error) =>
                "data column request channel closed: "@ + error@,
        }
    }

    /// The sentence that describes the error.
    pub fn message(&self) -> (text: String)
        ensures
            text@ == self.spec_message(),
    {
        match self {
            ColumnRequestError::TooManyColumns =>
                "Too many data columns were requested for one block".to_owned(),
            ColumnRequestError::UnexpectedResponse =>
                "unexpected response type for data columns by root".to_owned(),
            ColumnRequestError::UnrequestedIndex(index) => {
                let mut text = "peer returned unrequested data column index ".to_owned();
                append_decimal(&mut text, *index);
                text
            },
            ColumnRequestError::DuplicateIndex(index) => {
                let mut text = "peer returned data column index ".to_owned();
                append_decimal(&mut text, *index);
                text.append(" more than once");
                text
            },
            ColumnRequestError::Disconnected => "peer disconnected".to_owned(),
            ColumnRequestError::TimedOut => "request timed out".to_owned(),
            ColumnRequestError::CallbackFailed(error) => {
                let mut text = "callback failed: ".to_owned();
                text.append(error.as_str());
                text
            },
            ColumnRequestError::ClosedEarly =>
                "response channel closed before end-of-stream".to_owned(),
            ColumnRequestError::RequestChannelClosed(error) => {
                let mut text = "data column request channel closed: ".to_owned();
                text.append(error.as_str());
                text
            },
        }
    }
}

/// The columns that have arrived in answer to one request.
#[derive(Debug)]
pub struct ColumnResponse {
    requested_indices: HashSet<u64>,
    received_indices: HashSet<u64>,
    sidecars: Vec<DataColumnSidecar>,
}

/// Whether a column with this index is among `sidecars`.
pub open spec fn has_index(sidecars: Seq<DataColumnSidecar>, index: u64) -> bool {
    exists|i: int| 0 <= i < sidecars.len() && (#[trigger] sidecars[i]).index == index
}

/// The outcome of one event: the columns so far and whether the response is
/// complete, or the error that ends it.
pub open spec fn response_step(
    requested: Set<u64>,
    sidecars: Seq<DataColumnSidecar>,
    event: ColumnEvent,
) -> Result<(Seq<DataColumnSidecar>, bool), ColumnRequestError> {
    match event {
        ColumnEvent::Sidecar(sidecar) => if !requested.contains(sidecar.index) {
            Err(ColumnRequestError::UnrequestedIndex(sidecar.index))
        } else if has_index(sidecars, sidecar.index) {
            Err(ColumnRequestError::DuplicateIndex(sidecar.index))
        } else {
            Ok((sidecars.push(sidecar), false))
        },
        ColumnEvent::OtherMessage => Err(ColumnRequestError::UnexpectedResponse),
        ColumnEvent::EndOfStream => Ok((sidecars, true)),
        ColumnEvent::Disconnected => Err(ColumnRequestError::Disconnected),
        ColumnEvent::Timeout => Err(ColumnRequestError::TimedOut),
        ColumnEvent::CallbackFailed(error) => Err(ColumnRequestError::CallbackFailed(error)),
        ColumnEvent::ChannelClosed => Err(ColumnRequestError::ClosedEarly),
        ColumnEvent::NotSent(error) => Err(ColumnRequestError::RequestChannelClosed(error)),
    }
}

/// Starts a request for columns of one block: gives the identifier to send and
/// the empty response. At most 128 columns can be asked for at once.
pub fn request_columns_by_root(block_root: B256, columns: &Vec<u64>) -> (request: Result<
    (DataColumnsByRootIdentifier, ColumnResponse),
    ColumnRequestError,
>)
    ensures
        match request {
            Ok((identifier, response)) => columns@.len() <= MAX_COLUMNS && identifier.block_root
                == block_root && column_list(identifier.columns) == columns@ && response.wf()
                && response.requested() == columns@.to_set() && response.sidecars() == Seq::<
                DataColumnSidecar,
            >::empty(),
            Err(error) => columns@.len() > MAX_COLUMNS && error
                == ColumnRequestError::TooManyColumns,
        },
{
    let mut copy: Vec<u64> = Vec::new();
    let mut requested_indices: HashSet<u64> = HashSet::new();
    let mut index: usize = 0;
    while index < columns.len()
        invariant
            index <= columns@.len(),
            copy@ == columns@.take(index as int),
            requested_indices@ == columns@.take(index as int).to_set(),
        decreases columns@.len() - index,
    {
        let column = columns[index];
        proof {
            let seen = columns@.take(index as int);
            assert(columns@.take(index + 1) =~= seen.push(column));
            seen.lemma_push_to_set_commute(column);
        }
        copy.push(column);
        requested_indices.insert(column);
        index = index + 1;
    }
    assert(columns@.take(index as int) =~= columns@);
    match DataColumnsByRootIdentifier::new(block_root, copy) {
        Ok(identifier) => {
            let response = ColumnResponse {
                requested_indices,
                received_indices: HashSet::new(),
                sidecars: Vec::new(),
            };
            Ok((identifier, response))
        },
        Err(_) => Err(ColumnRequestError::TooManyColumns),
    }
}

impl ColumnResponse {
    /// The columns that were asked for.
    pub closed spec fn requested(&self) -> Set<u64> {
        self.requested_indices@
    }

    /// The columns that have arrived.
    pub closed spec fn sidecars(&self) -> Seq<DataColumnSidecar> {
        self.sidecars@
    }

    /// Every column that has arrived was asked for, and none has arrived twice.
    pub closed spec fn wf(&self) -> bool {
        &&& forall|index: u64| #[trigger]
            self.received_indices@.contains(index) <==> has_index(self.sidecars@, index)
        &&& forall|i: int|
            0 <= i < self.sidecars@.len() ==> self.requested_indices@.contains(
                (#[trigger] self.sidecars@[i]).index,
            )
        &&& forall|i: int, j: int|
            0 <= i < j < self.sidecars@.len() ==> (#[trigger] self.sidecars@[i]).index != (
            #[trigger] self.sidecars@[j]).index
    }

    /// Takes in one event. Returns whether the response is complete.
    pub fn accept(&mut self, event: ColumnEvent) -> (complete: Result<bool, ColumnRequestError>)
        requires
            old(self).wf(),
        ensures
            final(self).wf(),
            final(self).requested() == old(self).requested(),
            match response_step(old(self).requested(), old(self).sidecars(), event) {
                Ok((sidecars, end)) => complete == Ok::<bool, ColumnRequestError>(end)
                    && final(self).sidecars() == sidecars,
                Err(error) => complete == Err::<bool, ColumnRequestError>(error)
                    && final(self).sidecars() == old(self).sidecars(),
            },
    {
        match event {
            ColumnEvent::Sidecar(sidecar) => {
                let index = sidecar.index;
                if !self.requested_indices.contains(&index) {
                    return Err(ColumnRequestError::UnrequestedIndex(index));
                }
                if self.received_indices.contains(&index) {
                    return Err(ColumnRequestError::DuplicateIndex(index));
                }
                let ghost before = self.sidecars@;
                self.received_indices.insert(index);
                self.sidecars.push(sidecar);
                proof {
                    assert(self.sidecars@.last().index == index);
                    assert forall|other: u64| #[trigger]
                        self.received_indices@.contains(other) <==> has_index(
                            self.sidecars@,
                            other,
                        ) by {
                        if has_index(before, other) {
                            let i = choose|i: int|
                                0 <= i < before.len() && (#[trigger] before[i]).index == other;
                            assert(self.sidecars@[i].index == other);
                        }
                        if has_index(self.sidecars@, other) && other != index {
                            let i = choose|i: int|
                                0 <= i < self.sidecars@.len() && (
                                #[trigger] self.sidecars@[i]).index == other;
                            assert(before[i].index == other);
                        }
                    }
                    assert forall|i: int, j: int| 0 <= i < j < self.sidecars@.len() implies (
                    #[trigger] self.sidecars@[i]).index != (
                    #[trigger] self.sidecars@[j]).index by {
                        assert(before[i] == self.sidecars@[i]);
                        if j == before.len() {
                            assert(before[i].index != index);
                        } else {
                            assert(before[j] == self.sidecars@[j]);
                        }
                    }
                    assert forall|i: int| 0 <= i < self.sidecars@.len() implies
                        self.requested_indices@.contains((#[trigger] self.sidecars@[i]).index) by {
                        if i < before.len() {
                            assert(before[i] == self.sidecars@[i]);
                        }
                    }
                }
                Ok(false)
            },
            ColumnEvent::OtherMessage => Err(ColumnRequestError::UnexpectedResponse),
            ColumnEvent::EndOfStream => Ok(true),
            ColumnEvent::Disconnected => Err(ColumnRequestError::Disconnected),
            ColumnEvent::Timeout => Err(ColumnRequestError::TimedOut),
            ColumnEvent::CallbackFailed(error) => Err(ColumnRequestError::CallbackFailed(error)),
            ColumnEvent::ChannelClosed => Err(ColumnRequestError::ClosedEarly),
            ColumnEvent::NotSent(error) => Err(ColumnRequestError::RequestChannelClosed(error)),
        }
    }

    /// The columns that have arrived, in order.
    pub fn into_sidecars(self) -> (sidecars: Vec<DataColumnSidecar>)
        ensures
            sidecars@ == self.sidecars(),
    {
        self.sidecars
    }

    /// Whatever a peer sends, the columns that are taken in were asked for, and
    /// no index stands among them twice.
    pub proof fn columns_are_requested_and_distinct(&self)
        requires
            self.wf(),
        ensures
            forall|i: int|
                0 <= i < self.sidecars().len() ==> self.requested().contains(
                    (#[trigger] self.sidecars()[i]).index,
                ),
            forall|i: int, j: int|
                0 <= i < j < self.sidecars().len() ==> (#[trigger] self.sidecars()[i]).index != (
                #[trigger] self.sidecars()[j]).index,
    {
    }
}

/// The directives of a fetch while `missing` is what each look at the block
/// finds: peers are asked one after the other.
pub open spec fn directives(peers: Seq<PeerId>, tried: int, missing: Seq<Option<Seq<u64>>>) -> Seq<
    FetchDirective,
>
    decreases missing.len(),
{
    if missing.len() == 0 {
        Seq::empty()
    } else {
        let next = directive(peers, tried, missing[0]);
        if next is Request {
            seq![next] + directives(peers, tried + 1, missing.skip(1))
        } else {
            seq![next]
        }
    }
}

/// Peers are asked in the order supplied, each once, and the fetch ends with
/// success as soon as the block needs no more columns.
pub proof fn peers_are_asked_in_order(
    peers: Seq<PeerId>,
    tried: int,
    missing: Seq<Option<Seq<u64>>>,
)
    requires
        0 <= tried <= peers.len(),
    ensures
        ({
            let steps = directives(peers, tried, missing);
            &&& steps.len() <= missing.len()
            &&& steps.len() <= peers.len() - tried + 1
            &&& forall|i: int|
                0 <= i < steps.len() ==> match #[trigger] steps[i] {
                    FetchDirective::Request(peer) => tried + i < peers.len() && peer == peers[tried
                        + i] && !satisfied(missing[i]),
                    FetchDirective::Finished(success) => i == steps.len() - 1 && success
                        == satisfied(missing[i]) && (!success ==> tried + i == peers.len()),
                }
        }),
    decreases missing.len(),
{
    if missing.len() > 0 && !satisfied(missing[0]) && tried < peers.len() {
        peers_are_asked_in_order(peers, tried + 1, missing.skip(1));
        let rest = directives(peers, tried + 1, missing.skip(1));
        let steps = directives(peers, tried, missing);
        assert forall|i: int| 0 <= i < steps.len() implies match #[trigger] steps[i] {
            FetchDirective::Request(peer) => tried + i < peers.len() && peer == peers[tried + i]
                && !satisfied(missing[i]),
            FetchDirective::Finished(success) => i == steps.len() - 1 && success == satisfied(
                missing[i],
            ) && (!success ==> tried + i == peers.len()),
        } by {
            if i > 0 {
                assert(steps[i] == rest[i - 1]);
                assert(missing.skip(1)[i - 1] == missing[i]);
            }
        }
    }
}

/// A fetch ends with success exactly if the block is no longer pending or no column
/// is missing. While one is missing, the next peer that is left is asked, and the
/// fetch fails exactly if none is left.
pub proof fn missing_columns_are_asked_for_while_a_peer_is_left(
    peers: Seq<PeerId>,
    tried: int,
    missing: Option<Seq<u64>>,
)
    requires
        0 <= tried <= peers.len(),
    ensures
        directive(peers, tried, missing) == FetchDirective::Finished(true) <==> missing is None
            || missing == Some(Seq::<u64>::empty()),
        (exists|column: u64| missing is Some && #[trigger] (missing->0).contains(column)) ==> (
        directive(peers, tried, missing) == if tried < peers.len() {
            FetchDirective::Request(peers[tried])
        } else {
            FetchDirective::Finished(false)
        }),
        missing is Some && (missing->0).len() > 0 ==> (directive(peers, tried, missing) == if tried
            < peers.len() {
            FetchDirective::Request(peers[tried])
        } else {
            FetchDirective::Finished(false)
        }),
{
    if let Some(columns) = missing {
        if columns.len() == 0 {
            assert(columns =~= Seq::<u64>::empty());
        }
    }
}

/// A sidecar carries the expected header exactly if its header has the expected root
/// and equals the expected one with its signature.
pub proof fn expected_header_has_root_fields_and_signature(
    sidecar: DataColumnSidecar,
    expected_root: B256,
    expected_header: SignedBeaconBlockHeader,
)
    ensures
        header_expected(sidecar, expected_root, expected_header) <==> {
            &&& header_root(sidecar.signed_block_header.message) == expected_root.0@
            &&& sidecar.signed_block_header.message == expected_header.message
            &&& sidecar.signed_block_header.signature == expected_header.signature
        },
{
}

/// A column is taken in, behind those before it, exactly if it was asked for and
/// none with its index has arrived. A response is complete exactly when the peer
/// says so, and everything else that can come ends it with its own error.
pub proof fn response_takes_each_requested_column_once(
    requested: Set<u64>,
    sidecars: Seq<DataColumnSidecar>,
    event: ColumnEvent,
)
    ensures
        ({
            let outcome = response_step(requested, sidecars, event);
            let failed = |error: ColumnRequestError|
                outcome == Err::<(Seq<DataColumnSidecar>, bool), ColumnRequestError>(error);
            match event {
                ColumnEvent::Sidecar(sidecar) => {
                    let arrived = exists|i: int|
                        0 <= i < sidecars.len() && (#[trigger] sidecars[i]).index == sidecar.index;
                    &&& outcome is Ok <==> requested.contains(sidecar.index) && !arrived
                    &&& outcome matches Ok((after, end)) ==> after == sidecars.push(sidecar) && !end
                    &&& !requested.contains(sidecar.index) ==> failed(
                        ColumnRequestError::UnrequestedIndex(sidecar.index),
                    )
                    &&& requested.contains(sidecar.index) && arrived ==> failed(
                        ColumnRequestError::DuplicateIndex(sidecar.index),
                    )
                },
                ColumnEvent::EndOfStream => outcome == Ok::<
                    (Seq<DataColumnSidecar>, bool),
                    ColumnRequestError,
                >((sidecars, true)),
                ColumnEvent::OtherMessage => failed(ColumnRequestError::UnexpectedResponse),
                ColumnEvent::Disconnected => failed(ColumnRequestError::Disconnected),
                ColumnEvent::Timeout => failed(ColumnRequestError::TimedOut),
                ColumnEvent::CallbackFailed(error) => failed(
                    ColumnRequestError::CallbackFailed(error),
                ),
                ColumnEvent::ChannelClosed => failed(ColumnRequestError::ClosedEarly),
                ColumnEvent::NotSent(error) => failed(
                    ColumnRequestError::RequestChannelClosed(error),
                ),
            }
        }),
{
}

/// An error names the column or the cause that it is about.
pub proof fn request_errors_name_their_cause(index: u64, error: String)
    ensures
        ColumnRequestError::UnrequestedIndex(index).spec_message()
            == "peer returned unrequested data column index "@ + decimal(index as nat),
        ColumnRequestError::DuplicateIndex(index).spec_message()
            == "peer returned data column index "@ + decimal(index as nat) + " more than once"@,
        ColumnRequestError::CallbackFailed(error).spec_message() == "callback failed: "@ + error@,
        ColumnRequestError::RequestChannelClosed(error).spec_message()
            == "data column request channel closed: "@ + error@,
{
}

} // verus!
