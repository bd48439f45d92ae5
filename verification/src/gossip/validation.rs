//! The rules by which a gossiped data column sidecar is accepted, ignored or
//! rejected.
//!
//! Most rules need something that only a database, a clock or a cryptographic
//! library knows. The caller supplies these facts one by one:
//! [`validate_data_column_sidecar_full`] either gives the verdict or names the
//! one fact it needs next.
use vstd::prelude::*;

use crate::beacon::{BeaconBlockHeader, Checkpoint, DataColumnSidecar};
use crate::bytes::{display_root, root_text, B256};
use crate::network::{compute_start_slot_at_epoch, start_slot_fits, NetworkSpec, GENESIS_SLOT};
use crate::network::{compute_epoch_at_slot, SLOTS_PER_EPOCH};
use crate::text::{append_decimal, decimal};

verus! {

/// What gossip does with a message.
#[derive(Debug, Clone, PartialEq, Eq)]
pub enum ValidationResult {
    /// Forward the message.
    Accept,
    /// Do not forward the message.
    Ignore(String),
    /// Do not forward the message, and hold it against its sender.
    Reject(String),
}

/// What the head state says that the rules read.
#[derive(Debug, Clone, Copy, PartialEq, Eq, Structural)]
pub struct HeadState {
    /// When the chain started, in seconds since the Unix epoch.
    pub genesis_time: u64,
    /// How many validators are registered.
    pub validator_count: u64,
}

/// What is known so far about a sidecar. `None` stands for a fact that has not
/// been looked up. An `Err` holds the text of the error that the lookup gave.
#[derive(Debug)]
pub struct SidecarFacts {
    /// Whether a sidecar with the same key was accepted before.
    pub seen: Option<bool>,
    /// Whether the sidecar passes its basic verification.
    pub verified: Option<bool>,
    /// The subnet that the sidecar's column belongs to.
    pub subnet: Option<u64>,
    /// The root of the head block.
    pub head_root: Option<Result<B256, String>>,
    /// The state of the head block, if it is stored.
    pub head_state: Option<Result<Option<HeadState>, String>>,
    /// The finalized checkpoint.
    pub finalized_checkpoint: Option<Result<Checkpoint, String>>,
    /// Whether the proposer's signature on the header is valid.
    pub signature_valid: Option<Result<bool, String>>,
    /// The slot of the parent block, if it is stored.
    pub parent_slot: Option<Result<Option<u64>, String>>,
    /// Whether the state of the parent block is stored.
    pub parent_state: Option<Result<bool, String>>,
    /// The ancestor of the parent block at the finalized epoch.
    pub checkpoint_block: Option<Result<B256, String>>,
    /// Whether the inclusion proof of the commitments is valid.
    pub inclusion_proof_valid: Option<bool>,
    /// Whether the KZG proofs are valid.
    pub kzg_proofs_valid: Option<Result<bool, String>>,
    /// Whether the parent state could be advanced to the sidecar's slot.
    pub parent_advanced: Option<Result<(), String>>,
    /// The proposer that the advanced parent state expects.
    pub expected_proposer: Option<Result<u64, String>>,
    /// Whether the sidecar's key was absent from the cache and has been put in.
    pub inserted: Option<bool>,
}

/// A fact that the rules need.
#[derive(Debug, Clone, Copy, PartialEq, Eq)]
pub enum SidecarQuestion {
    Seen,
    Verified,
    Subnet,
    HeadRoot,
    HeadState { head_root: B256 },
    FinalizedCheckpoint,
    /// The signature is checked for the domain of `epoch`.
    SignatureValid { epoch: u64 },
    ParentSlot { parent_root: B256 },
    ParentState { parent_root: B256 },
    CheckpointBlock { parent_root: B256, epoch: u64 },
    InclusionProofValid,
    KzgProofsValid,
    ParentAdvanced { slot: u64 },
    ExpectedProposer,
    Inserted,
}

/// The outcome of applying the rules to the facts known so far.
#[derive(Debug)]
pub enum SidecarDecision {
    /// One more fact is needed.
    Ask(SidecarQuestion),
    /// The rules have decided.
    Done(ValidationResult),
    /// A lookup failed.
    Failed(String),
}

/// The outcome of one rule. Texts stand for their characters.
pub enum Step {
    /// The rule holds; the next one decides.
    Pass,
    Ask(SidecarQuestion),
    Accept,
    Ignore(Seq<char>),
    Reject(Seq<char>),
    Fail(Seq<char>),
}

impl View for SidecarDecision {
    type V = Step;

    open spec fn view(&self) -> Step {
        match *self {
            SidecarDecision::Ask(question) => Step::Ask(question),
            SidecarDecision::Done(ValidationResult::Accept) => Step::Accept,
            SidecarDecision::Done(ValidationResult::Ignore(reason)) => Step::Ignore(reason@),
            SidecarDecision::Done(ValidationResult::Reject(reason)) => Step::Reject(reason@),
            SidecarDecision::Failed(reason) => Step::Fail(reason@),
        }
    }
}

impl Step {
    /// The outcome of this rule, or of the next one if this rule holds.
    pub open spec fn or_else(self, next: Step) -> Step {
        if self is Pass {
            next
        } else {
            self
        }
    }
}

/// The key by which sidecars are recognised as duplicates.
pub open spec fn spec_seen_key(sidecar: DataColumnSidecar) -> (u64, u64, u64) {
    (
        sidecar.signed_block_header.message.slot,
        sidecar.signed_block_header.message.proposer_index,
        sidecar.index,
    )
}

/// The key by which sidecars are recognised as duplicates: slot, proposer and
/// column.
pub fn seen_key(sidecar: &DataColumnSidecar) -> (key: (u64, u64, u64))
    ensures
        key == spec_seen_key(*sidecar),
        key.0 == sidecar.signed_block_header.message.slot,
        key.1 == sidecar.signed_block_header.message.proposer_index,
        key.2 == sidecar.index,
{
    (
        sidecar.signed_block_header.message.slot,
        sidecar.signed_block_header.message.proposer_index,
        sidecar.index,
    )
}

/// `value`, or `u64::MAX` if it does not fit.
pub open spec fn saturated(value: int) -> int {
    if value > u64::MAX {
        u64::MAX as int
    } else {
        value
    }
}

/// When a slot starts, in milliseconds since the Unix epoch.
pub open spec fn slot_time_ms(genesis_time: u64, slot: u64, slot_duration_ms: u64) -> int {
    saturated(
        saturated(genesis_time * 1000) + saturated((slot - GENESIS_SLOT) * slot_duration_ms),
    )
}

/// Whether a slot has started by a clock that may run early by the tolerated
/// disparity.
pub open spec fn slot_has_started(
    network: NetworkSpec,
    genesis_time: u64,
    slot: u64,
    current_time_ms: u64,
) -> bool {
    saturated(current_time_ms + network.maximum_gossip_clock_disparity) >= slot_time_ms(
        genesis_time,
        slot,
        network.slot_duration_ms,
    )
}

/// The product, or `u64::MAX` if it does not fit.
fn saturating_product(left: u64, right: u64) -> (product: u64)
    ensures
        product == saturated(left * right),
{
    match left.checked_mul(right) {
        Some(product) => product,
        None => u64::MAX,
    }
}

/// Whether a slot has started by a clock that may run early by the tolerated
/// disparity.
pub fn is_not_from_future_slot(
    network: &NetworkSpec,
    genesis_time: u64,
    slot: u64,
    current_time_ms: u64,
) -> (started: bool)
    ensures
        started == slot_has_started(*network, genesis_time, slot, current_time_ms),
{
    let slots_since_genesis = slot.saturating_sub(GENESIS_SLOT);
    let slot_time_ms = saturating_product(genesis_time, 1000).saturating_add(
        saturating_product(slots_since_genesis, network.slot_duration_ms),
    );
    current_time_ms.saturating_add(network.maximum_gossip_clock_disparity) >= slot_time_ms
}

/// A rule on a yes-or-no fact.
pub open spec fn flag_rule(
    fact: Option<bool>,
    expected: bool,
    question: SidecarQuestion,
    otherwise: Step,
) -> Step {
    match fact {
        None => Step::Ask(question),
        Some(value) => if value == expected {
            Step::Pass
        } else {
            otherwise
        },
    }
}

/// A rule on a check that may fail. A check that fails counts against the sidecar
/// like one that finds it invalid.
pub open spec fn check_rule(
    fact: Option<Result<bool, String>>,
    question: SidecarQuestion,
    otherwise: Step,
) -> Step {
    match fact {
        None => Step::Ask(question),
        Some(Ok(true)) => Step::Pass,
        Some(_) => otherwise,
    }
}

/// The column belongs to the subnet on which the sidecar arrived.
pub open spec fn subnet_rule(facts: SidecarFacts, subnet_id: u64) -> Step {
    match facts.subnet {
        None => Step::Ask(SidecarQuestion::Subnet),
        Some(subnet) => if subnet == subnet_id {
            Step::Pass
        } else {
            Step::Reject("Column sidecar not for correct subnet"@)
        },
    }
}

/// The head block and its state are known.
pub open spec fn head_rule(facts: SidecarFacts) -> Step {
    match facts.head_root {
        None => Step::Ask(SidecarQuestion::HeadRoot),
        Some(Err(error)) => Step::Fail(error@),
        Some(Ok(head_root)) => match facts.head_state {
            None => Step::Ask(SidecarQuestion::HeadState { head_root }),
            Some(Err(error)) => Step::Fail(error@),
            Some(Ok(None)) => Step::Fail(
                "No beacon state found for head root: "@ + root_text(head_root),
            ),
            Some(Ok(Some(_))) => Step::Pass,
        },
    }
}

/// The sidecar's slot has started.
pub open spec fn future_rule(
    header: BeaconBlockHeader,
    state: HeadState,
    network: NetworkSpec,
    current_time_ms: u64,
) -> Step {
    if slot_has_started(network, state.genesis_time, header.slot, current_time_ms) {
        Step::Pass
    } else {
        Step::Ignore("The sidecar is from a future slot"@)
    }
}

/// The sidecar's slot is later than the finalized slot.
pub open spec fn finalized_rule(header: BeaconBlockHeader, facts: SidecarFacts) -> Step {
    match facts.finalized_checkpoint {
        None => Step::Ask(SidecarQuestion::FinalizedCheckpoint),
        Some(Err(error)) => Step::Fail(error@),
        Some(Ok(checkpoint)) => if header.slot > checkpoint.epoch * SLOTS_PER_EPOCH {
            Step::Pass
        } else {
            Step::Ignore(
                "The sidecar is from a slot less than or equal to the latest finalized slot"@,
            )
        },
    }
}

/// The proposer is registered.
pub open spec fn proposer_range_rule(header: BeaconBlockHeader, state: HeadState) -> Step {
    if header.proposer_index < state.validator_count {
        Step::Pass
    } else {
        Step::Reject("Sidecar proposer index out of range"@)
    }
}

/// The parent block is stored, has its state, and is older than the sidecar.
pub open spec fn parent_rule(header: BeaconBlockHeader, facts: SidecarFacts) -> Step {
    let parent_root = header.parent_root;
    match facts.parent_slot {
        None => Step::Ask(SidecarQuestion::ParentSlot { parent_root }),
        Some(Err(error)) => Step::Fail(error@),
        Some(Ok(None)) => Step::Ignore("Parent block not seen"@),
        Some(Ok(Some(parent_slot))) => match facts.parent_state {
            None => Step::Ask(SidecarQuestion::ParentState { parent_root }),
            Some(Err(error)) => Step::Fail(error@),
            Some(Ok(false)) => Step::Reject("Sidecar's parent failed validation"@),
            Some(Ok(true)) => if header.slot > parent_slot {
                Step::Pass
            } else {
                Step::Reject("Sidecar slot not higher than parent block's slot"@)
            },
        },
    }
}

/// The finalized checkpoint is an ancestor of the sidecar's block.
pub open spec fn ancestor_rule(
    header: BeaconBlockHeader,
    facts: SidecarFacts,
    finalized: Checkpoint,
) -> Step {
    match facts.checkpoint_block {
        None => Step::Ask(
            SidecarQuestion::CheckpointBlock {
                parent_root: header.parent_root,
                epoch: finalized.epoch,
            },
        ),
        Some(Err(error)) => Step::Fail(error@),
        Some(Ok(root)) => if root == finalized.root {
            Step::Pass
        } else {
            Step::Reject("Finalized checkpoint is not an ancestor of the sidecar's block"@)
        },
    }
}

/// The parent state can be advanced and expects this proposer.
pub open spec fn expected_proposer_rule(header: BeaconBlockHeader, facts: SidecarFacts) -> Step {
    match facts.parent_advanced {
        None => Step::Ask(SidecarQuestion::ParentAdvanced { slot: header.slot }),
        Some(Err(error)) => Step::Ignore(
            "Could not advance parent state to sidecar slot: "@ + error@,
        ),
        Some(Ok(_)) => match facts.expected_proposer {
            None => Step::Ask(SidecarQuestion::ExpectedProposer),
            Some(Err(error)) => Step::Ignore("Could not get proposer index: "@ + error@),
            Some(Ok(expected)) => if expected == header.proposer_index {
                Step::Pass
            } else {
                Step::Reject(wrong_proposer(header, expected))
            },
        },
    }
}

/// The text that names the expected and the actual proposer.
pub open spec fn wrong_proposer(header: BeaconBlockHeader, expected: u64) -> Seq<char> {
    "Wrong proposer index: slot "@ + decimal(header.slot as nat) + ": expected "@ + decimal(
        expected as nat,
    ) + ", got "@ + decimal(header.proposer_index as nat)
}

/// The rules on the sidecar alone, in order.
pub open spec fn own_rules(facts: SidecarFacts, subnet_id: u64) -> Step {
    flag_rule(
        facts.seen,
        false,
        SidecarQuestion::Seen,
        Step::Ignore("Already seen sidecar from this proposer for this slot and index"@),
    ).or_else(
        flag_rule(
            facts.verified,
            true,
            SidecarQuestion::Verified,
            Step::Reject("Data column sidecar failed basic verification"@),
        ),
    ).or_else(subnet_rule(facts, subnet_id)).or_else(head_rule(facts))
}

/// The rules that place the sidecar on the chain, in order.
pub open spec fn chain_rules(
    header: BeaconBlockHeader,
    facts: SidecarFacts,
    state: HeadState,
    finalized: Checkpoint,
) -> Step {
    proposer_range_rule(header, state).or_else(
        check_rule(
            facts.signature_valid,
            SidecarQuestion::SignatureValid { epoch: header.slot / SLOTS_PER_EPOCH },
            Step::Reject("Invalid proposer signature on data column sidecar's block header"@),
        ),
    ).or_else(parent_rule(header, facts)).or_else(ancestor_rule(header, facts, finalized))
}

/// The rules on the proofs and the proposer, in order, and the final entry in
/// the cache.
pub open spec fn proof_rules(header: BeaconBlockHeader, facts: SidecarFacts) -> Step {
    flag_rule(
        facts.inclusion_proof_valid,
        true,
        SidecarQuestion::InclusionProofValid,
        Step::Reject("Invalid data column sidecar inclusion proof"@),
    ).or_else(
        check_rule(
            facts.kzg_proofs_valid,
            SidecarQuestion::KzgProofsValid,
            Step::Reject("Invalid KZG proofs for data column sidecar"@),
        ),
    ).or_else(expected_proposer_rule(header, facts)).or_else(
        flag_rule(
            facts.inserted,
            true,
            SidecarQuestion::Inserted,
            Step::Ignore("Duplicate data column sidecar for (slot, proposer_index, index)"@),
        ),
    )
}

/// The first rule that does not hold decides. If all hold, the sidecar is
/// accepted.
pub open spec fn decision(
    header: BeaconBlockHeader,
    facts: SidecarFacts,
    network: NetworkSpec,
    current_time_ms: u64,
    subnet_id: u64,
) -> Step {
    let state = facts.head_state->0->Ok_0->0;
    let finalized = facts.finalized_checkpoint->0->Ok_0;
    own_rules(facts, subnet_id).or_else(
        future_rule(header, state, network, current_time_ms),
    ).or_else(finalized_rule(header, facts)).or_else(
        chain_rules(header, facts, state, finalized),
    ).or_else(proof_rules(header, facts)).or_else(Step::Accept)
}

/// Whether a decision, or none, is the outcome of the rules.
spec fn decides(found: Option<SidecarDecision>, step: Step) -> bool {
    match found {
        None => step is Pass,
        Some(decision) => decision@ == step && !(step is Pass),
    }
}

fn ignore(reason: &str) -> (decision: Option<SidecarDecision>)
    ensures
        decides(decision, Step::Ignore(reason@)),
{
    Some(SidecarDecision::Done(ValidationResult::Ignore(reason.to_owned())))
}

fn reject(reason: &str) -> (decision: Option<SidecarDecision>)
    ensures
        decides(decision, Step::Reject(reason@)),
{
    Some(SidecarDecision::Done(ValidationResult::Reject(reason.to_owned())))
}

fn fail(reason: &str) -> (decision: Option<SidecarDecision>)
    ensures
        decides(decision, Step::Fail(reason@)),
{
    Some(SidecarDecision::Failed(reason.to_owned()))
}

fn ask(question: SidecarQuestion) -> (decision: Option<SidecarDecision>)
    ensures
        decides(decision, Step::Ask(question)),
{
    Some(SidecarDecision::Ask(question))
}

/// Applies the rules on the sidecar alone.
fn check_own_rules(facts: &SidecarFacts, subnet_id: u64) -> (found: Option<SidecarDecision>)
    ensures
        decides(found, own_rules(*facts, subnet_id)),
{
    match facts.seen {
        None => {
            return ask(SidecarQuestion::Seen);
        },
        Some(seen) => if seen {
            return ignore("Already seen sidecar from this proposer for this slot and index");
        },
    }
    match facts.verified {
        None => {
            return ask(SidecarQuestion::Verified);
        },
        Some(verified) => if !verified {
            return reject("Data column sidecar failed basic verification");
        },
    }
    match facts.subnet {
        None => {
            return ask(SidecarQuestion::Subnet);
        },
        Some(subnet) => if subnet != subnet_id {
            return reject("Column sidecar not for correct subnet");
        },
    }
    let head_root = match &facts.head_root {
        None => {
            return ask(SidecarQuestion::HeadRoot);
        },
        Some(Err(error)) => {
            return fail(error.as_str());
        },
        Some(Ok(head_root)) => *head_root,
    };
    match &facts.head_state {
        None => ask(SidecarQuestion::HeadState { head_root }),
        Some(Err(error)) => fail(error.as_str()),
        Some(Ok(None)) => {
            let mut reason = "No beacon state found for head root: ".to_owned();
            reason.append(display_root(&head_root).as_str());
            fail(reason.as_str())
        },
        Some(Ok(Some(_))) => None,
    }
}

/// Applies the rules that place the sidecar on the chain.
fn check_chain_rules(
    header: &BeaconBlockHeader,
    facts: &SidecarFacts,
    state: &HeadState,
    finalized: &Checkpoint,
) -> (found: Option<SidecarDecision>)
    ensures
        decides(found, chain_rules(*header, *facts, *state, *finalized)),
{
    let parent_root = header.parent_root;
    if header.proposer_index >= state.validator_count {
        return reject("Sidecar proposer index out of range");
    }
    match &facts.signature_valid {
        None => {
            return ask(
                SidecarQuestion::SignatureValid { epoch: compute_epoch_at_slot(header.slot) },
            );
        },
        Some(Ok(true)) => {},
        Some(_) => {
            return reject("Invalid proposer signature on data column sidecar's block header");
        },
    }
    let parent_slot = match &facts.parent_slot {
        None => {
            return ask(SidecarQuestion::ParentSlot { parent_root });
        },
        Some(Err(error)) => {
            return fail(error.as_str());
        },
        Some(Ok(None)) => {
            return ignore("Parent block not seen");
        },
        Some(Ok(Some(parent_slot))) => *parent_slot,
    };
    match &facts.parent_state {
        None => {
            return ask(SidecarQuestion::ParentState { parent_root });
        },
        Some(Err(error)) => {
            return fail(error.as_str());
        },
        Some(Ok(stored)) => if !*stored {
            return reject("Sidecar's parent failed validation");
        },
    }
    if header.slot <= parent_slot {
        return reject("Sidecar slot not higher than parent block's slot");
    }
    match &facts.checkpoint_block {
        None => ask(SidecarQuestion::CheckpointBlock { parent_root, epoch: finalized.epoch }),
        Some(Err(error)) => fail(error.as_str()),
        Some(Ok(root)) => if root.equals(&finalized.root) {
            None
        } else {
            reject("Finalized checkpoint is not an ancestor of the sidecar's block")
        },
    }
}

/// Applies the rules on the proofs and the proposer.
fn check_proof_rules(header: &BeaconBlockHeader, facts: &SidecarFacts) -> (found: Option<
    SidecarDecision,
>)
    ensures
        decides(found, proof_rules(*header, *facts)),
{
    match facts.inclusion_proof_valid {
        None => {
            return ask(SidecarQuestion::InclusionProofValid);
        },
        Some(valid) => if !valid {
            return reject("Invalid data column sidecar inclusion proof");
        },
    }
    match &facts.kzg_proofs_valid {
        None => {
            return ask(SidecarQuestion::KzgProofsValid);
        },
        Some(Ok(true)) => {},
        Some(_) => {
            return reject("Invalid KZG proofs for data column sidecar");
        },
    }
    match &facts.parent_advanced {
        None => {
            return ask(SidecarQuestion::ParentAdvanced { slot: header.slot });
        },
        Some(Err(error)) => {
            let mut reason = "Could not advance parent state to sidecar slot: ".to_owned();
            reason.append(error.as_str());
            return ignore(reason.as_str());
        },
        Some(Ok(_)) => {},
    }
    match &facts.expected_proposer {
        None => {
            return ask(SidecarQuestion::ExpectedProposer);
        },
        Some(Err(error)) => {
            let mut reason = "Could not get proposer index: ".to_owned();
            reason.append(error.as_str());
            return ignore(reason.as_str());
        },
        Some(Ok(expected)) => if *expected != header.proposer_index {
            let mut reason = "Wrong proposer index: slot ".to_owned();
            append_decimal(&mut reason, header.slot);
            reason.append(": expected ");
            append_decimal(&mut reason, *expected);
            reason.append(", got ");
            append_decimal(&mut reason, header.proposer_index);
            return reject(reason.as_str());
        },
    }
    match facts.inserted {
        None => ask(SidecarQuestion::Inserted),
        Some(inserted) => if inserted {
            None
        } else {
            ignore("Duplicate data column sidecar for (slot, proposer_index, index)")
        },
    }
}

/// Applies the rules to the facts known so far: gives the verdict, or names the
/// fact to look up next. The caller looks facts up in this order only, and puts
/// the sidecar's key in the cache when asked for [`SidecarQuestion::Inserted`].
pub fn validate_data_column_sidecar_full(
    data_column_sidecar: &DataColumnSidecar,
    facts: &SidecarFacts,
    network: &NetworkSpec,
    current_time_ms: u64,
    subnet_id: u64,
) -> (outcome: SidecarDecision)
    requires
        facts.finalized_checkpoint matches Some(Ok(checkpoint)) ==> start_slot_fits(
            checkpoint.epoch,
        ),
    ensures
        outcome@ == decision(
            data_column_sidecar.signed_block_header.message,
            *facts,
            *network,
            current_time_ms,
            subnet_id,
        ),
{
    let header = &data_column_sidecar.signed_block_header.message;
    if let Some(found) = check_own_rules(facts, subnet_id) {
        return found;
    }
    let state = match &facts.head_state {
        Some(Ok(Some(state))) => *state,
        _ => {
            assert(false);
            HeadState { genesis_time: 0, validator_count: 0 }
        },
    };
    if !is_not_from_future_slot(network, state.genesis_time, header.slot, current_time_ms) {
        return SidecarDecision::Done(
            ValidationResult::Ignore("The sidecar is from a future slot".to_owned()),
        );
    }
    let finalized = match &facts.finalized_checkpoint {
        None => {
            return SidecarDecision::Ask(SidecarQuestion::FinalizedCheckpoint);
        },
        Some(Err(error)) => {
            return SidecarDecision::Failed(error.clone());
        },
        Some(Ok(checkpoint)) => *checkpoint,
    };
    if header.slot <= compute_start_slot_at_epoch(finalized.epoch) {
        return SidecarDecision::Done(
            ValidationResult::Ignore(
                "The sidecar is from a slot less than or equal to the latest finalized slot".to_owned(),
            ),
        );
    }
    if let Some(found) = check_chain_rules(header, facts, &state, &finalized) {
        return found;
    }
    if let Some(found) = check_proof_rules(header, facts) {
        return found;
    }
    SidecarDecision::Done(ValidationResult::Accept)
}

/// A sidecar is accepted exactly if it was not seen before, passes its basic
/// verification, arrived on its own subnet, is neither from the future nor from
/// a finalized slot, is signed by a registered proposer, extends a stored and
/// valid older block that descends from the finalized checkpoint, proves its
/// commitments and cells, comes from the proposer that the chain expects, and
/// was entered in the cache.
pub proof fn acceptance_needs_every_rule(
    header: BeaconBlockHeader,
    facts: SidecarFacts,
    network: NetworkSpec,
    current_time_ms: u64,
    subnet_id: u64,
)
    ensures
        decision(header, facts, network, current_time_ms, subnet_id) is Accept <==> {
            &&& facts.seen == Some(false)
            &&& facts.verified == Some(true)
            &&& facts.subnet == Some(subnet_id)
            &&& facts.head_root matches Some(Ok(_))
            &&& facts.head_state matches Some(Ok(Some(state)))
            &&& slot_has_started(network, state.genesis_time, header.slot, current_time_ms)
            &&& facts.finalized_checkpoint matches Some(Ok(finalized))
            &&& header.slot > finalized.epoch * SLOTS_PER_EPOCH
            &&& header.proposer_index < state.validator_count
            &&& facts.signature_valid matches Some(Ok(true))
            &&& facts.parent_slot matches Some(Ok(Some(parent_slot)))
            &&& facts.parent_state matches Some(Ok(true))
            &&& header.slot > parent_slot
            &&& facts.checkpoint_block matches Some(Ok(ancestor))
            &&& ancestor == finalized.root
            &&& facts.inclusion_proof_valid == Some(true)
            &&& facts.kzg_proofs_valid matches Some(Ok(true))
            &&& facts.parent_advanced matches Some(Ok(_))
            &&& facts.expected_proposer matches Some(Ok(expected))
            &&& expected == header.proposer_index
            &&& facts.inserted == Some(true)
        },
{
}

/// A signature or proof check that fails counts like one that finds the sidecar
/// invalid: once its turn comes, the sidecar is rejected.
pub proof fn failed_check_counts_as_invalid(
    header: BeaconBlockHeader,
    facts: SidecarFacts,
    network: NetworkSpec,
    current_time_ms: u64,
    subnet_id: u64,
    error: String,
)
    ensures
        ({
            let decide = |facts: SidecarFacts|
                decision(header, facts, network, current_time_ms, subnet_id);
            let failed = Some(Err::<bool, String>(error));
            let invalid = Some(Ok::<bool, String>(false));
            &&& decide(SidecarFacts { signature_valid: failed, ..facts }) == decide(
                SidecarFacts { signature_valid: invalid, ..facts },
            )
            &&& decide(SidecarFacts { kzg_proofs_valid: failed, ..facts }) == decide(
                SidecarFacts { kzg_proofs_valid: invalid, ..facts },
            )
            &&& decide(SidecarFacts { signature_valid: None, ..facts }) == Step::Ask(
                SidecarQuestion::SignatureValid { epoch: header.slot / SLOTS_PER_EPOCH },
            ) ==> decide(SidecarFacts { signature_valid: failed, ..facts }) is Reject
            &&& decide(SidecarFacts { kzg_proofs_valid: None, ..facts }) == Step::Ask(
                SidecarQuestion::KzgProofsValid,
            ) ==> decide(SidecarFacts { kzg_proofs_valid: failed, ..facts }) is Reject
        }),
{
}

/// Whether `more` holds every fact of `facts`, and perhaps others.
pub open spec fn extends(facts: SidecarFacts, more: SidecarFacts) -> bool {
    &&& facts.seen is Some ==> more.seen == facts.seen
    &&& facts.verified is Some ==> more.verified == facts.verified
    &&& facts.subnet is Some ==> more.subnet == facts.subnet
    &&& facts.head_root is Some ==> more.head_root == facts.head_root
    &&& facts.head_state is Some ==> more.head_state == facts.head_state
    &&& facts.finalized_checkpoint is Some ==> more.finalized_checkpoint
        == facts.finalized_checkpoint
    &&& facts.signature_valid is Some ==> more.signature_valid == facts.signature_valid
    &&& facts.parent_slot is Some ==> more.parent_slot == facts.parent_slot
    &&& facts.parent_state is Some ==> more.parent_state == facts.parent_state
    &&& facts.checkpoint_block is Some ==> more.checkpoint_block == facts.checkpoint_block
    &&& facts.inclusion_proof_valid is Some ==> more.inclusion_proof_valid
        == facts.inclusion_proof_valid
    &&& facts.kzg_proofs_valid is Some ==> more.kzg_proofs_valid == facts.kzg_proofs_valid
    &&& facts.parent_advanced is Some ==> more.parent_advanced == facts.parent_advanced
    &&& facts.expected_proposer is Some ==> more.expected_proposer == facts.expected_proposer
    &&& facts.inserted is Some ==> more.inserted == facts.inserted
}

/// Once the rules have decided, further facts do not change the verdict.
pub proof fn verdict_is_stable(
    header: BeaconBlockHeader,
    facts: SidecarFacts,
    more: SidecarFacts,
    network: NetworkSpec,
    current_time_ms: u64,
    subnet_id: u64,
)
    requires
        extends(facts, more),
        !(decision(header, facts, network, current_time_ms, subnet_id) is Ask),
    ensures
        decision(header, more, network, current_time_ms, subnet_id) == decision(
            header,
            facts,
            network,
            current_time_ms,
            subnet_id,
        ),
{
}

/// Whether a fact has been looked up.
pub open spec fn answered(facts: SidecarFacts, question: SidecarQuestion) -> bool {
    match question {
        SidecarQuestion::Seen => facts.seen is Some,
        SidecarQuestion::Verified => facts.verified is Some,
        SidecarQuestion::Subnet => facts.subnet is Some,
        SidecarQuestion::HeadRoot => facts.head_root is Some,
        SidecarQuestion::HeadState { head_root } => facts.head_state is Some,
        SidecarQuestion::FinalizedCheckpoint => facts.finalized_checkpoint is Some,
        SidecarQuestion::SignatureValid { epoch } => facts.signature_valid is Some,
        SidecarQuestion::ParentSlot { parent_root } => facts.parent_slot is Some,
        SidecarQuestion::ParentState { parent_root } => facts.parent_state is Some,
        SidecarQuestion::CheckpointBlock { parent_root, epoch } => facts.checkpoint_block is Some,
        SidecarQuestion::InclusionProofValid => facts.inclusion_proof_valid is Some,
        SidecarQuestion::KzgProofsValid => facts.kzg_proofs_valid is Some,
        SidecarQuestion::ParentAdvanced { slot } => facts.parent_advanced is Some,
        SidecarQuestion::ExpectedProposer => facts.expected_proposer is Some,
        SidecarQuestion::Inserted => facts.inserted is Some,
    }
}

/// Only facts that are still unknown are asked for, so the caller looks each up
/// at most once; and the sidecar's key is put in the cache only after every
/// other rule holds.
pub proof fn only_open_facts_are_asked(
    header: BeaconBlockHeader,
    facts: SidecarFacts,
    network: NetworkSpec,
    current_time_ms: u64,
    subnet_id: u64,
)
    ensures
        decision(header, facts, network, current_time_ms, subnet_id) matches Step::Ask(question)
            ==> !answered(facts, question),
        decision(header, facts, network, current_time_ms, subnet_id) == Step::Ask(
            SidecarQuestion::Inserted,
        ) ==> decision(
            header,
            SidecarFacts { inserted: Some(true), ..facts },
            network,
            current_time_ms,
            subnet_id,
        ) is Accept,
{
}

/// A sidecar whose key was seen before is never accepted, nor is one whose key
/// another validation entered in the meantime.
pub proof fn duplicates_are_not_accepted(
    header: BeaconBlockHeader,
    facts: SidecarFacts,
    network: NetworkSpec,
    current_time_ms: u64,
    subnet_id: u64,
)
    requires
        facts.seen == Some(true) || facts.inserted == Some(false),
    ensures
        !(decision(header, facts, network, current_time_ms, subnet_id) is Accept),
        facts.seen == Some(true) ==> decision(
            header,
            facts,
            network,
            current_time_ms,
            subnet_id,
        ) is Ignore,
{
}

/// A slot has started exactly if the clock, with the tolerated disparity, has
/// reached its start, or has reached the end of the clock's range.
pub proof fn slot_starts_with_its_time(
    network: NetworkSpec,
    genesis_time: u64,
    slot: u64,
    current_time_ms: u64,
)
    ensures
        slot_has_started(network, genesis_time, slot, current_time_ms) <==> current_time_ms
            + network.maximum_gossip_clock_disparity >= genesis_time * 1000 + slot
            * network.slot_duration_ms || current_time_ms + network.maximum_gossip_clock_disparity
            >= u64::MAX,
{
    assert(slot * network.slot_duration_ms >= 0) by (nonlinear_arith);
    assert((slot - GENESIS_SLOT) * network.slot_duration_ms == slot * network.slot_duration_ms);
}

/// Whether the facts are known and speak for the sidecar, as far as the first
/// `count` conditions go: it was not seen, passes its basic verification, arrived
/// on its subnet; head root and head state are known; its slot has started and is
/// later than the finalized one; its proposer is registered and signed; its parent
/// is stored, has a state, is older and descends from the finalized checkpoint; its
/// proofs hold; the parent state advances and expects the proposer; its key was new.
pub open spec fn speaks_for(
    count: int,
    header: BeaconBlockHeader,
    facts: SidecarFacts,
    network: NetworkSpec,
    current_time_ms: u64,
    subnet_id: u64,
) -> bool {
    let now = current_time_ms + network.maximum_gossip_clock_disparity;
    let head = facts.head_state->0->Ok_0->0;
    let finalized = facts.finalized_checkpoint->0->Ok_0;
    &&& count > 0 ==> facts.seen == Some(false)
    &&& count > 1 ==> facts.verified == Some(true)
    &&& count > 2 ==> facts.subnet == Some(subnet_id)
    &&& count > 3 ==> (facts.head_root matches Some(Ok(_)))
    &&& count > 4 ==> (facts.head_state matches Some(Ok(Some(_))))
    &&& count > 5 ==> (now >= head.genesis_time * 1000 + header.slot * network.slot_duration_ms
        || now >= u64::MAX)
    &&& count > 6 ==> (facts.finalized_checkpoint matches Some(Ok(_))) && header.slot
        > finalized.epoch * SLOTS_PER_EPOCH
    &&& count > 7 ==> header.proposer_index < head.validator_count
    &&& count > 8 ==> (facts.signature_valid matches Some(Ok(true)))
    &&& count > 9 ==> (facts.parent_slot matches Some(Ok(Some(_))))
    &&& count > 10 ==> (facts.parent_state matches Some(Ok(true)))
    &&& count > 11 ==> header.slot > facts.parent_slot->0->Ok_0->0
    &&& count > 12 ==> (facts.checkpoint_block matches Some(Ok(root)) && root == finalized.root)
    &&& count > 13 ==> facts.inclusion_proof_valid == Some(true)
    &&& count > 14 ==> (facts.kzg_proofs_valid matches Some(Ok(true)))
    &&& count > 15 ==> (facts.parent_advanced matches Some(Ok(_)))
    &&& count > 16 ==> (facts.expected_proposer matches Some(Ok(expected)) && expected
        == header.proposer_index)
    &&& count > 17 ==> facts.inserted == Some(true)
}

/// Every question is asked for an unknown fact, with everything before it speaking
/// for the sidecar, and names what is to be looked up: the head root that was found,
/// the epoch of the sidecar's slot, the sidecar's parent, the ancestor of that
/// parent at the finalized epoch, the sidecar's slot.
pub proof fn questions_name_what_to_look_up(
    header: BeaconBlockHeader,
    facts: SidecarFacts,
    network: NetworkSpec,
    current_time_ms: u64,
    subnet_id: u64,
)
    ensures
        ({
            let good = |count: int|
                speaks_for(count, header, facts, network, current_time_ms, subnet_id);
            decision(header, facts, network, current_time_ms, subnet_id) matches Step::Ask(question)
                ==> match question {
                SidecarQuestion::Seen => facts.seen is None,
                SidecarQuestion::Verified => good(1) && facts.verified is None,
                SidecarQuestion::Subnet => good(2) && facts.subnet is None,
                SidecarQuestion::HeadRoot => good(3) && facts.head_root is None,
                SidecarQuestion::HeadState { head_root } => good(4) && facts.head_state is None
                    && facts.head_root == Some(Ok::<B256, String>(head_root)),
                SidecarQuestion::FinalizedCheckpoint => good(6)
                    && facts.finalized_checkpoint is None,
                SidecarQuestion::SignatureValid { epoch } => good(8)
                    && facts.signature_valid is None && epoch == header.slot / SLOTS_PER_EPOCH,
                SidecarQuestion::ParentSlot { parent_root } => good(9) && facts.parent_slot is None
                    && parent_root == header.parent_root,
                SidecarQuestion::ParentState { parent_root } => good(10)
                    && facts.parent_state is None && parent_root == header.parent_root,
                SidecarQuestion::CheckpointBlock { parent_root, epoch } => good(12)
                    && facts.checkpoint_block is None && parent_root == header.parent_root
                    && facts.finalized_checkpoint->0->Ok_0.epoch == epoch,
                SidecarQuestion::InclusionProofValid => good(13)
                    && facts.inclusion_proof_valid is None,
                SidecarQuestion::KzgProofsValid => good(14) && facts.kzg_proofs_valid is None,
                SidecarQuestion::ParentAdvanced { slot } => good(15)
                    && facts.parent_advanced is None && slot == header.slot,
                SidecarQuestion::ExpectedProposer => good(16) && facts.expected_proposer is None,
                SidecarQuestion::Inserted => good(17) && facts.inserted is None,
            }
        }),
{
    slot_starts_with_its_time(
        network,
        facts.head_state->0->Ok_0->0.genesis_time,
        header.slot,
        current_time_ms,
    );
}

/// A sidecar is ignored only for a known reason, which the verdict names, with
/// everything before it speaking for the sidecar.
pub proof fn ignoring_has_its_reason(
    header: BeaconBlockHeader,
    facts: SidecarFacts,
    network: NetworkSpec,
    current_time_ms: u64,
    subnet_id: u64,
)
    ensures
        ({
            let good = |count: int|
                speaks_for(count, header, facts, network, current_time_ms, subnet_id);
            decision(header, facts, network, current_time_ms, subnet_id) matches Step::Ignore(
                reason,
            ) ==> {
                ||| facts.seen == Some(true) && reason
                    == "Already seen sidecar from this proposer for this slot and index"@
                ||| good(5) && !good(6) && reason == "The sidecar is from a future slot"@
                ||| good(6) && (facts.finalized_checkpoint matches Some(Ok(finalized))
                    && header.slot <= finalized.epoch * SLOTS_PER_EPOCH) && reason
                    == "The sidecar is from a slot less than or equal to the latest finalized slot"@
                ||| good(9) && (facts.parent_slot matches Some(Ok(None))) && reason
                    == "Parent block not seen"@
                ||| good(15) && (facts.parent_advanced matches Some(Err(error)) && reason
                    == "Could not advance parent state to sidecar slot: "@ + error@)
                ||| good(16) && (facts.expected_proposer matches Some(Err(error)) && reason
                    == "Could not get proposer index: "@ + error@)
                ||| good(17) && facts.inserted == Some(false) && reason
                    == "Duplicate data column sidecar for (slot, proposer_index, index)"@
            }
        }),
{
    slot_starts_with_its_time(
        network,
        facts.head_state->0->Ok_0->0.genesis_time,
        header.slot,
        current_time_ms,
    );
}

/// A sidecar is rejected only for a known fault, which the verdict names, with
/// everything before it speaking for the sidecar.
pub proof fn rejecting_has_its_reason(
    header: BeaconBlockHeader,
    facts: SidecarFacts,
    network: NetworkSpec,
    current_time_ms: u64,
    subnet_id: u64,
)
    ensures
        ({
            let good = |count: int|
                speaks_for(count, header, facts, network, current_time_ms, subnet_id);
            let ancestor = facts.checkpoint_block;
            decision(header, facts, network, current_time_ms, subnet_id) matches Step::Reject(
                reason,
            ) ==> {
                ||| good(1) && facts.verified == Some(false) && reason
                    == "Data column sidecar failed basic verification"@
                ||| good(2) && (facts.subnet matches Some(subnet) && subnet != subnet_id) && reason
                    == "Column sidecar not for correct subnet"@
                ||| good(7) && !good(8) && reason == "Sidecar proposer index out of range"@
                ||| good(8) && facts.signature_valid is Some && !good(9) && reason
                    == "Invalid proposer signature on data column sidecar's block header"@
                ||| good(10) && (facts.parent_state matches Some(Ok(false))) && reason
                    == "Sidecar's parent failed validation"@
                ||| good(11) && !good(12) && reason
                    == "Sidecar slot not higher than parent block's slot"@
                ||| good(12) && (ancestor matches Some(Ok(_))) && !good(13) && reason
                    == "Finalized checkpoint is not an ancestor of the sidecar's block"@
                ||| good(13) && facts.inclusion_proof_valid == Some(false) && reason
                    == "Invalid data column sidecar inclusion proof"@
                ||| good(14) && facts.kzg_proofs_valid is Some && !good(15) && reason
                    == "Invalid KZG proofs for data column sidecar"@
                ||| good(16) && (facts.expected_proposer matches Some(Ok(expected)) && expected
                    != header.proposer_index && reason == "Wrong proposer index: slot "@ + decimal(
                    header.slot as nat,
                ) + ": expected "@ + decimal(expected as nat) + ", got "@ + decimal(
                    header.proposer_index as nat,
                ))
            }
        }),
{
    slot_starts_with_its_time(
        network,
        facts.head_state->0->Ok_0->0.genesis_time,
        header.slot,
        current_time_ms,
    );
}

/// A validation fails only by a lookup that failed, with its text, or by a head
/// block without a state.
pub proof fn failing_has_its_reason(
    header: BeaconBlockHeader,
    facts: SidecarFacts,
    network: NetworkSpec,
    current_time_ms: u64,
    subnet_id: u64,
)
    ensures
        ({
            let good = |count: int|
                speaks_for(count, header, facts, network, current_time_ms, subnet_id);
            decision(header, facts, network, current_time_ms, subnet_id) matches Step::Fail(reason)
                ==> {
                ||| good(3) && (facts.head_root matches Some(Err(error)) && reason == error@)
                ||| good(4) && (facts.head_state matches Some(Err(error)) && reason == error@)
                ||| good(4) && (facts.head_state matches Some(Ok(None))) && reason
                    == "No beacon state found for head root: "@ + root_text(
                    facts.head_root->0->Ok_0,
                )
                ||| good(6) && (facts.finalized_checkpoint matches Some(Err(error)) && reason
                    == error@)
                ||| good(9) && (facts.parent_slot matches Some(Err(error)) && reason == error@)
                ||| good(10) && (facts.parent_state matches Some(Err(error)) && reason == error@)
                ||| good(12) && (facts.checkpoint_block matches Some(Err(error)) && reason
                    == error@)
            }
        }),
{
    slot_starts_with_its_time(
        network,
        facts.head_state->0->Ok_0->0.genesis_time,
        header.slot,
        current_time_ms,
    );
}

/// Every set of facts leads to a question, a failure or a verdict, and to
/// acceptance exactly if all of them speak for the sidecar.
pub proof fn acceptance_is_unanimous(
    header: BeaconBlockHeader,
    facts: SidecarFacts,
    network: NetworkSpec,
    current_time_ms: u64,
    subnet_id: u64,
)
    ensures
        decision(header, facts, network, current_time_ms, subnet_id) !is Pass,
        decision(header, facts, network, current_time_ms, subnet_id) is Accept <==> speaks_for(
            18,
            header,
            facts,
            network,
            current_time_ms,
            subnet_id,
        ),
{
    slot_starts_with_its_time(
        network,
        facts.head_state->0->Ok_0->0.genesis_time,
        header.slot,
        current_time_ms,
    );
}

/// Two sidecars are duplicates exactly if slot, proposer and column are the same.
pub proof fn duplicates_share_slot_proposer_and_column(
    first: DataColumnSidecar,
    second: DataColumnSidecar,
)
    ensures
        spec_seen_key(first) == spec_seen_key(second) <==> {
            &&& first.signed_block_header.message.slot == second.signed_block_header.message.slot
            &&& first.signed_block_header.message.proposer_index
                == second.signed_block_header.message.proposer_index
            &&& first.index == second.index
        },
{
}

} // verus!
