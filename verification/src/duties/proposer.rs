//! Proposer duties: who proposes in each slot of an epoch.
use vstd::prelude::*;

use crate::bytes::{PublicKey, B256};
use crate::duties::api::{collected, every_value_is_collected, first_error_is_reported};
use crate::duties::api::lemma_collected_stops;
use crate::duties::api::{key_of, public_key_of, ApiError, DutiesResponse, Refusal};
use crate::network::{compute_epoch_at_slot, compute_start_slot_at_epoch, start_slot_fits};
use crate::network::{NetworkSpec, MIN_SEED_LOOKAHEAD, SLOTS_PER_EPOCH};
use crate::text::{append_decimal, decimal};

verus! {

/// One slot in which a validator proposes.
#[derive(Debug, Clone, Copy, PartialEq, Eq)]
pub struct ProposerDuty {
    pub public_key: PublicKey,
    pub validator_index: u64,
    pub slot: u64,
}

/// Which block root a client is told the shuffling depends on.
#[derive(Debug, Clone, Copy, PartialEq, Eq, Structural)]
pub enum DependentRoot {
    /// Always the end of the epoch before.
    Legacy,
    /// The slot that actually decides the shuffling.
    ForkAware,
}

/// The slot before `slot`, or slot zero.
pub open spec fn slot_before(slot: int) -> int {
    if slot > 0 {
        slot - 1
    } else {
        0
    }
}

/// The slot whose block root decides the proposer shuffling of `epoch`: the end
/// of the epoch before, and from the epoch after the Fulu fork on one lookahead
/// earlier.
pub open spec fn decision_slot(epoch: u64, fulu_fork_epoch: u64) -> int {
    let seed_epoch = if slot_before(epoch as int) >= fulu_fork_epoch {
        if epoch >= MIN_SEED_LOOKAHEAD {
            epoch - MIN_SEED_LOOKAHEAD
        } else {
            0
        }
    } else {
        epoch as int
    };
    slot_before(seed_epoch * SLOTS_PER_EPOCH)
}

/// The slot whose block root decides the proposer shuffling of `epoch`.
///
/// Fulu made the proposer shuffling deterministic a whole lookahead earlier, so
/// from then on the decision moves back to the end of the epoch before the
/// previous one. The fork epoch itself is still decided the old way, which is
/// why the fork is tested one epoch below the request.
pub fn proposer_shuffling_decision_slot(epoch: u64, network: &NetworkSpec) -> (slot: u64)
    requires
        start_slot_fits(epoch),
    ensures
        slot == decision_slot(epoch, network.fulu_fork_epoch),
        epoch == 0 ==> slot == 0,
        0 < epoch <= network.fulu_fork_epoch ==> slot == epoch * SLOTS_PER_EPOCH - 1,
        epoch > network.fulu_fork_epoch && epoch == 1 ==> slot == 0,
        epoch > network.fulu_fork_epoch && epoch >= 2 ==> slot == (epoch - 1) * SLOTS_PER_EPOCH - 1,
{
    if epoch.saturating_sub(1) >= network.fulu_fork_epoch {
        compute_start_slot_at_epoch(epoch.saturating_sub(MIN_SEED_LOOKAHEAD)).saturating_sub(1)
    } else {
        compute_start_slot_at_epoch(epoch).saturating_sub(1)
    }
}

/// The furthest epoch whose proposer shuffling is decided at a slot: the one after
/// the epoch of that slot.
pub open spec fn furthest_decided_epoch(slot: u64) -> int {
    slot / SLOTS_PER_EPOCH + 1
}

/// The furthest epoch that is answered for, by what was read as the current slot.
pub open spec fn furthest_epoch(slot: Result<u64, String>) -> Result<u64, Refusal> {
    match slot {
        Ok(slot) => Ok(furthest_decided_epoch(slot) as u64),
        Err(error) => Err(Refusal::InternalError("Failed to get current slot: "@ + error@)),
    }
}

/// The furthest epoch whose proposer shuffling is already decided, and so the
/// furthest one that is answered for: the epoch after that of the current slot,
/// which the caller read from the store.
pub fn current_epoch(slot: Result<u64, String>) -> (epoch: Result<u64, ApiError>)
    ensures
        match slot {
            Ok(slot) => epoch matches Ok(epoch) && epoch == slot / SLOTS_PER_EPOCH + 1,
            Err(text) => epoch matches Err(error) && error@ == Refusal::InternalError(
                "Failed to get current slot: "@ + text@,
            ),
        },
        match epoch {
            Ok(epoch) => furthest_epoch(slot) == Ok::<u64, Refusal>(epoch),
            Err(error) => furthest_epoch(slot) == Err::<u64, Refusal>(error@),
        },
{
    match slot {
        Ok(slot) => Ok(compute_epoch_at_slot(slot) + 1),
        Err(error) => {
            let mut text = "Failed to get current slot: ".to_owned();
            text.append(error.as_str());
            Err(ApiError::InternalError(text))
        },
    }
}

/// The slots that a request for proposer duties concerns.
#[derive(Debug, Clone, Copy, PartialEq, Eq, Structural)]
pub struct ProposerPlan {
    /// The slot whose block root is reported as the dependent root.
    pub decision_slot: u64,
    /// The first slot of the epoch.
    pub start_slot: u64,
    /// The slot after the last one of the epoch.
    pub end_slot: u64,
}

/// The slot whose block root a client is told.
pub open spec fn reported_slot(epoch: u64, kind: DependentRoot, network: NetworkSpec) -> int {
    match kind {
        DependentRoot::Legacy => slot_before(epoch * SLOTS_PER_EPOCH),
        DependentRoot::ForkAware => decision_slot(epoch, network.fulu_fork_epoch),
    }
}

/// The text that refuses an epoch too far ahead.
pub open spec fn too_far_ahead(epoch: u64, current_epoch: u64) -> Refusal {
    Refusal::BadRequest(
        "Request epoch "@ + decimal(epoch as nat)
            + " is more than one epoch past the current epoch "@ + decimal(current_epoch as nat),
    )
}

/// Whether the slots of an epoch that is not too far ahead fit in 64 bits.
pub open spec fn plan_fits(epoch: u64, furthest_epoch: u64) -> bool {
    epoch <= furthest_epoch ==> (epoch + 1) * SLOTS_PER_EPOCH <= u64::MAX
}

/// The plan of a request, or the refusal of an epoch too far ahead.
pub open spec fn planned(
    epoch: u64,
    furthest_epoch: u64,
    kind: DependentRoot,
    network: NetworkSpec,
) -> Result<ProposerPlan, Refusal> {
    if epoch <= furthest_epoch {
        Ok(
            ProposerPlan {
                decision_slot: reported_slot(epoch, kind, network) as u64,
                start_slot: (epoch * SLOTS_PER_EPOCH) as u64,
                end_slot: ((epoch + 1) * SLOTS_PER_EPOCH) as u64,
            },
        )
    } else {
        Err(too_far_ahead(epoch, (furthest_epoch - 1) as u64))
    }
}

/// Plans the answer to a request for proposer duties. An epoch past
/// `furthest_epoch`, the furthest one whose shuffling is decided, is refused before
/// it is turned into slots.
pub fn plan_proposer_duties(
    epoch: u64,
    furthest_epoch: u64,
    kind: DependentRoot,
    network: &NetworkSpec,
) -> (plan: Result<ProposerPlan, ApiError>)
    requires
        furthest_epoch >= 1,
        plan_fits(epoch, furthest_epoch),
    ensures
        match plan {
            Ok(plan) => {
                &&& epoch <= furthest_epoch
                &&& plan.decision_slot == reported_slot(epoch, kind, *network)
                &&& plan.start_slot == epoch * SLOTS_PER_EPOCH
                &&& plan.end_slot == (epoch + 1) * SLOTS_PER_EPOCH
            },
            Err(error) => epoch > furthest_epoch && error@ == too_far_ahead(
                epoch,
                (furthest_epoch - 1) as u64,
            ),
        },
        match plan {
            Ok(plan) => planned(epoch, furthest_epoch, kind, *network) == Ok::<
                ProposerPlan,
                Refusal,
            >(plan),
            Err(error) => planned(epoch, furthest_epoch, kind, *network) == Err::<
                ProposerPlan,
                Refusal,
            >(error@),
        },
{
    if epoch > furthest_epoch {
        let mut text = "Request epoch ".to_owned();
        append_decimal(&mut text, epoch);
        text.append(" is more than one epoch past the current epoch ");
        append_decimal(&mut text, furthest_epoch - 1);
        return Err(ApiError::BadRequest(text));
    }
    let decision_slot = match kind {
        DependentRoot::Legacy => compute_start_slot_at_epoch(epoch).saturating_sub(1),
        DependentRoot::ForkAware => proposer_shuffling_decision_slot(epoch, network),
    };
    let start_slot = compute_start_slot_at_epoch(epoch);
    Ok(ProposerPlan { decision_slot, start_slot, end_slot: start_slot + SLOTS_PER_EPOCH })
}

/// What the state says that proposer duties are computed from.
#[derive(Debug)]
pub struct ProposerFacts {
    /// The slot of the state.
    pub state_slot: u64,
    /// The root of the block that the state was built on.
    pub state_block_root: B256,
    /// The block root that the state remembers for the decision slot, or the
    /// text of the error. It is only read if the state is past that slot.
    pub decision_root: Result<B256, String>,
    /// For each slot of the epoch, the proposer or the text of the error.
    pub proposers: Vec<Result<u64, String>>,
    /// The public keys of the validators, by index.
    pub public_keys: Vec<PublicKey>,
}

/// The block root that the duties depend on, by the state's own history.
pub open spec fn dependent_root(epoch: u64, plan: ProposerPlan, facts: ProposerFacts) -> Result<
    B256,
    Refusal,
> {
    if facts.state_slot <= plan.decision_slot {
        Ok(facts.state_block_root)
    } else {
        match facts.decision_root {
            Ok(root) => Ok(root),
            Err(error) => Err(
                Refusal::NotFound(
                    "Failed to find the block root deciding the proposer shuffling for epoch "@
                        + decimal(epoch as nat) + ": "@ + error@,
                ),
            ),
        }
    }
}

/// The duty of a slot, counted from the first one of the epoch.
pub open spec fn duty_of_slot(plan: ProposerPlan, facts: ProposerFacts, offset: int) -> Result<
    ProposerDuty,
    Refusal,
> {
    match facts.proposers@[offset] {
        Err(error) => Err(Refusal::BadRequest(error@)),
        Ok(validator_index) => match key_of(facts.public_keys@, validator_index) {
            Some(public_key) => Ok(
                ProposerDuty {
                    public_key,
                    validator_index,
                    slot: (plan.start_slot + offset) as u64,
                },
            ),
            None => Err(Refusal::ValidatorNotFound(decimal(validator_index as nat))),
        },
    }
}

/// The duties of an epoch, slot by slot.
pub open spec fn duties_of_epoch(plan: ProposerPlan, facts: ProposerFacts) -> Result<
    Seq<ProposerDuty>,
    Refusal,
> {
    collected(
        Seq::new(SLOTS_PER_EPOCH as nat, |offset: int| duty_of_slot(plan, facts, offset)),
    )
}

/// The dependent root and the duties of an epoch.
pub open spec fn planned_response(epoch: u64, plan: ProposerPlan, facts: ProposerFacts) -> Result<
    (B256, Seq<ProposerDuty>),
    Refusal,
> {
    match dependent_root(epoch, plan, facts) {
        Err(refusal) => Err(refusal),
        Ok(root) => match duties_of_epoch(plan, facts) {
            Err(refusal) => Err(refusal),
            Ok(duties) => Ok((root, duties)),
        },
    }
}

/// The proposer duties of an epoch, with the block root that they depend on.
/// That root is taken from the state's own history: the global slot index may
/// name a block of a branch that fork choice discarded, and knows nothing from
/// before a checkpoint sync.
pub fn proposer_duties(epoch: u64, plan: &ProposerPlan, facts: &ProposerFacts) -> (response: Result<
    DutiesResponse<ProposerDuty>,
    ApiError,
>)
    requires
        plan.start_slot + SLOTS_PER_EPOCH <= u64::MAX,
        facts.proposers@.len() == SLOTS_PER_EPOCH,
    ensures
        match planned_response(epoch, *plan, *facts) {
            Err(refusal) => response matches Err(error) && error@ == refusal,
            Ok((root, duties)) => response matches Ok(response) && response.dependent_root == Some(
                root,
            ) && response.data@ == duties,
        },
{
    let root = if facts.state_slot <= plan.decision_slot {
        facts.state_block_root
    } else {
        match &facts.decision_root {
            Ok(root) => *root,
            Err(error) => {
                let mut text =
                    "Failed to find the block root deciding the proposer shuffling for epoch ".to_owned();
                append_decimal(&mut text, epoch);
                text.append(": ");
                text.append(error.as_str());
                return Err(ApiError::NotFound(text));
            },
        }
    };
    let ghost outcomes = Seq::new(
        SLOTS_PER_EPOCH as nat,
        |offset: int| duty_of_slot(*plan, *facts, offset),
    );
    let mut duties: Vec<ProposerDuty> = Vec::new();
    let mut offset: usize = 0;
    while offset < facts.proposers.len()
        invariant
            offset <= facts.proposers@.len() == SLOTS_PER_EPOCH,
            plan.start_slot + SLOTS_PER_EPOCH <= u64::MAX,
            outcomes == Seq::new(
                SLOTS_PER_EPOCH as nat,
                |offset: int| duty_of_slot(*plan, *facts, offset),
            ),
            dependent_root(epoch, *plan, *facts) == Ok::<B256, Refusal>(root),
            collected(outcomes.take(offset as int)) == Ok::<Seq<ProposerDuty>, Refusal>(duties@),
        decreases facts.proposers@.len() - offset,
    {
        assert(outcomes.take(offset + 1).drop_last() =~= outcomes.take(offset as int));
        assert(outcomes[offset as int] == duty_of_slot(*plan, *facts, offset as int));
        let validator_index = match &facts.proposers[offset] {
            Ok(validator_index) => *validator_index,
            Err(error) => {
                proof {
                    lemma_collected_stops(outcomes, offset + 1);
                }
                return Err(ApiError::BadRequest(error.clone()));
            },
        };
        match public_key_of(&facts.public_keys, validator_index) {
            Some(public_key) => {
                duties.push(
                    ProposerDuty {
                        public_key,
                        validator_index,
                        slot: plan.start_slot + offset as u64,
                    },
                );
            },
            None => {
                proof {
                    lemma_collected_stops(outcomes, offset + 1);
                }
                let mut text = String::new();
                append_decimal(&mut text, validator_index);
                assert(text@ =~= decimal(validator_index as nat));
                return Err(ApiError::ValidatorNotFound(text));
            },
        }
        offset = offset + 1;
    }
    assert(outcomes.take(offset as int) =~= outcomes);
    Ok(DutiesResponse { dependent_root: Some(root), data: duties })
}

/// Up to and with the fork epoch, both kinds of dependent root are the same.
pub proof fn dependent_roots_agree_until_the_fork(epoch: u64, network: NetworkSpec)
    requires
        epoch <= network.fulu_fork_epoch,
    ensures
        reported_slot(epoch, DependentRoot::ForkAware, network) == reported_slot(
            epoch,
            DependentRoot::Legacy,
            network,
        ),
{
}

/// After the fork epoch, the shuffling of an epoch is decided one epoch earlier:
/// by the last slot of the epoch two before it, where there is one.
pub proof fn shuffling_is_decided_earlier_after_the_fork(epoch: u64, network: NetworkSpec)
    requires
        epoch > network.fulu_fork_epoch,
    ensures
        reported_slot(epoch, DependentRoot::ForkAware, network) == slot_before(
            (epoch - 1) * SLOTS_PER_EPOCH,
        ),
        epoch >= 2 ==> {
            &&& reported_slot(epoch, DependentRoot::ForkAware, network) / (SLOTS_PER_EPOCH as int)
                == epoch - 2
            &&& reported_slot(epoch, DependentRoot::ForkAware, network) + SLOTS_PER_EPOCH
                == reported_slot(epoch, DependentRoot::Legacy, network)
        },
{
}

/// What a request reads from the store.
pub struct ProposerReads {
    /// The current slot.
    pub current_slot: Result<u64, String>,
    /// The state for a start slot, or why there is none.
    pub state: spec_fn(u64) -> Result<ProposerFacts, Refusal>,
    /// The block root that the state for a start slot remembers for another slot.
    pub history: spec_fn(u64, u64) -> Result<B256, String>,
}

/// The answer to a request for the proposer duties of an epoch.
pub open spec fn proposer_answer(
    epoch: u64,
    kind: DependentRoot,
    network: NetworkSpec,
    reads: ProposerReads,
) -> Result<(B256, Seq<ProposerDuty>), Refusal> {
    match furthest_epoch(reads.current_slot) {
        Err(refusal) => Err(refusal),
        Ok(furthest_epoch) => match planned(epoch, furthest_epoch, kind, network) {
            Err(refusal) => Err(refusal),
            Ok(plan) => match (reads.state)(plan.start_slot) {
                Err(refusal) => Err(refusal),
                Ok(state) => planned_response(
                    epoch,
                    plan,
                    ProposerFacts {
                        decision_root: (reads.history)(plan.start_slot, plan.decision_slot),
                        ..state
                    },
                ),
            },
        },
    }
}

/// Up to and with the fork epoch, both kinds of request get the same answer from
/// the same store: the same dependent root and duties, or the same refusal.
pub proof fn kinds_answer_alike_until_the_fork(
    epoch: u64,
    network: NetworkSpec,
    reads: ProposerReads,
)
    requires
        epoch <= network.fulu_fork_epoch,
    ensures
        proposer_answer(epoch, DependentRoot::ForkAware, network, reads) == proposer_answer(
            epoch,
            DependentRoot::Legacy,
            network,
            reads,
        ),
{
    dependent_roots_agree_until_the_fork(epoch, network);
}

/// Whatever the epoch, both kinds of request list the same duties from the same
/// store where both are answered: they differ in the dependent root alone.
pub proof fn kinds_list_the_same_duties(epoch: u64, network: NetworkSpec, reads: ProposerReads)
    ensures
        ({
            let legacy = proposer_answer(epoch, DependentRoot::Legacy, network, reads);
            let fork_aware = proposer_answer(epoch, DependentRoot::ForkAware, network, reads);
            legacy is Ok && fork_aware is Ok ==> legacy->Ok_0.1 == fork_aware->Ok_0.1
        }),
{
    if let Ok(furthest_epoch) = furthest_epoch(reads.current_slot) {
        if epoch <= furthest_epoch {
            let legacy = planned(epoch, furthest_epoch, DependentRoot::Legacy, network)->Ok_0;
            let fork_aware = planned(
                epoch,
                furthest_epoch,
                DependentRoot::ForkAware,
                network,
            )->Ok_0;
            if let Ok(state) = (reads.state)(legacy.start_slot) {
                let first = ProposerFacts {
                    decision_root: (reads.history)(legacy.start_slot, legacy.decision_slot),
                    ..state
                };
                let second = ProposerFacts {
                    decision_root: (reads.history)(legacy.start_slot, fork_aware.decision_slot),
                    ..state
                };
                assert(Seq::new(
                    SLOTS_PER_EPOCH as nat,
                    |offset: int| duty_of_slot(legacy, first, offset),
                ) =~= Seq::new(
                    SLOTS_PER_EPOCH as nat,
                    |offset: int| duty_of_slot(fork_aware, second, offset),
                ));
            }
        }
    }
}

/// No request is answered for an epoch past the furthest one whose shuffling is
/// decided; such a request is refused by the current slot alone.
pub proof fn undecided_epochs_are_refused(
    epoch: u64,
    kind: DependentRoot,
    network: NetworkSpec,
    reads: ProposerReads,
    slot: u64,
)
    requires
        reads.current_slot == Ok::<u64, String>(slot),
        epoch > furthest_decided_epoch(slot),
    ensures
        proposer_answer(epoch, kind, network, reads) == Err::<(B256, Seq<ProposerDuty>), Refusal>(
            too_far_ahead(epoch, slot / SLOTS_PER_EPOCH),
        ),
{
}

/// A decision slot lies before the epoch whose shuffling it decides.
pub proof fn decision_precedes_the_epoch(epoch: u64, kind: DependentRoot, network: NetworkSpec)
    requires
        epoch > 0,
    ensures
        reported_slot(epoch, kind, network) < epoch * SLOTS_PER_EPOCH,
{
}

/// An answer lists one duty for each slot of the epoch, in order, and none for
/// any other slot.
pub proof fn every_slot_has_one_duty(plan: ProposerPlan, facts: ProposerFacts)
    requires
        plan.start_slot + SLOTS_PER_EPOCH <= u64::MAX,
    ensures
        duties_of_epoch(plan, facts) matches Ok(duties) ==> duties.len() == SLOTS_PER_EPOCH
            && forall|i: int|
            0 <= i < duties.len() ==> (#[trigger] duties[i]).slot == plan.start_slot + i,
{
    let outcomes = Seq::new(
        SLOTS_PER_EPOCH as nat,
        |offset: int| duty_of_slot(plan, facts, offset),
    );
    every_value_is_collected(outcomes);
    if let Ok(duties) = duties_of_epoch(plan, facts) {
        assert forall|i: int| 0 <= i < duties.len() implies (#[trigger] duties[i]).slot
            == plan.start_slot + i by {
            assert(outcomes[i] == duty_of_slot(plan, facts, i));
        }
    }
}

/// The legacy dependent root is always that of the slot before the epoch. The
/// fork-aware one is the same up to and with the fork epoch, and that of the slot
/// before the previous epoch from then on. Before slot zero there is slot zero.
pub proof fn reported_slots_end_an_epoch(epoch: u64, network: NetworkSpec)
    ensures
        epoch == 0 ==> reported_slot(epoch, DependentRoot::Legacy, network) == 0,
        epoch > 0 ==> reported_slot(epoch, DependentRoot::Legacy, network) == epoch
            * SLOTS_PER_EPOCH - 1,
        epoch == 0 ==> reported_slot(epoch, DependentRoot::ForkAware, network) == 0,
        0 < epoch <= network.fulu_fork_epoch ==> reported_slot(
            epoch,
            DependentRoot::ForkAware,
            network,
        ) == epoch * SLOTS_PER_EPOCH - 1,
        epoch > network.fulu_fork_epoch && epoch == 1 ==> reported_slot(
            epoch,
            DependentRoot::ForkAware,
            network,
        ) == 0,
        epoch > network.fulu_fork_epoch && epoch >= 2 ==> reported_slot(
            epoch,
            DependentRoot::ForkAware,
            network,
        ) == (epoch - 1) * SLOTS_PER_EPOCH - 1,
{
}

/// A request is planned exactly if its epoch is not past the furthest one; the plan
/// covers the slots of that epoch and no others. A refusal names the epoch asked
/// for and the one before the furthest.
pub proof fn plan_covers_the_epoch(
    epoch: u64,
    furthest_epoch: u64,
    kind: DependentRoot,
    network: NetworkSpec,
)
    requires
        furthest_epoch >= 1,
        plan_fits(epoch, furthest_epoch),
    ensures
        match planned(epoch, furthest_epoch, kind, network) {
            Ok(plan) => {
                &&& epoch <= furthest_epoch
                &&& plan.start_slot == epoch * SLOTS_PER_EPOCH
                &&& plan.end_slot == plan.start_slot + SLOTS_PER_EPOCH
                &&& plan.decision_slot == reported_slot(epoch, kind, network)
            },
            Err(refusal) => epoch > furthest_epoch && refusal == Refusal::BadRequest(
                "Request epoch "@ + decimal(epoch as nat)
                    + " is more than one epoch past the current epoch "@ + decimal(
                    (furthest_epoch - 1) as nat,
                ),
            ),
        },
{
}

/// The dependent root of an answer is the one that the state's history holds for
/// the decision slot, however far back that lies; only a state at or before the
/// decision slot names its own block. Where the history fails, so does the answer.
pub proof fn dependent_root_comes_from_the_history(
    epoch: u64,
    plan: ProposerPlan,
    facts: ProposerFacts,
)
    ensures
        planned_response(epoch, plan, facts) matches Ok((root, _)) ==> {
            &&& facts.state_slot > plan.decision_slot ==> facts.decision_root == Ok::<B256, String>(
                root,
            )
            &&& facts.state_slot <= plan.decision_slot ==> root == facts.state_block_root
        },
        facts.state_slot > plan.decision_slot ==> (facts.decision_root matches Err(error)
            ==> planned_response(epoch, plan, facts) == Err::<
            (B256, Seq<ProposerDuty>),
            Refusal,
        >(
            Refusal::NotFound(
                "Failed to find the block root deciding the proposer shuffling for epoch "@
                    + decimal(epoch as nat) + ": "@ + error@,
            ),
        )),
{
}

/// Whether the proposer of a slot is known and registered.
pub open spec fn proposer_known(facts: ProposerFacts, offset: int) -> bool {
    facts.proposers@[offset] matches Ok(index) && index < facts.public_keys@.len()
}

/// With a dependent root, the duties are given exactly if every slot of the epoch
/// has a registered proposer. Each duty then names the proposer of its slot with
/// that proposer's key. Otherwise the first slot without one decides the refusal.
pub proof fn each_duty_names_the_proposer_of_its_slot(
    epoch: u64,
    plan: ProposerPlan,
    facts: ProposerFacts,
)
    requires
        plan.start_slot + SLOTS_PER_EPOCH <= u64::MAX,
        facts.state_slot <= plan.decision_slot || facts.decision_root is Ok,
    ensures
        match planned_response(epoch, plan, facts) {
            Ok((_, duties)) => {
                &&& duties.len() == SLOTS_PER_EPOCH
                &&& forall|i: int|
                    0 <= i < duties.len() ==> {
                        let duty = #[trigger] duties[i];
                        &&& proposer_known(facts, i)
                        &&& facts.proposers@[i] == Ok::<u64, String>(duty.validator_index)
                        &&& duty.public_key == facts.public_keys@[duty.validator_index as int]
                        &&& duty.slot == plan.start_slot + i
                    }
            },
            Err(refusal) => exists|i: int|
                0 <= i < SLOTS_PER_EPOCH && !#[trigger] proposer_known(facts, i) && (forall|j: int|
                    0 <= j < i ==> #[trigger] proposer_known(facts, j)) && refusal == (
                match facts.proposers@[i] {
                    Err(error) => Refusal::BadRequest(error@),
                    Ok(index) => Refusal::ValidatorNotFound(decimal(index as nat)),
                }),
        },
        planned_response(epoch, plan, facts) is Ok <==> forall|i: int|
            0 <= i < SLOTS_PER_EPOCH ==> #[trigger] proposer_known(facts, i),
{
    let outcomes = Seq::new(
        SLOTS_PER_EPOCH as nat,
        |offset: int| duty_of_slot(plan, facts, offset),
    );
    every_value_is_collected(outcomes);
    first_error_is_reported(outcomes);
    assert forall|i: int| 0 <= i < SLOTS_PER_EPOCH implies (#[trigger] outcomes[i] is Ok)
        == proposer_known(facts, i) by {
        assert(outcomes[i] == duty_of_slot(plan, facts, i));
    }
    match planned_response(epoch, plan, facts) {
        Ok((_, duties)) => {
            assert forall|i: int| 0 <= i < duties.len() implies {
                let duty = #[trigger] duties[i];
                &&& proposer_known(facts, i)
                &&& facts.proposers@[i] == Ok::<u64, String>(duty.validator_index)
                &&& duty.public_key == facts.public_keys@[duty.validator_index as int]
                &&& duty.slot == plan.start_slot + i
            } by {
                assert(outcomes[i] == duty_of_slot(plan, facts, i));
            }
            assert forall|i: int| 0 <= i < SLOTS_PER_EPOCH implies #[trigger] proposer_known(
                facts,
                i,
            ) by {
                assert(outcomes[i] is Ok);
            }
        },
        Err(refusal) => {
            let i = choose|i: int|
                0 <= i < outcomes.len() && #[trigger] outcomes[i] == Err::<ProposerDuty, Refusal>(
                    refusal,
                ) && (forall|j: int| 0 <= j < i ==> #[trigger] outcomes[j] is Ok);
            assert(outcomes[i] == duty_of_slot(plan, facts, i));
            assert(!proposer_known(facts, i));
            assert forall|j: int| 0 <= j < i implies #[trigger] proposer_known(facts, j) by {
                assert(outcomes[j] is Ok);
            }
        },
    }
}

} // verus!
