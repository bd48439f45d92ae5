//! Attester duties: in which committees validators attest.
use vstd::prelude::*;

use crate::bytes::{PublicKey, B256};
use crate::duties::api::{collected_present, lemma_collected_present_stops, unknown_validator};
use crate::duties::api::{key_of, public_key_of, validator_not_found};
use crate::duties::api::{ApiError, DutiesResponse, Refusal};
use crate::network::{compute_start_slot_at_epoch, start_slot_fits, SLOTS_PER_EPOCH};
use crate::text::{append_decimal, decimal};

verus! {

/// The place of a validator in the committees of an epoch.
#[derive(Debug, Clone, Copy, PartialEq, Eq)]
pub struct AttesterDuty {
    pub public_key: PublicKey,
    pub validator_index: u64,
    pub committee_index: u64,
    pub committees_at_slot: u64,
    pub validator_committee_index: u64,
    pub slot: u64,
}

/// The committee that a validator is assigned to.
#[derive(Debug, Clone, PartialEq, Eq)]
pub struct CommitteeAssignment {
    /// The members of the committee, by index.
    pub committee: Vec<u64>,
    pub committee_index: u64,
    pub slot: u64,
}

/// The slots that a request for attester duties concerns.
#[derive(Debug, Clone, Copy, PartialEq, Eq, Structural)]
pub struct AttesterPlan {
    /// The first slot of the epoch.
    pub start_slot: u64,
    /// The slot at or before which the dependent root is looked up.
    pub dependent_slot: u64,
}

/// Plans the answer to a request for attester duties. The duties depend on the
/// last block before the epoch, in the first epoch on the genesis block.
pub fn plan_attester_duties(epoch: u64) -> (plan: AttesterPlan)
    requires
        start_slot_fits(epoch),
    ensures
        plan.start_slot == epoch * SLOTS_PER_EPOCH,
        plan.dependent_slot == (if epoch == 0 {
            0
        } else {
            epoch * SLOTS_PER_EPOCH - 1
        }),
{
    let start_slot = compute_start_slot_at_epoch(epoch);
    AttesterPlan {
        start_slot,
        dependent_slot: if epoch == 0 {
            0
        } else {
            start_slot - 1
        },
    }
}

/// What the state says that attester duties are computed from.
#[derive(Debug)]
pub struct AttesterFacts {
    /// How many committees each slot of the epoch has.
    pub committees_at_slot: u64,
    /// For each validator asked for, its assignment, nothing, or the text of the
    /// error. It is not read for a validator that the state does not know.
    pub assignments: Vec<Result<Option<CommitteeAssignment>, String>>,
    /// The public keys of the validators, by index.
    pub public_keys: Vec<PublicKey>,
}

/// Whether `index` stands first at `position`.
pub open spec fn stands_first(committee: Seq<u64>, index: u64, position: int) -> bool {
    &&& 0 <= position < committee.len()
    &&& committee[position] == index
    &&& forall|earlier: int| 0 <= earlier < position ==> committee[earlier] != index
}

/// The position at which `index` stands first.
pub open spec fn first_position(committee: Seq<u64>, index: u64) -> int {
    choose|position: int| stands_first(committee, index, position)
}

/// The duty of one validator, if it has one.
pub open spec fn duty_of_validator(
    epoch: u64,
    validator_index: u64,
    committees_at_slot: u64,
    assignment: Result<Option<CommitteeAssignment>, String>,
    public_keys: Seq<PublicKey>,
) -> Result<Option<AttesterDuty>, Refusal> {
    match key_of(public_keys, validator_index) {
        None => Err(unknown_validator(validator_index, epoch)),
        Some(public_key) => match assignment {
            Err(error) => Err(
                Refusal::BadRequest(
                    "Failed to get committee assignment for validator "@ + decimal(
                        validator_index as nat,
                    ) + ": "@ + error@,
                ),
            ),
            Ok(None) => Ok(None),
            Ok(Some(assignment)) => if assignment.committee@.contains(validator_index) {
                Ok(
                    Some(
                        AttesterDuty {
                            public_key,
                            validator_index,
                            committee_index: assignment.committee_index,
                            committees_at_slot,
                            validator_committee_index: first_position(
                                assignment.committee@,
                                validator_index,
                            ) as u64,
                            slot: assignment.slot,
                        },
                    ),
                )
            } else {
                Err(Refusal::BadRequest("Validator not found in assigned committee"@))
            },
        },
    }
}

/// The outcome for each validator asked for, in order.
pub open spec fn attester_outcomes(
    epoch: u64,
    validator_indices: Seq<u64>,
    facts: AttesterFacts,
) -> Seq<Result<Option<AttesterDuty>, Refusal>> {
    Seq::new(
        validator_indices.len(),
        |i: int|
            duty_of_validator(
                epoch,
                validator_indices[i],
                facts.committees_at_slot,
                facts.assignments@[i],
                facts.public_keys@,
            ),
    )
}

/// The first position of a validator in a committee.
fn position_in(committee: &Vec<u64>, validator_index: u64) -> (position: Option<usize>)
    ensures
        match position {
            Some(position) => committee@.contains(validator_index) && position == first_position(
                committee@,
                validator_index,
            ),
            None => !committee@.contains(validator_index),
        },
{
    let mut position: usize = 0;
    while position < committee.len()
        invariant
            position <= committee@.len(),
            forall|i: int| 0 <= i < position ==> committee@[i] != validator_index,
        decreases committee@.len() - position,
    {
        if committee[position] == validator_index {
            proof {
                assert(stands_first(committee@, validator_index, position as int));
                let first = first_position(committee@, validator_index);
                assert(stands_first(committee@, validator_index, first));
                assert(first == position);
            }
            return Some(position);
        }
        position = position + 1;
    }
    None
}

/// The duty of one validator, if it has one.
fn attester_duty(
    epoch: u64,
    validator_index: u64,
    committees_at_slot: u64,
    assignment: &Result<Option<CommitteeAssignment>, String>,
    public_keys: &Vec<PublicKey>,
) -> (duty: Result<Option<AttesterDuty>, ApiError>)
    ensures
        ({
            let outcome = duty_of_validator(
                epoch,
                validator_index,
                committees_at_slot,
                *assignment,
                public_keys@,
            );
            match duty {
                Ok(duty) => outcome == Ok::<Option<AttesterDuty>, Refusal>(duty),
                Err(error) => outcome == Err::<Option<AttesterDuty>, Refusal>(error@),
            }
        }),
{
    let public_key = match public_key_of(public_keys, validator_index) {
        Some(public_key) => public_key,
        None => {
            return Err(validator_not_found(validator_index, epoch));
        },
    };
    match assignment {
        Err(error) => {
            let mut text = "Failed to get committee assignment for validator ".to_owned();
            append_decimal(&mut text, validator_index);
            text.append(": ");
            text.append(error.as_str());
            Err(ApiError::BadRequest(text))
        },
        Ok(None) => Ok(None),
        Ok(Some(assignment)) => match position_in(&assignment.committee, validator_index) {
            Some(position) => Ok(
                Some(
                    AttesterDuty {
                        public_key,
                        validator_index,
                        committee_index: assignment.committee_index,
                        committees_at_slot,
                        validator_committee_index: position as u64,
                        slot: assignment.slot,
                    },
                ),
            ),
            None => Err(
                ApiError::BadRequest("Validator not found in assigned committee".to_owned()),
            ),
        },
    }
}

/// The attester duties of the validators asked for. Validators without an
/// assignment are left out; the first error ends the answer.
pub fn attester_duties(
    epoch: u64,
    dependent_root: B256,
    validator_indices: &Vec<u64>,
    facts: &AttesterFacts,
) -> (response: Result<DutiesResponse<AttesterDuty>, ApiError>)
    requires
        facts.assignments@.len() == validator_indices@.len(),
    ensures
        match collected_present(attester_outcomes(epoch, validator_indices@, *facts)) {
            Ok(duties) => response matches Ok(response) && response.dependent_root == Some(
                dependent_root,
            ) && response.data@ == duties,
            Err(refusal) => response matches Err(error) && error@ == refusal,
        },
{
    let ghost outcomes = attester_outcomes(epoch, validator_indices@, *facts);
    let mut duties: Vec<AttesterDuty> = Vec::new();
    let mut next: usize = 0;
    while next < validator_indices.len()
        invariant
            next <= validator_indices@.len() == facts.assignments@.len(),
            outcomes == attester_outcomes(epoch, validator_indices@, *facts),
            collected_present(outcomes.take(next as int)) == Ok::<Seq<AttesterDuty>, Refusal>(
                duties@,
            ),
        decreases validator_indices@.len() - next,
    {
        assert(outcomes.take(next + 1).drop_last() =~= outcomes.take(next as int));
        let outcome = attester_duty(
            epoch,
            validator_indices[next],
            facts.committees_at_slot,
            &facts.assignments[next],
            &facts.public_keys,
        );
        match outcome {
            Ok(Some(duty)) => {
                duties.push(duty);
            },
            Ok(None) => {},
            Err(error) => {
                proof {
                    lemma_collected_present_stops(outcomes, next + 1);
                }
                return Err(error);
            },
        }
        next = next + 1;
    }
    assert(outcomes.take(next as int) =~= outcomes);
    Ok(DutiesResponse { dependent_root: Some(dependent_root), data: duties })
}

/// A duty names the place where its validator stands in the committee.
pub proof fn duty_names_the_place_in_the_committee(
    epoch: u64,
    validator_index: u64,
    committees_at_slot: u64,
    assignment: CommitteeAssignment,
    public_keys: Seq<PublicKey>,
)
    requires
        assignment.committee@.len() <= u64::MAX,
    ensures
        duty_of_validator(
            epoch,
            validator_index,
            committees_at_slot,
            Ok(Some(assignment)),
            public_keys,
        ) matches Ok(Some(duty)) ==> {
            &&& stands_first(
                assignment.committee@,
                validator_index,
                duty.validator_committee_index as int,
            )
            &&& duty.validator_index == validator_index
            &&& duty.slot == assignment.slot
        },
{
    let committee = assignment.committee@;
    if committee.contains(validator_index) {
        let some = choose|i: int| 0 <= i < committee.len() && committee[i] == validator_index;
        lemma_first_exists(committee, validator_index, some);
    }
}

/// Among the positions of a validator there is a first one.
proof fn lemma_first_exists(committee: Seq<u64>, index: u64, position: int)
    requires
        0 <= position < committee.len(),
        committee[position] == index,
    ensures
        exists|first: int| stands_first(committee, index, first),
    decreases position,
{
    if exists|earlier: int| 0 <= earlier < position && committee[earlier] == index {
        let earlier = choose|earlier: int| 0 <= earlier < position && committee[earlier] == index;
        lemma_first_exists(committee, index, earlier);
    } else {
        assert(stands_first(committee, index, position));
    }
}

/// Each validator asked for has the outcome that the state gives for it. One that
/// the state does not know, whose assignment cannot be read, or that is missing from
/// its own committee is refused; one without an assignment has no duty. A duty
/// carries the validator's key, its committee as assigned, and the first place at
/// which it stands there.
pub proof fn outcome_is_that_of_the_validator(
    epoch: u64,
    validator_indices: Seq<u64>,
    facts: AttesterFacts,
    i: int,
)
    requires
        0 <= i < validator_indices.len(),
        facts.assignments@.len() == validator_indices.len(),
        facts.assignments@[i] matches Ok(Some(assignment)) ==> assignment.committee@.len()
            <= u64::MAX,
    ensures
        attester_outcomes(epoch, validator_indices, facts).len() == validator_indices.len(),
        ({
            let validator = validator_indices[i];
            let known = validator < facts.public_keys@.len();
            let assigned = facts.assignments@[i];
            match attester_outcomes(epoch, validator_indices, facts)[i] {
                Err(refusal) => {
                    ||| !known && refusal == Refusal::ValidatorNotFound(
                        "Validator with index "@ + decimal(validator as nat)
                            + " not found in state at epoch "@ + decimal(epoch as nat),
                    )
                    ||| known && (assigned matches Err(error) && refusal == Refusal::BadRequest(
                        "Failed to get committee assignment for validator "@ + decimal(
                            validator as nat,
                        ) + ": "@ + error@,
                    ))
                    ||| known && (assigned matches Ok(Some(assignment))
                        && !assignment.committee@.contains(validator)) && refusal
                        == Refusal::BadRequest("Validator not found in assigned committee"@)
                },
                Ok(None) => known && (assigned matches Ok(None)),
                Ok(Some(duty)) => {
                    let committee = (assigned->Ok_0->0).committee@;
                    let place = duty.validator_committee_index as int;
                    &&& known
                    &&& assigned matches Ok(Some(assignment))
                    &&& duty.public_key == facts.public_keys@[validator as int]
                    &&& duty.validator_index == validator
                    &&& duty.committee_index == assignment.committee_index
                    &&& duty.committees_at_slot == facts.committees_at_slot
                    &&& duty.slot == assignment.slot
                    &&& place < committee.len()
                    &&& committee[place] == validator
                    &&& forall|earlier: int|
                        0 <= earlier < place ==> #[trigger] committee[earlier] != validator
                },
            }
        }),
{
    let validator = validator_indices[i];
    if let Ok(Some(assignment)) = facts.assignments@[i] {
        duty_names_the_place_in_the_committee(
            epoch,
            validator,
            facts.committees_at_slot,
            assignment,
            facts.public_keys@,
        );
    }
}

} // verus!
