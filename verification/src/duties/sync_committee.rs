//! Sync committee duties: at which places validators sign for the committee.
use vstd::prelude::*;

use crate::bytes::PublicKey;
use crate::duties::api::{collected, lemma_collected_stops, unknown_validator};
use crate::duties::api::{key_of, public_key_of, validator_not_found};
use crate::duties::api::{ApiError, DutiesResponse, Refusal};
use crate::text::decimal;

verus! {

/// The places of a validator in the sync committee.
#[derive(Debug, Clone, PartialEq, Eq)]
pub struct SyncCommitteeDuty {
    pub public_key: PublicKey,
    pub validator_index: u64,
    pub validator_sync_committee_indices: Vec<u64>,
}

/// The mathematical value of a [`SyncCommitteeDuty`].
pub struct SyncPlaces {
    pub public_key: PublicKey,
    pub validator_index: u64,
    pub places: Seq<u64>,
}

impl View for SyncCommitteeDuty {
    type V = SyncPlaces;

    open spec fn view(&self) -> SyncPlaces {
        SyncPlaces {
            public_key: self.public_key,
            validator_index: self.validator_index,
            places: self.validator_sync_committee_indices@,
        }
    }
}

/// The places of a validator in a committee, in ascending order.
pub open spec fn places_in(committee: Seq<u64>, validator_index: u64) -> Seq<u64>
    decreases committee.len(),
{
    if committee.len() == 0 {
        Seq::empty()
    } else {
        let before = places_in(committee.drop_last(), validator_index);
        if committee.last() == validator_index {
            before.push((committee.len() - 1) as u64)
        } else {
            before
        }
    }
}

/// What was read of the committee, by its views.
pub open spec fn members_of(committee: Result<Vec<u64>, String>) -> Result<
    Seq<u64>,
    Seq<char>,
> {
    match committee {
        Ok(committee) => Ok(committee@),
        Err(error) => Err(error@),
    }
}

/// The duty of one validator. `committee` holds the members of the current sync
/// committee by index, or the text of the error.
pub open spec fn sync_duty_of(
    epoch: u64,
    validator_index: u64,
    committee: Result<Seq<u64>, Seq<char>>,
    public_keys: Seq<PublicKey>,
) -> Result<SyncPlaces, Refusal> {
    match key_of(public_keys, validator_index) {
        None => Err(unknown_validator(validator_index, epoch)),
        Some(public_key) => match committee {
            Err(error) => Err(
                Refusal::BadRequest("Failed to get sync committee indices "@ + error),
            ),
            Ok(committee) => Ok(
                SyncPlaces {
                    public_key,
                    validator_index,
                    places: places_in(committee, validator_index),
                },
            ),
        },
    }
}

/// The outcome for each validator asked for, in order.
pub open spec fn sync_outcomes(
    epoch: u64,
    validator_indices: Seq<u64>,
    committee: Result<Seq<u64>, Seq<char>>,
    public_keys: Seq<PublicKey>,
) -> Seq<Result<SyncPlaces, Refusal>> {
    validator_indices.map_values(
        |validator_index: u64| sync_duty_of(epoch, validator_index, committee, public_keys),
    )
}

/// The places of a validator in a committee, in ascending order.
fn find_places(committee: &Vec<u64>, validator_index: u64) -> (places: Vec<u64>)
    ensures
        places@ == places_in(committee@, validator_index),
{
    let mut places: Vec<u64> = Vec::new();
    let mut index: usize = 0;
    while index < committee.len()
        invariant
            index <= committee@.len(),
            places@ == places_in(committee@.take(index as int), validator_index),
        decreases committee@.len() - index,
    {
        assert(committee@.take(index + 1).drop_last() =~= committee@.take(index as int));
        if committee[index] == validator_index {
            places.push(index as u64);
        }
        index = index + 1;
    }
    assert(committee@.take(index as int) =~= committee@);
    places
}

/// The sync committee duties of the validators asked for. `committee` holds the
/// members of the current sync committee by index, or the text of the error; it
/// is not read for a validator that the state does not know. The first error
/// ends the answer.
pub fn sync_committee_duties(
    epoch: u64,
    validator_indices: &Vec<u64>,
    committee: &Result<Vec<u64>, String>,
    public_keys: &Vec<PublicKey>,
) -> (response: Result<DutiesResponse<SyncCommitteeDuty>, ApiError>)
    ensures
        ({
            let outcomes = sync_outcomes(
                epoch,
                validator_indices@,
                members_of(*committee),
                public_keys@,
            );
            match collected(outcomes) {
                Ok(duties) => response matches Ok(response) && response.dependent_root is None
                    && response.data@.map_values(|duty: SyncCommitteeDuty| duty@) == duties,
                Err(refusal) => response matches Err(error) && error@ == refusal,
            }
        }),
{
    let ghost members = members_of(*committee);
    let ghost outcomes = sync_outcomes(epoch, validator_indices@, members, public_keys@);
    let mut duties: Vec<SyncCommitteeDuty> = Vec::new();
    let mut next: usize = 0;
    assert(duties@.map_values(|duty: SyncCommitteeDuty| duty@) =~= Seq::<SyncPlaces>::empty());
    while next < validator_indices.len()
        invariant
            next <= validator_indices@.len(),
            members == members_of(*committee),
            outcomes == sync_outcomes(epoch, validator_indices@, members, public_keys@),
            collected(outcomes.take(next as int)) == Ok::<Seq<SyncPlaces>, Refusal>(
                duties@.map_values(|duty: SyncCommitteeDuty| duty@),
            ),
        decreases validator_indices@.len() - next,
    {
        let validator_index = validator_indices[next];
        proof {
            assert(outcomes.take(next + 1).drop_last() =~= outcomes.take(next as int));
            assert(outcomes[next as int] == sync_duty_of(
                epoch,
                validator_index,
                members,
                public_keys@,
            ));
        }
        let public_key = match public_key_of(public_keys, validator_index) {
            Some(public_key) => public_key,
            None => {
                proof {
                    lemma_collected_stops(outcomes, next + 1);
                }
                return Err(validator_not_found(validator_index, epoch));
            },
        };
        let validator_sync_committee_indices = match committee {
            Ok(committee) => find_places(committee, validator_index),
            Err(error) => {
                proof {
                    lemma_collected_stops(outcomes, next + 1);
                }
                let mut text = "Failed to get sync committee indices ".to_owned();
                text.append(error.as_str());
                return Err(ApiError::BadRequest(text));
            },
        };
        let ghost before = duties@;
        let duty = SyncCommitteeDuty {
            public_key,
            validator_index,
            validator_sync_committee_indices,
        };
        let ghost added = duty@;
        duties.push(duty);
        assert(duties@.map_values(|duty: SyncCommitteeDuty| duty@) =~= before.map_values(
            |duty: SyncCommitteeDuty| duty@,
        ).push(added));
        next = next + 1;
    }
    assert(outcomes.take(next as int) =~= outcomes);
    Ok(DutiesResponse { dependent_root: None, data: duties })
}

/// The listed places are exactly those at which the validator stands, in
/// ascending order.
pub proof fn places_are_those_of_the_validator(committee: Seq<u64>, validator_index: u64)
    requires
        committee.len() <= u64::MAX,
    ensures
        forall|place: u64| #[trigger]
            places_in(committee, validator_index).contains(place) <==> place < committee.len()
                && committee[place as int] == validator_index,
        forall|i: int, j: int|
            0 <= i < j < places_in(committee, validator_index).len() ==> places_in(
                committee,
                validator_index,
            )[i] < places_in(committee, validator_index)[j],
    decreases committee.len(),
{
    if committee.len() > 0 {
        let start = committee.drop_last();
        places_are_those_of_the_validator(start, validator_index);
        let before = places_in(start, validator_index);
        let after = places_in(committee, validator_index);
        let last = (committee.len() - 1) as u64;
        assert forall|place: u64| #[trigger]
            after.contains(place) <==> place < committee.len() && committee[place as int]
                == validator_index by {
            if before.contains(place) {
                let i = choose|i: int| 0 <= i < before.len() && before[i] == place;
                assert(after[i] == place);
                assert(start[place as int] == committee[place as int]);
            }
            if after.contains(place) {
                let i = choose|i: int| 0 <= i < after.len() && after[i] == place;
                if i < before.len() {
                    assert(before[i] == place);
                    assert(before.contains(place));
                }
            }
            if place < committee.len() && committee[place as int] == validator_index {
                if place == last {
                    assert(after.last() == last);
                } else {
                    assert(start[place as int] == validator_index);
                    assert(before.contains(place));
                }
            }
        }
        assert forall|i: int, j: int| 0 <= i < j < after.len() implies after[i] < after[j] by {
            assert(before[i] == after[i]);
            assert(before.contains(before[i]));
        }
    }
}

/// Each validator asked for has the outcome that the state gives for it. One that
/// the state does not know is refused, and so is every other if the committee cannot
/// be read. A duty carries the validator's key and, in ascending order, exactly the
/// places at which it stands in the committee.
pub proof fn sync_outcome_is_that_of_the_validator(
    epoch: u64,
    validator_indices: Seq<u64>,
    committee: Result<Seq<u64>, Seq<char>>,
    public_keys: Seq<PublicKey>,
    i: int,
)
    requires
        0 <= i < validator_indices.len(),
        committee matches Ok(members) ==> members.len() <= u64::MAX,
    ensures
        sync_outcomes(epoch, validator_indices, committee, public_keys).len()
            == validator_indices.len(),
        ({
            let validator = validator_indices[i];
            let known = validator < public_keys.len();
            match sync_outcomes(epoch, validator_indices, committee, public_keys)[i] {
                Err(refusal) => {
                    ||| !known && refusal == Refusal::ValidatorNotFound(
                        "Validator with index "@ + decimal(validator as nat)
                            + " not found in state at epoch "@ + decimal(epoch as nat),
                    )
                    ||| known && (committee matches Err(error) && refusal == Refusal::BadRequest(
                        "Failed to get sync committee indices "@ + error,
                    ))
                },
                Ok(duty) => {
                    &&& known
                    &&& committee matches Ok(members)
                    &&& duty.public_key == public_keys[validator as int]
                    &&& duty.validator_index == validator
                    &&& forall|place: u64| #[trigger]
                        duty.places.contains(place) <==> place < members.len()
                            && members[place as int] == validator
                    &&& forall|a: int, b: int|
                        0 <= a < b < duty.places.len() ==> #[trigger] duty.places[a]
                            < #[trigger] duty.places[b]
                },
            }
        }),
{
    let validator = validator_indices[i];
    let outcomes = sync_outcomes(epoch, validator_indices, committee, public_keys);
    assert(outcomes[i] == sync_duty_of(epoch, validator, committee, public_keys));
    if let Ok(members) = committee {
        places_are_those_of_the_validator(members, validator);
    }
}

/// What was read of the committee is every member in order, or the error.
pub proof fn every_member_is_read(members: Vec<u64>, error: String)
    ensures
        members_of(Ok(members)) == Ok::<Seq<u64>, Seq<char>>(members@),
        members_of(Err(error)) == Err::<Seq<u64>, Seq<char>>(error@),
{
}

} // verus!
