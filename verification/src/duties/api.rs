//! Requests, responses and errors of the duty endpoints.
use vstd::prelude::*;

use crate::bytes::{PublicKey, B256};
use crate::text::{append_decimal, decimal, decimal_parses_back, parse_u64, parsed, ParseIntError};

verus! {

/// Why a request is not answered.
#[derive(Debug, Clone, PartialEq, Eq)]
pub enum ApiError {
    BadRequest(String),
    NotFound(String),
    InternalError(String),
    ValidatorNotFound(String),
}

/// The mathematical value of an [`ApiError`].
pub enum Refusal {
    BadRequest(Seq<char>),
    NotFound(Seq<char>),
    InternalError(Seq<char>),
    ValidatorNotFound(Seq<char>),
}

impl View for ApiError {
    type V = Refusal;

    open spec fn view(&self) -> Refusal {
        match *self {
            ApiError::BadRequest(text) => Refusal::BadRequest(text@),
            ApiError::NotFound(text) => Refusal::NotFound(text@),
            ApiError::InternalError(text) => Refusal::InternalError(text@),
            ApiError::ValidatorNotFound(text) => Refusal::ValidatorNotFound(text@),
        }
    }
}

/// A response of the duty endpoints: the block root that the duties depend on,
/// where the endpoint reports one, and the duties.
#[derive(Debug)]
pub struct DutiesResponse<T> {
    pub dependent_root: Option<B256>,
    pub data: Vec<T>,
}

/// A validator index as a client writes it: as a number or as a text.
#[derive(Debug, Clone, PartialEq, Eq)]
pub enum ValidatorIndexRequest {
    Number(u64),
    Text(String),
}

/// All the values, or the first error.
pub open spec fn collected<T>(outcomes: Seq<Result<T, Refusal>>) -> Result<Seq<T>, Refusal>
    decreases outcomes.len(),
{
    if outcomes.len() == 0 {
        Ok(Seq::empty())
    } else {
        match collected(outcomes.drop_last()) {
            Err(refusal) => Err(refusal),
            Ok(values) => match outcomes.last() {
                Ok(value) => Ok(values.push(value)),
                Err(refusal) => Err(refusal),
            },
        }
    }
}

/// All the values that are there, or the first error.
pub open spec fn collected_present<T>(outcomes: Seq<Result<Option<T>, Refusal>>) -> Result<
    Seq<T>,
    Refusal,
>
    decreases outcomes.len(),
{
    if outcomes.len() == 0 {
        Ok(Seq::empty())
    } else {
        match collected_present(outcomes.drop_last()) {
            Err(refusal) => Err(refusal),
            Ok(values) => match outcomes.last() {
                Ok(Some(value)) => Ok(values.push(value)),
                Ok(None) => Ok(values),
                Err(refusal) => Err(refusal),
            },
        }
    }
}

/// An error among the outcomes is the outcome of the whole.
pub proof fn lemma_collected_stops<T>(outcomes: Seq<Result<T, Refusal>>, count: int)
    requires
        0 <= count <= outcomes.len(),
        collected(outcomes.take(count)) is Err,
    ensures
        collected(outcomes) == collected(outcomes.take(count)),
    decreases outcomes.len(),
{
    if count == outcomes.len() {
        assert(outcomes.take(count) =~= outcomes);
    } else {
        assert(outcomes.drop_last().take(count) =~= outcomes.take(count));
        lemma_collected_stops(outcomes.drop_last(), count);
    }
}

/// An error among the outcomes is the outcome of the whole.
pub proof fn lemma_collected_present_stops<T>(
    outcomes: Seq<Result<Option<T>, Refusal>>,
    count: int,
)
    requires
        0 <= count <= outcomes.len(),
        collected_present(outcomes.take(count)) is Err,
    ensures
        collected_present(outcomes) == collected_present(outcomes.take(count)),
    decreases outcomes.len(),
{
    if count == outcomes.len() {
        assert(outcomes.take(count) =~= outcomes);
    } else {
        assert(outcomes.drop_last().take(count) =~= outcomes.take(count));
        lemma_collected_present_stops(outcomes.drop_last(), count);
    }
}

/// If every outcome is a value, these are the values, in order.
pub proof fn every_value_is_collected<T>(outcomes: Seq<Result<T, Refusal>>)
    ensures
        collected(outcomes) is Ok <==> forall|i: int|
            0 <= i < outcomes.len() ==> (#[trigger] outcomes[i]) is Ok,
        collected(outcomes) matches Ok(values) ==> values.len() == outcomes.len() && forall|i: int|
            0 <= i < values.len() ==> outcomes[i] == Ok::<T, Refusal>(#[trigger] values[i]),
    decreases outcomes.len(),
{
    if outcomes.len() > 0 {
        let start = outcomes.drop_last();
        every_value_is_collected(start);
        assert forall|i: int| 0 <= i < start.len() implies start[i] == #[trigger] outcomes[i] by {}
        if collected(outcomes) is Ok {
            assert forall|i: int| 0 <= i < outcomes.len() implies (
            #[trigger] outcomes[i]) is Ok by {
                if i < start.len() {
                    assert(start[i] is Ok);
                }
            }
        }
        if forall|i: int| 0 <= i < outcomes.len() ==> (#[trigger] outcomes[i]) is Ok {
            assert forall|i: int| 0 <= i < start.len() implies (#[trigger] start[i]) is Ok by {
                assert(outcomes[i] is Ok);
            }
            assert(outcomes[outcomes.len() - 1] is Ok);
        }
    }
}

/// Whether an outcome is a value that is there.
pub open spec fn holds_value<T>() -> spec_fn(Result<Option<T>, Refusal>) -> bool {
    |outcome: Result<Option<T>, Refusal>| outcome matches Ok(Some(_))
}

/// The value that an outcome holds.
pub open spec fn held_value<T>() -> spec_fn(Result<Option<T>, Refusal>) -> T {
    |outcome: Result<Option<T>, Refusal>| outcome->Ok_0->0
}

/// If no outcome is an error, the values are those of the outcomes that hold one,
/// in order.
pub proof fn every_present_value_is_collected<T>(outcomes: Seq<Result<Option<T>, Refusal>>)
    ensures
        collected_present(outcomes) is Ok <==> forall|i: int|
            0 <= i < outcomes.len() ==> (#[trigger] outcomes[i]) is Ok,
        collected_present(outcomes) matches Ok(values) ==> values == outcomes.filter(
            holds_value(),
        ).map_values(held_value()),
    decreases outcomes.len(),
{
    reveal(Seq::filter);
    if outcomes.len() > 0 {
        let start = outcomes.drop_last();
        every_present_value_is_collected(start);
        assert forall|i: int| 0 <= i < start.len() implies start[i] == #[trigger] outcomes[i] by {}
        if collected_present(outcomes) is Ok {
            assert forall|i: int| 0 <= i < outcomes.len() implies (
            #[trigger] outcomes[i]) is Ok by {
                if i < start.len() {
                    assert(start[i] is Ok);
                }
            }
            assert(collected_present(outcomes)->Ok_0 =~= outcomes.filter(holds_value()).map_values(
                held_value(),
            ));
        }
        if forall|i: int| 0 <= i < outcomes.len() ==> (#[trigger] outcomes[i]) is Ok {
            assert forall|i: int| 0 <= i < start.len() implies (#[trigger] start[i]) is Ok by {
                assert(outcomes[i] is Ok);
            }
            assert(outcomes[outcomes.len() - 1] is Ok);
        }
    } else {
        assert(outcomes.filter(holds_value()).map_values(held_value()) =~= Seq::empty());
    }
}

/// The index that a client asked for.
pub open spec fn requested_index(request: ValidatorIndexRequest) -> Result<u64, Refusal> {
    match request {
        ValidatorIndexRequest::Number(index) => Ok(index),
        ValidatorIndexRequest::Text(text) => match parsed(text@) {
            Ok(index) => Ok(index),
            Err(error) => Err(
                Refusal::BadRequest(
                    "Invalid validator index `"@ + text@ + "`: "@ + error.spec_message(),
                ),
            ),
        },
    }
}

/// The index that a client asked for.
fn parse_validator_index(request: &ValidatorIndexRequest) -> (index: Result<u64, ApiError>)
    ensures
        match index {
            Ok(index) => requested_index(*request) == Ok::<u64, Refusal>(index),
            Err(error) => requested_index(*request) == Err::<u64, Refusal>(error@),
        },
{
    match request {
        ValidatorIndexRequest::Number(index) => Ok(*index),
        ValidatorIndexRequest::Text(text) => match parse_u64(text.as_str()) {
            Ok(index) => Ok(index),
            Err(error) => {
                let mut message = "Invalid validator index `".to_owned();
                message.append(text.as_str());
                message.append("`: ");
                message.append(error.message());
                Err(ApiError::BadRequest(message))
            },
        },
    }
}

/// The indices that a client asked for, or the first that is invalid.
pub fn parse_validator_indices(validator_indices: &Vec<ValidatorIndexRequest>) -> (indices: Result<
    Vec<u64>,
    ApiError,
>)
    ensures
        ({
            let outcome = collected(
                validator_indices@.map_values(
                    |request: ValidatorIndexRequest| requested_index(request),
                ),
            );
            match indices {
                Ok(indices) => outcome == Ok::<Seq<u64>, Refusal>(indices@),
                Err(error) => outcome == Err::<Seq<u64>, Refusal>(error@),
            }
        }),
{
    let ghost outcomes = validator_indices@.map_values(
        |request: ValidatorIndexRequest| requested_index(request),
    );
    let mut indices: Vec<u64> = Vec::new();
    let mut next: usize = 0;
    while next < validator_indices.len()
        invariant
            next <= validator_indices@.len(),
            outcomes == validator_indices@.map_values(
                |request: ValidatorIndexRequest| requested_index(request),
            ),
            collected(outcomes.take(next as int)) == Ok::<Seq<u64>, Refusal>(indices@),
        decreases validator_indices@.len() - next,
    {
        assert(outcomes.take(next + 1).drop_last() =~= outcomes.take(next as int));
        match parse_validator_index(&validator_indices[next]) {
            Ok(index) => {
                indices.push(index);
            },
            Err(error) => {
                proof {
                    lemma_collected_stops(outcomes, next + 1);
                }
                return Err(error);
            },
        }
        next = next + 1;
    }
    assert(outcomes.take(next as int) =~= outcomes);
    Ok(indices)
}

/// A client may write an index as a number or as its decimal numeral.
pub proof fn number_and_numeral_ask_for_the_same(index: u64, text: String)
    requires
        text@ == decimal(index as nat),
    ensures
        requested_index(ValidatorIndexRequest::Text(text)) == requested_index(
            ValidatorIndexRequest::Number(index),
        ),
{
    decimal_parses_back(index);
}

/// The text that names a validator that the state does not know.
pub open spec fn unknown_validator(index: u64, epoch: u64) -> Refusal {
    Refusal::ValidatorNotFound(
        "Validator with index "@ + decimal(index as nat) + " not found in state at epoch "@
            + decimal(epoch as nat),
    )
}

/// The error for a validator that the state does not know.
pub(crate) fn validator_not_found(index: u64, epoch: u64) -> (error: ApiError)
    ensures
        error@ == unknown_validator(index, epoch),
{
    let mut text = "Validator with index ".to_owned();
    append_decimal(&mut text, index);
    text.append(" not found in state at epoch ");
    append_decimal(&mut text, epoch);
    ApiError::ValidatorNotFound(text)
}

/// The public key of a validator, by its index.
pub open spec fn key_of(public_keys: Seq<PublicKey>, index: u64) -> Option<PublicKey> {
    if index < public_keys.len() {
        Some(public_keys[index as int])
    } else {
        None
    }
}

/// The public key of a validator, by its index.
pub(crate) fn public_key_of(public_keys: &Vec<PublicKey>, index: u64) -> (key: Option<PublicKey>)
    ensures
        key == key_of(public_keys@, index),
{
    if index < public_keys.len() as u64 {
        Some(public_keys[index as usize])
    } else {
        None
    }
}

/// If some outcome is an error, the first one is that of the whole.
pub proof fn first_error_is_reported<T>(outcomes: Seq<Result<T, Refusal>>)
    ensures
        collected(outcomes) matches Err(refusal) ==> exists|i: int|
            0 <= i < outcomes.len() && #[trigger] outcomes[i] == Err::<T, Refusal>(refusal) && (
            forall|j: int| 0 <= j < i ==> #[trigger] outcomes[j] is Ok),
    decreases outcomes.len(),
{
    if outcomes.len() > 0 {
        let start = outcomes.drop_last();
        first_error_is_reported(start);
        every_value_is_collected(start);
        if let Err(refusal) = collected(start) {
            let i = choose|i: int|
                0 <= i < start.len() && #[trigger] start[i] == Err::<T, Refusal>(refusal) && (
                forall|j: int| 0 <= j < i ==> #[trigger] start[j] is Ok);
            assert(outcomes[i] == start[i]);
            assert forall|j: int| 0 <= j < i implies #[trigger] outcomes[j] is Ok by {
                assert(start[j] is Ok);
            }
        } else if let Err(refusal) = collected(outcomes) {
            assert(outcomes[outcomes.len() - 1] == Err::<T, Refusal>(refusal));
            assert forall|j: int| 0 <= j < outcomes.len() - 1 implies #[trigger] outcomes[
                j
            ] is Ok by {
                assert(start[j] is Ok);
            }
        }
    }
}

/// If some outcome is an error, the first one is that of the whole, whatever is
/// there besides.
pub proof fn first_error_among_present_is_reported<T>(outcomes: Seq<Result<Option<T>, Refusal>>)
    ensures
        collected_present(outcomes) matches Err(refusal) ==> exists|i: int|
            0 <= i < outcomes.len() && #[trigger] outcomes[i] == Err::<Option<T>, Refusal>(refusal)
                && (forall|j: int| 0 <= j < i ==> #[trigger] outcomes[j] is Ok),
    decreases outcomes.len(),
{
    if outcomes.len() > 0 {
        let start = outcomes.drop_last();
        first_error_among_present_is_reported(start);
        every_present_value_is_collected(start);
        if let Err(refusal) = collected_present(start) {
            let i = choose|i: int|
                0 <= i < start.len() && #[trigger] start[i] == Err::<Option<T>, Refusal>(refusal)
                    && (forall|j: int| 0 <= j < i ==> #[trigger] start[j] is Ok);
            assert(outcomes[i] == start[i]);
            assert forall|j: int| 0 <= j < i implies #[trigger] outcomes[j] is Ok by {
                assert(start[j] is Ok);
            }
        } else if let Err(refusal) = collected_present(outcomes) {
            assert(outcomes[outcomes.len() - 1] == Err::<Option<T>, Refusal>(refusal));
            assert forall|j: int| 0 <= j < outcomes.len() - 1 implies #[trigger] outcomes[
                j
            ] is Ok by {
                assert(start[j] is Ok);
            }
        }
    }
}

/// A number asks for itself. A text asks for a number exactly if it is a numeral of
/// one, and is refused with the text and the fault otherwise.
pub proof fn request_asks_for_its_number(request: ValidatorIndexRequest)
    ensures
        match request {
            ValidatorIndexRequest::Number(index) => requested_index(request) == Ok::<u64, Refusal>(
                index,
            ),
            ValidatorIndexRequest::Text(text) => match requested_index(request) {
                Ok(index) => parsed(text@) == Ok::<u64, ParseIntError>(index),
                Err(refusal) => parsed(text@) matches Err(error) && refusal == Refusal::BadRequest(
                    "Invalid validator index `"@ + text@ + "`: "@ + error.spec_message(),
                ),
            },
        },
{
}

} // verus!
