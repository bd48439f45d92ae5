//! Finding the block and the state that duties are computed from.
use vstd::prelude::*;

use crate::bytes::B256;
use crate::duties::api::{ApiError, Refusal};
use crate::text::{append_decimal, decimal};

verus! {

/// The search for the latest block at or before a slot. The caller looks the
/// candidate slot up in the slot index and hands the answer back.
#[derive(Debug, Clone, Copy, PartialEq, Eq, Structural)]
pub struct BlockRootSearch {
    slot: u64,
    candidate: u64,
}

/// What a search does with the answer for its candidate slot.
pub enum SearchStep {
    /// Look up the slot before.
    Continue,
    Found(B256),
    Refused(Refusal),
}

/// What a search from `slot` does with the answer for `candidate`.
pub open spec fn search_step(
    slot: u64,
    candidate: u64,
    answer: Result<Option<B256>, Seq<char>>,
) -> SearchStep {
    match answer {
        Err(error) => SearchStep::Refused(
            Refusal::InternalError(
                "Failed to get block root for slot "@ + decimal(candidate as nat) + ", error: "@
                    + error,
            ),
        ),
        Ok(Some(root)) => SearchStep::Found(root),
        Ok(None) => if candidate == 0 {
            SearchStep::Refused(no_block(slot))
        } else {
            SearchStep::Continue
        },
    }
}

/// The refusal if no block is found.
pub open spec fn no_block(slot: u64) -> Refusal {
    Refusal::NotFound("Failed to find block root at or before slot "@ + decimal(slot as nat))
}

impl BlockRootSearch {
    /// The slot from which the search started.
    pub closed spec fn slot(self) -> u64 {
        self.slot
    }

    /// The slot to look up next.
    pub closed spec fn spec_candidate(self) -> u64 {
        self.candidate
    }

    /// A search for the latest block at or before `slot`.
    pub fn new(slot: u64) -> (search: BlockRootSearch)
        ensures
            search.slot() == slot,
            search.spec_candidate() == slot,
    {
        BlockRootSearch { slot, candidate: slot }
    }

    /// The slot to look up next.
    pub fn candidate(&self) -> (slot: u64)
        ensures
            slot == self.spec_candidate(),
    {
        self.candidate
    }

    /// Takes in what the slot index holds for the candidate. Returns the outcome
    /// of the search, or `None` if the search goes on with the slot before.
    pub fn answer(&mut self, found: Result<Option<B256>, String>) -> (outcome: Option<
        Result<B256, ApiError>,
    >)
        ensures
            final(self).slot() == old(self).slot(),
            ({
                let step = search_step(
                    old(self).slot(),
                    old(self).spec_candidate(),
                    match found {
                        Ok(root) => Ok(root),
                        Err(error) => Err(error@),
                    },
                );
                match outcome {
                    None => step is Continue && final(self).spec_candidate() == old(
                        self,
                    ).spec_candidate() - 1,
                    Some(Ok(root)) => step == SearchStep::Found(root),
                    Some(Err(error)) => step == SearchStep::Refused(error@),
                }
            }),
            outcome is Some ==> final(self).spec_candidate() == old(self).spec_candidate(),
    {
        match found {
            Err(error) => {
                let mut text = "Failed to get block root for slot ".to_owned();
                append_decimal(&mut text, self.candidate);
                text.append(", error: ");
                text.append(error.as_str());
                Some(Err(ApiError::InternalError(text)))
            },
            Ok(Some(root)) => Some(Ok(root)),
            Ok(None) => {
                if self.candidate == 0 {
                    let mut text = "Failed to find block root at or before slot ".to_owned();
                    append_decimal(&mut text, self.slot);
                    return Some(Err(ApiError::NotFound(text)));
                }
                self.candidate = self.candidate - 1;
                None
            },
        }
    }
}

/// The outcome of a search whose answers come from a slot index.
pub open spec fn search(slot: u64, candidate: u64, index: Map<u64, B256>) -> Result<B256, Refusal>
    decreases candidate,
{
    let answer = if index.contains_key(candidate) {
        Some(index[candidate])
    } else {
        None
    };
    match search_step(slot, candidate, Ok(answer)) {
        SearchStep::Found(root) => Ok(root),
        SearchStep::Refused(refusal) => Err(refusal),
        SearchStep::Continue => if candidate == 0 {
            Err(no_block(slot))
        } else {
            search(slot, (candidate - 1) as u64, index)
        },
    }
}

/// A search finds the block with the highest slot at or before the one asked
/// for, and fails exactly if there is none.
pub proof fn search_finds_the_latest_block(slot: u64, index: Map<u64, B256>)
    ensures
        match search(slot, slot, index) {
            Ok(root) => exists|found: u64|
                found <= slot && #[trigger] index.contains_key(found) && index[found] == root && (
                forall|later: u64| found < later <= slot ==> !#[trigger] index.contains_key(later)),
            Err(refusal) => refusal == no_block(slot) && forall|earlier: u64|
                earlier <= slot ==> !#[trigger] index.contains_key(earlier),
        },
{
    lemma_search(slot, slot, index);
}

/// What a search finds from a candidate on.
proof fn lemma_search(slot: u64, candidate: u64, index: Map<u64, B256>)
    ensures
        match search(slot, candidate, index) {
            Ok(root) => exists|found: u64|
                found <= candidate && #[trigger] index.contains_key(found) && index[found] == root
                    && (forall|later: u64|
                    found < later <= candidate ==> !#[trigger] index.contains_key(later)),
            Err(refusal) => refusal == no_block(slot) && forall|earlier: u64|
                earlier <= candidate ==> !#[trigger] index.contains_key(earlier),
        },
    decreases candidate,
{
    if !index.contains_key(candidate) && candidate > 0 {
        lemma_search(slot, (candidate - 1) as u64, index);
        if search(slot, candidate, index) is Ok {
            let root = search(slot, candidate, index)->Ok_0;
            let found = choose|found: u64|
                found <= candidate - 1 && #[trigger] index.contains_key(found) && index[found]
                    == root && (forall|later: u64|
                    found < later <= candidate - 1 ==> !#[trigger] index.contains_key(later));
            assert(index.contains_key(found));
        }
    }
}

/// What to do with a state that was found.
#[derive(Debug, Clone, Copy, PartialEq, Eq, Structural)]
pub enum StateUse {
    /// The state is at the slot asked for, or later.
    Ready,
    /// The state must first be advanced to the slot asked for.
    Advance,
}

/// The use of a state for `slot`. `found` is the slot of the stored state, and
/// `advanced` what advancing it gave, if that was tried.
pub open spec fn state_use(
    slot: u64,
    found: Result<Option<u64>, Seq<char>>,
    advanced: Option<Result<(), Seq<char>>>,
) -> Result<StateUse, Refusal> {
    match found {
        Err(error) => Err(
            Refusal::InternalError(
                "Failed to get beacon state by block root, error: "@ + error,
            ),
        ),
        Ok(None) => Err(
            Refusal::NotFound("Failed to find beacon state for slot "@ + decimal(slot as nat)),
        ),
        Ok(Some(state_slot)) => if state_slot >= slot {
            Ok(StateUse::Ready)
        } else {
            match advanced {
                None => Ok(StateUse::Advance),
                Some(Ok(_)) => Ok(StateUse::Ready),
                Some(Err(error)) => Err(Refusal::BadRequest(error)),
            }
        },
    }
}

/// Decides on the use of a state for `slot`. `found` is the slot of the state
/// stored for the block that was found, and `advanced` what advancing it gave,
/// if that was tried.
pub fn use_state(
    slot: u64,
    found: &Result<Option<u64>, String>,
    advanced: &Option<Result<(), String>>,
) -> (usage: Result<StateUse, ApiError>)
    ensures
        ({
            let outcome = state_use(
                slot,
                match *found {
                    Ok(state_slot) => Ok(state_slot),
                    Err(error) => Err(error@),
                },
                match *advanced {
                    None => None,
                    Some(Ok(_)) => Some(Ok(())),
                    Some(Err(error)) => Some(Err(error@)),
                },
            );
            match usage {
                Ok(usage) => outcome == Ok::<StateUse, Refusal>(usage),
                Err(error) => outcome == Err::<StateUse, Refusal>(error@),
            }
        }),
{
    match found {
        Err(error) => {
            let mut text = "Failed to get beacon state by block root, error: ".to_owned();
            text.append(error.as_str());
            Err(ApiError::InternalError(text))
        },
        Ok(None) => {
            let mut text = "Failed to find beacon state for slot ".to_owned();
            append_decimal(&mut text, slot);
            Err(ApiError::NotFound(text))
        },
        Ok(Some(state_slot)) => {
            if *state_slot >= slot {
                return Ok(StateUse::Ready);
            }
            match advanced {
                None => Ok(StateUse::Advance),
                Some(Ok(_)) => Ok(StateUse::Ready),
                Some(Err(error)) => Err(ApiError::BadRequest(error.clone())),
            }
        },
    }
}

/// A search ends with the block of its candidate slot, or with an error that names
/// that slot. Without a block it goes on to the slot before, and only below slot
/// zero it fails, naming the slot from which it started.
pub proof fn search_steps_back_until_genesis(
    slot: u64,
    candidate: u64,
    answer: Result<Option<B256>, Seq<char>>,
)
    ensures
        match answer {
            Ok(Some(root)) => search_step(slot, candidate, answer) == SearchStep::Found(root),
            Ok(None) => search_step(slot, candidate, answer) == (if candidate > 0 {
                SearchStep::Continue
            } else {
                SearchStep::Refused(
                    Refusal::NotFound(
                        "Failed to find block root at or before slot "@ + decimal(slot as nat),
                    ),
                )
            }),
            Err(error) => search_step(slot, candidate, answer) == SearchStep::Refused(
                Refusal::InternalError(
                    "Failed to get block root for slot "@ + decimal(candidate as nat)
                        + ", error: "@ + error,
                ),
            ),
        },
{
}

/// A stored state is used as it is exactly if it is at or past the slot asked for.
/// An earlier one has to be advanced first, and is used if that succeeds.
pub proof fn earlier_state_is_advanced_first(
    slot: u64,
    found: Result<Option<u64>, Seq<char>>,
    advanced: Option<Result<(), Seq<char>>>,
)
    ensures
        ({
            let usage = state_use(slot, found, advanced);
            &&& usage == Ok::<StateUse, Refusal>(StateUse::Ready) <==> (found matches Ok(
                Some(state_slot),
            ) && (state_slot >= slot || (advanced matches Some(Ok(_)))))
            &&& usage == Ok::<StateUse, Refusal>(StateUse::Advance) <==> (found matches Ok(
                Some(state_slot),
            ) && state_slot < slot && advanced is None)
            &&& usage matches Err(refusal) ==> match found {
                Err(error) => refusal == Refusal::InternalError(
                    "Failed to get beacon state by block root, error: "@ + error,
                ),
                Ok(None) => refusal == Refusal::NotFound(
                    "Failed to find beacon state for slot "@ + decimal(slot as nat),
                ),
                Ok(Some(state_slot)) => state_slot < slot && (advanced matches Some(Err(error))
                    && refusal == Refusal::BadRequest(error)),
            }
        }),
{
}

} // verus!
