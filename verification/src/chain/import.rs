//! Importing blocks into the chain, with the blocks that waited for them.
//!
//! Fork choice judges each block outside of this crate. A [`BlockImport`] says
//! what to do next and is told what came of it.
use vstd::prelude::*;

use crate::availability::checker::{after_column, DataAvailabilityChecker};
use crate::availability::pending::PendingBlock;
use crate::beacon::{header_root, Attestation, SignedBeaconBlock};
use crate::bytes::B256;

verus! {

/// What fork choice made of a block.
#[derive(Debug, Clone, Copy, PartialEq, Eq, Structural)]
pub enum OnBlockOutcome {
    Imported,
    PendingAvailability,
    PendingParent,
}

/// What to do next for the block at the head of an import.
#[derive(Debug, Clone, Copy, PartialEq, Eq, Structural)]
pub enum ImportStep {
    /// Import the block, whose data has become available, with its state.
    Import,
    /// Let fork choice judge the block.
    Judge,
    /// Hand the attestation at this position to fork choice.
    Attest(usize),
    /// Tell subscribers of the block.
    Announce,
    /// Take the blocks that waited for the block.
    Collect,
    /// Keep the block until its parent is imported.
    Park,
    /// Nothing: all blocks are done.
    Finished,
    /// Nothing: the import was given up.
    Failed,
}

/// What came of a step.
#[derive(Debug)]
pub enum ImportAnswer<Error> {
    Imported(Result<(), Error>),
    Judged(Result<OnBlockOutcome, Error>),
    Attested(Result<(), Error>),
    Announced(Result<(), Error>),
    Collected(Vec<SignedBeaconBlock>),
    Parked,
}

/// The mathematical value of a [`BlockImport`]: the blocks that are left, first
/// the one that `step` is about.
#[verifier::ext_equal]
pub struct Progress {
    pub blocks: Seq<SignedBeaconBlock>,
    pub step: ImportStep,
}

/// Whether a step is the last one.
pub open spec fn is_over(step: ImportStep) -> bool {
    step is Finished || step is Failed
}

/// Whether an answer is one to the step that was asked for.
pub open spec fn answers<Error>(step: ImportStep, answer: ImportAnswer<Error>) -> bool {
    match answer {
        ImportAnswer::Imported(_) => step is Import,
        ImportAnswer::Judged(_) => step is Judge,
        ImportAnswer::Attested(_) => step is Attest,
        ImportAnswer::Announced(_) => step is Announce,
        ImportAnswer::Collected(_) => step is Collect,
        ImportAnswer::Parked => step is Park,
    }
}

/// The error that gives up an import. One from an attestation does not.
pub open spec fn failure<Error>(answer: ImportAnswer<Error>) -> Option<Error> {
    match answer {
        ImportAnswer::Imported(Err(error)) => Some(error),
        ImportAnswer::Judged(Err(error)) => Some(error),
        ImportAnswer::Announced(Err(error)) => Some(error),
        _ => None,
    }
}

/// Turns to the first of the blocks that are left.
pub open spec fn turn_to(blocks: Seq<SignedBeaconBlock>) -> Progress {
    Progress {
        blocks,
        step: if blocks.len() == 0 {
            ImportStep::Finished
        } else {
            ImportStep::Judge
        },
    }
}

/// The first block is imported and its attestations before `next` are handed on.
pub open spec fn imported(blocks: Seq<SignedBeaconBlock>, next: int) -> Progress {
    Progress {
        blocks,
        step: if next < blocks[0].message.body.attestations@.len() {
            ImportStep::Attest(next as usize)
        } else {
            ImportStep::Announce
        },
    }
}

/// An import that was given up.
pub open spec fn given_up() -> Progress {
    Progress { blocks: Seq::empty(), step: ImportStep::Failed }
}

/// The progress after an answer.
pub open spec fn after_answer<Error>(progress: Progress, answer: ImportAnswer<Error>) -> Progress {
    let blocks = progress.blocks;
    if failure(answer) is Some {
        given_up()
    } else {
        match answer {
            ImportAnswer::Imported(_) => imported(blocks, 0),
            ImportAnswer::Judged(Ok(OnBlockOutcome::Imported)) => imported(blocks, 0),
            ImportAnswer::Judged(Ok(OnBlockOutcome::PendingAvailability)) => turn_to(
                blocks.skip(1),
            ),
            ImportAnswer::Judged(_) => Progress { blocks, step: ImportStep::Park },
            ImportAnswer::Attested(_) => imported(blocks, progress.step->Attest_0 + 1),
            ImportAnswer::Announced(_) => Progress { blocks, step: ImportStep::Collect },
            ImportAnswer::Collected(children) => turn_to(blocks.skip(1) + children@),
            ImportAnswer::Parked => turn_to(blocks.skip(1)),
        }
    }
}

/// The progress after several answers.
pub open spec fn after_answers<Error>(
    progress: Progress,
    answers: Seq<ImportAnswer<Error>>,
) -> Progress
    decreases answers.len(),
{
    if answers.len() == 0 {
        progress
    } else {
        after_answer(after_answers(progress, answers.drop_last()), answers.last())
    }
}

/// A block on its way into the chain, followed by the blocks that waited for it.
///
/// Blocks are taken in order. An imported block has its attestations handed to
/// fork choice and is announced; the blocks that waited for it join the end.
/// A block that lacks its parent is parked, one that lacks data is left alone.
#[derive(Debug)]
pub struct BlockImport {
    blocks: Vec<SignedBeaconBlock>,
    step: ImportStep,
}

impl View for BlockImport {
    type V = Progress;

    closed spec fn view(&self) -> Progress {
        Progress { blocks: self.blocks@, step: self.step }
    }
}

impl BlockImport {
    /// Blocks are left until the import is over, and an attestation that is asked
    /// for is there.
    pub open spec fn wf(&self) -> bool {
        &&& self@.blocks.len() == 0 <==> is_over(self@.step)
        &&& self@.step matches ImportStep::Attest(next) ==> next
            < self@.blocks[0].message.body.attestations@.len()
    }

    /// Starts with a block that fork choice has to judge.
    fn of_block(signed_block: SignedBeaconBlock) -> (import: Self)
        ensures
            import.wf(),
            import@ == turn_to(seq![signed_block]),
    {
        let mut blocks: Vec<SignedBeaconBlock> = Vec::new();
        blocks.push(signed_block);
        assert(blocks@ =~= seq![signed_block]);
        BlockImport { blocks, step: ImportStep::Judge }
    }

    /// Starts with a block whose data has become available.
    fn of_available_block(signed_block: SignedBeaconBlock) -> (import: Self)
        ensures
            import.wf(),
            import@ == (Progress { blocks: seq![signed_block], step: ImportStep::Import }),
    {
        let mut blocks: Vec<SignedBeaconBlock> = Vec::new();
        blocks.push(signed_block);
        assert(blocks@ =~= seq![signed_block]);
        BlockImport { blocks, step: ImportStep::Import }
    }

    /// What to do next.
    pub fn step(&self) -> (step: ImportStep)
        ensures
            step == self@.step,
    {
        self.step
    }

    /// The block that the step is about.
    pub fn block(&self) -> (block: &SignedBeaconBlock)
        requires
            self.wf(),
            !is_over(self@.step),
        ensures
            *block == self@.blocks[0],
    {
        &self.blocks[0]
    }

    /// Whether fork choice must see the data of the block that it judges: blocks
    /// older than `oldest_slot` are taken without.
    pub fn verifies_availability(&self, oldest_slot: u64) -> (verifies: bool)
        requires
            self.wf(),
            self@.step is Judge,
        ensures
            verifies == (self@.blocks[0].message.slot >= oldest_slot),
    {
        self.blocks[0].message.slot >= oldest_slot
    }

    /// The attestation to hand to fork choice.
    pub fn attestation(&self) -> (attestation: Option<&Attestation>)
        requires
            self.wf(),
        ensures
            match self@.step {
                ImportStep::Attest(next) => attestation == Some(
                    &self@.blocks[0].message.body.attestations@[next as int],
                ),
                _ => attestation is None,
            },
    {
        match self.step {
            ImportStep::Attest(next) => Some(&self.blocks[0].message.body.attestations[next]),
            _ => None,
        }
    }

    /// The root under which blocks waited for the block.
    pub fn collects_from(&self) -> (root: B256)
        requires
            self.wf(),
            self@.step is Collect,
        ensures
            root.0@ == header_root(self@.blocks[0].message.spec_header()),
    {
        self.blocks[0].message.tree_hash_root()
    }

    /// The root under which the block waits for its parent.
    pub fn parks_under(&self) -> (root: B256)
        requires
            self.wf(),
            self@.step is Park,
        ensures
            root == self@.blocks[0].message.parent_root,
    {
        self.blocks[0].message.parent_root
    }

    /// Goes on by what came of the step. An error gives up the import with all
    /// blocks that are left, and is handed back.
    pub fn answer<Error>(&mut self, answer: ImportAnswer<Error>) -> (result: Result<(), Error>)
        requires
            old(self).wf(),
            answers(old(self)@.step, answer),
        ensures
            final(self).wf(),
            final(self)@ == after_answer(old(self)@, answer),
            match failure(answer) {
                Some(error) => result == Err::<(), Error>(error),
                None => result == Ok::<(), Error>(()),
            },
    {
        match answer {
            ImportAnswer::Imported(Err(error)) => {
                return self.give_up(error);
            },
            ImportAnswer::Judged(Err(error)) => {
                return self.give_up(error);
            },
            ImportAnswer::Announced(Err(error)) => {
                return self.give_up(error);
            },
            ImportAnswer::Imported(Ok(())) => {
                self.attest_from(0);
            },
            ImportAnswer::Judged(Ok(outcome)) => match outcome {
                OnBlockOutcome::Imported => {
                    self.attest_from(0);
                },
                OnBlockOutcome::PendingAvailability => {
                    let mut children: Vec<SignedBeaconBlock> = Vec::new();
                    self.take_next(&mut children);
                },
                OnBlockOutcome::PendingParent => {
                    self.step = ImportStep::Park;
                },
            },
            ImportAnswer::Attested(_) => {
                if let ImportStep::Attest(next) = self.step {
                    assert(next < self.blocks[0].message.body.attestations.len());
                    self.attest_from(next + 1);
                }
            },
            ImportAnswer::Announced(Ok(())) => {
                self.step = ImportStep::Collect;
            },
            ImportAnswer::Collected(children) => {
                let mut children = children;
                self.take_next(&mut children);
            },
            ImportAnswer::Parked => {
                let mut children: Vec<SignedBeaconBlock> = Vec::new();
                self.take_next(&mut children);
            },
        }
        Ok(())
    }

    /// Gives up the import.
    fn give_up<Error>(&mut self, error: Error) -> (result: Result<(), Error>)
        ensures
            final(self).wf(),
            final(self)@ == given_up(),
            result == Err::<(), Error>(error),
    {
        self.blocks = Vec::new();
        self.step = ImportStep::Failed;
        assert(self.blocks@ =~= Seq::empty());
        Err(error)
    }

    /// Asks for the attestation at `next`, or for the announcement after the last.
    fn attest_from(&mut self, next: usize)
        requires
            old(self)@.blocks.len() > 0,
        ensures
            final(self).wf(),
            final(self)@ == imported(old(self)@.blocks, next as int),
    {
        if next < self.blocks[0].message.body.attestations.len() {
            self.step = ImportStep::Attest(next);
        } else {
            self.step = ImportStep::Announce;
        }
    }

    /// Leaves the first block, appends `children` and turns to what is first now.
    fn take_next(&mut self, children: &mut Vec<SignedBeaconBlock>)
        requires
            old(self)@.blocks.len() > 0,
        ensures
            final(self).wf(),
            final(self)@ == turn_to(old(self)@.blocks.skip(1) + old(children)@),
    {
        let ghost blocks = self.blocks@;
        self.blocks.remove(0);
        self.blocks.append(children);
        assert(self.blocks@ =~= blocks.skip(1) + old(children)@);
        if self.blocks.len() == 0 {
            self.step = ImportStep::Finished;
        } else {
            self.step = ImportStep::Judge;
        }
    }
}

/// The node's local chain, as far as this crate decides for it: what waits for
/// its data, and what is imported when.
#[derive(Debug)]
pub struct BeaconChain<State> {
    pub data_availability_checker: DataAvailabilityChecker<State>,
}

impl<State> BeaconChain<State> {
    /// A chain that waits for data by `data_availability_checker`.
    pub fn new(data_availability_checker: DataAvailabilityChecker<State>) -> (chain: Self)
        ensures
            chain.data_availability_checker == data_availability_checker,
    {
        BeaconChain { data_availability_checker }
    }

    /// Imports a block, and then the blocks that waited for it.
    pub fn process_block(&self, signed_block: SignedBeaconBlock) -> (import: BlockImport)
        ensures
            import.wf(),
            import@ == turn_to(seq![signed_block]),
            import@.blocks == seq![signed_block],
            import@.step == ImportStep::Judge,
    {
        BlockImport::of_block(signed_block)
    }

    /// Records a column. If it was the last one that its block needed, returns the
    /// import of the block and of those that waited for it, with the block's state.
    /// Columns are kept by root, so the column's slot plays no part.
    pub fn process_data_column_sidecar(
        &mut self,
        block_root: B256,
        column_index: u64,
        _slot: u64,
    ) -> (import: Option<(BlockImport, State)>)
        requires
            old(self).data_availability_checker.wf(),
        ensures
            final(self).data_availability_checker.wf(),
            final(self).data_availability_checker.required() == old(
                self,
            ).data_availability_checker.required(),
            ({
                let (entries, released) = after_column(
                    old(self).data_availability_checker.required(),
                    old(self).data_availability_checker.entries(),
                    block_root,
                    column_index,
                );
                &&& final(self).data_availability_checker.entries() == entries
                &&& match released {
                    Some(pending) => import matches Some(import) && import.0.wf() && import.0@ == (
                    Progress { blocks: seq![pending.signed_block], step: ImportStep::Import })
                        && import.1 == pending.post_state,
                    None => import is None,
                }
            }),
    {
        match self.data_availability_checker.add_column(block_root, column_index) {
            Some(pending) => Some(Self::import_available_block_and_process_children(pending)),
            None => None,
        }
    }

    /// Imports a block whose data has become available, and then the blocks that
    /// waited for it. Returns the import with the block's state.
    pub fn import_available_block_and_process_children(pending: PendingBlock<State>) -> (import: (
        BlockImport,
        State,
    ))
        ensures
            import.0.wf(),
            import.0@ == (Progress {
                blocks: seq![pending.signed_block],
                step: ImportStep::Import,
            }),
            import.1 == pending.post_state,
    {
        (BlockImport::of_available_block(pending.signed_block), pending.post_state)
    }
}

/// An imported block has all its attestations handed on, whatever comes of them,
/// is announced, and is followed by the blocks in line before those that waited
/// for it.
pub proof fn imported_block_runs_through<Error>(
    blocks: Seq<SignedBeaconBlock>,
    attested: Seq<ImportAnswer<Error>>,
    children: Vec<SignedBeaconBlock>,
)
    requires
        blocks.len() > 0,
        attested.len() == blocks[0].message.body.attestations@.len(),
        attested.len() <= usize::MAX,
        forall|i: int| 0 <= i < attested.len() ==> #[trigger] attested[i] is Attested,
    ensures
        ({
            let judged = ImportAnswer::<Error>::Judged(Ok(OnBlockOutcome::Imported));
            let ended = seq![ImportAnswer::Announced(Ok(())), ImportAnswer::Collected(children)];
            after_answers(turn_to(blocks), seq![judged] + attested + ended) == turn_to(
                blocks.skip(1) + children@,
            )
        }),
{
    let judged = ImportAnswer::<Error>::Judged(Ok(OnBlockOutcome::Imported));
    let announced = ImportAnswer::<Error>::Announced(Ok(()));
    let collected = ImportAnswer::<Error>::Collected(children);
    let started = seq![judged] + attested;
    lemma_attestations(blocks, attested);
    assert((started + seq![announced, collected]).drop_last() =~= started.push(announced));
    assert(started.push(announced).drop_last() =~= started);
    assert(started.push(announced).last() == announced);
    assert(after_answers(turn_to(blocks), started.push(announced)) == (Progress {
        blocks,
        step: ImportStep::Collect,
    }));
    assert((started + seq![announced, collected]).last() == collected);
}

/// After an import and answers on its first attestations, the next one is due.
proof fn lemma_attestations<Error>(
    blocks: Seq<SignedBeaconBlock>,
    attested: Seq<ImportAnswer<Error>>,
)
    requires
        blocks.len() > 0,
        attested.len() <= blocks[0].message.body.attestations@.len(),
        attested.len() <= usize::MAX,
        forall|i: int| 0 <= i < attested.len() ==> #[trigger] attested[i] is Attested,
    ensures
        after_answers(
            turn_to(blocks),
            seq![ImportAnswer::<Error>::Judged(Ok(OnBlockOutcome::Imported))] + attested,
        ) == imported(blocks, attested.len() as int),
    decreases attested.len(),
{
    let judged = ImportAnswer::<Error>::Judged(Ok(OnBlockOutcome::Imported));
    let started = seq![judged] + attested;
    if attested.len() == 0 {
        assert(started =~= seq![judged]);
        assert(started.drop_last() =~= Seq::empty());
        assert(after_answers(turn_to(blocks), started.drop_last()) == turn_to(blocks));
    } else {
        lemma_attestations(blocks, attested.drop_last());
        assert(started.drop_last() =~= seq![judged] + attested.drop_last());
        assert(started.last() == attested.last());
    }
}

/// Only a block that was imported goes on to its attestations, its announcement
/// and the blocks that waited for it.
pub proof fn only_imported_blocks_go_on<Error>(progress: Progress, answer: ImportAnswer<Error>)
    requires
        answers(progress.step, answer),
    ensures
        ({
            let after = after_answer(progress, answer);
            after.step is Attest || after.step is Announce || after.step is Collect ==> {
                &&& after.blocks == progress.blocks
                &&& progress.step is Attest || progress.step is Announce || answer
                    matches ImportAnswer::Imported(Ok(())) || answer == ImportAnswer::<
                    Error,
                >::Judged(Ok(OnBlockOutcome::Imported))
            }
        }),
{
}

/// Blocks keep their turn: as long as nothing fails, the blocks behind the first
/// one stay in order, and others only join behind them.
pub proof fn blocks_keep_their_turn<Error>(progress: Progress, answer: ImportAnswer<Error>)
    requires
        progress.blocks.len() > 0,
        failure(answer) is None,
    ensures
        ({
            let after = after_answer(progress, answer);
            let behind = progress.blocks.skip(1);
            ||| after.blocks == progress.blocks
            ||| after.blocks == behind
            ||| answer matches ImportAnswer::Collected(children) && after.blocks == behind
                + children@
        }),
{
}

/// A block that lacks its parent or its data brings in no other block.
pub proof fn waiting_block_collects_nothing<Error>(
    blocks: Seq<SignedBeaconBlock>,
    outcome: OnBlockOutcome,
)
    requires
        blocks.len() > 0,
        outcome !is Imported,
    ensures
        ({
            let judged = ImportAnswer::<Error>::Judged(Ok(outcome));
            let left = after_answer(turn_to(blocks), judged);
            match outcome {
                OnBlockOutcome::PendingParent => left.step is Park && after_answer(
                    left,
                    ImportAnswer::<Error>::Parked,
                ) == turn_to(blocks.skip(1)),
                _ => left == turn_to(blocks.skip(1)),
            }
        }),
{
}

/// From a released block or from one that fork choice took, every attestation of
/// the block is asked for once, from the first to the last, whatever comes of them.
/// Then the block is announced, and the blocks that waited for it are collected.
/// They follow behind the blocks in line, and the import ends if none is left.
pub proof fn every_attestation_is_asked_for_in_order<Error>(
    blocks: Seq<SignedBeaconBlock>,
    released: bool,
    attested: Seq<ImportAnswer<Error>>,
    children: Vec<SignedBeaconBlock>,
)
    requires
        blocks.len() > 0,
        attested.len() == blocks[0].message.body.attestations@.len(),
        attested.len() <= usize::MAX,
        forall|i: int| 0 <= i < attested.len() ==> #[trigger] attested[i] is Attested,
    ensures
        ({
            let count = blocks[0].message.body.attestations@.len();
            let start = Progress {
                blocks,
                step: if released {
                    ImportStep::Import
                } else {
                    ImportStep::Judge
                },
            };
            let taken = if released {
                ImportAnswer::<Error>::Imported(Ok(()))
            } else {
                ImportAnswer::<Error>::Judged(Ok(OnBlockOutcome::Imported))
            };
            let announced = (seq![taken] + attested).push(ImportAnswer::Announced(Ok(())));
            let collected = announced.push(ImportAnswer::Collected(children));
            let left = blocks.skip(1) + children@;
            &&& forall|done: int|
                0 <= done <= count ==> #[trigger] after_answers(
                    start,
                    seq![taken] + attested.take(done),
                ) == (Progress {
                    blocks,
                    step: if done < count {
                        ImportStep::Attest(done as usize)
                    } else {
                        ImportStep::Announce
                    },
                })
            &&& after_answers(start, announced) == (Progress { blocks, step: ImportStep::Collect })
            &&& after_answers(start, collected) == (Progress {
                blocks: left,
                step: if left.len() == 0 {
                    ImportStep::Finished
                } else {
                    ImportStep::Judge
                },
            })
        }),
{
    let count = blocks[0].message.body.attestations@.len();
    let start = Progress {
        blocks,
        step: if released {
            ImportStep::Import
        } else {
            ImportStep::Judge
        },
    };
    let taken = if released {
        ImportAnswer::<Error>::Imported(Ok(()))
    } else {
        ImportAnswer::<Error>::Judged(Ok(OnBlockOutcome::Imported))
    };
    assert forall|done: int| 0 <= done <= count implies #[trigger] after_answers(
        start,
        seq![taken] + attested.take(done),
    ) == (Progress {
        blocks,
        step: if done < count {
            ImportStep::Attest(done as usize)
        } else {
            ImportStep::Announce
        },
    }) by {
        lemma_attestation_due(start, taken, attested.take(done));
    }
    let through = seq![taken] + attested;
    assert(attested.take(count as int) =~= attested);
    assert(after_answers(start, seq![taken] + attested.take(count as int)) == (Progress {
        blocks,
        step: ImportStep::Announce,
    }));
    let announcement = ImportAnswer::<Error>::Announced(Ok(()));
    let announced = through.push(announcement);
    assert(announced.drop_last() =~= through);
    assert(announced.last() == announcement);
    let collection = ImportAnswer::<Error>::Collected(children);
    let collected = announced.push(collection);
    assert(collected.drop_last() =~= announced);
    assert(collected.last() == collection);
}

/// After a block was taken and answers on its first attestations, the next one is
/// due.
proof fn lemma_attestation_due<Error>(
    start: Progress,
    taken: ImportAnswer<Error>,
    attested: Seq<ImportAnswer<Error>>,
)
    requires
        start.blocks.len() > 0,
        taken == ImportAnswer::<Error>::Imported(Ok(())) || taken == ImportAnswer::<Error>::Judged(
            Ok(OnBlockOutcome::Imported),
        ),
        attested.len() <= start.blocks[0].message.body.attestations@.len(),
        attested.len() <= usize::MAX,
        forall|i: int| 0 <= i < attested.len() ==> #[trigger] attested[i] is Attested,
    ensures
        after_answers(start, seq![taken] + attested) == (Progress {
            blocks: start.blocks,
            step: if attested.len() < start.blocks[0].message.body.attestations@.len() {
                ImportStep::Attest(attested.len() as usize)
            } else {
                ImportStep::Announce
            },
        }),
    decreases attested.len(),
{
    let answers = seq![taken] + attested;
    if attested.len() == 0 {
        assert(answers =~= seq![taken]);
        assert(answers.drop_last() =~= Seq::empty());
        assert(after_answers(start, answers.drop_last()) == start);
    } else {
        lemma_attestation_due(start, taken, attested.drop_last());
        assert(answers.drop_last() =~= seq![taken] + attested.drop_last());
        assert(answers.last() == attested.last());
    }
}

/// An import is given up, with all blocks that are left, exactly if a released
/// block cannot be imported, fork choice refuses a block or an announcement fails.
pub proof fn import_is_given_up_only_by_its_own_errors<Error>(
    progress: Progress,
    answer: ImportAnswer<Error>,
)
    requires
        progress.blocks.len() > 0,
        answers(progress.step, answer),
    ensures
        ({
            let after = after_answer(progress, answer);
            let refused = match answer {
                ImportAnswer::Imported(Err(_)) => true,
                ImportAnswer::Judged(Err(_)) => true,
                ImportAnswer::Announced(Err(_)) => true,
                _ => false,
            };
            &&& after.step is Failed <==> refused
            &&& failure(answer) is Some <==> refused
            &&& refused ==> after.blocks == Seq::<SignedBeaconBlock>::empty()
            &&& answer matches ImportAnswer::Imported(Err(error)) ==> failure(answer) == Some(error)
            &&& answer matches ImportAnswer::Judged(Err(error)) ==> failure(answer) == Some(error)
            &&& answer matches ImportAnswer::Announced(Err(error)) ==> failure(answer) == Some(
                error,
            )
        }),
{
}

/// A block without data is left alone and one without its parent is parked; either
/// way the next block in line is judged, and the import ends if there is none.
pub proof fn waiting_block_gives_way_to_the_next<Error>(
    blocks: Seq<SignedBeaconBlock>,
    outcome: OnBlockOutcome,
)
    requires
        blocks.len() > 0,
        outcome !is Imported,
    ensures
        ({
            let start = Progress { blocks, step: ImportStep::Judge };
            let judged = after_answer(start, ImportAnswer::<Error>::Judged(Ok(outcome)));
            let next = Progress {
                blocks: blocks.skip(1),
                step: if blocks.len() == 1 {
                    ImportStep::Finished
                } else {
                    ImportStep::Judge
                },
            };
            &&& outcome is PendingAvailability ==> judged == next
            &&& outcome is PendingParent ==> judged == (Progress { blocks, step: ImportStep::Park })
            &&& outcome is PendingParent ==> after_answer(judged, ImportAnswer::<Error>::Parked)
                == next
        }),
{
}

/// Answers fit the step that was asked for, and no other; nothing fits a step after
/// which nothing is left to do.
pub proof fn only_the_asked_step_is_answered<Error>(step: ImportStep, answer: ImportAnswer<Error>)
    ensures
        answers(step, answer) <==> match step {
            ImportStep::Import => answer is Imported,
            ImportStep::Judge => answer is Judged,
            ImportStep::Attest(_) => answer is Attested,
            ImportStep::Announce => answer is Announced,
            ImportStep::Collect => answer is Collected,
            ImportStep::Park => answer is Parked,
            ImportStep::Finished => false,
            ImportStep::Failed => false,
        },
        is_over(step) <==> step == ImportStep::Finished || step == ImportStep::Failed,
{
}

} // verus!
