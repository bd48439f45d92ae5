//! Holds blocks back until every required data column has arrived.
use std::collections::HashSet;

use vstd::prelude::*;
use vstd::std_specs::iter::IteratorSpec;

use crate::availability::pending::{no_arrivals, Arrivals, PendingAvailability, PendingBlock};
use crate::beacon::{SignedBeaconBlock, NUMBER_OF_COLUMNS};
use crate::bytes::B256;
use crate::root_map::RootMap;

verus! {

broadcast use vstd::std_specs::hash::group_hash_axioms;

/// Collects blocks and columns by block root, and releases a block once all the
/// columns that this node must hold have arrived.
#[derive(Debug)]
pub struct DataAvailabilityChecker<State> {
    entries: RootMap<PendingAvailability<State>>,
    required_columns: HashSet<u64>,
}

/// What has arrived for `root`.
pub open spec fn arrivals<State>(entries: Map<B256, Arrivals<State>>, root: B256) -> Arrivals<
    State,
> {
    if entries.contains_key(root) {
        entries[root]
    } else {
        no_arrivals()
    }
}

/// Whether a block and the data it needs have arrived: a block without blobs
/// needs none, any other needs every required column.
pub open spec fn complete<State>(required: Set<u64>, entry: Arrivals<State>) -> bool {
    entry.pending_block is Some && (
    entry.pending_block->0.signed_block.message.body.blob_kzg_commitments@.len() == 0
        || required.subset_of(entry.received_columns))
}

/// Releases the block of `entry` if it is complete, and keeps the entry otherwise.
pub open spec fn release_or_keep<State>(
    required: Set<u64>,
    entries: Map<B256, Arrivals<State>>,
    root: B256,
    entry: Arrivals<State>,
) -> (Map<B256, Arrivals<State>>, Option<PendingBlock<State>>) {
    if complete(required, entry) {
        (entries.remove(root), entry.pending_block)
    } else {
        (entries.insert(root, entry), None)
    }
}

/// The arrival of a block: the entries afterwards and the block released.
pub open spec fn after_block<State>(
    required: Set<u64>,
    entries: Map<B256, Arrivals<State>>,
    root: B256,
    block: PendingBlock<State>,
) -> (Map<B256, Arrivals<State>>, Option<PendingBlock<State>>) {
    release_or_keep(
        required,
        entries,
        root,
        Arrivals { pending_block: Some(block), ..arrivals(entries, root) },
    )
}

/// The arrival of a column: the entries afterwards and the block released.
pub open spec fn after_column<State>(
    required: Set<u64>,
    entries: Map<B256, Arrivals<State>>,
    root: B256,
    column: u64,
) -> (Map<B256, Arrivals<State>>, Option<PendingBlock<State>>) {
    if required.contains(column) {
        let entry = arrivals(entries, root);
        release_or_keep(
            required,
            entries,
            root,
            Arrivals { received_columns: entry.received_columns.insert(column), ..entry },
        )
    } else {
        (entries, None)
    }
}

/// Whether a column set can be required: it is not empty and every index names
/// a column.
pub open spec fn requirable(columns: Set<u64>) -> bool {
    &&& !columns.is_empty()
    &&& forall|column: u64| #[trigger] columns.contains(column) ==> column < NUMBER_OF_COLUMNS
}

/// Why a column set cannot be required.
#[derive(Debug, Clone, Copy, PartialEq, Eq, Structural)]
pub enum RequiredColumnsError {
    /// The set is empty.
    Empty,
    /// An index names no column.
    OutOfRange,
}

impl RequiredColumnsError {
    /// The sentence that describes the error.
    pub open spec fn spec_message(self) -> Seq<char> {
        match self {
            RequiredColumnsError::Empty =>
                "data availability checker must require at least one column"@,
            RequiredColumnsError::OutOfRange =>
                "data availability checker column set contains an out-of-range index"@,
        }
    }

    /// The sentence that describes the error.
    pub fn message(&self) -> (text: &'static str)
        ensures
            text@ == self.spec_message(),
    {
        match self {
            RequiredColumnsError::Empty =>
                "data availability checker must require at least one column",
            RequiredColumnsError::OutOfRange =>
                "data availability checker column set contains an out-of-range index",
        }
    }
}

impl<State> DataAvailabilityChecker<State> {
    /// What has arrived for each root that is held.
    pub closed spec fn entries(&self) -> Map<B256, Arrivals<State>> {
        self.entries@.map_values(|entry: PendingAvailability<State>| entry@)
    }

    /// The columns that a block with blobs needs.
    pub closed spec fn required(&self) -> Set<u64> {
        self.required_columns@
    }

    /// The roots are distinct, the required set names columns, only required
    /// columns are held, and no complete block is held back.
    pub closed spec fn wf(&self) -> bool {
        &&& self.entries.wf()
        &&& requirable(self.required())
        &&& forall|root: B256| #[trigger]
            self.entries().contains_key(root) ==> self.entries()[root].received_columns.subset_of(
                self.required(),
            ) && !complete(self.required(), self.entries()[root])
    }

    /// A checker that holds blocks back until all of `required_columns` have
    /// arrived.
    pub fn new(required_columns: HashSet<u64>) -> (checker: Self)
        requires
            requirable(required_columns@),
        ensures
            checker.wf(),
            checker.required() == required_columns@,
            checker.entries() == Map::<B256, Arrivals<State>>::empty(),
    {
        let checker = DataAvailabilityChecker { entries: RootMap::new(), required_columns };
        assert(checker.entries() =~= Map::<B256, Arrivals<State>>::empty());
        checker
    }

    /// A checker that holds blocks back until all of `required_columns` have
    /// arrived, if that set can be required.
    pub fn try_new(required_columns: HashSet<u64>) -> (checker: Result<Self, RequiredColumnsError>)
        ensures
            checker is Ok <==> requirable(required_columns@),
            match checker {
                Ok(checker) => {
                    &&& checker.wf()
                    &&& checker.required() == required_columns@
                    &&& checker.entries() == Map::<B256, Arrivals<State>>::empty()
                },
                Err(error) => error == (if required_columns@.is_empty() {
                    RequiredColumnsError::Empty
                } else {
                    RequiredColumnsError::OutOfRange
                }),
            },
    {
        let ghost columns = vstd::std_specs::hash::spec_hash_keys_iter(
            &required_columns,
        ).remaining().unref();
        let mut empty = true;
        let mut in_range = true;
        for column in iter: required_columns.iter()
            invariant
                iter.seq().unref() == columns,
                empty == (iter.index() == 0),
                in_range == forall|i: int|
                    0 <= i < iter.index() ==> #[trigger] columns[i] < NUMBER_OF_COLUMNS,
        {
            assert(*column == columns[iter.index() as int]);
            empty = false;
            in_range = in_range && *column < NUMBER_OF_COLUMNS;
        }
        proof {
            assert(columns.to_set() == required_columns@);
            if columns.len() > 0 {
                assert(required_columns@.contains(columns[0]));
            }
            if in_range {
                assert forall|column: u64| #[trigger]
                    required_columns@.contains(column) implies column < NUMBER_OF_COLUMNS by {
                    let i = choose|i: int| 0 <= i < columns.len() && columns[i] == column;
                    assert(columns[i] < NUMBER_OF_COLUMNS);
                }
            } else {
                let i = choose|i: int|
                    0 <= i < columns.len() && !(#[trigger] columns[i] < NUMBER_OF_COLUMNS);
                assert(required_columns@.contains(columns[i]));
            }
        }
        if empty {
            Err(RequiredColumnsError::Empty)
        } else if !in_range {
            Err(RequiredColumnsError::OutOfRange)
        } else {
            Ok(Self::new(required_columns))
        }
    }

    /// A checker that requires every column.
    pub fn supernode() -> (checker: Self)
        ensures
            checker.wf(),
            checker.required() == Set::new(|column: u64| column < NUMBER_OF_COLUMNS),
            checker.entries() == Map::<B256, Arrivals<State>>::empty(),
    {
        let mut columns: HashSet<u64> = HashSet::new();
        let mut next: u64 = 0;
        while next < NUMBER_OF_COLUMNS
            invariant
                next <= NUMBER_OF_COLUMNS,
                columns@ =~= Set::new(|column: u64| column < next),
            decreases NUMBER_OF_COLUMNS - next,
        {
            columns.insert(next);
            next = next + 1;
        }
        assert(columns@.contains(0));
        Self::new(columns)
    }

    /// Records a block. Returns it at once if its data is already available.
    pub fn insert_pending(
        &mut self,
        block_root: B256,
        signed_block: SignedBeaconBlock,
        post_state: State,
    ) -> (released: Option<PendingBlock<State>>)
        requires
            old(self).wf(),
        ensures
            final(self).wf(),
            final(self).required() == old(self).required(),
            (final(self).entries(), released) == after_block(
                old(self).required(),
                old(self).entries(),
                block_root,
                PendingBlock { signed_block, post_state },
            ),
    {
        let mut entry = self.take_entry(&block_root);
        entry.pending_block = Some(PendingBlock { signed_block, post_state });
        self.take_if_complete(block_root, entry)
    }

    /// Records a column. Returns the block if this was the last column that it
    /// needed. Columns that are not required are not recorded.
    pub fn add_column(&mut self, block_root: B256, column_index: u64) -> (released: Option<
        PendingBlock<State>,
    >)
        requires
            old(self).wf(),
        ensures
            final(self).wf(),
            final(self).required() == old(self).required(),
            (final(self).entries(), released) == after_column(
                old(self).required(),
                old(self).entries(),
                block_root,
                column_index,
            ),
    {
        if !self.required_columns.contains(&column_index) {
            return None;
        }
        let mut entry = self.take_entry(&block_root);
        entry.received_columns.insert(column_index);
        self.take_if_complete(block_root, entry)
    }

    /// Drops what has arrived for a root and returns it.
    pub fn remove(&mut self, block_root: &B256) -> (entry: Option<PendingAvailability<State>>)
        requires
            old(self).wf(),
        ensures
            final(self).wf(),
            final(self).required() == old(self).required(),
            final(self).entries() == old(self).entries().remove(*block_root),
            match entry {
                Some(entry) => old(self).entries().contains_key(*block_root) && entry@
                    == old(self).entries()[*block_root],
                None => !old(self).entries().contains_key(*block_root),
            },
    {
        let entry = self.entries.remove(block_root);
        assert(self.entries() =~= old(self).entries().remove(*block_root));
        entry
    }

    /// Whether a block or a required column has arrived for a root and is held.
    pub fn contains(&self, block_root: &B256) -> (held: bool)
        requires
            self.wf(),
        ensures
            held == self.entries().contains_key(*block_root),
    {
        self.entries.contains_key(block_root)
    }

    /// How many roots are held.
    pub fn len(&self) -> (count: usize)
        requires
            self.wf(),
        ensures
            count == self.entries().len(),
    {
        assert(self.entries().dom() =~= self.entries@.dom());
        self.entries.len()
    }

    /// Whether no root is held.
    pub fn is_empty(&self) -> (empty: bool)
        requires
            self.wf(),
        ensures
            empty == (self.entries() == Map::<B256, Arrivals<State>>::empty()),
    {
        assert(self.entries().dom() =~= self.entries@.dom());
        let count = self.entries.len();
        proof {
            if count == 0 {
                assert(self.entries().dom() =~= Set::<B256>::empty());
                assert(self.entries() =~= Map::<B256, Arrivals<State>>::empty());
            } else {
                assert(self.entries().dom() != Set::<B256>::empty());
            }
        }
        count == 0
    }

    /// The block that is held back under a root.
    pub fn pending_block(&self, block_root: &B256) -> (block: Option<&PendingBlock<State>>)
        requires
            self.wf(),
        ensures
            match block {
                Some(block) => arrivals(self.entries(), *block_root).pending_block == Some(*block),
                None => arrivals(self.entries(), *block_root).pending_block is None,
            },
            block is Some <==> self.entries().contains_key(*block_root)
                && self.entries()[*block_root].pending_block is Some,
            block matches Some(block) ==> self.entries()[*block_root].pending_block == Some(*block),
    {
        match self.entries.get(block_root) {
            Some(entry) => match &entry.pending_block {
                Some(block) => Some(block),
                None => None,
            },
            None => None,
        }
    }

    /// The required columns that have not arrived for a root, in ascending order.
    pub fn missing_columns(&self, block_root: &B256) -> (missing: Vec<u64>)
        requires
            self.wf(),
        ensures
            missing@.to_set() == self.required().difference(
                arrivals(self.entries(), *block_root).received_columns,
            ),
            forall|i: int, j: int| 0 <= i < j < missing@.len() ==> missing@[i] < missing@[j],
            forall|column: u64| #[trigger]
                missing@.contains(column) <==> self.required().contains(column) && !(
                self.entries().contains_key(*block_root)
                    && self.entries()[*block_root].received_columns.contains(column)),
    {
        let ghost received = arrivals(self.entries(), *block_root).received_columns;
        let mut missing: Vec<u64> = Vec::new();
        let mut column: u64 = 0;
        while column < NUMBER_OF_COLUMNS
            invariant
                self.wf(),
                received == arrivals(self.entries(), *block_root).received_columns,
                column <= NUMBER_OF_COLUMNS,
                forall|c: u64| #[trigger]
                    missing@.contains(c) <==> c < column && self.required().contains(c)
                        && !received.contains(c),
                forall|i: int| 0 <= i < missing@.len() ==> missing@[i] < column,
                forall|i: int, j: int| 0 <= i < j < missing@.len() ==> missing@[i] < missing@[j],
            decreases NUMBER_OF_COLUMNS - column,
        {
            let arrived = match self.entries.get(block_root) {
                Some(entry) => entry.received_columns.contains(&column),
                None => false,
            };
            let ghost before = missing@;
            if self.required_columns.contains(&column) && !arrived {
                missing.push(column);
                assert(missing@.last() == column);
            }
            assert forall|c: u64| #[trigger]
                missing@.contains(c) <==> c < column + 1 && self.required().contains(c)
                    && !received.contains(c) by {
                if before.contains(c) {
                    let i = choose|i: int| 0 <= i < before.len() && before[i] == c;
                    assert(missing@[i] == c);
                }
                if missing@.contains(c) && c != column {
                    let i = choose|i: int| 0 <= i < missing@.len() && missing@[i] == c;
                    assert(before[i] == c);
                }
            }
            column = column + 1;
        }
        assert(missing@.to_set() =~= self.required().difference(received));
        missing
    }

    /// Takes out what has arrived for a root.
    fn take_entry(&mut self, block_root: &B256) -> (entry: PendingAvailability<State>)
        requires
            old(self).wf(),
        ensures
            final(self).wf(),
            final(self).required() == old(self).required(),
            final(self).entries() == old(self).entries().remove(*block_root),
            entry@ == arrivals(old(self).entries(), *block_root),
    {
        match self.remove(block_root) {
            Some(entry) => entry,
            None => PendingAvailability::default(),
        }
    }

    /// Releases the block of `entry` if it is complete, and stores the entry
    /// otherwise.
    fn take_if_complete(&mut self, block_root: B256, entry: PendingAvailability<State>) -> (released:
        Option<PendingBlock<State>>)
        requires
            old(self).wf(),
            !old(self).entries().contains_key(block_root),
            entry@.received_columns.subset_of(old(self).required()),
        ensures
            final(self).wf(),
            final(self).required() == old(self).required(),
            (final(self).entries(), released) == release_or_keep(
                old(self).required(),
                old(self).entries(),
                block_root,
                entry@,
            ),
    {
        if self.is_complete(&entry) {
            assert(self.entries().remove(block_root) =~= self.entries());
            return entry.pending_block;
        }
        let ghost kept = entry@;
        self.entries.insert(block_root, entry);
        assert(self.entries() =~= old(self).entries().insert(block_root, kept));
        None
    }

    /// Whether a block and the data it needs have arrived.
    fn is_complete(&self, entry: &PendingAvailability<State>) -> (ready: bool)
        requires
            self.wf(),
        ensures
            ready == complete(self.required(), entry@),
    {
        let pending_block = match &entry.pending_block {
            Some(pending_block) => pending_block,
            None => {
                return false;
            },
        };
        if pending_block.signed_block.message.body.blob_kzg_commitments.len() == 0 {
            return true;
        }
        let mut column: u64 = 0;
        while column < NUMBER_OF_COLUMNS
            invariant
                self.wf(),
                entry.pending_block == Some(*pending_block),
                pending_block.signed_block.message.body.blob_kzg_commitments@.len() != 0,
                column <= NUMBER_OF_COLUMNS,
                forall|c: u64|
                    c < column && #[trigger] self.required().contains(c)
                        ==> entry.received_columns@.contains(c),
            decreases NUMBER_OF_COLUMNS - column,
        {
            if self.required_columns.contains(&column) && !entry.received_columns.contains(
                &column,
            ) {
                assert(self.required().contains(column));
                return false;
            }
            column = column + 1;
        }
        assert(self.required().subset_of(entry.received_columns@));
        true
    }
}

/// The arrival of several columns, one after the other: the entries afterwards
/// and the blocks released on the way.
pub open spec fn after_columns<State>(
    required: Set<u64>,
    entries: Map<B256, Arrivals<State>>,
    root: B256,
    columns: Seq<u64>,
) -> (Map<B256, Arrivals<State>>, Seq<PendingBlock<State>>)
    decreases columns.len(),
{
    if columns.len() == 0 {
        (entries, Seq::empty())
    } else {
        let (before, released) = after_columns(required, entries, root, columns.drop_last());
        let (after, last) = after_column(required, before, root, columns.last());
        (
            after,
            match last {
                Some(block) => released.push(block),
                None => released,
            },
        )
    }
}

/// In every state of a checker, the required set is not empty and names columns,
/// only required columns are held, and no block is held whose data is complete.
pub proof fn held_blocks_are_incomplete<State>(checker: &DataAvailabilityChecker<State>, root: B256)
    requires
        checker.wf(),
    ensures
        requirable(checker.required()),
        checker.entries().contains_key(root) ==> checker.entries()[root].received_columns.subset_of(
            checker.required(),
        ) && !complete(checker.required(), checker.entries()[root]),
{
}

/// A block that is held back has blobs and misses at least one required column.
pub proof fn held_block_misses_a_column<State>(checker: &DataAvailabilityChecker<State>, root: B256)
    requires
        checker.wf(),
        arrivals(checker.entries(), root).pending_block is Some,
    ensures
        arrivals(
            checker.entries(),
            root,
        ).pending_block->0.signed_block.message.body.blob_kzg_commitments@.len() > 0,
        !checker.required().difference(
            arrivals(checker.entries(), root).received_columns,
        ).is_empty(),
{
    let received = arrivals(checker.entries(), root).received_columns;
    assert(checker.entries().contains_key(root));
    assert(!checker.required().subset_of(received));
    let column = choose|column: u64|
        checker.required().contains(column) && !received.contains(column);
    assert(checker.required().difference(received).contains(column));
}

/// A block without blobs is released at once, whatever has arrived before.
pub proof fn blobless_block_is_released_at_once<State>(
    required: Set<u64>,
    entries: Map<B256, Arrivals<State>>,
    root: B256,
    block: PendingBlock<State>,
)
    requires
        block.signed_block.message.body.blob_kzg_commitments@.len() == 0,
    ensures
        after_block(required, entries, root, block) == (entries.remove(root), Some(block)),
{
}

/// What arrives for one root changes nothing for another.
pub proof fn arrivals_do_not_touch_other_roots<State>(
    required: Set<u64>,
    entries: Map<B256, Arrivals<State>>,
    root: B256,
    block: PendingBlock<State>,
    column: u64,
    other: B256,
)
    requires
        other != root,
    ensures
        arrivals(after_block(required, entries, root, block).0, other) == arrivals(entries, other),
        arrivals(after_column(required, entries, root, column).0, other) == arrivals(
            entries,
            other,
        ),
        after_block(required, entries, root, block).0.contains_key(other) == entries.contains_key(
            other,
        ),
        after_column(required, entries, root, column).0.contains_key(other)
            == entries.contains_key(other),
{
}

/// A column that is not required changes nothing and releases nothing.
pub proof fn unrequired_column_is_ignored<State>(
    required: Set<u64>,
    entries: Map<B256, Arrivals<State>>,
    root: B256,
    column: u64,
)
    requires
        !required.contains(column),
    ensures
        after_column(required, entries, root, column) == (entries, None::<PendingBlock<State>>),
{
}

/// A column that arrives again while its block is still incomplete changes
/// nothing and releases nothing.
pub proof fn duplicate_column_counts_once<State>(
    required: Set<u64>,
    entries: Map<B256, Arrivals<State>>,
    root: B256,
    column: u64,
)
    requires
        after_column(required, entries, root, column).1 is None,
    ensures
        ({
            let once = after_column(required, entries, root, column).0;
            after_column(required, once, root, column) == (once, None::<PendingBlock<State>>)
        }),
{
    let once = after_column(required, entries, root, column).0;
    if required.contains(column) {
        let entry = arrivals(entries, root);
        let kept = Arrivals { received_columns: entry.received_columns.insert(column), ..entry };
        assert(kept.received_columns.insert(column) =~= kept.received_columns);
        assert(once.insert(root, kept) =~= once);
    }
}

/// Two columns may arrive in either order as long as neither is the last one
/// missing: the entries and the released block are the same.
pub proof fn column_order_does_not_matter<State>(
    required: Set<u64>,
    entries: Map<B256, Arrivals<State>>,
    root: B256,
    first: u64,
    second: u64,
)
    requires
        after_column(required, entries, root, first).1 is None,
        after_column(required, entries, root, second).1 is None,
    ensures
        after_column(
            required,
            after_column(required, entries, root, first).0,
            root,
            second,
        ) == after_column(
            required,
            after_column(required, entries, root, second).0,
            root,
            first,
        ),
{
    let entry = arrivals(entries, root);
    if required.contains(first) && required.contains(second) {
        let one = after_column(required, entries, root, first).0;
        let two = after_column(required, entries, root, second).0;
        let both = entry.received_columns.insert(first).insert(second);
        assert(both =~= entry.received_columns.insert(second).insert(first));
        let kept = Arrivals { received_columns: both, ..entry };
        assert(one.insert(root, kept) =~= two.insert(root, kept));
        assert(one.remove(root) =~= two.remove(root));
    }
}

/// A block and a column may arrive in either order as long as the first of them
/// does not release a block: the entries and the released block are the same.
pub proof fn block_and_column_order_does_not_matter<State>(
    required: Set<u64>,
    entries: Map<B256, Arrivals<State>>,
    root: B256,
    block: PendingBlock<State>,
    column: u64,
)
    requires
        after_block(required, entries, root, block).1 is None,
        after_column(required, entries, root, column).1 is None,
    ensures
        after_column(
            required,
            after_block(required, entries, root, block).0,
            root,
            column,
        ) == after_block(
            required,
            after_column(required, entries, root, column).0,
            root,
            block,
        ),
{
    let entry = arrivals(entries, root);
    if required.contains(column) {
        let one = after_block(required, entries, root, block).0;
        let two = after_column(required, entries, root, column).0;
        let kept = Arrivals {
            pending_block: Some(block),
            received_columns: entry.received_columns.insert(column),
            ..entry
        };
        assert(one.insert(root, kept) =~= two.insert(root, kept));
        assert(one.remove(root) =~= two.remove(root));
    } else {
        let one = after_block(required, entries, root, block).0;
        let kept = Arrivals { pending_block: Some(block), ..entry };
        assert(one.insert(root, kept) =~= one);
    }
}

/// A block with blobs that is held back stays held while a required column is
/// missing, and is released, once, by the column that completes the set.
pub proof fn block_is_released_by_its_last_column<State>(
    required: Set<u64>,
    entries: Map<B256, Arrivals<State>>,
    root: B256,
    columns: Seq<u64>,
)
    requires
        entries.contains_key(root),
        entries[root].pending_block is Some,
        !complete(required, entries[root]),
    ensures
        ({
            let held = entries[root];
            let arrived = held.received_columns.union(columns.to_set());
            let (after, released) = after_columns(required, entries, root, columns);
            &&& !required.subset_of(arrived) ==> released == Seq::<PendingBlock<State>>::empty()
                && after == entries.insert(
                root,
                Arrivals {
                    received_columns: held.received_columns.union(
                        columns.to_set().intersect(required),
                    ),
                    ..held
                },
            )
            &&& columns.len() > 0 && required.subset_of(arrived) && !required.subset_of(
                held.received_columns.union(columns.drop_last().to_set()),
            ) ==> released == seq![held.pending_block->0] && after == entries.remove(root)
        }),
    decreases columns.len(),
{
    let held = entries[root];
    let arrived = held.received_columns.union(columns.to_set());
    if columns.len() == 0 {
        let kept = Arrivals {
            received_columns: held.received_columns.union(columns.to_set().intersect(required)),
            ..held
        };
        assert(kept.received_columns =~= held.received_columns);
        assert(entries.insert(root, kept) =~= entries);
    } else {
        let start = columns.drop_last();
        let last = columns.last();
        block_is_released_by_its_last_column(required, entries, root, start);
        assert(columns =~= start.push(last));
        start.lemma_push_to_set_commute(last);
        assert(columns.to_set() == start.to_set().insert(last));
        let early = held.received_columns.union(start.to_set());
        if !required.subset_of(arrived) || !required.subset_of(early) {
            assert(!required.subset_of(early)) by {
                if required.subset_of(early) {
                    assert(required.subset_of(arrived));
                }
            }
            let before = Arrivals {
                received_columns: held.received_columns.union(start.to_set().intersect(required)),
                ..held
            };
            let middle = entries.insert(root, before);
            assert(after_columns(required, entries, root, start) == (
                middle,
                Seq::<PendingBlock<State>>::empty(),
            ));
            let after = Arrivals {
                received_columns: held.received_columns.union(
                    columns.to_set().intersect(required),
                ),
                ..held
            };
            if required.contains(last) {
                assert(before.received_columns.insert(last) =~= after.received_columns);
                assert(required.subset_of(after.received_columns) <==> required.subset_of(arrived)) by {
                    assert forall|c: u64| required.contains(c) implies (
                    after.received_columns.contains(c) <==> arrived.contains(c)) by {}
                }
                assert(middle.insert(root, after) =~= entries.insert(root, after));
                assert(middle.remove(root) =~= entries.remove(root));
                assert(Seq::<PendingBlock<State>>::empty().push(held.pending_block->0) =~= seq![
                    held.pending_block->0,
                ]);
            } else {
                assert(before.received_columns =~= after.received_columns);
                assert(required.subset_of(arrived) ==> required.subset_of(early)) by {
                    assert forall|c: u64| required.contains(c) && arrived.contains(c) implies early.contains(c) by {}
                }
            }
        }
    }
}

/// Columns that arrive before their block release nothing. The block is then
/// released on arrival exactly if it has no blobs or every required column was
/// among them.
pub proof fn columns_before_the_block_count<State>(
    required: Set<u64>,
    entries: Map<B256, Arrivals<State>>,
    root: B256,
    columns: Seq<u64>,
    block: PendingBlock<State>,
)
    requires
        !entries.contains_key(root),
    ensures
        after_columns(required, entries, root, columns).1 == Seq::<PendingBlock<State>>::empty(),
        arrivals(after_columns(required, entries, root, columns).0, root) == (Arrivals {
            received_columns: columns.to_set().intersect(required),
            ..no_arrivals::<State>()
        }),
        after_block(
            required,
            after_columns(required, entries, root, columns).0,
            root,
            block,
        ).1 == (if block.signed_block.message.body.blob_kzg_commitments@.len() == 0
            || required.subset_of(columns.to_set()) {
            Some(block)
        } else {
            None
        }),
    decreases columns.len(),
{
    if columns.len() == 0 {
        assert(columns.to_set().intersect(required) =~= Set::<u64>::empty());
    } else {
        let start = columns.drop_last();
        let last = columns.last();
        columns_before_the_block_count(required, entries, root, start, block);
        assert(columns =~= start.push(last));
        start.lemma_push_to_set_commute(last);
        assert(columns.to_set().intersect(required) =~= if required.contains(last) {
            start.to_set().intersect(required).insert(last)
        } else {
            start.to_set().intersect(required)
        });
    }
    let got = columns.to_set().intersect(required);
    assert(required.subset_of(got) <==> required.subset_of(columns.to_set())) by {
        assert forall|c: u64| required.contains(c) implies (got.contains(c)
            <==> columns.to_set().contains(c)) by {}
    }
}

/// A column releases the block of its root exactly if it is required, the block is
/// there, and the block has no blobs or every required column has arrived with this
/// one. A released root is forgotten. Otherwise a required column is recorded with
/// what was there before, and one that is not required changes nothing. No other
/// root changes.
pub proof fn column_releases_exactly_a_completed_block<State>(
    required: Set<u64>,
    entries: Map<B256, Arrivals<State>>,
    root: B256,
    column: u64,
)
    ensures
        ({
            let (after, released) = after_column(required, entries, root, column);
            let known = entries.contains_key(root);
            let block = if known {
                entries[root].pending_block
            } else {
                None
            };
            let arrived = |other: u64|
                other == column || (known && entries[root].received_columns.contains(other));
            &&& released is Some <==> {
                &&& required.contains(column)
                &&& block is Some
                &&& (block->0).signed_block.message.body.blob_kzg_commitments@.len() == 0 || (
                forall|other: u64| #[trigger] required.contains(other) ==> arrived(other))
            }
            &&& released is Some ==> released == block && !after.contains_key(root)
            &&& required.contains(column) && released is None ==> {
                &&& after.contains_key(root)
                &&& after[root].pending_block == block
                &&& after[root].slot == (if known {
                    entries[root].slot
                } else {
                    0
                })
                &&& forall|other: u64| #[trigger]
                    after[root].received_columns.contains(other) <==> arrived(other)
            }
            &&& !required.contains(column) ==> after == entries
            &&& forall|other: B256| #![trigger after.contains_key(other)]
                other != root ==> after.contains_key(other) == entries.contains_key(other) && (
                entries.contains_key(other) ==> after[other] == entries[other])
        }),
{
    let known = entries.contains_key(root);
    let received = if known {
        entries[root].received_columns.insert(column)
    } else {
        Set::<u64>::empty().insert(column)
    };
    let arrived = |other: u64|
        other == column || (known && entries[root].received_columns.contains(other));
    assert(required.subset_of(received) <==> forall|other: u64| #[trigger]
        required.contains(other) ==> arrived(other)) by {
        assert forall|other: u64| received.contains(other) == arrived(other) by {}
        if forall|other: u64| #[trigger] required.contains(other) ==> arrived(other) {
            assert forall|other: u64| required.contains(other) implies received.contains(other) by {
                assert(arrived(other));
            }
        }
    }
}

/// A block is released on arrival exactly if it has no blobs or every required
/// column has arrived before it. A released root is forgotten. Otherwise the block
/// is held with the columns that were there before. No other root changes.
pub proof fn block_is_released_exactly_if_its_data_is_there<State>(
    required: Set<u64>,
    entries: Map<B256, Arrivals<State>>,
    root: B256,
    block: PendingBlock<State>,
)
    ensures
        ({
            let (after, released) = after_block(required, entries, root, block);
            let known = entries.contains_key(root);
            let arrived = |column: u64|
                known && entries[root].received_columns.contains(column);
            &&& released is Some <==> block.signed_block.message.body.blob_kzg_commitments@.len()
                == 0 || (forall|column: u64| #[trigger]
                required.contains(column) ==> arrived(column))
            &&& released is Some ==> released == Some(block) && !after.contains_key(root)
            &&& released is None ==> {
                &&& after.contains_key(root)
                &&& after[root].pending_block == Some(block)
                &&& after[root].slot == (if known {
                    entries[root].slot
                } else {
                    0
                })
                &&& forall|column: u64| #[trigger]
                    after[root].received_columns.contains(column) <==> arrived(column)
            }
            &&& forall|other: B256| #![trigger after.contains_key(other)]
                other != root ==> after.contains_key(other) == entries.contains_key(other) && (
                entries.contains_key(other) ==> after[other] == entries[other])
        }),
{
    let known = entries.contains_key(root);
    let received = if known {
        entries[root].received_columns
    } else {
        Set::<u64>::empty()
    };
    let arrived = |column: u64| known && entries[root].received_columns.contains(column);
    assert(required.subset_of(received) <==> forall|column: u64| #[trigger]
        required.contains(column) ==> arrived(column)) by {
        if forall|column: u64| #[trigger] required.contains(column) ==> arrived(column) {
            assert forall|column: u64| required.contains(column) implies received.contains(
                column,
            ) by {
                assert(arrived(column));
            }
        }
        if required.subset_of(received) {
            assert forall|column: u64| #[trigger] required.contains(column) implies arrived(
                column,
            ) by {
                assert(received.contains(column));
            }
        }
    }
}

/// A column set can be required exactly if it holds a column and no index that is
/// not one.
pub proof fn required_sets_hold_columns_alone(columns: Set<u64>)
    ensures
        requirable(columns) <==> (exists|column: u64| #[trigger] columns.contains(column)) && !(
        exists|column: u64| #[trigger] columns.contains(column) && column >= NUMBER_OF_COLUMNS),
{
    if !columns.is_empty() {
        assert(exists|column: u64| #[trigger] columns.contains(column)) by {
            if forall|column: u64| !#[trigger] columns.contains(column) {
                assert(columns =~= Set::<u64>::empty());
            }
        }
    }
}

} // verus!
