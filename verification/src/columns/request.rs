//! Requests for data columns by block root and by slot range.
use ssz_types::typenum::{B0, B1, UInt, UTerm, U128};
use ssz_types::VariableList;

use vstd::prelude::*;

use crate::beacon::ColumnIdentifier;
use crate::bytes::B256;

verus! {

/// The SSZ list of `ssz_types`.
#[verifier::external_type_specification]
#[verifier::external_body]
#[verifier::reject_recursive_types(T)]
#[verifier::reject_recursive_types(N)]
pub struct ExVariableList<T, N>(VariableList<T, N>);

/// A binary digit behind others, part of a length written as a type.
#[verifier::external_type_specification]
#[verifier::external_body]
#[verifier::reject_recursive_types(U)]
#[verifier::reject_recursive_types(B)]
pub struct ExUInt<U, B>(UInt<U, B>);

/// The end of the digits of a length written as a type.
#[verifier::external_type_specification]
#[verifier::external_body]
pub struct ExUTerm(UTerm);

/// The digit zero of a length written as a type.
#[verifier::external_type_specification]
#[verifier::external_body]
pub struct ExB0(B0);

/// The digit one of a length written as a type.
#[verifier::external_type_specification]
#[verifier::external_body]
pub struct ExB1(B1);

/// The error of the SSZ lists.
#[verifier::external_type_specification]
#[verifier::external_body]
pub struct ExSszError(ssz_types::Error);

/// How many columns one identifier may name, written as a type.
pub type NumberOfColumns = U128;

/// How many blocks one request may name, written as a type.
pub type MaxRequestBlocksDeneb = U128;

/// The columns that an SSZ list holds, in order.
pub uninterp spec fn column_list(list: VariableList<u64, U128>) -> Seq<u64>;

/// The identifiers that an SSZ list holds, in order.
pub uninterp spec fn identifier_list(
    list: VariableList<DataColumnsByRootIdentifier, U128>,
) -> Seq<DataColumnsByRootIdentifier>;

/// How many columns one identifier may name.
pub const MAX_COLUMNS: usize = 128;

/// How many blocks one request may name.
pub const MAX_REQUEST_BLOCKS: usize = 128;

/// Calls `VariableList::<u64, U128>::new`, which takes over a vector of at most
/// 128 values as it is and refuses a longer one.
#[verifier::external_body]
fn new_column_list(columns: Vec<u64>) -> (list: Result<VariableList<u64, U128>, ssz_types::Error>)
    ensures
        list is Ok <==> columns@.len() <= 128,
        list matches Ok(list) ==> column_list(list) == columns@,
{
    VariableList::new(columns)
}

/// Calls `VariableList::<u64, U128>::push`, which appends a value to a list of
/// fewer than 128 values and leaves a full list alone.
#[verifier::external_body]
fn push_column(list: &mut VariableList<u64, U128>, column: u64) -> (pushed: Result<
    (),
    ssz_types::Error,
>)
    ensures
        pushed is Ok <==> column_list(*old(list)).len() < 128,
        column_list(*final(list)) == (if column_list(*old(list)).len() < 128 {
            column_list(*old(list)).push(column)
        } else {
            column_list(*old(list))
        }),
{
    list.push(column)
}

/// Calls `VariableList::<DataColumnsByRootIdentifier, U128>::new`, which takes
/// over a vector of at most 128 values as it is and refuses a longer one.
#[verifier::external_body]
fn new_identifier_list(identifiers: Vec<DataColumnsByRootIdentifier>) -> (list: Result<
    VariableList<DataColumnsByRootIdentifier, U128>,
    ssz_types::Error,
>)
    ensures
        list is Ok <==> identifiers@.len() <= 128,
        list matches Ok(list) ==> identifier_list(list) == identifiers@,
{
    VariableList::new(identifiers)
}

/// Asks for the given columns of the blocks in a range of slots.
#[derive(Debug, PartialEq, Eq)]
pub struct DataColumnSidecarsByRangeV1Request {
    pub start_slot: u64,
    pub count: u64,
    pub columns: VariableList<u64, NumberOfColumns>,
}

/// Names columns of one block.
#[derive(Debug, PartialEq, Eq)]
pub struct DataColumnsByRootIdentifier {
    pub block_root: B256,
    pub columns: VariableList<u64, NumberOfColumns>,
}

/// Asks for columns of several blocks.
#[derive(Debug, PartialEq, Eq)]
pub struct DataColumnSidecarsByRootV1Request {
    pub inner: VariableList<DataColumnsByRootIdentifier, MaxRequestBlocksDeneb>,
}

/// More columns were named than a list can hold.
#[derive(Debug, Clone, Copy, PartialEq, Eq, Structural)]
pub struct TooManyColumns;

/// The block roots of `identifiers` in the order of their first appearance.
pub open spec fn requested_roots(identifiers: Seq<ColumnIdentifier>) -> Seq<B256>
    decreases identifiers.len(),
{
    if identifiers.len() == 0 {
        Seq::empty()
    } else {
        let before = requested_roots(identifiers.drop_last());
        if before.contains(identifiers.last().block_root) {
            before
        } else {
            before.push(identifiers.last().block_root)
        }
    }
}

/// The columns that `identifiers` name for `root`, in order.
pub open spec fn requested_columns(identifiers: Seq<ColumnIdentifier>, root: B256) -> Seq<u64>
    decreases identifiers.len(),
{
    if identifiers.len() == 0 {
        Seq::empty()
    } else {
        let before = requested_columns(identifiers.drop_last(), root);
        if identifiers.last().block_root == root {
            before.push(identifiers.last().index)
        } else {
            before
        }
    }
}

/// Whether a request can hold `identifiers`: neither too many blocks, nor too
/// many columns of one block.
pub open spec fn requestable(identifiers: Seq<ColumnIdentifier>) -> bool {
    &&& requested_roots(identifiers).len() <= MAX_REQUEST_BLOCKS
    &&& forall|root: B256| #[trigger]
        requested_columns(identifiers, root).len() <= MAX_COLUMNS
}

/// Whether `groups` names, for each requested root in order of appearance, the
/// columns requested of it.
pub open spec fn groups(
    groups: Seq<DataColumnsByRootIdentifier>,
    identifiers: Seq<ColumnIdentifier>,
) -> bool {
    &&& groups.len() == requested_roots(identifiers).len()
    &&& forall|i: int|
        0 <= i < groups.len() ==> (#[trigger] groups[i]).block_root == requested_roots(
            identifiers,
        )[i] && column_list(groups[i].columns) == requested_columns(
            identifiers,
            groups[i].block_root,
        )
}

impl DataColumnsByRootIdentifier {
    /// Names columns of one block. There may be at most 128 of them.
    pub fn new(block_root: B256, columns: Vec<u64>) -> (identifier: Result<Self, TooManyColumns>)
        ensures
            identifier is Ok <==> columns@.len() <= MAX_COLUMNS,
            identifier matches Ok(identifier) ==> identifier.block_root == block_root
                && column_list(identifier.columns) == columns@,
    {
        match new_column_list(columns) {
            Ok(columns) => Ok(DataColumnsByRootIdentifier { block_root, columns }),
            Err(_) => Err(TooManyColumns),
        }
    }
}

/// The roots of shorter requests come first.
proof fn lemma_prefix(identifiers: Seq<ColumnIdentifier>, count: int, root: B256)
    requires
        0 <= count <= identifiers.len(),
    ensures
        requested_roots(identifiers.take(count)).len() <= requested_roots(identifiers).len(),
        requested_columns(identifiers.take(count), root).len() <= requested_columns(
            identifiers,
            root,
        ).len(),
    decreases identifiers.len(),
{
    if count < identifiers.len() {
        let shorter = identifiers.drop_last();
        lemma_prefix(shorter, count, root);
        assert(shorter.take(count) =~= identifiers.take(count));
    } else {
        assert(identifiers.take(count) =~= identifiers);
    }
}

/// A root that was not requested has no columns.
proof fn lemma_unrequested(identifiers: Seq<ColumnIdentifier>, root: B256)
    ensures
        !requested_roots(identifiers).contains(root) ==> requested_columns(identifiers, root)
            == Seq::<u64>::empty(),
        requested_roots(identifiers).no_duplicates(),
    decreases identifiers.len(),
{
    if identifiers.len() > 0 {
        let start = identifiers.drop_last();
        lemma_unrequested(start, root);
        let before = requested_roots(start);
        let all = requested_roots(identifiers);
        if !all.contains(root) {
            if before.contains(root) {
                let i = choose|i: int| 0 <= i < before.len() && before[i] == root;
                assert(all[i] == root);
            }
            if identifiers.last().block_root == root {
                if !before.contains(root) {
                    assert(all.last() == root);
                }
            }
        }
    }
}

impl DataColumnSidecarsByRootV1Request {
    /// A request for the columns that `identifiers` name.
    pub fn new(identifiers: Vec<DataColumnsByRootIdentifier>) -> (request: Self)
        requires
            identifiers@.len() <= MAX_REQUEST_BLOCKS,
        ensures
            identifier_list(request.inner) == identifiers@,
    {
        match new_identifier_list(identifiers) {
            Ok(inner) => DataColumnSidecarsByRootV1Request { inner },
            Err(_) => {
                assert(false);
                vstd::pervasive::unreached()
            },
        }
    }

    /// A request for single columns, grouped by block. The blocks stand in the
    /// order in which they first appear, and so do the columns of each.
    pub fn from_column_identifiers(column_identifiers: Vec<ColumnIdentifier>) -> (request: Self)
        requires
            requestable(column_identifiers@),
        ensures
            groups(identifier_list(request.inner), column_identifiers@),
    {
        let mut identifiers: Vec<DataColumnsByRootIdentifier> = Vec::new();
        let mut next: usize = 0;
        while next < column_identifiers.len()
            invariant
                next <= column_identifiers@.len(),
                requestable(column_identifiers@),
                groups(identifiers@, column_identifiers@.take(next as int)),
            decreases column_identifiers@.len() - next,
        {
            let identifier = column_identifiers[next];
            let ghost before = column_identifiers@.take(next as int);
            let ghost after = column_identifiers@.take(next + 1);
            let ghost root = identifier.block_root;
            let ghost start = identifiers@;
            proof {
                assert(after.drop_last() =~= before);
                lemma_unrequested(before, root);
                lemma_prefix(column_identifiers@, next + 1, root);
                assert(after.last() == identifier);
            }
            match find_root(&identifiers, &identifier.block_root) {
                Some(index) => {
                    let mut group = identifiers.remove(index);
                    assert(requested_columns(after, root).len() <= MAX_COLUMNS) by {
                        assert(requested_columns(column_identifiers@, root).len() <= MAX_COLUMNS);
                    }
                    let _ = push_column(&mut group.columns, identifier.index);
                    identifiers.insert(index, group);
                    proof {
                        assert(requested_roots(before)[index as int] == root);
                        assert(identifiers@ =~= start.update(index as int, group));
                        assert forall|i: int| 0 <= i < identifiers@.len() implies (
                        #[trigger] identifiers@[i]).block_root == requested_roots(after)[i]
                            && column_list(identifiers@[i].columns) == requested_columns(
                            after,
                            identifiers@[i].block_root,
                        ) by {
                            assert(start[i].block_root == requested_roots(before)[i]);
                        }
                    }
                },
                None => {
                    let mut columns: Vec<u64> = Vec::new();
                    columns.push(identifier.index);
                    match new_column_list(columns) {
                        Ok(columns) => {
                            let group = DataColumnsByRootIdentifier {
                                block_root: identifier.block_root,
                                columns,
                            };
                            identifiers.push(group);
                            proof {
                                assert(!requested_roots(before).contains(root)) by {
                                    if requested_roots(before).contains(root) {
                                        let i = choose|i: int|
                                            0 <= i < requested_roots(before).len()
                                                && requested_roots(before)[i] == root;
                                        assert(start[i].block_root == root);
                                    }
                                }
                                assert(column_list(columns) =~= requested_columns(after, root));
                                assert forall|i: int| 0 <= i < identifiers@.len() implies (
                                #[trigger] identifiers@[i]).block_root == requested_roots(after)[i]
                                    && column_list(identifiers@[i].columns) == requested_columns(
                                    after,
                                    identifiers@[i].block_root,
                                ) by {
                                    if i < start.len() {
                                        assert(start[i].block_root == requested_roots(before)[i]);
                                    }
                                }
                            }
                        },
                        Err(_) => {
                            assert(false);
                        },
                    }
                },
            }
            next = next + 1;
        }
        assert(column_identifiers@.take(next as int) =~= column_identifiers@);
        Self::new(identifiers)
    }
}

/// The position of the group of a root.
fn find_root(identifiers: &Vec<DataColumnsByRootIdentifier>, root: &B256) -> (found: Option<usize>)
    ensures
        match found {
            Some(i) => i < identifiers@.len() && identifiers@[i as int].block_root == *root,
            None => forall|i: int|
                0 <= i < identifiers@.len() ==> (#[trigger] identifiers@[i]).block_root != *root,
        },
{
    let mut index: usize = 0;
    while index < identifiers.len()
        invariant
            index <= identifiers@.len(),
            forall|i: int|
                0 <= i < index ==> (#[trigger] identifiers@[i]).block_root != *root,
        decreases identifiers@.len() - index,
    {
        if identifiers[index].block_root.equals(root) {
            return Some(index);
        }
        index = index + 1;
    }
    None
}

/// Up to 128 column identifiers always fit in one request.
pub proof fn small_requests_fit(identifiers: Seq<ColumnIdentifier>)
    requires
        identifiers.len() <= MAX_COLUMNS,
    ensures
        requestable(identifiers),
{
    assert forall|root: B256| #[trigger]
        requested_columns(identifiers, root).len() <= MAX_COLUMNS by {
        lemma_lengths(identifiers, root);
    }
    lemma_lengths(identifiers, arbitrary());
}

/// There are at most as many roots, and columns of a root, as identifiers.
proof fn lemma_lengths(identifiers: Seq<ColumnIdentifier>, root: B256)
    ensures
        requested_roots(identifiers).len() <= identifiers.len(),
        requested_columns(identifiers, root).len() <= identifiers.len(),
    decreases identifiers.len(),
{
    if identifiers.len() > 0 {
        lemma_lengths(identifiers.drop_last(), root);
    }
}

/// Grouping loses and invents nothing: a request names a column of a block
/// exactly if an identifier did, and names each block once.
pub proof fn grouping_keeps_every_column(
    grouped: Seq<DataColumnsByRootIdentifier>,
    identifiers: Seq<ColumnIdentifier>,
    root: B256,
    column: u64,
)
    requires
        groups(grouped, identifiers),
    ensures
        identifiers.contains(ColumnIdentifier { block_root: root, index: column }) <==> exists|
            i: int,
        |
            0 <= i < grouped.len() && (#[trigger] grouped[i]).block_root == root && column_list(
                grouped[i].columns,
            ).contains(column),
        forall|i: int, j: int|
            0 <= i < j < grouped.len() ==> (#[trigger] grouped[i]).block_root != (
            #[trigger] grouped[j]).block_root,
{
    lemma_requested(identifiers, root, column);
    lemma_unrequested(identifiers, root);
    let roots = requested_roots(identifiers);
    if requested_columns(identifiers, root).contains(column) {
        assert(roots.contains(root));
        let i = choose|i: int| 0 <= i < roots.len() && roots[i] == root;
        assert(grouped[i].block_root == root);
    }
    assert forall|i: int, j: int| 0 <= i < j < grouped.len() implies (
    #[trigger] grouped[i]).block_root != (#[trigger] grouped[j]).block_root by {
        assert(roots[i] != roots[j]);
    }
}

/// The columns of a root are those that the identifiers name.
proof fn lemma_requested(identifiers: Seq<ColumnIdentifier>, root: B256, column: u64)
    ensures
        identifiers.contains(ColumnIdentifier { block_root: root, index: column })
            <==> requested_columns(identifiers, root).contains(column),
    decreases identifiers.len(),
{
    let wanted = ColumnIdentifier { block_root: root, index: column };
    if identifiers.len() > 0 {
        let start = identifiers.drop_last();
        let last = identifiers.last();
        lemma_requested(start, root, column);
        let before = requested_columns(start, root);
        let after = requested_columns(identifiers, root);
        if identifiers.contains(wanted) {
            let i = choose|i: int| 0 <= i < identifiers.len() && identifiers[i] == wanted;
            if i < start.len() {
                assert(start[i] == wanted);
                let j = choose|j: int| 0 <= j < before.len() && before[j] == column;
                assert(after[j] == column);
            } else {
                assert(after.last() == column);
            }
        }
        if after.contains(column) {
            let j = choose|j: int| 0 <= j < after.len() && after[j] == column;
            if j < before.len() {
                assert(before[j] == column);
                let i = choose|i: int| 0 <= i < start.len() && start[i] == wanted;
                assert(identifiers[i] == wanted);
            } else {
                assert(last == wanted);
                assert(identifiers[identifiers.len() - 1] == wanted);
            }
        }
    }
}

/// Whether an identifier names a column of `root`.
pub open spec fn of_block(root: B256) -> spec_fn(ColumnIdentifier) -> bool {
    |identifier: ColumnIdentifier| identifier.block_root == root
}

/// The columns of a block are those of its identifiers, in their order and as often
/// as they are named.
pub proof fn columns_keep_their_order(identifiers: Seq<ColumnIdentifier>, root: B256)
    ensures
        requested_columns(identifiers, root) == identifiers.filter(of_block(root)).map_values(
            |identifier: ColumnIdentifier| identifier.index,
        ),
    decreases identifiers.len(),
{
    reveal(Seq::filter);
    let index = |identifier: ColumnIdentifier| identifier.index;
    let named = identifiers.filter(of_block(root));
    if identifiers.len() == 0 {
        assert(named.map_values(index) =~= Seq::<u64>::empty());
    } else {
        let start = identifiers.drop_last();
        columns_keep_their_order(start, root);
        assert(requested_columns(identifiers, root) =~= named.map_values(index));
    }
}

/// The blocks of a request are those that its identifiers name, each once.
pub proof fn named_blocks_are_requested_once(identifiers: Seq<ColumnIdentifier>, root: B256)
    ensures
        requested_roots(identifiers).no_duplicates(),
        requested_roots(identifiers).contains(root) <==> exists|i: int|
            0 <= i < identifiers.len() && (#[trigger] identifiers[i]).block_root == root,
    decreases identifiers.len(),
{
    let all = requested_roots(identifiers);
    lemma_unrequested(identifiers, root);
    if identifiers.len() > 0 {
        let start = identifiers.drop_last();
        let last = identifiers.last();
        let less = requested_roots(start);
        named_blocks_are_requested_once(start, root);
        if all.contains(root) {
            if less.contains(root) {
                let i = choose|i: int|
                    0 <= i < start.len() && (#[trigger] start[i]).block_root == root;
                assert(identifiers[i].block_root == root);
            } else {
                assert(root == last.block_root);
                assert(identifiers[identifiers.len() - 1].block_root == root);
            }
        }
        if exists|i: int|
            0 <= i < identifiers.len() && (#[trigger] identifiers[i]).block_root == root {
            let i = choose|i: int|
                0 <= i < identifiers.len() && (#[trigger] identifiers[i]).block_root == root;
            if i < start.len() {
                assert(start[i].block_root == root);
                let k = choose|k: int| 0 <= k < less.len() && less[k] == root;
                assert(all[k] == root);
            } else if !less.contains(root) {
                assert(all.last() == root);
            } else {
                let k = choose|k: int| 0 <= k < less.len() && less[k] == root;
                assert(all[k] == root);
            }
        }
    }
}

/// The blocks of a request stand in the order in which they are first named: before
/// any identifier of a later one, there is one of the earlier.
pub proof fn blocks_keep_their_order(
    identifiers: Seq<ColumnIdentifier>,
    i: int,
    j: int,
    at: int,
)
    requires
        0 <= i < j < requested_roots(identifiers).len(),
        0 <= at < identifiers.len(),
        identifiers[at].block_root == requested_roots(identifiers)[j],
    ensures
        exists|before: int|
            0 <= before < at && (#[trigger] identifiers[before]).block_root == requested_roots(
                identifiers,
            )[i],
    decreases identifiers.len(),
{
    let all = requested_roots(identifiers);
    let start = identifiers.drop_last();
    let less = requested_roots(start);
    assert(i < less.len() && all[i] == less[i]);
    if at < start.len() && j < less.len() {
        assert(start[at].block_root == less[j]);
        blocks_keep_their_order(start, i, j, at);
        let before = choose|before: int|
            0 <= before < at && (#[trigger] start[before]).block_root == less[i];
        assert(identifiers[before].block_root == all[i]);
    } else {
        if at < start.len() {
            assert(start[at].block_root == all[j]);
            named_blocks_are_requested_once(start, all[j]);
            assert(less.contains(all[j]));
            assert(!less.contains(identifiers.last().block_root));
            assert(false);
        }
        named_blocks_are_requested_once(start, less[i]);
        assert(less.contains(less[i]));
        let before = choose|before: int|
            0 <= before < start.len() && (#[trigger] start[before]).block_root == less[i];
        assert(identifiers[before].block_root == all[i]);
    }
}

/// A grouped request holds one group for each block that is named, in the order in
/// which blocks are first named, and in each group exactly the columns named for its
/// block, in their order.
pub proof fn groups_list_the_columns_of_their_block(
    grouped: Seq<DataColumnsByRootIdentifier>,
    identifiers: Seq<ColumnIdentifier>,
    i: int,
)
    requires
        groups(grouped, identifiers),
        0 <= i < grouped.len(),
    ensures
        grouped.len() == requested_roots(identifiers).len(),
        grouped[i].block_root == requested_roots(identifiers)[i],
        column_list(grouped[i].columns) == identifiers.filter(
            of_block(grouped[i].block_root),
        ).map_values(|identifier: ColumnIdentifier| identifier.index),
{
    columns_keep_their_order(identifiers, grouped[i].block_root);
}

} // verus!
