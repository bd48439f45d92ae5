//! A map keyed by 32-byte roots that keeps its entries in insertion order.
use vstd::prelude::*;

use crate::bytes::B256;

verus! {

/// A map from roots to values. The entries stand in the order in which their
/// roots were first inserted.
#[derive(Debug)]
pub struct RootMap<V> {
    items: Vec<(B256, V)>,
}

/// Whether some entry has the root `root`.
pub open spec fn has_root<V>(items: Seq<(B256, V)>, root: B256) -> bool {
    exists|i: int| 0 <= i < items.len() && (#[trigger] items[i]).0 == root
}

/// The position of an entry with the root `root`.
pub open spec fn position_of<V>(items: Seq<(B256, V)>, root: B256) -> int {
    choose|i: int| 0 <= i < items.len() && (#[trigger] items[i]).0 == root
}

/// Whether no root stands in two entries.
pub open spec fn distinct_roots<V>(items: Seq<(B256, V)>) -> bool {
    forall|i: int, j: int|
        0 <= i < j < items.len() ==> (#[trigger] items[i]).0 != (#[trigger] items[j]).0
}

/// The map that a sequence of entries stands for.
pub open spec fn map_of<V>(items: Seq<(B256, V)>) -> Map<B256, V> {
    Map::new(|root: B256| has_root(items, root), |root: B256| items[position_of(items, root)].1)
}

/// The roots of the entries, in order.
pub open spec fn roots_of<V>(items: Seq<(B256, V)>) -> Seq<B256> {
    items.map_values(|item: (B256, V)| item.0)
}

/// An entry is found under its own root.
pub proof fn lemma_entry_found<V>(items: Seq<(B256, V)>, i: int)
    requires
        distinct_roots(items),
        0 <= i < items.len(),
    ensures
        has_root(items, items[i].0),
        position_of(items, items[i].0) == i,
        map_of(items).contains_key(items[i].0),
        map_of(items)[items[i].0] == items[i].1,
{
    let j = position_of(items, items[i].0);
    assert(items[i].0 == items[i].0);
    assert(0 <= j < items.len() && items[j].0 == items[i].0);
}

/// The roots of the entries are those of the map, each once.
pub proof fn lemma_roots<V>(items: Seq<(B256, V)>)
    requires
        distinct_roots(items),
    ensures
        roots_of(items).no_duplicates(),
        roots_of(items).to_set() == map_of(items).dom(),
        map_of(items).dom().finite(),
        map_of(items).len() == items.len(),
{
    let roots = roots_of(items);
    assert(roots.no_duplicates());
    roots.unique_seq_to_set();
    assert(map_of(items).dom() =~= roots.to_set()) by {
        assert forall|root: B256| map_of(items).dom().contains(root) implies roots.to_set().contains(
            root,
        ) by {
            assert(roots[position_of(items, root)] == root);
        }
        assert forall|root: B256| roots.to_set().contains(root) implies map_of(
            items,
        ).dom().contains(root) by {
            let i = choose|i: int| 0 <= i < roots.len() && roots[i] == root;
            assert(items[i].0 == root);
        }
    }
}

/// Replacing the value of an entry replaces the value of its root.
pub proof fn lemma_update<V>(items: Seq<(B256, V)>, i: int, value: V)
    requires
        distinct_roots(items),
        0 <= i < items.len(),
    ensures
        distinct_roots(items.update(i, (items[i].0, value))),
        map_of(items.update(i, (items[i].0, value))) == map_of(items).insert(items[i].0, value),
{
    let next = items.update(i, (items[i].0, value));
    assert forall|a: int, b: int| 0 <= a < b < next.len() implies (#[trigger] next[a]).0 != (
    #[trigger] next[b]).0 by {
        assert(items[a].0 != items[b].0);
    }
    assert(map_of(next) =~= map_of(items).insert(items[i].0, value)) by {
        assert forall|root: B256| #[trigger] has_root(next, root) == has_root(items, root) by {
            if has_root(next, root) {
                assert(items[position_of(next, root)].0 == root);
            }
            if has_root(items, root) {
                assert(next[position_of(items, root)].0 == root);
            }
        }
        assert forall|root: B256| #[trigger] has_root(next, root) implies map_of(next)[root]
            == map_of(items).insert(items[i].0, value)[root] by {
            let p = position_of(next, root);
            lemma_entry_found(next, p);
            lemma_entry_found(items, p);
        }
        lemma_entry_found(items, i);
    }
}

/// Adding an entry under a new root adds that root to the map.
pub proof fn lemma_push<V>(items: Seq<(B256, V)>, root: B256, value: V)
    requires
        distinct_roots(items),
        !has_root(items, root),
    ensures
        distinct_roots(items.push((root, value))),
        map_of(items.push((root, value))) == map_of(items).insert(root, value),
{
    let next = items.push((root, value));
    assert forall|a: int, b: int| 0 <= a < b < next.len() implies (#[trigger] next[a]).0 != (
    #[trigger] next[b]).0 by {
        if b < items.len() {
            assert(items[a].0 != items[b].0);
        } else {
            assert(items[a].0 != root);
        }
    }
    lemma_entry_found(next, items.len() as int);
    assert(map_of(next) =~= map_of(items).insert(root, value)) by {
        assert forall|other: B256| #[trigger] has_root(next, other) == (has_root(items, other)
            || other == root) by {
            if has_root(next, other) && other != root {
                assert(items[position_of(next, other)].0 == other);
            }
            if has_root(items, other) {
                assert(next[position_of(items, other)].0 == other);
            }
        }
        assert forall|other: B256| #[trigger] has_root(next, other) implies map_of(next)[other]
            == map_of(items).insert(root, value)[other] by {
            let p = position_of(next, other);
            lemma_entry_found(next, p);
            if p < items.len() {
                lemma_entry_found(items, p);
            }
        }
    }
}

/// Removing an entry removes its root from the map.
pub proof fn lemma_remove<V>(items: Seq<(B256, V)>, i: int)
    requires
        distinct_roots(items),
        0 <= i < items.len(),
    ensures
        distinct_roots(items.remove(i)),
        map_of(items.remove(i)) == map_of(items).remove(items[i].0),
{
    let next = items.remove(i);
    let root = items[i].0;
    assert forall|a: int| 0 <= a < next.len() implies #[trigger] next[a] == items[if a < i {
        a
    } else {
        a + 1
    }] by {}
    assert forall|a: int, b: int| 0 <= a < b < next.len() implies (#[trigger] next[a]).0 != (
    #[trigger] next[b]).0 by {
        let c = if a < i { a } else { a + 1 };
        let d = if b < i { b } else { b + 1 };
        assert(items[c].0 != items[d].0);
    }
    assert(map_of(next) =~= map_of(items).remove(root)) by {
        assert forall|other: B256| #[trigger] has_root(next, other) == (has_root(items, other)
            && other != root) by {
            if has_root(next, other) {
                let a = position_of(next, other);
                let c = if a < i { a } else { a + 1 };
                assert(items[c].0 == other);
                assert(items[c].0 != items[i].0);
            }
            if has_root(items, other) && other != root {
                let c = position_of(items, other);
                let a = if c < i { c } else { c - 1 };
                assert(next[a].0 == other);
            }
        }
        assert forall|other: B256| #[trigger] has_root(next, other) implies map_of(next)[other]
            == map_of(items).remove(root)[other] by {
            let a = position_of(next, other);
            let c = if a < i { a } else { a + 1 };
            lemma_entry_found(next, a);
            lemma_entry_found(items, c);
        }
    }
}

/// Whether the root of an entry stands in `roots`.
pub open spec fn rooted_in<V>(roots: Seq<B256>) -> spec_fn((B256, V)) -> bool {
    |item: (B256, V)| roots.contains(item.0)
}

/// Keeping some entries keeps their values and drops the other roots.
pub proof fn lemma_keep<V>(items: Seq<(B256, V)>, roots: Seq<B256>)
    requires
        distinct_roots(items),
    ensures
        distinct_roots(items.filter(rooted_in(roots))),
        map_of(items.filter(rooted_in(roots))) == map_of(items).restrict(roots.to_set()),
        roots_of(items.filter(rooted_in(roots))) == roots_of(items).filter(
            |root: B256| roots.contains(root),
        ),
    decreases items.len(),
{
    let kept = items.filter(rooted_in(roots));
    let wanted = |root: B256| roots.contains(root);
    reveal(Seq::filter);
    broadcast use vstd::seq_lib::group_filter_ensures;

    if items.len() == 0 {
        assert(map_of(kept) =~= map_of(items).restrict(roots.to_set()));
        assert(roots_of(kept) =~= roots_of(items).filter(wanted));
    } else {
        let start = items.drop_last();
        let last = items.last();
        assert(distinct_roots(start)) by {
            assert forall|i: int, j: int| 0 <= i < j < start.len() implies (#[trigger] start[i]).0
                != (#[trigger] start[j]).0 by {
                assert(items[i].0 != items[j].0);
            }
        }
        lemma_keep(start, roots);
        assert(!has_root(start, last.0)) by {
            if has_root(start, last.0) {
                let i = position_of(start, last.0);
                assert(items[i].0 != items[items.len() - 1].0);
            }
        }
        assert(items =~= start.push(last));
        lemma_push(start, last.0, last.1);
        assert(roots_of(items) =~= roots_of(start).push(last.0));
        assert(roots_of(items).drop_last() =~= roots_of(start));
        let before = start.filter(rooted_in(roots));
        if roots.contains(last.0) {
            assert(kept == before.push(last));
            assert(!map_of(before).contains_key(last.0));
            lemma_push(before, last.0, last.1);
            assert(map_of(kept) =~= map_of(items).restrict(roots.to_set()));
            assert(roots_of(kept) =~= roots_of(before).push(last.0));
        } else {
            assert(kept == before);
            assert(map_of(kept) =~= map_of(items).restrict(roots.to_set()));
        }
    }
}

/// Whether `roots` holds `root`.
pub fn contains_root(roots: &[B256], root: &B256) -> (found: bool)
    ensures
        found == roots@.contains(*root),
{
    let mut index: usize = 0;
    while index < roots.len()
        invariant
            index <= roots@.len(),
            forall|i: int| 0 <= i < index ==> roots@[i] != *root,
        decreases roots@.len() - index,
    {
        if roots[index].equals(root) {
            return true;
        }
        index = index + 1;
    }
    false
}

impl<V> RootMap<V> {
    /// The entries in insertion order.
    pub closed spec fn items(&self) -> Seq<(B256, V)> {
        self.items@
    }

    /// Whether no root stands in two entries.
    pub open spec fn wf(&self) -> bool {
        distinct_roots(self.items())
    }

    /// The map that the entries stand for.
    pub open spec fn view(&self) -> Map<B256, V> {
        map_of(self.items())
    }

    /// A map without entries.
    pub fn new() -> (map: RootMap<V>)
        ensures
            map.wf(),
            map.items() == Seq::<(B256, V)>::empty(),
            map@ == Map::<B256, V>::empty(),
    {
        let map = RootMap { items: Vec::new() };
        assert(map@ =~= Map::<B256, V>::empty());
        map
    }

    /// The position of the entry of `root`.
    pub fn find(&self, root: &B256) -> (found: Option<usize>)
        requires
            self.wf(),
        ensures
            found is Some <==> self@.contains_key(*root),
            found matches Some(i) ==> i < self.items().len() && self.items()[i as int].0 == *root
                && self@[*root] == self.items()[i as int].1,
    {
        let mut index: usize = 0;
        while index < self.items.len()
            invariant
                self.wf(),
                index <= self.items@.len(),
                forall|i: int| 0 <= i < index ==> (#[trigger] self.items@[i]).0 != *root,
            decreases self.items@.len() - index,
        {
            if self.items[index].0.equals(root) {
                proof {
                    lemma_entry_found(self.items(), index as int);
                }
                return Some(index);
            }
            index = index + 1;
        }
        None
    }

    /// Whether `root` has an entry.
    pub fn contains_key(&self, root: &B256) -> (found: bool)
        requires
            self.wf(),
        ensures
            found == self@.contains_key(*root),
    {
        self.find(root).is_some()
    }

    /// The value of `root`.
    pub fn get(&self, root: &B256) -> (value: Option<&V>)
        requires
            self.wf(),
        ensures
            value == (if self@.contains_key(*root) {
                Some(&self@[*root])
            } else {
                None
            }),
    {
        match self.find(root) {
            Some(index) => Some(&self.items[index].1),
            None => None,
        }
    }

    /// How many roots have an entry.
    pub fn len(&self) -> (count: usize)
        requires
            self.wf(),
        ensures
            count == self.items().len(),
            count == self@.len(),
            self@.dom().finite(),
    {
        proof {
            lemma_roots(self.items());
        }
        self.items.len()
    }

    /// The entry at a position.
    pub fn entry(&self, index: usize) -> (item: &(B256, V))
        requires
            index < self.items().len(),
        ensures
            *item == self.items()[index as int],
    {
        &self.items[index]
    }

    /// Gives `root` a value: in place where it has an entry, behind all entries
    /// otherwise.
    pub fn insert(&mut self, root: B256, value: V)
        requires
            old(self).wf(),
        ensures
            final(self).wf(),
            final(self)@ == old(self)@.insert(root, value),
            old(self)@.contains_key(root) ==> final(self).items() == old(self).items().update(
                position_of(old(self).items(), root),
                (root, value),
            ),
            !old(self)@.contains_key(root) ==> final(self).items() == old(self).items().push(
                (root, value),
            ),
    {
        match self.find(&root) {
            Some(index) => {
                proof {
                    lemma_update(self.items(), index as int, value);
                    lemma_entry_found(self.items(), index as int);
                }
                self.items[index] = (root, value);
            },
            None => {
                proof {
                    lemma_push(self.items(), root, value);
                }
                self.items.push((root, value));
            },
        }
    }

    /// Replaces the value at a position.
    pub fn set(&mut self, index: usize, value: V)
        requires
            old(self).wf(),
            index < old(self).items().len(),
        ensures
            final(self).wf(),
            final(self).items() == old(self).items().update(
                index as int,
                (old(self).items()[index as int].0, value),
            ),
            final(self)@ == old(self)@.insert(old(self).items()[index as int].0, value),
    {
        proof {
            lemma_update(self.items(), index as int, value);
        }
        let root = self.items[index].0;
        self.items[index] = (root, value);
    }

    /// Takes the entry at a position out of the map.
    pub fn take_at(&mut self, index: usize) -> (item: (B256, V))
        requires
            old(self).wf(),
            index < old(self).items().len(),
        ensures
            final(self).wf(),
            item == old(self).items()[index as int],
            final(self).items() == old(self).items().remove(index as int),
            final(self)@ == old(self)@.remove(item.0),
    {
        proof {
            lemma_remove(self.items(), index as int);
        }
        self.items.remove(index)
    }

    /// Takes the value of `root` out of the map.
    pub fn remove(&mut self, root: &B256) -> (value: Option<V>)
        requires
            old(self).wf(),
        ensures
            final(self).wf(),
            value == (if old(self)@.contains_key(*root) {
                Some(old(self)@[*root])
            } else {
                None
            }),
            final(self)@ == old(self)@.remove(*root),
            final(self).items() == (if old(self)@.contains_key(*root) {
                old(self).items().remove(position_of(old(self).items(), *root))
            } else {
                old(self).items()
            }),
    {
        match self.find(root) {
            Some(index) => {
                proof {
                    lemma_entry_found(self.items(), index as int);
                }
                let item = self.take_at(index);
                Some(item.1)
            },
            None => {
                assert(self@.remove(*root) =~= self@);
                None
            },
        }
    }

    /// Keeps the entries whose roots stand in `roots`, in their order.
    pub fn retain(&mut self, roots: &[B256])
        requires
            old(self).wf(),
        ensures
            final(self).wf(),
            final(self).items() == old(self).items().filter(rooted_in(roots@)),
            final(self)@ == old(self)@.restrict(roots@.to_set()),
    {
        let ghost start = self.items@;
        let ghost wanted = rooted_in::<V>(roots@);
        let ghost mut seen: int = 0;
        let mut index: usize = 0;
        proof {
            reveal(Seq::filter);
            assert(start.take(0).filter(wanted) + start.skip(0) =~= start);
        }
        while index < self.items.len()
            invariant
                wanted == rooted_in::<V>(roots@),
                0 <= seen <= start.len(),
                self.items@ == start.take(seen).filter(wanted) + start.skip(seen),
                index == start.take(seen).filter(wanted).len(),
            decreases start.len() - seen,
        {
            proof {
                reveal(Seq::filter);
                assert(start.take(seen + 1).drop_last() =~= start.take(seen));
                assert(self.items@[index as int] == start[seen]);
            }
            if contains_root(roots, &self.items[index].0) {
                assert(self.items@ =~= start.take(seen + 1).filter(wanted) + start.skip(seen + 1));
                index = index + 1;
            } else {
                self.items.remove(index);
                assert(self.items@ =~= start.take(seen + 1).filter(wanted) + start.skip(seen + 1));
            }
            proof {
                seen = seen + 1;
            }
        }
        proof {
            assert(start.skip(seen).len() == 0);
            assert(start.take(seen) =~= start);
            assert(self.items@ =~= start.filter(wanted));
            lemma_keep(start, roots@);
        }
    }
}

} // verus!
