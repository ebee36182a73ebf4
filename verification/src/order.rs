//! The order of the list.

use vstd::prelude::*;

use crate::project::{entry_models, EntryModel, ProjectEntry};

verus! {

/// What the list is ordered by.
#[derive(Clone, Copy, Debug, PartialEq, Eq, Structural)]
pub enum SortMode {
    /// The largest artifacts first.
    Size,
    /// The artifacts that changed longest ago first.
    Date,
}

impl SortMode {
    /// The other order.
    pub open spec fn other(self) -> SortMode {
        match self {
            SortMode::Size => SortMode::Date,
            SortMode::Date => SortMode::Size,
        }
    }

    /// The number that the order goes by.
    pub open spec fn key(self, entry: EntryModel) -> u64 {
        match self {
            SortMode::Size => entry.artifact_bytes,
            SortMode::Date => entry.last_modified_secs,
        }
    }
}

/// The number that an order goes by.
pub fn sort_key(mode: SortMode, entry: &ProjectEntry) -> (r: u64)
    ensures
        r == mode.key(entry@),
        mode == SortMode::Size ==> r == entry.artifact_bytes,
        mode == SortMode::Date ==> r == entry.last_modified_secs,
{
    match mode {
        SortMode::Size => entry.artifact_bytes,
        SortMode::Date => entry.last_modified_secs,
    }
}

/// A list with one entry put in behind the last one whose key is not smaller.
pub open spec fn placed(list: Seq<EntryModel>, entry: EntryModel, mode: SortMode) -> Seq<EntryModel>
    decreases list.len(),
{
    if list.len() == 0 || mode.key(list.last()) >= mode.key(entry) {
        list.push(entry)
    } else {
        placed(list.drop_last(), entry, mode).push(list.last())
    }
}

/// A list in order: by falling key, entries with the same key as they were.
pub open spec fn in_order(list: Seq<EntryModel>, mode: SortMode) -> Seq<EntryModel>
    decreases list.len(),
{
    if list.len() == 0 {
        list
    } else {
        placed(in_order(list.drop_last(), mode), list.last(), mode)
    }
}

/// The keys of a list do not rise.
pub open spec fn descending(list: Seq<EntryModel>, mode: SortMode) -> bool {
    forall|i: int, j: int| 0 <= i <= j < list.len() ==> mode.key(list[i]) >= mode.key(list[j])
}

/// The entries of a list that have a given key, as they stand.
pub open spec fn with_key(list: Seq<EntryModel>, mode: SortMode, key: u64) -> Seq<EntryModel> {
    list.filter(|e: EntryModel| mode.key(e) == key)
}

/// Two lists hold the same entries, and those that share a key in the same order.
pub open spec fn same_by_key(a: Seq<EntryModel>, b: Seq<EntryModel>, mode: SortMode) -> bool {
    forall|key: u64| #[trigger] with_key(a, mode, key) == with_key(b, mode, key)
}

/// Puts the list in order.
pub fn sort(entries: &mut Vec<ProjectEntry>, mode: SortMode)
    ensures
        entry_models(final(entries)@) == in_order(entry_models(old(entries)@), mode),
        mode == SortMode::Size ==> forall|i: int, j: int|
            0 <= i <= j < final(entries)@.len() ==> (#[trigger] final(entries)@[i]).artifact_bytes
                >= (#[trigger] final(entries)@[j]).artifact_bytes,
        mode == SortMode::Date ==> forall|i: int, j: int|
            0 <= i <= j < final(entries)@.len() ==> (
            #[trigger] final(entries)@[i]).last_modified_secs >= (
            #[trigger] final(entries)@[j]).last_modified_secs,
{
    let ghost before = entry_models(entries@);
    let mut i: usize = 0;
    assert(entry_models(entries@.take(0)) == before.take(0));
    while i < entries.len()
        invariant
            i <= entries.len(),
            entries.len() == before.len(),
            entry_models(entries@.take(i as int)) == in_order(before.take(i as int), mode),
            forall|j: int| i <= j < entries.len() ==> (#[trigger] entries@[j])@ == before[j],
        decreases entries.len() - i,
    {
        let ghost sorted = entry_models(entries@.take(i as int));
        let ghost all = entries@;
        let key: u64 = sort_key(mode, &entries[i]);
        let mut at: usize = i;
        assert(sorted.take(i as int) == sorted);
        assert(sorted.skip(i as int) == Seq::<EntryModel>::empty());
        while at > 0 && sort_key(mode, &entries[at - 1]) < key
            invariant
                at <= i < entries.len(),
                entries@ == all,
                key == mode.key(all[i as int]@),
                sorted == entry_models(all.take(i as int)),
                placed(sorted, all[i as int]@, mode) == placed(
                    sorted.take(at as int),
                    all[i as int]@,
                    mode,
                ) + sorted.skip(at as int),
            decreases at,
        {
            proof {
                let rest = sorted.take(at as int);
                assert(rest.last() == all[at - 1]@);
                assert(rest.drop_last() == sorted.take(at - 1));
                assert(seq![rest.last()] + sorted.skip(at as int) == sorted.skip(at - 1));
                assert(placed(sorted.take(at - 1), all[i as int]@, mode).push(rest.last())
                    + sorted.skip(at as int) == placed(sorted.take(at - 1), all[i as int]@, mode)
                    + sorted.skip(at - 1));
            }
            at = at - 1;
        }
        if at < i {
            let entry = entries.remove(i);
            entries.insert(at, entry);
        }
        proof {
            let rest = sorted.take(at as int);
            if at > 0 {
                assert(rest.last() == all[at - 1]@);
            }
            assert(placed(rest, all[i as int]@, mode) == rest.push(all[i as int]@));
            let done = entry_models(entries@.take(i + 1));
            assert(done == rest.push(all[i as int]@) + sorted.skip(at as int));
            assert(before.take(i + 1).drop_last() == before.take(i as int));
            assert(before.take(i + 1).last() == all[i as int]@);
            assert forall|j: int| i + 1 <= j < entries.len() implies (#[trigger] entries@[j])@
                == before[j] by {
                assert(entries@[j] == all[j]);
            }
        }
        i = i + 1;
    }
    assert(entries@.take(i as int) == entries@);
    assert(before.take(i as int) == before);
    proof {
        law_order_descends(before, mode);
        let sorted = entry_models(entries@);
        assert forall|i: int, j: int| 0 <= i <= j < entries@.len() implies mode.key(
            (#[trigger] entries@[i])@,
        ) >= mode.key((#[trigger] entries@[j])@) by {
            assert(sorted[i] == entries@[i]@ && sorted[j] == entries@[j]@);
        }
    }
}

/// A list in order does not rise.
pub proof fn law_order_descends(list: Seq<EntryModel>, mode: SortMode)
    ensures
        descending(in_order(list, mode), mode),
    decreases list.len(),
{
    if list.len() > 0 {
        law_order_descends(list.drop_last(), mode);
        lemma_placed_descends(in_order(list.drop_last(), mode), list.last(), mode);
    }
}

/// Ordering keeps every entry, and keeps entries with the same key as they were.
pub proof fn law_order_is_stable(list: Seq<EntryModel>, mode: SortMode)
    ensures
        same_by_key(in_order(list, mode), list, mode),
        in_order(list, mode).to_multiset() == list.to_multiset(),
        in_order(list, mode).len() == list.len(),
    decreases list.len(),
{
    if list.len() > 0 {
        let rest = list.drop_last();
        law_order_is_stable(rest, mode);
        assert forall|key: u64| #[trigger]
            with_key(in_order(list, mode), mode, key) == with_key(list, mode, key) by {
            lemma_placed_by_key(in_order(rest, mode), list.last(), mode, key);
            lemma_with_key_push(in_order(rest, mode), list.last(), mode, key);
            lemma_with_key_push(rest, list.last(), mode, key);
            assert(rest.push(list.last()) == list);
            assert(with_key(in_order(rest, mode), mode, key) == with_key(rest, mode, key));
        }
        lemma_placed_multiset(in_order(rest, mode), list.last(), mode);
        broadcast use vstd::seq_lib::group_to_multiset_ensures;

        assert(rest.push(list.last()) == list);
    }
}

/// There is one way only to order a list: one that does not rise and keeps the
/// entries with the same key as they were is the list in order.
pub proof fn law_order_is_unique(list: Seq<EntryModel>, other: Seq<EntryModel>, mode: SortMode)
    requires
        descending(other, mode),
        same_by_key(other, list, mode),
    ensures
        other == in_order(list, mode),
{
    law_order_descends(list, mode);
    law_order_is_stable(list, mode);
    let ordered = in_order(list, mode);
    assert forall|key: u64| #[trigger]
        with_key(other, mode, key) == with_key(ordered, mode, key) by {
        assert(with_key(ordered, mode, key) == with_key(list, mode, key));
    }
    lemma_same_order(other, ordered, mode);
}

/// Ordering a list that is in order changes nothing.
pub proof fn law_order_twice(list: Seq<EntryModel>, mode: SortMode)
    ensures
        in_order(in_order(list, mode), mode) == in_order(list, mode),
{
    law_order_descends(list, mode);
    law_order_is_unique(in_order(list, mode), in_order(list, mode), mode);
}

/// The keys of a list fall from each entry to the next.
pub open spec fn falling(list: Seq<EntryModel>, mode: SortMode) -> bool {
    forall|i: int, j: int| 0 <= i < j < list.len() ==> mode.key(list[i]) > mode.key(list[j])
}

/// A list whose keys fall comes back from any other order.
pub proof fn law_falling_order_comes_back(list: Seq<EntryModel>, other: SortMode, mode: SortMode)
    requires
        falling(list, mode),
    ensures
        in_order(in_order(list, other), mode) == list,
{
    let between = in_order(list, other);
    law_order_is_stable(list, other);
    law_order_is_stable(between, mode);
    law_order_descends(between, mode);
    lemma_falling_is_unique(list, in_order(between, mode), mode);
}

/// A list whose keys fall is the only one with its entries that does not rise.
proof fn lemma_falling_is_unique(a: Seq<EntryModel>, b: Seq<EntryModel>, mode: SortMode)
    requires
        falling(a, mode),
        descending(b, mode),
        a.to_multiset() == b.to_multiset(),
    ensures
        a == b,
    decreases a.len(),
{
    broadcast use vstd::seq_lib::group_to_multiset_ensures;

    assert(a.len() == a.to_multiset().len() && b.len() == b.to_multiset().len());
    if a.len() > 0 {
        assert(b.contains(b[b.len() - 1]));
        assert(a.to_multiset().count(b.last()) > 0);
        let i = choose|i: int| 0 <= i < a.len() && a[i] == b.last();
        assert(a.contains(a[a.len() - 1]));
        assert(b.to_multiset().count(a.last()) > 0);
        let j = choose|j: int| 0 <= j < b.len() && b[j] == a.last();
        assert(mode.key(b[j]) >= mode.key(b[b.len() - 1]));
        assert(i == a.len() - 1) by {
            if i < a.len() - 1 {
                assert(mode.key(a[i]) > mode.key(a[a.len() - 1]));
            }
        }
        let a_rest = a.drop_last();
        let b_rest = b.drop_last();
        assert(a_rest.push(a.last()) == a);
        assert(b_rest.push(b.last()) == b);
        assert(a_rest.to_multiset() == a.to_multiset().remove(a.last()));
        assert(b_rest.to_multiset() == b.to_multiset().remove(b.last()));
        assert forall|i: int, j: int| 0 <= i < j < a_rest.len() implies mode.key(a_rest[i])
            > mode.key(a_rest[j]) by {
            assert(mode.key(a[i]) > mode.key(a[j]));
        }
        assert forall|i: int, j: int| 0 <= i <= j < b_rest.len() implies mode.key(b_rest[i])
            >= mode.key(b_rest[j]) by {
            assert(mode.key(b[i]) >= mode.key(b[j]));
        }
        lemma_falling_is_unique(a_rest, b_rest, mode);
    }
}

/// An entry put into a list that does not rise leaves it so, and the keys of
/// the result are those of the list and the entry.
proof fn lemma_placed_descends(list: Seq<EntryModel>, entry: EntryModel, mode: SortMode)
    requires
        descending(list, mode),
    ensures
        descending(placed(list, entry, mode), mode),
        placed(list, entry, mode).len() == list.len() + 1,
        list.len() > 0 && mode.key(list.last()) < mode.key(entry) ==> mode.key(
            placed(list, entry, mode).last(),
        ) == mode.key(list.last()),
        list.len() == 0 || mode.key(list.last()) >= mode.key(entry) ==> placed(
            list,
            entry,
            mode,
        ).last() == entry,
    decreases list.len(),
{
    if list.len() == 0 || mode.key(list.last()) >= mode.key(entry) {
    } else {
        let rest = list.drop_last();
        lemma_placed_descends(rest, entry, mode);
        let p = placed(rest, entry, mode);
        assert(mode.key(p.last()) >= mode.key(list.last()));
        assert forall|i: int, j: int| 0 <= i <= j < p.push(list.last()).len() implies mode.key(
            p.push(list.last())[i],
        ) >= mode.key(p.push(list.last())[j]) by {
            if j == p.len() && i < j {
                assert(mode.key(p[i]) >= mode.key(p.last()));
            }
        }
    }
}

/// An entry at the end of a list comes last among those with its key.
proof fn lemma_with_key_push(list: Seq<EntryModel>, entry: EntryModel, mode: SortMode, key: u64)
    ensures
        with_key(list.push(entry), mode, key) == if mode.key(entry) == key {
            with_key(list, mode, key).push(entry)
        } else {
            with_key(list, mode, key)
        },
{
    reveal(Seq::filter);
    assert(list.push(entry).drop_last() == list);
}

/// An entry put into a list comes last among those with its key.
proof fn lemma_placed_by_key(list: Seq<EntryModel>, entry: EntryModel, mode: SortMode, key: u64)
    ensures
        with_key(placed(list, entry, mode), mode, key) == with_key(list.push(entry), mode, key),
    decreases list.len(),
{
    if list.len() == 0 || mode.key(list.last()) >= mode.key(entry) {
    } else {
        let rest = list.drop_last();
        lemma_placed_by_key(rest, entry, mode, key);
        let p = placed(rest, entry, mode);
        lemma_with_key_push(p, list.last(), mode, key);
        lemma_with_key_push(list, entry, mode, key);
        lemma_with_key_push(rest, entry, mode, key);
        lemma_with_key_push(rest, list.last(), mode, key);
        assert(rest.push(list.last()) == list);
    }
}

/// Putting an entry into a list adds that entry and nothing else.
proof fn lemma_placed_multiset(list: Seq<EntryModel>, entry: EntryModel, mode: SortMode)
    ensures
        placed(list, entry, mode).to_multiset() == list.to_multiset().insert(entry),
        placed(list, entry, mode).len() == list.len() + 1,
    decreases list.len(),
{
    broadcast use vstd::seq_lib::group_to_multiset_ensures;

    if list.len() == 0 || mode.key(list.last()) >= mode.key(entry) {
    } else {
        let rest = list.drop_last();
        lemma_placed_multiset(rest, entry, mode);
        assert(rest.push(list.last()) == list);
        assert(rest.to_multiset().insert(entry).insert(list.last()) == rest.to_multiset().insert(
            list.last(),
        ).insert(entry));
    }
}

/// Two lists that do not rise and agree on every key are the same.
proof fn lemma_same_order(a: Seq<EntryModel>, b: Seq<EntryModel>, mode: SortMode)
    requires
        descending(a, mode),
        descending(b, mode),
        same_by_key(a, b, mode),
    ensures
        a == b,
    decreases a.len(),
{
    reveal(Seq::filter);
    if a.len() == 0 {
        if b.len() > 0 {
            let key = mode.key(b.last());
            assert(with_key(b, mode, key).last() == b.last());
            assert(with_key(a, mode, key).len() == 0);
        }
        assert(a == b);
    } else {
        let ka = mode.key(a.last());
        assert(with_key(a, mode, ka).last() == a.last());
        assert(with_key(a, mode, ka) == with_key(b, mode, ka));
        lemma_key_is_there(b, mode, ka);
        let kb = mode.key(b.last());
        assert(with_key(b, mode, kb).last() == b.last());
        assert(with_key(a, mode, kb) == with_key(b, mode, kb));
        lemma_key_is_there(a, mode, kb);
        assert(ka == kb);
        assert(a.last() == b.last());
        assert forall|key: u64| #[trigger]
            with_key(a.drop_last(), mode, key) == with_key(b.drop_last(), mode, key) by {
            assert(with_key(a, mode, key) == with_key(b, mode, key));
            if key == ka {
                assert(with_key(a, mode, key).drop_last() == with_key(a.drop_last(), mode, key));
                assert(with_key(b, mode, key).drop_last() == with_key(b.drop_last(), mode, key));
            }
        }
        lemma_same_order(a.drop_last(), b.drop_last(), mode);
        assert(a == a.drop_last().push(a.last()));
        assert(b == b.drop_last().push(b.last()));
    }
}

/// Where entries with a key are listed, one of the list has that key.
proof fn lemma_key_is_there(list: Seq<EntryModel>, mode: SortMode, key: u64)
    requires
        with_key(list, mode, key).len() > 0,
    ensures
        list.len() > 0,
        exists|i: int| 0 <= i < list.len() && mode.key(#[trigger] list[i]) == key,
    decreases list.len(),
{
    reveal(Seq::filter);
    if mode.key(list.last()) == key {
        assert(mode.key(list[list.len() - 1]) == key);
    } else {
        lemma_key_is_there(list.drop_last(), mode, key);
        let i = choose|i: int|
            0 <= i < list.drop_last().len() && mode.key(#[trigger] list.drop_last()[i]) == key;
        assert(mode.key(list[i]) == key);
    }
}

} // verus!
