//! Grouping of keyed entries and ranking of the groups.
//!
//! Every report of the store reduces its rows to entries, a key with a
//! number of units and an amount, and asks for the sums per key. The
//! definitions here say what those sums are and in which order the
//! groups come out.

use crate::log::MAX_ID;
use std::collections::HashMap;
use vstd::prelude::*;

verus! {

/// One row to be summed under `key`.
#[derive(Clone, Copy, Debug, PartialEq, Eq, Structural)]
pub struct Entry {
    pub key: i64,
    pub units: i32,
    pub amount: i64,
}

/// The sums of all entries that share `key`.
#[derive(Clone, Copy, Debug, PartialEq, Eq, Structural)]
pub struct Group {
    pub key: i64,
    /// Number of entries.
    pub count: i64,
    /// Sum of their units.
    pub units: i64,
    /// Sum of their amounts.
    pub amount: i128,
}

/// Number of entries with key `key`.
pub open spec fn count_for(entries: Seq<Entry>, key: i64) -> int
    decreases entries.len(),
{
    if entries.len() == 0 {
        0
    } else {
        count_for(entries.drop_last(), key) + if entries.last().key == key {
            1int
        } else {
            0int
        }
    }
}

/// Sum of the units of the entries with key `key`.
pub open spec fn units_for(entries: Seq<Entry>, key: i64) -> int
    decreases entries.len(),
{
    if entries.len() == 0 {
        0
    } else {
        units_for(entries.drop_last(), key) + if entries.last().key == key {
            entries.last().units as int
        } else {
            0int
        }
    }
}

/// Sum of the amounts of the entries with key `key`.
pub open spec fn amount_for(entries: Seq<Entry>, key: i64) -> int
    decreases entries.len(),
{
    if entries.len() == 0 {
        0
    } else {
        amount_for(entries.drop_last(), key) + if entries.last().key == key {
            entries.last().amount as int
        } else {
            0int
        }
    }
}

/// Sum of the units of all `entries`.
pub open spec fn total_units(entries: Seq<Entry>) -> int
    decreases entries.len(),
{
    if entries.len() == 0 {
        0
    } else {
        total_units(entries.drop_last()) + entries.last().units
    }
}

/// Sum of the amounts of all `entries`.
pub open spec fn total_amount(entries: Seq<Entry>) -> int
    decreases entries.len(),
{
    if entries.len() == 0 {
        0
    } else {
        total_amount(entries.drop_last()) + entries.last().amount
    }
}

/// Sum of the counts of all groups of `list`.
pub open spec fn sum_of_counts(list: Seq<Group>) -> int
    decreases list.len(),
{
    if list.len() == 0 {
        0
    } else {
        sum_of_counts(list.drop_last()) + list.last().count
    }
}

/// Sum of the units of all groups of `list`.
pub open spec fn sum_of_units(list: Seq<Group>) -> int
    decreases list.len(),
{
    if list.len() == 0 {
        0
    } else {
        sum_of_units(list.drop_last()) + list.last().units
    }
}

/// Sum of the amounts of all groups of `list`.
pub open spec fn sum_of_amounts(list: Seq<Group>) -> int
    decreases list.len(),
{
    if list.len() == 0 {
        0
    } else {
        sum_of_amounts(list.drop_last()) + list.last().amount
    }
}

/// The keys of `entries`, each once, in the order in which they first
/// occur.
pub open spec fn keys_seen(entries: Seq<Entry>) -> Seq<i64>
    decreases entries.len(),
{
    if entries.len() == 0 {
        Seq::empty()
    } else {
        let earlier = keys_seen(entries.drop_last());
        if earlier.contains(entries.last().key) {
            earlier
        } else {
            earlier.push(entries.last().key)
        }
    }
}

/// The group of `key`: the sums over the entries that carry it.
pub open spec fn group_for(entries: Seq<Entry>, key: i64) -> Group {
    Group {
        key,
        count: count_for(entries, key) as i64,
        units: units_for(entries, key) as i64,
        amount: amount_for(entries, key) as i128,
    }
}

/// One group for every key of `entries`, in the order in which the
/// keys first occur.
pub open spec fn groups(entries: Seq<Entry>) -> Seq<Group> {
    Seq::new(keys_seen(entries).len(), |i: int| group_for(entries, keys_seen(entries)[i]))
}

/// Appending an entry adds it to the sums of its key and to no others.
pub proof fn lemma_sums_push(entries: Seq<Entry>, entry: Entry, key: i64)
    ensures
        count_for(entries.push(entry), key) == count_for(entries, key) + if entry.key == key {
            1int
        } else {
            0int
        },
        units_for(entries.push(entry), key) == units_for(entries, key) + if entry.key == key {
            entry.units as int
        } else {
            0int
        },
        amount_for(entries.push(entry), key) == amount_for(entries, key) + if entry.key == key {
            entry.amount as int
        } else {
            0int
        },
{
    assert(entries.push(entry).drop_last() == entries);
}

/// The sums of `n` entries stay within `n` times the range of one entry.
pub proof fn lemma_sums_bounds(entries: Seq<Entry>, key: i64)
    ensures
        0 <= count_for(entries, key) <= entries.len(),
        entries.len() * i32::MIN <= units_for(entries, key) <= entries.len() * i32::MAX,
        entries.len() * i64::MIN <= amount_for(entries, key) <= entries.len() * i64::MAX,
    decreases entries.len(),
{
    if entries.len() > 0 {
        lemma_sums_bounds(entries.drop_last(), key);
        let n = entries.len() as int;
        assert(n * i32::MIN == (n - 1) * i32::MIN + i32::MIN) by (nonlinear_arith);
        assert(n * i32::MAX == (n - 1) * i32::MAX + i32::MAX) by (nonlinear_arith);
        assert(n * i64::MIN == (n - 1) * i64::MIN + i64::MIN) by (nonlinear_arith);
        assert(n * i64::MAX == (n - 1) * i64::MAX + i64::MAX) by (nonlinear_arith);
    }
}

/// With at most [`MAX_ID`] entries every sum fits the field of
/// [`Group`] that holds it.
pub proof fn lemma_sums_fit(entries: Seq<Entry>, key: i64)
    requires
        entries.len() <= MAX_ID,
    ensures
        0 <= count_for(entries, key) <= MAX_ID,
        -0x4000_0000_0000_0000 <= units_for(entries, key) <= 0x4000_0000_0000_0000,
        -0x4000_0000_0000_0000_0000_0000 <= amount_for(entries, key)
            <= 0x4000_0000_0000_0000_0000_0000,
{
    lemma_sums_bounds(entries, key);
    let n = entries.len() as int;
    assert(n * i32::MIN >= MAX_ID * i32::MIN && n * i32::MAX <= MAX_ID * i32::MAX && n * i64::MIN
        >= MAX_ID * i64::MIN && n * i64::MAX <= MAX_ID * i64::MAX) by (nonlinear_arith)
        requires
            0 <= n <= MAX_ID,
    ;
}

/// A key that is not counted has sums of zero.
pub proof fn lemma_uncounted_key(entries: Seq<Entry>, key: i64)
    requires
        count_for(entries, key) == 0,
    ensures
        units_for(entries, key) == 0,
        amount_for(entries, key) == 0,
    decreases entries.len(),
{
    if entries.len() > 0 {
        lemma_sums_bounds(entries.drop_last(), key);
        lemma_uncounted_key(entries.drop_last(), key);
    }
}

/// `keys_seen` holds exactly the keys that occur, each once, and a key
/// that does not occur has sums of zero.
pub proof fn lemma_keys_seen(entries: Seq<Entry>)
    ensures
        keys_seen(entries).no_duplicates(),
        forall|key: i64| #[trigger]
            keys_seen(entries).contains(key) <==> count_for(entries, key) > 0,
        forall|key: i64|
            count_for(entries, key) == 0 ==> #[trigger] units_for(entries, key) == 0
                && amount_for(entries, key) == 0,
        keys_seen(entries).len() <= entries.len(),
    decreases entries.len(),
{
    if entries.len() > 0 {
        let earlier = entries.drop_last();
        let last = entries.last();
        lemma_keys_seen(earlier);
        assert forall|key: i64| #[trigger]
            keys_seen(entries).contains(key) <==> count_for(entries, key) > 0 by {
            lemma_sums_bounds(earlier, key);
            if keys_seen(earlier).contains(last.key) {
            } else {
                let seen = keys_seen(earlier);
                assert(keys_seen(entries) == seen.push(last.key));
                if seen.push(last.key).contains(key) {
                    let i = choose|i: int|
                        0 <= i < seen.push(last.key).len() && seen.push(last.key)[i] == key;
                    if i < seen.len() {
                        assert(seen[i] == key);
                        assert(seen.contains(key));
                    }
                }
                if key == last.key {
                    assert(seen.push(last.key)[seen.len() as int] == key);
                } else if seen.contains(key) {
                    let i = choose|i: int| 0 <= i < seen.len() && seen[i] == key;
                    assert(seen.push(last.key)[i] == key);
                }
            }
        }
    }
    assert forall|key: i64| count_for(entries, key) == 0 implies #[trigger] units_for(
        entries,
        key,
    ) == 0 && amount_for(entries, key) == 0 by {
        lemma_uncounted_key(entries, key);
    }
}

/// A key that is counted occurs among the entries.
pub proof fn lemma_counted_key_occurs(entries: Seq<Entry>, key: i64)
    requires
        count_for(entries, key) > 0,
    ensures
        exists|j: int| 0 <= j < entries.len() && (#[trigger] entries[j]).key == key,
    decreases entries.len(),
{
    if entries.last().key == key {
        assert(entries[entries.len() - 1].key == key);
    } else {
        lemma_counted_key_occurs(entries.drop_last(), key);
        let j = choose|j: int|
            0 <= j < entries.drop_last().len() && (#[trigger] entries.drop_last()[j]).key == key;
        assert(entries[j].key == key);
    }
}

/// A key that occurs among the entries is counted.
pub proof fn lemma_occurring_key_counted(entries: Seq<Entry>, j: int)
    requires
        0 <= j < entries.len(),
    ensures
        count_for(entries, entries[j].key) > 0,
    decreases entries.len(),
{
    lemma_sums_bounds(entries.drop_last(), entries[j].key);
    if j < entries.len() - 1 {
        lemma_occurring_key_counted(entries.drop_last(), j);
    }
}

/// Every group is the group of its key, no two groups share a key, a
/// key has a group exactly when it is counted, and the key of every
/// group occurs among the entries.
pub proof fn lemma_groups(entries: Seq<Entry>)
    ensures
        groups(entries).len() == keys_seen(entries).len(),
        groups(entries).len() <= entries.len(),
        keys_distinct(groups(entries)),
        forall|i: int|
            0 <= i < groups(entries).len() ==> #[trigger] groups(entries)[i] == group_for(
                entries,
                groups(entries)[i].key,
            ) && count_for(entries, groups(entries)[i].key) > 0,
        forall|key: i64|
            count_for(entries, key) > 0 ==> exists|i: int|
                0 <= i < groups(entries).len() && (#[trigger] groups(entries)[i]).key == key,
{
    lemma_keys_seen(entries);
    let seen = keys_seen(entries);
    assert forall|i: int| 0 <= i < groups(entries).len() implies #[trigger] groups(entries)[i]
        == group_for(entries, groups(entries)[i].key) && count_for(
        entries,
        groups(entries)[i].key,
    ) > 0 by {
        assert(seen.contains(seen[i]));
    }
    assert forall|key: i64| count_for(entries, key) > 0 implies exists|i: int|
        0 <= i < groups(entries).len() && (#[trigger] groups(entries)[i]).key == key by {
        assert(seen.contains(key));
        let i = choose|i: int| 0 <= i < seen.len() && seen[i] == key;
        assert(groups(entries)[i].key == key);
    }
}

/// Sums the entries by key in one pass.
pub(crate) fn tally(entries: &Vec<Entry>) -> (sums: Vec<Group>)
    requires
        entries@.len() <= MAX_ID,
    ensures
        sums@ == groups(entries@),
{
    let mut sums: Vec<Group> = Vec::new();
    let mut index: HashMap<i64, usize> = HashMap::new();
    let mut i: usize = 0;
    assert(groups(entries@.take(0)) == Seq::<Group>::empty());
    while i < entries.len()
        invariant
            0 <= i <= entries.len(),
            entries@.len() <= MAX_ID,
            sums@ == groups(entries@.take(i as int)),
            forall|j: int|
                0 <= j < sums@.len() ==> index@.contains_key(#[trigger] sums@[j].key) && index@[sums@[j].key]
                    == j,
            forall|key: i64| #[trigger]
                index@.contains_key(key) ==> 0 <= index@[key] < sums@.len() && sums@[index@[key] as int].key
                    == key,
        decreases entries.len() - i,
    {
        let entry = entries[i];
        proof {
            assert(entries@.take(i + 1) == entries@.take(i as int).push(entry));
            lemma_groups_push(entries@.take(i as int), entry);
        }
        match index.get(&entry.key) {
            Some(at) => {
                let at = *at;
                let current = sums[at];
                sums.set(
                    at,
                    Group {
                        key: current.key,
                        count: current.count + 1,
                        units: current.units + entry.units as i64,
                        amount: current.amount + entry.amount as i128,
                    },
                );
            },
            None => {
                index.insert(entry.key, sums.len());
                sums.push(
                    Group {
                        key: entry.key,
                        count: 1,
                        units: entry.units as i64,
                        amount: entry.amount as i128,
                    },
                );
            },
        }
        i += 1;
    }
    assert(entries@.take(entries@.len() as int) == entries@);
    sums
}

/// Putting a group in the place of another changes the sums by the
/// difference of the two.
pub proof fn lemma_sums_after_update(list: Seq<Group>, at: int, group: Group)
    requires
        0 <= at < list.len(),
    ensures
        sum_of_counts(list.update(at, group)) == sum_of_counts(list) - list[at].count
            + group.count,
        sum_of_units(list.update(at, group)) == sum_of_units(list) - list[at].units + group.units,
        sum_of_amounts(list.update(at, group)) == sum_of_amounts(list) - list[at].amount
            + group.amount,
    decreases list.len(),
{
    if at == list.len() - 1 {
        assert(list.update(at, group).drop_last() == list.drop_last());
    } else {
        lemma_sums_after_update(list.drop_last(), at, group);
        assert(list.update(at, group).drop_last() == list.drop_last().update(at, group));
    }
}

/// Putting a further group into a list adds it to the sums, wherever
/// it goes.
pub proof fn lemma_sums_after_insert(list: Seq<Group>, at: int, group: Group)
    requires
        0 <= at <= list.len(),
    ensures
        sum_of_counts(list.insert(at, group)) == sum_of_counts(list) + group.count,
        sum_of_units(list.insert(at, group)) == sum_of_units(list) + group.units,
        sum_of_amounts(list.insert(at, group)) == sum_of_amounts(list) + group.amount,
    decreases list.len(),
{
    if at == list.len() {
        assert(list.insert(at, group).drop_last() == list);
    } else {
        lemma_sums_after_insert(list.drop_last(), at, group);
        assert(list.insert(at, group).drop_last() == list.drop_last().insert(at, group));
        assert(list.insert(at, group).last() == list.last());
    }
}

/// `group` after it has taken up `entry`.
pub open spec fn taking_up(group: Group, entry: Entry) -> Group {
    Group {
        key: group.key,
        count: (group.count + 1) as i64,
        units: (group.units + entry.units) as i64,
        amount: (group.amount + entry.amount) as i128,
    }
}

/// The group of `entry` alone.
pub open spec fn group_of_one(entry: Entry) -> Group {
    Group { key: entry.key, count: 1, units: entry.units as i64, amount: entry.amount as i128 }
}

/// How a further entry changes the groups: the group of its key takes
/// it up, without any sum leaving the range of its field; when no group
/// has the key, a group for the entry is added at the end.
pub proof fn lemma_groups_push(entries: Seq<Entry>, entry: Entry)
    requires
        entries.len() < MAX_ID,
    ensures
        forall|at: int|
            0 <= at < groups(entries).len() && (#[trigger] groups(entries)[at]).key == entry.key
                ==> {
                &&& groups(entries.push(entry)) == groups(entries).update(
                    at,
                    taking_up(groups(entries)[at], entry),
                )
                &&& groups(entries)[at].count + 1 <= i64::MAX
                &&& i64::MIN <= groups(entries)[at].units + entry.units <= i64::MAX
                &&& i128::MIN <= groups(entries)[at].amount + entry.amount <= i128::MAX
            },
        (forall|at: int|
            0 <= at < groups(entries).len() ==> (#[trigger] groups(entries)[at]).key != entry.key)
            ==> groups(entries.push(entry)) == groups(entries).push(group_of_one(entry)),
{
    let after = entries.push(entry);
    let seen = keys_seen(entries);
    assert(after.drop_last() == entries);
    lemma_keys_seen(entries);
    lemma_keys_seen(after);
    lemma_sums_fit(entries, entry.key);
    lemma_sums_fit(after, entry.key);
    lemma_sums_push(entries, entry, entry.key);
    assert forall|key: i64| key != entry.key implies group_for(after, key) == group_for(
        entries,
        key,
    ) by {
        lemma_sums_push(entries, entry, key);
    }
    assert forall|at: int|
        0 <= at < groups(entries).len() && (#[trigger] groups(entries)[at]).key
            == entry.key implies groups(after) == groups(entries).update(
        at,
        taking_up(groups(entries)[at], entry),
    ) by {
        assert(seen[at] == entry.key);
        assert(keys_seen(after) == seen);
        let changed = groups(entries).update(at, taking_up(groups(entries)[at], entry));
        assert forall|j: int| 0 <= j < changed.len() implies changed[j] == groups(after)[j] by {
            if j != at {
                assert(seen[j] != seen[at]);
            }
        }
    }
    if forall|at: int|
        0 <= at < groups(entries).len() ==> (#[trigger] groups(entries)[at]).key != entry.key {
        if seen.contains(entry.key) {
            let at = choose|at: int| 0 <= at < seen.len() && seen[at] == entry.key;
            assert(groups(entries)[at].key == entry.key);
        }
        assert(keys_seen(after) == seen.push(entry.key));
        let longer = groups(entries).push(group_of_one(entry));
        assert forall|j: int| 0 <= j < longer.len() implies longer[j] == groups(after)[j] by {
            if j < seen.len() {
                assert(seen[j] != entry.key);
            }
        }
        assert(groups(after) == longer);
    }
}

/// The groups divide the entries among themselves: their counts add up
/// to the number of entries, their units to the units of all entries,
/// and their amounts to the amounts of all entries. Nothing is counted
/// twice and nothing is left out.
pub proof fn lemma_groups_add_up(entries: Seq<Entry>)
    requires
        entries.len() <= MAX_ID,
    ensures
        sum_of_counts(groups(entries)) == entries.len(),
        sum_of_units(groups(entries)) == total_units(entries),
        sum_of_amounts(groups(entries)) == total_amount(entries),
    decreases entries.len(),
{
    if entries.len() == 0 {
        assert(groups(entries).len() == 0);
    } else {
        let earlier = entries.drop_last();
        let entry = entries.last();
        let list = groups(earlier);
        assert(entries == earlier.push(entry));
        lemma_groups_add_up(earlier);
        lemma_groups_push(earlier, entry);
        if exists|at: int| 0 <= at < list.len() && (#[trigger] list[at]).key == entry.key {
            let at = choose|at: int| 0 <= at < list.len() && (#[trigger] list[at]).key == entry.key;
            lemma_sums_after_update(list, at, taking_up(list[at], entry));
        } else {
            assert(list.push(group_of_one(entry)).drop_last() == list);
        }
    }
}

/// The order in which a report lists its groups.
#[derive(Clone, Copy, Debug, PartialEq, Eq, Structural)]
pub enum Ranking {
    /// Smallest key first.
    KeyAscending,
    /// Most units first; among equal units, smallest key first.
    UnitsDescending,
    /// Largest amount first; among equal amounts, smallest key first.
    AmountDescending,
}

/// Whether `a` is listed before `b` under `order`.
pub open spec fn goes_before(a: Group, b: Group, order: Ranking) -> bool {
    match order {
        Ranking::KeyAscending => a.key < b.key,
        Ranking::UnitsDescending => a.units > b.units || (a.units == b.units && a.key < b.key),
        Ranking::AmountDescending => a.amount > b.amount || (a.amount == b.amount && a.key
            < b.key),
    }
}

/// Whether no group of `list` goes before one that stands earlier.
pub open spec fn in_rank_order(list: Seq<Group>, order: Ranking) -> bool {
    forall|i: int, j: int| 0 <= i < j < list.len() ==> !goes_before(list[j], list[i], order)
}

/// Whether no two groups of `list` share a key.
pub open spec fn keys_distinct(list: Seq<Group>) -> bool {
    forall|i: int, j: int| 0 <= i < j < list.len() ==> list[i].key != list[j].key
}

/// Where `group` enters a list that is in rank order: behind every
/// group that it does not go before.
pub open spec fn rank_position(list: Seq<Group>, group: Group, order: Ranking) -> int
    decreases list.len(),
{
    if list.len() == 0 {
        0
    } else if goes_before(group, list.last(), order) {
        rank_position(list.drop_last(), group, order)
    } else {
        list.len() as int
    }
}

/// The groups of `list` in rank order.
pub open spec fn ranked(list: Seq<Group>, order: Ranking) -> Seq<Group>
    decreases list.len(),
{
    if list.len() == 0 {
        Seq::empty()
    } else {
        let earlier = ranked(list.drop_last(), order);
        earlier.insert(rank_position(earlier, list.last(), order), list.last())
    }
}

/// `group` goes before everything from its rank position on, and not
/// before what stands just ahead of that position.
pub proof fn lemma_rank_position(list: Seq<Group>, group: Group, order: Ranking)
    ensures
        0 <= rank_position(list, group, order) <= list.len(),
        forall|k: int|
            rank_position(list, group, order) <= k < list.len() ==> goes_before(
                group,
                #[trigger] list[k],
                order,
            ),
        rank_position(list, group, order) > 0 ==> !goes_before(
            group,
            list[rank_position(list, group, order) - 1],
            order,
        ),
    decreases list.len(),
{
    if list.len() > 0 && goes_before(group, list.last(), order) {
        lemma_rank_position(list.drop_last(), group, order);
        assert forall|k: int|
            rank_position(list, group, order) <= k < list.len() implies goes_before(
            group,
            #[trigger] list[k],
            order,
        ) by {
            if k < list.len() - 1 {
                assert(list.drop_last()[k] == list[k]);
            }
        }
    }
}

/// Ranking puts the groups in rank order and neither adds nor drops one.
pub proof fn lemma_ranked(list: Seq<Group>, order: Ranking)
    ensures
        in_rank_order(ranked(list, order), order),
        ranked(list, order).to_multiset() == list.to_multiset(),
        ranked(list, order).len() == list.len(),
    decreases list.len(),
{
    broadcast use vstd::seq_lib::group_to_multiset_ensures;

    if list.len() > 0 {
        let earlier = ranked(list.drop_last(), order);
        let group = list.last();
        let at = rank_position(earlier, group, order);
        lemma_ranked(list.drop_last(), order);
        lemma_rank_position(earlier, group, order);
        let result = earlier.insert(at, group);
        assert forall|i: int, j: int| 0 <= i < j < result.len() implies !goes_before(
            result[j],
            result[i],
            order,
        ) by {
            if j == at {
                if i < at - 1 {
                    assert(!goes_before(earlier[at - 1], earlier[i], order));
                }
            } else if i == at {
                assert(goes_before(group, earlier[j - 1], order));
            } else {
                let a = if i < at {
                    i
                } else {
                    i - 1
                };
                let b = if j < at {
                    j
                } else {
                    j - 1
                };
                assert(!goes_before(earlier[b], earlier[a], order));
            }
        }
        vstd::seq_lib::to_multiset_insert(earlier, at, group);
        assert(list == list.drop_last().push(group));
        vstd::seq_lib::to_multiset_build(list.drop_last(), group);
    }
}

/// Ranking changes no sum.
pub proof fn lemma_ranked_sums(list: Seq<Group>, order: Ranking)
    ensures
        sum_of_counts(ranked(list, order)) == sum_of_counts(list),
        sum_of_units(ranked(list, order)) == sum_of_units(list),
        sum_of_amounts(ranked(list, order)) == sum_of_amounts(list),
    decreases list.len(),
{
    if list.len() > 0 {
        let earlier = ranked(list.drop_last(), order);
        lemma_ranked_sums(list.drop_last(), order);
        lemma_rank_position(earlier, list.last(), order);
        lemma_sums_after_insert(earlier, rank_position(earlier, list.last(), order), list.last());
    }
}

/// Ranking keeps the groups: each ranked group stands in the list, each
/// group of the list stands in the ranking, and keys that were distinct
/// stay distinct.
pub proof fn lemma_ranked_members(list: Seq<Group>, order: Ranking)
    ensures
        forall|i: int|
            0 <= i < ranked(list, order).len() ==> list.contains(#[trigger] ranked(list, order)[i]),
        forall|i: int| 0 <= i < list.len() ==> ranked(list, order).contains(#[trigger] list[i]),
        keys_distinct(list) ==> keys_distinct(ranked(list, order)),
{
    broadcast use vstd::seq_lib::group_to_multiset_ensures;

    lemma_ranked(list, order);
    let result = ranked(list, order);
    assert forall|i: int| 0 <= i < result.len() implies list.contains(#[trigger] result[i]) by {
        assert(result.contains(result[i]));
        assert(result.to_multiset().count(result[i]) > 0);
    }
    assert forall|i: int| 0 <= i < list.len() implies result.contains(#[trigger] list[i]) by {
        assert(list.contains(list[i]));
        assert(list.to_multiset().count(list[i]) > 0);
    }
    if keys_distinct(list) {
        assert(list.no_duplicates()) by {
            assert forall|i: int, j: int| 0 <= i < list.len() && 0 <= j < list.len() && i != j implies list[i]
                != list[j] by {
                if i < j {
                    assert(list[i].key != list[j].key);
                } else {
                    assert(list[j].key != list[i].key);
                }
            }
        }
        list.lemma_multiset_has_no_duplicates();
        result.lemma_multiset_has_no_duplicates_conv();
        assert forall|i: int, j: int| 0 <= i < j < result.len() implies result[i].key
            != result[j].key by {
            assert(list.contains(result[i]));
            assert(list.contains(result[j]));
            let a = choose|a: int| 0 <= a < list.len() && list[a] == result[i];
            let b = choose|b: int| 0 <= b < list.len() && list[b] == result[j];
            assert(result[i] != result[j]);
            if a < b {
                assert(list[a].key != list[b].key);
            } else {
                assert(list[b].key != list[a].key);
            }
        }
    }
}

/// What a ranked list of groups says of a key: a group with that key
/// holds the sums of the key, and a key without a group occurs in no
/// entry, so that its sums are zero.
pub proof fn lemma_ranked_groups(entries: Seq<Entry>, order: Ranking, key: i64)
    requires
        entries.len() <= MAX_ID,
    ensures
        forall|i: int|
            0 <= i < ranked(groups(entries), order).len() && (#[trigger] ranked(
                groups(entries),
                order,
            )[i]).key == key ==> {
                &&& ranked(groups(entries), order)[i].count == count_for(entries, key)
                &&& ranked(groups(entries), order)[i].units == units_for(entries, key)
                &&& ranked(groups(entries), order)[i].amount == amount_for(entries, key)
                &&& count_for(entries, key) > 0
            },
        (forall|i: int|
            0 <= i < ranked(groups(entries), order).len() ==> (#[trigger] ranked(
                groups(entries),
                order,
            )[i]).key != key) ==> {
            &&& count_for(entries, key) == 0
            &&& units_for(entries, key) == 0
            &&& amount_for(entries, key) == 0
        },
{
    let list = ranked(groups(entries), order);
    lemma_groups(entries);
    lemma_keys_seen(entries);
    lemma_ranked_members(groups(entries), order);
    lemma_sums_fit(entries, key);
    lemma_sums_bounds(entries, key);
    assert forall|i: int| 0 <= i < list.len() && (#[trigger] list[i]).key == key implies {
        &&& list[i].count == count_for(entries, key)
        &&& list[i].units == units_for(entries, key)
        &&& list[i].amount == amount_for(entries, key)
        &&& count_for(entries, key) > 0
    } by {
        assert(groups(entries).contains(list[i]));
    }
    if forall|i: int| 0 <= i < list.len() ==> (#[trigger] list[i]).key != key {
        if count_for(entries, key) > 0 {
            let a = choose|a: int|
                0 <= a < groups(entries).len() && (#[trigger] groups(entries)[a]).key == key;
            assert(list.contains(groups(entries)[a]));
            let i = choose|i: int| 0 <= i < list.len() && list[i] == groups(entries)[a];
            assert(list[i].key == key);
        }
    }
}

/// Of two groups with different keys one goes before the other, so a
/// list in rank order whose keys are distinct is strictly ordered.
pub proof fn lemma_rank_order_strict(list: Seq<Group>, order: Ranking)
    requires
        in_rank_order(list, order),
        keys_distinct(list),
    ensures
        forall|i: int, j: int| 0 <= i < j < list.len() ==> goes_before(list[i], list[j], order),
{
    assert forall|i: int, j: int| 0 <= i < j < list.len() implies goes_before(
        list[i],
        list[j],
        order,
    ) by {
        assert(!goes_before(list[j], list[i], order));
        assert(list[i].key != list[j].key);
    }
}

/// There is one way only to put groups with distinct keys in rank
/// order: two lists in rank order that hold the same groups are the
/// same list. So `ranked` is the list in rank order.
pub proof fn lemma_rank_order_unique(a: Seq<Group>, b: Seq<Group>, order: Ranking)
    requires
        a.to_multiset() == b.to_multiset(),
        in_rank_order(a, order),
        in_rank_order(b, order),
        keys_distinct(a),
    ensures
        a == b,
    decreases a.len(),
{
    broadcast use vstd::seq_lib::group_to_multiset_ensures;

    assert(a.len() == a.to_multiset().len());
    assert(b.len() == b.to_multiset().len());
    if a.len() > 0 {
        let n = a.len() as int;
        let x = a.last();
        assert(a.no_duplicates()) by {
            assert forall|i: int, j: int| 0 <= i < n && 0 <= j < n && i != j implies a[i]
                != a[j] by {
                if i < j {
                    assert(a[i].key != a[j].key);
                } else {
                    assert(a[j].key != a[i].key);
                }
            }
        }
        a.lemma_multiset_has_no_duplicates();
        b.lemma_multiset_has_no_duplicates_conv();
        lemma_rank_order_strict(a, order);
        assert(a.contains(x));
        assert(b.to_multiset().count(x) > 0);
        assert(b.contains(x));
        let j = choose|j: int| 0 <= j < n && b[j] == x;
        if j < n - 1 {
            let y = b.last();
            assert(b.contains(y));
            assert(a.to_multiset().count(y) > 0);
            assert(a.contains(y));
            let i = choose|i: int| 0 <= i < n && a[i] == y;
            assert(b[j] != b[n - 1]);
            assert(i < n - 1);
            assert(goes_before(a[i], a[n - 1], order));
            assert(!goes_before(b[n - 1], b[j], order));
            assert(false);
        }
        assert(b.last() == x);
        assert(a.remove(n - 1) == a.drop_last());
        assert(b.remove(n - 1) == b.drop_last());
        vstd::seq_lib::to_multiset_remove(a, n - 1);
        vstd::seq_lib::to_multiset_remove(b, n - 1);
        lemma_rank_order_unique(a.drop_last(), b.drop_last(), order);
        assert(a == a.drop_last().push(x));
        assert(b == b.drop_last().push(x));
    }
}

/// Whether `a` is listed before `b` under `order`.
fn comes_before(a: &Group, b: &Group, order: Ranking) -> (before: bool)
    ensures
        before == goes_before(*a, *b, order),
{
    match order {
        Ranking::KeyAscending => a.key < b.key,
        Ranking::UnitsDescending => a.units > b.units || (a.units == b.units && a.key < b.key),
        Ranking::AmountDescending => a.amount > b.amount || (a.amount == b.amount && a.key
            < b.key),
    }
}

/// Puts the groups in rank order.
pub(crate) fn rank(list: &Vec<Group>, order: Ranking) -> (result: Vec<Group>)
    ensures
        result@ == ranked(list@, order),
{
    let mut result: Vec<Group> = Vec::new();
    let mut i: usize = 0;
    while i < list.len()
        invariant
            0 <= i <= list.len(),
            result@ == ranked(list@.take(i as int), order),
        decreases list.len() - i,
    {
        let group = list[i];
        let mut at: usize = result.len();
        assert(result@.take(at as int) == result@);
        while at > 0 && comes_before(&group, &result[at - 1], order)
            invariant
                0 <= at <= result.len(),
                rank_position(result@, group, order) == rank_position(
                    result@.take(at as int),
                    group,
                    order,
                ),
            decreases at,
        {
            assert(result@.take(at as int).drop_last() == result@.take(at - 1));
            at -= 1;
        }
        proof {
            assert(list@.take(i + 1).drop_last() == list@.take(i as int));
        }
        result.insert(at, group);
        i += 1;
    }
    assert(list@.take(list@.len() as int) == list@);
    result
}

/// The group of `key` in a list ordered by ascending key, if the list
/// has one.
pub(crate) fn find_group(list: &Vec<Group>, key: i64) -> (result: Option<usize>)
    requires
        forall|i: int, j: int| 0 <= i < j < list@.len() ==> list@[i].key < list@[j].key,
    ensures
        match result {
            Some(at) => at < list@.len() && list@[at as int].key == key,
            None => forall|i: int| 0 <= i < list@.len() ==> (#[trigger] list@[i]).key != key,
        },
{
    let mut low: usize = 0;
    let mut high: usize = list.len();
    while low < high
        invariant
            0 <= low <= high <= list@.len(),
            forall|i: int, j: int| 0 <= i < j < list@.len() ==> list@[i].key < list@[j].key,
            forall|i: int| 0 <= i < low ==> (#[trigger] list@[i]).key < key,
            forall|i: int| high <= i < list@.len() ==> (#[trigger] list@[i]).key > key,
        decreases high - low,
    {
        let middle = low + (high - low) / 2;
        let found = list[middle].key;
        if found == key {
            return Some(middle);
        } else if found < key {
            assert forall|i: int| 0 <= i < middle + 1 implies (#[trigger] list@[i]).key < key by {
                if i < middle {
                    assert(list@[i].key < list@[middle as int].key);
                }
            }
            low = middle + 1;
        } else {
            assert forall|i: int| middle <= i < list@.len() implies (#[trigger] list@[i]).key
                > key by {
                if middle < i {
                    assert(list@[middle as int].key < list@[i].key);
                }
            }
            high = middle;
        }
    }
    None
}

/// The groups of `entries`, smallest key first.
pub(crate) fn sheet(entries: &Vec<Entry>) -> (list: Vec<Group>)
    requires
        entries@.len() <= MAX_ID,
    ensures
        list@ == ranked(groups(entries@), Ranking::KeyAscending),
        forall|i: int, j: int| 0 <= i < j < list@.len() ==> list@[i].key < list@[j].key,
{
    let sums = tally(entries);
    let list = rank(&sums, Ranking::KeyAscending);
    proof {
        lemma_groups(entries@);
        lemma_ranked(sums@, Ranking::KeyAscending);
        lemma_ranked_members(sums@, Ranking::KeyAscending);
        lemma_rank_order_strict(list@, Ranking::KeyAscending);
        assert forall|i: int, j: int| 0 <= i < j < list@.len() implies list@[i].key
            < list@[j].key by {
            assert(goes_before(list@[i], list@[j], Ranking::KeyAscending));
        }
    }
    list
}

} // verus!
