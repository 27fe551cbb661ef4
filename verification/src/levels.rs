//! Price levels: a sorted map from a YES price in micro-dollars to its size.

use crate::px::Px;
use crate::qty::Qty;
use std::collections::BTreeMap;
use vstd::prelude::*;

verus! {

/// `k` is the highest price of the map.
pub open spec fn is_highest(levels: Map<i64, Qty>, k: i64) -> bool {
    levels.contains_key(k) && forall|j: i64| #[trigger] levels.contains_key(j) ==> j <= k
}

/// `k` is the lowest price of the map.
pub open spec fn is_lowest(levels: Map<i64, Qty>, k: i64) -> bool {
    levels.contains_key(k) && forall|j: i64| #[trigger] levels.contains_key(j) ==> k <= j
}

/// `list` holds the levels of the map, each once, by ascending price.
pub open spec fn lists_ascending(list: Seq<(Px, Qty)>, levels: Map<i64, Qty>) -> bool {
    &&& forall|i: int, j: int|
        0 <= i < j < list.len() ==> (#[trigger] list[i]).0.0 < (#[trigger] list[j]).0.0
    &&& forall|i: int|
        0 <= i < list.len() ==> levels.contains_key((#[trigger] list[i]).0.0) && levels[list[i].0.0]
            == list[i].1
    &&& forall|k: i64| #[trigger]
        levels.contains_key(k) ==> exists|i: int|
            0 <= i < list.len() && (#[trigger] list[i]).0.0 == k
}

/// `BTreeMap::last_key_value` gives the entry whose key is the greatest, and
/// nothing exactly when the map is empty.
#[verifier::external_body]
pub(crate) fn highest_level(levels: &BTreeMap<i64, Qty>) -> (out: Option<(i64, Qty)>)
    ensures
        match out {
            Some((price, size)) => is_highest(levels@, price) && levels@[price] == size,
            None => forall|k: i64| !(#[trigger] levels@.contains_key(k)),
        },
{
    levels.last_key_value().map(|(price, size)| (*price, *size))
}

/// `BTreeMap::first_key_value` gives the entry whose key is the least, and
/// nothing exactly when the map is empty.
#[verifier::external_body]
pub(crate) fn lowest_level(levels: &BTreeMap<i64, Qty>) -> (out: Option<(i64, Qty)>)
    ensures
        match out {
            Some((price, size)) => is_lowest(levels@, price) && levels@[price] == size,
            None => forall|k: i64| !(#[trigger] levels@.contains_key(k)),
        },
{
    levels.first_key_value().map(|(price, size)| (*price, *size))
}

/// The levels by ascending price.
pub fn list_levels(levels: &BTreeMap<i64, Qty>) -> (out: Vec<(Px, Qty)>)
    ensures
        lists_ascending(out@, levels@),
        out@.len() == levels@.len(),
{
    let mut out: Vec<(Px, Qty)> = Vec::new();
    let entries = levels.iter();
    let ghost all = vstd::std_specs::iter::IteratorSpec::remaining(&entries);
    let ghost keys = all.map_values(|entry: (&i64, &Qty)| *entry.0);
    proof {
        assert(vstd::std_specs::btree::key_obeys_cmp_spec::<i64>());
        assert(vstd::std_specs::btree::increasing_seq(keys));
        assert forall|i: int, j: int| 0 <= i < j < all.len() implies *(#[trigger] all[i]).0 < *(
        #[trigger] all[j]).0 by {
            assert(vstd::std_specs::cmp::OrdSpec::cmp_spec(&keys[i], &keys[j]) is Less);
            assert(keys[i] < keys[j]);
        }
        assert forall|k: i64| #[trigger] levels@.contains_key(k) implies exists|i: int|
            0 <= i < all.len() && *(#[trigger] all[i]).0 == k by {
            assert(all.contains((&k, &levels@[k])));
        }
        assert forall|i: int| 0 <= i < all.len() implies levels@.contains_key(
            *(#[trigger] all[i]).0,
        ) && levels@[*all[i].0] == *all[i].1 by {
            assert(levels@.contains_key(*all[i].0));
        }
    }
    for entry in it: entries
        invariant
            it.seq() == all,
            out@.len() == it.index(),
            forall|i: int|
                0 <= i < out@.len() ==> (#[trigger] out@[i]).0.0 == *all[i].0 && out@[i].1
                    == *all[i].1,
    {
        out.push((Px(*entry.0), *entry.1));
    }
    proof {
        assert forall|k: i64| #[trigger] levels@.contains_key(k) implies exists|i: int|
            0 <= i < out@.len() && (#[trigger] out@[i]).0.0 == k by {
            let i = choose|i: int| 0 <= i < all.len() && *(#[trigger] all[i]).0 == k;
            assert(out@[i].0.0 == k);
        }
    }
    out
}

/// Drops every level at or below `price`.
pub fn drop_up_to(levels: &mut BTreeMap<i64, Qty>, price: i64)
    ensures
        final(levels)@ == old(levels)@.restrict(Set::new(|k: i64| k > price)),
{
    let ghost start = levels@;
    loop
        invariant
            forall|j: i64| #[trigger]
                levels@.contains_key(j) ==> start.contains_key(j) && levels@[j] == start[j],
            forall|j: i64| j > price && #[trigger] start.contains_key(j) ==> levels@.contains_key(j),
        ensures
            forall|j: i64| #[trigger] levels@.contains_key(j) ==> j > price,
        decreases levels@.len(),
    {
        match lowest_level(levels) {
            None => {
                break;
            },
            Some((k, _)) => {
                if k > price {
                    break;
                }
                let ghost before = levels@;
                levels.remove(&k);
                assert(levels@ == before.remove(k));
            },
        }
    }
    assert(levels@ =~= start.restrict(Set::new(|k: i64| k > price)));
}

/// Drops every level at or above `price`.
pub fn drop_from(levels: &mut BTreeMap<i64, Qty>, price: i64)
    ensures
        final(levels)@ == old(levels)@.restrict(Set::new(|k: i64| k < price)),
{
    let ghost start = levels@;
    loop
        invariant
            forall|j: i64| #[trigger]
                levels@.contains_key(j) ==> start.contains_key(j) && levels@[j] == start[j],
            forall|j: i64| j < price && #[trigger] start.contains_key(j) ==> levels@.contains_key(j),
        ensures
            forall|j: i64| #[trigger] levels@.contains_key(j) ==> j < price,
        decreases levels@.len(),
    {
        match highest_level(levels) {
            None => {
                break;
            },
            Some((k, _)) => {
                if k < price {
                    break;
                }
                let ghost before = levels@;
                levels.remove(&k);
                assert(levels@ == before.remove(k));
            },
        }
    }
    assert(levels@ =~= start.restrict(Set::new(|k: i64| k < price)));
}

/// A listing of levels is the levels: each price once, with its size, cheapest first;
/// and its ends are the lowest and the highest price.
pub proof fn law_a_listing_is_the_levels(list: Seq<(Px, Qty)>, levels: Map<i64, Qty>)
    requires
        lists_ascending(list, levels),
    ensures
        forall|i: int, j: int|
            0 <= i < j < list.len() ==> (#[trigger] list[i]).0.0 < (#[trigger] list[j]).0.0,
        forall|k: i64| #[trigger]
            levels.contains_key(k) <==> exists|i: int|
                0 <= i < list.len() && (#[trigger] list[i]).0.0 == k,
        forall|i: int| 0 <= i < list.len() ==> levels[(#[trigger] list[i]).0.0] == list[i].1,
        forall|k: i64| #[trigger]
            is_lowest(levels, k) ==> list.len() > 0 && k == list[0].0.0,
        forall|k: i64| #[trigger]
            is_highest(levels, k) ==> list.len() > 0 && k == list.last().0.0,
{
    assert forall|k: i64| #[trigger] is_lowest(levels, k) implies list.len() > 0 && k
        == list[0].0.0 by {
        let i = choose|i: int| 0 <= i < list.len() && (#[trigger] list[i]).0.0 == k;
        assert(levels.contains_key(list[0].0.0));
        if i > 0 {
            assert(list[0].0.0 < list[i].0.0);
        }
    }
    assert forall|k: i64| #[trigger] is_highest(levels, k) implies list.len() > 0 && k
        == list.last().0.0 by {
        let i = choose|i: int| 0 <= i < list.len() && (#[trigger] list[i]).0.0 == k;
        assert(levels.contains_key(list[list.len() - 1].0.0));
        if i < list.len() - 1 {
            assert(list[i].0.0 < list[list.len() - 1].0.0);
        }
    }
}

/// Levels that are dropped are those at or beyond the price, and every other stays as it
/// was.
pub proof fn law_only_levels_beyond_the_price_are_dropped(price: i64, k: i64)
    ensures
        forall|levels: &mut BTreeMap<i64, Qty>| #[trigger]
            call_ensures(drop_up_to, (levels, price), ()) ==> {
                &&& final(levels)@.contains_key(k) <==> levels@.contains_key(k) && k > price
                &&& final(levels)@.contains_key(k) ==> final(levels)@[k] == levels@[k]
            },
        forall|levels: &mut BTreeMap<i64, Qty>| #[trigger]
            call_ensures(drop_from, (levels, price), ()) ==> {
                &&& final(levels)@.contains_key(k) <==> levels@.contains_key(k) && k < price
                &&& final(levels)@.contains_key(k) ==> final(levels)@[k] == levels@[k]
            },
{
}

} // verus!
