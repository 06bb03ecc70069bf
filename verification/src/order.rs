//! Sorting that keeps items of equal rank in the order they came in.

use vstd::prelude::*;

verus! {

/// Items that are listed by rank.
pub trait Ranked: Sized {
    /// `self` is listed before `other`, wherever the two stand.
    spec fn ranks_before(self, other: Self) -> bool;

    /// Rank is a strict order, and items that do not differ in rank are
    /// interchangeable in it.
    proof fn rank_is_an_order(a: Self, b: Self, c: Self)
        ensures
            !a.ranks_before(a),
            !(a.ranks_before(b) && b.ranks_before(a)),
            !b.ranks_before(a) && !c.ranks_before(b) ==> !c.ranks_before(a),
    ;

    /// Whether `self` is listed before `other`.
    fn outranks(&self, other: &Self) -> (yes: bool)
        ensures
            yes == self.ranks_before(*other),
    ;
}

/// The item at `a` is listed before the item at `b`: by rank or, where rank does
/// not decide, by position.
pub open spec fn goes_first<T: Ranked>(items: Seq<T>, a: int, b: int) -> bool {
    items[a].ranks_before(items[b]) || (!items[b].ranks_before(items[a]) && a < b)
}

/// Each position in `order` goes before those behind it.
pub open spec fn listed<T: Ranked>(items: Seq<T>, order: Seq<int>) -> bool {
    forall|i: int, j: int|
        0 <= i < j < order.len() ==> goes_first(items, #[trigger] order[i], #[trigger] order[j])
}

/// `order` lists each position of `items` once, by rank.
pub open spec fn is_order_of<T: Ranked>(items: Seq<T>, order: Seq<int>) -> bool {
    &&& order.len() == items.len()
    &&& forall|i: int| 0 <= i < order.len() ==> 0 <= #[trigger] order[i] < items.len()
    &&& listed(items, order)
}

/// The items that the first `limit` positions of `order` name.
pub open spec fn picked<T>(items: Seq<T>, order: Seq<int>, limit: int) -> Seq<T> {
    order.take(
        if limit < order.len() {
            limit
        } else {
            order.len() as int
        },
    ).map_values(|i: int| items[i])
}

/// `top` is the first `limit` of `items`, listed by rank.
pub open spec fn is_top<T: Ranked>(items: Seq<T>, limit: int, top: Seq<T>) -> bool {
    exists|order: Seq<int>| #[trigger] is_order_of(items, order) && top == picked(
        items,
        order,
        limit,
    )
}

proof fn lemma_goes_first_transitive<T: Ranked>(items: Seq<T>, a: int, b: int, c: int)
    requires
        goes_first(items, a, b),
        goes_first(items, b, c),
    ensures
        goes_first(items, a, c),
{
    T::rank_is_an_order(items[a], items[b], items[c]);
    T::rank_is_an_order(items[b], items[c], items[a]);
    T::rank_is_an_order(items[c], items[a], items[b]);
}

proof fn lemma_goes_first_total<T: Ranked>(items: Seq<T>, a: int, b: int)
    ensures
        a != b ==> goes_first(items, a, b) || goes_first(items, b, a),
        !(goes_first(items, a, b) && goes_first(items, b, a)),
        !goes_first(items, a, a),
{
    T::rank_is_an_order(items[a], items[b], items[a]);
}

/// There is one way to list items by rank.
pub proof fn law_order_is_unique<T: Ranked>(items: Seq<T>, p: Seq<int>, q: Seq<int>)
    requires
        is_order_of(items, p),
        is_order_of(items, q),
    ensures
        p == q,
{
    assert forall|k: int| 0 <= k < p.len() implies p[k] == q[k] by {
        lemma_orders_agree(items, p, q, k);
    }
    assert(p =~= q);
}

proof fn lemma_orders_agree<T: Ranked>(items: Seq<T>, p: Seq<int>, q: Seq<int>, k: int)
    requires
        is_order_of(items, p),
        is_order_of(items, q),
        0 <= k < p.len(),
    ensures
        p[k] == q[k],
    decreases k,
{
    assert forall|i: int| 0 <= i < k implies p[i] == q[i] by {
        lemma_orders_agree(items, p, q, i);
    }
    if p[k] != q[k] {
        lemma_order_covers(items, q, p[k]);
        let i = choose|i: int| 0 <= i < q.len() && q[i] == p[k];
        if i < k {
            assert(p[i] == p[k]);
            lemma_goes_first_total(items, p[i], p[k]);
            assert(goes_first(items, p[i], p[k]));
        }
        assert(goes_first(items, q[k], q[i]));
        lemma_order_covers(items, p, q[k]);
        let j = choose|j: int| 0 <= j < p.len() && p[j] == q[k];
        if j < k {
            assert(q[j] == q[k]);
            lemma_goes_first_total(items, q[j], q[k]);
            assert(goes_first(items, q[j], q[k]));
        }
        assert(goes_first(items, p[k], p[j]));
        lemma_goes_first_total(items, p[k], q[k]);
    }
}

/// A listing names every position.
pub proof fn lemma_order_covers<T: Ranked>(items: Seq<T>, order: Seq<int>, position: int)
    requires
        is_order_of(items, order),
        0 <= position < items.len(),
    ensures
        order.contains(position),
{
    assert(order.no_duplicates()) by {
        assert forall|i: int, j: int|
            0 <= i < order.len() && 0 <= j < order.len() && i != j implies order[i]
            != order[j] by {
            lemma_goes_first_total(items, order[i], order[i]);
            if i < j {
                assert(goes_first(items, order[i], order[j]));
            } else {
                assert(goes_first(items, order[j], order[i]));
            }
        }
    }
    order.unique_seq_to_set();
    let all = vstd::set_lib::set_int_range(0, items.len() as int);
    vstd::set_lib::lemma_int_range(0, items.len() as int);
    assert(order.to_set().subset_of(all));
    vstd::set_lib::lemma_len_subset(order.to_set(), all);
    vstd::set_lib::lemma_subset_equality(order.to_set(), all);
    assert(order.to_set().contains(position));
}

/// A list of positions, as numbers.
pub open spec fn positions(list: Seq<usize>) -> Seq<int> {
    list.map_values(|i: usize| i as int)
}

/// Merges two listings, all positions in the first one smaller than those in the
/// second.
fn merge<T: Ranked>(items: &Vec<T>, a: &Vec<usize>, b: &Vec<usize>) -> (merged: Vec<usize>)
    requires
        listed(items@, positions(a@)),
        listed(items@, positions(b@)),
        a@.len() + b@.len() <= items@.len(),
        forall|i: int| 0 <= i < a@.len() ==> (#[trigger] a@[i]) < items@.len(),
        forall|i: int| 0 <= i < b@.len() ==> (#[trigger] b@[i]) < items@.len(),
        forall|i: int, j: int|
            0 <= i < a@.len() && 0 <= j < b@.len() ==> (#[trigger] a@[i]) < (#[trigger] b@[j]),
    ensures
        listed(items@, positions(merged@)),
        merged@.len() == a@.len() + b@.len(),
        forall|k: int|
            0 <= k < merged@.len() ==> a@.contains(#[trigger] merged@[k]) || b@.contains(merged@[k]),
{
    let mut merged: Vec<usize> = Vec::new();
    let mut i: usize = 0;
    let mut j: usize = 0;
    while i < a.len() || j < b.len()
        invariant
            listed(items@, positions(a@)),
            listed(items@, positions(b@)),
            a@.len() + b@.len() <= items@.len(),
            forall|i: int| 0 <= i < a@.len() ==> (#[trigger] a@[i]) < items@.len(),
            forall|i: int| 0 <= i < b@.len() ==> (#[trigger] b@[i]) < items@.len(),
            forall|i: int, j: int|
                0 <= i < a@.len() && 0 <= j < b@.len() ==> (#[trigger] a@[i]) < (
                #[trigger] b@[j]),
            i <= a@.len(),
            j <= b@.len(),
            merged@.len() == i + j,
            listed(items@, positions(merged@)),
            forall|k: int|
                0 <= k < merged@.len() ==> a@.contains(#[trigger] merged@[k]) || b@.contains(
                    merged@[k],
                ),
            forall|k: int, m: int|
                0 <= k < merged@.len() && i <= m < a@.len() ==> goes_first(
                    items@,
                    (#[trigger] merged@[k]) as int,
                    (#[trigger] a@[m]) as int,
                ),
            forall|k: int, m: int|
                0 <= k < merged@.len() && j <= m < b@.len() ==> goes_first(
                    items@,
                    (#[trigger] merged@[k]) as int,
                    (#[trigger] b@[m]) as int,
                ),
        decreases a@.len() - i + b@.len() - j,
    {
        let ghost before = merged@;
        let from_a: bool = j >= b.len() || (i < a.len() && !items[b[j]].outranks(&items[a[i]]));
        let next: usize = if from_a {
            a[i]
        } else {
            b[j]
        };
        proof {
            if i < a@.len() && j < b@.len() {
                lemma_goes_first_total(items@, a@[i as int] as int, b@[j as int] as int);
                assert(a@[i as int] < b@[j as int]);
            }
            assert forall|m: int| i <= m < a@.len() && a@[m] != next implies goes_first(
                items@,
                next as int,
                (#[trigger] a@[m]) as int,
            ) by {
                if m > i {
                    assert(goes_first(items@, positions(a@)[i as int], positions(a@)[m]));
                    if !from_a {
                        lemma_goes_first_transitive(
                            items@,
                            next as int,
                            a@[i as int] as int,
                            a@[m] as int,
                        );
                    }
                }
            }
            assert forall|m: int| j <= m < b@.len() && b@[m] != next implies goes_first(
                items@,
                next as int,
                (#[trigger] b@[m]) as int,
            ) by {
                if m > j {
                    assert(goes_first(items@, positions(b@)[j as int], positions(b@)[m]));
                    if from_a {
                        lemma_goes_first_transitive(
                            items@,
                            next as int,
                            b@[j as int] as int,
                            b@[m] as int,
                        );
                    }
                }
            }
            assert forall|m: int| i < m < a@.len() implies a@[m] != a@[i as int] by {
                assert(goes_first(items@, positions(a@)[i as int], positions(a@)[m]));
                lemma_goes_first_total(items@, a@[i as int] as int, a@[i as int] as int);
            }
            assert forall|m: int| j < m < b@.len() implies b@[m] != b@[j as int] by {
                assert(goes_first(items@, positions(b@)[j as int], positions(b@)[m]));
                lemma_goes_first_total(items@, b@[j as int] as int, b@[j as int] as int);
            }
        }
        merged.push(next);
        if from_a {
            assert(a@.contains(next));
            i = i + 1;
        } else {
            assert(b@.contains(next));
            j = j + 1;
        }
        proof {
            assert forall|x: int, y: int| 0 <= x < y < merged@.len() implies goes_first(
                items@,
                #[trigger] positions(merged@)[x],
                #[trigger] positions(merged@)[y],
            ) by {
                if y < before.len() {
                    assert(goes_first(items@, positions(before)[x], positions(before)[y]));
                } else {
                    assert(before[x] == merged@[x]);
                }
            }
        }
    }
    merged
}

/// Lists the positions from `start` up to, and without, `end`.
fn list_run<T: Ranked>(items: &Vec<T>, start: usize, end: usize) -> (order: Vec<usize>)
    requires
        start <= end <= items@.len(),
    ensures
        order@.len() == end - start,
        forall|i: int| 0 <= i < order@.len() ==> start <= #[trigger] order@[i] < end,
        listed(items@, positions(order@)),
    decreases end - start,
{
    let mut order: Vec<usize> = Vec::new();
    if end - start == 0 {
        return order;
    }
    if end - start == 1 {
        order.push(start);
        return order;
    }
    let middle: usize = start + (end - start) / 2;
    let a: Vec<usize> = list_run(items, start, middle);
    let b: Vec<usize> = list_run(items, middle, end);
    let merged: Vec<usize> = merge(items, &a, &b);
    assert forall|i: int| 0 <= i < merged@.len() implies start <= #[trigger] merged@[i] < end by {
        if a@.contains(merged@[i]) {
            let k = choose|k: int| 0 <= k < a@.len() && a@[k] == merged@[i];
            assert(start <= a@[k] < middle);
        } else {
            let k = choose|k: int| 0 <= k < b@.len() && b@[k] == merged@[i];
            assert(middle <= b@[k] < end);
        }
    }
    merged
}

/// The positions of `items`, listed by rank.
pub fn rank_order<T: Ranked>(items: &Vec<T>) -> (order: Vec<usize>)
    ensures
        is_order_of(items@, positions(order@)),
{
    let order: Vec<usize> = list_run(items, 0, items.len());
    assert forall|i: int| 0 <= i < order@.len() implies 0 <= #[trigger] positions(order@)[i]
        < items@.len() by {
        assert(0 <= order@[i] < items@.len());
    }
    order
}

/// The first `limit` items, listed by rank.
pub fn top<T: Ranked>(items: Vec<T>, limit: usize) -> (listing: Vec<T>)
    ensures
        is_top(items@, limit as int, listing@),
{
    let order: Vec<usize> = rank_order(&items);
    let ghost all = items@;
    let ghost places = positions(order@);
    let mut slots: Vec<Option<T>> = Vec::new();
    for item in it: items
        invariant
            it.seq() == all,
            slots@ == all.take(it.index()).map_values(|t: T| Some(t)),
    {
        slots.push(Some(item));
        assert(slots@ =~= all.take(it.index() + 1).map_values(|t: T| Some(t)));
    }
    assert(all.take(all.len() as int) == all);
    let count: usize = if limit < order.len() {
        limit
    } else {
        order.len()
    };
    let mut listing: Vec<T> = Vec::new();
    for k in 0..count
        invariant
            count <= order@.len(),
            places == positions(order@),
            is_order_of(all, places),
            slots@.len() == all.len(),
            listing@ == places.take(k as int).map_values(|i: int| all[i]),
            forall|m: int|
                k <= m < places.len() ==> slots@[#[trigger] places[m]] == Some(all[places[m]]),
    {
        let i: usize = order[k];
        assert(places[k as int] == i as int);
        let mut taken: Option<T> = None;
        assert(slots@[i as int] == Some(all[i as int]));
        core::mem::swap(&mut taken, &mut slots[i]);
        match taken {
            Some(item) => {
                listing.push(item);
            },
            None => {},
        }
        proof {
            assert(listing@ =~= places.take(k + 1).map_values(|i: int| all[i]));
            assert forall|m: int| k + 1 <= m < places.len() implies slots@[#[trigger] places[m]]
                == Some(all[places[m]]) by {
                assert(goes_first(all, places[k as int], places[m]));
                lemma_goes_first_total(all, places[k as int], places[k as int]);
            }
        }
    }
    assert(is_order_of(all, places));
    listing
}

/// The first `limit` of some items, listed by rank: as many as there are, up to the
/// limit; each of them one of the items; none of a higher rank behind one of a lower;
/// and no item left out that ranks before one that is listed.
pub proof fn law_top_holds_the_first<T: Ranked>(items: Seq<T>, limit: int, top: Seq<T>)
    requires
        is_top(items, limit, top),
        limit >= 0,
    ensures
        top.len() == if limit < items.len() {
            limit
        } else {
            items.len() as int
        },
        forall|i: int| 0 <= i < top.len() ==> items.contains(#[trigger] top[i]),
        forall|i: int, j: int|
            0 <= i < j < top.len() ==> !(#[trigger] top[j]).ranks_before(#[trigger] top[i]),
        forall|k: int|
            0 <= k < items.len() ==> top.contains(#[trigger] items[k]) || (top.len() == limit
                && forall|i: int|
                0 <= i < top.len() ==> !items[k].ranks_before(#[trigger] top[i])),
{
    let order = choose|order: Seq<int>| #[trigger]
        is_order_of(items, order) && top == picked(items, order, limit);
    assert forall|i: int| 0 <= i < top.len() implies items.contains(#[trigger] top[i]) by {
        assert(top[i] == items[order[i]]);
        assert(0 <= order[i] < items.len());
    }
    assert forall|i: int, j: int| 0 <= i < j < top.len() implies !(
    #[trigger] top[j]).ranks_before(#[trigger] top[i]) by {
        assert(goes_first(items, order[i], order[j]));
        T::rank_is_an_order(top[i], top[j], top[i]);
    }
    assert forall|k: int| 0 <= k < items.len() implies top.contains(#[trigger] items[k]) || (
    top.len() == limit && forall|i: int|
        0 <= i < top.len() ==> !items[k].ranks_before(#[trigger] top[i])) by {
        lemma_order_covers(items, order, k);
        let m = choose|m: int| 0 <= m < order.len() && order[m] == k;
        if m < top.len() {
            assert(top[m] == items[k]);
        } else {
            assert forall|i: int| 0 <= i < top.len() implies !items[k].ranks_before(
                #[trigger] top[i],
            ) by {
                assert(goes_first(items, order[i], order[m]));
                T::rank_is_an_order(top[i], items[k], top[i]);
            }
        }
    }
}

/// Items of one rank keep their order.
pub proof fn law_equals_keep_their_order<T: Ranked>(items: Seq<T>, limit: int, top: Seq<T>)
    requires
        is_top(items, limit, top),
        limit >= 0,
        forall|i: int, j: int|
            0 <= i < items.len() && 0 <= j < items.len() ==> !(#[trigger] items[i]).ranks_before(
                #[trigger] items[j],
            ),
    ensures
        top == items.take(
            if limit < items.len() {
                limit
            } else {
                items.len() as int
            },
        ),
{
    let order = choose|order: Seq<int>| #[trigger]
        is_order_of(items, order) && top == picked(items, order, limit);
    let same = Seq::new(items.len(), |i: int| i);
    assert(listed(items, same)) by {
        assert forall|i: int, j: int| 0 <= i < j < same.len() implies goes_first(
            items,
            #[trigger] same[i],
            #[trigger] same[j],
        ) by {
            assert(!items[j].ranks_before(items[i]));
        }
    }
    assert(is_order_of(items, same));
    law_order_is_unique(items, order, same);
    let count = if limit < items.len() {
        limit
    } else {
        items.len() as int
    };
    assert(top =~= items.take(count));
}

} // verus!
