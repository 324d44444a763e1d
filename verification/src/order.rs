//! Stable sorting of the listings, and the order of texts.

use vstd::prelude::*;

use crate::text::chars_of;

verus! {

/// Items that a listing puts in order, by their contents.
pub trait Ranked: View + Sized {
    /// Whether an item with contents `a` may stand before one with contents `b`.
    spec fn ranks(a: Self::V, b: Self::V) -> bool;

    proof fn ranks_total(a: Self::V, b: Self::V)
        ensures
            Self::ranks(a, b) || Self::ranks(b, a),
    ;

    proof fn ranks_transitive(a: Self::V, b: Self::V, c: Self::V)
        requires
            Self::ranks(a, b),
            Self::ranks(b, c),
        ensures
            Self::ranks(a, c),
    ;

    /// Whether this item may stand before `other`.
    fn may_precede(&self, other: &Self) -> (r: bool)
        ensures
            r == Self::ranks(self@, other@),
    ;
}

/// The contents of a sequence of items.
pub open spec fn views<T: View>(items: Seq<T>) -> Seq<T::V> {
    Seq::new(items.len(), |i: int| items[i]@)
}

/// Whether item `i` of `items` comes before item `j` in a stable order: by rank, and
/// items of equal rank as they stand in `items`.
pub open spec fn comes_before<T: Ranked>(items: Seq<T::V>, i: int, j: int) -> bool {
    T::ranks(items[i], items[j]) && (T::ranks(items[j], items[i]) ==> i < j)
}

/// Whether `places` lists every index below `n` once, from `from` on.
pub open spec fn lists_indices(places: Seq<int>, from: int, n: int) -> bool {
    &&& places.len() == n - from
    &&& forall|i: int| 0 <= i < places.len() ==> from <= #[trigger] places[i] < n
    &&& forall|i: int, j: int|
        0 <= i < j < places.len() ==> #[trigger] places[i] != #[trigger] places[j]
}

/// Whether `sorted` holds the items of `items` at `places`, in a stable order.
pub open spec fn sorted_by_places<T: Ranked>(
    items: Seq<T::V>,
    sorted: Seq<T::V>,
    places: Seq<int>,
) -> bool {
    &&& sorted.len() == places.len()
    &&& forall|i: int| 0 <= i < places.len() ==> #[trigger] sorted[i] == items[places[i]]
    &&& forall|i: int, j: int|
        0 <= i < j < places.len() ==> comes_before::<T>(
            items,
            #[trigger] places[i],
            #[trigger] places[j],
        )
}

/// Whether `sorted` is `items` in order, items of equal rank as they stood.
pub open spec fn stably_sorted<T: Ranked>(items: Seq<T::V>, sorted: Seq<T::V>) -> bool {
    exists|places: Seq<int>|
        lists_indices(places, 0, items.len() as int) && #[trigger] sorted_by_places::<T>(
            items,
            sorted,
            places,
        )
}

/// Puts `items` in order; items of equal rank keep the order they have.
pub fn sort_stable<T: Ranked>(items: Vec<T>) -> (r: Vec<T>)
    ensures
        stably_sorted::<T>(views(items@), views(r@)),
{
    let ghost all = views(items@);
    let mut rest = items;
    let mut out: Vec<T> = Vec::new();
    let ghost mut places: Seq<int> = Seq::empty();
    while rest.len() > 0
        invariant
            rest.len() <= all.len(),
            views(rest@) == all.take(rest.len() as int),
            lists_indices(places, rest.len() as int, all.len() as int),
            sorted_by_places::<T>(all, views(out@), places),
        decreases rest.len(),
    {
        let ghost k = rest.len() - 1;
        let ghost before = places;
        let ghost sorted = views(out@);
        let ghost remaining = views(rest@);
        let item = rest.pop().unwrap();
        assert(item@ == remaining[k]);
        assert(item@ == all[k]);
        let mut position: usize = 0;
        while position < out.len() && !item.may_precede(&out[position])
            invariant
                position <= out.len(),
                views(out@) == sorted,
                forall|i: int| 0 <= i < position ==> !T::ranks(item@, #[trigger] sorted[i]),
            ensures
                position < out.len() ==> T::ranks(item@, sorted[position as int]),
            decreases out.len() - position,
        {
            assert(sorted[position as int] == out@[position as int]@);
            position = position + 1;
        }
        let ghost added = item@;
        out.insert(position, item);
        proof {
            assert(views(out@) == sorted.insert(position as int, added));
            places = before.insert(position as int, k);
            assert(views(rest@) == all.take(k));
            assert forall|i: int| 0 <= i < places.len() implies #[trigger] views(out@)[i]
                == all[places[i]] by {
                if i > position {
                    assert(sorted[i - 1] == all[before[i - 1]]);
                }
            }
            assert forall|i: int, j: int| 0 <= i < j < places.len() implies #[trigger] places[i]
                != #[trigger] places[j] by {
                if i == position {
                    assert(before[j - 1] >= k + 1);
                } else if j == position {
                    assert(before[i] >= k + 1);
                } else {
                    let a = if i < position { i } else { i - 1 };
                    let b = if j < position { j } else { j - 1 };
                    assert(before[a] != before[b]);
                }
            }
            assert forall|i: int, j: int| 0 <= i < j < places.len() implies comes_before::<T>(
                all,
                #[trigger] places[i],
                #[trigger] places[j],
            ) by {
                if j == position {
                    assert(sorted[i] == all[before[i]]);
                    assert(!T::ranks(item@, sorted[i]));
                    T::ranks_total(item@, sorted[i]);
                } else if i == position {
                    assert(sorted[j - 1] == all[before[j - 1]]);
                    assert(before[j - 1] >= k + 1);
                    if j - 1 > position {
                        assert(comes_before::<T>(all, before[position as int], before[j - 1]));
                        assert(sorted[position as int] == all[before[position as int]]);
                        T::ranks_transitive(item@, sorted[position as int], sorted[j - 1]);
                    }
                } else {
                    let a = if i < position { i } else { i - 1 };
                    let b = if j < position { j } else { j - 1 };
                    assert(comes_before::<T>(all, before[a], before[b]));
                }
            }
        }
    }
    out
}

/// Whether `a` is not after `b` in the order of their characters: by the first
/// character in which they differ, a text before every longer one that it begins.
pub open spec fn text_ranks(a: Seq<char>, b: Seq<char>) -> bool
    decreases a.len(),
{
    if a.len() == 0 {
        true
    } else if b.len() == 0 {
        false
    } else if a[0] != b[0] {
        a[0] < b[0]
    } else {
        text_ranks(a.skip(1), b.skip(1))
    }
}

/// Of two texts one is not after the other.
pub proof fn lemma_text_ranks_total(a: Seq<char>, b: Seq<char>)
    ensures
        text_ranks(a, b) || text_ranks(b, a),
    decreases a.len(),
{
    if a.len() > 0 && b.len() > 0 && a[0] == b[0] {
        lemma_text_ranks_total(a.skip(1), b.skip(1));
    }
}

/// The order of texts passes on.
pub proof fn lemma_text_ranks_transitive(a: Seq<char>, b: Seq<char>, c: Seq<char>)
    requires
        text_ranks(a, b),
        text_ranks(b, c),
    ensures
        text_ranks(a, c),
    decreases a.len(),
{
    if a.len() > 0 && b.len() > 0 && c.len() > 0 && a[0] == b[0] && b[0] == c[0] {
        lemma_text_ranks_transitive(a.skip(1), b.skip(1), c.skip(1));
    }
}

/// Whether `a` is not after `b` in the order of their characters.
pub fn text_not_after(a: &str, b: &str) -> (r: bool)
    ensures
        r == text_ranks(a@, b@),
{
    let xs = chars_of(a);
    let ys = chars_of(b);
    let mut i: usize = 0;
    assert(a@.skip(0) == a@ && b@.skip(0) == b@);
    while i < xs.len() && i < ys.len()
        invariant
            i <= xs.len(),
            i <= ys.len(),
            xs@ == a@,
            ys@ == b@,
            text_ranks(a@, b@) == text_ranks(a@.skip(i as int), b@.skip(i as int)),
        decreases xs.len() - i,
    {
        if xs[i] != ys[i] {
            return xs[i] < ys[i];
        }
        assert(a@.skip(i as int).skip(1) == a@.skip(i + 1));
        assert(b@.skip(i as int).skip(1) == b@.skip(i + 1));
        i = i + 1;
    }
    i == xs.len()
}

/// A list of all indices below `n` holds each of them.
pub proof fn lemma_every_index_listed(places: Seq<int>, n: int, x: int)
    requires
        lists_indices(places, 0, n),
        0 <= x < n,
    ensures
        places.contains(x),
{
    let listed = places.to_set();
    let indices = vstd::set_lib::set_int_range(0, n);
    assert(places.no_duplicates());
    places.unique_seq_to_set();
    vstd::set_lib::lemma_int_range(0, n);
    assert(listed.subset_of(indices));
    vstd::set_lib::lemma_subset_equality(listed, indices);
    assert(listed.contains(x));
}

/// There is one stable order: two sorted listings of the same items are the same.
pub proof fn law_stable_order_is_unique<T: Ranked>(items: Seq<T::V>, a: Seq<T::V>, b: Seq<T::V>)
    requires
        stably_sorted::<T>(items, a),
        stably_sorted::<T>(items, b),
    ensures
        a == b,
{
    let n = items.len() as int;
    let p = choose|p: Seq<int>|
        lists_indices(p, 0, n) && #[trigger] sorted_by_places::<T>(items, a, p);
    let q = choose|q: Seq<int>|
        lists_indices(q, 0, n) && #[trigger] sorted_by_places::<T>(items, b, q);
    lemma_places_agree::<T>(items, a, b, p, q, n);
    assert(a =~= b);
}

/// Two stable orders agree on their first `upto` places.
proof fn lemma_places_agree<T: Ranked>(
    items: Seq<T::V>,
    a: Seq<T::V>,
    b: Seq<T::V>,
    p: Seq<int>,
    q: Seq<int>,
    upto: int,
)
    requires
        lists_indices(p, 0, items.len() as int),
        lists_indices(q, 0, items.len() as int),
        sorted_by_places::<T>(items, a, p),
        sorted_by_places::<T>(items, b, q),
        0 <= upto <= items.len(),
    ensures
        forall|i: int| 0 <= i < upto ==> p[i] == q[i],
    decreases upto,
{
    if upto > 0 {
        let i = upto - 1;
        lemma_places_agree::<T>(items, a, b, p, q, i);
        if p[i] != q[i] {
            lemma_every_index_listed(p, items.len() as int, q[i]);
            lemma_every_index_listed(q, items.len() as int, p[i]);
            let j = choose|j: int| 0 <= j < q.len() && q[j] == p[i];
            let k = choose|k: int| 0 <= k < p.len() && p[k] == q[i];
            assert(j > i) by {
                if j < i {
                    assert(p[j] == q[j]);
                }
            }
            assert(k > i) by {
                if k < i {
                    assert(p[k] == q[k]);
                }
            }
            assert(comes_before::<T>(items, p[i], p[k]));
            assert(comes_before::<T>(items, q[i], q[j]));
        }
    }
}

/// The contents of a list of items are those of each item, in the same places.
pub proof fn law_views_of_each<T: View>(items: Seq<T>)
    ensures
        views(items).len() == items.len(),
        forall|i: int| 0 <= i < items.len() ==> #[trigger] views(items)[i] == items[i]@,
{
}

/// What is left of a sequence when one item is taken out and the others are filtered.
proof fn lemma_filter_without<A>(s: Seq<A>, k: int, keep: spec_fn(A) -> bool)
    requires
        0 <= k < s.len(),
    ensures
        s.filter(keep) == s.take(k).filter(keep) + (if keep(s[k]) {
            seq![s[k]]
        } else {
            Seq::empty()
        }) + s.skip(k + 1).filter(keep),
        s.remove(k).filter(keep) == s.take(k).filter(keep) + s.skip(k + 1).filter(keep),
{
    let middle = seq![s[k]];
    assert(s == s.take(k) + middle + s.skip(k + 1));
    Seq::filter_distributes_over_add(s.take(k) + middle, s.skip(k + 1), keep);
    Seq::filter_distributes_over_add(s.take(k), middle, keep);
    Seq::<A>::empty().lemma_filter_push(s[k], keep);
    assert(Seq::<A>::empty().push(s[k]) == middle);
    assert(Seq::<A>::empty().filter(keep) == Seq::<A>::empty()) by {
        reveal(Seq::filter);
    }
    assert(s.remove(k) == s.take(k) + s.skip(k + 1));
    Seq::filter_distributes_over_add(s.take(k), s.skip(k + 1), keep);
}

/// A filter that fits no item leaves nothing.
proof fn lemma_filter_nothing<A>(s: Seq<A>, keep: spec_fn(A) -> bool)
    requires
        forall|i: int| 0 <= i < s.len() ==> !keep(#[trigger] s[i]),
    ensures
        s.filter(keep) == Seq::<A>::empty(),
    decreases s.len(),
{
    reveal(Seq::filter);
    if s.len() > 0 {
        assert(!keep(s[s.len() - 1]));
        assert forall|i: int| 0 <= i < s.drop_last().len() implies !keep(
            #[trigger] s.drop_last()[i],
        ) by {
            assert(!keep(s[i]));
        }
        lemma_filter_nothing(s.drop_last(), keep);
    }
}

/// Items that keep their order among themselves are the same when the others are left out.
pub proof fn lemma_kept_order<A>(
    items: Seq<A>,
    sorted: Seq<A>,
    places: Seq<int>,
    keep: spec_fn(A) -> bool,
)
    requires
        lists_indices(places, 0, items.len() as int),
        sorted.len() == places.len(),
        forall|i: int| 0 <= i < places.len() ==> #[trigger] sorted[i] == items[places[i]],
        forall|i: int, j: int|
            0 <= i < j < places.len() && keep(sorted[i]) && keep(sorted[j]) ==> #[trigger] places[i]
                < #[trigger] places[j],
    ensures
        sorted.filter(keep) == items.filter(keep),
    decreases items.len(),
{
    let n = items.len() as int;
    if n > 0 {
        lemma_every_index_listed(places, n, n - 1);
        let k = choose|k: int| 0 <= k < places.len() && places[k] == n - 1;
        let fewer = places.remove(k);
        let without = sorted.remove(k);
        let init = items.drop_last();
        assert forall|i: int| 0 <= i < fewer.len() implies 0 <= #[trigger] fewer[i] < n - 1 by {
            let j = if i < k { i } else { i + 1 };
            assert(fewer[i] == places[j]);
            assert(places[j] != places[k]);
        }
        assert forall|i: int, j: int| 0 <= i < j < fewer.len() implies #[trigger] fewer[i]
            != #[trigger] fewer[j] by {
            let a = if i < k { i } else { i + 1 };
            let b = if j < k { j } else { j + 1 };
            assert(places[a] != places[b]);
        }
        assert forall|i: int| 0 <= i < fewer.len() implies #[trigger] without[i]
            == init[fewer[i]] by {
            let j = if i < k { i } else { i + 1 };
            assert(sorted[j] == items[places[j]]);
            assert(fewer[i] < n - 1);
        }
        assert forall|i: int, j: int|
            0 <= i < j < fewer.len() && keep(without[i]) && keep(without[j]) implies
            #[trigger] fewer[i] < #[trigger] fewer[j] by {
            let a = if i < k { i } else { i + 1 };
            let b = if j < k { j } else { j + 1 };
            assert(sorted[a] == without[i] && sorted[b] == without[j]);
            assert(places[a] < places[b]);
        }
        lemma_kept_order(init, without, fewer, keep);
        lemma_filter_without(sorted, k, keep);
        assert(items == init.push(items.last()));
        init.lemma_filter_push(items.last(), keep);
        assert(sorted[k] == items[places[k]]);
        if keep(sorted[k]) {
            let rest = sorted.skip(k + 1);
            assert forall|i: int| 0 <= i < rest.len() implies !keep(#[trigger] rest[i]) by {
                assert(rest[i] == sorted[k + 1 + i]);
                if keep(rest[i]) {
                    assert(places[k] < places[k + 1 + i]);
                }
            }
            lemma_filter_nothing(rest, keep);
            assert(sorted.filter(keep) =~= without.filter(keep).push(sorted[k]));
        } else {
            assert(sorted.filter(keep) =~= without.filter(keep));
        }
    } else {
        assert(sorted == items);
    }
}

/// What sorting does: nothing is added or lost, every item may stand before those behind it,
/// and the items of one rank, whichever that is, stand as they stood.
pub proof fn law_sorting_orders_and_keeps<T: Ranked>(
    items: Seq<T::V>,
    sorted: Seq<T::V>,
    item: T::V,
)
    requires
        stably_sorted::<T>(items, sorted),
    ensures
        sorted.len() == items.len(),
        forall|i: int, j: int|
            0 <= i < j < sorted.len() ==> T::ranks(#[trigger] sorted[i], #[trigger] sorted[j]),
        forall|i: int| 0 <= i < sorted.len() ==> items.contains(#[trigger] sorted[i]),
        forall|i: int| 0 <= i < items.len() ==> sorted.contains(#[trigger] items[i]),
        sorted.filter(|x: T::V| T::ranks(x, item) && T::ranks(item, x)) == items.filter(
            |x: T::V| T::ranks(x, item) && T::ranks(item, x),
        ),
{
    let n = items.len() as int;
    let same = |x: T::V| T::ranks(x, item) && T::ranks(item, x);
    let places = choose|places: Seq<int>|
        lists_indices(places, 0, n) && #[trigger] sorted_by_places::<T>(items, sorted, places);
    assert forall|i: int, j: int| 0 <= i < j < sorted.len() implies T::ranks(
        #[trigger] sorted[i],
        #[trigger] sorted[j],
    ) by {
        assert(comes_before::<T>(items, places[i], places[j]));
    }
    assert forall|i: int| 0 <= i < sorted.len() implies items.contains(#[trigger] sorted[i]) by {
        assert(items[places[i]] == sorted[i]);
    }
    assert forall|i: int| 0 <= i < items.len() implies sorted.contains(#[trigger] items[i]) by {
        lemma_every_index_listed(places, n, i);
        let k = choose|k: int| 0 <= k < places.len() && places[k] == i;
        assert(sorted[k] == items[i]);
    }
    assert forall|i: int, j: int|
        0 <= i < j < places.len() && same(sorted[i]) && same(sorted[j]) implies #[trigger] places[i]
        < #[trigger] places[j] by {
        assert(comes_before::<T>(items, places[i], places[j]));
        T::ranks_transitive(sorted[j], item, sorted[i]);
    }
    lemma_kept_order(items, sorted, places, same);
}

/// The order of texts is that of a dictionary: one text is not after another exactly if the
/// other begins with it, or if it has the smaller character in the first place where the two
/// differ.
pub proof fn law_texts_as_in_a_dictionary(a: Seq<char>, b: Seq<char>)
    ensures
        text_ranks(a, b) <==> (a.is_prefix_of(b) || exists|k: int|
            0 <= k < a.len() && k < b.len() && #[trigger] a[k] < b[k] && a.take(k) == b.take(k)),
    decreases a.len(),
{
    if a.len() == 0 {
        assert(a == b.subrange(0, 0));
    } else if b.len() > 0 {
        let x = a.skip(1);
        let y = b.skip(1);
        law_texts_as_in_a_dictionary(x, y);
        if a[0] == b[0] {
            if x.is_prefix_of(y) {
                assert(a == b.subrange(0, a.len() as int)) by {
                    assert forall|i: int| 0 <= i < a.len() implies a[i] == b[i] by {
                        if i > 0 {
                            assert(x[i - 1] == y.subrange(0, x.len() as int)[i - 1]);
                        }
                    }
                }
            }
            if a.is_prefix_of(b) {
                assert(x == y.subrange(0, x.len() as int)) by {
                    assert forall|i: int| 0 <= i < x.len() implies x[i] == y[i] by {
                        assert(a[i + 1] == b.subrange(0, a.len() as int)[i + 1]);
                    }
                }
            }
            if exists|k: int|
                0 <= k < x.len() && k < y.len() && #[trigger] x[k] < y[k] && x.take(k) == y.take(
                    k,
                ) {
                let k = choose|k: int|
                    0 <= k < x.len() && k < y.len() && #[trigger] x[k] < y[k] && x.take(k)
                        == y.take(k);
                assert(a[k + 1] == x[k]);
                assert(a.take(k + 1) == b.take(k + 1)) by {
                    assert forall|i: int| 0 <= i < k + 1 implies a[i] == b[i] by {
                        if i > 0 {
                            assert(x.take(k)[i - 1] == y.take(k)[i - 1]);
                        }
                    }
                }
            }
            if exists|k: int|
                0 <= k < a.len() && k < b.len() && #[trigger] a[k] < b[k] && a.take(k) == b.take(
                    k,
                ) {
                let k = choose|k: int|
                    0 <= k < a.len() && k < b.len() && #[trigger] a[k] < b[k] && a.take(k)
                        == b.take(k);
                assert(x[k - 1] == a[k]);
                assert(x.take(k - 1) == y.take(k - 1)) by {
                    assert forall|i: int| 0 <= i < k - 1 implies x[i] == y[i] by {
                        assert(a.take(k)[i + 1] == b.take(k)[i + 1]);
                    }
                }
            }
        } else {
            if a.is_prefix_of(b) {
                assert(a[0] == b.subrange(0, a.len() as int)[0]);
            }
            if a[0] < b[0] {
                assert(a.take(0) == b.take(0));
            }
            if exists|k: int|
                0 <= k < a.len() && k < b.len() && #[trigger] a[k] < b[k] && a.take(k) == b.take(
                    k,
                ) {
                let k = choose|k: int|
                    0 <= k < a.len() && k < b.len() && #[trigger] a[k] < b[k] && a.take(k)
                        == b.take(k);
                if k > 0 {
                    assert(a.take(k)[0] == b.take(k)[0]);
                }
            }
        }
    }
}

} // verus!
