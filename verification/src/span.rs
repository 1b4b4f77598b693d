//! Sorting one span of pixels by brightness key.
//!
//! The specification-level sort is a stable insertion sort: pixels are
//! arranged by ascending brightness key, with ties kept in input order.
//! A descending span is the ascending arrangement reversed.

use vstd::prelude::*;
use vstd::multiset::Multiset;

use crate::pixel::{brightness_key, Pixel};
use crate::settings::Order;

verus! {

/// Insert `p` into `s` just before the first element whose key is
/// strictly greater than `p`'s. When `s` is sorted ascending, the
/// result is sorted too, and `p` lands after any element with an equal
/// key, which makes the sort built on this stable.
pub open spec fn insert_sorted(p: Pixel, s: Seq<Pixel>) -> Seq<Pixel>
    decreases s.len(),
{
    if s.len() == 0 {
        seq![p]
    } else if brightness_key(p) < brightness_key(s[0]) {
        seq![p] + s
    } else {
        seq![s[0]] + insert_sorted(p, s.drop_first())
    }
}

/// The stable ascending sort of a span: each pixel in turn is inserted
/// into the sorted arrangement of the pixels before it.
pub open spec fn sort_ascending(s: Seq<Pixel>) -> Seq<Pixel>
    decreases s.len(),
{
    if s.len() == 0 {
        s
    } else {
        insert_sorted(s.last(), sort_ascending(s.drop_last()))
    }
}

/// The arrangement of a span in the requested order: ascending is the
/// stable sort; descending is the stable ascending sort, reversed.
pub open spec fn sort_by_order(s: Seq<Pixel>, ord: Order) -> Seq<Pixel> {
    match ord {
        Order::Ascending => sort_ascending(s),
        Order::Descending => sort_ascending(s).reverse(),
    }
}

/// Brightness keys never decrease along the span.
pub open spec fn sorted_ascending(s: Seq<Pixel>) -> bool {
    forall|i: int, j: int|
        0 <= i <= j < s.len() ==> brightness_key(s[i]) <= brightness_key(s[j])
}

/// Brightness keys never increase along the span.
pub open spec fn sorted_descending(s: Seq<Pixel>) -> bool {
    forall|i: int, j: int|
        0 <= i <= j < s.len() ==> brightness_key(s[i]) >= brightness_key(s[j])
}

/// Whether a span is arranged in the requested order.
pub open spec fn sorted_by_order(s: Seq<Pixel>, ord: Order) -> bool {
    match ord {
        Order::Ascending => sorted_ascending(s),
        Order::Descending => sorted_descending(s),
    }
}

/// Whether pixels of `s` with equal brightness keys are equal pixels.
/// Distinct pixels can share a key, since the key is only a channel
/// sum; this predicate rules that out.
pub open spec fn ties_are_equal(s: Seq<Pixel>) -> bool {
    forall|i: int, j: int|
        0 <= i < s.len() && 0 <= j < s.len() && brightness_key(s[i]) == brightness_key(s[j])
            ==> s[i] == s[j]
}

/// Inserting adds exactly one element.
proof fn lemma_insert_sorted_len(p: Pixel, s: Seq<Pixel>)
    ensures
        insert_sorted(p, s).len() == s.len() + 1,
    decreases s.len(),
{
    if s.len() == 0 {
    } else if brightness_key(p) < brightness_key(s[0]) {
    } else {
        lemma_insert_sorted_len(p, s.drop_first());
    }
}

/// Sorting preserves the length of the span.
pub proof fn lemma_sort_ascending_len(s: Seq<Pixel>)
    ensures
        sort_ascending(s).len() == s.len(),
    decreases s.len(),
{
    if s.len() > 0 {
        lemma_sort_ascending_len(s.drop_last());
        lemma_insert_sorted_len(s.last(), sort_ascending(s.drop_last()));
    }
}

/// Inserting a pixel adds it to the multiset of the span.
proof fn lemma_insert_sorted_multiset(p: Pixel, s: Seq<Pixel>)
    ensures
        insert_sorted(p, s).to_multiset() == s.to_multiset().insert(p),
    decreases s.len(),
{
    broadcast use vstd::seq_lib::group_to_multiset_ensures;

    if s.len() == 0 {
        assert(insert_sorted(p, s) =~= Seq::empty().push(p));
        assert(s.to_multiset().insert(p) =~= Seq::empty().push(p).to_multiset());
    } else if brightness_key(p) < brightness_key(s[0]) {
        assert(seq![p] + s =~= s.insert(0, p));
        vstd::seq_lib::lemma_multiset_commutative(seq![p], s);
        assert(seq![p].to_multiset() =~= Multiset::empty().insert(p)) by {
            assert(seq![p] =~= Seq::empty().push(p));
        }
        assert((seq![p] + s).to_multiset() =~= s.to_multiset().insert(p));
    } else {
        lemma_insert_sorted_multiset(p, s.drop_first());
        let rest = insert_sorted(p, s.drop_first());
        vstd::seq_lib::lemma_multiset_commutative(seq![s[0]], rest);
        vstd::seq_lib::lemma_multiset_commutative(seq![s[0]], s.drop_first());
        assert(seq![s[0]] + s.drop_first() =~= s);
        assert(seq![s[0]].to_multiset() =~= Multiset::empty().insert(s[0])) by {
            assert(seq![s[0]] =~= Seq::empty().push(s[0]));
        }
        assert((seq![s[0]] + rest).to_multiset() =~= s.to_multiset().insert(p));
    }
}

/// Sorting is a permutation: the multiset of pixels is unchanged.
pub proof fn lemma_sort_ascending_multiset(s: Seq<Pixel>)
    ensures
        sort_ascending(s).to_multiset() == s.to_multiset(),
    decreases s.len(),
{
    broadcast use vstd::seq_lib::group_to_multiset_ensures;

    if s.len() > 0 {
        lemma_sort_ascending_multiset(s.drop_last());
        lemma_insert_sorted_multiset(s.last(), sort_ascending(s.drop_last()));
        assert(s =~= s.drop_last().push(s.last()));
        assert(s.drop_last().push(s.last()).to_multiset()
            =~= s.drop_last().to_multiset().insert(s.last()));
    }
}

/// Every key in the inserted span is a key of the original span or of
/// the new pixel.
proof fn lemma_insert_sorted_key_bounds(p: Pixel, s: Seq<Pixel>, lb: int)
    requires
        lb <= brightness_key(p),
        forall|i: int| 0 <= i < s.len() ==> lb <= brightness_key(#[trigger] s[i]),
    ensures
        forall|i: int|
            0 <= i < insert_sorted(p, s).len() ==> lb <= brightness_key(
                #[trigger] insert_sorted(p, s)[i],
            ),
    decreases s.len(),
{
    if s.len() == 0 {
    } else if brightness_key(p) < brightness_key(s[0]) {
        assert(forall|i: int|
            1 <= i < (seq![p] + s).len() ==> (#[trigger] (seq![p] + s)[i]) == s[i - 1]);
    } else {
        assert(forall|i: int| 0 <= i < s.drop_first().len()
            ==> lb <= brightness_key(#[trigger] s.drop_first()[i]));
        lemma_insert_sorted_key_bounds(p, s.drop_first(), lb);
        let rest = insert_sorted(p, s.drop_first());
        assert(forall|i: int|
            1 <= i < (seq![s[0]] + rest).len() ==> (#[trigger] (seq![s[0]] + rest)[i]) == rest[i
                - 1]);
    }
}

/// Inserting into a sorted span keeps it sorted.
proof fn lemma_insert_sorted_sorted(p: Pixel, s: Seq<Pixel>)
    requires
        sorted_ascending(s),
    ensures
        sorted_ascending(insert_sorted(p, s)),
    decreases s.len(),
{
    if s.len() == 0 {
    } else if brightness_key(p) < brightness_key(s[0]) {
        let r = seq![p] + s;
        assert(forall|i: int| 1 <= i < r.len() ==> (#[trigger] r[i]) == s[i - 1]);
        assert(forall|i: int, j: int|
            0 <= i <= j < r.len() ==> brightness_key(r[i]) <= brightness_key(r[j]));
    } else {
        assert(sorted_ascending(s.drop_first()));
        lemma_insert_sorted_sorted(p, s.drop_first());
        let rest = insert_sorted(p, s.drop_first());
        assert(forall|i: int| 0 <= i < s.drop_first().len()
            ==> brightness_key(s[0]) <= brightness_key(#[trigger] s.drop_first()[i]));
        lemma_insert_sorted_key_bounds(p, s.drop_first(), brightness_key(s[0]));
        let r = seq![s[0]] + rest;
        assert(forall|i: int| 1 <= i < r.len() ==> (#[trigger] r[i]) == rest[i - 1]);
        assert(forall|i: int, j: int|
            0 <= i <= j < r.len() ==> brightness_key(r[i]) <= brightness_key(r[j]));
    }
}

/// The ascending sort really is sorted ascending.
pub proof fn lemma_sort_ascending_sorted(s: Seq<Pixel>)
    ensures
        sorted_ascending(sort_ascending(s)),
    decreases s.len(),
{
    if s.len() > 0 {
        lemma_sort_ascending_sorted(s.drop_last());
        lemma_insert_sorted_sorted(s.last(), sort_ascending(s.drop_last()));
    }
}

/// A pixel whose key is no smaller than every key of a sorted span is
/// inserted at its end.
proof fn lemma_insert_sorted_at_end(p: Pixel, s: Seq<Pixel>)
    requires
        forall|i: int| 0 <= i < s.len() ==> brightness_key(#[trigger] s[i]) <= brightness_key(p),
    ensures
        insert_sorted(p, s) == s.push(p),
    decreases s.len(),
{
    if s.len() == 0 {
        assert(insert_sorted(p, s) =~= s.push(p));
    } else {
        assert(forall|i: int| 0 <= i < s.drop_first().len()
            ==> brightness_key(#[trigger] s.drop_first()[i]) <= brightness_key(p));
        lemma_insert_sorted_at_end(p, s.drop_first());
        assert(seq![s[0]] + s.drop_first().push(p) =~= s.push(p));
    }
}

/// Sorting a span that is already sorted ascending leaves it unchanged;
/// with ties kept in place, the stable sort has nothing to move.
pub proof fn lemma_sort_ascending_of_sorted(s: Seq<Pixel>)
    requires
        sorted_ascending(s),
    ensures
        sort_ascending(s) == s,
    decreases s.len(),
{
    if s.len() > 0 {
        assert(sorted_ascending(s.drop_last()));
        lemma_sort_ascending_of_sorted(s.drop_last());
        assert(forall|i: int| 0 <= i < s.drop_last().len()
            ==> brightness_key(#[trigger] s.drop_last()[i]) <= brightness_key(s.last()));
        lemma_insert_sorted_at_end(s.last(), s.drop_last());
        assert(s.drop_last().push(s.last()) =~= s);
    }
}

/// Reversing `order` from ascending to descending on a span already
/// sorted ascending yields exactly the reversed span.
pub proof fn lemma_descending_of_ascending(s: Seq<Pixel>)
    requires
        sorted_ascending(s),
    ensures
        sort_by_order(s, Order::Descending) == s.reverse(),
{
    lemma_sort_ascending_of_sorted(s);
}

/// Sorting in either order preserves the span's length.
pub proof fn lemma_sort_by_order_len(s: Seq<Pixel>, ord: Order)
    ensures
        sort_by_order(s, ord).len() == s.len(),
{
    lemma_sort_ascending_len(s);
}

/// Sorting in either order is a permutation: the multiset of the
/// span's pixels is unchanged.
pub proof fn lemma_sort_by_order_multiset(s: Seq<Pixel>, ord: Order)
    ensures
        sort_by_order(s, ord).to_multiset() == s.to_multiset(),
{
    lemma_sort_ascending_multiset(s);
    match ord {
        Order::Ascending => {},
        Order::Descending => {
            sort_ascending(s).lemma_reverse_to_multiset();
        },
    }
}

/// The sorted span really is arranged in the requested order.
pub proof fn lemma_sort_by_order_sorted(s: Seq<Pixel>, ord: Order)
    ensures
        sorted_by_order(sort_by_order(s, ord), ord),
{
    lemma_sort_ascending_sorted(s);
    match ord {
        Order::Ascending => {},
        Order::Descending => {
            let u = sort_ascending(s);
            let t = u.reverse();
            assert forall|i: int, j: int|
                0 <= i <= j < t.len() implies brightness_key(t[i]) >= brightness_key(t[j]) by {
                assert(t[i] == u[u.len() - 1 - i]);
                assert(t[j] == u[u.len() - 1 - j]);
            }
        },
    }
}

/// A pixel whose key is no larger than every key of a span, and equal
/// to a key only where the pixels are equal too, is inserted at the
/// front (up to those equal pixels, which are itself).
proof fn lemma_insert_sorted_min_ties(p: Pixel, s: Seq<Pixel>)
    requires
        forall|i: int| 0 <= i < s.len() ==> brightness_key(p) <= brightness_key(#[trigger] s[i]),
        forall|i: int|
            0 <= i < s.len() && brightness_key(#[trigger] s[i]) == brightness_key(p) ==> s[i] == p,
    ensures
        insert_sorted(p, s) == seq![p] + s,
    decreases s.len(),
{
    if s.len() == 0 {
        assert(insert_sorted(p, s) =~= seq![p] + s);
    } else if brightness_key(p) < brightness_key(s[0]) {
    } else {
        assert(s[0] == p);
        assert(forall|i: int| 0 <= i < s.drop_first().len()
            ==> brightness_key(p) <= brightness_key(#[trigger] s.drop_first()[i]));
        assert(forall|i: int|
            0 <= i < s.drop_first().len() && brightness_key(#[trigger] s.drop_first()[i])
                == brightness_key(p) ==> s.drop_first()[i] == p);
        lemma_insert_sorted_min_ties(p, s.drop_first());
        assert(seq![s[0]] + (seq![p] + s.drop_first()) =~= seq![p] + s);
    }
}

/// The stable ascending sort of a span sorted descending, whose tied
/// pixels are equal, is exactly the reversed span.
proof fn lemma_sort_ascending_of_descending(s: Seq<Pixel>)
    requires
        sorted_descending(s),
        ties_are_equal(s),
    ensures
        sort_ascending(s) == s.reverse(),
    decreases s.len(),
{
    if s.len() == 0 {
        assert(sort_ascending(s) =~= s.reverse());
    } else {
        let d = s.drop_last();
        let p = s.last();
        assert(sorted_descending(d));
        assert(ties_are_equal(d));
        lemma_sort_ascending_of_descending(d);
        assert(forall|i: int| 0 <= i < d.reverse().len()
            ==> brightness_key(p) <= brightness_key(#[trigger] d.reverse()[i]));
        assert(forall|i: int|
            0 <= i < d.reverse().len() && brightness_key(#[trigger] d.reverse()[i])
                == brightness_key(p) ==> d.reverse()[i] == p);
        lemma_insert_sorted_min_ties(p, d.reverse());
        assert(seq![p] + d.reverse() =~= s.reverse());
    }
}

/// A span already arranged in the requested order is left unchanged by
/// sorting, provided that, for a descending span, pixels tied on the
/// brightness key are equal pixels. With distinct tied pixels a
/// descending sort reverses the order of each tie, because descending
/// is the reversal of the stable ascending sort.
pub proof fn lemma_sort_of_sorted(s: Seq<Pixel>, ord: Order)
    requires
        sorted_by_order(s, ord),
        ord == Order::Descending ==> ties_are_equal(s),
    ensures
        sort_by_order(s, ord) == s,
{
    match ord {
        Order::Ascending => {
            lemma_sort_ascending_of_sorted(s);
        },
        Order::Descending => {
            lemma_sort_ascending_of_descending(s);
            assert(s.reverse().reverse() =~= s);
        },
    }
}

/// Sorting a span twice with the same settings equals sorting it once:
/// the first sort leaves the span arranged in the requested order, and
/// sorting is stable and deterministic. For a descending order the
/// span's tied pixels must be equal pixels; with distinct tied pixels
/// each descending sort reverses the ties.
pub proof fn lemma_sort_idempotent(s: Seq<Pixel>, ord: Order)
    requires
        ord == Order::Descending ==> ties_are_equal(s),
    ensures
        sort_by_order(sort_by_order(s, ord), ord) == sort_by_order(s, ord),
{
    broadcast use vstd::seq_lib::group_to_multiset_ensures;

    let t = sort_by_order(s, ord);
    lemma_sort_ascending_sorted(s);
    match ord {
        Order::Ascending => {
            lemma_sort_ascending_of_sorted(t);
        },
        Order::Descending => {
            let u = sort_ascending(s);
            assert(t == u.reverse());
            lemma_sort_by_order_sorted(s, ord);
            assert(ties_are_equal(t)) by {
                lemma_sort_ascending_multiset(s);
                assert forall|i: int, j: int|
                    0 <= i < t.len() && 0 <= j < t.len() && brightness_key(t[i])
                        == brightness_key(t[j]) implies t[i] == t[j] by {
                    assert(t[i] == u[u.len() - 1 - i]);
                    assert(t[j] == u[u.len() - 1 - j]);
                    assert(u.contains(t[i]));
                    assert(u.contains(t[j]));
                    assert(s.to_multiset().count(t[i]) > 0);
                    assert(s.to_multiset().count(t[j]) > 0);
                    assert(s.contains(t[i]));
                    assert(s.contains(t[j]));
                    let ii = choose|k: int| 0 <= k < s.len() && s[k] == t[i];
                    let jj = choose|k: int| 0 <= k < s.len() && s[k] == t[j];
                    assert(s[ii] == s[jj]);
                }
            }
            lemma_sort_of_sorted(t, ord);
        },
    }
}

/// Where the stable insertion places a pixel: just before index `k`,
/// the first whose key is strictly greater.
proof fn lemma_insert_sorted_at(p: Pixel, s: Seq<Pixel>, k: int)
    requires
        0 <= k <= s.len(),
        forall|i: int| 0 <= i < k ==> brightness_key(#[trigger] s[i]) <= brightness_key(p),
        k < s.len() ==> brightness_key(p) < brightness_key(s[k]),
    ensures
        insert_sorted(p, s) == s.insert(k, p),
    decreases k,
{
    if k == 0 {
        if s.len() == 0 {
            assert(insert_sorted(p, s) =~= s.insert(0, p));
        } else {
            assert(seq![p] + s =~= s.insert(0, p));
        }
    } else {
        assert(forall|i: int| 0 <= i < k - 1
            ==> brightness_key(#[trigger] s.drop_first()[i]) <= brightness_key(p));
        assert(k - 1 < s.drop_first().len()
            ==> brightness_key(p) < brightness_key(s.drop_first()[k - 1]));
        lemma_insert_sorted_at(p, s.drop_first(), k - 1);
        assert(seq![s[0]] + s.drop_first().insert(k - 1, p) =~= s.insert(k, p));
    }
}

/// Insert one pixel into a vector at its stable sorted position.
fn insert_pixel(v: &mut Vec<Pixel>, p: Pixel)
    requires
        old(v)@.len() < usize::MAX,
    ensures
        final(v)@ == insert_sorted(p, old(v)@),
{
    let pk = p.key();
    let mut k: usize = 0;
    while k < v.len() && v[k].key() <= pk
        invariant
            k <= v@.len(),
            v@.len() < usize::MAX,
            v == old(v),
            pk == brightness_key(p),
            forall|i: int| 0 <= i < k ==> brightness_key(#[trigger] v@[i]) <= brightness_key(p),
        decreases v@.len() - k,
    {
        k = k + 1;
    }
    proof {
        lemma_insert_sorted_at(p, v@, k as int);
    }
    v.insert(k, p);
}

/// Copy the pixels of `src[start..end]` into a fresh vector and arrange
/// them in the requested order by brightness key: a stable ascending
/// sort, reversed when the order is descending.
pub fn sort_span(src: &Vec<Pixel>, start: usize, end: usize, ord: Order) -> (out: Vec<Pixel>)
    requires
        start <= end <= src@.len(),
    ensures
        out@ == sort_by_order(src@.subrange(start as int, end as int), ord),
        out@.len() == end - start,
{
    let mut out: Vec<Pixel> = Vec::new();
    let mut i: usize = start;
    assert(out@ =~= sort_ascending(src@.subrange(start as int, start as int)));
    while i < end
        invariant
            start <= i <= end <= src@.len(),
            out@ == sort_ascending(src@.subrange(start as int, i as int)),
            out@.len() == i - start,
        decreases end - i,
    {
        let ghost pre = src@.subrange(start as int, i as int);
        let ghost post = src@.subrange(start as int, i + 1 as int);
        insert_pixel(&mut out, src[i]);
        proof {
            assert(post.drop_last() =~= pre);
            assert(post.last() == src@[i as int]);
            lemma_insert_sorted_len(src@[i as int], sort_ascending(pre));
        }
        i = i + 1;
    }
    match ord {
        Order::Ascending => out,
        Order::Descending => {
            let rev = reverse_pixels(&out);
            proof {
                lemma_sort_ascending_len(src@.subrange(start as int, end as int));
            }
            rev
        },
    }
}

/// Reverse a vector of pixels.
fn reverse_pixels(v: &Vec<Pixel>) -> (out: Vec<Pixel>)
    ensures
        out@ == v@.reverse(),
{
    let mut out: Vec<Pixel> = Vec::new();
    let mut i: usize = 0;
    while i < v.len()
        invariant
            i <= v@.len(),
            out@.len() == i,
            forall|j: int| 0 <= j < i ==> #[trigger] out@[j] == v@[v@.len() - 1 - j],
        decreases v@.len() - i,
    {
        out.push(v[v.len() - 1 - i]);
        i = i + 1;
    }
    assert(out@ =~= v@.reverse());
    out
}

} // verus!
