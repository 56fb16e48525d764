//! Ordering lists of ids.

use vstd::prelude::*;
use vstd::seq_lib::{to_multiset_build, to_multiset_insert};

verus! {

/// Whether the numbers stand in descending order.
pub open spec fn descending(s: Seq<u64>) -> bool {
    forall|i: int, j: int| 0 <= i < j < s.len() ==> s[i] >= s[j]
}

/// Whether `t` holds the numbers of `s`, each as often, in descending order.
pub open spec fn in_descending_order(s: Seq<u64>, t: Seq<u64>) -> bool {
    descending(t) && t.to_multiset() == s.to_multiset()
}

/// The numbers of a list in descending order.
pub open spec fn descending_of(s: Seq<u64>) -> Seq<u64> {
    choose|t: Seq<u64>| in_descending_order(s, t)
}

/// There is one way only to put numbers in descending order.
pub proof fn lemma_descending_unique(s: Seq<u64>, t: Seq<u64>)
    requires
        in_descending_order(s, t),
    ensures
        t == descending_of(s),
{
    let u = descending_of(s);
    let geq = |a: u64, b: u64| a >= b;
    assert(vstd::relations::total_ordering(geq));
    assert(vstd::relations::sorted_by(t, geq));
    assert(vstd::relations::sorted_by(u, geq));
    vstd::seq_lib::lemma_sorted_unique(t, u, geq);
}

/// Whether each number is larger than the next.
pub open spec fn strictly_descending(s: Seq<u64>) -> bool {
    forall|i: int, j: int| 0 <= i < j < s.len() ==> s[i] > s[j]
}

/// Numbers of which none stands twice descend strictly when they are put
/// in descending order.
pub proof fn lemma_descending_strict(s: Seq<u64>, t: Seq<u64>)
    requires
        s.no_duplicates(),
        in_descending_order(s, t),
    ensures
        strictly_descending(t),
        t.no_duplicates(),
{
    s.lemma_multiset_has_no_duplicates();
    t.lemma_multiset_has_no_duplicates_conv();
    assert forall|i: int, j: int| 0 <= i < j < t.len() implies t[i] > t[j] by {
        assert(t[i] != t[j]);
    }
}

/// The numbers of a list in descending order: the same numbers, each as
/// often as before.
pub fn sort_descending(items: &Vec<u64>) -> (sorted: Vec<u64>)
    ensures
        sorted@ == descending_of(items@),
        descending(sorted@),
        sorted@.to_multiset() == items@.to_multiset(),
        sorted@.len() == items@.len(),
{
    broadcast use to_multiset_build, to_multiset_insert;

    let mut out: Vec<u64> = Vec::with_capacity(items.len());
    let mut i: usize = 0;
    assert(items@.take(0) =~= Seq::empty());
    while i < items.len()
        invariant
            i <= items.len(),
            out@.len() == i,
            descending(out@),
            out@.to_multiset() == items@.take(i as int).to_multiset(),
        decreases items.len() - i,
    {
        let x = items[i];
        let mut p: usize = 0;
        while p < out.len() && out[p] >= x
            invariant
                p <= out.len(),
                descending(out@),
                forall|k: int| 0 <= k < p ==> out@[k] >= x,
            decreases out.len() - p,
        {
            p += 1;
        }
        let ghost before = out@;
        out.insert(p, x);
        proof {
            assert(out@ == before.insert(p as int, x));
            to_multiset_insert(before, p as int, x);
            assert(items@.take(i + 1) =~= items@.take(i as int).push(x));
            to_multiset_build(items@.take(i as int), x);
            assert forall|a: int, b: int| 0 <= a < b < out@.len() implies out@[a] >= out@[b] by {
                if b < p {
                    assert(out@[a] == before[a] && out@[b] == before[b]);
                } else if b == p {
                    assert(out@[a] == before[a]);
                } else if a < p {
                    assert(out@[a] == before[a] && out@[b] == before[b - 1]);
                    if p < before.len() {
                        assert(before[p as int] < x);
                    }
                } else if a == p {
                    assert(out@[b] == before[b - 1]);
                    assert(before[p as int] < x);
                    assert(before[p as int] >= before[b - 1] || p as int == b - 1);
                } else {
                    assert(out@[a] == before[a - 1] && out@[b] == before[b - 1]);
                }
            }
        }
        i += 1;
    }
    assert(items@.take(i as int) =~= items@);
    proof {
        lemma_descending_unique(items@, out@);
        vstd::seq_lib::to_multiset_len(out@);
        vstd::seq_lib::to_multiset_len(items@);
    }
    out
}

/// Whether a list of numbers holds a number.
pub fn contains_number(list: &Vec<u64>, x: u64) -> (found: bool)
    ensures
        found == list@.contains(x),
{
    let mut i: usize = 0;
    while i < list.len()
        invariant
            i <= list.len(),
            forall|j: int| 0 <= j < i ==> list@[j] != x,
        decreases list.len() - i,
    {
        if list[i] == x {
            return true;
        }
        i += 1;
    }
    false
}

/// Where two lists hold the same numbers, each as often, a number is in the
/// one where it is in the other.
pub proof fn lemma_same_numbers(a: Seq<u64>, b: Seq<u64>, x: u64)
    requires
        a.to_multiset() == b.to_multiset(),
    ensures
        a.contains(x) == b.contains(x),
{
    broadcast use vstd::seq_lib::to_multiset_contains;

    assert(a.contains(x) <==> a.to_multiset().count(x) > 0);
    assert(b.contains(x) <==> b.to_multiset().count(x) > 0);
}

} // verus!
