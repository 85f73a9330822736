//! The algebraic laws of the reader and the three operations, stated over
//! the same spec functions the executable contracts use.

use vstd::prelude::*;
use vstd::seq_lib::seq_to_set_is_finite;
use vstd::set_lib::lemma_len_subset;
use crate::lineset::dedup_first;
use crate::lineset::keep_in;
use crate::lineset::keep_out;
use crate::lineset::lemma_dedup_first_props;
use crate::lineset::lemma_keep_in_props;
use crate::lineset::lemma_keep_out_props;
use crate::lineset::lemma_union_props;

verus! {

/// Intersection is commutative: as sets, the lines common to `a` and `b`
/// are the lines common to `b` and `a`.
pub proof fn lemma_intersection_commutative(a: Seq<Seq<char>>, b: Seq<Seq<char>>)
    ensures
        keep_in(a, b).to_set() == keep_in(b, a).to_set(),
{
    lemma_keep_in_props(a, b);
    lemma_keep_in_props(b, a);
    assert(a.to_set().intersect(b.to_set()) =~= b.to_set().intersect(a.to_set()));
}

/// Union is commutative and is exactly the set union of the two line sets.
pub proof fn lemma_union_commutative(a: Seq<Seq<char>>, b: Seq<Seq<char>>)
    ensures
        (a + keep_out(b, a)).to_set() == a.to_set().union(b.to_set()),
        (a + keep_out(b, a)).to_set() == (b + keep_out(a, b)).to_set(),
{
    lemma_union_props(a, b);
    lemma_union_props(b, a);
    assert(a.to_set().union(b.to_set()) =~= b.to_set().union(a.to_set()));
}

/// The union of two duplicate-free line sets is at least as large as each
/// of them and no larger than their combined size.
pub proof fn lemma_union_size_bounds(a: Seq<Seq<char>>, b: Seq<Seq<char>>)
    requires
        a.no_duplicates(),
        b.no_duplicates(),
    ensures
        a.len() <= (a + keep_out(b, a)).len(),
        b.len() <= (a + keep_out(b, a)).len(),
        (a + keep_out(b, a)).len() <= a.len() + b.len(),
{
    broadcast use seq_to_set_is_finite;

    lemma_union_props(a, b);
    lemma_keep_out_props(b, a);
    let u = a + keep_out(b, a);
    u.unique_seq_to_set();
    b.unique_seq_to_set();
    assert(b.to_set().subset_of(u.to_set()));
    lemma_len_subset(b.to_set(), u.to_set());
}

/// Difference tells distinct sets apart: `a - b` and `b - a` are equal as
/// sets exactly when `a` and `b` hold the same lines. In particular the two
/// differences of unequal sets differ, and the difference of equal sets is
/// empty either way round.
pub proof fn lemma_difference_non_commutative(a: Seq<Seq<char>>, b: Seq<Seq<char>>)
    ensures
        (keep_out(a, b).to_set() == keep_out(b, a).to_set()) <==> (a.to_set() == b.to_set()),
{
    lemma_keep_out_props(a, b);
    lemma_keep_out_props(b, a);
    let d1 = keep_out(a, b).to_set();
    let d2 = keep_out(b, a).to_set();
    assert((a.to_set() == b.to_set()) ==> (d1 == d2)) by {
        if a.to_set() == b.to_set() {
            assert(d1 =~= d2);
        }
    }
    assert((d1 == d2) ==> (a.to_set() == b.to_set())) by {
        if d1 == d2 {
            assert forall|x: Seq<char>| a.to_set().contains(x) implies b.to_set().contains(
                x,
            ) by {
                if !b.to_set().contains(x) {
                    assert(d1.contains(x));
                    assert(d2.contains(x));
                }
            }
            assert forall|x: Seq<char>| b.to_set().contains(x) implies a.to_set().contains(
                x,
            ) by {
                if !a.to_set().contains(x) {
                    assert(d2.contains(x));
                    assert(d1.contains(x));
                }
            }
            assert(a.to_set() =~= b.to_set());
        }
    }
}

/// Reading the same lines twice yields the same set: the reader is a pure
/// function of the lines it is given, so equal sources give equal sets.
pub proof fn lemma_reader_idempotent(l1: Seq<Seq<char>>, l2: Seq<Seq<char>>)
    requires
        l1 == l2,
    ensures
        dedup_first(l1) == dedup_first(l2),
        dedup_first(l1).to_set() == dedup_first(l2).to_set(),
{
}

/// A source that repeats a line any number of times yields a set holding
/// that line exactly once.
pub proof fn lemma_duplicates_collapse(l: Seq<Seq<char>>, x: Seq<char>)
    requires
        l.contains(x),
    ensures
        dedup_first(l).to_set().contains(x),
        dedup_first(l).to_multiset().count(x) == 1,
{
    broadcast use vstd::seq_lib::group_seq_properties;

    lemma_dedup_first_props(l);
    let d = dedup_first(l);
    d.to_multiset_ensures();
    d.lemma_multiset_has_no_duplicates();
    assert(l.to_set().contains(x));
    assert(d.to_set().contains(x));
    assert(d.contains(x));
    assert(d.to_multiset().count(x) > 0);
}

} // verus!
