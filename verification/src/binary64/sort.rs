//! Sorting numbers by their total order.
use vstd::prelude::*;
use vstd::relations::*;
use vstd::seq_lib::*;

use super::F64;

verus! {

/// The total order of bit patterns.
pub open spec fn in_order() -> spec_fn(F64, F64) -> bool {
    |a: F64, b: F64| a.total_position() <= b.total_position()
}

/// The numbers of `s` in the total order.
pub open spec fn ascending(s: Seq<F64>) -> Seq<F64> {
    s.sort_by(in_order())
}

proof fn lemma_total_ordering()
    ensures
        total_ordering(in_order()),
{
    assert forall|a: F64, b: F64| #[trigger] in_order()(a, b) && #[trigger] in_order()(
        b,
        a,
    ) implies a == b by {
        assert(a.total_position() == b.total_position());
        assert(a.bits == b.bits);
    }
}

/// Sorting keeps the numbers and puts them in order; what is in order already stays.
pub proof fn ascending_is_sorted(s: Seq<F64>)
    ensures
        ascending(s).len() == s.len(),
        ascending(s).to_multiset() == s.to_multiset(),
        forall|i: int, j: int|
            0 <= i <= j < s.len() ==> (#[trigger] ascending(s)[i]).total_position() <= (
            #[trigger] ascending(s)[j]).total_position(),
{
    lemma_total_ordering();
    s.lemma_sort_by_ensures(in_order());
    s.to_multiset_ensures();
    ascending(s).to_multiset_ensures();
    let r = ascending(s);
    assert forall|i: int, j: int| 0 <= i <= j < s.len() implies (#[trigger] r[i]).total_position()
        <= (#[trigger] r[j]).total_position() by {
        assert(sorted_by(r, in_order()));
        if i < j {
            assert(in_order()(r[i], r[j]));
        }
    }
}

/// The two sorted lists as one.
fn merge(a: &Vec<F64>, b: &Vec<F64>) -> (r: Vec<F64>)
    requires
        sorted_by(a@, in_order()),
        sorted_by(b@, in_order()),
    ensures
        sorted_by(r@, in_order()),
        r@.to_multiset() == a@.to_multiset().add(b@.to_multiset()),
{
    let mut r: Vec<F64> = Vec::new();
    let mut i: usize = 0;
    let mut j: usize = 0;
    proof {
        assert(a@.take(0) =~= Seq::<F64>::empty());
        assert(b@.take(0) =~= Seq::<F64>::empty());
        Seq::<F64>::empty().to_multiset_ensures();
        assert(r@.to_multiset() =~= a@.take(0).to_multiset().add(b@.take(0).to_multiset()));
    }
    while i < a.len() || j < b.len()
        invariant
            i <= a@.len(),
            j <= b@.len(),
            sorted_by(a@, in_order()),
            sorted_by(b@, in_order()),
            sorted_by(r@, in_order()),
            r@.to_multiset() == a@.take(i as int).to_multiset().add(
                b@.take(j as int).to_multiset(),
            ),
            forall|p: int, q: int|
                0 <= p < r@.len() && i <= q < a@.len() ==> (#[trigger] r@[p]).total_position() <= (
                #[trigger] a@[q]).total_position(),
            forall|p: int, q: int|
                0 <= p < r@.len() && j <= q < b@.len() ==> (#[trigger] r@[p]).total_position() <= (
                #[trigger] b@[q]).total_position(),
        decreases (a@.len() - i) + (b@.len() - j),
    {
        let ghost before = r@;
        proof {
            a@.take(i as int).to_multiset_ensures();
            b@.take(j as int).to_multiset_ensures();
            before.to_multiset_ensures();
            assert forall|q: int| i <= q < a@.len() implies a@[i as int].total_position()
                <= #[trigger] a@[q].total_position() by {
                if i < q {
                    assert(in_order()(a@[i as int], a@[q]));
                }
            }
            assert forall|q: int| j <= q < b@.len() implies b@[j as int].total_position()
                <= #[trigger] b@[q].total_position() by {
                if j < q {
                    assert(in_order()(b@[j as int], b@[q]));
                }
            }
        }
        if j >= b.len() || (i < a.len() && !b[j].total_before(a[i])) {
            let x = a[i];
            r.push(x);
            i = i + 1;
            proof {
                assert(a@.take(i as int) =~= a@.take(i - 1).push(x));
                assert(r@.to_multiset() =~= a@.take(i as int).to_multiset().add(
                    b@.take(j as int).to_multiset(),
                ));
            }
        } else {
            let x = b[j];
            r.push(x);
            j = j + 1;
            proof {
                assert(b@.take(j as int) =~= b@.take(j - 1).push(x));
                assert(r@.to_multiset() =~= a@.take(i as int).to_multiset().add(
                    b@.take(j as int).to_multiset(),
                ));
            }
        }
        assert forall|p: int, q: int| 0 <= p < q < r@.len() implies #[trigger] in_order()(
            r@[p],
            r@[q],
        ) by {
            if q < before.len() {
                assert(in_order()(before[p], before[q]));
            }
        }
    }
    assert(a@.take(i as int) =~= a@);
    assert(b@.take(j as int) =~= b@);
    r
}

/// The numbers of `v` in the total order.
pub fn sorted(v: &[F64]) -> (r: Vec<F64>)
    ensures
        r@ == ascending(v@),
    decreases v@.len(),
{
    if v.len() <= 1 {
        let mut r: Vec<F64> = Vec::new();
        r.extend_from_slice(v);
        proof {
            assert(r@ =~= v@);
            lemma_is_ascending(r@, v@);
        }
        return r;
    }
    let (left, right) = v.split_at(v.len() / 2);
    let a = sorted(left);
    let b = sorted(right);
    proof {
        lemma_total_ordering();
        left@.lemma_sort_by_ensures(in_order());
        right@.lemma_sort_by_ensures(in_order());
        lemma_multiset_commutative(left@, right@);
        assert(v@ =~= left@ + right@);
    }
    let r = merge(&a, &b);
    proof {
        lemma_is_ascending(r@, v@);
    }
    r
}

proof fn lemma_is_ascending(r: Seq<F64>, s: Seq<F64>)
    requires
        sorted_by(r, in_order()),
        r.to_multiset() == s.to_multiset(),
    ensures
        r == ascending(s),
{
    lemma_total_ordering();
    s.lemma_sort_by_ensures(in_order());
    lemma_sorted_unique(r, ascending(s), in_order());
}

} // verus!
