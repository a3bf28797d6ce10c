use vstd::prelude::*;
use vstd::relations::{sorted_by, total_ordering};
use vstd::seq_lib::{lemma_sorted_unique, to_multiset_update};

verus! {

/// The ordering by which sample neighborhoods are sorted.
pub open spec fn sample_le() -> spec_fn(i64, i64) -> bool {
    |a: i64, b: i64| a <= b
}

pub proof fn lemma_sample_le_total()
    ensures
        total_ordering(sample_le()),
{
    assert forall|a: i64, b: i64| #[trigger] sample_le()(a, b) || sample_le()(b, a) by {
        assert(a <= b || b <= a);
    }
}

/// Sort a buffer of samples in nondecreasing order. The result is
/// exactly the mathematical sorting of the input sequence.
pub fn sort_samples(input: &Vec<i64>) -> (r: Vec<i64>)
    ensures
        r@ == input@.sort_by(sample_le()),
        r@.len() == input@.len(),
{
    broadcast use vstd::seq_lib::group_to_multiset_ensures;
    broadcast use vstd::multiset::group_multiset_axioms;

    let n = input.len();
    let mut v: Vec<i64> = Vec::new();
    let mut i: usize = 0;
    while i < n
        invariant
            i <= n,
            n == input@.len(),
            v@ == input@.subrange(0, i as int),
        decreases n - i,
    {
        v.push(input[i]);
        assert(input@.subrange(0, i as int).push(input@[i as int])
            == input@.subrange(0, i + 1 as int));
        i = i + 1;
    }
    assert(v@ == input@);

    let mut i: usize = 1;
    while i < n
        invariant
            1 <= i <= n || n == 0,
            n == v@.len(),
            v@.to_multiset() == input@.to_multiset(),
            forall|p: int, q: int| 0 <= p < q < i ==> sample_le()(#[trigger] v@[p], #[trigger] v@[q]),
        decreases n - i,
    {
        let mut j: usize = i;
        while j > 0 && v[j - 1] > v[j]
            invariant
                0 <= j <= i < n,
                n == v@.len(),
                v@.to_multiset() == input@.to_multiset(),
                forall|p: int, q: int|
                    0 <= p < q <= i && q != j ==> sample_le()(#[trigger] v@[p], #[trigger] v@[q]),
            decreases j,
        {
            let a = v[j - 1];
            let b = v[j];
            let ghost before = v@;
            v[j - 1] = b;
            v[j] = a;
            proof {
                assert(v@ == before.update(j - 1, b).update(j as int, a));
                let u1 = before.update(j - 1, b);
                to_multiset_update(before, j - 1, b);
                to_multiset_update(u1, j as int, a);
                assert(u1[j as int] == before[j as int] == b);
                assert(u1.to_multiset() == before.to_multiset().insert(b).remove(a));
                assert(v@.to_multiset() == u1.to_multiset().insert(a).remove(b));
                assert(before.contains(a));
                vstd::seq_lib::to_multiset_contains(before, a);
                assert(before.to_multiset().count(a) > 0);
                assert(v@.to_multiset() =~= before.to_multiset());
                assert(v@.to_multiset() == before.to_multiset());
                assert forall|p: int, q: int|
                    0 <= p < q <= i && q != j - 1 implies sample_le()(#[trigger] v@[p], #[trigger] v@[q]) by {
                    if p == j - 1 {
                        assert(v@[p] == before[j as int]);
                        if q == j {
                            assert(v@[q] == before[j - 1]);
                        } else {
                            assert(sample_le()(before[j - 1], before[q]));
                            assert(before[j as int] <= before[j - 1]);
                        }
                    } else if p == j {
                        assert(v@[p] == before[j - 1]);
                        assert(sample_le()(before[j - 1], before[q]));
                    } else {
                        if q == j {
                            assert(sample_le()(before[p], before[j - 1]));
                            assert(before[j as int] <= before[j - 1]);
                        } else {
                            assert(sample_le()(before[p], before[q]));
                        }
                    }
                }
            }
            j = j - 1;
        }
        assert forall|p: int, q: int|
            0 <= p < q <= i implies sample_le()(#[trigger] v@[p], #[trigger] v@[q]) by {
            if q == j {
                assert(j > 0);
                assert(sample_le()(v@[j - 1], v@[j as int]));
                if p < j - 1 {
                    assert(sample_le()(v@[p], v@[j - 1]));
                }
            }
        }
        i = i + 1;
    }
    proof {
        lemma_sample_le_total();
        assert(sorted_by(v@, sample_le()));
        input@.lemma_sort_by_ensures(sample_le());
        lemma_sorted_unique(v@, input@.sort_by(sample_le()), sample_le());
        assert(v@ == input@.sort_by(sample_le()));
    }
    v
}

} // verus!
