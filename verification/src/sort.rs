//! Bounded insertion sort over signed 64-bit numbers: the sort core, with the
//! list types it takes and gives.

use vstd::prelude::*;
use vstd::relations::{sorted_by, total_ordering};

verus! {

broadcast use {
    vstd::multiset::group_multiset_axioms,
    vstd::seq_lib::group_to_multiset_ensures,
};

/// The longest list [`sort`] accepts. The bound belongs to the list types'
/// own crate (`automotive_wire_format_safety_types`), which this crate does
/// not depend on; 256 is an assumed value.
pub const MAX_LEN: usize = 256;

/// A list of numbers in the order they arrived.
pub struct NumberList {
    /// The numbers.
    pub values: Vec<i64>,
}

/// A list of numbers in non-decreasing order.
pub struct SortedList {
    /// The numbers, smallest first.
    pub values: Vec<i64>,
}

/// Why [`sort`] refused a list.
#[derive(Clone, Copy, Debug, PartialEq, Eq)]
pub enum SortError {
    /// The list is longer than [`MAX_LEN`].
    TooLong,
}

/// The order numbers are sorted by.
pub open spec fn ascending() -> spec_fn(i64, i64) -> bool {
    |x: i64, y: i64| x <= y
}

/// `s` is in non-decreasing order between positions `lo` (inclusive) and `hi`
/// (exclusive).
pub open spec fn sorted_between(s: Seq<i64>, lo: int, hi: int) -> bool {
    forall|a: int, b: int| lo <= a <= b < hi ==> #[trigger] s[a] <= #[trigger] s[b]
}

/// `s` is in non-decreasing order.
pub open spec fn is_sorted(s: Seq<i64>) -> bool {
    sorted_between(s, 0, s.len() as int)
}

pub proof fn lemma_ascending_total()
    ensures
        total_ordering(ascending()),
{
}

/// Any two orderings of the same numbers that are both non-decreasing are the
/// same sequence, so a sorted permutation of `s` is `s` sorted by
/// [`ascending`].
pub proof fn lemma_sorted_permutation_is_sort(s: Seq<i64>, t: Seq<i64>)
    requires
        is_sorted(t),
        t.to_multiset() == s.to_multiset(),
    ensures
        t == s.sort_by(ascending()),
{
    lemma_ascending_total();
    s.lemma_sort_by_ensures(ascending());
    let u = s.sort_by(ascending());
    assert(sorted_by(t, ascending())) by {
        assert forall|i: int, j: int| 0 <= i < j < t.len() implies #[trigger] (ascending())(
            t[i],
            t[j],
        ) by {
            assert(t[i] <= t[j]);
        }
    }
    vstd::seq_lib::lemma_sorted_unique(t, u, ascending());
}

/// Sorting an already sorted sequence leaves it as it is.
pub proof fn law_sort_idempotent(s: Seq<i64>)
    requires
        is_sorted(s),
    ensures
        s.sort_by(ascending()) == s,
{
    lemma_sorted_permutation_is_sort(s, s);
}

/// Sort `values` in place, smallest first, by repeatedly sinking each element
/// into the sorted prefix before it.
pub fn insertion_sort(values: &mut [i64])
    ensures
        final(values)@.len() == old(values)@.len(),
        is_sorted(final(values)@),
        final(values)@.to_multiset() == old(values)@.to_multiset(),
        final(values)@ == old(values)@.sort_by(ascending()),
{
    let mut i: usize = 1;
    while i < values.len()
        invariant
            1 <= i,
            values@.len() == 0 || i <= values@.len(),
            values@.len() == old(values)@.len(),
            sorted_between(values@, 0, i as int),
            values@.to_multiset() == old(values)@.to_multiset(),
        decreases values@.len() - i,
    {
        let mut j: usize = i;
        while j > 0 && values[j - 1] > values[j]
            invariant
                j <= i < values@.len(),
                values@.len() == old(values)@.len(),
                sorted_between(values@, 0, j as int),
                sorted_between(values@, j as int, i + 1),
                forall|a: int, b: int| 0 <= a < j < b <= i ==> #[trigger] values@[a] <= #[trigger] values@[b],
                values@.to_multiset() == old(values)@.to_multiset(),
            decreases j,
        {
            let ghost before = values@;
            let t = values[j - 1];
            values[j - 1] = values[j];
            values[j] = t;
            proof {
                let mid = before.update(j - 1, before[j as int]);
                assert(values@ == mid.update(j as int, before[j - 1]));
                assert(mid.to_multiset() == before.to_multiset().insert(before[j as int]).remove(before[j - 1]));
                assert(values@.to_multiset() == mid.to_multiset().insert(before[j - 1]).remove(mid[j as int]));
                assert(values@.to_multiset() =~= before.to_multiset());
                assert(sorted_between(values@, (j - 1) as int, i + 1)) by {
                    assert forall|a: int, b: int| (j - 1) as int <= a <= b < i + 1 implies #[trigger] values@[a] <= #[trigger] values@[b] by {
                        if a == j - 1 {
                            if b >= j + 1 {
                                assert(before[j as int] <= before[b]);
                            }
                        } else if a == j {
                            if b >= j + 1 {
                                assert(before[j - 1] <= before[b]);
                            }
                        } else {
                            assert(before[a] <= before[b]);
                        }
                    }
                }
                assert forall|a: int, b: int| 0 <= a < j - 1 < b <= i implies #[trigger] values@[a] <= #[trigger] values@[b] by {
                    if b == j {
                        assert(before[a] <= before[j - 1]);
                    } else {
                        assert(before[a] <= before[b]);
                    }
                }
            }
            j = j - 1;
        }
        proof {
            assert forall|a: int, b: int| 0 <= a <= b < i + 1 implies #[trigger] values@[a] <= #[trigger] values@[b] by {
                if b < j {
                } else if a >= j {
                } else if b > j {
                } else {
                    assert(values@[a] <= values@[j - 1]);
                }
            }
        }
        i = i + 1;
    }
    proof {
        lemma_sorted_permutation_is_sort(old(values)@, values@);
    }
}

/// Sort a list, smallest first.
///
/// # Errors
/// [`SortError::TooLong`] if the list is longer than [`MAX_LEN`].
pub fn sort(input: NumberList) -> (r: Result<SortedList, SortError>)
    ensures
        input.values@.len() > MAX_LEN ==> r == Err::<SortedList, _>(SortError::TooLong),
        input.values@.len() <= MAX_LEN ==> (r matches Ok(out) && out.values@ == input.values@.sort_by(
            ascending(),
        )),
{
    let mut data = input.values;
    if data.len() > MAX_LEN {
        return Err(SortError::TooLong);
    }
    insertion_sort(data.as_mut_slice());
    Ok(SortedList { values: data })
}

} // verus!
