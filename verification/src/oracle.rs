//! Reference checks for the sort core: decoding a byte stream into numbers,
//! and the two properties a correct sort must have — its output is in order,
//! and it holds exactly the numbers it was given.

use vstd::prelude::*;
use crate::sort::{is_sorted, sorted_between};

verus! {

broadcast use {
    vstd::multiset::group_multiset_axioms,
    vstd::seq_lib::group_to_multiset_ensures,
};

/// The most numbers [`decode_i64_values`] decodes.
pub const MAX_DECODED: usize = 256;

/// The unsigned integer that `s` denotes, least significant byte first.
pub open spec fn le_value(s: Seq<u8>) -> nat
    decreases s.len(),
{
    if s.len() == 0 {
        0
    } else {
        s[0] as nat + 256 * le_value(s.drop_first())
    }
}

pub proof fn lemma_le_value_bound(s: Seq<u8>)
    ensures
        le_value(s) < crate::be::pow256(s.len()),
    decreases s.len(),
{
    if s.len() > 0 {
        lemma_le_value_bound(s.drop_first());
    }
}

/// The two's-complement number the eight bytes `chunk` hold, least
/// significant byte first.
pub open spec fn le_i64(chunk: Seq<u8>) -> i64 {
    (le_value(chunk) as u64) as i64
}

/// What [`decode_i64_values`] yields for `data`: one number per whole 8-byte
/// chunk, at most [`MAX_DECODED`] of them; a partial trailing chunk is
/// ignored.
pub open spec fn decoded_values(data: Seq<u8>) -> Seq<i64> {
    Seq::new(
        vstd::math::min((data.len() / 8) as int, MAX_DECODED as int) as nat,
        |k: int| le_i64(data.subrange(8 * k, 8 * k + 8)),
    )
}

/// Decode little-endian `i64`s from consecutive 8-byte chunks of `data`.
pub fn decode_i64_values(data: &[u8]) -> (r: Vec<i64>)
    ensures
        r@ == decoded_values(data@),
        r@.len() <= MAX_DECODED,
        8 * r@.len() <= data@.len(),
        r@.len() < MAX_DECODED ==> data@.len() < 8 * r@.len() + 8,
{
    proof {
        law_decoded_count(data@);
    }
    let total = if data.len() / 8 < MAX_DECODED {
        data.len() / 8
    } else {
        MAX_DECODED
    };
    let len = data.len();
    let mut out: Vec<i64> = Vec::new();
    let mut k: usize = 0;
    while k < total
        invariant
            len == data@.len(),
            total == vstd::math::min((data@.len() / 8) as int, MAX_DECODED as int),
            k <= total,
            out@.len() == k,
            forall|m: int| 0 <= m < k ==> out@[m] == le_i64(#[trigger] data@.subrange(8 * m, 8 * m + 8)),
        decreases total - k,
    {
        let base = 8 * k;
        let ghost chunk = data@.subrange(base as int, base + 8);
        let mut acc: u64 = 0;
        let mut j: usize = 8;
        while j > 0
            invariant
                len == data@.len(),
                base + 8 <= data@.len(),
                chunk == data@.subrange(base as int, base + 8),
                j <= 8,
                acc == le_value(chunk.subrange(j as int, 8)),
            decreases j,
        {
            proof {
                let tail = chunk.subrange(j - 1, 8);
                assert(tail.drop_first() =~= chunk.subrange(j as int, 8));
                lemma_le_value_bound(tail);
                assert(crate::be::pow256(tail.len()) <= crate::be::pow256(8)) by {
                    crate::be::lemma_pow256_monotone(tail.len(), 8);
                }
                crate::be::lemma_pow256_values();
            }
            acc = acc * 256 + data[base + j - 1] as u64;
            j = j - 1;
        }
        assert(chunk.subrange(0, 8) =~= chunk);
        out.push(#[verifier::truncate] (acc as i64));
        k = k + 1;
    }
    assert(out@ =~= decoded_values(data@));
    out
}

/// Whether `values` is in non-decreasing order, checked pair by adjacent pair.
pub fn is_non_decreasing(values: &[i64]) -> (r: bool)
    ensures
        r == is_sorted(values@),
{
    let n = values.len();
    if n < 2 {
        return true;
    }
    let mut i: usize = 1;
    while i < n
        invariant
            n == values@.len(),
            1 <= i <= n,
            sorted_between(values@, 0, i as int),
        decreases n - i,
    {
        if values[i - 1] > values[i] {
            return false;
        }
        proof {
            assert forall|a: int, b: int| 0 <= a <= b < i + 1 implies #[trigger] values@[a] <= #[trigger] values@[b] by {
                if b == i && a < i {
                    assert(values@[a] <= values@[i - 1]);
                }
            }
        }
        i = i + 1;
    }
    true
}

/// How many times `x` occurs in `values`.
fn count_of(values: &[i64], x: i64) -> (r: usize)
    ensures
        r == values@.to_multiset().count(x),
{
    let mut c: usize = 0;
    let mut i: usize = 0;
    while i < values.len()
        invariant
            i <= values@.len(),
            c == values@.take(i as int).to_multiset().count(x),
            c <= i,
        decreases values@.len() - i,
    {
        assert(values@.take(i + 1) =~= values@.take(i as int).push(values@[i as int]));
        if values[i] == x {
            c = c + 1;
        }
        i = i + 1;
    }
    assert(values@.take(i as int) =~= values@);
    c
}

/// Whether every number of `which` occurs as often in `a` as in `b`.
fn counts_agree_on(which: &[i64], a: &[i64], b: &[i64]) -> (r: bool)
    ensures
        r == forall|k: int| 0 <= k < which@.len() ==> a@.to_multiset().count(#[trigger] which@[k])
            == b@.to_multiset().count(which@[k]),
{
    let mut i: usize = 0;
    while i < which.len()
        invariant
            i <= which@.len(),
            forall|k: int| 0 <= k < i ==> a@.to_multiset().count(#[trigger] which@[k])
                == b@.to_multiset().count(which@[k]),
        decreases which@.len() - i,
    {
        if count_of(a, which[i]) != count_of(b, which[i]) {
            return false;
        }
        i = i + 1;
    }
    true
}

/// Whether `input` and `output` hold the same numbers, each as many times.
pub fn same_multiset(input: &[i64], output: &[i64]) -> (r: bool)
    ensures
        r == (input@.to_multiset() == output@.to_multiset()),
{
    let forward = counts_agree_on(input, input, output);
    let backward = counts_agree_on(output, input, output);
    proof {
        let mi = input@.to_multiset();
        let mo = output@.to_multiset();
        if forward && backward {
            assert forall|x: i64| mi.count(x) == mo.count(x) by {
                if input@.contains(x) {
                    let k = choose|k: int| 0 <= k < input@.len() && input@[k] == x;
                    assert(mi.count(input@[k]) == mo.count(input@[k]));
                } else if output@.contains(x) {
                    let k = choose|k: int| 0 <= k < output@.len() && output@[k] == x;
                    assert(mi.count(output@[k]) == mo.count(output@[k]));
                } else {
                    assert(mi.count(x) == 0);
                    assert(mo.count(x) == 0);
                }
            }
            assert(mi =~= mo);
        }
    }
    forward && backward
}

/// A sort that adds a number is caught: appending any number changes the
/// multiset, so [`same_multiset`] rejects it.
pub proof fn law_extra_element_detected(s: Seq<i64>, x: i64)
    ensures
        s.push(x).to_multiset() != s.to_multiset(),
{
    assert(s.push(x).to_multiset().count(x) == s.to_multiset().count(x) + 1);
}

/// The `n` bytes of `v`, least significant first.
pub open spec fn le_bytes(v: nat, n: nat) -> Seq<u8>
    decreases n,
{
    if n == 0 {
        Seq::empty()
    } else {
        seq![(v % 256) as u8] + le_bytes(v / 256, (n - 1) as nat)
    }
}

/// The eight little-endian bytes of `x` (what `x.to_le_bytes()` gives).
pub open spec fn i64_le_bytes(x: i64) -> Seq<u8> {
    le_bytes((x as u64) as nat, 8)
}

/// The little-endian bytes of `xs`, one after another.
pub open spec fn i64s_le_bytes(xs: Seq<i64>) -> Seq<u8>
    decreases xs.len(),
{
    if xs.len() == 0 {
        Seq::empty()
    } else {
        i64s_le_bytes(xs.drop_last()) + i64_le_bytes(xs.last())
    }
}

/// The `n` bytes of a number that fits in them read back, least significant
/// first, as that number.
pub proof fn lemma_le_bytes_value(v: nat, n: nat)
    requires
        v < crate::be::pow256(n),
    ensures
        le_bytes(v, n).len() == n,
        le_value(le_bytes(v, n)) == v,
    decreases n,
{
    if n > 0 {
        let n1 = (n - 1) as nat;
        crate::be::lemma_pow256_pos(n1);
        assert(crate::be::pow256(n) == 256 * crate::be::pow256(n1));
        vstd::arithmetic::div_mod::lemma_fundamental_div_mod(v as int, 256);
        let q = v / 256;
        let p = crate::be::pow256(n1);
        assert(q < p) by (nonlinear_arith)
            requires
                v == 256 * q + v % 256,
                0 <= v % 256,
                v < 256 * p,
        ;
        lemma_le_bytes_value(v / 256, n1);
        let s = le_bytes(v, n);
        assert(s.drop_first() =~= le_bytes(v / 256, n1));
    }
}

/// Every `i64` reads back from its eight little-endian bytes.
pub proof fn lemma_i64_le_bytes(x: i64)
    ensures
        i64_le_bytes(x).len() == 8,
        le_i64(i64_le_bytes(x)) == x,
{
    crate::be::lemma_pow256_values();
    lemma_le_bytes_value((x as u64) as nat, 8);
    assert(((x as u64) as i64) == x) by (bit_vector);
}

/// The bytes of `xs` are eight per number, and bytes `8k..8k + 8` are those
/// of `xs[k]`.
pub proof fn lemma_i64s_le_bytes(xs: Seq<i64>, k: int)
    ensures
        i64s_le_bytes(xs).len() == 8 * xs.len(),
        0 <= k < xs.len() ==> i64s_le_bytes(xs).subrange(8 * k, 8 * k + 8) == i64_le_bytes(xs[k]),
    decreases xs.len(),
{
    if xs.len() > 0 {
        let init = xs.drop_last();
        lemma_i64s_le_bytes(init, k);
        lemma_i64_le_bytes(xs.last());
        let a = i64s_le_bytes(init);
        let b = i64_le_bytes(xs.last());
        if 0 <= k < init.len() {
            assert((a + b).subrange(8 * k, 8 * k + 8) =~= a.subrange(8 * k, 8 * k + 8));
        } else if k == init.len() {
            assert((a + b).subrange(8 * k, 8 * k + 8) =~= b);
        }
    }
}

/// Decoding yields one number per whole 8-byte chunk, at most
/// [`MAX_DECODED`]: a trailing partial chunk adds none, and every whole chunk
/// within the limit adds one.
pub proof fn law_decoded_count(data: Seq<u8>)
    ensures
        decoded_values(data).len() <= MAX_DECODED,
        8 * decoded_values(data).len() <= data.len(),
        decoded_values(data).len() < MAX_DECODED ==> data.len() < 8 * decoded_values(data).len() + 8,
{
}

/// Decoding the little-endian bytes of up to [`MAX_DECODED`] numbers gives
/// back exactly those numbers, in order.
pub proof fn law_decode_i64_roundtrip(xs: Seq<i64>)
    requires
        xs.len() <= MAX_DECODED,
    ensures
        decoded_values(i64s_le_bytes(xs)) == xs,
{
    lemma_i64s_le_bytes(xs, 0);
    let data = i64s_le_bytes(xs);
    assert(data.len() / 8 == xs.len()) by {
        vstd::arithmetic::div_mod::lemma_div_multiples_vanish(xs.len() as int, 8);
    }
    assert forall|k: int| 0 <= k < xs.len() implies #[trigger] decoded_values(data)[k] == xs[k] by {
        lemma_i64s_le_bytes(xs, k);
        lemma_i64_le_bytes(xs[k]);
    }
    assert(decoded_values(data) =~= xs);
}

} // verus!
