//! The arithmetic of big-endian byte strings: what a run of bytes denotes, the
//! bytes that denote a number, and the facts that tie the two together.

use vstd::prelude::*;
use vstd::arithmetic::div_mod::{
    lemma_div_denominator, lemma_fundamental_div_mod_converse, lemma_mod_breakdown,
};

verus! {

/// `256` to the power `n`: one more than the largest value `n` bytes can hold.
pub open spec fn pow256(n: nat) -> nat
    decreases n,
{
    if n == 0 {
        1
    } else {
        256 * pow256((n - 1) as nat)
    }
}

/// The unsigned integer that `s` denotes, most significant byte first.
pub open spec fn be_value(s: Seq<u8>) -> nat
    decreases s.len(),
{
    if s.len() == 0 {
        0
    } else {
        be_value(s.drop_last()) * 256 + s.last() as nat
    }
}

/// The low `n` bytes of `v`, most significant first. Bytes of `v` above the
/// low `n` are not represented.
pub open spec fn be_bytes(v: nat, n: nat) -> Seq<u8> {
    Seq::new(n, |i: int| ((v / pow256((n - 1 - i) as nat)) % 256) as u8)
}

pub proof fn lemma_pow256_pos(n: nat)
    ensures
        pow256(n) > 0,
    decreases n,
{
    if n > 0 {
        lemma_pow256_pos((n - 1) as nat);
    }
}

pub proof fn lemma_pow256_monotone(m: nat, n: nat)
    requires
        m <= n,
    ensures
        pow256(m) <= pow256(n),
    decreases n,
{
    if m < n {
        lemma_pow256_monotone(m, (n - 1) as nat);
        lemma_pow256_pos((n - 1) as nat);
    }
}

/// The widths the fixed-size helpers use, spelled out.
pub proof fn lemma_pow256_values()
    ensures
        pow256(1) == 0x100,
        pow256(2) == 0x1_0000,
        pow256(4) == 0x1_0000_0000,
        pow256(8) == 0x1_0000_0000_0000_0000,
        pow256(16) == 0x1_0000_0000_0000_0000_0000_0000_0000_0000,
{
    reveal_with_fuel(pow256, 17);
}

/// A byte string of length `n` denotes a number below `256^n`.
pub proof fn lemma_be_value_bound(s: Seq<u8>)
    ensures
        be_value(s) < pow256(s.len()),
    decreases s.len(),
{
    if s.len() > 0 {
        lemma_be_value_bound(s.drop_last());
    }
}

/// Splitting off the least significant byte.
pub proof fn lemma_be_bytes_split(v: nat, n: nat)
    requires
        n > 0,
    ensures
        be_bytes(v, n) == be_bytes(v / 256, (n - 1) as nat).push((v % 256) as u8),
{
    let lhs = be_bytes(v, n);
    let rhs = be_bytes(v / 256, (n - 1) as nat).push((v % 256) as u8);
    assert forall|i: int| 0 <= i < n - 1 implies lhs[i] == rhs[i] by {
        let k = (n - 2 - i) as nat;
        lemma_pow256_pos(k);
        lemma_div_denominator(v as int, 256, pow256(k) as int);
        assert(pow256((n - 1 - i) as nat) == 256 * pow256(k));
    }
    assert(pow256(0) == 1);
    assert(((n - 1 - (n - 1)) as nat) == 0);
    assert(v / 1 == v);
    assert(lhs[n - 1] == ((v / pow256(0)) % 256) as u8);
    assert(lhs[n - 1] == rhs[n - 1]);
    assert(lhs =~= rhs);
}

/// The bytes of a number denote that number, reduced to what `n` bytes can hold.
pub proof fn lemma_be_bytes_value(v: nat, n: nat)
    ensures
        be_value(be_bytes(v, n)) == v % pow256(n),
    decreases n,
{
    if n == 0 {
        assert(be_bytes(v, n) =~= Seq::<u8>::empty());
    } else {
        let n1 = (n - 1) as nat;
        lemma_be_bytes_split(v, n);
        lemma_be_bytes_value(v / 256, n1);
        let s = be_bytes(v, n);
        assert(s.drop_last() =~= be_bytes(v / 256, n1));
        lemma_pow256_pos(n1);
        lemma_mod_breakdown(v as int, 256, pow256(n1) as int);
    }
}

/// A number that fits in `n` bytes is denoted exactly by its `n` bytes.
pub proof fn lemma_be_bytes_value_fits(v: nat, n: nat)
    requires
        v < pow256(n),
    ensures
        be_value(be_bytes(v, n)) == v,
{
    lemma_be_bytes_value(v, n);
    vstd::arithmetic::div_mod::lemma_small_mod(v, pow256(n));
}

/// A byte string is the `len`-byte encoding of the number it denotes.
pub proof fn lemma_be_value_bytes(s: Seq<u8>)
    ensures
        be_bytes(be_value(s), s.len()) == s,
    decreases s.len(),
{
    if s.len() == 0 {
        assert(be_bytes(be_value(s), 0) =~= s);
    } else {
        let n = s.len();
        let v = be_value(s);
        let p = s.drop_last();
        lemma_be_value_bytes(p);
        lemma_be_bytes_split(v, n);
        lemma_fundamental_div_mod_converse(v as int, 256, be_value(p) as int, s.last() as int);
        assert(s =~= p.push(s.last()));
    }
}

/// The trailing `n` bytes of a wider encoding are the `n`-byte encoding.
pub proof fn lemma_be_bytes_suffix(v: nat, m: nat, n: nat)
    requires
        n <= m,
    ensures
        be_bytes(v, m).subrange(m - n, m as int) == be_bytes(v, n),
{
    assert(be_bytes(v, m).subrange(m - n, m as int) =~= be_bytes(v, n));
}

/// Read the bytes of `b` as one big-endian unsigned number.
pub fn be_fold(b: &[u8]) -> (r: u128)
    requires
        b@.len() <= 16,
    ensures
        r == be_value(b@),
{
    let mut acc: u128 = 0;
    let mut i: usize = 0;
    while i < b.len()
        invariant
            i <= b@.len() <= 16,
            acc == be_value(b@.take(i as int)),
        decreases b@.len() - i,
    {
        proof {
            lemma_be_value_bound(b@.take(i as int));
            lemma_pow256_monotone((i + 1) as nat, 16);
            lemma_pow256_values();
            assert(b@.take(i + 1).drop_last() =~= b@.take(i as int));
        }
        acc = acc * 256 + b[i] as u128;
        i = i + 1;
    }
    assert(b@.take(i as int) =~= b@);
    acc
}

/// All sixteen bytes of `v`, most significant first.
pub fn be_array16(v: u128) -> (out: [u8; 16])
    ensures
        out@ == be_bytes(v as nat, 16),
{
    let mut out = [0u8; 16];
    let mut x: u128 = v;
    assert(pow256(0) == 1);
    assert(v as nat / 1 == v);
    assert(v as nat / pow256(0) == v);
    let mut i: usize = 16;
    while i > 0
        invariant
            i <= 16,
            out@.len() == 16,
            x == v as nat / pow256((16 - i) as nat),
            forall|j: int| i <= j < 16 ==> out@[j] == be_bytes(v as nat, 16)[j],
        decreases i,
    {
        proof {
            lemma_pow256_pos((16 - i) as nat);
            lemma_div_denominator(v as int, pow256((16 - i) as nat) as int, 256);
            assert(pow256((16 - i + 1) as nat) == 256 * pow256((16 - i) as nat));
        }
        out[i - 1] = (x % 256) as u8;
        x = x / 256;
        i = i - 1;
    }
    assert(out@ =~= be_bytes(v as nat, 16));
    out
}

} // verus!
