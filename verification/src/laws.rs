//! Laws that tie the read helpers to the write helpers. Each is stated over
//! the spec functions that the helpers' own contracts use: a read returns
//! `be_value` of the leading bytes (see [`field_split`]), a write emits
//! `be_bytes` of the value.

use vstd::prelude::*;
use crate::be::{
    be_bytes, be_value, lemma_be_bytes_value, lemma_be_bytes_value_fits, lemma_be_value_bound,
    lemma_be_value_bytes, lemma_pow256_values, pow256,
};
use crate::read::field_split;
use crate::write::{lemma_min_be_len_fits, min_be_len};

verus! {

/// Encode then decode: the bytes a fixed- or variable-width write emits for a
/// value that fits in `n` bytes, followed by anything, read back as that value
/// and leave exactly what followed.
pub proof fn law_write_then_read(v: nat, n: nat, rest: Seq<u8>)
    requires
        v < pow256(n),
    ensures
        field_split(be_bytes(v, n) + rest, n) == Ok::<_, crate::error::Incomplete>((be_bytes(v, n), rest)),
        be_value((be_bytes(v, n) + rest).take(n as int)) == v,
{
    let s = be_bytes(v, n) + rest;
    assert(s.take(n as int) =~= be_bytes(v, n));
    assert(s.skip(n as int) =~= rest);
    lemma_be_bytes_value_fits(v, n);
}

/// Every `u8`, `u16`, `u32`, `u64` and `u128` fits its own width, so each
/// fixed-width helper pair round-trips every value.
pub proof fn law_fixed_widths_fit(a: u8, b: u16, c: u32, d: u64, e: u128)
    ensures
        (a as nat) < pow256(1),
        (b as nat) < pow256(2),
        (c as nat) < pow256(4),
        (d as nat) < pow256(8),
        (e as nat) < pow256(16),
{
    lemma_pow256_values();
}

/// A value wider than the field is truncated: `write_be_uint(v, n)` emits
/// bytes that read back as `v mod 256^n`, not `v`.
pub proof fn law_write_truncates(v: nat, n: nat)
    ensures
        be_value(be_bytes(v, n)) == v % pow256(n),
{
    lemma_be_bytes_value(v, n);
}

/// Decode then encode: writing back, at the same width, the value just read
/// reproduces the bytes it was read from.
pub proof fn law_read_then_write(s: Seq<u8>, n: nat)
    requires
        n <= s.len(),
    ensures
        be_bytes(be_value(s.take(n as int)), n) == s.take(n as int),
{
    lemma_be_value_bytes(s.take(n as int));
}

/// The minimal width never over-reports: a value read from `n` bytes needs at
/// most `n`.
pub proof fn law_minimal_width_within_read_width(s: Seq<u8>, n: nat)
    requires
        n <= s.len(),
    ensures
        min_be_len(be_value(s.take(n as int))) <= n,
{
    lemma_be_value_bound(s.take(n as int));
    lemma_min_be_len_fits(be_value(s.take(n as int)), n);
}

/// The minimal width loses nothing: a `u128` needs at most 16 bytes, and its
/// bytes at that width read back as the value itself.
pub proof fn law_minimal_width_lossless(v: u128)
    ensures
        min_be_len(v as nat) <= 16,
        be_value(be_bytes(v as nat, min_be_len(v as nat))) == v,
{
    lemma_pow256_values();
    lemma_min_be_len_fits(v as nat, 16);
    lemma_min_be_len_fits(v as nat, min_be_len(v as nat));
    lemma_be_bytes_value_fits(v as nat, min_be_len(v as nat));
}

/// `take` splits without loss: the head followed by the tail is the buffer,
/// and the tail is `n` bytes shorter.
pub proof fn law_take_splits(s: Seq<u8>, n: nat)
    requires
        n <= s.len(),
    ensures
        field_split(s, n) matches Ok((head, tail)) && head + tail == s && tail.len() == s.len() - n,
{
    assert(s.take(n as int) + s.skip(n as int) =~= s);
}

} // verus!
