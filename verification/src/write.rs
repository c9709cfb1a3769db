//! Big-endian write helpers over a [`Sink`]. Each returns the number of bytes
//! written; every failure is a [`WriteError`], never a panic.

use vstd::prelude::*;
use crate::be::{
    be_array16, be_bytes, be_value, lemma_be_bytes_suffix, lemma_be_bytes_value_fits,
    lemma_pow256_pos, lemma_pow256_values, pow256,
};
use crate::error::{InsufficientBuffer, InvalidWidth};
use crate::sink::{kept, took, Sink};

verus! {

/// The error kinds an `embedded_io` peripheral reports; a sink wrapping such a
/// peripheral carries its kind in [`WriteError::Io`].
#[verifier::external_type_specification]
#[verifier::external_body]
pub struct ExIoErrorKind(embedded_io::ErrorKind);

/// The one error type of the whole write path: the sinks, the fixed-width
/// helpers and the variable-width [`write_be_uint`].
#[derive(Clone, Copy, Debug, Eq, PartialEq)]
pub enum WriteError {
    /// The sink is out of room, and knows by how much.
    Insufficient(InsufficientBuffer),
    /// A variable-width write asked for a width out of range.
    InvalidWidth(InvalidWidth),
    /// The sink failed for its own reasons.
    Io(embedded_io::ErrorKind),
}

/// What a helper that emits `bytes` into a sink returns: on success the byte
/// count, with the bytes taken in; on failure the sink's own error, with the
/// sink as it was. A sink without room for `bytes` fails; a sink that fails
/// only for want of room and has room for `bytes` does not; a sink that says
/// what it reports on failure reports exactly that; and the error returned is
/// the one the sink's write returned.
pub open spec fn emitted<S: Sink>(before: S, after: S, bytes: Seq<u8>, r: Result<usize, WriteError>) -> bool {
    &&& r matches Ok(n) ==> n == bytes.len() && took(before, after, bytes)
    &&& r is Err ==> kept(before, after)
    &&& r matches Err(WriteError::Insufficient(_)) ==> bytes.len() > before.room()
    &&& bytes.len() > before.room() ==> r is Err
    &&& !(r matches Err(WriteError::InvalidWidth(_)))
    &&& before.reliable() && bytes.len() <= before.room() ==> r is Ok
    &&& before.refusal(0, bytes.len()) matches Some(w) ==> (r is Err ==> r == Err::<usize, WriteError>(w))
    &&& r matches Err(e) ==> after.last_failure() == Some(e)
}

/// Write the last `n` bytes of `bytes` to `sink`.
fn emit_tail<S: Sink>(sink: &mut S, bytes: &[u8; 16], n: usize) -> (r: Result<usize, WriteError>)
    requires
        n <= 16,
    ensures
        emitted(*old(sink), *final(sink), bytes@.subrange(16 - n, 16), r),
        (*old(sink)).destination() matches Some(d) ==> ((*final(sink)).destination() matches Some(e)
            && final(e)@ == final(d)@),
{
    let s = bytes.as_slice();
    match sink.write_all(&s[16 - n..16]) {
        Ok(()) => Ok(n),
        Err(e) => Err(e),
    }
}

/// Write a single byte. Returns `1`.
///
/// # Errors
/// The sink's [`WriteError`] if the write fails.
pub fn write_u8(sink: &mut impl Sink, v: u8) -> (r: Result<usize, WriteError>)
    ensures
        emitted(*old(sink), *final(sink), seq![v], r),
        emitted(*old(sink), *final(sink), be_bytes(v as nat, 1), r),
        be_value(be_bytes(v as nat, 1)) == v,
        (*old(sink)).destination() matches Some(d) ==> ((*final(sink)).destination() matches Some(e)
            && final(e)@ == final(d)@),
{
    let bytes = be_array16(v as u128);
    proof {
        lemma_be_bytes_suffix(v as nat, 16, 1);
        lemma_pow256_values();
        lemma_be_bytes_value_fits(v as nat, 1);
        assert(pow256(0) == 1);
        assert(v as nat / 1 == v);
        assert(be_bytes(v as nat, 1)[0] == ((v as nat / pow256(0)) % 256) as u8);
        assert(be_bytes(v as nat, 1) =~= seq![v]);
    }
    emit_tail(sink, &bytes, 1)
}

/// Write a big-endian `u16`. Returns `2`.
///
/// # Errors
/// The sink's [`WriteError`] if the write fails.
pub fn write_u16_be(sink: &mut impl Sink, v: u16) -> (r: Result<usize, WriteError>)
    ensures
        emitted(*old(sink), *final(sink), be_bytes(v as nat, 2), r),
        be_value(be_bytes(v as nat, 2)) == v,
        (*old(sink)).destination() matches Some(d) ==> ((*final(sink)).destination() matches Some(e)
            && final(e)@ == final(d)@),
{
    let bytes = be_array16(v as u128);
    proof {
        lemma_be_bytes_suffix(v as nat, 16, 2);
        lemma_pow256_values();
        lemma_be_bytes_value_fits(v as nat, 2);
    }
    emit_tail(sink, &bytes, 2)
}

/// Write a big-endian `u32`. Returns `4`.
///
/// # Errors
/// The sink's [`WriteError`] if the write fails.
pub fn write_u32_be(sink: &mut impl Sink, v: u32) -> (r: Result<usize, WriteError>)
    ensures
        emitted(*old(sink), *final(sink), be_bytes(v as nat, 4), r),
        be_value(be_bytes(v as nat, 4)) == v,
        (*old(sink)).destination() matches Some(d) ==> ((*final(sink)).destination() matches Some(e)
            && final(e)@ == final(d)@),
{
    let bytes = be_array16(v as u128);
    proof {
        lemma_be_bytes_suffix(v as nat, 16, 4);
        lemma_pow256_values();
        lemma_be_bytes_value_fits(v as nat, 4);
    }
    emit_tail(sink, &bytes, 4)
}

/// Write a big-endian `u64`. Returns `8`.
///
/// # Errors
/// The sink's [`WriteError`] if the write fails.
pub fn write_u64_be(sink: &mut impl Sink, v: u64) -> (r: Result<usize, WriteError>)
    ensures
        emitted(*old(sink), *final(sink), be_bytes(v as nat, 8), r),
        be_value(be_bytes(v as nat, 8)) == v,
        (*old(sink)).destination() matches Some(d) ==> ((*final(sink)).destination() matches Some(e)
            && final(e)@ == final(d)@),
{
    let bytes = be_array16(v as u128);
    proof {
        lemma_be_bytes_suffix(v as nat, 16, 8);
        lemma_pow256_values();
        lemma_be_bytes_value_fits(v as nat, 8);
    }
    emit_tail(sink, &bytes, 8)
}

/// Write a big-endian `u128`. Returns `16`.
///
/// # Errors
/// The sink's [`WriteError`] if the write fails.
pub fn write_u128_be(sink: &mut impl Sink, v: u128) -> (r: Result<usize, WriteError>)
    ensures
        emitted(*old(sink), *final(sink), be_bytes(v as nat, 16), r),
        be_value(be_bytes(v as nat, 16)) == v,
        (*old(sink)).destination() matches Some(d) ==> ((*final(sink)).destination() matches Some(e)
            && final(e)@ == final(d)@),
{
    let bytes = be_array16(v);
    proof {
        lemma_be_bytes_suffix(v as nat, 16, 16);
        lemma_pow256_values();
        lemma_be_bytes_value_fits(v as nat, 16);
    }
    emit_tail(sink, &bytes, 16)
}

/// Write the low `n` bytes (`0..=16`) of `value`, big-endian. Returns `n`.
///
/// An out-of-range `n` is a data error, not a panic; `n == 0` writes nothing.
/// Bytes of `value` above the low `n` are dropped: callers emitting a field
/// whose value can grow check `minimal_be_len(value) <= n` first.
///
/// # Errors
/// [`WriteError::InvalidWidth`] if `n > 16`; the sink's [`WriteError`] if the
/// write fails.
pub fn write_be_uint(sink: &mut impl Sink, value: u128, n: usize) -> (r: Result<usize, WriteError>)
    ensures
        n > 16 ==> r == Err::<usize, _>(WriteError::InvalidWidth(InvalidWidth { max: 16, got: n }))
            && kept(*old(sink), *final(sink)),
        n <= 16 ==> emitted(*old(sink), *final(sink), be_bytes(value as nat, n as nat), r),
        value < pow256(n as nat) ==> be_value(be_bytes(value as nat, n as nat)) == value,
        (*old(sink)).destination() matches Some(d) ==> ((*final(sink)).destination() matches Some(e)
            && final(e)@ == final(d)@),
{
    proof {
        if value < pow256(n as nat) {
            lemma_be_bytes_value_fits(value as nat, n as nat);
        }
    }
    if n > 16 {
        return Err(WriteError::InvalidWidth(InvalidWidth { max: 16, got: n }));
    }
    let bytes = be_array16(value);
    proof {
        lemma_be_bytes_suffix(value as nat, 16, n as nat);
    }
    emit_tail(sink, &bytes, n)
}

/// The number of bytes `v` needs: the least `k` with `v < 256^k`.
pub open spec fn min_be_len(v: nat) -> nat
    decreases v,
{
    if v == 0 {
        0
    } else {
        1 + min_be_len(v / 256)
    }
}

/// `v` fits in `k` bytes exactly when it needs at most `k`.
pub proof fn lemma_min_be_len_fits(v: nat, k: nat)
    ensures
        v < pow256(k) <==> min_be_len(v) <= k,
    decreases k,
{
    lemma_pow256_pos(k);
    if k == 0 {
        assert(pow256(0) == 1);
    } else if v > 0 {
        let k1 = (k - 1) as nat;
        lemma_min_be_len_fits(v / 256, k1);
        lemma_pow256_pos(k1);
        vstd::arithmetic::div_mod::lemma_fundamental_div_mod(v as int, 256);
        vstd::arithmetic::div_mod::lemma_mod_bound(v as int, 256);
        assert(pow256(k) == 256 * pow256(k1));
    }
}

/// Minimal number of big-endian bytes needed to represent `value` — the width
/// to pass to [`write_be_uint`] for protocols that emit minimal-width fields.
///
/// `minimal_be_len(0) == 0`; protocols that require at least one byte apply
/// `.max(1)`. The result is always `<= 16`.
#[must_use]
pub fn minimal_be_len(value: u128) -> (n: usize)
    ensures
        n == min_be_len(value as nat),
        n <= 16,
        value < pow256(n as nat),
        n > 0 ==> pow256((n - 1) as nat) <= value,
{
    proof {
        lemma_pow256_values();
        lemma_min_be_len_fits(value as nat, 16);
    }
    let mut x: u128 = value;
    let mut n: usize = 0;
    while x != 0
        invariant
            min_be_len(value as nat) == n + min_be_len(x as nat),
            min_be_len(value as nat) <= 16,
        decreases x,
    {
        x = x / 256;
        n = n + 1;
    }
    proof {
        lemma_min_be_len_fits(value as nat, n as nat);
        if n > 0 {
            lemma_min_be_len_fits(value as nat, (n - 1) as nat);
        }
    }
    n
}

/// Write a raw byte slice verbatim (e.g. an opaque payload). Returns
/// `bytes.len()`.
///
/// # Errors
/// The sink's [`WriteError`] if the write fails.
pub fn write_all(sink: &mut impl Sink, bytes: &[u8]) -> (r: Result<usize, WriteError>)
    ensures
        emitted(*old(sink), *final(sink), bytes@, r),
        (*old(sink)).destination() matches Some(d) ==> ((*final(sink)).destination() matches Some(e)
            && final(e)@ == final(d)@),
{
    match sink.write_all(bytes) {
        Ok(()) => Ok(bytes.len()),
        Err(e) => Err(e),
    }
}

} // verus!
