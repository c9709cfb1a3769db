//! Big-endian slice read helpers. Each returns `(value, remainder)` so callers
//! thread the remainder through sequential and nested decodes. A short buffer
//! is an [`Incomplete`] error, never a panic.

use vstd::prelude::*;
use crate::be::{be_fold, be_value, lemma_be_value_bound, lemma_pow256_monotone, lemma_pow256_values, pow256};
use crate::error::{Incomplete, InvalidWidth};
use crate::text::decimal;

verus! {

/// What every read of a `width`-byte field returns for `buf`: the `width`
/// leading bytes and the rest, or the count of what was missing.
pub open spec fn field_split(buf: Seq<u8>, width: nat) -> Result<(Seq<u8>, Seq<u8>), Incomplete> {
    if buf.len() < width {
        Err(Incomplete { needed: width as usize, available: buf.len() as usize })
    } else {
        Ok((buf.take(width as int), buf.skip(width as int)))
    }
}

/// Split `n` bytes off the front of `buf`, returning `(head, tail)`.
///
/// # Errors
/// [`Incomplete`] if `buf` has fewer than `n` bytes.
pub fn take<'a>(buf: &'a [u8], n: usize) -> (r: Result<(&'a [u8], &'a [u8]), Incomplete>)
    ensures
        match r {
            Ok((head, tail)) => field_split(buf@, n as nat) == Ok::<_, Incomplete>((head@, tail@)),
            Err(e) => field_split(buf@, n as nat) == Err::<(Seq<u8>, Seq<u8>), _>(e),
        },
{
    if buf.len() < n {
        Err(Incomplete { needed: n, available: buf.len() })
    } else {
        Ok((&buf[0..n], &buf[n..buf.len()]))
    }
}

/// Read a single byte.
///
/// # Errors
/// [`Incomplete`] if `buf` is empty.
pub fn read_u8<'a>(buf: &'a [u8]) -> (r: Result<(u8, &'a [u8]), Incomplete>)
    ensures
        match r {
            Ok((v, rest)) => buf@.len() >= 1 && v == buf@[0] && v == be_value(buf@.take(1))
                && rest@ == buf@.skip(1),
            Err(e) => field_split(buf@, 1) == Err::<(Seq<u8>, Seq<u8>), _>(e),
        },
{
    let (b, rest) = take(buf, 1)?;
    proof {
        assert(b@.drop_last() =~= Seq::<u8>::empty());
        assert(be_value(b@.drop_last()) == 0);
    }
    Ok((b[0], rest))
}

/// Read a big-endian `u16`.
///
/// # Errors
/// [`Incomplete`] if fewer than 2 bytes remain.
pub fn read_u16_be<'a>(buf: &'a [u8]) -> (r: Result<(u16, &'a [u8]), Incomplete>)
    ensures
        match r {
            Ok((v, rest)) => buf@.len() >= 2 && v == be_value(buf@.take(2)) && rest@ == buf@.skip(2),
            Err(e) => field_split(buf@, 2) == Err::<(Seq<u8>, Seq<u8>), _>(e),
        },
{
    let (b, rest) = take(buf, 2)?;
    let v = be_fold(b);
    proof {
        lemma_be_value_bound(b@);
        lemma_pow256_values();
    }
    Ok((v as u16, rest))
}

/// Read a big-endian `u32`.
///
/// # Errors
/// [`Incomplete`] if fewer than 4 bytes remain.
pub fn read_u32_be<'a>(buf: &'a [u8]) -> (r: Result<(u32, &'a [u8]), Incomplete>)
    ensures
        match r {
            Ok((v, rest)) => buf@.len() >= 4 && v == be_value(buf@.take(4)) && rest@ == buf@.skip(4),
            Err(e) => field_split(buf@, 4) == Err::<(Seq<u8>, Seq<u8>), _>(e),
        },
{
    let (b, rest) = take(buf, 4)?;
    let v = be_fold(b);
    proof {
        lemma_be_value_bound(b@);
        lemma_pow256_values();
    }
    Ok((v as u32, rest))
}

/// Read a big-endian `u64`.
///
/// # Errors
/// [`Incomplete`] if fewer than 8 bytes remain.
pub fn read_u64_be<'a>(buf: &'a [u8]) -> (r: Result<(u64, &'a [u8]), Incomplete>)
    ensures
        match r {
            Ok((v, rest)) => buf@.len() >= 8 && v == be_value(buf@.take(8)) && rest@ == buf@.skip(8),
            Err(e) => field_split(buf@, 8) == Err::<(Seq<u8>, Seq<u8>), _>(e),
        },
{
    let (b, rest) = take(buf, 8)?;
    let v = be_fold(b);
    proof {
        lemma_be_value_bound(b@);
        lemma_pow256_values();
    }
    Ok((v as u64, rest))
}

/// Read a big-endian `u128`.
///
/// # Errors
/// [`Incomplete`] if fewer than 16 bytes remain.
pub fn read_u128_be<'a>(buf: &'a [u8]) -> (r: Result<(u128, &'a [u8]), Incomplete>)
    ensures
        match r {
            Ok((v, rest)) => buf@.len() >= 16 && v == be_value(buf@.take(16)) && rest@ == buf@.skip(16),
            Err(e) => field_split(buf@, 16) == Err::<(Seq<u8>, Seq<u8>), _>(e),
        },
{
    let (b, rest) = take(buf, 16)?;
    Ok((be_fold(b), rest))
}

/// Read a fixed-size `N`-byte array (e.g. a 17-byte VIN, a 6-byte EID).
///
/// # Errors
/// [`Incomplete`] if fewer than `N` bytes remain.
pub fn read_array<'a, const N: usize>(buf: &'a [u8]) -> (r: Result<([u8; N], &'a [u8]), Incomplete>)
    ensures
        match r {
            Ok((arr, rest)) => field_split(buf@, N as nat) == Ok::<_, Incomplete>((arr@, rest@)),
            Err(e) => field_split(buf@, N as nat) == Err::<(Seq<u8>, Seq<u8>), _>(e),
        },
{
    let (b, rest) = take(buf, N)?;
    let mut arr = [0u8; N];
    let mut i: usize = 0;
    while i < N
        invariant
            i <= N,
            arr@.len() == N,
            b@.len() == N,
            forall|j: int| 0 <= j < i ==> arr@[j] == b@[j],
        decreases N - i,
    {
        arr[i] = b[i];
        i = i + 1;
    }
    assert(arr@ =~= b@);
    Ok((arr, rest))
}

/// Why a variable-width read failed: the buffer was short, or the width was
/// out of range.
#[derive(Clone, Copy, Debug, Eq, PartialEq)]
pub enum ReadUintError {
    /// Fewer than `n` bytes remained.
    Incomplete(Incomplete),
    /// The width was above 16.
    InvalidWidth(InvalidWidth),
}

impl From<Incomplete> for ReadUintError {
    fn from(e: Incomplete) -> (r: Self) {
        ReadUintError::Incomplete(e)
    }
}

impl vstd::std_specs::convert::FromSpecImpl<Incomplete> for ReadUintError {
    open spec fn obeys_from_spec() -> bool {
        true
    }

    open spec fn from_spec(e: Incomplete) -> Self {
        ReadUintError::Incomplete(e)
    }
}

impl From<InvalidWidth> for ReadUintError {
    fn from(e: InvalidWidth) -> (r: Self) {
        ReadUintError::InvalidWidth(e)
    }
}

impl vstd::std_specs::convert::FromSpecImpl<InvalidWidth> for ReadUintError {
    open spec fn obeys_from_spec() -> bool {
        true
    }

    open spec fn from_spec(e: InvalidWidth) -> Self {
        ReadUintError::InvalidWidth(e)
    }
}

impl ReadUintError {
    /// The message of the failure it carries.
    pub fn to_string(&self) -> (s: String)
        ensures
            s@ == match *self {
                ReadUintError::Incomplete(e) => "incomplete input: needed "@ + decimal(e.needed as nat)
                    + " bytes, "@ + decimal(e.available as nat) + " available"@,
                ReadUintError::InvalidWidth(e) => "invalid width: got "@ + decimal(e.got as nat)
                    + ", max "@ + decimal(e.max as nat),
            },
    {
        match self {
            ReadUintError::Incomplete(e) => e.to_string(),
            ReadUintError::InvalidWidth(e) => e.to_string(),
        }
    }
}

/// Read a variable-width (`0..=16` byte) big-endian unsigned integer into a
/// `u128`. A width of zero reads nothing and yields `0`. A width above 16 is
/// a data error, never a panic: a width taken off the wire is checked here.
///
/// # Errors
/// [`ReadUintError::InvalidWidth`] if `n > 16`;
/// [`ReadUintError::Incomplete`] if fewer than `n` bytes remain.
pub fn read_be_uint<'a>(buf: &'a [u8], n: usize) -> (r: Result<(u128, &'a [u8]), ReadUintError>)
    ensures
        n > 16 ==> r == Err::<(u128, &'a [u8]), _>(
            ReadUintError::InvalidWidth(InvalidWidth { max: 16, got: n }),
        ),
        n <= 16 ==> match r {
            Ok((v, rest)) => buf@.len() >= n && v == be_value(buf@.take(n as int))
                && rest@ == buf@.skip(n as int),
            Err(e) => buf@.len() < n && e == ReadUintError::Incomplete(
                Incomplete { needed: n, available: buf@.len() as usize },
            ),
        },
{
    if n > 16 {
        return Err(ReadUintError::InvalidWidth(InvalidWidth { max: 16, got: n }));
    }
    match take(buf, n) {
        Ok((b, rest)) => Ok((be_fold(b), rest)),
        Err(e) => Err(ReadUintError::Incomplete(e)),
    }
}

/// An unsigned integer type a variable-width big-endian field can be read
/// into, at most [`WIDTH`](BeUint::WIDTH) bytes wide.
pub trait BeUint: Sized {
    /// The width of the type in bytes.
    const WIDTH: usize;

    /// The width in bytes, for contracts.
    spec fn width() -> nat;

    /// The number this value stands for.
    spec fn as_nat(&self) -> nat;

    /// [`WIDTH`](BeUint::WIDTH) is the width, and no type is wider than the
    /// 16 bytes a field read can hold.
    proof fn lemma_width()
        ensures
            Self::WIDTH as nat == Self::width(),
            Self::width() <= 16,
    ;

    /// `v`, which fits in [`WIDTH`](BeUint::WIDTH) bytes, as this type.
    fn from_be_value(v: u128) -> (r: Self)
        requires
            v < pow256(Self::width()),
        ensures
            r.as_nat() == v,
    ;
}

impl BeUint for u8 {
    const WIDTH: usize = 1;

    open spec fn width() -> nat {
        1
    }

    open spec fn as_nat(&self) -> nat {
        *self as nat
    }

    proof fn lemma_width() {
    }

    fn from_be_value(v: u128) -> (r: Self) {
        proof {
            lemma_pow256_values();
        }
        v as u8
    }
}

impl BeUint for u16 {
    const WIDTH: usize = 2;

    open spec fn width() -> nat {
        2
    }

    open spec fn as_nat(&self) -> nat {
        *self as nat
    }

    proof fn lemma_width() {
    }

    fn from_be_value(v: u128) -> (r: Self) {
        proof {
            lemma_pow256_values();
        }
        v as u16
    }
}

impl BeUint for u32 {
    const WIDTH: usize = 4;

    open spec fn width() -> nat {
        4
    }

    open spec fn as_nat(&self) -> nat {
        *self as nat
    }

    proof fn lemma_width() {
    }

    fn from_be_value(v: u128) -> (r: Self) {
        proof {
            lemma_pow256_values();
        }
        v as u32
    }
}

impl BeUint for u64 {
    const WIDTH: usize = 8;

    open spec fn width() -> nat {
        8
    }

    open spec fn as_nat(&self) -> nat {
        *self as nat
    }

    proof fn lemma_width() {
    }

    fn from_be_value(v: u128) -> (r: Self) {
        proof {
            lemma_pow256_values();
        }
        v as u64
    }
}

impl BeUint for u128 {
    const WIDTH: usize = 16;

    open spec fn width() -> nat {
        16
    }

    open spec fn as_nat(&self) -> nat {
        *self as nat
    }

    proof fn lemma_width() {
    }

    fn from_be_value(v: u128) -> (r: Self) {
        v
    }
}

/// Read a variable-width big-endian unsigned integer straight into `T`,
/// checking the width against `T` (so `read_be_uint_into::<u32>` takes at
/// most 4 bytes). A width of zero reads nothing and yields `0`.
///
/// # Errors
/// [`ReadUintError::InvalidWidth`] if `n` exceeds `T::WIDTH`;
/// [`ReadUintError::Incomplete`] if fewer than `n` bytes remain.
pub fn read_be_uint_into<'a, T: BeUint>(buf: &'a [u8], n: usize) -> (r: Result<(T, &'a [u8]), ReadUintError>)
    ensures
        n > T::width() ==> r == Err::<(T, &'a [u8]), _>(
            ReadUintError::InvalidWidth(InvalidWidth { max: T::width() as usize, got: n }),
        ),
        n <= T::width() ==> match r {
            Ok((v, rest)) => buf@.len() >= n && v.as_nat() == be_value(buf@.take(n as int))
                && rest@ == buf@.skip(n as int),
            Err(e) => buf@.len() < n && e == ReadUintError::Incomplete(
                Incomplete { needed: n, available: buf@.len() as usize },
            ),
        },
{
    proof {
        T::lemma_width();
    }
    if n > T::WIDTH {
        return Err(ReadUintError::InvalidWidth(InvalidWidth { max: T::WIDTH, got: n }));
    }
    match read_be_uint(buf, n) {
        Ok((v, rest)) => {
            proof {
                lemma_be_value_bound(buf@.take(n as int));
                lemma_pow256_monotone(n as nat, T::width());
            }
            Ok((T::from_be_value(v), rest))
        },
        Err(e) => Err(e),
    }
}

/// Check that `buf` holds at least `n` bytes, before reading a run of fields
/// whose total length is known.
///
/// # Errors
/// [`Incomplete`] if `buf` has fewer than `n` bytes.
pub fn ensure_len(buf: &[u8], n: usize) -> (r: Result<(), Incomplete>)
    ensures
        r is Ok <==> buf@.len() >= n,
        r matches Err(e) ==> e == (Incomplete { needed: n, available: buf@.len() as usize }),
{
    if buf.len() < n {
        Err(Incomplete { needed: n, available: buf.len() })
    } else {
        Ok(())
    }
}

} // verus!
