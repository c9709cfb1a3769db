//! Receive-side traits: [`Decode`] (zero-copy decode borrowing from the
//! buffer), [`DecodeIter`] (repeated same-typed elements) and the
//! [`DecodeIterator`] adapter.

use core::marker::PhantomData;
use vstd::prelude::*;
use crate::error::{Incomplete, TrailingBytes};

verus! {

broadcast use vstd::slice::group_slice_axioms;

/// Receive side: zero-copy decode borrowing from `buf`.
pub trait Decode<'a>: Sized {
    /// Per-implementation error; constructible from [`Incomplete`] and
    /// [`TrailingBytes`] so the leaf read helpers and the `decode_exact`
    /// default lift through `?`.
    type Error: From<Incomplete> + From<TrailingBytes>;

    /// What [`decode`](Decode::decode) answers for `buf`: the value and the
    /// number of bytes it consumed, or the error. A decode is a function of
    /// the bytes it is given. An implementation verified against this trait
    /// overrides it; the default promises nothing.
    closed spec fn decoding(buf: Seq<u8>) -> Result<(Self, nat), Self::Error> {
        arbitrary()
    }

    /// Decode from the front of `buf`; return `(value, unconsumed_remainder)`.
    /// The remainder is a suffix of `buf`.
    ///
    /// # Errors
    /// `Self::Error` if the input is malformed or too short.
    fn decode(buf: &'a [u8]) -> (r: Result<(Self, &'a [u8]), Self::Error>)
        ensures
            match r {
                Ok((v, rest)) => rest@.len() <= buf@.len() && rest@ == buf@.skip(
                    buf@.len() - rest@.len(),
                ) && Self::decoding(buf@) == Ok::<(Self, nat), Self::Error>(
                    (v, (buf@.len() - rest@.len()) as nat),
                ),
                Err(e) => Self::decoding(buf@) == Err::<(Self, nat), Self::Error>(e),
            },
    ;

    /// Decode requiring the entire buffer to be consumed. Use this at a
    /// message boundary where the length is already known.
    ///
    /// Do not use it where a buffer may legally hold more than one message
    /// (e.g. a multi-message datagram): there, trailing bytes are the next
    /// message, not an error — use [`decode`](Decode::decode) and thread the
    /// remainder. What follows `decode`'s answer is [`finish_exact`].
    ///
    /// # Errors
    /// [`TrailingBytes`] (via `Self::Error`) if bytes remain, plus anything
    /// [`decode`](Decode::decode) can return.
    fn decode_exact(buf: &'a [u8]) -> (r: Result<Self, Self::Error>)
        ensures
            match Self::decoding(buf@) {
                Ok((v, n)) => if n == buf@.len() {
                    r == Ok::<Self, Self::Error>(v)
                } else {
                    n < buf@.len() && (r matches Err(e) && trailing_error((buf@.len() - n) as usize, e))
                },
                Err(e) => r == Err::<Self, Self::Error>(e),
            },
    {
        finish_exact(Self::decode(buf))
    }
}

/// `e` is the error `E` builds from `TrailingBytes(n)` through its `From`
/// impl, for every `E` whose `From` impl is specified.
pub open spec fn trailing_error<E: From<TrailingBytes>>(n: usize, e: E) -> bool {
    <E as vstd::std_specs::convert::FromSpec<TrailingBytes>>::obeys_from_spec()
        ==> e == <E as vstd::std_specs::convert::FromSpec<TrailingBytes>>::from_spec(TrailingBytes(n))
}

/// The rest of [`Decode::decode_exact`] once `decode` has answered: the value
/// if nothing remains, a [`TrailingBytes`] error counting what remains, or the
/// decode error itself.
pub fn finish_exact<'a, T, E: From<TrailingBytes>>(decoded: Result<(T, &'a [u8]), E>) -> (r: Result<T, E>)
    ensures
        match decoded {
            Ok((v, rest)) => if rest@.len() == 0 {
                r == Ok::<T, E>(v)
            } else {
                r matches Err(e) && trailing_error(rest@.len() as usize, e)
            },
            Err(e) => r == Err::<T, E>(e),
        },
{
    let (value, rest) = decoded?;
    if rest.is_empty() {
        Ok(value)
    } else {
        Err(E::from(TrailingBytes(rest.len())))
    }
}

/// Receive side: decode a sequence of same-typed elements from a buffer.
/// Implement this only for protocols that have repeated elements.
pub trait DecodeIter<'a>: Sized {
    /// Per-implementation error; constructible from [`Incomplete`].
    type Error: From<Incomplete>;

    /// Wire size of one element, when fixed at compile time (non-zero if
    /// `Some`). Enables [`DecodeIterator::remaining_len`] for fixed-stride
    /// record streams. Default: `None` (variable width).
    const WIRE_SIZE: Option<usize> = None;

    /// What [`decode_next`](DecodeIter::decode_next) answers for `buf`: an
    /// element and the number of bytes it took, a clean end, or the error.
    /// Like a decode, it is a function of the bytes it is given. An
    /// implementation verified against this trait overrides it; the default
    /// promises nothing.
    closed spec fn next_decoding(buf: Seq<u8>) -> Result<Option<(Self, nat)>, Self::Error> {
        arbitrary()
    }

    /// Decode the next element from the front of `buf`: `Ok(Some((value,
    /// rest)))` for an element, `Ok(None)` for a clean end, `Err(_)` for
    /// malformed input. Check for the clean end before decoding an element:
    /// exhaustion is `Ok(None)`, never an error. The remainder is a suffix of
    /// `buf`.
    ///
    /// # Errors
    /// `Self::Error` if the next element is malformed.
    fn decode_next(buf: &'a [u8]) -> (r: Result<Option<(Self, &'a [u8])>, Self::Error>)
        ensures
            match r {
                Ok(Some((v, rest))) => rest@.len() <= buf@.len() && rest@ == buf@.skip(
                    buf@.len() - rest@.len(),
                ) && Self::next_decoding(buf@) == Ok::<Option<(Self, nat)>, Self::Error>(
                    Some((v, (buf@.len() - rest@.len()) as nat)),
                ),
                Ok(None) => Self::next_decoding(buf@) == Ok::<Option<(Self, nat)>, Self::Error>(None),
                Err(e) => Self::next_decoding(buf@) == Err::<Option<(Self, nat)>, Self::Error>(e),
            },
    ;

    /// Adapter: iterate all elements, yielding `Result<Self, Self::Error>`.
    /// Stops at the first `Ok(None)` or `Err(_)`.
    #[must_use]
    fn iter(buf: &'a [u8]) -> (it: DecodeIterator<'a, Self>)
        ensures
            it.unread() == buf@,
            !it.is_done(),
            it.start() == buf@,
            it.elements() == 0,
            it.unread().len() <= usize::MAX,
    {
        DecodeIterator::new(buf)
    }
}

/// Iterator produced by [`DecodeIter::iter`]. Threads the remaining buffer
/// between calls to [`DecodeIter::decode_next`]; terminates on `Ok(None)` or
/// the first error, and stays terminated.
pub struct DecodeIterator<'a, T> {
    buf: &'a [u8],
    done: bool,
    start: Ghost<Seq<u8>>,
    count: Ghost<nat>,
    // A plain `PhantomData<T>`: function-pointer types, which would keep
    // `T`'s auto traits off the iterator, are not supported here.
    _marker: PhantomData<T>,
}

impl<'a, T> DecodeIterator<'a, T> {
    /// The bytes not yet decoded.
    pub closed spec fn unread(&self) -> Seq<u8> {
        self.buf@
    }

    /// Whether the iterator has terminated.
    pub closed spec fn is_done(&self) -> bool {
        self.done
    }

    /// The buffer the iterator was made over.
    pub closed spec fn start(&self) -> Seq<u8> {
        self.start@
    }

    /// How many elements it has yielded.
    pub closed spec fn elements(&self) -> nat {
        self.count@
    }

    fn new(buf: &'a [u8]) -> (it: Self)
        ensures
            it.unread() == buf@,
            !it.is_done(),
            it.start() == buf@,
            it.elements() == 0,
            it.unread().len() <= usize::MAX,
    {
        assert(vstd::slice::spec_slice_len(buf) == buf@.len());
        DecodeIterator { buf, done: false, start: Ghost(buf@), count: Ghost(0), _marker: PhantomData }
    }
}

/// What [`DecodeIterator::remaining_len`] reports for a stride, a termination
/// flag and a count of unread bytes: the number of items `next` still yields
/// for a fixed-stride element, a partial trailing element counting as its one
/// error item.
pub open spec fn remaining_count(wire_size: Option<usize>, done: bool, unread: nat) -> Option<usize> {
    match wire_size {
        None => None,
        Some(w) => if w == 0 {
            None
        } else if done {
            Some(0usize)
        } else {
            Some(((unread + w - 1) / (w as int)) as usize)
        },
    }
}

/// The count `remaining_len` reports tracks what a fixed-stride decoder that
/// follows the clean-end convention yields: an empty buffer is zero items, a
/// partial element is one (its error), each whole element consumed lowers the
/// count by exactly one, and a terminated iterator reports zero.
pub proof fn law_remaining_count_steps(w: usize, n: nat)
    requires
        w > 0,
    ensures
        remaining_count(Some(w), false, 0) == Some(0usize),
        0 < n < w ==> remaining_count(Some(w), false, n) == Some(1usize),
        w <= n <= usize::MAX ==> remaining_count(Some(w), false, n) == Some(
            (remaining_count(Some(w), false, (n - w) as nat).unwrap() + 1) as usize,
        ),
        remaining_count(Some(w), true, n) == Some(0usize),
{
    vstd::arithmetic::div_mod::lemma_div_of0(w as int);
    vstd::arithmetic::div_mod::lemma_fundamental_div_mod_converse_div((w - 1) as int, w as int, 0, (w - 1) as int);
    if 0 < n < w {
        vstd::arithmetic::div_mod::lemma_fundamental_div_mod_converse_div(n + w - 1, w as int, 1, n - 1);
    }
    if w <= n {
        let m = (n - w) as nat;
        vstd::arithmetic::div_mod::lemma_fundamental_div_mod((m + w - 1) as int, w as int);
        let q = (m + w - 1) / (w as int);
        let r = (m + w - 1) % (w as int);
        assert(n + w - 1 == (q + 1) * w + r) by (nonlinear_arith)
            requires
                m + w - 1 == w * q + r,
                n == m + w,
        ;
        vstd::arithmetic::div_mod::lemma_fundamental_div_mod_converse_div(n + w - 1, w as int, q + 1, r);
    }
}

/// The bytes left after `k` elements are decoded back to back from `buf`,
/// each from the remainder the one before it left; `None` if the decoder
/// stops (a clean end or an error) before the `k`-th element.
pub open spec fn after_elements<'a, T: DecodeIter<'a>>(buf: Seq<u8>, k: nat) -> Option<Seq<u8>>
    decreases k,
{
    if k == 0 {
        Some(buf)
    } else {
        match after_elements::<T>(buf, (k - 1) as nat) {
            Some(b) => match T::next_decoding(b) {
                Ok(Some((_, n))) => if n <= b.len() {
                    Some(b.skip(n as int))
                } else {
                    None
                },
                _ => None,
            },
            None => None,
        }
    }
}

/// Decoding `j` elements and then `k` more from what is left is decoding
/// `j + k` elements.
pub proof fn law_after_elements_compose<'a, T: DecodeIter<'a>>(buf: Seq<u8>, j: nat, k: nat)
    ensures
        after_elements::<T>(buf, j + k) == match after_elements::<T>(buf, j) {
            Some(b) => after_elements::<T>(b, k),
            None => None,
        },
    decreases k,
{
    if k > 0 {
        law_after_elements_compose::<T>(buf, j, (k - 1) as nat);
        assert((j + k - 1) as nat == j + (k - 1) as nat);
    }
}

/// How many items `next` yields from a running iterator over `unread`
/// before it stops: one per element, one for an error, none at a clean end
/// (counted for elements that take at least one byte each).
pub open spec fn yield_count<'a, T: DecodeIter<'a>>(unread: Seq<u8>) -> nat
    decreases unread.len(),
{
    match T::next_decoding(unread) {
        Ok(Some((_, k))) => if 0 < k <= unread.len() {
            1 + yield_count::<T>(unread.skip(k as int))
        } else {
            1
        },
        Ok(None) => 0,
        Err(_) => 1,
    }
}

/// `T` decodes fixed-stride records of `w` bytes following the clean-end
/// convention: an empty buffer is a clean end, a whole record is an element
/// that takes `w` bytes, and a partial record is an error.
pub open spec fn fixed_stride<'a, T: DecodeIter<'a>>(w: nat) -> bool {
    forall|b: Seq<u8>|
        #![trigger T::next_decoding(b)]
        {
            &&& b.len() == 0 ==> T::next_decoding(b) is Ok && T::next_decoding(b)->Ok_0 is None
            &&& b.len() >= w ==> (T::next_decoding(b) matches Ok(Some((_, k))) && k == w)
            &&& 0 < b.len() < w ==> T::next_decoding(b) is Err
        }
}

/// For a fixed-stride decoder, the count [`DecodeIterator::remaining_len`]
/// reports for a running iterator is the number of items `next` goes on to
/// yield.
pub proof fn law_remaining_len_counts_items<'a, T: DecodeIter<'a>>(w: usize, unread: Seq<u8>)
    requires
        w > 0,
        T::WIRE_SIZE == Some(w),
        fixed_stride::<T>(w as nat),
        unread.len() <= usize::MAX,
    ensures
        yield_count::<T>(unread) <= unread.len(),
        remaining_count(T::WIRE_SIZE, false, unread.len()) == Some(yield_count::<T>(unread) as usize),
    decreases unread.len(),
{
    law_remaining_count_steps(w, unread.len());
    let step = T::next_decoding(unread);
    if unread.len() == 0 {
        assert(yield_count::<T>(unread) == 0);
    } else if unread.len() < w {
        assert(step is Err);
        assert(yield_count::<T>(unread) == 1);
    } else {
        let rest = unread.skip(w as int);
        law_remaining_len_counts_items::<T>(w, rest);
        assert(step matches Ok(Some((_, k))) && k == w);
        assert(yield_count::<T>(unread) == 1 + yield_count::<T>(rest));
        assert(rest.len() == unread.len() - w);
    }
}

/// Only a fixed, non-zero stride gives a count: variable-width elements
/// have none, and a terminated iterator never promises an item. With a
/// stride, a running iterator counts every whole element and one more for a
/// partial tail: never fewer elements than fit, never more than the bytes.
pub proof fn law_remaining_count_meaning(wire_size: Option<usize>, done: bool, n: nat)
    ensures
        wire_size is None ==> remaining_count(wire_size, done, n) is None,
        wire_size == Some(0usize) ==> remaining_count(wire_size, done, n) is None,
        done ==> remaining_count(wire_size, done, n) is None || remaining_count(wire_size, done, n)
            == Some(0usize),
        wire_size matches Some(w) ==> (w > 0 && !done && n <= usize::MAX ==> (remaining_count(
            wire_size,
            done,
            n,
        ) matches Some(c) && c * w >= n && (c == 0 || (c - 1) * w < n))),
{
    if let Some(w) = wire_size {
        if w > 0 && !done && n <= usize::MAX {
            let c = (n + w - 1) / (w as int);
            vstd::arithmetic::div_mod::lemma_fundamental_div_mod((n + w - 1) as int, w as int);
            let r = (n + w - 1) % (w as int);
            assert(c * w >= n && (c == 0 || (c - 1) * w < n)) by (nonlinear_arith)
                requires
                    n + w - 1 == w * c + r,
                    0 <= r < w,
                    w > 0,
            ;
            assert(0 <= c <= n) by (nonlinear_arith)
                requires
                    n + w - 1 == w * c + r,
                    0 <= r < w,
                    w > 0,
                    n >= 0,
            ;
        }
    }
}

impl<'a, T: DecodeIter<'a>> DecodeIterator<'a, T> {
    /// Take one answer of `decode_next` for the unread bytes of a running
    /// iterator: an element is
    /// yielded and its bytes consumed; a clean end or an error terminates the
    /// iterator (the error is yielded once).
    pub fn advance(&mut self, step: Result<Option<(T, &'a [u8])>, T::Error>) -> (r: Option<Result<T, T::Error>>)
        requires
            !old(self).is_done(),
        ensures
            final(self).start() == old(self).start(),
            step is Ok && step->Ok_0 is Some ==> final(self).elements() == old(self).elements() + 1,
            !(step is Ok && step->Ok_0 is Some) ==> final(self).elements() == old(self).elements(),
            match step {
                Ok(Some((v, rest))) => r == Some(Ok::<T, T::Error>(v)) && final(self).unread() == rest@
                    && !final(self).is_done(),
                Ok(None) => r is None && final(self).unread() == old(self).unread()
                    && final(self).is_done(),
                Err(e) => r == Some(Err::<T, T::Error>(e)) && final(self).unread() == old(self).unread()
                    && final(self).is_done(),
            },
    {
        match step {
            Ok(Some((value, rest))) => {
                self.buf = rest;
                self.count = Ghost(self.count@ + 1);
                Some(Ok(value))
            },
            Ok(None) => {
                self.done = true;
                None
            },
            Err(e) => {
                self.done = true;
                Some(Err(e))
            },
        }
    }

    /// The next element, or `None` once the elements are exhausted: what
    /// [`decode_next`](DecodeIter::decode_next) answers for the unread bytes,
    /// each element decoded from the remainder the previous one left. After
    /// the first `None` or the first error, every call returns `None`.
    pub fn next(&mut self) -> (r: Option<Result<T, T::Error>>)
        ensures
            final(self).start() == old(self).start(),
            r matches Some(Ok(_)) ==> final(self).elements() == old(self).elements() + 1,
            !(r matches Some(Ok(_))) ==> final(self).elements() == old(self).elements(),
            after_elements::<T>(old(self).start(), old(self).elements()) == Some(old(self).unread())
                ==> after_elements::<T>(final(self).start(), final(self).elements()) == Some(
                final(self).unread(),
            ),
            old(self).unread().len() <= usize::MAX ==> final(self).unread().len() <= usize::MAX,
            old(self).is_done() ==> r is None && final(self).unread() == old(self).unread()
                && final(self).is_done(),
            !old(self).is_done() ==> match T::next_decoding(old(self).unread()) {
                Ok(Some((v, k))) => r == Some(Ok::<T, T::Error>(v)) && k <= old(self).unread().len()
                    && final(self).unread() == old(self).unread().skip(k as int)
                    && !final(self).is_done(),
                Ok(None) => r is None && final(self).unread() == old(self).unread()
                    && final(self).is_done(),
                Err(e) => r == Some(Err::<T, T::Error>(e)) && final(self).unread()
                    == old(self).unread() && final(self).is_done(),
            },
    {
        if self.done {
            return None;
        }
        let step = T::decode_next(self.buf);
        self.advance(step)
    }

    /// Remaining item count, when [`DecodeIter::WIRE_SIZE`] is fixed: whole
    /// elements, plus one for a partial trailing element (which `next` yields
    /// as an error). `None` for variable-width elements (or a zero
    /// `WIRE_SIZE`); `Some(0)` once the iterator has terminated.
    #[must_use]
    pub fn remaining_len(&self) -> (r: Option<usize>)
        ensures
            r == remaining_count(T::WIRE_SIZE, self.is_done(), self.unread().len()),
            T::WIRE_SIZE is None ==> r is None,
            self.is_done() ==> r is None || r == Some(0usize),
    {
        let w = T::WIRE_SIZE?;
        if w == 0 {
            return None;
        }
        if self.done {
            return Some(0);
        }
        let n = self.buf.len();
        let whole = n / w;
        let part = n % w;
        proof {
            vstd::arithmetic::div_mod::lemma_fundamental_div_mod(n as int, w as int);
            assert(n == whole * w + part) by (nonlinear_arith)
                requires
                    n == w * whole + part,
            ;
            if part == 0 {
                vstd::arithmetic::div_mod::lemma_fundamental_div_mod_converse_div(
                    n + w - 1,
                    w as int,
                    whole as int,
                    w - 1,
                );
            } else {
                assert(n + w - 1 == (whole + 1) * w + (part - 1)) by (nonlinear_arith)
                    requires
                        n == whole * w + part,
                ;
                vstd::arithmetic::div_mod::lemma_fundamental_div_mod_converse_div(
                    n + w - 1,
                    w as int,
                    whole + 1,
                    part - 1,
                );
                assert(w >= 2);
                assert(whole < usize::MAX) by (nonlinear_arith)
                    requires
                        n == whole * w + part,
                        w >= 2,
                        n <= usize::MAX,
                ;
            }
        }
        if part == 0 {
            Some(whole)
        } else {
            Some(whole + 1)
        }
    }
}

} // verus!
