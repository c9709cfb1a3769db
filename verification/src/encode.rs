//! The [`Encode`] trait: serialize a value into a [`Sink`].

use vstd::prelude::*;
use crate::sink::{took, CountingSink, Sink, SliceSink};
use crate::error::InsufficientBuffer;
use crate::write::WriteError;

verus! {

/// Transmit side: serialize `self` into a [`Sink`].
pub trait Encode {
    /// Per-implementation error, constructible from a [`WriteError`] so every
    /// write helper lifts through `?`.
    type Error: From<WriteError>;

    /// What [`encode`](Encode::encode) makes of this value: the bytes it
    /// writes, or, for a value that cannot be encoded, the bytes it writes
    /// before it finds that out and the error it then returns. `encode` is a
    /// pure function of `&self`: the same answer on every call. An
    /// implementation verified against this trait overrides it; the default
    /// promises nothing.
    closed spec fn encoding(&self) -> Result<Seq<u8>, (Seq<u8>, Self::Error)> {
        arbitrary()
    }

    /// The writes [`encode`](Encode::encode) makes, in order: together they
    /// are the bytes of [`encoding`](Encode::encoding) that it writes. A sink
    /// that runs out of room fails on the first write that does not fit.
    /// Overridden as `encoding` is; the default promises nothing.
    closed spec fn writes(&self) -> Seq<Seq<u8>> {
        arbitrary()
    }

    /// Exact number of bytes [`encode`](Encode::encode) writes.
    ///
    /// The default runs `encode` against an infallible [`CountingSink`] and
    /// returns the bytes actually written. An override must return exactly
    /// the byte count a successful `encode` writes. An `encode` that relies on
    /// this default must not call `self.encoded_size()`.
    ///
    /// # Errors
    /// Whatever `encode` returns for a value that cannot be encoded; the
    /// counting sink itself never fails.
    fn encoded_size(&self) -> (r: Result<usize, Self::Error>)
        ensures
            r matches Ok(n) ==> (self.encoding() matches Ok(b) && n == b.len()),
            self.encoding() matches Ok(b) ==> b.len() <= usize::MAX && r == Ok::<usize, Self::Error>(
                b.len() as usize,
            ),
            self.encoding() matches Err((_, v)) ==> r == Err::<usize, Self::Error>(v),
    {
        let mut sink = CountingSink::new();
        match self.encode(&mut sink) {
            Ok(reported) => {
                let count = sink.count();
                // encode reported exactly the bytes it wrote
                assert(reported == count);
                Ok(count)
            },
            Err(e) => Err(e),
        }
    }

    /// Serialize into `sink`; return the number of bytes written.
    ///
    /// `encode` must be a pure function of `&self`: same bytes every call, no
    /// observable side effects. Every error it returns is the value's own
    /// error or a write error of the sink lifted through `From`.
    ///
    /// # Errors
    /// `Self::Error` if the sink rejects a write or the value cannot be
    /// encoded.
    fn encode<S: Sink>(&self, sink: &mut S) -> (r: Result<usize, Self::Error>)
        ensures
            r matches Ok(n) ==> (self.encoding() matches Ok(b) && n == b.len() && took(
                *old(sink),
                *final(sink),
                b,
            )),
            self.encoding() is Err ==> r is Err,
            self.encoding() matches Err((p, v)) ==> ((*old(sink)).reliable() && p.len()
                <= (*old(sink)).room() ==> r == Err::<usize, Self::Error>(v)),
            self.encoding() matches Ok(b) && (*old(sink)).reliable() && b.len() <= (*old(sink)).room()
                ==> r is Ok,
            (*final(sink)).origin() == (*old(sink)).origin(),
            (*old(sink)).destination() matches Some(d) ==> ((*final(sink)).destination() matches Some(e)
                && final(e)@ == final(d)@),
            r matches Err(e) ==> ((self.encoding() matches Err((_, v)) && e == v)
                || ((*final(sink)).last_failure() matches Some(w) && lifted(w, e))),
            joined(self.writes()) == attempted(self.encoding()),
            r matches Err(e) ==> ((*old(sink)).reliable() ==> ((self.encoding() matches Err((_, v))
                && e == v) || (first_overflow(self.writes(), (*old(sink)).room() as nat) matches Some(
                (ahead, len),
            ) && ((*old(sink)).refusal(ahead, len) matches Some(w) ==> lifted(w, e))))),
    ;

    /// Encode into a fixed slice; return the number of bytes written.
    ///
    /// A slice too small fails with [`WriteError::Insufficient`] lifted into
    /// `Self::Error`: `available` is the slice length and `needed` the bytes
    /// written before the first write that did not fit plus that write's
    /// length — a lower bound on the encode's total. `encode` runs exactly once whether it
    /// succeeds or fails. On success the slice holds the encoding at its
    /// start and is untouched past it; on error, `buf` may hold partially
    /// written bytes.
    ///
    /// # Errors
    /// `Self::Error` if `buf` is too small or the value cannot be encoded.
    fn encode_to_slice(&self, buf: &mut [u8]) -> (r: Result<usize, Self::Error>)
        requires
            old(buf)@.len() <= isize::MAX,
        ensures
            r matches Ok(n) ==> (self.encoding() matches Ok(b) && n == b.len() && n <= old(buf)@.len()
                && final(buf)@.take(n as int) == b && final(buf)@.skip(n as int) == old(buf)@.skip(
                n as int,
            )),
            final(buf)@.len() == old(buf)@.len(),
            self.encoding() is Err ==> r is Err,
            self.encoding() matches Err((p, v)) ==> (p.len() <= old(buf)@.len() ==> r == Err::<
                usize,
                Self::Error,
            >(v)),
            self.encoding() matches Ok(b) && b.len() <= old(buf)@.len() ==> r is Ok,
            self.encoding() matches Ok(b) && b.len() > old(buf)@.len() ==> r is Err,
            r matches Err(e) ==> ((self.encoding() matches Err((_, v)) && e == v) || (first_overflow(
                self.writes(),
                old(buf)@.len(),
            ) matches Some((ahead, len)) && ahead <= old(buf)@.len() < ahead + len <= attempted(
                self.encoding(),
            ).len() && lifted(
                WriteError::Insufficient(
                    InsufficientBuffer {
                        needed: vstd::math::min((ahead + len) as int, usize::MAX as int) as usize,
                        available: old(buf)@.len() as usize,
                    },
                ),
                e,
            ))),
    {
        let ghost cap = buf@.len();
        let mut sink = SliceSink::new(buf);
        let r = self.encode(&mut sink);
        proof {
            if r is Err && !(self.encoding() matches Err((_, v)) && r->Err_0 == v) {
                lemma_first_overflow_bounds(self.writes(), cap);
            }
        }
        let _filled = sink.into_written();
        r
    }
}

/// What an encode attempt writes: every byte of a value that can be
/// encoded, or the part written before the encode found that the value
/// cannot be.
pub open spec fn attempted<E>(encoding: Result<Seq<u8>, (Seq<u8>, E)>) -> Seq<u8> {
    match encoding {
        Ok(b) => b,
        Err((p, _)) => p,
    }
}

/// The bytes of `writes`, in order.
pub open spec fn joined(writes: Seq<Seq<u8>>) -> Seq<u8>
    decreases writes.len(),
{
    if writes.len() == 0 {
        Seq::empty()
    } else {
        writes[0] + joined(writes.drop_first())
    }
}

/// Where the first of `writes` that takes the total past `cap` bytes starts,
/// and its length; `None` if they all fit. A sink with room for `cap` bytes
/// fails on that write, having taken in the ones before it.
pub open spec fn first_overflow(writes: Seq<Seq<u8>>, cap: nat) -> Option<(nat, nat)>
    decreases writes.len(),
{
    if writes.len() == 0 {
        None
    } else if writes[0].len() > cap {
        Some((0, writes[0].len()))
    } else {
        match first_overflow(writes.drop_first(), (cap - writes[0].len()) as nat) {
            Some((ahead, len)) => Some((ahead + writes[0].len(), len)),
            None => None,
        }
    }
}

/// The first write that overflows starts within the room and ends past it,
/// inside the bytes written; writes that all fit never overflow.
pub proof fn lemma_first_overflow_bounds(writes: Seq<Seq<u8>>, cap: nat)
    ensures
        first_overflow(writes, cap) matches Some((ahead, len)) ==> ahead <= cap < ahead + len
            <= joined(writes).len(),
        joined(writes).len() <= cap ==> first_overflow(writes, cap) is None,
    decreases writes.len(),
{
    if writes.len() > 0 && writes[0].len() <= cap {
        lemma_first_overflow_bounds(writes.drop_first(), (cap - writes[0].len()) as nat);
    }
}

/// `e` is the error `E` builds from the write error `w` through its `From`
/// impl, for every `E` whose `From` impl is specified.
pub open spec fn lifted<E: From<WriteError>>(w: WriteError, e: E) -> bool {
    <E as vstd::std_specs::convert::FromSpec<WriteError>>::obeys_from_spec()
        ==> e == <E as vstd::std_specs::convert::FromSpec<WriteError>>::from_spec(w)
}

} // verus!
