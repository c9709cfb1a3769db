//! The [`Sink`] trait — a byte sink that knows how much room it has left — and
//! the sinks shipped with the crate: [`SliceSink`] over a caller's buffer,
//! [`Limited`] bounding another sink to a budget, and the infallible
//! [`CountingSink`].

use vstd::prelude::*;
use crate::error::InsufficientBuffer;
use crate::write::WriteError;

verus! {

broadcast use vstd::slice::group_slice_axioms;

/// A byte sink that knows how much room it has left.
///
/// A consumer wrapping a peripheral implements it directly and maps the
/// peripheral's failure to [`WriteError::Io`]. Sinks are `Sized`: writers
/// take them as `&mut impl Sink`, not as trait objects.
pub trait Sink: Sized {
    /// Every byte this sink has taken in, oldest first.
    ///
    /// A sink verified against this trait describes itself by overriding
    /// these spec functions; the defaults promise nothing.
    closed spec fn accepted(&self) -> Seq<u8> {
        arbitrary()
    }

    /// The number [`remaining`](Sink::remaining) reports.
    closed spec fn room(&self) -> usize {
        arbitrary()
    }

    /// Whether the sink fails only for want of room: a write that fits in
    /// `room()` always succeeds.
    closed spec fn reliable(&self) -> bool {
        false
    }

    /// The caller's slice this sink writes into, for a sink over one;
    /// `None` (the default) for a sink that writes elsewhere. A write never
    /// lets go of the slice: its final contents stay those of the caller's
    /// buffer, so a caller that takes the slice back at the end
    /// ([`SliceSink::into_written`]) knows what its own buffer holds.
    closed spec fn destination(&self) -> Option<&mut [u8]> {
        None
    }

    /// What the destination held before the sink wrote anything to it.
    closed spec fn origin(&self) -> Seq<u8> {
        arbitrary()
    }

    /// The error this sink reports when, once `ahead` more bytes have been
    /// taken in, a write of `len` bytes fails; `None` (the default) for a sink
    /// that does not say.
    closed spec fn refusal(&self, ahead: nat, len: nat) -> Option<WriteError> {
        None
    }

    /// The error the sink's latest failed write returned.
    closed spec fn last_failure(&self) -> Option<WriteError> {
        None
    }

    /// Write every byte, or fail. There is no partial write: on failure the
    /// sink has taken in nothing.
    ///
    /// # Errors
    /// [`WriteError::Insufficient`] if the sink is out of room and knows by how
    /// much; [`WriteError::Io`] if it failed for its own reasons.
    fn write_all(&mut self, buf: &[u8]) -> (r: Result<(), WriteError>)
        ensures
            r is Ok ==> (*final(self)).accepted() == (*old(self)).accepted() + buf@,
            r is Ok && (*old(self)).room() == usize::MAX ==> (*final(self)).room() == usize::MAX,
            r is Ok && (*old(self)).room() != usize::MAX ==> (*final(self)).room() == (*old(self)).room()
                - buf@.len(),
            r is Err ==> (*final(self)).accepted() == (*old(self)).accepted() && (*final(self)).room()
                == (*old(self)).room(),
            (*final(self)).reliable() == (*old(self)).reliable(),
            (*final(self)).origin() == (*old(self)).origin(),
            (*old(self)).destination() matches Some(d) ==> ((*final(self)).destination() matches Some(e)
                && final(e)@ == final(d)@),
            r is Ok ==> forall|a: nat, k: nat| #[trigger] (*final(self)).refusal(a, k) == (*old(self)).refusal(
                a + buf@.len(),
                k,
            ),
            r is Err ==> forall|a: nat, k: nat| #[trigger] (*final(self)).refusal(a, k) == (*old(self)).refusal(
                a,
                k,
            ),
            (*old(self)).refusal(0, buf@.len()) matches Some(w) ==> (r is Err ==> r == Err::<(), WriteError>(
                w,
            )),
            r matches Err(e) ==> (*final(self)).last_failure() == Some(e),
            r matches Err(WriteError::Insufficient(_)) ==> buf@.len() > (*old(self)).room(),
            buf@.len() > (*old(self)).room() ==> r is Err,
            !(r matches Err(WriteError::InvalidWidth(_))),
            (*old(self)).reliable() && buf@.len() <= (*old(self)).room() ==> r is Ok,
    ;

    /// Bytes guaranteed writable from here; [`usize::MAX`] means no bound is
    /// known. A sink that knows its capacity reports it honestly: a write
    /// longer than this fails.
    fn remaining(&self) -> (n: usize)
        ensures
            n == self.room(),
    ;
}

/// `after` is `before` having taken in `bytes`: the bytes are appended, the
/// room shrinks by their number (an unbounded sink stays unbounded), and
/// reliability and origin are unchanged.
pub open spec fn took<S: Sink>(before: S, after: S, bytes: Seq<u8>) -> bool {
    &&& after.accepted() == before.accepted() + bytes
    &&& before.room() == usize::MAX ==> after.room() == usize::MAX
    &&& before.room() != usize::MAX ==> after.room() == before.room() - bytes.len()
    &&& after.reliable() == before.reliable()
    &&& after.origin() == before.origin()
    &&& forall|a: nat, k: nat| #[trigger] after.refusal(a, k) == before.refusal(a + bytes.len(), k)
}

/// Taking in `x` and then `y` is taking in `x + y`.
pub proof fn lemma_took_twice<S: Sink>(a: S, b: S, c: S, x: Seq<u8>, y: Seq<u8>)
    requires
        took(a, b, x),
        took(b, c, y),
    ensures
        took(a, c, x + y),
{
    assert(a.accepted() + x + y =~= a.accepted() + (x + y));
    assert forall|p: nat, q: nat| #[trigger] c.refusal(p, q) == a.refusal(p + (x + y).len(), q) by {
        assert(c.refusal(p, q) == b.refusal(p + y.len(), q));
        assert(b.refusal(p + y.len(), q) == a.refusal(p + y.len() + x.len(), q));
    }
}

/// `after` is `before`, as far as a writer can tell.
pub open spec fn kept<S: Sink>(before: S, after: S) -> bool {
    &&& after.accepted() == before.accepted()
    &&& after.room() == before.room()
    &&& after.reliable() == before.reliable()
    &&& after.origin() == before.origin()
    &&& forall|a: nat, k: nat| #[trigger] after.refusal(a, k) == before.refusal(a, k)
}

/// A [`Sink`] over a caller's byte slice, with exact capacity. A write that
/// does not fit fails with [`WriteError::Insufficient`] carrying how many bytes
/// the encode had reached (`written + len`) and the slice length, and leaves
/// the slice untouched.
///
/// The slice holds what was written, in order, from its start; the bytes
/// past that are as they were. [`into_written`](SliceSink::into_written)
/// hands the slice back with exactly that stated, and with the caller's
/// buffer tied to it. Verified code reads what it wrote through that slice:
/// the sink's fields are private (they carry its invariant), so a sink that
/// is merely dropped tells a verifier nothing of the buffer.
pub struct SliceSink<'a> {
    buf: &'a mut [u8],
    pos: usize,
    start: Ghost<Seq<u8>>,
    failed: Ghost<Option<WriteError>>,
}

/// Copy `src` into `dst` at offset `at`, leaving the rest of `dst` as it was.
fn copy_at(dst: &mut [u8], at: usize, src: &[u8], n: usize)
    requires
        n == src@.len(),
        at + n <= old(dst)@.len() <= isize::MAX,
    ensures
        final(dst)@.len() == old(dst)@.len(),
        forall|j: int| 0 <= j < at ==> final(dst)@[j] == old(dst)@[j],
        forall|j: int| 0 <= j < src@.len() ==> final(dst)@[at + j] == src@[j],
        forall|j: int| at + src@.len() <= j < old(dst)@.len() ==> final(dst)@[j] == old(dst)@[j],
    no_unwind
{
    let ghost before = dst@;
    let mut i: usize = 0;
    while i < n
        invariant
            n == src@.len(),
            at + n <= dst@.len() <= isize::MAX,
            dst@.len() == before.len(),
            i <= src@.len(),
            forall|j: int| 0 <= j < at ==> dst@[j] == before[j],
            forall|j: int| 0 <= j < i ==> dst@[at + j] == src@[j],
            forall|j: int| at + i <= j < before.len() ==> dst@[j] == before[j],
        decreases src@.len() - i,
    {
        dst[at + i] = src[i];
        i = i + 1;
    }
}

impl<'a> SliceSink<'a> {
    #[verifier::type_invariant]
    spec fn inv(self) -> bool {
        &&& self.pos <= self.buf@.len() <= isize::MAX
        &&& self.buf@.len() == self.start@.len()
        &&& forall|j: int| self.pos <= j < self.buf@.len() ==> self.buf@[j] == self.start@[j]
    }

    /// A sink that writes `buf` from its start. (No slice is longer than
    /// `isize::MAX` bytes.)
    pub fn new(buf: &'a mut [u8]) -> (s: Self)
        requires
            old(buf)@.len() <= isize::MAX,
        ensures
            s.accepted() == Seq::<u8>::empty(),
            s.room() == old(buf)@.len(),
            s.reliable(),
            s.origin() == old(buf)@,
            s.destination() matches Some(d) && d@ == old(buf)@ && final(d)@ == final(buf)@,
            forall|a: nat, k: nat| #[trigger] s.refusal(a, k) == Some(
                WriteError::Insufficient(InsufficientBuffer {
                    needed: vstd::math::min((a + k) as int, usize::MAX as int) as usize,
                    available: old(buf)@.len() as usize,
                }),
            ),
    {
        let ghost start = buf@;
        SliceSink { buf, pos: 0, start: Ghost(start), failed: Ghost(None) }
    }

    /// How many bytes have been written so far. The slice holds them at its
    /// start; the rest of it is as it was.
    pub fn written(&self) -> (n: usize)
        ensures
            n == self.accepted().len(),
            self.destination() matches Some(d) && d@.len() == self.origin().len()
                && d@.take(n as int) == self.accepted()
                && d@.skip(n as int) == self.origin().skip(n as int),
    {
        proof {
            use_type_invariant(self);
            assert(self.buf@.skip(self.pos as int) =~= self.start@.skip(self.pos as int));
        }
        self.pos
    }

    /// Give the slice back: it holds the written bytes at its start and, past
    /// them, what it held before. Its contents when the caller is done with
    /// it are the caller's buffer's.
    pub fn into_written(self) -> (r: &'a mut [u8])
        ensures
            r@.len() == self.origin().len(),
            r@ == self.accepted() + self.origin().skip(self.accepted().len() as int),
            r@.take(self.accepted().len() as int) == self.accepted(),
            r@.skip(self.accepted().len() as int) == self.origin().skip(self.accepted().len() as int),
            self.destination() matches Some(d) && r@ == d@ && final(r)@ == final(d)@,
    {
        proof {
            use_type_invariant(&self);
            let p = self.pos as int;
            assert(self.buf@.skip(p) =~= self.start@.skip(p));
            assert(self.buf@ =~= self.buf@.take(p) + self.buf@.skip(p));
        }
        let SliceSink { buf, .. } = self;
        buf
    }
}

impl<'a> Sink for SliceSink<'a> {
    closed spec fn accepted(&self) -> Seq<u8> {
        self.buf@.take(self.pos as int)
    }

    closed spec fn room(&self) -> usize {
        (self.buf@.len() - self.pos) as usize
    }

    closed spec fn reliable(&self) -> bool {
        true
    }

    closed spec fn destination(&self) -> Option<&mut [u8]> {
        Some(self.buf)
    }

    closed spec fn origin(&self) -> Seq<u8> {
        self.start@
    }

    closed spec fn refusal(&self, ahead: nat, len: nat) -> Option<WriteError> {
        Some(
            WriteError::Insufficient(InsufficientBuffer {
                needed: vstd::math::min((self.pos + ahead + len) as int, usize::MAX as int) as usize,
                available: self.buf@.len() as usize,
            }),
        )
    }

    closed spec fn last_failure(&self) -> Option<WriteError> {
        self.failed@
    }

    fn write_all(&mut self, bytes: &[u8]) -> (r: Result<(), WriteError>) {
        proof {
            use_type_invariant(&*self);
        }
        let cap = self.buf.len();
        if bytes.len() > cap - self.pos {
            let e = WriteError::Insufficient(
                InsufficientBuffer { needed: self.pos.saturating_add(bytes.len()), available: cap },
            );
            self.failed = Ghost(Some(e));
            return Err(e);
        }
        let ghost before = self.buf@;
        let at = self.pos;
        self.pos = at + bytes.len();
        copy_at(self.buf, at, bytes, bytes.len());
        assert(self.buf@.take(self.pos as int) =~= before.take(at as int) + bytes@);
        Ok(())
    }

    fn remaining(&self) -> (n: usize) {
        proof {
            use_type_invariant(self);
        }
        self.buf.len() - self.pos
    }
}

/// Bounds any sink to a byte budget: how a transport enforces its advertised
/// maximum so that an over-long encode fails with counts attached. A write
/// that would take the bytes written through this wrapper past `limit` fails
/// with [`WriteError::Insufficient`] (`needed` = bytes written so far plus the
/// write's length, `available` = `limit`) and reaches nothing; every other
/// write goes to the inner sink. A budget of `usize::MAX` bytes is no budget.
pub struct Limited<S> {
    inner: S,
    limit: usize,
    used: usize,
    taken: Ghost<Seq<u8>>,
    failed: Ghost<Option<WriteError>>,
}

impl<S: Sink> Limited<S> {
    /// The wrapped sink.
    pub closed spec fn inner(&self) -> S {
        self.inner
    }

    /// The budget.
    pub closed spec fn limit(&self) -> usize {
        self.limit
    }

    /// Bytes the budget still allows once `ahead` more bytes have been
    /// written (for a real budget).
    closed spec fn budget_left(&self, ahead: nat) -> nat {
        if self.used + ahead >= self.limit {
            0
        } else {
            (self.limit - self.used - ahead) as nat
        }
    }

    /// `inner`, allowed at most `limit` more bytes.
    pub fn new(inner: S, limit: usize) -> (l: Self)
        ensures
            l.inner() == inner,
            l.limit() == limit,
            l.accepted() == Seq::<u8>::empty(),
            limit == usize::MAX ==> l.room() == inner.room(),
            limit < usize::MAX ==> l.room() == vstd::math::min(limit as int, inner.room() as int),
            l.reliable() == inner.reliable(),
            l.origin() == inner.origin(),
            l.destination() == inner.destination(),
    {
        Limited { inner, limit, used: 0, taken: Ghost(Seq::empty()), failed: Ghost(None) }
    }

    /// Give the wrapped sink back.
    pub fn into_inner(self) -> (s: S)
        ensures
            s == self.inner(),
    {
        self.inner
    }
}

impl<S: Sink> Sink for Limited<S> {
    closed spec fn accepted(&self) -> Seq<u8> {
        self.taken@
    }

    closed spec fn room(&self) -> usize {
        if self.limit == usize::MAX {
            self.inner.room()
        } else {
            vstd::math::min(self.budget_left(0) as int, self.inner.room() as int) as usize
        }
    }

    closed spec fn reliable(&self) -> bool {
        self.inner.reliable()
    }

    closed spec fn destination(&self) -> Option<&mut [u8]> {
        self.inner.destination()
    }

    closed spec fn origin(&self) -> Seq<u8> {
        self.inner.origin()
    }

    closed spec fn last_failure(&self) -> Option<WriteError> {
        self.failed@
    }

    closed spec fn refusal(&self, ahead: nat, len: nat) -> Option<WriteError> {
        if self.limit != usize::MAX && len > self.budget_left(ahead) {
            Some(
                WriteError::Insufficient(InsufficientBuffer {
                    needed: vstd::math::min((self.used + ahead + len) as int, usize::MAX as int) as usize,
                    available: self.limit,
                }),
            )
        } else {
            self.inner.refusal(ahead, len)
        }
    }

    fn write_all(&mut self, bytes: &[u8]) -> (r: Result<(), WriteError>)
        ensures
            r is Ok ==> took((*old(self)).inner(), (*final(self)).inner(), bytes@),
            r is Err ==> kept((*old(self)).inner(), (*final(self)).inner()),
            (*final(self)).limit() == (*old(self)).limit(),
    {
        if self.limit != usize::MAX && bytes.len() > self.limit.saturating_sub(self.used) {
            let e = WriteError::Insufficient(
                InsufficientBuffer { needed: self.used.saturating_add(bytes.len()), available: self.limit },
            );
            self.failed = Ghost(Some(e));
            return Err(e);
        }
        match self.inner.write_all(bytes) {
            Ok(()) => {
                let ghost taken = self.taken@ + bytes@;
                self.used = self.used.saturating_add(bytes.len());
                self.taken = Ghost(taken);
                Ok(())
            },
            Err(e) => {
                self.failed = Ghost(Some(e));
                Err(e)
            },
        }
    }

    fn remaining(&self) -> (n: usize) {
        let inner_room = self.inner.remaining();
        if self.limit == usize::MAX {
            inner_room
        } else {
            let left = self.limit.saturating_sub(self.used);
            if left < inner_room {
                left
            } else {
                inner_room
            }
        }
    }
}

/// A borrowed sink is a sink: a function holding `sink: &mut impl Sink` can
/// hand on its own borrow (`Limited::new(&mut *sink, n)`), and everything
/// said of the sink is said of the borrow.
impl<'b, S: Sink> Sink for &'b mut S {
    closed spec fn accepted(&self) -> Seq<u8> {
        (**self).accepted()
    }

    closed spec fn room(&self) -> usize {
        (**self).room()
    }

    closed spec fn reliable(&self) -> bool {
        (**self).reliable()
    }

    closed spec fn destination(&self) -> Option<&mut [u8]> {
        (**self).destination()
    }

    closed spec fn origin(&self) -> Seq<u8> {
        (**self).origin()
    }

    closed spec fn refusal(&self, ahead: nat, len: nat) -> Option<WriteError> {
        (**self).refusal(ahead, len)
    }

    closed spec fn last_failure(&self) -> Option<WriteError> {
        (**self).last_failure()
    }

    fn write_all(&mut self, buf: &[u8]) -> (r: Result<(), WriteError>) {
        (**self).write_all(buf)
    }

    fn remaining(&self) -> (n: usize) {
        (**self).remaining()
    }
}

/// An infallible sink that only counts the bytes written to it. It reports no
/// bound on its room.
pub struct CountingSink {
    count: usize,
    seen: Ghost<Seq<u8>>,
}

impl CountingSink {
    #[verifier::type_invariant]
    spec fn inv(self) -> bool {
        self.count == vstd::math::min(self.seen@.len() as int, usize::MAX as int)
    }

    /// A sink that has counted nothing yet.
    pub fn new() -> (s: Self)
        ensures
            s.accepted() == Seq::<u8>::empty(),
            s.room() == usize::MAX,
            s.reliable(),
    {
        CountingSink { count: 0, seen: Ghost(Seq::empty()) }
    }

    /// Bytes written so far (saturating at `usize::MAX`).
    pub fn count(&self) -> (n: usize)
        ensures
            n == vstd::math::min(self.accepted().len() as int, usize::MAX as int),
    {
        proof {
            use_type_invariant(self);
        }
        self.count
    }
}

impl Sink for CountingSink {
    closed spec fn accepted(&self) -> Seq<u8> {
        self.seen@
    }

    closed spec fn room(&self) -> usize {
        usize::MAX
    }

    closed spec fn reliable(&self) -> bool {
        true
    }

    closed spec fn destination(&self) -> Option<&mut [u8]> {
        None
    }

    closed spec fn origin(&self) -> Seq<u8> {
        Seq::empty()
    }

    closed spec fn refusal(&self, ahead: nat, len: nat) -> Option<WriteError> {
        None
    }

    open spec fn last_failure(&self) -> Option<WriteError> {
        None
    }

    fn write_all(&mut self, bytes: &[u8]) -> (r: Result<(), WriteError>)
        ensures
            r is Ok,
    {
        proof {
            use_type_invariant(&*self);
        }
        let ghost seen = self.seen@ + bytes@;
        let count = self.count.saturating_add(bytes.len());
        *self = CountingSink { count, seen: Ghost(seen) };
        Ok(())
    }

    fn remaining(&self) -> (n: usize) {
        usize::MAX
    }
}

} // verus!
