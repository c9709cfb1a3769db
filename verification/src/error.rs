//! Primitive error fragments. A protocol crate's own error type implements
//! `From` of each, so the shared trait defaults and the leaf helpers can build
//! errors generically.

use vstd::prelude::*;
use vstd::string::StringExecFns;
use crate::text::{decimal, push_decimal};

verus! {

/// A read ran out of bytes: `needed` were required, only `available` present.
#[derive(Clone, Copy, Debug, Eq, PartialEq)]
pub struct Incomplete {
    /// Number of bytes the read required.
    pub needed: usize,
    /// Number of bytes actually available.
    pub available: usize,
}

/// Bytes remained after a `decode_exact` that should have consumed the whole
/// buffer; the payload is how many.
#[derive(Clone, Copy, Debug, Eq, PartialEq)]
pub struct TrailingBytes(pub usize);

/// A variable-width read or write was requested with an out-of-range byte
/// width. A width that comes off the wire is a recoverable data error.
#[derive(Clone, Copy, Debug, Eq, PartialEq)]
pub struct InvalidWidth {
    /// Maximum width the operation supports.
    pub max: usize,
    /// Width actually requested.
    pub got: usize,
}

/// An output slice was too small for the bytes an encode needed to write:
/// the encode-side mirror of [`Incomplete`].
#[derive(Clone, Copy, Debug, Eq, PartialEq)]
pub struct InsufficientBuffer {
    /// Number of bytes the encode required (a lower bound: counted up to and
    /// including the write that failed).
    pub needed: usize,
    /// Number of bytes the slice actually had.
    pub available: usize,
}

impl Incomplete {
    /// The message: `incomplete input: needed N bytes, M available`.
    pub fn to_string(&self) -> (s: String)
        ensures
            s@ == "incomplete input: needed "@ + decimal(self.needed as nat) + " bytes, "@ + decimal(
                self.available as nat,
            ) + " available"@,
    {
        let mut s = String::from_str("incomplete input: needed ");
        push_decimal(&mut s, self.needed);
        s.append(" bytes, ");
        push_decimal(&mut s, self.available);
        s.append(" available");
        s
    }
}

impl TrailingBytes {
    /// The message: `N trailing bytes after decode`.
    pub fn to_string(&self) -> (s: String)
        ensures
            s@ == decimal(self.0 as nat) + " trailing bytes after decode"@,
    {
        let mut s = String::new();
        push_decimal(&mut s, self.0);
        s.append(" trailing bytes after decode");
        s
    }
}

impl InvalidWidth {
    /// The message: `invalid width: got N, max M`.
    pub fn to_string(&self) -> (s: String)
        ensures
            s@ == "invalid width: got "@ + decimal(self.got as nat) + ", max "@ + decimal(self.max as nat),
    {
        let mut s = String::from_str("invalid width: got ");
        push_decimal(&mut s, self.got);
        s.append(", max ");
        push_decimal(&mut s, self.max);
        s
    }
}

impl InsufficientBuffer {
    /// The message: `insufficient buffer: needed N bytes, M available`.
    pub fn to_string(&self) -> (s: String)
        ensures
            s@ == "insufficient buffer: needed "@ + decimal(self.needed as nat) + " bytes, "@ + decimal(
                self.available as nat,
            ) + " available"@,
    {
        let mut s = String::from_str("insufficient buffer: needed ");
        push_decimal(&mut s, self.needed);
        s.append(" bytes, ");
        push_decimal(&mut s, self.available);
        s.append(" available");
        s
    }
}

} // verus!
