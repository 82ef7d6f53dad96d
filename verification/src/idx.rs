//! Typed addressing for the container.
//!
//! The container is generic over an index type so that callers can address
//! cells with a domain-specific newtype instead of a raw offset.  All the
//! container requires of such a type is a bidirectional conversion to a raw
//! `usize` offset.

use vstd::prelude::*;

verus! {

/// An index type that converts to and from a raw `usize` offset.
///
/// `raw()` is the mathematical offset an index value denotes; the two
/// executable conversions are required to agree with it, so converting in
/// either direction preserves the offset.
pub trait RawOffset: Sized {
    /// The raw offset this index value denotes.
    spec fn raw(&self) -> usize;

    /// Build an index from a raw offset.
    fn from_raw(raw: usize) -> (r: Self)
        ensures
            r.raw() == raw,
    ;

    /// Recover the raw offset.
    fn to_raw(&self) -> (r: usize)
        ensures
            r == self.raw(),
    ;
}

impl RawOffset for usize {
    open spec fn raw(&self) -> usize {
        *self
    }

    fn from_raw(raw: usize) -> usize {
        raw
    }

    fn to_raw(&self) -> usize {
        *self
    }
}

} // verus!
