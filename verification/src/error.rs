//! The error taxonomy surfaced to callers. Every operation either fully
//! succeeds or reports exactly one of these.

use vstd::prelude::*;

verus! {

#[derive(Clone, Copy, Debug, PartialEq, Eq, Structural)]
pub enum Error {
    AlreadyInitialized,
    NotInitialized,
    ColorOutOfRange,
    ColorAlreadyClaimed,
    ColorNotClaimed,
    GlyphTooBig,
    GlyphAlreadyMinted,
    GlyphNotMinted,
    GlyphIndex,
    OfferDuplicate,
    OfferNotFound,
    NoRoyaltiesToClaim,
}

} // verus!
