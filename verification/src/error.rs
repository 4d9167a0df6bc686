//! Why a cut is abandoned.

use vstd::prelude::*;

verus! {

/// A fatal condition. A cut that meets one produces no output at all.
#[derive(Clone, Copy, Debug, PartialEq, Eq, Structural)]
pub enum CutError {
    /// The codec could not read the capture.
    Decode,
    /// The codec could not write a packet.
    Encode,
    /// The capture is too short for the requested range, or the range is empty
    /// the wrong way round.
    InvalidRange,
    /// The capture ends before the start tick is reached.
    MissingPivot,
    /// The first packet at or after the start tick carries no entity update
    /// that is a difference against an earlier tick.
    PivotWithoutEntities,
    /// The pivot's basis tick leaves no room for the synthesized packets
    /// before it.
    BasisOutOfRange,
    /// An entity kept its serial number but changed its class.
    ClassMismatch,
}

impl CutError {
    /// A short description for people.
    pub fn message(&self) -> (r: &'static str)
        ensures
            r@ == message_text(*self),
    {
        match self {
            CutError::Decode => "the capture could not be decoded",
            CutError::Encode => "a packet could not be encoded",
            CutError::InvalidRange => "the requested tick range does not fit the capture",
            CutError::MissingPivot => "the capture ends before the start tick",
            CutError::PivotWithoutEntities =>
                "the packet at the start tick carries no delta entity update, pick a different start tick",
            CutError::BasisOutOfRange => "the basis tick at the start tick is too small",
            CutError::ClassMismatch => "an entity changed its class without a new serial number",
        }
    }
}

/// The description of each error.
pub open spec fn message_text(error: CutError) -> Seq<char> {
    match error {
        CutError::Decode => "the capture could not be decoded"@,
        CutError::Encode => "a packet could not be encoded"@,
        CutError::InvalidRange => "the requested tick range does not fit the capture"@,
        CutError::MissingPivot => "the capture ends before the start tick"@,
        CutError::PivotWithoutEntities =>
            "the packet at the start tick carries no delta entity update, pick a different start tick"@,
        CutError::BasisOutOfRange => "the basis tick at the start tick is too small"@,
        CutError::ClassMismatch => "an entity changed its class without a new serial number"@,
    }
}

} // verus!
