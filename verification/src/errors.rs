//! Failure reasons for the whole decode pipeline.
//!
//! Every failure is fatal to the decode: the format carries no redundancy to
//! recover from, so there is no partial-result mode.

use vstd::prelude::*;

verus! {

/// Why a decode failed.  Each variant names exactly one rejection point of
/// the decoder; the contracts of the decoding functions say on which inputs
/// each one is returned.
#[derive(Clone, Copy, Debug, PartialEq, Eq, Structural)]
pub enum DecodeError {
    /// The input has no header/frame-stream delimiter.
    MissingHeaderDelimiter,
    /// The first header field is not the required sentinel literal.
    BadHeaderSentinel,
    /// The fifth header field is not the required nominal tick-time literal.
    BadHeaderTickTime,
    /// A header field that must be numeric did not parse.
    BadHeaderNumber,
    /// The header does not split into exactly five fields.
    BadHeaderFieldCount,
    /// A geometry value has more than three comma-separated components.
    TooManyVectorFields,
    /// A frame field that must be an integer did not parse.
    BadFrameInteger,
    /// An angle delta is neither a decimal number nor the `-` placeholder.
    BadAngleNumber,
    /// A trigger-event code lies outside every known range.
    UnknownTriggerEvent,
    /// A bullet-event code lies in the bullet range but names no bullet type.
    InvalidBulletType,
    /// A discard-event code lies in the discard range but is not a listed step.
    InvalidDiscardAbility,
    /// A frame token holds a letter that is not a recognized field label.
    UnknownFieldLabel,
    /// An exact accumulated quantity left the machine-representable range.
    NumericOverflow,
}

} // verus!
