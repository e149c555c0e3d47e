//! Decoder for a delta-encoded textual replay ("ghost") recording format,
//! together with statistics gathered over the decoded frame sequence.
//!
//! The decoder turns one flat delimited byte string into an ordered sequence
//! of fully resolved frame records: a header carrying level metadata, then
//! per-tick tokens whose fields are deltas against the previous tick.  All
//! quantities are held exactly: times as integer ticks (the wire's own unit,
//! 1/10000 s) and geometry as fixed-point decimals with four fractional
//! digits, so every contract below speaks of exact integer arithmetic.
//! Rendering those quantities as floating-point text, and the few statistics
//! that need square roots, live outside this crate.

pub mod bytes;
pub mod errors;
pub mod events;
pub mod frame;
pub mod geom;
pub mod laws;
pub mod numtext;
pub mod replay;
pub mod stats;
