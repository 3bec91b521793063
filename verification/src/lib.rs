//! A fulfillment engine for logical goals over a trait system.
//!
//! A goal is flattened into atomic obligations, the obligations are
//! discharged round after round until a round learns nothing, and the
//! accumulated state is assembled into one answer. The inference table and
//! the recursive solver are collaborators that live outside this crate: every
//! function here takes what they returned as plain values and says what to
//! ask of them next.

pub mod goal;
pub mod environment;
pub mod solution;
pub mod obligation;
pub mod fulfill;
pub mod laws;
