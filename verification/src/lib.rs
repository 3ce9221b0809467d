//! Checkpoint-and-resume for long-running, cancellable work: a unit of
//! work's progress is captured to durable storage whenever it is
//! interrupted before completion, and restored the next time the same unit
//! of work starts. A checkpoint store owns one progress value, its stable
//! identity and a completion flag; persistence fires on every exit path of
//! a run and never after completion, so no interruption point loses
//! progress and a finished computation is never resumed. A step index kept
//! inside the progress value routes a resumed run to the stage where it
//! left off.

pub mod codec;
pub mod opaque;
pub mod progress;
pub mod protocol;
pub mod record;
pub mod resource;
pub mod state;
pub mod storage;

use vstd::prelude::*;

verus! {

/// Errors that end a unit of work: a present record that cannot be decoded,
/// or a decoded record that the step protocol does not recognize.
#[derive(Clone, Copy, PartialEq, Eq, Structural, Debug)]
pub enum StoreError {
    CodecFailure,
    ProtocolViolation,
}

/// How a unit of work left its run: it reached its terminal step and marked
/// completion, or cancellation took effect at a suspension point.
#[derive(Clone, Copy, PartialEq, Eq, Structural, Debug)]
pub enum RunOutcome {
    Completed,
    Interrupted,
}

} // verus!
