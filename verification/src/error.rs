use vstd::prelude::*;

use crate::engine::Error as EngineError;
use crate::messages::ToEngine;
use crate::score::Error as ScoreError;

verus! {

/// Everything that can go wrong at the caller-facing surface.
#[derive(Clone, Debug, PartialEq, Eq)]
pub enum Error {
    /// The requested position lies at or beyond the end of the score.
    BeyondScoreLength,
    /// A control message could not be delivered to the engine; it carries
    /// the message that came back.
    Communication(ToEngine),
    /// The engine stopped because of one of its own failures.
    Engine(EngineError),
    /// A negative speed was requested.
    NegativeSpeed,
    /// The engine's execution context is gone: it was already joined.
    NoEngine,
    /// The score does not contain any tempo information.
    NoTempo,
    /// The score could not be built.
    Score(ScoreError),
    /// The engine's execution context ended abnormally; the diagnostic it
    /// left behind is carried as opaque text.
    Thread(String),
}

impl From<ScoreError> for Error {
    /// Wrap a score-construction failure.
    fn from(score_error: ScoreError) -> (r: Error) {
        Error::Score(score_error)
    }
}

impl vstd::std_specs::convert::FromSpecImpl<ScoreError> for Error {
    open spec fn obeys_from_spec() -> bool {
        true
    }

    open spec fn from_spec(score_error: ScoreError) -> Error {
        Error::Score(score_error)
    }
}

} // verus!
