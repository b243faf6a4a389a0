//! Error model: programming-invariant violations and unimplemented features
//! are distinguishable error kinds; ordinary gameplay outcomes (an illegal
//! move, no stairs present) are notifications, not errors.

use vstd::prelude::*;

verus! {

/// The closed set of error kinds.
#[derive(Clone, Copy, Debug, PartialEq, Eq, Structural)]
pub enum ErrorId {
    /// an internal invariant did not hold; unrecoverable for the level
    MaybeBug,
    /// a deliberately unimplemented feature was requested
    Unimplemented,
}

/// An error with the chain of operations that were in progress when it rose.
#[derive(Clone, Debug, PartialEq, Eq)]
pub struct GameError {
    pub id: ErrorId,
    /// contexts, innermost first
    pub notes: Vec<&'static str>,
}

impl GameError {
    pub fn new(id: ErrorId, note: &'static str) -> (e: GameError)
        ensures
            e.id == id,
            e.notes@ == seq![note],
    {
        let mut notes: Vec<&'static str> = Vec::new();
        notes.push(note);
        GameError { id, notes }
    }

    /// Wrap the error with one more context without discarding the cause.
    pub fn chain(self, note: &'static str) -> (e: GameError)
        ensures
            e.id == self.id,
            e.notes@ == self.notes@.push(note),
    {
        let mut e = self;
        e.notes.push(note);
        e
    }
}

/// The result type of every fallible operation of the core.
pub type GameResult<T> = Result<T, GameError>;

} // verus!
