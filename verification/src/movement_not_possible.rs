//! The single failure value of the library: a movement (or placement,
//! removal, admission) that cannot be carried out, with a human-readable
//! message naming the cause.

use vstd::prelude::*;

verus! {

/// The one error kind. The message strings are part of the observable
/// contract; every public operation states in its `ensures` exactly which
/// message comes with which inputs.
#[derive(Debug)]
pub struct MovementNotPossible {
    pub message: String,
}

impl MovementNotPossible {
    pub fn new(message: &str) -> (r: Self)
        ensures
            r.message@ == message@,
    {
        Self { message: message.to_string() }
    }

    /// The message, for display by a caller.
    pub fn get_message(&self) -> (r: &str)
        ensures
            r@ == self.message@,
    {
        self.message.as_str()
    }
}

} // verus!
