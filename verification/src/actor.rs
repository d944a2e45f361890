use vstd::prelude::*;

verus! {

/// What an actor's handler answers: its next state, or that it stops.
pub enum ActorResult<S> {
    /// Keep running with this state.
    Continue(S),
    /// Stop normally.
    Stop,
    /// Stop because of an error.
    Error(&'static str),
}

impl<S> ActorResult<S> {
    /// Whether the actor keeps running.
    pub fn is_ok(&self) -> (r: bool)
        ensures
            r == (*self is Continue),
    {
        match self {
            ActorResult::Continue(_) => true,
            _ => false,
        }
    }
}

} // verus!
