//! Runtime state of a backing in this process.

use vstd::prelude::*;

verus! {

/// Whether the backing is open, closed, or not yet opened (recipe only).
#[derive(Copy, Clone, Debug, PartialEq, Eq, Structural)]
pub enum State {
    /// Not opened yet (registration recipe only).
    Unopened,
    /// Currently open and usable.
    Open,
    /// Was opened, then closed in this process.
    Closed,
}

/// Types that expose runtime open/closed state.
pub trait HasState {
    /// The state the value records.
    spec fn spec_state(&self) -> State;

    fn state(&self) -> (r: State)
        ensures
            r == self.spec_state(),
    ;

    /// The recorded state, to be changed in place.
    fn state_mut(&mut self) -> (r: &mut State)
        ensures
            *r == old(self).spec_state(),
            final(self).spec_state() == *final(r),
    ;

    fn is_unopened(&self) -> (r: bool)
        ensures
            r == (self.spec_state() == State::Unopened),
    {
        self.state() == State::Unopened
    }

    fn is_open(&self) -> (r: bool)
        ensures
            r == (self.spec_state() == State::Open),
    {
        self.state() == State::Open
    }

    fn is_closed(&self) -> (r: bool)
        ensures
            r == (self.spec_state() == State::Closed),
    {
        self.state() == State::Closed
    }
}

} // verus!
