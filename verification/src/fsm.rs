//! The connection state machine: a stack of states, where `change` makes a
//! hard lifecycle transition and `push`/`pop` carry transient overlays.
//! Transition legality is deliberately left to the callers.

use vstd::pervasive::VecAdditionalExecFns;
use vstd::prelude::*;

verus! {

/// How a connection attempt is to be made.
#[derive(Clone, Copy, Debug)]
pub enum SessionMode {
    /// Peer-hosted: start a local server, then join it as a client.
    CreateServer,
    /// Join a server that is already running elsewhere.
    ConnectAsClientOnly,
}

/// One lifecycle or overlay state of the application.
pub enum State {
    Menu,
    Connecting { server_address: String, session_mode: SessionMode },
    Playing,
    Disconnected,
    QuitDialog,
    Quit,
}

/// The stack of states; the top is what the application currently shows.
pub struct StateMachine {
    state_stack: Vec<State>,
}

impl View for StateMachine {
    type V = Seq<State>;

    closed spec fn view(&self) -> Seq<State> {
        self.state_stack@
    }
}

impl StateMachine {
    pub fn new() -> (sm: StateMachine)
        ensures
            sm@ == Seq::<State>::empty(),
    {
        StateMachine { state_stack: Vec::new() }
    }

    /// Appends an overlay state on top of the current one.
    pub fn push(&mut self, state: State)
        ensures
            final(self)@ == old(self)@.push(state),
    {
        self.state_stack.push(state);
    }

    /// Removes the top state; leaves an empty stack alone.
    pub fn pop(&mut self)
        ensures
            old(self)@.len() == 0 ==> final(self)@ == old(self)@,
            old(self)@.len() > 0 ==> final(self)@ == old(self)@.drop_last(),
    {
        let _ = self.state_stack.pop();
    }

    /// Hard transition: clears the stack and leaves `state` alone on it.
    pub fn change(&mut self, state: State)
        ensures
            final(self)@ == seq![state],
    {
        self.state_stack.clear();
        self.push(state);
    }

    /// The top state, without removing it.
    pub fn peek(&self) -> (r: Option<&State>)
        ensures
            self@.len() == 0 ==> r is None,
            self@.len() > 0 ==> (r matches Some(s) && *s == self@.last()),
    {
        if self.state_stack.len() > 0 {
            Some(&self.state_stack[self.state_stack.len() - 1])
        } else {
            None
        }
    }

    /// Replaces the top state; leaves an empty stack alone. Stands in for
    /// mutating the top in place.
    pub fn set_top(&mut self, state: State)
        ensures
            old(self)@.len() == 0 ==> final(self)@ == old(self)@,
            old(self)@.len() > 0 ==> final(self)@ == old(self)@.update(
                old(self)@.len() - 1,
                state,
            ),
    {
        let n = self.state_stack.len();
        if n > 0 {
            self.state_stack.set(n - 1, state);
        }
    }
}

} // verus!
