use vstd::prelude::*;

use crate::philosopher::PhilosopherMsg;

verus! {

/// Messages the notifier accepts. Philosophers are addressed by their id.
#[derive(Debug, Clone, Copy, PartialEq, Eq, Structural)]
pub enum NotifierMsg {
    /// Tell this philosopher to stop eating after this many milliseconds.
    NotifyAfter(usize, u64),
    /// Tell this philosopher to stop eating now.
    Notify(usize),
}

/// What the notifier does after handling a message.
#[derive(Debug, Clone, Copy, PartialEq, Eq, Structural)]
pub enum NotifierAction {
    /// Deliver this message to the notifier itself after this many milliseconds.
    Later(NotifierMsg, u64),
    /// Deliver this message to the philosopher with this id.
    Send(usize, PhilosopherMsg),
}

/// A stateless unit that turns a delayed request into a later `StopEating`.
#[derive(Debug, Clone, Copy, PartialEq, Eq, Structural)]
pub struct NotifierActor {}

impl NotifierActor {
    /// What the notifier does with `msg`.
    pub open spec fn next(msg: NotifierMsg) -> NotifierAction {
        match msg {
            NotifierMsg::NotifyAfter(ph, ms) => NotifierAction::Later(NotifierMsg::Notify(ph), ms),
            NotifierMsg::Notify(ph) => NotifierAction::Send(ph, PhilosopherMsg::StopEating),
        }
    }

    pub fn new() -> (r: NotifierActor)
        ensures
            r == (NotifierActor {}),
    {
        NotifierActor {  }
    }

    /// A delayed request is sent back to the notifier itself after its delay;
    /// once it arrives, the philosopher is told to stop eating.
    pub fn handle(&mut self, msg: NotifierMsg) -> (r: NotifierAction)
        ensures
            r == Self::next(msg),
            *final(self) == *old(self),
    {
        match msg {
            NotifierMsg::NotifyAfter(ph, ms) => NotifierAction::Later(NotifierMsg::Notify(ph), ms),
            NotifierMsg::Notify(ph) => NotifierAction::Send(ph, PhilosopherMsg::StopEating),
        }
    }
}

} // verus!
