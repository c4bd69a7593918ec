use vstd::prelude::*;

use crate::philosopher::PhilosopherMsg;

verus! {

/// Whether a fork is currently held by one of its two philosophers.
#[derive(Debug, Clone, Copy, PartialEq, Eq, Structural)]
pub enum ForkState {
    Free,
    Held,
}

/// Messages a fork accepts. Philosophers are addressed by their id.
#[derive(Debug, Clone, Copy, PartialEq, Eq, Structural)]
pub enum ForkMsg {
    /// The philosopher with this id asks to take the fork.
    TryTake(usize),
    /// The holder puts the fork back.
    TakeOff,
}

impl ForkState {
    /// The state's name, for log lines.
    pub fn label(&self) -> &'static str {
        match self {
            ForkState::Free => "Free",
            ForkState::Held => "Held",
        }
    }
}

impl ForkMsg {
    /// The message's name without its argument, for log lines.
    pub fn label(&self) -> &'static str {
        match self {
            ForkMsg::TryTake(_) => "TryTake",
            ForkMsg::TakeOff => "TakeOff",
        }
    }
}

/// A message to deliver to the philosopher with the given id.
pub type PhilosopherSend = (usize, PhilosopherMsg);

/// A handler was given a message that is not valid in the receiver's state.
/// This is a bug in the protocol or in its caller; the unit must stop.
#[derive(Debug, Clone, Copy, PartialEq, Eq, Structural)]
pub struct ProtocolViolation;

/// One shared fork: its id, its state and the single philosopher queued to be
/// told when it becomes free (the last one to ask while it was held).
#[derive(Debug, Clone, Copy, PartialEq, Eq, Structural)]
pub struct ForkActor {
    pub id: usize,
    pub ph1: Option<usize>,
    pub state: ForkState,
}

impl ForkActor {
    /// A fork never has a waiter while it is free.
    pub open spec fn wf(self) -> bool {
        self.state == ForkState::Free ==> self.ph1 is None
    }

    /// Whether the fork accepts `msg` in its current state.
    pub open spec fn accepts(self, msg: ForkMsg) -> bool {
        !(msg is TakeOff && self.state == ForkState::Free)
    }

    /// The fork after handling `msg`, and the reply it sends, if any.
    pub open spec fn next(self, msg: ForkMsg) -> (ForkActor, Result<Option<PhilosopherSend>, ProtocolViolation>) {
        match msg {
            ForkMsg::TryTake(ph) => match self.state {
                ForkState::Held => (ForkActor { ph1: Some(ph), ..self }, Ok(None)),
                ForkState::Free => (
                    ForkActor { state: ForkState::Held, ..self },
                    Ok(Some((ph, PhilosopherMsg::SuccessfullyTaken(self.id)))),
                ),
            },
            ForkMsg::TakeOff => match self.state {
                ForkState::Held => (
                    ForkActor { ph1: None, state: ForkState::Free, ..self },
                    Ok(
                        match self.ph1 {
                            Some(w) => Some((w, PhilosopherMsg::ForkIsFree(self.id))),
                            None => None,
                        },
                    ),
                ),
                ForkState::Free => (self, Err(ProtocolViolation)),
            },
        }
    }

    /// A free fork with no waiter.
    pub open spec fn new_spec(id: usize) -> ForkActor {
        ForkActor { id, ph1: None, state: ForkState::Free }
    }

    /// A free fork with no waiter.
    pub fn new(id: usize) -> (r: ForkActor)
        ensures
            r == ForkActor::new_spec(id),
            r.wf(),
    {
        ForkActor { id, ph1: None, state: ForkState::Free }
    }

    /// Handles one message. A request on a free fork takes it and is answered
    /// at once; a request on a held fork replaces the queued waiter. Putting
    /// back a held fork frees it and tells the queued waiter, if any. Putting
    /// back a free fork is a protocol violation and changes nothing.
    pub fn handle(&mut self, msg: ForkMsg) -> (r: Result<Option<PhilosopherSend>, ProtocolViolation>)
        ensures
            (*final(self), r) == old(self).next(msg),
            r is Ok <==> old(self).accepts(msg),
            old(self).wf() ==> final(self).wf(),
    {
        match msg {
            ForkMsg::TryTake(ph) => match self.state {
                ForkState::Held => {
                    self.ph1 = Some(ph);
                    Ok(None)
                },
                ForkState::Free => {
                    self.state = ForkState::Held;
                    Ok(Some((ph, PhilosopherMsg::SuccessfullyTaken(self.id))))
                },
            },
            ForkMsg::TakeOff => match self.state {
                ForkState::Held => {
                    let reply = match self.ph1 {
                        Some(w) => Some((w, PhilosopherMsg::ForkIsFree(self.id))),
                        None => None,
                    };
                    self.ph1 = None;
                    self.state = ForkState::Free;
                    Ok(reply)
                },
                ForkState::Free => Err(ProtocolViolation),
            },
        }
    }
}

} // verus!
