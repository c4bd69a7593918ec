use vstd::prelude::*;

use crate::chance::draw_between;
use crate::fork::{ForkMsg, ProtocolViolation};

verus! {

/// Messages a philosopher accepts. Forks are addressed by their id.
#[derive(Debug, Clone, Copy, PartialEq, Eq, Structural)]
pub enum PhilosopherMsg {
    /// Try to start eating.
    StartEating,
    /// The eating time is over.
    StopEating,
    /// The fork with this id has been taken for this philosopher.
    SuccessfullyTaken(usize),
    /// The fork with this id, which this philosopher waited for, is free.
    ForkIsFree(usize),
}

/// What a philosopher is doing. While waiting, each flag says whether the
/// fork on that side is still outstanding (not yet confirmed taken).
#[derive(Debug, Clone, Copy, PartialEq, Eq, Structural)]
pub enum PhilosopherState {
    Eating,
    Waiting(bool, bool),
    NotEating,
}

impl PhilosopherMsg {
    /// The message's name without its argument, for log lines.
    pub fn label(&self) -> &'static str {
        match self {
            PhilosopherMsg::StartEating => "StartEating",
            PhilosopherMsg::StopEating => "StopEating",
            PhilosopherMsg::SuccessfullyTaken(_) => "SuccessfullyTaken",
            PhilosopherMsg::ForkIsFree(_) => "ForkIsFree",
        }
    }
}

impl PhilosopherState {
    /// The state's name without its flags, for log lines.
    pub fn label(&self) -> &'static str {
        match self {
            PhilosopherState::Eating => "Eating",
            PhilosopherState::Waiting(_, _) => "Waiting",
            PhilosopherState::NotEating => "NotEating",
        }
    }
}

/// What a philosopher does after handling a message.
#[derive(Debug, Clone, Copy, PartialEq, Eq, Structural)]
pub enum PhilosopherAction {
    /// Nothing to send.
    Nothing,
    /// Ask both forks to be taken.
    TakeBoth,
    /// Ask the fork with this id again.
    Retake(usize),
    /// Eating has begun: deliver `StopEating` to this philosopher after this
    /// many milliseconds.
    StopAfter(u64),
    /// Put both forks back.
    ReleaseBoth,
}

/// A message to deliver to the fork with the given id.
pub type ForkSend = (usize, ForkMsg);

/// One philosopher: its id, the ids of its two forks, the half-open range in
/// milliseconds from which its eating time is drawn, and its state.
#[derive(Debug, Clone, Copy, PartialEq, Eq, Structural)]
pub struct PhilosopherActor {
    pub id: usize,
    pub left_fork: usize,
    pub right_fork: usize,
    pub eating_min: u64,
    pub eating_max: u64,
    pub state: PhilosopherState,
}

impl PhilosopherActor {
    /// The eating range is not empty, and a waiting philosopher always has a
    /// fork outstanding.
    pub open spec fn wf(self) -> bool {
        &&& self.eating_min < self.eating_max
        &&& self.state != PhilosopherState::Waiting(false, false)
    }

    /// Whether the philosopher accepts `msg` in its current state.
    pub open spec fn accepts(self, msg: PhilosopherMsg) -> bool {
        match msg {
            PhilosopherMsg::StartEating => true,
            PhilosopherMsg::StopEating => self.state == PhilosopherState::Eating,
            PhilosopherMsg::SuccessfullyTaken(f) => match self.state {
                PhilosopherState::Waiting(l, r) => (l && f == self.left_fork) || (r && f
                    == self.right_fork),
                _ => false,
            },
            PhilosopherMsg::ForkIsFree(f) => match self.state {
                PhilosopherState::Waiting(_, _) => f == self.left_fork || f == self.right_fork,
                _ => true,
            },
        }
    }

    /// The state after the fork `f` is confirmed taken while waiting with the
    /// outstanding flags `l` and `r`; `None` if `f` is not outstanding.
    pub open spec fn after_taken(self, l: bool, r: bool, f: usize) -> Option<PhilosopherState> {
        if l && f == self.left_fork {
            Some(if r { PhilosopherState::Waiting(false, true) } else { PhilosopherState::Eating })
        } else if r && f == self.right_fork {
            Some(if l { PhilosopherState::Waiting(true, false) } else { PhilosopherState::Eating })
        } else {
            None
        }
    }

    /// The philosopher after handling `msg`, and what it does, where `eat_ms`
    /// is the eating time to use should it start eating.
    pub open spec fn next(self, msg: PhilosopherMsg, eat_ms: u64) -> (PhilosopherActor, Result<PhilosopherAction, ProtocolViolation>) {
        match msg {
            PhilosopherMsg::StartEating => match self.state {
                PhilosopherState::NotEating => (
                    PhilosopherActor { state: PhilosopherState::Waiting(true, true), ..self },
                    Ok(PhilosopherAction::TakeBoth),
                ),
                _ => (self, Ok(PhilosopherAction::Nothing)),
            },
            PhilosopherMsg::StopEating => match self.state {
                PhilosopherState::Eating => (
                    PhilosopherActor { state: PhilosopherState::NotEating, ..self },
                    Ok(PhilosopherAction::ReleaseBoth),
                ),
                _ => (self, Err(ProtocolViolation)),
            },
            PhilosopherMsg::SuccessfullyTaken(f) => match self.state {
                PhilosopherState::Waiting(l, r) => match self.after_taken(l, r, f) {
                    Some(s) => (
                        PhilosopherActor { state: s, ..self },
                        Ok(
                            if s == PhilosopherState::Eating {
                                PhilosopherAction::StopAfter(eat_ms)
                            } else {
                                PhilosopherAction::Nothing
                            },
                        ),
                    ),
                    None => (self, Err(ProtocolViolation)),
                },
                _ => (self, Err(ProtocolViolation)),
            },
            PhilosopherMsg::ForkIsFree(f) => match self.state {
                PhilosopherState::Waiting(_, _) => if f == self.left_fork || f == self.right_fork {
                    (self, Ok(PhilosopherAction::Retake(f)))
                } else {
                    (self, Err(ProtocolViolation))
                },
                _ => (self, Ok(PhilosopherAction::Nothing)),
            },
        }
    }

    /// Whether handling `msg` makes the philosopher start eating.
    pub open spec fn starts_eating(self, msg: PhilosopherMsg) -> bool {
        match (self.state, msg) {
            (PhilosopherState::Waiting(l, r), PhilosopherMsg::SuccessfullyTaken(f)) => self.after_taken(l, r, f)
                == Some(PhilosopherState::Eating),
            _ => false,
        }
    }

    /// The messages to forks that `action` stands for, in sending order.
    pub open spec fn sends_of(self, action: PhilosopherAction) -> Seq<ForkSend> {
        match action {
            PhilosopherAction::TakeBoth => seq![
                (self.left_fork, ForkMsg::TryTake(self.id)),
                (self.right_fork, ForkMsg::TryTake(self.id)),
            ],
            PhilosopherAction::Retake(f) => seq![(f, ForkMsg::TryTake(self.id))],
            PhilosopherAction::ReleaseBoth => seq![
                (self.left_fork, ForkMsg::TakeOff),
                (self.right_fork, ForkMsg::TakeOff),
            ],
            _ => Seq::empty(),
        }
    }

    /// A philosopher that is not eating, with the given forks and eating range.
    pub open spec fn new_spec(id: usize, left_fork: usize, right_fork: usize, eating_min: u64, eating_max: u64) -> PhilosopherActor {
        PhilosopherActor { id, left_fork, right_fork, eating_min, eating_max, state: PhilosopherState::NotEating }
    }

    /// A philosopher that is not eating, with the given forks and eating range.
    pub fn new(id: usize, left_fork: usize, right_fork: usize, eating_min: u64, eating_max: u64) -> (r: PhilosopherActor)
        requires
            eating_min < eating_max,
        ensures
            r == PhilosopherActor::new_spec(id, left_fork, right_fork, eating_min, eating_max),
            r.wf(),
    {
        PhilosopherActor { id, left_fork, right_fork, eating_min, eating_max, state: PhilosopherState::NotEating }
    }

    /// Whether handling `msg` makes the philosopher start eating.
    pub fn will_start_eating(&self, msg: PhilosopherMsg) -> (r: bool)
        ensures
            r == self.starts_eating(msg),
    {
        match (self.state, msg) {
            (PhilosopherState::Waiting(l, r), PhilosopherMsg::SuccessfullyTaken(f)) => {
                (l && !r && f == self.left_fork) || (!l && r && f == self.right_fork)
            },
            _ => false,
        }
    }

    /// Handles one message, with `eat_ms` as the eating time should the
    /// philosopher start eating. A duplicate request to eat is ignored; a
    /// confirmation clears the matching outstanding side and, once both are
    /// clear, starts eating; a free notice while waiting asks that fork
    /// again; the end of eating puts both forks back. Any message that is not
    /// valid in the current state is a protocol violation and changes nothing.
    pub fn handle_timed(&mut self, msg: PhilosopherMsg, eat_ms: u64) -> (r: Result<PhilosopherAction, ProtocolViolation>)
        ensures
            (*final(self), r) == old(self).next(msg, eat_ms),
            r is Ok <==> old(self).accepts(msg),
            old(self).wf() ==> final(self).wf(),
    {
        match msg {
            PhilosopherMsg::StartEating => match self.state {
                PhilosopherState::NotEating => {
                    self.state = PhilosopherState::Waiting(true, true);
                    Ok(PhilosopherAction::TakeBoth)
                },
                _ => Ok(PhilosopherAction::Nothing),
            },
            PhilosopherMsg::StopEating => match self.state {
                PhilosopherState::Eating => {
                    self.state = PhilosopherState::NotEating;
                    Ok(PhilosopherAction::ReleaseBoth)
                },
                _ => Err(ProtocolViolation),
            },
            PhilosopherMsg::SuccessfullyTaken(f) => match self.state {
                PhilosopherState::Waiting(l, r) => {
                    if l && f == self.left_fork {
                        if r {
                            self.state = PhilosopherState::Waiting(false, true);
                            Ok(PhilosopherAction::Nothing)
                        } else {
                            self.state = PhilosopherState::Eating;
                            Ok(PhilosopherAction::StopAfter(eat_ms))
                        }
                    } else if r && f == self.right_fork {
                        if l {
                            self.state = PhilosopherState::Waiting(true, false);
                            Ok(PhilosopherAction::Nothing)
                        } else {
                            self.state = PhilosopherState::Eating;
                            Ok(PhilosopherAction::StopAfter(eat_ms))
                        }
                    } else {
                        Err(ProtocolViolation)
                    }
                },
                _ => Err(ProtocolViolation),
            },
            PhilosopherMsg::ForkIsFree(f) => match self.state {
                PhilosopherState::Waiting(_, _) => {
                    if f == self.left_fork || f == self.right_fork {
                        Ok(PhilosopherAction::Retake(f))
                    } else {
                        Err(ProtocolViolation)
                    }
                },
                _ => Ok(PhilosopherAction::Nothing),
            },
        }
    }

    /// Handles one message; should the philosopher start eating, its eating
    /// time is drawn at random from its eating range.
    pub fn handle(&mut self, msg: PhilosopherMsg) -> (r: Result<PhilosopherAction, ProtocolViolation>)
        requires
            old(self).eating_min < old(self).eating_max,
        ensures
            exists|d: u64|
                old(self).eating_min <= d < old(self).eating_max && (*final(self), r) == old(
                    self,
                ).next(msg, d),
            r is Ok <==> old(self).accepts(msg),
            old(self).wf() ==> final(self).wf(),
    {
        let eat_ms = if self.will_start_eating(msg) {
            draw_between(self.eating_min, self.eating_max)
        } else {
            self.eating_min
        };
        self.handle_timed(msg, eat_ms)
    }

    /// The messages to forks that `action` stands for, in sending order.
    pub fn sends(&self, action: PhilosopherAction) -> (r: Vec<ForkSend>)
        ensures
            r@ == self.sends_of(action),
    {
        match action {
            PhilosopherAction::TakeBoth => vec![
                (self.left_fork, ForkMsg::TryTake(self.id)),
                (self.right_fork, ForkMsg::TryTake(self.id)),
            ],
            PhilosopherAction::Retake(f) => vec![(f, ForkMsg::TryTake(self.id))],
            PhilosopherAction::ReleaseBoth => vec![
                (self.left_fork, ForkMsg::TakeOff),
                (self.right_fork, ForkMsg::TakeOff),
            ],
            _ => Vec::new(),
        }
    }
}

} // verus!
