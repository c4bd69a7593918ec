use philosophers::fork::{ForkActor, ForkMsg, ForkState, ProtocolViolation};
use philosophers::philosopher::PhilosopherMsg;

#[test]
fn new_fork_is_free_without_waiter() {
    let f = ForkActor::new(3);
    assert_eq!(f.id, 3);
    assert_eq!(f.state, ForkState::Free);
    assert_eq!(f.ph1, None);
}

#[test]
fn try_take_on_free_fork_grants_at_once() {
    let mut f = ForkActor::new(3);
    let r = f.handle(ForkMsg::TryTake(7));
    assert_eq!(r, Ok(Some((7, PhilosopherMsg::SuccessfullyTaken(3)))));
    assert_eq!(f.state, ForkState::Held);
    assert_eq!(f.ph1, None);
}

#[test]
fn try_take_on_held_fork_queues_requester() {
    let mut f = ForkActor::new(3);
    f.handle(ForkMsg::TryTake(7)).unwrap();
    let r = f.handle(ForkMsg::TryTake(8));
    assert_eq!(r, Ok(None));
    assert_eq!(f.state, ForkState::Held);
    assert_eq!(f.ph1, Some(8));
}

#[test]
fn last_requester_wins_the_waiter_slot() {
    let mut f = ForkActor::new(3);
    f.handle(ForkMsg::TryTake(7)).unwrap();
    f.handle(ForkMsg::TryTake(8)).unwrap();
    f.handle(ForkMsg::TryTake(9)).unwrap();
    assert_eq!(f.ph1, Some(9));
    let r = f.handle(ForkMsg::TakeOff);
    assert_eq!(r, Ok(Some((9, PhilosopherMsg::ForkIsFree(3)))));
}

#[test]
fn take_off_with_waiter_notifies_and_clears() {
    let mut f = ForkActor::new(2);
    f.handle(ForkMsg::TryTake(1)).unwrap();
    f.handle(ForkMsg::TryTake(2)).unwrap();
    let r = f.handle(ForkMsg::TakeOff);
    assert_eq!(r, Ok(Some((2, PhilosopherMsg::ForkIsFree(2)))));
    assert_eq!(f.state, ForkState::Free);
    assert_eq!(f.ph1, None);
}

#[test]
fn take_off_without_waiter_is_silent() {
    let mut f = ForkActor::new(2);
    f.handle(ForkMsg::TryTake(1)).unwrap();
    let r = f.handle(ForkMsg::TakeOff);
    assert_eq!(r, Ok(None));
    assert_eq!(f, ForkActor::new(2));
}

#[test]
fn take_off_on_free_fork_is_a_violation() {
    let mut f = ForkActor::new(2);
    let r = f.handle(ForkMsg::TakeOff);
    assert_eq!(r, Err(ProtocolViolation));
    assert_eq!(f, ForkActor::new(2));
}

#[test]
fn fork_labels() {
    assert_eq!(ForkState::Free.label(), "Free");
    assert_eq!(ForkState::Held.label(), "Held");
    assert_eq!(ForkMsg::TryTake(4).label(), "TryTake");
    assert_eq!(ForkMsg::TakeOff.label(), "TakeOff");
}
