use philosophers::fork::{ForkMsg, ProtocolViolation};
use philosophers::philosopher::{PhilosopherAction, PhilosopherActor, PhilosopherMsg, PhilosopherState};

fn seated() -> PhilosopherActor {
    PhilosopherActor::new(1, 5, 1, 100, 200)
}

fn with_state(state: PhilosopherState) -> PhilosopherActor {
    let mut p = seated();
    p.state = state;
    p
}

#[test]
fn new_philosopher_is_not_eating() {
    let p = seated();
    assert_eq!(p.id, 1);
    assert_eq!(p.left_fork, 5);
    assert_eq!(p.right_fork, 1);
    assert_eq!(p.eating_min, 100);
    assert_eq!(p.eating_max, 200);
    assert_eq!(p.state, PhilosopherState::NotEating);
}

#[test]
fn start_eating_asks_both_forks() {
    let mut p = seated();
    let a = p.handle(PhilosopherMsg::StartEating).unwrap();
    assert_eq!(a, PhilosopherAction::TakeBoth);
    assert_eq!(p.state, PhilosopherState::Waiting(true, true));
    assert_eq!(p.sends(a), vec![(5, ForkMsg::TryTake(1)), (1, ForkMsg::TryTake(1))]);
}

#[test]
fn start_eating_twice_sends_two_requests_in_all() {
    let mut p = seated();
    let a1 = p.handle(PhilosopherMsg::StartEating).unwrap();
    let after_first = p;
    let a2 = p.handle(PhilosopherMsg::StartEating).unwrap();
    assert_eq!(a2, PhilosopherAction::Nothing);
    assert_eq!(p, after_first);
    let mut all = p.sends(a1);
    all.extend(p.sends(a2));
    assert_eq!(all.len(), 2);
    assert!(all.iter().all(|(_, m)| *m == ForkMsg::TryTake(1)));
}

#[test]
fn start_eating_while_eating_is_ignored() {
    let mut p = with_state(PhilosopherState::Eating);
    assert_eq!(p.handle(PhilosopherMsg::StartEating), Ok(PhilosopherAction::Nothing));
    assert_eq!(p.state, PhilosopherState::Eating);
}

#[test]
fn left_then_right_confirmation_starts_eating() {
    let mut p = with_state(PhilosopherState::Waiting(true, true));
    assert_eq!(p.handle_timed(PhilosopherMsg::SuccessfullyTaken(5), 150), Ok(PhilosopherAction::Nothing));
    assert_eq!(p.state, PhilosopherState::Waiting(false, true));
    assert_eq!(p.handle_timed(PhilosopherMsg::SuccessfullyTaken(1), 150), Ok(PhilosopherAction::StopAfter(150)));
    assert_eq!(p.state, PhilosopherState::Eating);
}

#[test]
fn right_then_left_confirmation_starts_eating() {
    let mut p = with_state(PhilosopherState::Waiting(true, true));
    assert_eq!(p.handle_timed(PhilosopherMsg::SuccessfullyTaken(1), 120), Ok(PhilosopherAction::Nothing));
    assert_eq!(p.state, PhilosopherState::Waiting(true, false));
    assert_eq!(p.handle_timed(PhilosopherMsg::SuccessfullyTaken(5), 120), Ok(PhilosopherAction::StopAfter(120)));
    assert_eq!(p.state, PhilosopherState::Eating);
}

#[test]
fn drawn_eating_time_lies_in_range() {
    let mut p = with_state(PhilosopherState::Waiting(false, true));
    let a = p.handle(PhilosopherMsg::SuccessfullyTaken(1)).unwrap();
    match a {
        PhilosopherAction::StopAfter(d) => assert!((100..200).contains(&d)),
        other => panic!("expected a timer, got {:?}", other),
    }
    assert_eq!(p.state, PhilosopherState::Eating);
}

#[test]
fn confirmation_for_unknown_fork_is_a_violation() {
    let mut p = with_state(PhilosopherState::Waiting(true, true));
    assert_eq!(p.handle_timed(PhilosopherMsg::SuccessfullyTaken(9), 150), Err(ProtocolViolation));
    assert_eq!(p.state, PhilosopherState::Waiting(true, true));
}

#[test]
fn confirmation_for_already_taken_side_is_a_violation() {
    let mut p = with_state(PhilosopherState::Waiting(false, true));
    assert_eq!(p.handle_timed(PhilosopherMsg::SuccessfullyTaken(5), 150), Err(ProtocolViolation));
}

#[test]
fn confirmation_outside_waiting_is_a_violation() {
    let mut p = with_state(PhilosopherState::Eating);
    assert_eq!(p.handle_timed(PhilosopherMsg::SuccessfullyTaken(5), 150), Err(ProtocolViolation));
    let mut q = seated();
    assert_eq!(q.handle_timed(PhilosopherMsg::SuccessfullyTaken(5), 150), Err(ProtocolViolation));
}

#[test]
fn confirmation_with_nothing_outstanding_is_a_violation() {
    let mut p = with_state(PhilosopherState::Waiting(false, false));
    assert_eq!(p.handle_timed(PhilosopherMsg::SuccessfullyTaken(5), 150), Err(ProtocolViolation));
}

#[test]
fn stop_eating_releases_both_forks() {
    let mut p = with_state(PhilosopherState::Eating);
    let a = p.handle(PhilosopherMsg::StopEating).unwrap();
    assert_eq!(a, PhilosopherAction::ReleaseBoth);
    assert_eq!(p.state, PhilosopherState::NotEating);
    assert_eq!(p.sends(a), vec![(5, ForkMsg::TakeOff), (1, ForkMsg::TakeOff)]);
}

#[test]
fn stop_eating_when_not_eating_is_a_violation() {
    let mut p = seated();
    assert_eq!(p.handle(PhilosopherMsg::StopEating), Err(ProtocolViolation));
    let mut q = with_state(PhilosopherState::Waiting(true, false));
    assert_eq!(q.handle(PhilosopherMsg::StopEating), Err(ProtocolViolation));
}

#[test]
fn fork_is_free_while_waiting_asks_again() {
    let mut p = with_state(PhilosopherState::Waiting(true, false));
    let a = p.handle(PhilosopherMsg::ForkIsFree(5)).unwrap();
    assert_eq!(a, PhilosopherAction::Retake(5));
    assert_eq!(p.state, PhilosopherState::Waiting(true, false));
    assert_eq!(p.sends(a), vec![(5, ForkMsg::TryTake(1))]);
}

#[test]
fn fork_is_free_for_unknown_fork_is_a_violation() {
    let mut p = with_state(PhilosopherState::Waiting(true, true));
    assert_eq!(p.handle(PhilosopherMsg::ForkIsFree(3)), Err(ProtocolViolation));
}

#[test]
fn fork_is_free_while_eating_or_idle_is_ignored() {
    let mut p = with_state(PhilosopherState::Eating);
    assert_eq!(p.handle(PhilosopherMsg::ForkIsFree(5)), Ok(PhilosopherAction::Nothing));
    assert_eq!(p.state, PhilosopherState::Eating);
    let mut q = seated();
    assert_eq!(q.handle(PhilosopherMsg::ForkIsFree(9)), Ok(PhilosopherAction::Nothing));
    assert_eq!(q.state, PhilosopherState::NotEating);
}

#[test]
fn will_start_eating_only_on_last_confirmation() {
    let p = with_state(PhilosopherState::Waiting(true, true));
    assert!(!p.will_start_eating(PhilosopherMsg::SuccessfullyTaken(5)));
    let q = with_state(PhilosopherState::Waiting(true, false));
    assert!(q.will_start_eating(PhilosopherMsg::SuccessfullyTaken(5)));
    assert!(!q.will_start_eating(PhilosopherMsg::SuccessfullyTaken(1)));
    assert!(!seated().will_start_eating(PhilosopherMsg::StartEating));
}

#[test]
fn philosopher_labels() {
    assert_eq!(PhilosopherState::Waiting(true, false).label(), "Waiting");
    assert_eq!(PhilosopherState::Eating.label(), "Eating");
    assert_eq!(PhilosopherState::NotEating.label(), "NotEating");
    assert_eq!(PhilosopherMsg::SuccessfullyTaken(2).label(), "SuccessfullyTaken");
    assert_eq!(PhilosopherMsg::ForkIsFree(2).label(), "ForkIsFree");
    assert_eq!(PhilosopherMsg::StartEating.label(), "StartEating");
    assert_eq!(PhilosopherMsg::StopEating.label(), "StopEating");
}
