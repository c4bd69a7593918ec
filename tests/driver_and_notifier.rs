use philosophers::driver::{next_spawn, seat_forks, set_table};
use philosophers::fork::ForkActor;
use philosophers::notifier::{NotifierAction, NotifierActor, NotifierMsg};
use philosophers::philosopher::{PhilosopherActor, PhilosopherMsg};

#[test]
fn seats_share_forks_in_a_ring() {
    assert_eq!(seat_forks(5, 1), (5, 1));
    assert_eq!(seat_forks(5, 2), (1, 2));
    assert_eq!(seat_forks(5, 5), (4, 5));
    assert_eq!(seat_forks(2, 1), (2, 1));
    assert_eq!(seat_forks(2, 2), (1, 2));
}

#[test]
fn table_of_five() {
    let (forks, phils) = set_table(5, 1000, 5000);
    assert_eq!(forks.len(), 5);
    assert_eq!(phils.len(), 5);
    for i in 0..5 {
        assert_eq!(forks[i], ForkActor::new(i + 1));
    }
    assert_eq!(phils[0], PhilosopherActor::new(1, 5, 1, 1000, 5000));
    assert_eq!(phils[3], PhilosopherActor::new(4, 3, 4, 1000, 5000));
    for i in 0..5 {
        let next = (i + 1) % 5;
        assert_eq!(phils[i].right_fork, phils[next].left_fork);
    }
}

#[test]
fn next_spawn_stays_in_range() {
    for _ in 0..200 {
        let (p, pause) = next_spawn(5, 500, 1500);
        assert!((1..=5).contains(&p));
        assert!((500..1500).contains(&pause));
    }
}

#[test]
fn next_spawn_draws_more_than_the_bounds() {
    let mut seats = std::collections::BTreeSet::new();
    let mut pauses = std::collections::BTreeSet::new();
    for _ in 0..200 {
        let (p, pause) = next_spawn(5, 0, 1000);
        seats.insert(p);
        pauses.insert(pause);
    }
    assert!(seats.len() > 1);
    assert!(pauses.len() > 1);
}

#[test]
fn narrow_range_gives_its_only_value() {
    assert_eq!(next_spawn(1, 7, 8), (1, 7));
}

#[test]
fn notifier_delays_then_stops() {
    let mut n = NotifierActor::new();
    let a = n.handle(NotifierMsg::NotifyAfter(3, 250));
    assert_eq!(a, NotifierAction::Later(NotifierMsg::Notify(3), 250));
    let b = n.handle(NotifierMsg::Notify(3));
    assert_eq!(b, NotifierAction::Send(3, PhilosopherMsg::StopEating));
}
