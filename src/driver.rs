use vstd::arithmetic::div_mod::{lemma_mod_add_multiples_vanish, lemma_small_mod};
use vstd::prelude::*;

use crate::chance::draw_between;
use crate::fork::{ForkActor, ForkState};
use crate::philosopher::PhilosopherActor;
use crate::protocol::World;

verus! {

/// The id of the left fork of `seat` in a ring of `n` seats, forks and seats
/// both numbered from 1: the fork shared with the previous seat.
pub open spec fn left_fork_of(n: int, seat: int) -> int {
    (seat - 2) % n + 1
}

/// The left fork of seat 1 is fork `n`; that of any other seat is the fork
/// numbered one below it.
proof fn lemma_left_fork_of(n: int, seat: int)
    requires
        2 <= n,
        1 <= seat <= n,
    ensures
        left_fork_of(n, seat) == if seat == 1 {
            n
        } else {
            seat - 1
        },
{
    if seat == 1 {
        lemma_mod_add_multiples_vanish(-1, n);
        lemma_small_mod((n - 1) as nat, n as nat);
    } else {
        lemma_small_mod((seat - 2) as nat, n as nat);
    }
}

/// The ids of the left and right forks of `seat` (from 1 to `n`) in a ring of
/// `n` seats. Seat `i` shares fork `i` with seat `i + 1`, and seat `n` shares
/// fork `n` with seat 1.
pub fn seat_forks(n: usize, seat: usize) -> (r: (usize, usize))
    requires
        2 <= n,
        1 <= seat <= n,
    ensures
        r.0 == left_fork_of(n as int, seat as int),
        r.1 == seat,
        1 <= r.0 <= n,
        r.0 != r.1,
{
    proof {
        lemma_left_fork_of(n as int, seat as int);
    }
    if seat == 1 {
        (n, seat)
    } else {
        (seat - 1, seat)
    }
}

/// The forks and philosophers of a ring of `n` seats. Fork `i` and
/// philosopher `i` stand at index `i - 1`; every fork starts free and every
/// philosopher starts not eating, with the forks of its seat. This is a
/// starting state of the table's model.
pub fn set_table(n: usize, eating_min: u64, eating_max: u64) -> (r: (Vec<ForkActor>, Vec<PhilosopherActor>))
    requires
        2 <= n,
        eating_min < eating_max,
    ensures
        r.0@.len() == n,
        r.1@.len() == n,
        forall|i: int| 0 <= i < n ==> #[trigger] r.0@[i] == ForkActor::new_spec((i + 1) as usize),
        forall|i: int|
            0 <= i < n ==> #[trigger] r.1@[i] == PhilosopherActor::new_spec(
                (i + 1) as usize,
                left_fork_of(n as int, i + 1) as usize,
                (i + 1) as usize,
                eating_min,
                eating_max,
            ),
        World::seated(r.0@, r.1@).init(),
{
    let mut forks: Vec<ForkActor> = Vec::new();
    let mut phils: Vec<PhilosopherActor> = Vec::new();
    let mut i: usize = 0;
    while i < n
        invariant
            i <= n,
            forks@.len() == i,
            phils@.len() == i,
            2 <= n,
            eating_min < eating_max,
            forall|j: int| 0 <= j < i ==> #[trigger] forks@[j] == ForkActor::new_spec((j + 1) as usize),
            forall|j: int|
                0 <= j < i ==> #[trigger] phils@[j] == PhilosopherActor::new_spec(
                    (j + 1) as usize,
                    left_fork_of(n as int, j + 1) as usize,
                    (j + 1) as usize,
                    eating_min,
                    eating_max,
                ),
        decreases n - i,
    {
        let (left, right) = seat_forks(n, i + 1);
        forks.push(ForkActor::new(i + 1));
        phils.push(PhilosopherActor::new(i + 1, left, right, eating_min, eating_max));
        i = i + 1;
    }
    proof {
        let w = World::seated(forks@, phils@);
        assert forall|p: usize| #[trigger] w.phils.contains_key(p) implies {
            let ph = w.phils[p];
            &&& ph.id == p
            &&& ph.wf()
            &&& w.forks.contains_key(ph.left_fork)
            &&& w.forks.contains_key(ph.right_fork)
            &&& ph.left_fork != ph.right_fork
        } by {
            assert(phils@[p - 1] == PhilosopherActor::new_spec(
                p,
                left_fork_of(n as int, p as int) as usize,
                p,
                eating_min,
                eating_max,
            ));
            lemma_left_fork_of(n as int, p as int);
        }
        assert forall|f: usize| #[trigger] w.forks.contains_key(f) implies w.forks[f].id == f
            && w.forks[f].state == ForkState::Free && w.forks[f].ph1 is None by {
            assert(forks@[f - 1] == ForkActor::new_spec(f));
        }
    }
    (forks, phils)
}

/// Chooses the next philosopher to ask to eat, from 1 to `n`, and the pause in
/// milliseconds before asking, from the half-open range given; both at random.
pub fn next_spawn(n: usize, spawn_min: u64, spawn_max: u64) -> (r: (usize, u64))
    requires
        1 <= n,
        spawn_min < spawn_max,
    ensures
        1 <= r.0 <= n,
        spawn_min <= r.1 < spawn_max,
{
    let pause = draw_between(spawn_min, spawn_max);
    let k = draw_between(0, n as u64);
    ((k as usize) + 1, pause)
}

} // verus!
