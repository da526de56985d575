//! Running a machine to its end. A run stops when the machine halts, when its
//! pointer leaves the memory, or when a state comes back that the run has
//! been in before; since only finitely many states exist, every run stops.

use crate::machine::{lemma_step_wf, Machine, Snapshot, QT4004};
use crate::snapshot::{
    lemma_key_bound, lemma_key_injective, lemma_visit, unvisited, visited_ok, STATE_LIMIT,
};
use std::collections::HashSet;
use vstd::prelude::*;

verus! {

/// How a run ended.
pub struct Run {
    /// The machine as the run left it.
    pub end: Machine,
    /// The run was cut short because a state came back.
    pub cyclic: bool,
}

impl Run {
    /// The step count that is reported for the run: none for a cyclic one.
    pub open spec fn reported(self) -> nat {
        if self.cyclic {
            0
        } else {
            self.end.steps
        }
    }
}

/// The run of `m` when the states in `seen` have been visited already. While
/// the machine is live it takes a step; a state that was visited before ends
/// the run as cyclic, any other state is remembered.
pub open spec fn run_from(m: Machine, seen: Set<Snapshot>) -> Run
    decreases unvisited(seen),
    when m.wf() && visited_ok(seen)
    via run_from_decreases
{
    if !m.live() {
        Run { end: m, cyclic: false }
    } else {
        let next = m.step();
        if seen.contains(next.snapshot()) {
            Run { end: next, cyclic: true }
        } else {
            run_from(next, seen.insert(next.snapshot()))
        }
    }
}

#[via_fn]
proof fn run_from_decreases(m: Machine, seen: Set<Snapshot>) {
    if m.live() {
        let next = m.step();
        if !seen.contains(next.snapshot()) {
            lemma_step_wf(m);
            lemma_visit(seen, next.snapshot());
        }
    }
}

/// The number of steps that the run of `m` takes when the states in `seen`
/// have been visited already.
pub open spec fn run_length(m: Machine, seen: Set<Snapshot>) -> nat
    decreases unvisited(seen),
    when m.wf() && visited_ok(seen)
    via run_length_decreases
{
    if !m.live() {
        0
    } else {
        let next = m.step();
        if seen.contains(next.snapshot()) {
            1
        } else {
            1 + run_length(next, seen.insert(next.snapshot()))
        }
    }
}

#[via_fn]
proof fn run_length_decreases(m: Machine, seen: Set<Snapshot>) {
    if m.live() {
        let next = m.step();
        if !seen.contains(next.snapshot()) {
            lemma_step_wf(m);
            lemma_visit(seen, next.snapshot());
        }
    }
}

/// The run of `m` from a clean slate. The state that the run starts in is
/// not among the visited ones.
pub open spec fn spec_run(m: Machine) -> Run {
    run_from(m, Set::empty())
}

/// The step count reported for `program` run on a freshly loaded machine.
pub open spec fn spec_steps(program: Seq<i8>) -> nat {
    spec_run(Machine::loaded(program)).reported()
}

/// A run leaves a well-formed machine well-formed, and it ends only where
/// the machine has stopped or a state has come back.
pub proof fn lemma_run_end(m: Machine, seen: Set<Snapshot>)
    requires
        m.wf(),
        visited_ok(seen),
    ensures
        run_from(m, seen).end.wf(),
        !run_from(m, seen).cyclic ==> !run_from(m, seen).end.live(),
    decreases unvisited(seen),
{
    if m.live() {
        let next = m.step();
        lemma_step_wf(m);
        if !seen.contains(next.snapshot()) {
            lemma_visit(seen, next.snapshot());
            lemma_run_end(next, seen.insert(next.snapshot()));
        }
    }
}

/// Every run ends: it takes at most one step more than there are states
/// left to visit, and its counter has gone up by the steps taken, modulo
/// `2^64`.
pub proof fn lemma_run_bounded(m: Machine, seen: Set<Snapshot>)
    requires
        m.wf(),
        visited_ok(seen),
    ensures
        run_length(m, seen) <= unvisited(seen) + 1,
        run_length(m, seen) <= STATE_LIMIT + 1,
        run_from(m, seen).end.steps == (m.steps + run_length(m, seen)) % 0x1_0000_0000_0000_0000,
    decreases unvisited(seen),
{
    if m.live() {
        let next = m.step();
        lemma_step_wf(m);
        if !seen.contains(next.snapshot()) {
            lemma_visit(seen, next.snapshot());
            lemma_run_bounded(next, seen.insert(next.snapshot()));
        }
    }
}

impl QT4004 {
    /// Runs the machine from its present state until it halts, its pointer
    /// leaves the memory, or a state repeats. Returns the step counter, or 0
    /// for a run that was cut short as cyclic.
    pub fn run(&mut self) -> (reported: u64)
        requires
            old(self)@.wf(),
        ensures
            final(self)@ == spec_run(old(self)@).end,
            reported == spec_run(old(self)@).reported(),
            final(self)@.wf(),
    {
        let mut states: HashSet<u128> = HashSet::new();
        let ghost mut seen: Set<Snapshot> = Set::empty();
        while self.running && self.ip < 16
            invariant
                self@.wf(),
                visited_ok(seen),
                forall|s: Snapshot|
                    s.valid() ==> (seen.contains(s) <==> states@.contains(s.key() as u128)),
                spec_run(old(self)@) == run_from(self@, seen),
            decreases unvisited(seen),
        {
            let ghost before = self@;
            self.fetch();
            self.ip += 1;
            self.execute();
            let key = self.state_key();
            let ghost now = self@.snapshot();
            proof {
                lemma_step_wf(before);
                assert(self@ == before.step());
            }
            if states.contains(&key) {
                proof {
                    assert(now.valid());
                    assert(seen.contains(now));
                }
                return 0;
            }
            proof {
                assert(now.valid());
                assert(!seen.contains(now));
            }
            states.insert(key);
            proof {
                lemma_visit(seen, now);
                assert forall|s: Snapshot| s.valid() implies (seen.insert(now).contains(s)
                    <==> states@.contains(s.key() as u128)) by {
                    lemma_key_bound(s);
                    lemma_key_bound(now);
                    if s.key() == now.key() {
                        lemma_key_injective(s, now);
                    }
                }
                seen = seen.insert(now);
            }
        }
        self.steps
    }
}

} // verus!
