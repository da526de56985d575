//! The worker's share: it walks a batch chunk by chunk, runs the program of
//! every seed, and keeps the first program that ran longest.

use crate::coordinator::{Batch, Found, WorkBatch, WorkResult};
use crate::encoding::{program_from_seed, spec_program};
use crate::machine::{zero_cells, Machine, QT4004};
use crate::run::{spec_run, spec_steps};
use vstd::prelude::*;

verus! {

/// Where the chunk that starts at `current` ends: `width` seeds on, or at the
/// end of the batch if that comes first.
pub open spec fn spec_chunk_end(current: nat, end: nat, width: nat) -> nat {
    if current + width < end {
        current + width
    } else {
        end
    }
}

/// The chunks that the seeds from `start` up to `end` are walked in.
pub open spec fn spec_chunks(start: nat, end: nat, width: nat) -> Seq<Batch>
    decreases end - start,
{
    if start >= end || width == 0 {
        Seq::empty()
    } else {
        let stop = spec_chunk_end(start, end, width);
        seq![Batch { start, end: stop }] + spec_chunks(stop, end, width)
    }
}

/// The seeds of a sequence of chunks, chunk after chunk.
pub open spec fn spec_chunk_seeds(chunks: Seq<Batch>) -> Seq<nat>
    decreases chunks.len(),
{
    if chunks.len() == 0 {
        Seq::empty()
    } else {
        chunks.first().seeds() + spec_chunk_seeds(chunks.drop_first())
    }
}

/// The better of the best so far and a candidate: the candidate only where
/// it has strictly more steps.
pub open spec fn spec_better(best: Found, candidate: Found) -> Found {
    if candidate.steps > best.steps {
        candidate
    } else {
        best
    }
}

/// What running one seed yields.
pub open spec fn spec_trial(seed: nat) -> Found {
    Found { best_program: spec_program(seed), steps: spec_steps(spec_program(seed)) }
}

/// The best among the seeds from `start` up to `end`, taken in increasing
/// order: the first seed with the most steps, or the zero program with no
/// steps where no seed runs for a step.
pub open spec fn spec_best(start: nat, end: nat) -> Found
    decreases end - start,
{
    if end <= start {
        Found { best_program: zero_cells(), steps: 0 }
    } else {
        spec_better(spec_best(start, (end - 1) as nat), spec_trial((end - 1) as nat))
    }
}

/// Walked chunk by chunk, a batch yields each of its seeds exactly once, in
/// increasing order.
pub proof fn lemma_chunks_cover(start: nat, end: nat, width: nat)
    requires
        width > 0,
    ensures
        spec_chunk_seeds(spec_chunks(start, end, width)) == (Batch {
            start,
            end: if start <= end {
                end
            } else {
                start
            },
        }).seeds(),
    decreases end - start,
{
    let chunks = spec_chunks(start, end, width);
    if start >= end {
        assert(spec_chunk_seeds(chunks) =~= (Batch { start, end: start }).seeds());
    } else {
        let stop = spec_chunk_end(start, end, width);
        let rest = spec_chunks(stop, end, width);
        lemma_chunks_cover(stop, end, width);
        assert(chunks.drop_first() =~= rest);
        assert(chunks.first() == Batch { start, end: stop });
        assert((Batch { start, end: stop }).seeds() + (Batch { start: stop, end }).seeds()
            =~= (Batch { start, end }).seeds());
    }
}

/// The chunks of a batch lie end to start, none is empty and none is wider
/// than `width`.
pub proof fn lemma_chunks_adjacent(start: nat, end: nat, width: nat)
    requires
        width > 0,
    ensures
        forall|i: int|
            0 <= i < spec_chunks(start, end, width).len() ==> {
                let c = #[trigger] spec_chunks(start, end, width)[i];
                c.start < c.end <= c.start + width && start <= c.start && c.end <= end
            },
        forall|i: int|
            0 <= i < spec_chunks(start, end, width).len() - 1 ==> (#[trigger] spec_chunks(
                start,
                end,
                width,
            )[i]).end == spec_chunks(start, end, width)[i + 1].start,
        start < end ==> spec_chunks(start, end, width).len() > 0 && spec_chunks(
            start,
            end,
            width,
        ).first().start == start && spec_chunks(start, end, width).last().end == end,
    decreases end - start,
{
    if start < end {
        let stop = spec_chunk_end(start, end, width);
        lemma_chunks_adjacent(stop, end, width);
        let chunks = spec_chunks(start, end, width);
        let rest = spec_chunks(stop, end, width);
        assert forall|i: int| 0 <= i < chunks.len() implies {
            let c = #[trigger] chunks[i];
            c.start < c.end <= c.start + width && start <= c.start && c.end <= end
        } by {
            if i > 0 {
                assert(chunks[i] == rest[i - 1]);
            }
        }
        assert forall|i: int| 0 <= i < chunks.len() - 1 implies (#[trigger] chunks[i]).end
            == chunks[i + 1].start by {
            assert(chunks[i + 1] == rest[i]);
            if i > 0 {
                assert(chunks[i] == rest[i - 1]);
            }
        }
        if rest.len() > 0 {
            assert(chunks.last() == rest.last());
        }
    }
}

/// The best of a range has at least as many steps as every seed of the
/// range. Where it has any, it is the trial of the first seed with that many
/// steps; where it has none, it is the zero program.
pub proof fn lemma_best_is_first_longest(start: nat, end: nat)
    ensures
        forall|s: nat|
            start <= s < end ==> (#[trigger] spec_trial(s)).steps <= spec_best(
                start,
                end,
            ).steps,
        spec_best(start, end).steps > 0 ==> exists|s: nat|
            start <= s < end && spec_best(start, end) == #[trigger] spec_trial(s)
                && forall|t: nat|
                start <= t < s ==> (#[trigger] spec_trial(t)).steps < spec_trial(s).steps,
        spec_best(start, end).steps == 0 ==> spec_best(start, end).best_program
            == zero_cells(),
    decreases end - start,
{
    if end > start {
        let last = (end - 1) as nat;
        let earlier = spec_best(start, last);
        lemma_best_is_first_longest(start, last);
        if spec_trial(last).steps > earlier.steps {
            assert(spec_best(start, end) == spec_trial(last));
        } else if earlier.steps > 0 {
            let s = choose|s: nat|
                start <= s < last && earlier == #[trigger] spec_trial(s) && forall|t: nat|
                    start <= t < s ==> (#[trigger] spec_trial(t)).steps < spec_trial(s).steps;
            assert(start <= s < end && spec_best(start, end) == spec_trial(s));
        }
    }
}

impl WorkBatch {
    /// The first chunk of the batch: its first `width` seeds, or all of them
    /// if they are fewer.
    pub fn first_chunk(&self, width: u128) -> (chunk: WorkBatch)
        ensures
            chunk@.start == self@.start,
            chunk@.end == spec_chunk_end(self@.start, self@.end, width as nat),
    {
        if self.start >= self.end || self.end - self.start <= width {
            WorkBatch { start: self.start, end: self.end }
        } else {
            WorkBatch { start: self.start, end: self.start + width }
        }
    }
}

/// Runs the program of `seed` on `processor` and returns its step count: 0
/// where the run was cut short as cyclic.
pub fn run_seed(processor: &mut QT4004, seed: u128) -> (trial: WorkResult)
    ensures
        trial@ == spec_trial(seed as nat),
        final(processor)@ == spec_run(Machine::loaded(spec_program(seed as nat))).end,
        final(processor)@.wf(),
{
    let program = program_from_seed(seed);
    processor.load(program);
    let steps = processor.run();
    WorkResult { best_program: program, steps }
}

/// Runs every seed of `batch` in increasing order, in chunks of
/// `sub_batch_size` seeds, and returns the best: the program that ran for
/// the most steps, the first such if there are several. Where no program
/// runs for a step, and for an empty batch, that is the zero program with no
/// steps.
pub fn search_batch(processor: &mut QT4004, batch: &WorkBatch, sub_batch_size: u128) -> (best:
    WorkResult)
    requires
        sub_batch_size > 0 || batch.start >= batch.end,
    ensures
        best@ == spec_best(batch@.start, batch@.end),
        batch@.start < batch@.end ==> final(processor)@ == spec_run(
            Machine::loaded(spec_program((batch@.end - 1) as nat)),
        ).end,
        batch@.start >= batch@.end ==> final(processor)@ == old(processor)@,
        batch@.start < batch@.end || old(processor)@.wf() ==> final(processor)@.wf(),
{
    let mut best = WorkResult { best_program: [0;16], steps: 0 };
    assert(best.best_program@ =~= zero_cells());
    let mut current: u128 = batch.start;
    while current < batch.end
        invariant
            sub_batch_size > 0 || batch.start >= batch.end,
            batch.start <= current <= batch.end || (current == batch.start && batch.start
                > batch.end),
            best@ == spec_best(batch@.start, current as nat),
            current > batch.start ==> processor@ == spec_run(
                Machine::loaded(spec_program((current - 1) as nat)),
            ).end,
            current == batch.start ==> processor@ == old(processor)@,
            current > batch.start ==> processor@.wf(),
        decreases batch.end - current,
    {
        let chunk = (WorkBatch { start: current, end: batch.end }).first_chunk(sub_batch_size);
        let mut seed: u128 = chunk.start;
        while seed < chunk.end
            invariant
                batch.start <= chunk.start <= seed <= chunk.end <= batch.end,
                best@ == spec_best(batch@.start, seed as nat),
                seed > batch.start ==> processor@ == spec_run(
                    Machine::loaded(spec_program((seed - 1) as nat)),
                ).end,
                seed == batch.start ==> processor@ == old(processor)@,
                seed > batch.start ==> processor@.wf(),
            decreases chunk.end - seed,
        {
            let trial = run_seed(processor, seed);
            if trial.steps > best.steps {
                best = trial;
            }
            seed += 1;
        }
        current = chunk.end;
    }
    best
}

} // verus!
