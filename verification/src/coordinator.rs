//! The coordinator's state: the cursor into the seed space, the width of a
//! batch, and the tally of what the workers have reported. Each connection
//! takes one batch from the cursor and brings back at most one result.

use crate::machine::zero_cells;
use crate::platform::now;
use vstd::prelude::*;

verus! {

/// A half-open range of seeds, `start` included and `end` not.
#[derive(Clone, Copy, Debug, PartialEq, Eq, Structural)]
pub struct WorkBatch {
    pub start: u128,
    pub end: u128,
}

/// The best program that a worker found in one batch, with its step count.
#[derive(Clone, Copy, Debug)]
pub struct WorkResult {
    pub best_program: [i8; 16],
    pub steps: u64,
}

/// What the coordinator has gathered since it started.
#[derive(Clone, Copy)]
pub struct Metrics {
    pub total_batches: u64,
    pub best_steps: u64,
    pub best_program: [i8; 16],
    pub start_time: std::time::Instant,
}

/// The coordinator: the next seed that no batch holds yet, the width of a
/// batch, and the metrics.
pub struct ServerState {
    pub current_seed: u128,
    pub batch_size: u128,
    pub metrics: Metrics,
}

/// A range of seeds as a mathematical value.
pub struct Batch {
    pub start: nat,
    pub end: nat,
}

/// A reported result as a mathematical value.
pub struct Found {
    pub best_program: Seq<i8>,
    pub steps: nat,
}

/// The metrics without the clock.
pub struct Tally {
    pub total_batches: nat,
    pub best_steps: nat,
    pub best_program: Seq<i8>,
}

/// The coordinator as a mathematical value, with no limit on its numbers.
pub struct Coordinator {
    pub cursor: nat,
    pub width: nat,
    pub tally: Tally,
}

/// What happens to a coordinator, one connection at a time.
pub enum Event {
    /// A connection was accepted and took the next batch.
    Issue,
    /// A connection came to its end: with a result, or with none where the
    /// reply was lost or could not be read.
    Reply(Option<Found>),
}

impl Batch {
    /// The seeds of the batch in increasing order.
    pub open spec fn seeds(self) -> Seq<nat> {
        Seq::new((self.end - self.start) as nat, |i: int| (self.start + i) as nat)
    }
}

impl Tally {
    pub open spec fn empty() -> Tally {
        Tally { total_batches: 0, best_steps: 0, best_program: zero_cells() }
    }

    /// One more batch is counted; the best is replaced only by a result with
    /// strictly more steps.
    pub open spec fn record(self, found: Found) -> Tally {
        if found.steps > self.best_steps {
            Tally {
                total_batches: self.total_batches + 1,
                best_steps: found.steps,
                best_program: found.best_program,
            }
        } else {
            Tally { total_batches: self.total_batches + 1, ..self }
        }
    }
}

impl Coordinator {
    /// The batch that the next connection takes.
    pub open spec fn next(self) -> Batch {
        Batch { start: self.cursor, end: self.cursor + self.width }
    }

    /// The coordinator after it has issued its next batch.
    pub open spec fn issue(self) -> Coordinator {
        Coordinator { cursor: self.cursor + self.width, ..self }
    }

    /// The coordinator after a result has come back.
    pub open spec fn record(self, found: Found) -> Coordinator {
        Coordinator { tally: self.tally.record(found), ..self }
    }

    /// The coordinator after a connection has ended. A lost reply changes
    /// nothing: its batch is not issued again.
    pub open spec fn settle(self, reply: Option<Found>) -> Coordinator {
        match reply {
            Some(found) => self.record(found),
            None => self,
        }
    }

    /// The coordinator after one event.
    pub open spec fn on(self, event: Event) -> Coordinator {
        match event {
            Event::Issue => self.issue(),
            Event::Reply(reply) => self.settle(reply),
        }
    }

    /// The coordinator after a sequence of events, first to last.
    pub open spec fn after(self, events: Seq<Event>) -> Coordinator
        decreases events.len(),
    {
        if events.len() == 0 {
            self
        } else {
            self.after(events.drop_last()).on(events.last())
        }
    }

    /// The batches issued during a sequence of events, in the order of issue.
    pub open spec fn issued(self, events: Seq<Event>) -> Seq<Batch>
        decreases events.len(),
    {
        if events.len() == 0 {
            Seq::empty()
        } else {
            let earlier = self.issued(events.drop_last());
            match events.last() {
                Event::Issue => earlier.push(self.after(events.drop_last()).next()),
                Event::Reply(_) => earlier,
            }
        }
    }
}

impl View for WorkBatch {
    type V = Batch;

    open spec fn view(&self) -> Batch {
        Batch { start: self.start as nat, end: self.end as nat }
    }
}

impl View for WorkResult {
    type V = Found;

    open spec fn view(&self) -> Found {
        Found { best_program: self.best_program@, steps: self.steps as nat }
    }
}

impl View for Metrics {
    type V = Tally;

    open spec fn view(&self) -> Tally {
        Tally {
            total_batches: self.total_batches as nat,
            best_steps: self.best_steps as nat,
            best_program: self.best_program@,
        }
    }
}

impl View for ServerState {
    type V = Coordinator;

    open spec fn view(&self) -> Coordinator {
        Coordinator {
            cursor: self.current_seed as nat,
            width: self.batch_size as nat,
            tally: self.metrics@,
        }
    }
}

/// The view of an optional result.
pub open spec fn reply_view(reply: Option<WorkResult>) -> Option<Found> {
    match reply {
        Some(result) => Some(result@),
        None => None,
    }
}

/// Whatever happens, the cursor ends where the last issued batch ends, each
/// issued batch is as wide as the coordinator says, and each starts where the
/// one before it ended.
pub proof fn lemma_batches_contiguous(c: Coordinator, events: Seq<Event>)
    ensures
        c.after(events).width == c.width,
        c.issued(events).len() == 0 ==> c.after(events).cursor == c.cursor,
        c.issued(events).len() > 0 ==> c.issued(events).first().start == c.cursor
            && c.issued(events).last().end == c.after(events).cursor,
        forall|i: int|
            0 <= i < c.issued(events).len() ==> (#[trigger] c.issued(events)[i]).end
                == c.issued(events)[i].start + c.width,
        forall|i: int|
            0 <= i < c.issued(events).len() - 1 ==> (#[trigger] c.issued(events)[i]).end
                == c.issued(events)[i + 1].start,
    decreases events.len(),
{
    if events.len() > 0 {
        lemma_batches_contiguous(c, events.drop_last());
    }
}

/// The best step count never goes down: after more events it is at least
/// what it was after fewer.
pub proof fn lemma_best_steps_monotone(c: Coordinator, events: Seq<Event>, earlier: int)
    requires
        0 <= earlier <= events.len(),
    ensures
        c.after(events.take(earlier)).tally.best_steps <= c.after(events).tally.best_steps,
    decreases events.len(),
{
    if earlier == events.len() {
        assert(events.take(earlier) =~= events);
    } else {
        lemma_best_steps_monotone(c, events.drop_last(), earlier);
        assert(events.drop_last().take(earlier) =~= events.take(earlier));
    }
}

impl Default for Metrics {
    /// Nothing gathered yet; the clock starts now.
    fn default() -> (m: Self)
        ensures
            m@ == Tally::empty(),
    {
        let m = Metrics {
            total_batches: 0,
            best_steps: 0,
            best_program: [0;16],
            start_time: now(),
        };
        assert(m.best_program@ =~= zero_cells());
        m
    }
}

impl Metrics {
    /// Counts one batch and keeps the result if it has strictly more steps
    /// than the best so far.
    pub fn record(&mut self, result: &WorkResult)
        requires
            old(self).total_batches < u64::MAX,
        ensures
            final(self)@ == old(self)@.record(result@),
            final(self).best_steps >= old(self).best_steps,
            final(self).start_time == old(self).start_time,
    {
        self.total_batches += 1;
        if result.steps > self.best_steps {
            self.best_steps = result.steps;
            self.best_program = result.best_program;
        }
    }
}

impl WorkBatch {
    /// The batch holds at least one seed.
    pub open spec fn wf(&self) -> bool {
        self.start < self.end
    }
}

impl ServerState {
    /// A batch of width zero would hold no seed.
    pub open spec fn wf(&self) -> bool {
        self.batch_size > 0
    }

    /// A coordinator that starts at `current_seed` and deals out batches of
    /// `batch_size` seeds.
    pub fn new(current_seed: u128, batch_size: u128) -> (state: Self)
        ensures
            state@ == (Coordinator {
                cursor: current_seed as nat,
                width: batch_size as nat,
                tally: Tally::empty(),
            }),
    {
        ServerState { current_seed, batch_size, metrics: Metrics::default() }
    }

    /// Takes the next batch from the cursor and moves the cursor behind it.
    /// Where the batch would reach beyond the largest seed, nothing is issued
    /// and nothing changes.
    pub fn next_batch(&mut self) -> (issued: Option<WorkBatch>)
        ensures
            issued is Some <==> old(self)@.cursor + old(self)@.width <= u128::MAX,
            issued is Some ==> issued->0@ == old(self)@.next() && final(self)@ == old(
                self,
            )@.issue(),
            issued is Some ==> issued->0.start == old(self).current_seed && issued->0.end
                == final(self).current_seed,
            issued is None ==> final(self)@ == old(self)@,
            final(self).metrics == old(self).metrics,
            old(self).wf() && issued is Some ==> issued->0.wf(),
    {
        match self.current_seed.checked_add(self.batch_size) {
            Some(end) => {
                let batch = WorkBatch { start: self.current_seed, end };
                self.current_seed = end;
                Some(batch)
            },
            None => None,
        }
    }

    /// Takes in the result of one batch.
    pub fn record_result(&mut self, result: &WorkResult)
        requires
            old(self).metrics.total_batches < u64::MAX,
        ensures
            final(self)@ == old(self)@.record(result@),
            final(self).metrics.best_steps >= old(self).metrics.best_steps,
            final(self).metrics.start_time == old(self).metrics.start_time,
    {
        self.metrics.record(result);
    }

    /// Ends a connection: a result that came back is taken in, a lost reply
    /// leaves the state as it is.
    pub fn finish_connection(&mut self, reply: Option<WorkResult>)
        requires
            reply is Some ==> old(self).metrics.total_batches < u64::MAX,
        ensures
            final(self)@ == old(self)@.settle(reply_view(reply)),
            final(self).metrics.best_steps >= old(self).metrics.best_steps,
            final(self).metrics.start_time == old(self).metrics.start_time,
    {
        match reply {
            Some(result) => {
                self.record_result(&result);
            },
            None => {},
        }
    }

    /// The metrics as they stand.
    pub fn snapshot(&self) -> (m: Metrics)
        ensures
            m == self.metrics,
    {
        self.metrics
    }
}

} // verus!
