//! Metrics of query runs: how many queries and evaluations ran, and how long
//! they took.
use vstd::prelude::*;
use crate::event::AtomicDuration;
use crate::event::Event;
use crate::event::Handler;
use crate::event::Record;
use crate::event::ScopedEvent;
use crate::event::ScopedEventKind;
use crate::event::add_wrapping;
use crate::event::duration_nanos;
use crate::event::instant_elapsed;
use crate::event::elapsed_added;
use crate::event::lemma_elapsed_added;
use crate::event::instant_now;
use crate::event::saturated_nanos;
use crate::event::time_added;
use crate::event::wrap_add;
use crate::event::wrap_add_u64;
use crate::query::Query;
use core::time::Duration;
use std::time::Instant;

verus! {

/// Told when a query starts and ends, and when an evaluation starts and
/// ends; the guard returned at the start is handed back at the end.
pub trait Metrics {
    type QueryGuard;

    type EvalGuard;

    fn enter_query<Q: Query>(&mut self, args: &Q::Args) -> Self::QueryGuard;

    fn exit_query<Q: Query>(&mut self, guard: Self::QueryGuard, args: &Q::Args, out: &Q::Out);

    fn enter_eval<Q: Query>(&mut self, args: &Q::Args) -> Self::EvalGuard;

    fn exit_eval<Q: Query>(&mut self, guard: Self::EvalGuard, args: &Q::Args, out: &Q::Out);
}

/// The counters of a [`PerfMetrics`].
#[derive(Clone, Copy, Debug, PartialEq, Eq, Structural)]
pub struct MetricCounts {
    pub query_ns: u64,
    pub eval_ns: u64,
    pub query_count: usize,
    pub eval_count: usize,
}

/// `after` is `before` with the time of a query span added.
pub open spec fn query_time_added(before: MetricCounts, after: MetricCounts) -> bool {
    after == (MetricCounts { query_ns: after.query_ns, ..before }) && time_added(before.query_ns, after.query_ns)
}

/// `after` is `before` with the time of an evaluation span added.
pub open spec fn eval_time_added(before: MetricCounts, after: MetricCounts) -> bool {
    after == (MetricCounts { eval_ns: after.eval_ns, ..before }) && time_added(before.eval_ns, after.eval_ns)
}

/// Counts queries and evaluations and measures the time spent in them.
#[derive(Debug)]
pub struct PerfMetrics {
    query_time: AtomicDuration,
    eval_time: AtomicDuration,
    query_count: usize,
    eval_count: usize,
}

impl View for PerfMetrics {
    type V = MetricCounts;

    closed spec fn view(&self) -> MetricCounts {
        MetricCounts {
            query_ns: self.query_time.nanos(),
            eval_ns: self.eval_time.nanos(),
            query_count: self.query_count,
            eval_count: self.eval_count,
        }
    }
}

impl Default for PerfMetrics {
    fn default() -> (r: Self)
        ensures
            r@ == (MetricCounts { query_ns: 0, eval_ns: 0, query_count: 0, eval_count: 0 }),
    {
        PerfMetrics {
            query_time: AtomicDuration::new(),
            eval_time: AtomicDuration::new(),
            query_count: 0,
            eval_count: 0,
        }
    }
}

impl Metrics for PerfMetrics {
    type QueryGuard = Instant;

    type EvalGuard = Instant;

    fn enter_query<Q: Query>(&mut self, args: &Q::Args) -> (r: Instant)
        ensures
            final(self)@ == (MetricCounts { query_count: wrap_add(old(self)@.query_count, 1), ..old(self)@ }),
    {
        self.enter_query_any();
        instant_now()
    }

    fn exit_query<Q: Query>(&mut self, guard: Instant, args: &Q::Args, out: &Q::Out)
        ensures
            query_time_added(old(self)@, final(self)@),
            elapsed_added(old(self)@.query_ns, final(self)@.query_ns, guard),
    {
        self.exit_query_any(guard);
    }

    fn enter_eval<Q: Query>(&mut self, args: &Q::Args) -> (r: Instant)
        ensures
            final(self)@ == (MetricCounts { eval_count: wrap_add(old(self)@.eval_count, 1), ..old(self)@ }),
    {
        self.enter_eval_any();
        instant_now()
    }

    fn exit_eval<Q: Query>(&mut self, guard: Instant, args: &Q::Args, out: &Q::Out)
        ensures
            eval_time_added(old(self)@, final(self)@),
            elapsed_added(old(self)@.eval_ns, final(self)@.eval_ns, guard),
    {
        self.exit_eval_any(guard);
    }
}

/// As a database handler, a `PerfMetrics` counts query and evaluation scopes
/// and ignores point events.
impl Handler for PerfMetrics {
    type Payload = (ScopedEventKind, Instant);

    open spec fn keeps_records() -> bool {
        false
    }

    open spec fn records(&self) -> Seq<Record> {
        Seq::empty()
    }

    open spec fn inv(&self) -> bool {
        true
    }

    fn event(&mut self, event: Event)
        ensures
            final(self)@ == old(self)@,
    {
    }

    fn enter_scope(&mut self, event: ScopedEvent) -> (r: Self::Payload)
        ensures
            event.kind == ScopedEventKind::Query ==> final(self)@ == (MetricCounts {
                query_count: wrap_add(old(self)@.query_count, 1),
                ..old(self)@
            }),
            event.kind == ScopedEventKind::Eval ==> final(self)@ == (MetricCounts {
                eval_count: wrap_add(old(self)@.eval_count, 1),
                ..old(self)@
            }),
            r.0 == event.kind,
    {
        match event.kind {
            ScopedEventKind::Query => self.enter_query_any(),
            ScopedEventKind::Eval => self.enter_eval_any(),
        }
        (event.kind, instant_now())
    }

    fn exit_scope(&mut self, payload: Self::Payload)
        ensures
            payload.0 == ScopedEventKind::Query ==> query_time_added(old(self)@, final(self)@),
            payload.0 == ScopedEventKind::Eval ==> eval_time_added(old(self)@, final(self)@),
            payload.0 == ScopedEventKind::Query ==> elapsed_added(old(self)@.query_ns, final(self)@.query_ns, payload.1),
            payload.0 == ScopedEventKind::Eval ==> elapsed_added(old(self)@.eval_ns, final(self)@.eval_ns, payload.1),
    {
        let (kind, start) = payload;
        match kind {
            ScopedEventKind::Query => self.exit_query_any(start),
            ScopedEventKind::Eval => self.exit_eval_any(start),
        }
    }
}

impl PerfMetrics {
    /// Reset runtime metrics.
    ///
    /// This function will reset counts and durations, but not global values,
    /// like number of memos allocated.
    pub fn reset(&mut self)
        ensures
            final(self)@ == (MetricCounts { query_ns: 0, eval_ns: 0, query_count: 0, eval_count: 0 }),
    {
        self.query_time.reset();
        self.eval_time.reset();
        self.query_count = 0;
        self.eval_count = 0;
    }

    pub fn query_time(&self) -> (r: Duration)
        ensures
            duration_nanos(r) == self@.query_ns,
    {
        self.query_time.duration()
    }

    pub fn eval_time(&self) -> (r: Duration)
        ensures
            duration_nanos(r) == self@.eval_ns,
    {
        self.eval_time.duration()
    }

    pub fn query_count(&self) -> (r: usize)
        ensures
            r == self@.query_count,
    {
        self.query_count
    }

    pub fn eval_count(&self) -> (r: usize)
        ensures
            r == self@.eval_count,
    {
        self.eval_count
    }

    fn enter_query_any(&mut self)
        ensures
            final(self)@ == (MetricCounts { query_count: wrap_add(old(self)@.query_count, 1), ..old(self)@ }),
    {
        self.query_count = add_wrapping(self.query_count, 1);
    }

    fn exit_query_any(&mut self, entered_at: Instant)
        ensures
            query_time_added(old(self)@, final(self)@),
            elapsed_added(old(self)@.query_ns, final(self)@.query_ns, entered_at),
    {
        let elapsed_since = instant_elapsed;
        let elapsed = elapsed_since(&entered_at);
        proof {
            lemma_elapsed_added(self@.query_ns, entered_at, elapsed);
        }
        self.query_time.add(elapsed);
        assert(final(self)@ == (MetricCounts {
            query_ns: wrap_add_u64(old(self)@.query_ns, saturated_nanos(duration_nanos(elapsed))),
            ..old(self)@
        }));
    }

    fn enter_eval_any(&mut self)
        ensures
            final(self)@ == (MetricCounts { eval_count: wrap_add(old(self)@.eval_count, 1), ..old(self)@ }),
    {
        self.eval_count = add_wrapping(self.eval_count, 1);
    }

    fn exit_eval_any(&mut self, entered_at: Instant)
        ensures
            eval_time_added(old(self)@, final(self)@),
            elapsed_added(old(self)@.eval_ns, final(self)@.eval_ns, entered_at),
    {
        let elapsed_since = instant_elapsed;
        let elapsed = elapsed_since(&entered_at);
        proof {
            lemma_elapsed_added(self@.eval_ns, entered_at, elapsed);
        }
        self.eval_time.add(elapsed);
        assert(final(self)@ == (MetricCounts {
            eval_ns: wrap_add_u64(old(self)@.eval_ns, saturated_nanos(duration_nanos(elapsed))),
            ..old(self)@
        }));
    }
}

/// The metrics that record nothing.
impl Metrics for () {
    type QueryGuard = ();

    type EvalGuard = ();

    fn enter_query<Q: Query>(&mut self, args: &Q::Args) {
    }

    fn exit_query<Q: Query>(&mut self, guard: (), args: &Q::Args, out: &Q::Out) {
    }

    fn enter_eval<Q: Query>(&mut self, args: &Q::Args) {
    }

    fn exit_eval<Q: Query>(&mut self, guard: (), args: &Q::Args, out: &Q::Out) {
    }
}

} // verus!
