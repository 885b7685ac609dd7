//! Events emitted by the database, and handlers that record them.
use vstd::prelude::*;
use core::time::Duration;
use std::time::Instant;

verus! {

/// Receives the events a database emits while it registers queries, stores
/// values, creates memos and runs queries.
pub trait Handler: Default + Sized {
    /// Value carried from the start of a scoped event to its end.
    type Payload;

    /// Whether this handler keeps a record of what it is told.
    spec fn keeps_records() -> bool;

    /// What this handler was told so far, one entry per call, if it keeps a
    /// record.
    spec fn records(&self) -> Seq<Record>;

    /// The handler's own state agrees with what it was told.
    spec fn inv(&self) -> bool;

    fn event(&mut self, event: Event)
        ensures
            Self::keeps_records() ==> final(self).records() == old(self).records().push(Record::Point(event.kind)),
            old(self).inv() ==> final(self).inv(),
    ;

    fn enter_scope(&mut self, event: ScopedEvent) -> (r: Self::Payload)
        ensures
            Self::keeps_records() ==> final(self).records() == old(self).records().push(Record::Enter(event.kind)),
            old(self).inv() ==> final(self).inv(),
    ;

    fn exit_scope(&mut self, payload: Self::Payload)
        ensures
            Self::keeps_records() ==> final(self).records() == old(self).records().push(Record::Exit),
            old(self).inv() ==> final(self).inv(),
    ;
}

/// One call of a [`Handler`]: a point event, or the start or end of a scope;
/// or a reset of the handler's counters.
#[derive(Clone, Copy, Debug, PartialEq, Eq, Structural)]
pub enum Record {
    Point(EventKind),
    Enter(ScopedEventKind),
    Exit,
    Reset,
}

/// `after` is `before` with `record` added when `happened` holds, and is
/// `before` otherwise.
pub open spec fn recorded_if(before: Seq<Record>, after: Seq<Record>, happened: bool, record: Record) -> bool {
    after == if happened {
        before.push(record)
    } else {
        before
    }
}

/// A point event.
#[derive(Clone, Copy, Debug)]
pub struct Event {
    pub kind: EventKind,
}

#[derive(Clone, Copy, Debug, PartialEq, Eq, Structural)]
pub enum EventKind {
    RegisterQueryOps,
    DeregisterQueryOps,
    StoreValue,
    FreeValues(usize),
    RegisterMemo,
    DeregisterMemo,
}

/// An event that spans a period of time: a query call or an evaluation.
#[derive(Clone, Copy, Debug)]
pub struct ScopedEvent {
    pub kind: ScopedEventKind,
}

#[derive(Clone, Copy, Debug, PartialEq, Eq, Structural)]
pub enum ScopedEventKind {
    Query,
    Eval,
}

impl Event {
    pub fn new(kind: EventKind) -> (r: Self)
        ensures
            r.kind == kind,
    {
        Event { kind }
    }
}

impl ScopedEvent {
    pub fn new(kind: ScopedEventKind) -> (r: Self)
        ensures
            r.kind == kind,
    {
        ScopedEvent { kind }
    }
}

#[verifier::external_type_specification]
#[verifier::external_body]
pub struct ExInstant(Instant);

/// The number of nanoseconds that a duration spans.
pub uninterp spec fn duration_nanos(d: Duration) -> u128;

/// `Instant::now`: the current time; nothing is known of its value.
#[verifier::external_body]
pub(crate) fn instant_now() -> Instant {
    Instant::now()
}

/// `Instant::elapsed`: the time passed since `start`; nothing is known of
/// its value.
#[verifier::external_body]
pub(crate) fn instant_elapsed(start: &Instant) -> Duration {
    start.elapsed()
}

/// `Duration::as_nanos`: the total number of nanoseconds of `d`.
#[verifier::external_body]
fn duration_as_nanos(d: &Duration) -> (r: u128)
    ensures
        r == duration_nanos(*d),
{
    d.as_nanos()
}

/// `Duration::from_nanos`: a duration of exactly `ns` nanoseconds.
#[verifier::external_body]
fn duration_from_nanos(ns: u64) -> (r: Duration)
    ensures
        duration_nanos(r) == ns,
{
    Duration::from_nanos(ns)
}

/// The nanoseconds of a duration, saturated to `u64::MAX`.
pub open spec fn saturated_nanos(ns: u128) -> u64 {
    if ns > u64::MAX as u128 {
        u64::MAX
    } else {
        ns as u64
    }
}

/// `x + y` wrapped around at `2^64`, as the addition of an atomic counter.
pub open spec fn wrap_add_u64(x: u64, y: u64) -> u64 {
    if x + y > u64::MAX {
        (x + y - u64::MAX - 1) as u64
    } else {
        (x + y) as u64
    }
}

/// `after` nanoseconds are `before` with the length of some span of time
/// added, saturated to `u64::MAX` and wrapping around at `2^64`.
pub open spec fn time_added(before: u64, after: u64) -> bool {
    exists|d: Duration| after == wrap_add_u64(before, saturated_nanos(#[trigger] duration_nanos(d)))
}

/// `after` nanoseconds are `before` with the time elapsed since `start`
/// added: a duration that `instant_elapsed(start)` returned, saturated to
/// `u64::MAX` nanoseconds, the sum wrapping around at `2^64`.
pub closed spec fn elapsed_added(before: u64, after: u64, start: Instant) -> bool {
    exists|d: Duration|
        #[trigger] call_ensures(instant_elapsed, (&start,), d) && after == wrap_add_u64(
            before,
            saturated_nanos(duration_nanos(d)),
        )
}

/// Adding a duration that `instant_elapsed(start)` returned is adding the
/// time elapsed since `start`.
pub(crate) proof fn lemma_elapsed_added(before: u64, start: Instant, d: Duration)
    requires
        call_ensures(instant_elapsed, (&start,), d),
    ensures
        elapsed_added(before, wrap_add_u64(before, saturated_nanos(duration_nanos(d))), start),
{
}

/// `x + y` wrapped around at the width of `usize`.
pub open spec fn wrap_add(x: usize, y: usize) -> usize {
    if x + y > usize::MAX {
        (x + y - usize::MAX - 1) as usize
    } else {
        (x + y) as usize
    }
}

/// `x - y` wrapped around at the width of `usize`.
pub open spec fn wrap_sub(x: usize, y: usize) -> usize {
    if x >= y {
        (x - y) as usize
    } else {
        (x - y + usize::MAX + 1) as usize
    }
}

fn add_wrapping_u64(x: u64, y: u64) -> (r: u64)
    ensures
        r == wrap_add_u64(x, y),
{
    if x > u64::MAX - y {
        y - (u64::MAX - x) - 1
    } else {
        x + y
    }
}

pub(crate) fn add_wrapping(x: usize, y: usize) -> (r: usize)
    ensures
        r == wrap_add(x, y),
{
    if x > usize::MAX - y {
        y - (usize::MAX - x) - 1
    } else {
        x + y
    }
}

fn sub_wrapping(x: usize, y: usize) -> (r: usize)
    ensures
        r == wrap_sub(x, y),
{
    if x >= y {
        x - y
    } else {
        usize::MAX - (y - x) + 1
    }
}

/// An accumulated duration, counted in nanoseconds.
#[derive(Debug)]
pub struct AtomicDuration {
    ns: u64,
}

impl AtomicDuration {
    pub closed spec fn nanos(&self) -> u64 {
        self.ns
    }

    pub fn new() -> (r: Self)
        ensures
            r.nanos() == 0,
    {
        AtomicDuration { ns: 0 }
    }

    /// Adds `duration`, saturated to `u64::MAX` nanoseconds; the sum wraps
    /// around at `2^64`.
    pub(crate) fn add(&mut self, duration: Duration)
        ensures
            final(self).nanos() == wrap_add_u64(
                old(self).nanos(),
                saturated_nanos(duration_nanos(duration)),
            ),
    {
        let total = duration_as_nanos(&duration);
        let ns: u64 = if total > u64::MAX as u128 {
            u64::MAX
        } else {
            total as u64
        };
        self.ns = add_wrapping_u64(self.ns, ns);
    }

    pub(crate) fn duration(&self) -> (r: Duration)
        ensures
            duration_nanos(r) == self.nanos(),
    {
        duration_from_nanos(self.ns)
    }

    pub(crate) fn reset(&mut self)
        ensures
            final(self).nanos() == 0,
    {
        self.ns = 0;
    }
}

/// The counters of a [`PerfHandler`].
#[derive(Clone, Copy, Debug, PartialEq, Eq, Structural)]
pub struct PerfCounts {
    pub query_ns: u64,
    pub eval_ns: u64,
    pub query_count: usize,
    pub eval_count: usize,
    pub registered_query_ops: usize,
    pub stored_values: usize,
    pub memo_count: usize,
}

impl PerfCounts {
    /// The counters after `kind` was recorded.
    pub open spec fn after_event(self, kind: EventKind) -> PerfCounts {
        match kind {
            EventKind::RegisterQueryOps => PerfCounts {
                registered_query_ops: wrap_add(self.registered_query_ops, 1),
                ..self
            },
            EventKind::DeregisterQueryOps => PerfCounts {
                registered_query_ops: wrap_sub(self.registered_query_ops, 1),
                ..self
            },
            EventKind::StoreValue => PerfCounts {
                stored_values: wrap_add(self.stored_values, 1),
                ..self
            },
            EventKind::FreeValues(count) => PerfCounts {
                stored_values: wrap_sub(self.stored_values, count),
                ..self
            },
            EventKind::RegisterMemo => PerfCounts { memo_count: wrap_add(self.memo_count, 1), ..self },
            EventKind::DeregisterMemo => PerfCounts {
                memo_count: wrap_sub(self.memo_count, 1),
                ..self
            },
        }
    }

    /// The counters after a scope of `kind` was entered.
    pub open spec fn after_enter(self, kind: ScopedEventKind) -> PerfCounts {
        match kind {
            ScopedEventKind::Query => PerfCounts {
                query_count: wrap_add(self.query_count, 1),
                ..self
            },
            ScopedEventKind::Eval => PerfCounts { eval_count: wrap_add(self.eval_count, 1), ..self },
        }
    }

    /// The counters after a reset: the per-run counts and durations are
    /// zero, the number of registered queries, stored values and memos stays.
    pub open spec fn after_reset(self) -> PerfCounts {
        PerfCounts { query_ns: 0, eval_ns: 0, query_count: 0, eval_count: 0, ..self }
    }

    /// The counters after `record`; durations are left as they are.
    pub open spec fn after_record(self, record: Record) -> PerfCounts {
        match record {
            Record::Point(kind) => self.after_event(kind),
            Record::Enter(kind) => self.after_enter(kind),
            Record::Exit => self,
            Record::Reset => self.after_reset(),
        }
    }

    /// The counters after `records`, one after the other, starting from all
    /// zero; durations are left out (zero).
    pub open spec fn replay(records: Seq<Record>) -> PerfCounts
        decreases records.len(),
    {
        if records.len() == 0 {
            PerfCounts {
                query_ns: 0,
                eval_ns: 0,
                query_count: 0,
                eval_count: 0,
                registered_query_ops: 0,
                stored_values: 0,
                memo_count: 0,
            }
        } else {
            PerfCounts::replay(records.drop_last()).after_record(records.last())
        }
    }

    proof fn lemma_replay_push(records: Seq<Record>, record: Record)
        ensures
            PerfCounts::replay(records.push(record)) == PerfCounts::replay(records).after_record(record),
    {
        assert(records.push(record).drop_last() =~= records);
    }

    proof fn lemma_same_counts_after(self, other: PerfCounts, record: Record)
        requires
            self.same_counts(other),
        ensures
            self.after_record(record).same_counts(other.after_record(record)),
    {
    }

    /// The same counts, whatever the durations.
    pub open spec fn same_counts(self, other: PerfCounts) -> bool {
        &&& self.query_count == other.query_count
        &&& self.eval_count == other.eval_count
        &&& self.registered_query_ops == other.registered_query_ops
        &&& self.stored_values == other.stored_values
        &&& self.memo_count == other.memo_count
    }
}

/// A handler that counts queries, evaluations, registrations, stored values
/// and memos, and measures the time spent in queries and evaluations.
pub struct PerfHandler {
    records: Ghost<Seq<Record>>,
    query_time: AtomicDuration,
    eval_time: AtomicDuration,
    query_count: usize,
    eval_count: usize,
    registered_query_ops: usize,
    stored_values: usize,
    memo_count: usize,
}

impl View for PerfHandler {
    type V = PerfCounts;

    closed spec fn view(&self) -> PerfCounts {
        PerfCounts {
            query_ns: self.query_time.nanos(),
            eval_ns: self.eval_time.nanos(),
            query_count: self.query_count,
            eval_count: self.eval_count,
            registered_query_ops: self.registered_query_ops,
            stored_values: self.stored_values,
            memo_count: self.memo_count,
        }
    }
}

impl Default for PerfHandler {
    fn default() -> (r: Self)
        ensures
            r@ == (PerfCounts {
                query_ns: 0,
                eval_ns: 0,
                query_count: 0,
                eval_count: 0,
                registered_query_ops: 0,
                stored_values: 0,
                memo_count: 0,
            }),
            r.inv(),
            r.records() == Seq::<Record>::empty(),
    {
        PerfHandler {
            records: Ghost(Seq::empty()),
            query_time: AtomicDuration::new(),
            eval_time: AtomicDuration::new(),
            query_count: 0,
            eval_count: 0,
            registered_query_ops: 0,
            stored_values: 0,
            memo_count: 0,
        }
    }
}

impl Handler for PerfHandler {
    type Payload = (ScopedEventKind, Instant);

    open spec fn keeps_records() -> bool {
        true
    }

    closed spec fn records(&self) -> Seq<Record> {
        self.records@
    }

    /// The counts are those that the records add up to.
    closed spec fn inv(&self) -> bool {
        self@.same_counts(PerfCounts::replay(self.records@))
    }

    fn event(&mut self, event: Event)
        ensures
            final(self)@ == old(self)@.after_event(event.kind),
    {
        proof {
            PerfCounts::lemma_replay_push(self.records@, Record::Point(event.kind));
            if self.inv() {
                self@.lemma_same_counts_after(PerfCounts::replay(self.records@), Record::Point(event.kind));
            }
            self.records@ = self.records@.push(Record::Point(event.kind));
        }
        match event.kind {
            EventKind::RegisterQueryOps => {
                self.registered_query_ops = add_wrapping(self.registered_query_ops, 1);
            },
            EventKind::DeregisterQueryOps => {
                self.registered_query_ops = sub_wrapping(self.registered_query_ops, 1);
            },
            EventKind::StoreValue => {
                self.stored_values = add_wrapping(self.stored_values, 1);
            },
            EventKind::FreeValues(count) => {
                self.stored_values = sub_wrapping(self.stored_values, count);
            },
            EventKind::RegisterMemo => {
                self.memo_count = add_wrapping(self.memo_count, 1);
            },
            EventKind::DeregisterMemo => {
                self.memo_count = sub_wrapping(self.memo_count, 1);
            },
        }
    }

    fn enter_scope(&mut self, event: ScopedEvent) -> (r: Self::Payload)
        ensures
            final(self)@ == old(self)@.after_enter(event.kind),
            r.0 == event.kind,
    {
        proof {
            PerfCounts::lemma_replay_push(self.records@, Record::Enter(event.kind));
            if self.inv() {
                self@.lemma_same_counts_after(PerfCounts::replay(self.records@), Record::Enter(event.kind));
            }
            self.records@ = self.records@.push(Record::Enter(event.kind));
        }
        match event.kind {
            ScopedEventKind::Query => {
                self.query_count = add_wrapping(self.query_count, 1);
            },
            ScopedEventKind::Eval => {
                self.eval_count = add_wrapping(self.eval_count, 1);
            },
        }
        (event.kind, instant_now())
    }

    fn exit_scope(&mut self, payload: Self::Payload)
        ensures
            payload.0 == ScopedEventKind::Query ==> final(self)@ == (PerfCounts {
                query_ns: final(self)@.query_ns,
                ..old(self)@
            }) && time_added(old(self)@.query_ns, final(self)@.query_ns),
            payload.0 == ScopedEventKind::Eval ==> final(self)@ == (PerfCounts {
                eval_ns: final(self)@.eval_ns,
                ..old(self)@
            }) && time_added(old(self)@.eval_ns, final(self)@.eval_ns),
            payload.0 == ScopedEventKind::Query ==> elapsed_added(old(self)@.query_ns, final(self)@.query_ns, payload.1),
            payload.0 == ScopedEventKind::Eval ==> elapsed_added(old(self)@.eval_ns, final(self)@.eval_ns, payload.1),
    {
        proof {
            PerfCounts::lemma_replay_push(self.records@, Record::Exit);
            if self.inv() {
                self@.lemma_same_counts_after(PerfCounts::replay(self.records@), Record::Exit);
            }
            self.records@ = self.records@.push(Record::Exit);
        }
        let (kind, start) = payload;
        let elapsed_since = instant_elapsed;
        let elapsed = elapsed_since(&start);
        match kind {
            ScopedEventKind::Query => self.query_time.add(elapsed),
            ScopedEventKind::Eval => self.eval_time.add(elapsed),
        }
    }
}

impl PerfHandler {
    /// Reset metric accumulators.
    ///
    /// This function will reset counts and durations, but not global values,
    /// like number of memos allocated.
    pub fn reset(&mut self)
        ensures
            final(self)@ == old(self)@.after_reset(),
            final(self).records() == old(self).records().push(Record::Reset),
            old(self).inv() ==> final(self).inv(),
    {
        proof {
            PerfCounts::lemma_replay_push(self.records@, Record::Reset);
            if self.inv() {
                self@.lemma_same_counts_after(PerfCounts::replay(self.records@), Record::Reset);
            }
            self.records@ = self.records@.push(Record::Reset);
        }
        self.query_time.reset();
        self.eval_time.reset();
        self.query_count = 0;
        self.eval_count = 0;
    }

    /// Each count is what the records add up to: a query or evaluation
    /// scope entered adds one to its count, a registration, stored value or
    /// memo adds one to its count and its removal takes one off, freed values
    /// are taken off the stored values, and a reset zeroes the query and
    /// evaluation counts.
    pub proof fn law_counts_follow_records(&self)
        requires
            self.inv(),
        ensures
            self@.same_counts(PerfCounts::replay(self.records())),
    {
    }

    /// A handler told of one query scope and of nothing inside it (a query
    /// answered from a memo verified at the current revision) counts one
    /// more query, and every other count stays.
    pub proof fn law_query_scope_counts_one_query(before: PerfHandler, after: PerfHandler)
        requires
            before.inv(),
            after.inv(),
            after.records() == before.records().push(Record::Enter(ScopedEventKind::Query)).push(Record::Exit),
        ensures
            after@.same_counts(
                PerfCounts { query_count: wrap_add(before@.query_count, 1), ..before@ },
            ),
    {
        let mid = before.records().push(Record::Enter(ScopedEventKind::Query));
        PerfCounts::lemma_replay_push(before.records(), Record::Enter(ScopedEventKind::Query));
        PerfCounts::lemma_replay_push(mid, Record::Exit);
    }

    pub fn query_time(&self) -> (r: Duration)
        ensures
            duration_nanos(r) == self@.query_ns,
    {
        self.query_time.duration()
    }

    pub fn eval_time(&self) -> (r: Duration)
        ensures
            duration_nanos(r) == self@.eval_ns,
    {
        self.eval_time.duration()
    }

    pub fn query_count(&self) -> (r: usize)
        ensures
            r == self@.query_count,
    {
        self.query_count
    }

    pub fn eval_count(&self) -> (r: usize)
        ensures
            r == self@.eval_count,
    {
        self.eval_count
    }

    pub fn registered_query_ops(&self) -> (r: usize)
        ensures
            r == self@.registered_query_ops,
    {
        self.registered_query_ops
    }

    pub fn stored_values(&self) -> (r: usize)
        ensures
            r == self@.stored_values,
    {
        self.stored_values
    }

    pub fn memo_count(&self) -> (r: usize)
        ensures
            r == self@.memo_count,
    {
        self.memo_count
    }
}

/// The handler that ignores every event.
impl Handler for () {
    type Payload = ();

    open spec fn keeps_records() -> bool {
        false
    }

    open spec fn records(&self) -> Seq<Record> {
        Seq::empty()
    }

    open spec fn inv(&self) -> bool {
        true
    }

    fn event(&mut self, event: Event) {
    }

    fn enter_scope(&mut self, event: ScopedEvent) -> Self::Payload {
    }

    fn exit_scope(&mut self, payload: Self::Payload) {
    }
}

} // verus!
