//! An incremental computation library: queries are memoized, record the
//! queries they read, and are re-evaluated only when something they read
//! changed since they were last verified.
use vstd::prelude::*;
use crate::event::Handler;
use crate::event::EventKind;
use crate::event::Record;
use crate::event::recorded_if;
use crate::event::ScopedEvent;
use crate::event::ScopedEventKind;
use crate::memo::MemoId;
use crate::memo::input_memo;
use crate::memo::verified_memo;
use crate::memo::MemoKey;
use crate::memo::MemoView;
use crate::memo::Memos;
use crate::memo::NEVER_VERIFIED;
use crate::memo::Revision;
use crate::query::Input;
use crate::query::InputId;
use crate::query::Query;
use crate::query::QueryError;
use crate::query_ops::QueryOps;
use crate::query_ops::QueryOpsRegistry;
use crate::query_ops::run_eval;
pub use crate::query_ops::eval_typed;
use crate::query_ops::type_id_of;
use crate::storage::DefaultStorage;
use crate::storage::DefaultStorageId;
use crate::storage::Payload;
use crate::storage::Storage;
use crate::storage::payload_downcast;
use std::sync::Arc;

pub mod event;
pub mod memo;
pub mod metrics;
pub mod query;
mod query_ops;
pub mod storage;

verus! {

/// The database: inputs, stored values, memos and registered queries.
///
/// Queries run on a [`Snapshot`], which holds the database until it gives it
/// back: inputs cannot change while a snapshot is alive. [`Db::query`] runs
/// one query on a snapshot and keeps the database as the query left it.
#[verifier::reject_recursive_types(H)]
pub struct Db<S = DefaultStorage, H = ()> where S: Storage {
    revision: usize,
    storage: S,
    memos: Memos,
    query_ops: QueryOpsRegistry<H>,
    event_handler: H,
}

/// The frames of the queries being evaluated, innermost last: each collects
/// the memos its query reads.
#[derive(Debug)]
struct ActiveQueryStack(Vec<ActiveQuery>);

#[derive(Debug)]
struct ActiveQuery {
    deps: Vec<MemoId>,
}

/// The database while queries run on it, with the frames of the queries
/// being evaluated. It holds the database for as long as it lives:
/// [`Snapshot::into_db`] gives it back.
#[verifier::reject_recursive_types(H)]
pub struct Snapshot<S = DefaultStorage, H = ()> where S: Storage {
    db: Db<S, H>,
    active_queries: ActiveQueryStack,
    /// The memos whose verification is under way, outermost first: reaching
    /// one of them again is a cycle.
    verifying: Vec<MemoId>,
    /// How many times a memo was reached again while its verification was
    /// under way.
    cycles_found: Ghost<nat>,
}

impl<H: Handler> Db<DefaultStorage, H> {
    /// The stored values are consistent with the memo table, the registry
    /// and the revision.
    pub closed spec fn wf(&self) -> bool {
        &&& self.storage.wf()
        &&& self.query_ops.wf()
        &&& self.memos.wf(self.storage@.len(), self.query_ops.len(), self.revision)
        &&& self.revision > NEVER_VERIFIED
    }

    /// The current revision.
    pub closed spec fn revision(&self) -> usize {
        self.revision
    }

    /// The memos, in the order they were created.
    pub closed spec fn memos(&self) -> Seq<MemoView> {
        self.memos.views()
    }

    /// The keys of the memos, in the same order.
    pub closed spec fn memo_keys(&self) -> Seq<MemoKey> {
        self.memos.keys@
    }

    /// The stored values, in the order they were stored.
    pub closed spec fn stored(&self) -> Seq<Payload> {
        self.storage@
    }

    /// The number of registered query types.
    pub closed spec fn registered(&self) -> nat {
        self.query_ops.len()
    }

    pub closed spec fn handler(&self) -> H {
        self.event_handler
    }

    #[must_use]
    pub fn event_handler(&self) -> (r: &H)
        ensures
            *r == self.handler(),
    {
        &self.event_handler
    }

    /// Creates an input with `value`, at the current revision: its
    /// identifier is stored at a fresh position, and a new memo for it holds
    /// the stored value, verified and changed at the current revision.
    pub fn new_input<I: Input>(&mut self, value: &I::Value) -> (id: InputId<I>)
        requires
            old(self).wf(),
        ensures
            final(self).wf(),
            final(self).revision() == old(self).revision(),
            final(self).registered() >= old(self).registered(),
            id@.0 == old(self).memo_keys().len(),
            id@.1 + 1 == final(self).stored().len(),
            names_memo(final(self).memo_keys(), id@),
            old(self).stored() == final(self).stored().subrange(0, old(self).stored().len() as int),
            exists|key: MemoKey, value_id: DefaultStorageId|
                #![trigger old(self).memo_keys().push(key), old(self).memos().push(input_memo(old(self).revision(), value_id))]
                key.args_id@ == id@.1 && value_id@ < final(self).stored().len()
                    && final(self).memo_keys() == old(self).memo_keys().push(key)
                    && final(self).memos() == old(self).memos().push(input_memo(old(self).revision(), value_id)),
            H::keeps_records() ==> final(self).handler().records() == old(self).handler().records() + (if final(self).registered() > old(self).registered() {
                seq![Record::Point(EventKind::RegisterQueryOps)]
            } else {
                Seq::empty()
            }) + (if final(self).stored().len() == old(self).stored().len() + 2 {
                seq![Record::Point(EventKind::StoreValue)]
            } else {
                Seq::empty()
            }) + seq![Record::Point(EventKind::StoreValue), Record::Point(EventKind::RegisterMemo)],
            old(self).handler().inv() ==> final(self).handler().inv(),
    {
        let query_id = self.query_ops.query_id(
            type_id_of::<I>(),
            QueryOps::new::<I>(),
            &mut self.event_handler,
        );
        let value_id = self.storage.store(&mut self.event_handler, value);
        let memo = self.memos.keys.len();
        let (args_id, input_id) = self.storage.store_input_id::<H, I>(&mut self.event_handler, memo);
        proof {
            self.memos.lemma_wf_grow(
                old(self).storage@.len(),
                self.storage@.len(),
                old(self).query_ops.len(),
                self.query_ops.len(),
                self.revision,
                self.revision,
            );
        }
        let key = MemoKey { query_id, args_id };
        proof {
            // The identifier was stored at a fresh position: no memo has it
            // as its arguments yet.
            assert(!self.memos.has_key(key)) by {
                if self.memos.has_key(key) {
                    let k = choose|k: int| 0 <= k < self.memos.len() && self.memos.keys@[k] == key;
                    assert(old(self).memos.keys@[k].args_id@ < old(self).storage@.len());
                }
            }
        }
        let m = self.memos.new_input(
            &mut self.event_handler,
            Revision(self.revision),
            key,
            value_id,
            Ghost(self.storage@.len()),
            Ghost(self.query_ops.len()),
        );
        proof {
            assert(self.memo_keys() =~= old(self).memo_keys().push(key));
            assert(self.memos() =~= old(self).memos().push(input_memo(old(self).revision(), value_id)));
            if H::keeps_records() {
                let r0 = old(self).handler().records();
                let reg: Seq<Record> = if self.registered() > old(self).registered() {
                    seq![Record::Point(EventKind::RegisterQueryOps)]
                } else {
                    Seq::empty()
                };
                let st: Seq<Record> = if self.stored().len() == old(self).stored().len() + 2 {
                    seq![Record::Point(EventKind::StoreValue)]
                } else {
                    Seq::empty()
                };
                assert(self.handler().records() =~= r0 + reg + st + seq![
                    Record::Point(EventKind::StoreValue),
                    Record::Point(EventKind::RegisterMemo),
                ]);
            }
        }
        input_id
    }
}

impl<H: Handler> Db<DefaultStorage, H> {
    /// One memo per key: a query applied to given arguments has at most one
    /// memo. Every operation of the database keeps this.
    pub proof fn law_one_memo_per_key(&self, i: int, j: int)
        requires
            self.wf(),
            0 <= i < j < self.memo_keys().len(),
        ensures
            self.memo_keys()[i] != self.memo_keys()[j],
    {
    }

    /// Every memo is consistent: the memos it read are memos of the
    /// database, the value it holds is a stored value, it changed no later
    /// than it was last verified, which is no later than the current
    /// revision, and it holds a value exactly once verified. Every operation of the
    /// database keeps this.
    pub proof fn law_memos_are_consistent(&self, m: int)
        requires
            self.wf(),
            0 <= m < self.memos().len(),
        ensures
            self.memo_keys().len() == self.memos().len(),
            self.memo_keys()[m].args_id@ < self.stored().len(),
            self.memo_keys()[m].query_id.0 < self.registered(),
            self.memos()[m].wf(self.memos().len(), self.stored().len(), self.revision()),
    {
        assert(self.memos.memo(m).wf(self.memos.len(), self.storage@.len(), self.revision));
    }
}

impl<H: Handler> Default for Db<DefaultStorage, H> {
    /// An empty database at the first revision.
    fn default() -> (r: Self)
        ensures
            r.wf(),
            r.revision() == NEVER_VERIFIED + 1,
            r.memos().len() == 0,
            r.memo_keys().len() == 0,
            r.stored().len() == 0,
            r.registered() == 0,
            call_ensures(H::default, (), r.handler()),
    {
        let db = Db {
            revision: NEVER_VERIFIED + 1,
            storage: DefaultStorage::new(),
            memos: Memos::new(),
            query_ops: QueryOpsRegistry::new(),
            event_handler: H::default(),
        };
        assert(db.memos.wf(0, 0, db.revision));
        db
    }
}

impl<H: Handler> Db<DefaultStorage, H> {
    /// Sets the value of input `id` to `value`, at a new revision: the
    /// input's memo holds the stored value, verified and changed at that
    /// revision, and every other memo stays as it was. The identifier must
    /// name a memo of this database ([`Db::names_input`]).
    pub fn set_input<I: Input>(&mut self, id: InputId<I>, value: &I::Value)
        requires
            old(self).wf(),
            old(self).revision() < usize::MAX,
            names_memo(old(self).memo_keys(), id@),
        ensures
            final(self).wf(),
            final(self).memo_keys() == old(self).memo_keys(),
            final(self).registered() == old(self).registered(),
            old(self).stored() == final(self).stored().subrange(0, old(self).stored().len() as int),
            final(self).revision() == old(self).revision() + 1,
            exists|value_id: DefaultStorageId|
                #![trigger set_input_memos(old(self).memos(), id@.0 as int, final(self).revision(), value_id)]
                value_id@ < final(self).stored().len() && final(self).memos() == set_input_memos(
                    old(self).memos(),
                    id@.0 as int,
                    final(self).revision(),
                    value_id,
                ),
            all_stale_but(final(self).memos(), id@.0 as int, final(self).revision()),
            H::keeps_records() ==> recorded_if(
                old(self).handler().records(),
                final(self).handler().records(),
                final(self).stored().len() > old(self).stored().len(),
                Record::Point(EventKind::StoreValue),
            ),
            old(self).handler().inv() ==> final(self).handler().inv(),
    {
        self.write_input(MemoId(id.memo()), value);
    }

    /// Whether `id` names a memo of this database, so that the input can be
    /// set.
    pub fn names_input<I: Input>(&self, id: &InputId<I>) -> (r: bool)
        requires
            self.wf(),
        ensures
            r == names_memo(self.memo_keys(), id@),
    {
        let m = id.memo();
        m < self.memos.keys.len() && self.memos.keys[m].args_id.idx() == id.args()
    }

    /// The current revision.
    pub fn current_revision(&self) -> (r: usize)
        ensures
            r == self.revision(),
    {
        self.revision
    }

    /// Writes `value` into the input memo `m`, at a new revision.
    fn write_input<T: Clone + Eq + core::hash::Hash + Send + Sync + 'static>(&mut self, m: MemoId, value: &T)
        requires
            old(self).wf(),
            old(self).revision() < usize::MAX,
            m.0 < old(self).memos().len(),
        ensures
            final(self).wf(),
            final(self).memo_keys() == old(self).memo_keys(),
            final(self).registered() == old(self).registered(),
            old(self).stored() == final(self).stored().subrange(0, old(self).stored().len() as int),
            final(self).revision() == old(self).revision() + 1,
            exists|value_id: DefaultStorageId|
                #![trigger set_input_memos(old(self).memos(), m.0 as int, final(self).revision(), value_id)]
                value_id@ < final(self).stored().len() && final(self).memos() == set_input_memos(
                    old(self).memos(),
                    m.0 as int,
                    final(self).revision(),
                    value_id,
                ),
            all_stale_but(final(self).memos(), m.0 as int, final(self).revision()),
            H::keeps_records() ==> recorded_if(
                old(self).handler().records(),
                final(self).handler().records(),
                final(self).stored().len() > old(self).stored().len(),
                Record::Point(EventKind::StoreValue),
            ),
            old(self).handler().inv() ==> final(self).handler().inv(),
    {
        // A snapshot holds the database, so none is alive here: no query is
        // running while an input changes.
        let current_rev = self.bump();
        let value_id = self.storage.store(&mut self.event_handler, value);
        proof {
            old(self).memos.lemma_wf_grow(
                old(self).storage@.len(),
                self.storage@.len(),
                self.query_ops.len(),
                self.query_ops.len(),
                old(self).revision,
                self.revision,
            );
        }
        self.memos.commit(
            m,
            current_rev,
            Some((value_id, None)),
            Ghost(self.storage@.len()),
            Ghost(self.query_ops.len()),
        );
        proof {
            assert(self.memos.views() =~= set_input_memos(
                old(self).memos.views(),
                m.0 as int,
                self.revision,
                value_id,
            ));
            assert(old(self).memos()[m.0 as int] == old(self).memos.memo(m.0 as int));
            assert forall|i: int| 0 <= i < self.memos().len() && i != m.0 implies
                #[trigger] self.memos()[i].last_verified < self.revision() by {
                assert(old(self).memos.memo(i).wf(old(self).memos.len(), old(self).storage@.len(), old(self).revision));
            }
        }
    }

    /// The event handler, to be changed in place (to reset its counters).
    pub fn event_handler_mut(&mut self) -> (r: &mut H)
        ensures
            *r == old(self).handler(),
            final(self).handler() == *final(r),
            final(self).wf() == old(self).wf(),
            final(self).revision() == old(self).revision(),
            final(self).memos() == old(self).memos(),
            final(self).memo_keys() == old(self).memo_keys(),
            final(self).stored() == old(self).stored(),
            final(self).registered() == old(self).registered(),
    {
        &mut self.event_handler
    }

    /// Moves to the next revision and returns it.
    fn bump(&mut self) -> (r: Revision)
        requires
            old(self).revision < usize::MAX,
        ensures
            final(self).revision == old(self).revision + 1,
            r.0 == final(self).revision,
            final(self).storage == old(self).storage,
            final(self).memos == old(self).memos,
            final(self).query_ops == old(self).query_ops,
            final(self).event_handler == old(self).event_handler,
    {
        self.revision = self.revision + 1;
        Revision(self.revision)
    }

    /// A snapshot of the database, through which queries run; it holds the
    /// database until [`Snapshot::into_db`] gives it back.
    #[must_use]
    pub fn snapshot(self) -> (r: Snapshot<DefaultStorage, H>)
        requires
            self.wf(),
        ensures
            r.wf(),
            r.database() == self,
            r.frames().len() == 0,
            r.in_progress().len() == 0,
    {
        Snapshot {
            db: self,
            active_queries: ActiveQueryStack(Vec::new()),
            verifying: Vec::new(),
            cycles_found: Ghost(0),
        }
    }

    /// Runs query `Q` on `args` on a snapshot of this database, and keeps
    /// the database as the query left it: the memo of `Q` applied to `args`
    /// (created if there is none) is brought up to date, and the value it
    /// holds is returned.
    pub fn query<Q: Query>(&mut self, args: &Q::Args) -> (r: Result<Arc<Q::Out>, QueryError>)
        requires
            old(self).wf(),
        ensures
            final(self).wf(),
            old(self).grows_into(*final(self)),
            r is Ok ==> exists|m: int|
                0 <= m < final(self).memos().len() && (#[trigger] final(self).memos()[m]).value_id is Some
                    && final(self).memos()[m].last_verified == final(self).revision(),
            all_verified_at(old(self).memos(), old(self).revision()) && final(self).memos().len()
                == old(self).memos().len() ==> final(self).memos() == old(self).memos(),
            forall|m: int|
                0 <= m < old(self).memos().len() && old(self).memos()[m].last_verified == old(self).revision()
                    ==> #[trigger] final(self).memos()[m] == old(self).memos()[m],
            forall|m: int|
                0 <= m < old(self).memos().len() && (#[trigger] final(self).memos()[m]).last_changed
                    != old(self).memos()[m].last_changed ==> needs_evaluation(old(self).memos()[m], final(self).memos()),
            exists|m: int| #[trigger] final(self).query_resolved_to(*old(self), m, r),
            H::keeps_records() && all_verified_at(old(self).memos(), old(self).revision()) && final(self).memos().len()
                == old(self).memos().len() ==> final(self).handler().records() == old(self).handler().records().push(
                Record::Enter(ScopedEventKind::Query),
            ).push(Record::Exit),
            H::keeps_records() ==> scope_recorded(
                old(self).handler().records(),
                final(self).handler().records(),
                ScopedEventKind::Query,
            ),
            old(self).handler().inv() ==> final(self).handler().inv(),
    {
        let mut db = Db::default();
        core::mem::swap(self, &mut db);
        let mut snapshot = db.snapshot();
        let ghost s0 = snapshot;
        let r = snapshot.query::<Q>(args);
        let ghost m = choose|m: int| #[trigger] snapshot.query_resolved_to(s0, m, r);
        *self = snapshot.into_db();
        proof {
            assert(self.query_resolved_to(*old(self), m, r));
        }
        r
    }

    /// `m` is the memo that a query call resolved to, which turned this
    /// database from `before` into `self` and returned `r`: a memo present
    /// afterwards; holding a value verified at the current revision when the
    /// call succeeded; and when it was verified at the current revision
    /// already, the memos stayed as they were, the handler was told of the
    /// query's scope and nothing else, and only the downcast of its value
    /// could fail; and when it was new, or needed evaluation, a successful
    /// call recorded an evaluation.
    pub open spec fn query_resolved_to<T>(self, before: Self, m: int, r: Result<T, QueryError>) -> bool {
        &&& 0 <= m < self.memos().len()
        &&& r is Ok ==> self.memos()[m].value_id is Some && self.memos()[m].last_verified == self.revision()
        &&& m < before.memos().len() && reuses_at_once(before.memos()[m], before.revision()) ==> {
            &&& self.memos() == before.memos()
            &&& H::keeps_records() ==> self.handler().records() == before.handler().records().push(
                Record::Enter(ScopedEventKind::Query),
            ).push(Record::Exit)
            &&& r matches Err(e) ==> e == QueryError::TypeMismatch
        }
        &&& H::keeps_records() && r is Ok && (m >= before.memos().len() || needs_evaluation(
            before.memos()[m],
            self.memos(),
        )) ==> eval_recorded_after(before.handler().records(), self.handler().records())
    }

    /// `later` is this database after queries ran on it: same revision, the
    /// memos, stored values and registered queries of this database are
    /// still there, in the same places; each memo grew as [`memo_grows`]
    /// says, and one whose revision of last change moved needed evaluation.
    pub closed spec fn grows_into(self, later: Self) -> bool {
        &&& later.revision == self.revision
        &&& self.event_handler.inv() ==> later.event_handler.inv()
        &&& H::keeps_records() ==> {
            &&& self.event_handler.records().len() <= later.event_handler.records().len()
            &&& later.event_handler.records().subrange(0, self.event_handler.records().len() as int)
                == self.event_handler.records()
        }
        &&& forall|m: int|
            0 <= m < self.memos.len() && (#[trigger] later.memos.memo(m)).last_changed
                != self.memos.memo(m).last_changed ==> needs_evaluation(self.memos.memo(m), later.memos())
        &&& self.memos.keys@.len() <= later.memos.keys@.len()
        &&& later.memos.keys@.subrange(0, self.memos.keys@.len() as int) == self.memos.keys@
        &&& self.storage@.len() <= later.storage@.len()
        &&& later.storage@.subrange(0, self.storage@.len() as int) == self.storage@
        &&& self.query_ops.type_ids@.len() <= later.query_ops.type_ids@.len()
        &&& later.query_ops.type_ids@.subrange(0, self.query_ops.type_ids@.len() as int)
            == self.query_ops.type_ids@
        &&& forall|m: int|
            0 <= m < self.memos.len() ==> #[trigger] memo_grows(
                self.memos.memo(m),
                later.memos.memo(m),
                self.revision,
            )
    }
    /// Across any number of queries within a revision, a memo whose
    /// revision of last change moved had to be evaluated again, and a memo
    /// verified at the current revision did not change.
    pub proof fn law_queries_change_only_what_needs_it(earlier: Self, later: Self, m: int)
        requires
            earlier.grows_into(later),
            0 <= m < earlier.memos().len(),
        ensures
            m < later.memos().len(),
            later.memos()[m].last_changed != earlier.memos()[m].last_changed ==> needs_evaluation(
                earlier.memos()[m],
                later.memos(),
            ),
            earlier.memos()[m].last_verified == earlier.revision() ==> later.memos()[m] == earlier.memos()[m],
    {
        assert(earlier.memos.memo(m) == earlier.memos()[m]);
        assert(later.memos.memo(m) == later.memos()[m]);
        assert(memo_grows(earlier.memos.memo(m), later.memos.memo(m), earlier.revision));
    }

    /// Queries run one after another on a database: growth composes.
    pub proof fn lemma_grows_trans(a: Self, b: Self, c: Self)
        requires
            a.wf(),
            b.wf(),
            a.grows_into(b),
            b.grows_into(c),
        ensures
            a.grows_into(c),
    {
        assert forall|m: int|
            0 <= m < a.memos.len() && (#[trigger] c.memos.memo(m)).last_changed
                != a.memos.memo(m).last_changed implies needs_evaluation(a.memos.memo(m), c.memos()) by {
            let am = a.memos.memo(m);
            let bm = b.memos.memo(m);
            let cm = c.memos.memo(m);
            assert(memo_grows(am, bm, a.revision));
            assert(memo_grows(bm, cm, b.revision));
            a.law_memos_are_consistent(m);
            b.law_memos_are_consistent(m);
            assert(a.memos()[m] == am);
            assert(b.memos()[m] == bm);
            if bm.last_changed != am.last_changed {
                assert(needs_evaluation(am, b.memos()));
                if am.last_verified != NEVER_VERIFIED {
                    Db::lemma_dep_changed_stays(b, c, am.deps, am.last_verified);
                }
            } else {
                assert(needs_evaluation(bm, c.memos()));
                assert(bm.deps == am.deps);
                if bm.last_verified != NEVER_VERIFIED {
                    let d = choose|d: int|
                        0 <= d < bm.deps.len() && bm.deps[d].0 < c.memos().len()
                            && (#[trigger] c.memos()[bm.deps[d].0 as int]).last_changed > bm.last_verified;
                    assert(c.memos()[am.deps[d].0 as int].last_changed > am.last_verified);
                }
            }
        }
        assert forall|m: int|
            0 <= m < a.memos.len() implies #[trigger] memo_grows(
                a.memos.memo(m),
                c.memos.memo(m),
                a.revision,
            ) by {
            assert(b.memos.keys@.subrange(0, a.memos.keys@.len() as int)[m] == a.memos.keys@[m]);
            assert(memo_grows(a.memos.memo(m), b.memos.memo(m), a.revision));
            assert(memo_grows(b.memos.memo(m), c.memos.memo(m), b.revision));
        }
        assert(c.memos.keys@.subrange(0, a.memos.keys@.len() as int) =~= a.memos.keys@) by {
            assert forall|i: int| 0 <= i < a.memos.keys@.len() implies c.memos.keys@[i] == a.memos.keys@[i] by {
                assert(c.memos.keys@.subrange(0, b.memos.keys@.len() as int)[i] == b.memos.keys@[i]);
                assert(b.memos.keys@.subrange(0, a.memos.keys@.len() as int)[i] == a.memos.keys@[i]);
            }
        }
        assert(c.storage@.subrange(0, a.storage@.len() as int) =~= a.storage@) by {
            assert forall|i: int| 0 <= i < a.storage@.len() implies c.storage@[i] == a.storage@[i] by {
                assert(c.storage@.subrange(0, b.storage@.len() as int)[i] == b.storage@[i]);
                assert(b.storage@.subrange(0, a.storage@.len() as int)[i] == a.storage@[i]);
            }
        }
        if H::keeps_records() {
            let (ar, br, cr) = (a.event_handler.records(), b.event_handler.records(), c.event_handler.records());
            assert(cr.subrange(0, ar.len() as int) =~= ar) by {
                assert forall|i: int| 0 <= i < ar.len() implies cr[i] == ar[i] by {
                    assert(cr.subrange(0, br.len() as int)[i] == br[i]);
                    assert(br.subrange(0, ar.len() as int)[i] == ar[i]);
                }
            }
        }
        assert(c.query_ops.type_ids@.subrange(0, a.query_ops.type_ids@.len() as int) =~= a.query_ops.type_ids@) by {
            assert forall|i: int| 0 <= i < a.query_ops.type_ids@.len() implies c.query_ops.type_ids@[i] == a.query_ops.type_ids@[i] by {
                assert(c.query_ops.type_ids@.subrange(0, b.query_ops.type_ids@.len() as int)[i] == b.query_ops.type_ids@[i]);
                assert(b.query_ops.type_ids@.subrange(0, a.query_ops.type_ids@.len() as int)[i] == a.query_ops.type_ids@[i]);
            }
        }
    }

    /// A dependency found changed after a revision stays so as the database
    /// grows: revisions of last change never decrease.
    pub proof fn lemma_dep_changed_stays(earlier: Self, later: Self, deps: Seq<MemoId>, rev: usize)
        requires
            earlier.wf(),
            earlier.grows_into(later),
            dep_changed_after(deps, earlier.memos(), rev),
        ensures
            dep_changed_after(deps, later.memos(), rev),
    {
        let d = choose|d: int|
            0 <= d < deps.len() && deps[d].0 < earlier.memos().len()
                && (#[trigger] earlier.memos()[deps[d].0 as int]).last_changed > rev;
        let m = deps[d].0 as int;
        earlier.law_memos_are_consistent(m);
        assert(earlier.memos.memo(m) == earlier.memos()[m]);
        assert(memo_grows(earlier.memos.memo(m), later.memos.memo(m), earlier.revision));
        assert(later.memos()[deps[d].0 as int].last_changed > rev);
    }

    /// Running nothing is growing.
    pub proof fn lemma_grows_refl(self)
        ensures
            self.grows_into(self),
    {
        assert(self.memos.keys@.subrange(0, self.memos.keys@.len() as int) == self.memos.keys@);
        assert(self.storage@.subrange(0, self.storage@.len() as int) == self.storage@);
        assert(self.query_ops.type_ids@.subrange(0, self.query_ops.type_ids@.len() as int)
            == self.query_ops.type_ids@);
        assert(self.event_handler.records().subrange(0, self.event_handler.records().len() as int)
            == self.event_handler.records());
    }
}

/// The memos after input `m` was set, at revision `rev`, to the value stored
/// at `value_id`: only memo `m` changes; it counts as verified and changed at
/// `rev`.
pub open spec fn set_input_memos(memos: Seq<MemoView>, m: int, rev: usize, value_id: DefaultStorageId) -> Seq<MemoView> {
    memos.update(m, crate::memo::committed_memo(memos[m], rev, Some((value_id, None))))
}

/// How a memo may change within revision `rev`: once it holds a value it
/// keeps holding one, it is verified no earlier than before, once verified at
/// `rev` it no longer changes, and whenever its
/// value, its dependencies or its revision of last change differ, it is
/// stamped as changed at `rev`.
pub open spec fn memo_grows(earlier: MemoView, later: MemoView, rev: usize) -> bool {
    &&& (earlier.value_id is Some ==> later.value_id is Some)
    &&& earlier.last_verified <= later.last_verified
    &&& (earlier.last_verified == rev ==> later == earlier)
    &&& (later.value_id != earlier.value_id || later.deps != earlier.deps || later.last_changed
        != earlier.last_changed) ==> later.last_changed == rev
}

/// Whether input identifier `id` (memo position, stored position) names a
/// memo of the table with keys `keys`: the memo at that position has the
/// identifier's stored position as its arguments.
pub open spec fn names_memo(keys: Seq<MemoKey>, id: (nat, nat)) -> bool {
    id.0 < keys.len() && keys[id.0 as int].args_id@ == id.1
}

/// Every memo of `memos` but memo `m` was verified before revision `rev`, so
/// a query that reads it at `rev` checks it again.
pub open spec fn all_stale_but(memos: Seq<MemoView>, m: int, rev: usize) -> bool {
    forall|i: int| 0 <= i < memos.len() && i != m ==> #[trigger] memos[i].last_verified < rev
}

/// The frames after `dep` was read: it is recorded in the innermost frame,
/// if there is one.
pub open spec fn track_dep_frames(frames: Seq<Seq<MemoId>>, dep: MemoId) -> Seq<Seq<MemoId>> {
    if frames.len() == 0 {
        frames
    } else {
        frames.update(frames.len() - 1, frames.last().push(dep))
    }
}

impl<H: Handler> Snapshot<DefaultStorage, H> {
    /// The database is consistent and every recorded read names a memo.
    pub closed spec fn wf(&self) -> bool {
        &&& self.db.wf()
        &&& forall|f: int, d: int|
            0 <= f < self.active_queries.0@.len() && 0 <= d < self.active_queries.0@[f].deps@.len()
                ==> (#[trigger] self.active_queries.0@[f].deps@[d]).0 < self.db.memos.len()
        &&& forall|k: int| 0 <= k < self.verifying@.len() ==> (#[trigger] self.verifying@[k]).0 < self.db.memos.len()
    }

    /// The memos whose verification is under way, outermost first.
    pub closed spec fn in_progress(&self) -> Seq<MemoId> {
        self.verifying@
    }

    /// How many times so far a memo was reached again while its
    /// verification was under way: the cycles found.
    pub closed spec fn cycles_found(&self) -> nat {
        self.cycles_found@
    }

    pub closed spec fn database(&self) -> Db<DefaultStorage, H> {
        self.db
    }

    /// The memos read by each query being evaluated, innermost last.
    pub closed spec fn frames(&self) -> Seq<Seq<MemoId>> {
        Seq::new(self.active_queries.0@.len(), |f: int| self.active_queries.0@[f].deps@)
    }

    pub closed spec fn stored(&self) -> Seq<Payload> {
        self.db.storage@
    }

    pub closed spec fn registered(&self) -> nat {
        self.db.query_ops.len()
    }

    /// What the database's handler was told so far, if it keeps a record.
    pub open spec fn records(&self) -> Seq<Record> {
        self.database().handler().records()
    }

    /// `later` is this snapshot after it ran queries: same revision, the
    /// memos, stored values and registered queries of this snapshot are
    /// still there, in the same places; each memo grew as [`memo_grows`]
    /// says, and one whose revision of last change moved needed evaluation;
    /// the memos whose verification is under way are the same and did not
    /// change; the cycles found are still counted.
    pub closed spec fn grows_into(self, later: Self) -> bool {
        &&& self.db.grows_into(later.db)
        &&& later.verifying@ == self.verifying@
        &&& forall|k: int|
            0 <= k < self.verifying@.len() ==> later.db.memos.memo((#[trigger] self.verifying@[k]).0 as int)
                == self.db.memos.memo(self.verifying@[k].0 as int)
        &&& self.cycles_found@ <= later.cycles_found@
    }

    /// Cycles found stay counted as queries run: so a query that ends in a
    /// cycle error, having found a memo again while its verification was
    /// under way, leaves a count above every earlier one.
    pub proof fn law_cycles_found_never_decrease(earlier: Self, later: Self)
        requires
            earlier.grows_into(later),
        ensures
            earlier.cycles_found() <= later.cycles_found(),
    {
    }

    /// Change stamping: as queries run within a revision, a memo that held a
    /// value keeps one, it is never verified at an earlier revision than
    /// before, its revision of last change never goes back, and whenever its
    /// value or the memos it read are replaced, it is stamped as changed at
    /// the current revision. A dependent memo therefore finds out whether
    /// what it read may have changed by comparing revisions alone.
    pub proof fn law_changes_are_stamped(earlier: Self, later: Self, m: int)
        requires
            earlier.wf(),
            earlier.grows_into(later),
            0 <= m < earlier.memos().len(),
        ensures
            m < later.memos().len(),
            later.revision() == earlier.revision(),
            earlier.memos()[m].value_id is Some ==> later.memos()[m].value_id is Some,
            earlier.memos()[m].last_verified <= later.memos()[m].last_verified,
            earlier.memos()[m].last_changed <= later.memos()[m].last_changed,
            later.memos()[m].value_id != earlier.memos()[m].value_id || later.memos()[m].deps
                != earlier.memos()[m].deps ==> later.memos()[m].last_changed == later.revision(),
    {
        earlier.lemma_memo_wf(m);
        assert(earlier.db.memos.memo(m) == earlier.memos()[m]);
        assert(memo_grows(earlier.db.memos.memo(m), later.db.memos.memo(m), earlier.db.revision));
    }

    /// Only what needs it is evaluated: as queries run within a revision, a
    /// memo whose revision of last change moves had to be evaluated again: it
    /// was never verified, or one of the memos it read changed after it was
    /// last verified. A memo whose dependencies kept their revisions of last
    /// change keeps its value.
    pub proof fn law_only_needed_memos_change(earlier: Self, later: Self, m: int)
        requires
            earlier.grows_into(later),
            0 <= m < earlier.memos().len(),
            later.memos()[m].last_changed != earlier.memos()[m].last_changed,
        ensures
            needs_evaluation(earlier.memos()[m], later.memos()),
    {
        assert(earlier.db.memos.memo(m) == earlier.memos()[m]);
        assert(later.db.memos.memo(m) == later.memos()[m]);
    }

    /// A memo verified at the current revision is final for that revision:
    /// running more queries does not change it.
    pub proof fn law_verified_memos_are_final(earlier: Self, later: Self, m: int)
        requires
            earlier.grows_into(later),
            0 <= m < earlier.memos().len(),
            earlier.memos()[m].last_verified == earlier.revision(),
        ensures
            later.memos()[m] == earlier.memos()[m],
    {
        earlier.lemma_frozen(later, m);
    }

    /// Input identifiers stay valid: an identifier that names a memo of the
    /// database still names it after any queries have run, so the input it
    /// identifies can still be written.
    pub proof fn law_input_ids_stay_valid(earlier: Self, later: Self, id: (nat, nat))
        requires
            earlier.grows_into(later),
            names_memo(earlier.database().memo_keys(), id),
        ensures
            names_memo(later.database().memo_keys(), id),
            later.database().memo_keys()[id.0 as int] == earlier.database().memo_keys()[id.0 as int],
    {
        assert(later.db.memos.keys@.subrange(0, earlier.db.memos.keys@.len() as int)[id.0 as int]
            == earlier.db.memos.keys@[id.0 as int]);
    }

    /// Running nothing is growing: a snapshot grows into itself.
    pub proof fn lemma_grows_refl(self)
        ensures
            self.grows_into(self),
    {
        self.db.lemma_grows_refl();
    }

    /// Each sequence the snapshot grows is a prefix of itself.
    proof fn lemma_prefixes_refl(self)
        ensures
            self.db.memos.keys@.subrange(0, self.db.memos.keys@.len() as int) == self.db.memos.keys@,
            self.db.storage@.subrange(0, self.db.storage@.len() as int) == self.db.storage@,
            self.db.query_ops.type_ids@.subrange(0, self.db.query_ops.type_ids@.len() as int)
                == self.db.query_ops.type_ids@,
            self.records().subrange(0, self.records().len() as int) == self.records(),
    {
        self.db.lemma_grows_refl();
        assert(self.records().subrange(0, self.records().len() as int) =~= self.records());
    }

    /// What a snapshot recorded stays recorded as it grows.
    pub proof fn lemma_records_prefix(self, later: Self)
        requires
            self.grows_into(later),
        ensures
            H::keeps_records() ==> self.records().len() <= later.records().len() && later.records().subrange(
                0,
                self.records().len() as int,
            ) == self.records(),
    {
    }

    /// A record added, or none, keeps what was recorded before as a prefix.
    proof fn lemma_recorded_prefix(before: Seq<Record>, after: Seq<Record>, happened: bool, record: Record)
        requires
            recorded_if(before, after, happened, record),
        ensures
            before.len() <= after.len(),
            after.subrange(0, before.len() as int) == before,
    {
        assert(after.subrange(0, before.len() as int) =~= before);
    }

    /// Queries run one after another: growth composes.
    pub proof fn lemma_grows_trans(a: Self, b: Self, c: Self)
        requires
            a.wf(),
            b.wf(),
            a.grows_into(b),
            b.grows_into(c),
        ensures
            a.grows_into(c),
    {
        assert forall|k: int| 0 <= k < a.verifying@.len() implies c.db.memos.memo(
            (#[trigger] a.verifying@[k]).0 as int,
        ) == a.db.memos.memo(a.verifying@[k].0 as int) by {
            assert(b.verifying@[k] == a.verifying@[k]);
        }
        Db::lemma_grows_trans(a.db, b.db, c.db);
    }

    /// Ends the snapshot and gives the database back, as the queries left
    /// it.
    pub fn into_db(self) -> (r: Db<DefaultStorage, H>)
        ensures
            r == self.database(),
    {
        self.db
    }

    #[must_use]
    pub fn event_handler(&self) -> (r: &H)
        ensures
            *r == self.database().handler(),
    {
        &self.db.event_handler
    }

    pub(crate) fn registry(&self) -> (r: &QueryOpsRegistry<H>)
        ensures
            *r == self.database().query_ops,
    {
        &self.db.query_ops
    }

    pub(crate) fn enter_scope(&mut self, kind: ScopedEventKind) -> (r: H::Payload)
        requires
            old(self).wf(),
        ensures
            final(self).wf(),
            old(self).grows_into(*final(self)),
            final(self).db.memos == old(self).db.memos,
            final(self).db.storage == old(self).db.storage,
            final(self).db.query_ops == old(self).db.query_ops,
            final(self).active_queries == old(self).active_queries,
            H::keeps_records() ==> final(self).records() == old(self).records().push(Record::Enter(kind)),
    {
        let r = self.db.event_handler.enter_scope(ScopedEvent::new(kind));
        proof {
            final(self).lemma_grows_refl();
            if H::keeps_records() {
                Snapshot::<DefaultStorage, H>::lemma_recorded_prefix(old(self).records(), self.records(), true, Record::Enter(kind));
            }
        }
        r
    }

    pub(crate) fn exit_scope(&mut self, payload: H::Payload)
        requires
            old(self).wf(),
        ensures
            final(self).wf(),
            old(self).grows_into(*final(self)),
            final(self).db.memos == old(self).db.memos,
            final(self).db.storage == old(self).db.storage,
            final(self).db.query_ops == old(self).db.query_ops,
            final(self).active_queries == old(self).active_queries,
            H::keeps_records() ==> final(self).records() == old(self).records().push(Record::Exit),
    {
        self.db.event_handler.exit_scope(payload);
        proof {
            final(self).lemma_grows_refl();
            if H::keeps_records() {
                Snapshot::<DefaultStorage, H>::lemma_recorded_prefix(old(self).records(), self.records(), true, Record::Exit);
            }
        }
    }

    /// Stores `value` in the database's storage.
    pub(crate) fn store<T: Clone + Eq + core::hash::Hash + Send + Sync + 'static>(&mut self, value: &T) -> (r: DefaultStorageId)
        requires
            old(self).wf(),
        ensures
            final(self).wf(),
            old(self).grows_into(*final(self)),
            r@ < final(self).stored().len(),
            final(self).memos() == old(self).memos(),
            final(self).frames() == old(self).frames(),
            final(self).registered() == old(self).registered(),
            final(self).stored().len() > old(self).stored().len() ==> r@ == old(self).stored().len(),
            H::keeps_records() ==> recorded_if(
                old(self).records(),
                final(self).records(),
                final(self).stored().len() > old(self).stored().len(),
                Record::Point(EventKind::StoreValue),
            ),
    {
        let r = self.db.storage.store(&mut self.db.event_handler, value);
        proof {
            old(self).db.memos.lemma_wf_grow(
                old(self).db.storage@.len(),
                self.db.storage@.len(),
                self.db.query_ops.len(),
                self.db.query_ops.len(),
                self.db.revision,
                self.db.revision,
            );
            self.lemma_prefixes_refl();
            if H::keeps_records() {
                Snapshot::<DefaultStorage, H>::lemma_recorded_prefix(old(self).records(), self.records(), self.stored().len() > old(self).stored().len(), Record::Point(EventKind::StoreValue));
            }
        }
        r
    }
}

/// The frames, and the dependencies committed with a memo, when the
/// evaluation of the innermost query ends: when its output changed, its
/// frame is removed and its reads become the memo's dependencies; when the
/// output stayed the same, the frame stays and the memo keeps its
/// dependencies.
pub open spec fn finish_frames(frames: Seq<Seq<MemoId>>, changed: bool) -> (Seq<Seq<MemoId>>, Option<Seq<MemoId>>) {
    if changed && frames.len() > 0 {
        (frames.drop_last(), Some(frames.last()))
    } else {
        (frames, None)
    }
}

/// `after` keeps the frames of `before`: the frames below the innermost
/// one are as they were, and the innermost one still starts with what it
/// held (reads are only added to it); frames may be added above it.
pub open spec fn frames_grow(before: Seq<Seq<MemoId>>, after: Seq<Seq<MemoId>>) -> bool {
    &&& before.len() <= after.len()
    &&& forall|f: int| 0 <= f < before.len() - 1 ==> #[trigger] after[f] == before[f]
    &&& before.len() > 0 ==> {
        &&& before.last().len() <= after[before.len() - 1].len()
        &&& after[before.len() - 1].subrange(0, before.last().len() as int) == before.last()
    }
}

/// `after` keeps the frames of `before`, and the read of `memo` was recorded
/// in the innermost frame of `before`, right after what that frame held.
pub open spec fn read_recorded(before: Seq<Seq<MemoId>>, after: Seq<Seq<MemoId>>, memo: MemoId) -> bool {
    &&& frames_grow(before, after)
    &&& before.len() > 0 ==> {
        &&& before.last().len() < after[before.len() - 1].len()
        &&& after[before.len() - 1][before.last().len() as int] == memo
    }
}

/// A read once recorded stays recorded: whatever the queries that follow
/// do to the frames, as they only keep them growing, the read of `memo`
/// stays in the frame it was recorded in, at its place.
pub proof fn law_reads_stay_recorded(a: Seq<Seq<MemoId>>, b: Seq<Seq<MemoId>>, c: Seq<Seq<MemoId>>, memo: MemoId)
    requires
        read_recorded(a, b, memo),
        frames_grow(b, c),
    ensures
        read_recorded(a, c, memo),
{
    lemma_frames_grow_trans(a, b, c);
    if a.len() > 0 {
        let i = a.len() - 1;
        if a.len() < b.len() {
            assert(c[i] == b[i]);
        } else {
            assert(c[i].subrange(0, b.last().len() as int)[a.last().len() as int] == b.last()[a.last().len() as int]);
        }
    }
}

/// Frames that keep growing, one run of queries after another, keep
/// growing over both.
pub proof fn lemma_frames_grow_trans(a: Seq<Seq<MemoId>>, b: Seq<Seq<MemoId>>, c: Seq<Seq<MemoId>>)
    requires
        frames_grow(a, b),
        frames_grow(b, c),
    ensures
        frames_grow(a, c),
{
    if a.len() > 0 {
        let i = a.len() - 1;
        if a.len() < b.len() {
            assert(c[i] == b[i]);
        } else {
            assert(c[i].subrange(0, a.last().len() as int) =~= a.last()) by {
                assert forall|k: int| 0 <= k < a.last().len() implies c[i][k] == a.last()[k] by {
                    assert(c[i].subrange(0, b.last().len() as int)[k] == b.last()[k]);
                    assert(b[i].subrange(0, a.last().len() as int)[k] == a.last()[k]);
                }
            }
        }
    }
}

/// Recording a read in the innermost frame is recording it.
pub proof fn lemma_track_dep_recorded(frames: Seq<Seq<MemoId>>, memo: MemoId)
    ensures
        read_recorded(frames, track_dep_frames(frames, memo), memo),
{
    let after = track_dep_frames(frames, memo);
    if frames.len() > 0 {
        assert(after[frames.len() - 1].subrange(0, frames.last().len() as int) =~= frames.last());
    }
}

/// The frames under one pushed for an evaluation are kept, as they were,
/// however that evaluation grows the frames; and they are kept when the
/// evaluation's frame is taken off at its end.
proof fn lemma_evaluation_frames(x: Seq<Seq<MemoId>>, y: Seq<Seq<MemoId>>, changed: bool)
    requires
        frames_grow(x.push(Seq::empty()), y),
    ensures
        frames_grow(x, y),
        frames_grow(x, finish_frames(y, changed).0),
{
    assert forall|f: int| 0 <= f < x.len() implies #[trigger] y[f] == x[f] by {
        assert(x.push(Seq::empty())[f] == x[f]);
    }
    let z = finish_frames(y, changed).0;
    assert forall|f: int| 0 <= f < x.len() implies #[trigger] z[f] == x[f] by {
        assert(y[f] == x[f]);
    }
    if x.len() > 0 {
        assert(y[x.len() - 1].subrange(0, x.last().len() as int) =~= x.last());
        assert(z[x.len() - 1].subrange(0, x.last().len() as int) =~= x.last());
    }
}

/// Frames kept as they are keep growing.
pub proof fn lemma_frames_grow_refl(a: Seq<Seq<MemoId>>)
    ensures
        frames_grow(a, a),
{
    if a.len() > 0 {
        assert(a[a.len() - 1].subrange(0, a.last().len() as int) =~= a.last());
    }
}

/// The change committed for a memo: the new output, if it differs from the
/// one stored, with the reads recorded for it.
pub open spec fn change_of(out: Option<DefaultStorageId>, deps: Option<Seq<MemoId>>) -> Option<(DefaultStorageId, Option<Seq<MemoId>>)> {
    match out {
        None => None,
        Some(v) => Some((v, deps)),
    }
}

impl<H: Handler> Snapshot<DefaultStorage, H> {
    /// The memos of the database, in table order.
    pub closed spec fn memos(&self) -> Seq<MemoView> {
        self.db.memos.views()
    }

    pub closed spec fn revision(&self) -> usize {
        self.db.revision
    }

    /// Records that the query being evaluated read memo `dep`.
    fn track_dep(&mut self, dep: MemoId)
        requires
            old(self).wf(),
            dep.0 < old(self).memos().len(),
        ensures
            final(self).wf(),
            final(self).database() == old(self).database(),
            final(self).in_progress() == old(self).in_progress(),
            final(self).frames() == track_dep_frames(old(self).frames(), dep),
            final(self).cycles_found() == old(self).cycles_found(),
    {
        let n = self.active_queries.0.len();
        if n > 0 {
            let mut frame = ActiveQuery { deps: Vec::new() };
            self.active_queries.0.set_and_swap(n - 1, &mut frame);
            frame.deps.push(dep);
            self.active_queries.0.set(n - 1, frame);
        }
        proof {
            assert(self.frames() =~= track_dep_frames(old(self).frames(), dep));
            assert forall|f: int, d: int|
                0 <= f < self.active_queries.0@.len() && 0 <= d < self.active_queries.0@[f].deps@.len()
                    implies (#[trigger] self.active_queries.0@[f].deps@[d]).0 < self.db.memos.len() by {
                if f == n - 1 && d == self.active_queries.0@[f].deps@.len() - 1 {
                    assert(self.active_queries.0@[f].deps@[d] == dep);
                } else {
                    assert(self.active_queries.0@[f].deps@[d] == old(self).active_queries.0@[f].deps@[d]);
                }
            }
        }
    }

    /// Opens a frame for the reads of a query about to be evaluated.
    fn install_query(&mut self)
        requires
            old(self).wf(),
        ensures
            final(self).wf(),
            final(self).database() == old(self).database(),
            final(self).in_progress() == old(self).in_progress(),
            final(self).frames() == old(self).frames().push(Seq::empty()),
            final(self).cycles_found() == old(self).cycles_found(),
    {
        self.active_queries.0.push(ActiveQuery { deps: Vec::new() });
        proof {
            assert(self.frames() =~= old(self).frames().push(Seq::empty()));
            assert forall|f: int, d: int|
                0 <= f < self.active_queries.0@.len() && 0 <= d < self.active_queries.0@[f].deps@.len()
                    implies (#[trigger] self.active_queries.0@[f].deps@[d]).0 < self.db.memos.len() by {
                assert(f < old(self).active_queries.0@.len());
                assert(self.active_queries.0@[f] == old(self).active_queries.0@[f]);
            }
        }
    }

    /// Ends the evaluation of memo `memo_id` at `current_rev`, whose output
    /// is `out` if it differs from the stored one: commits the memo, and
    /// closes the frame of its reads if the output changed.
    fn finish_query(&mut self, current_rev: Revision, memo_id: MemoId, out: Option<DefaultStorageId>)
        requires
            old(self).wf(),
            memo_id.0 < old(self).memos().len(),
            current_rev.0 == old(self).revision(),
            out matches Some(v) ==> v@ < old(self).stored().len(),
            out is None ==> old(self).memos()[memo_id.0 as int].value_id is Some,
            !old(self).in_progress().contains(memo_id),
            old(self).memos()[memo_id.0 as int].last_verified != current_rev.0,
            out is Some ==> needs_evaluation(old(self).memos()[memo_id.0 as int], old(self).memos()),
        ensures
            final(self).wf(),
            old(self).grows_into(*final(self)),
            final(self).frames() == finish_frames(old(self).frames(), out is Some).0,
            final(self).memos() == old(self).memos().update(
                memo_id.0 as int,
                crate::memo::committed_memo(
                    old(self).memos()[memo_id.0 as int],
                    current_rev.0,
                    change_of(out, finish_frames(old(self).frames(), out is Some).1),
                ),
            ),
    {
        let mut deps: Option<Vec<MemoId>> = None;
        if out.is_some() {
            if let Some(frame) = self.active_queries.0.pop() {
                deps = Some(frame.deps);
            }
        }
        proof {
            if out is Some && old(self).frames().len() > 0 {
                assert(deps->0@ == old(self).frames().last());
            }
        }
        let change = match out {
            Some(v) => Some((v, deps)),
            None => None,
        };
        proof {
            assert(self.frames() =~= finish_frames(old(self).frames(), out is Some).0);
            assert(crate::memo::change_view(change) == change_of(out, finish_frames(old(self).frames(), out is Some).1));
        }
        self.db.memos.commit(
            memo_id,
            current_rev,
            change,
            Ghost(self.db.storage@.len()),
            Ghost(self.db.query_ops.len()),
        );
        proof {
            assert(self.memos() =~= old(self).memos().update(
                memo_id.0 as int,
                crate::memo::committed_memo(
                    old(self).memos()[memo_id.0 as int],
                    current_rev.0,
                    change_of(out, finish_frames(old(self).frames(), out is Some).1),
                ),
            ));
            self.lemma_prefixes_refl();
            old(self).lemma_memo_wf(memo_id.0 as int);
            assert forall|i: int|
                0 <= i < old(self).db.memos.len() implies #[trigger] memo_grows(
                    old(self).db.memos.memo(i),
                    self.db.memos.memo(i),
                    self.db.revision,
                ) by {
                if i != memo_id.0 {
                    assert(self.db.memos.entries@[i] == old(self).db.memos.entries@[i]);
                }
            }
            assert forall|k: int| 0 <= k < old(self).verifying@.len() implies self.db.memos.memo(
                (#[trigger] old(self).verifying@[k]).0 as int,
            ) == old(self).db.memos.memo(old(self).verifying@[k].0 as int) by {
                assert(old(self).verifying@[k] != memo_id);
                assert(old(self).verifying@[k].0 != memo_id.0);
                assert(self.db.memos.entries@[old(self).verifying@[k].0 as int]
                    == old(self).db.memos.entries@[old(self).verifying@[k].0 as int]);
            }
            assert forall|i: int|
                0 <= i < old(self).db.memos.len() && (#[trigger] self.db.memos.memo(i)).last_changed
                    != old(self).db.memos.memo(i).last_changed implies needs_evaluation(
                    old(self).db.memos.memo(i),
                    self.memos(),
                ) by {
                if i != memo_id.0 {
                    assert(self.db.memos.entries@[i] == old(self).db.memos.entries@[i]);
                } else {
                    let m = old(self).memos()[i];
                    assert(old(self).db.memos.memo(i) == m);
                    if m.last_verified != NEVER_VERIFIED {
                        let d = choose|d: int|
                            0 <= d < m.deps.len() && m.deps[d].0 < old(self).memos().len()
                                && (#[trigger] old(self).memos()[m.deps[d].0 as int]).last_changed > m.last_verified;
                        if m.deps[d].0 == memo_id.0 {
                            assert(self.memos()[m.deps[d].0 as int].last_changed == current_rev.0);
                        } else {
                            assert(self.memos()[m.deps[d].0 as int] == old(self).memos()[m.deps[d].0 as int]);
                        }
                        assert(dep_changed_after(m.deps, self.memos(), m.last_verified));
                    }
                }
            }
        }
    }
}

impl<H: Handler> Snapshot<DefaultStorage, H> {
    /// Brings memo `memo_id` up to date at `current_rev`: it is reused if it
    /// was verified at this revision, or if none of the memos it read
    /// changed after it was last verified (each of those is brought up to
    /// date first, in order, until one is found to have changed);
    /// otherwise its query is evaluated again. Returns whether it was
    /// evaluated. Reaching a memo whose verification is under way is a
    /// cycle, and is the only cause of one: a chain of dependencies of any
    /// length is followed to its end.
    fn verify_memo(&mut self, current_rev: Revision, memo_id: MemoId) -> (r: Result<bool, QueryError>)
        requires
            old(self).wf(),
            memo_id.0 < old(self).memos().len(),
            current_rev.0 == old(self).revision(),
        ensures
            final(self).wf(),
            old(self).grows_into(*final(self)),
            r is Ok ==> final(self).memos()[memo_id.0 as int].value_id is Some
                && final(self).memos()[memo_id.0 as int].last_verified == current_rev.0,
            reuses_at_once(old(self).memos()[memo_id.0 as int], current_rev.0) ==> {
                &&& r == Ok::<bool, QueryError>(false)
                &&& final(self).database() == old(self).database()
                &&& final(self).frames() == track_dep_frames(old(self).frames(), memo_id)
            },
            r == Ok::<bool, QueryError>(true) ==> needs_evaluation(
                old(self).memos()[memo_id.0 as int],
                final(self).memos(),
            ),
            r == Ok::<bool, QueryError>(false) && !reuses_at_once(old(self).memos()[memo_id.0 as int], current_rev.0)
                ==> {
                &&& final(self).memos()[memo_id.0 as int] == verified_memo(
                    old(self).memos()[memo_id.0 as int],
                    current_rev.0,
                )
                &&& !needs_evaluation(old(self).memos()[memo_id.0 as int], final(self).memos())
                &&& forall|d: int|
                    0 <= d < old(self).memos()[memo_id.0 as int].deps.len() ==> (#[trigger] final(self).memos()[
                        old(self).memos()[memo_id.0 as int].deps[d].0 as int]).last_verified == current_rev.0
            },
            !reuses_at_once(old(self).memos()[memo_id.0 as int], current_rev.0) && old(self).in_progress().contains(
                memo_id,
            ) ==> {
                &&& r == Err::<bool, QueryError>(QueryError::Cycle)
                &&& final(self).database() == old(self).database()
            },
            H::keeps_records() && r == Ok::<bool, QueryError>(true) ==> eval_recorded_after(
                old(self).records(),
                final(self).records(),
            ),
            r == Err::<bool, QueryError>(QueryError::Cycle) ==> old(self).cycles_found() < final(self).cycles_found(),
            read_recorded(old(self).frames(), final(self).frames(), memo_id),
        decreases usize::MAX - old(self).in_progress().len(), 0usize,
    {
        self.track_dep(memo_id);
        let ghost s1 = *self;
        proof {
            lemma_track_dep_recorded(old(self).frames(), memo_id);
            Snapshot::lemma_same_db(*old(self), s1);
            self.lemma_memo_wf(memo_id.0 as int);
        }
        let entry = self.db.memos.entry(memo_id);
        let last_verified = entry.last_verified;
        let deps = copy_deps(&entry.deps);
        if last_verified == current_rev {
            return Ok(false);
        }
        if self.is_verifying(memo_id) {
            proof {
                self.cycles_found@ = self.cycles_found@ + 1;
            }
            return Err(QueryError::Cycle);
        }
        self.verifying.push(memo_id);
        let ghost s2 = *self;
        proof {
            s2.lemma_grows_refl();
            assert(deps@ == s1.memos()[memo_id.0 as int].deps);
            assert forall|d: int| 0 <= d < deps@.len() implies (#[trigger] deps@[d]).0 < s1.memos().len() by {
                assert(s1.memos()[memo_id.0 as int].deps[d] == deps@[d]);
            }
            assert(s2.in_progress() == old(self).in_progress().push(memo_id));
            assert(self.verifying@.len() == self.verifying.len());
            lemma_frames_grow_refl(s2.frames());
        }
        let mut postdates = false;
        let mut i: usize = 0;
        while i < deps.len() && !postdates
            invariant
                self.wf(),
                old(self).wf(),
                s1.wf(),
                s2.wf(),
                s1.database() == s2.database(),
                s1.in_progress() == old(self).in_progress(),
                !old(self).in_progress().contains(memo_id),
                old(self).grows_into(s1),
                s2.grows_into(*self),
                i <= deps@.len(),
                current_rev.0 == self.revision(),
                memo_id.0 < s1.memos().len(),
                s1.memos().len() == s2.memos().len(),
                forall|d: int| 0 <= d < deps@.len() ==> (#[trigger] deps@[d]).0 < s1.memos().len(),
                self.memos()[memo_id.0 as int] == old(self).memos()[memo_id.0 as int],
                s2.memos()[memo_id.0 as int] == old(self).memos()[memo_id.0 as int],
                s2.in_progress() == old(self).in_progress().push(memo_id),
                self.in_progress() == s2.in_progress(),
                s2.in_progress().len() <= usize::MAX,
                s1.cycles_found() == old(self).cycles_found(),
                s2.cycles_found() == old(self).cycles_found(),
                read_recorded(old(self).frames(), s2.frames(), memo_id),
                frames_grow(s2.frames(), self.frames()),
                deps@ == old(self).memos()[memo_id.0 as int].deps,
                last_verified.0 == old(self).memos()[memo_id.0 as int].last_verified,
                last_verified.0 != current_rev.0,
                postdates ==> dep_changed_after(deps@, self.memos(), last_verified.0),
                !postdates ==> forall|d: int|
                    0 <= d < i ==> (#[trigger] self.memos()[deps@[d].0 as int]).last_verified == current_rev.0
                        && self.memos()[deps@[d].0 as int].last_changed <= last_verified.0,
            decreases deps@.len() - i,
        {
            let ghost before = *self;
            let dep = deps[i];
            proof {
                before.lemma_memo_index(s2, dep.0 as int);
            }
            match self.dep_postdates_rev(current_rev, last_verified, dep) {
                Ok(b) => {
                    postdates = b;
                },
                Err(e) => {
                    let ghost s3 = *self;
                    proof {
                        Snapshot::lemma_grows_trans(s2, before, s3);
                    }
                    self.verifying.pop();
                    proof {
                        assert(self.verifying@ =~= old(self).verifying@);
                        Snapshot::lemma_push_pop(s1, s2, s3, *self, memo_id);
                        Snapshot::lemma_grows_trans(*old(self), s1, *self);
                        lemma_frames_grow_trans(s2.frames(), before.frames(), s3.frames());
                        law_reads_stay_recorded(old(self).frames(), s2.frames(), self.frames(), memo_id);
                    }
                    return Err(e);
                },
            }
            proof {
                lemma_frames_grow_trans(s2.frames(), before.frames(), self.frames());
                Snapshot::lemma_grows_trans(s2, before, *self);
                before.lemma_in_progress_kept(*self, old(self).in_progress().len() as int);
                if postdates {
                    assert(deps@[i as int] == dep);
                    assert(dep_changed_after(deps@, self.memos(), last_verified.0));
                } else {
                    assert forall|d: int| 0 <= d < i + 1 implies (#[trigger] self.memos()[deps@[d].0 as int]).last_verified
                        == current_rev.0 && self.memos()[deps@[d].0 as int].last_changed <= last_verified.0 by {
                        if d < i {
                            before.lemma_frozen(*self, deps@[d].0 as int);
                        } else {
                            assert(deps@[d] == dep);
                        }
                    }
                }
            }
            i = i + 1;
        }
        let ghost s3 = *self;
        if !postdates && last_verified.0 > NEVER_VERIFIED {
            self.verifying.pop();
            let ghost s4 = *self;
            proof {
                assert(self.verifying@ =~= old(self).verifying@);
                Snapshot::lemma_push_pop(s1, s2, s3, s4, memo_id);
                Snapshot::lemma_grows_trans(*old(self), s1, s4);
                old(self).lemma_not_in_progress(memo_id, s2.in_progress());
            }
            self.mark_verified(current_rev, memo_id);
            proof {
                law_reads_stay_recorded(old(self).frames(), s2.frames(), self.frames(), memo_id);
                Snapshot::lemma_grows_trans(*old(self), s4, *self);
                assert forall|d: int| 0 <= d < deps@.len()
                    implies (#[trigger] self.memos()[deps@[d].0 as int]).last_verified == current_rev.0
                        && self.memos()[deps@[d].0 as int].last_changed <= last_verified.0 by {
                    assert(s3.memos()[deps@[d].0 as int].last_verified == current_rev.0);
                    assert(deps@[d].0 != memo_id.0);
                }
            }
            return Ok(false);
        }
        proof {
            if postdates {
                assert(dep_changed_after(deps@, s3.memos(), last_verified.0));
            }
            assert(needs_evaluation(old(self).memos()[memo_id.0 as int], s3.memos()));
        }
        let out = self.evaluate(memo_id);
        let ghost s4 = *self;
        proof {
            lemma_evaluation_frames(s3.frames(), s4.frames(), true);
            lemma_evaluation_frames(s3.frames(), s4.frames(), false);
            lemma_frames_grow_trans(s2.frames(), s3.frames(), s4.frames());
            law_reads_stay_recorded(old(self).frames(), s2.frames(), s4.frames(), memo_id);
            Snapshot::lemma_grows_trans(s2, s3, s4);
            s3.lemma_in_progress_kept(s4, old(self).in_progress().len() as int);
        }
        self.verifying.pop();
        let ghost s5 = *self;
        proof {
            assert(self.verifying@ =~= old(self).verifying@);
            Snapshot::lemma_push_pop(s1, s2, s4, s5, memo_id);
            Snapshot::lemma_grows_trans(*old(self), s1, s5);
        }
        let out = match out {
            Ok(out) => out,
            Err(e) => {
                return Err(e);
            },
        };
        proof {
            old(self).lemma_not_in_progress(memo_id, s2.in_progress());
            if postdates {
                s4.lemma_dep_changed_stays(s3, deps@, last_verified.0);
            }
            assert(needs_evaluation(s5.memos()[memo_id.0 as int], s5.memos()));
        }
        self.commit_output(current_rev, memo_id, out);
        proof {
            lemma_frames_grow_trans(s2.frames(), s3.frames(), self.frames());
            law_reads_stay_recorded(old(self).frames(), s2.frames(), self.frames(), memo_id);
            Snapshot::lemma_grows_trans(*old(self), s5, *self);
            if H::keeps_records() {
                old(self).lemma_records_prefix(s1);
                s2.lemma_records_prefix(s3);
                assert(s5.database() == s4.database());
                s5.lemma_records_prefix(*self);
                let i = s3.records().len() as int;
                assert(self.records()[i] == self.records().subrange(0, s5.records().len() as int)[i]);
                assert(self.records()[i] == Record::Enter(ScopedEventKind::Eval));
            }
            if postdates {
                self.lemma_dep_changed_stays(s5, deps@, last_verified.0);
            }
        }
        Ok(true)
    }

    /// Whether the verification of `memo_id` is under way.
    fn is_verifying(&self, memo_id: MemoId) -> (r: bool)
        ensures
            r == self.in_progress().contains(memo_id),
    {
        let mut i: usize = 0;
        while i < self.verifying.len()
            invariant
                i <= self.verifying@.len(),
                forall|k: int| 0 <= k < i ==> self.verifying@[k] != memo_id,
            decreases self.verifying@.len() - i,
        {
            if self.verifying[i].0 == memo_id.0 {
                assert(self.verifying@[i as int] == memo_id);
                return true;
            }
            i = i + 1;
        }
        false
    }

    /// Evaluates the query of memo `memo_id` on its arguments, in a new
    /// frame for its reads, and returns the identifier of the stored output.
    fn evaluate(&mut self, memo_id: MemoId) -> (r: Result<DefaultStorageId, QueryError>)
        requires
            old(self).wf(),
            memo_id.0 < old(self).memos().len(),
        ensures
            final(self).wf(),
            old(self).grows_into(*final(self)),
            r matches Ok(id) ==> id@ < final(self).stored().len(),
            H::keeps_records() && r is Ok ==> eval_recorded_at(old(self).records(), final(self).records()),
            r matches Err(e) ==> e == QueryError::InputNotSet || e == QueryError::TypeMismatch,
            frames_grow(old(self).frames().push(Seq::empty()), final(self).frames()),
    {
        let query_id = memo_id.query_id(&self.db.memos);
        let args = self.db.storage.get(memo_id.args(&self.db.memos));
        self.install_query();
        let ghost s1 = *self;
        proof {
            Snapshot::lemma_same_db(*old(self), s1);
            assert(self.db.memos.keys@[memo_id.0 as int] == old(self).db.memos.keys@[memo_id.0 as int]);
        }
        let r = run_eval(self, query_id, args);
        proof {
            Snapshot::lemma_grows_trans(*old(self), s1, *self);
        }
        r
    }

    /// Commits `out`, the stored output of a new evaluation of memo
    /// `memo_id`: a changed output is taken, with the reads recorded for it,
    /// and stamped as changed; an unchanged one only marks the memo
    /// verified.
    fn commit_output(&mut self, current_rev: Revision, memo_id: MemoId, out: DefaultStorageId)
        requires
            old(self).wf(),
            memo_id.0 < old(self).memos().len(),
            current_rev.0 == old(self).revision(),
            out@ < old(self).stored().len(),
            !old(self).in_progress().contains(memo_id),
            old(self).memos()[memo_id.0 as int].last_verified != current_rev.0,
            needs_evaluation(old(self).memos()[memo_id.0 as int], old(self).memos()),
        ensures
            final(self).wf(),
            old(self).grows_into(*final(self)),
            final(self).memos()[memo_id.0 as int].value_id is Some,
            final(self).memos()[memo_id.0 as int].last_verified == current_rev.0,
            old(self).memos()[memo_id.0 as int].value_id == Some(out) ==> {
                &&& final(self).memos() == old(self).memos().update(
                    memo_id.0 as int,
                    verified_memo(old(self).memos()[memo_id.0 as int], current_rev.0),
                )
                &&& final(self).frames() == old(self).frames()
            },
            old(self).memos()[memo_id.0 as int].value_id != Some(out) ==> {
                &&& final(self).memos() == old(self).memos().update(
                    memo_id.0 as int,
                    crate::memo::committed_memo(
                        old(self).memos()[memo_id.0 as int],
                        current_rev.0,
                        change_of(Some(out), finish_frames(old(self).frames(), true).1),
                    ),
                )
                &&& final(self).frames() == finish_frames(old(self).frames(), true).0
            },
    {
        let prev = self.db.memos.entry(memo_id).value_id;
        let changed = match prev {
            Some(prev) => prev != out,
            None => true,
        };
        self.finish_query(current_rev, memo_id, if changed { Some(out) } else { None });
    }

    /// The memos whose verification is under way when `earlier` started are
    /// unchanged in `later`, up to position `n` of its list.
    proof fn lemma_in_progress_kept(self, later: Self, n: int)
        requires
            self.grows_into(later),
            0 <= n < self.in_progress().len(),
        ensures
            later.memos().len() >= self.memos().len(),
            self.wf() ==> later.memos()[self.in_progress()[n].0 as int] == self.memos()[self.in_progress()[n].0 as int],
    {
        if self.wf() {
            assert(self.verifying@[n].0 < self.db.memos.len());
            assert(later.db.memos.memo(self.verifying@[n].0 as int) == self.db.memos.memo(self.verifying@[n].0 as int));
        }
    }

    /// A memo verified at the current revision no longer changes.
    proof fn lemma_frozen(self, later: Self, m: int)
        requires
            self.grows_into(later),
            0 <= m < self.memos().len(),
            self.memos()[m].last_verified == self.revision(),
        ensures
            later.memos()[m] == self.memos()[m],
    {
        assert(memo_grows(self.db.memos.memo(m), later.db.memos.memo(m), self.db.revision));
    }

    /// A memo that is not on the list when it was checked is not on a list
    /// that only grew by it.
    proof fn lemma_not_in_progress(self, memo_id: MemoId, pushed: Seq<MemoId>)
        requires
            !self.in_progress().contains(memo_id),
            pushed == self.in_progress().push(memo_id),
        ensures
            pushed.drop_last() == self.in_progress(),
    {
        assert(pushed.drop_last() =~= self.in_progress());
    }

    /// Pushing a memo on the list of verifications under way, growing, and
    /// popping it again is growing.
    proof fn lemma_push_pop(a: Self, b: Self, c: Self, d: Self, memo_id: MemoId)
        requires
            a.wf(),
            a.database() == b.database(),
            b.in_progress() == a.in_progress().push(memo_id),
            b.grows_into(c),
            c.database() == d.database(),
            d.in_progress() == a.in_progress(),
            a.cycles_found() <= b.cycles_found(),
            c.cycles_found() <= d.cycles_found(),
        ensures
            a.grows_into(d),
    {
        assert forall|k: int| 0 <= k < a.verifying@.len() implies d.db.memos.memo(
            (#[trigger] a.verifying@[k]).0 as int,
        ) == a.db.memos.memo(a.verifying@[k].0 as int) by {
            assert(b.verifying@[k] == a.verifying@[k]);
        }
        assert(a.memos() == b.memos());
        assert(c.memos() == d.memos());
    }

    /// Memos are never removed as a snapshot grows.
    proof fn lemma_memo_count_grows(self, later: Self)
        requires
            self.grows_into(later),
        ensures
            self.memos().len() <= later.memos().len(),
    {
    }

    /// A dependency found changed after a revision stays so as the snapshot
    /// grows: revisions of last change never decrease.
    proof fn lemma_dep_changed_stays(self, earlier: Self, deps: Seq<MemoId>, rev: usize)
        requires
            earlier.wf(),
            earlier.grows_into(self),
            dep_changed_after(deps, earlier.memos(), rev),
        ensures
            dep_changed_after(deps, self.memos(), rev),
    {
        let d = choose|d: int|
            0 <= d < deps.len() && deps[d].0 < earlier.memos().len()
                && (#[trigger] earlier.memos()[deps[d].0 as int]).last_changed > rev;
        let m = deps[d].0 as int;
        earlier.lemma_memo_wf(m);
        assert(earlier.db.memos.memo(m) == earlier.memos()[m]);
        assert(memo_grows(earlier.db.memos.memo(m), self.db.memos.memo(m), earlier.db.revision));
        assert(self.memos()[deps[d].0 as int].last_changed > rev);
    }

    proof fn lemma_memo_wf(self, m: int)
        requires
            self.wf(),
            0 <= m < self.memos().len(),
        ensures
            self.memos()[m].wf(self.memos().len(), self.stored().len(), self.revision()),
    {
        assert(self.db.memos.memo(m).wf(self.db.memos.len(), self.db.storage@.len(), self.db.revision));
    }

    proof fn lemma_same_db(a: Self, b: Self)
        requires
            a.database() == b.database(),
            a.in_progress() == b.in_progress(),
            a.cycles_found() <= b.cycles_found(),
        ensures
            a.grows_into(b),
    {
        a.lemma_grows_refl();
    }

    proof fn lemma_memo_index(self, earlier: Self, m: int)
        requires
            earlier.grows_into(self),
            self.wf(),
            0 <= m < earlier.memos().len(),
        ensures
            m < self.memos().len(),
            earlier.memos()[m].value_id is Some ==> self.memos()[m].value_id is Some,
    {
        assert(earlier.db.memos.memo(m) == earlier.memos()[m]);
        assert(memo_grows(earlier.db.memos.memo(m), self.db.memos.memo(m), earlier.db.revision));
    }

    /// Records that memo `memo_id` was verified at `current_rev`.
    fn mark_verified(&mut self, current_rev: Revision, memo_id: MemoId)
        requires
            old(self).wf(),
            memo_id.0 < old(self).memos().len(),
            current_rev.0 == old(self).revision(),
            old(self).memos()[memo_id.0 as int].value_id is Some,
            old(self).memos()[memo_id.0 as int].last_verified != current_rev.0,
            !old(self).in_progress().contains(memo_id),
        ensures
            final(self).wf(),
            old(self).grows_into(*final(self)),
            final(self).frames() == old(self).frames(),
            final(self).memos() == old(self).memos().update(
                memo_id.0 as int,
                crate::memo::verified_memo(old(self).memos()[memo_id.0 as int], current_rev.0),
            ),
    {
        self.db.memos.mark_verified(
            memo_id,
            current_rev,
            Ghost(self.db.storage@.len()),
            Ghost(self.db.query_ops.len()),
        );
        proof {
            assert(self.memos() =~= old(self).memos().update(
                memo_id.0 as int,
                crate::memo::verified_memo(old(self).memos()[memo_id.0 as int], current_rev.0),
            ));
            self.lemma_prefixes_refl();
            assert(self.frames() =~= old(self).frames());
            old(self).lemma_memo_wf(memo_id.0 as int);
            assert forall|i: int|
                0 <= i < old(self).db.memos.len() implies #[trigger] memo_grows(
                    old(self).db.memos.memo(i),
                    self.db.memos.memo(i),
                    self.db.revision,
                ) by {
                if i != memo_id.0 {
                    assert(self.db.memos.entries@[i] == old(self).db.memos.entries@[i]);
                }
            }
        }
    }

    /// Brings `dep` up to date, then tells whether it changed after
    /// `memo_last_verified`.
    fn dep_postdates_rev(
        &mut self,
        current_rev: Revision,
        memo_last_verified: Revision,
        dep: MemoId,
    ) -> (r: Result<bool, QueryError>)
        requires
            old(self).wf(),
            dep.0 < old(self).memos().len(),
            current_rev.0 == old(self).revision(),
        ensures
            final(self).wf(),
            old(self).grows_into(*final(self)),
            r matches Ok(b) ==> {
                &&& b == (final(self).memos()[dep.0 as int].last_changed > memo_last_verified.0)
                &&& final(self).memos()[dep.0 as int].last_verified == current_rev.0
            },
            r == Err::<bool, QueryError>(QueryError::Cycle) ==> old(self).cycles_found() < final(self).cycles_found(),
            read_recorded(old(self).frames(), final(self).frames(), dep),
        decreases usize::MAX - old(self).in_progress().len(), 1usize,
    {
        match self.verify_memo(current_rev, dep) {
            Ok(_evaluated) => Ok(self.db.memos.entry(dep).last_changed.0 > memo_last_verified.0),
            Err(e) => Err(e),
        }
    }

    /// The value memo `memo_id` holds, as a `Q::Out`.
    fn memoized_value<Q: Query>(&self, memo_id: MemoId) -> (r: Result<Arc<Q::Out>, QueryError>)
        requires
            self.wf(),
            memo_id.0 < self.memos().len(),
            self.memos()[memo_id.0 as int].value_id is Some,
        ensures
            r matches Err(e) ==> e == QueryError::TypeMismatch,
    {
        proof {
            self.lemma_memo_wf(memo_id.0 as int);
        }
        let value_id = self.db.memos.entry(memo_id).value_id.unwrap();
        typed_value(payload_downcast::<Q::Out>(self.db.storage.get(value_id)))
    }
}

/// A stored value read back as a `T`: the value if it is one, a type
/// mismatch if it is not.
pub fn typed_value<T>(value: Option<Arc<T>>) -> (r: Result<Arc<T>, QueryError>)
    ensures
        match value {
            Some(v) => r == Ok::<Arc<T>, QueryError>(v),
            None => r == Err::<Arc<T>, QueryError>(QueryError::TypeMismatch),
        },
{
    match value {
        Some(v) => Ok(v),
        None => Err(QueryError::TypeMismatch),
    }
}

/// `after` is `before` with a scope of `kind` recorded after it: entered
/// first and exited last, with what it contained in between.
pub open spec fn scope_recorded(before: Seq<Record>, after: Seq<Record>, kind: ScopedEventKind) -> bool {
    &&& before.len() + 2 <= after.len()
    &&& after.subrange(0, before.len() as int) == before
    &&& after[before.len() as int] == Record::Enter(kind)
    &&& after.last() == Record::Exit
}

/// `after` extends `before`, and an evaluation scope was entered right
/// after it.
pub open spec fn eval_recorded_at(before: Seq<Record>, after: Seq<Record>) -> bool {
    &&& before.len() < after.len()
    &&& after.subrange(0, before.len() as int) == before
    &&& after[before.len() as int] == Record::Enter(ScopedEventKind::Eval)
}

/// An evaluation scope was entered somewhere in what `after` adds to
/// `before`.
pub open spec fn eval_recorded_after(before: Seq<Record>, after: Seq<Record>) -> bool {
    exists|i: int| before.len() <= i < after.len() && #[trigger] after[i] == Record::Enter(ScopedEventKind::Eval)
}

/// Whether every memo of `memos` was verified at revision `rev`.
pub open spec fn all_verified_at(memos: Seq<MemoView>, rev: usize) -> bool {
    forall|m: int| 0 <= m < memos.len() ==> #[trigger] memos[m].last_verified == rev
}

/// Whether one of `deps` changed after revision `rev`, in `memos`.
pub open spec fn dep_changed_after(deps: Seq<MemoId>, memos: Seq<MemoView>, rev: usize) -> bool {
    exists|d: int|
        0 <= d < deps.len() && deps[d].0 < memos.len() && (#[trigger] memos[deps[d].0 as int]).last_changed
            > rev
}

/// Whether memo `m` has to be evaluated again, given the memos `memos` after
/// its dependencies were brought up to date: it was never verified, or one of
/// its dependencies changed after it was last verified.
pub open spec fn needs_evaluation(m: MemoView, memos: Seq<MemoView>) -> bool {
    m.last_verified == NEVER_VERIFIED || dep_changed_after(m.deps, memos, m.last_verified)
}

/// Whether a memo is reused at `rev` without looking at what it read: it
/// was verified at `rev`.
pub open spec fn reuses_at_once(m: MemoView, rev: usize) -> bool {
    m.last_verified == rev
}

/// A copy of the memo identifiers `deps`.
fn copy_deps(deps: &Vec<MemoId>) -> (r: Vec<MemoId>)
    ensures
        r@ == deps@,
{
    let mut r: Vec<MemoId> = Vec::new();
    let mut i: usize = 0;
    while i < deps.len()
        invariant
            i <= deps@.len(),
            r@ == deps@.subrange(0, i as int),
        decreases deps@.len() - i,
    {
        r.push(deps[i]);
        i = i + 1;
        proof {
            assert(r@ =~= deps@.subrange(0, i as int));
        }
    }
    proof {
        assert(r@ =~= deps@);
    }
    r
}

impl<H: Handler> Snapshot<DefaultStorage, H> {
    /// Runs query `Q` on `args`: the memo of `Q` applied to `args` (created
    /// if there is none) is brought up to date, and the value it holds is
    /// returned.
    pub fn query<Q: Query>(&mut self, args: &Q::Args) -> (r: Result<Arc<Q::Out>, QueryError>)
        requires
            old(self).wf(),
        ensures
            final(self).wf(),
            old(self).grows_into(*final(self)),
            r is Ok ==> exists|m: int|
                0 <= m < final(self).memos().len() && (#[trigger] final(self).memos()[m]).value_id is Some
                    && final(self).memos()[m].last_verified == final(self).revision(),
            all_verified_at(old(self).memos(), old(self).revision()) && final(self).memos().len()
                == old(self).memos().len() ==> final(self).memos() == old(self).memos(),
            forall|m: int|
                0 <= m < old(self).memos().len() && old(self).memos()[m].last_verified == old(self).revision()
                    ==> #[trigger] final(self).memos()[m] == old(self).memos()[m],
            forall|m: int|
                0 <= m < old(self).memos().len() && (#[trigger] final(self).memos()[m]).last_changed
                    != old(self).memos()[m].last_changed ==> needs_evaluation(old(self).memos()[m], final(self).memos()),
            exists|m: int| #[trigger] final(self).query_resolved_to(*old(self), m, r),
            H::keeps_records() && all_verified_at(old(self).memos(), old(self).revision()) && final(self).memos().len()
                == old(self).memos().len() ==> final(self).records() == old(self).records().push(
                Record::Enter(ScopedEventKind::Query),
            ).push(Record::Exit),
            H::keeps_records() ==> scope_recorded(old(self).records(), final(self).records(), ScopedEventKind::Query),
            r == Err::<Arc<Q::Out>, QueryError>(QueryError::Cycle) ==> old(self).cycles_found()
                < final(self).cycles_found(),
            frames_grow(old(self).frames(), final(self).frames()),
    {
        let ghost s0 = *self;
        let scope = self.enter_scope(ScopedEventKind::Query);
        let ghost s1 = *self;
        let query_id = self.register::<Q>();
        let ghost s2 = *self;
        let args_id = self.store(args);
        let ghost s3 = *self;
        let memo_id = self.memo_for(MemoKey { query_id, args_id });
        let ghost s4 = *self;
        let current_rev = Revision(self.db.revision);
        let verified = self.verify_memo(current_rev, memo_id);
        let ghost evaluated = verified == Ok::<bool, QueryError>(true);
        let result = match verified {
            Ok(_evaluated) => {
                proof {
                    self.lemma_memo_wf(memo_id.0 as int);
                }
                self.memoized_value::<Q>(memo_id)
            },
            Err(e) => Err(e),
        };
        let ghost s5 = *self;
        self.exit_scope(scope);
        proof {
            Snapshot::lemma_grows_trans(s0, s1, s2);
            Snapshot::lemma_grows_trans(s0, s2, s3);
            Snapshot::lemma_grows_trans(s0, s3, s4);
            Snapshot::lemma_grows_trans(s0, s4, s5);
            Snapshot::lemma_grows_trans(s0, s5, *self);
            if result is Ok {
                assert(self.memos()[memo_id.0 as int] == s5.memos()[memo_id.0 as int]);
            }
            assert forall|m: int|
                0 <= m < s0.memos().len() && s0.memos()[m].last_verified == s0.revision()
                    implies #[trigger] self.memos()[m] == s0.memos()[m] by {
                s0.lemma_frozen(*self, m);
            }
            assert forall|m: int|
                0 <= m < s0.memos().len() && (#[trigger] self.memos()[m]).last_changed != s0.memos()[m].last_changed
                    implies needs_evaluation(s0.memos()[m], self.memos()) by {
                Snapshot::law_only_needed_memos_change(s0, *self, m);
            }
            if all_verified_at(s0.memos(), s0.revision()) && self.memos().len() == s0.memos().len() {
                s4.lemma_memo_count_grows(s5);
                if memo_id.0 >= s3.memos().len() {
                    assert(false);
                }
                assert(s4.memos()[memo_id.0 as int].last_verified == s4.revision());
            }
            let m = memo_id.0 as int;
            if m < s0.memos().len() {
                assert(s4.db.memos.keys@.subrange(0, s3.db.memos.keys@.len() as int) == s3.db.memos.keys@);
                assert(s3.db.memos.keys@.subrange(0, s0.db.memos.keys@.len() as int) == s0.db.memos.keys@);
                assert(s4.db.memos.keys@[m] == s3.db.memos.keys@[m]);
                assert(s3.db.memos.keys@[m] == s0.db.memos.keys@[m]);
                assert(s0.db.memos.keys@[m].query_id.0 < s0.db.query_ops.len());
                assert(s0.db.memos.keys@[m].args_id@ < s0.db.storage@.len());
                assert(s0.memos()[m] == s4.memos()[m]);
                assert(s0.in_progress() == s4.in_progress());
            }
            if H::keeps_records() && result is Ok && (m >= s0.memos().len() || needs_evaluation(
                s0.memos()[m],
                self.memos(),
            )) {
                s4.lemma_memo_wf(m);
                if m < s0.memos().len() {
                    assert(s4.memos()[m] == s0.memos()[m]);
                }
                if reuses_at_once(s4.memos()[m], s4.revision()) {
                    assert(!needs_evaluation(s4.memos()[m], s5.memos())) by {
                        if dep_changed_after(s4.memos()[m].deps, s5.memos(), s4.memos()[m].last_verified) {
                            let d = choose|d: int|
                                0 <= d < s4.memos()[m].deps.len() && s4.memos()[m].deps[d].0 < s5.memos().len()
                                    && (#[trigger] s5.memos()[s4.memos()[m].deps[d].0 as int]).last_changed
                                    > s4.memos()[m].last_verified;
                            s5.lemma_memo_wf(s4.memos()[m].deps[d].0 as int);
                        }
                    }
                }
                assert(evaluated == true);
                s0.lemma_records_prefix(s4);
                let i = choose|i: int|
                    s4.records().len() <= i < s5.records().len() && #[trigger] s5.records()[i]
                        == Record::Enter(ScopedEventKind::Eval);
                assert(self.records()[i] == s5.records()[i]);
            }
            assert(self.query_resolved_to(s0, m, result));
            if H::keeps_records() {
                let (r0, r1, r5) = (s0.records(), s1.records(), s5.records());
                Snapshot::lemma_grows_trans(s1, s2, s3);
                Snapshot::lemma_grows_trans(s1, s3, s4);
                Snapshot::lemma_grows_trans(s1, s4, s5);
                assert(s1.db.grows_into(s5.db));
                assert(r5.subrange(0, r1.len() as int) == r1);
                assert(r5[r0.len() as int] == r5.subrange(0, r1.len() as int)[r0.len() as int]);
                assert(self.records().subrange(0, r0.len() as int) =~= r0);
            }
        }
        result
    }

    /// `m` is the memo that a query call resolved to, which turned this
    /// snapshot from `before` into `self` and returned `r`: a memo present
    /// afterwards; holding a value verified at the current revision when the
    /// call succeeded; when it was verified at the current revision already,
    /// the memos stayed as they were, the handler was told of the query's
    /// scope and nothing else, and only the downcast of its value could
    /// fail; when it was under verification further up and not verified at
    /// the current revision, the call ended in a cycle error and changed no
    /// memo; when it was new, or needed evaluation, a successful call
    /// recorded an evaluation; and on every path its read was recorded in the
    /// innermost frame of reads, which the query under evaluation commits as
    /// its dependencies.
    pub open spec fn query_resolved_to<T>(self, before: Self, m: int, r: Result<T, QueryError>) -> bool {
        &&& 0 <= m < self.memos().len()
        &&& r is Ok ==> self.memos()[m].value_id is Some && self.memos()[m].last_verified == self.revision()
        &&& m < before.memos().len() && reuses_at_once(before.memos()[m], before.revision()) ==> {
            &&& self.memos() == before.memos()
            &&& H::keeps_records() ==> self.records() == before.records().push(
                Record::Enter(ScopedEventKind::Query),
            ).push(Record::Exit)
            &&& r matches Err(e) ==> e == QueryError::TypeMismatch
        }
        &&& m < before.memos().len() && !reuses_at_once(before.memos()[m], before.revision())
            && before.in_progress().contains(MemoId(m as usize)) ==> {
            &&& r is Err && r->Err_0 == QueryError::Cycle
            &&& self.memos() == before.memos()
        }
        &&& H::keeps_records() && r is Ok && (m >= before.memos().len() || needs_evaluation(
            before.memos()[m],
            self.memos(),
        )) ==> eval_recorded_after(before.records(), self.records())
        &&& read_recorded(before.frames(), self.frames(), MemoId(m as usize))
    }

    /// The identifier of query type `Q`, registered if it is new.
    fn register<Q: Query>(&mut self) -> (r: crate::query_ops::QueryId)
        requires
            old(self).wf(),
        ensures
            final(self).wf(),
            old(self).grows_into(*final(self)),
            r.0 < final(self).registered(),
            final(self).frames() == old(self).frames(),
            final(self).memos() == old(self).memos(),
            final(self).stored() == old(self).stored(),
            final(self).registered() > old(self).registered() ==> r.0 == old(self).registered(),
            H::keeps_records() ==> recorded_if(
                old(self).records(),
                final(self).records(),
                final(self).registered() > old(self).registered(),
                Record::Point(EventKind::RegisterQueryOps),
            ),
    {
        let q = self.db.query_ops.query_id(type_id_of::<Q>(), QueryOps::new::<Q>(), &mut self.db.event_handler);
        proof {
            old(self).db.memos.lemma_wf_grow(
                self.db.storage@.len(),
                self.db.storage@.len(),
                old(self).db.query_ops.len(),
                self.db.query_ops.len(),
                self.db.revision,
                self.db.revision,
            );
            self.lemma_prefixes_refl();
            if H::keeps_records() {
                Snapshot::<DefaultStorage, H>::lemma_recorded_prefix(old(self).records(), self.records(), self.registered() > old(self).registered(), Record::Point(EventKind::RegisterQueryOps));
            }
            assert(self.db.query_ops.type_ids@.subrange(0, old(self).db.query_ops.type_ids@.len() as int)
                =~= old(self).db.query_ops.type_ids@);
        }
        q
    }

    /// The memo of `key`, created if there is none.
    fn memo_for(&mut self, key: MemoKey) -> (r: MemoId)
        requires
            old(self).wf(),
            key.args_id@ < old(self).stored().len(),
            key.query_id.0 < old(self).registered(),
        ensures
            final(self).wf(),
            old(self).grows_into(*final(self)),
            r.0 < final(self).memos().len(),
            final(self).frames() == old(self).frames(),
            r.0 < old(self).memos().len() ==> final(self).memos() == old(self).memos(),
            r.0 >= old(self).memos().len() ==> final(self).memos().len() == old(self).memos().len() + 1,
            final(self).database().memo_keys()[r.0 as int] == key,
            r.0 >= old(self).memos().len() ==> final(self).memos()[r.0 as int].last_verified == NEVER_VERIFIED,
            final(self).stored() == old(self).stored(),
            final(self).registered() == old(self).registered(),
            H::keeps_records() ==> recorded_if(
                old(self).records(),
                final(self).records(),
                r.0 >= old(self).memos().len(),
                Record::Point(EventKind::RegisterMemo),
            ),
    {
        let m = self.db.memos.memo_id(
            &mut self.db.event_handler,
            key,
            Ghost(self.db.storage@.len()),
            Ghost(self.db.query_ops.len()),
            Ghost(self.db.revision),
        );
        proof {
            assert(self.db.memos.keys@.subrange(0, old(self).db.memos.keys@.len() as int)
                =~= old(self).db.memos.keys@);
            self.lemma_prefixes_refl();
            if H::keeps_records() {
                Snapshot::<DefaultStorage, H>::lemma_recorded_prefix(old(self).records(), self.records(), m.0 >= old(self).memos().len(), Record::Point(EventKind::RegisterMemo));
            }
            assert forall|i: int|
                0 <= i < old(self).db.memos.len() implies #[trigger] memo_grows(
                    old(self).db.memos.memo(i),
                    self.db.memos.memo(i),
                    self.db.revision,
                ) by {
                assert(self.db.memos.entries@[i] == old(self).db.memos.entries@[i]);
            }
            assert(self.frames() =~= old(self).frames());
        }
        m
    }
}

} // verus!
