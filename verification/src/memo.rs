//! The memo table: for every query applied to arguments, the stored value it
//! produced, the memos it read, and the revisions at which it was last
//! verified and last changed.
use vstd::prelude::*;
use crate::event::Event;
use crate::event::EventKind;
use crate::event::Handler;
use crate::event::Record;
use crate::event::recorded_if;
use crate::query_ops::QueryId;
use crate::storage::DefaultStorageId;

verus! {

/// The revision that a memo has before it was ever verified.
pub const NEVER_VERIFIED: usize = 1;

/// A revision of the database: it grows by one with every input change.
#[derive(Clone, Copy, PartialEq, Eq, Debug, Structural)]
pub struct Revision(pub usize);

/// The position of a memo in the table.
#[derive(Clone, Copy, PartialEq, Eq, Debug, Structural)]
pub struct MemoId(pub usize);

/// What a memo is the memo of: a query and its stored arguments.
#[derive(Clone, Copy, PartialEq, Eq, Debug, Structural)]
pub struct MemoKey {
    pub query_id: QueryId,
    pub args_id: DefaultStorageId,
}

impl MemoId {
    pub fn query_id(self, memos: &Memos) -> (r: QueryId)
        requires
            self.0 < memos.keys@.len(),
        ensures
            r == memos.keys@[self.0 as int].query_id,
    {
        memos.keys[self.0].query_id
    }

    pub fn args(self, memos: &Memos) -> (r: DefaultStorageId)
        requires
            self.0 < memos.keys@.len(),
        ensures
            r == memos.keys@[self.0 as int].args_id,
    {
        memos.keys[self.0].args_id
    }
}

#[derive(Debug)]
pub struct MemoEntry {
    pub deps: Vec<MemoId>,
    pub last_verified: Revision,
    pub last_changed: Revision,
    pub value_id: Option<DefaultStorageId>,
}

/// The mathematical content of a memo entry.
pub struct MemoView {
    pub deps: Seq<MemoId>,
    pub last_verified: usize,
    pub last_changed: usize,
    pub value_id: Option<DefaultStorageId>,
}

impl MemoEntry {
    pub open spec fn view(&self) -> MemoView {
        MemoView {
            deps: self.deps@,
            last_verified: self.last_verified.0,
            last_changed: self.last_changed.0,
            value_id: self.value_id,
        }
    }

    /// A memo that was never verified and holds no value.
    pub fn new() -> (r: Self)
        ensures
            r.view() == fresh_memo(),
    {
        MemoEntry {
            deps: Vec::new(),
            last_verified: Revision(NEVER_VERIFIED),
            last_changed: Revision(NEVER_VERIFIED),
            value_id: None,
        }
    }
}

/// A memo that was never verified and holds no value.
pub open spec fn fresh_memo() -> MemoView {
    MemoView {
        deps: Seq::empty(),
        last_verified: NEVER_VERIFIED as usize,
        last_changed: NEVER_VERIFIED as usize,
        value_id: None,
    }
}

/// The memo of an input whose value was set at revision `rev`.
pub open spec fn input_memo(rev: usize, value_id: DefaultStorageId) -> MemoView {
    MemoView { deps: Seq::empty(), last_verified: rev, last_changed: rev, value_id: Some(value_id) }
}

/// The memo `m` after it was verified at `rev` without changing.
pub open spec fn verified_memo(m: MemoView, rev: usize) -> MemoView {
    MemoView { last_verified: rev, ..m }
}

/// The memo `m` after a commit at `rev`: with a change, the new value is
/// taken, the memo counts as changed at `rev`, and the new dependencies (if
/// any were recorded) replace the old ones.
pub open spec fn committed_memo(
    m: MemoView,
    rev: usize,
    change: Option<(DefaultStorageId, Option<Seq<MemoId>>)>,
) -> MemoView {
    match change {
        None => verified_memo(m, rev),
        Some((value_id, deps)) => MemoView {
            deps: match deps {
                Some(d) => d,
                None => m.deps,
            },
            last_verified: rev,
            last_changed: rev,
            value_id: Some(value_id),
        },
    }
}

/// The table of memos, in the order they were created.
#[derive(Debug)]
pub struct Memos {
    pub keys: Vec<MemoKey>,
    pub entries: Vec<MemoEntry>,
}

impl Memos {
    pub open spec fn len(&self) -> nat {
        self.keys@.len()
    }

    pub open spec fn memo(&self, m: int) -> MemoView {
        self.entries@[m].view()
    }

    /// Whether the table holds a memo for `key`.
    pub open spec fn has_key(&self, key: MemoKey) -> bool {
        exists|m: int| 0 <= m < self.len() && self.keys@[m] == key
    }

    /// The memo views, in table order.
    pub open spec fn views(&self) -> Seq<MemoView> {
        Seq::new(self.len(), |m: int| self.memo(m))
    }

    /// The table is consistent with a storage of `values` values, a registry
    /// of `queries` queries and the current revision `rev`.
    pub open spec fn wf(&self, values: nat, queries: nat, rev: usize) -> bool {
        &&& self.keys@.len() == self.entries@.len()
        &&& forall|i: int, j: int|
            0 <= i < j < self.len() ==> #[trigger] self.keys@[i] != #[trigger] self.keys@[j]
        &&& forall|i: int|
            0 <= i < self.len() ==> {
                &&& (#[trigger] self.keys@[i]).args_id@ < values
                &&& self.keys@[i].query_id.0 < queries
            }
        &&& forall|i: int| 0 <= i < self.len() ==> #[trigger] self.memo(i).wf(self.len(), values, rev)
    }

    pub fn new() -> (r: Self)
        ensures
            r.len() == 0,
            forall|values: nat, queries: nat, rev: usize| rev > NEVER_VERIFIED ==> #[trigger] r.wf(values, queries, rev),
    {
        Memos { keys: Vec::new(), entries: Vec::new() }
    }

    /// A table consistent with fewer values and queries, at an earlier
    /// revision, is consistent with more of them at a later one.
    pub proof fn lemma_wf_grow(&self, values: nat, values2: nat, queries: nat, queries2: nat, rev: usize, rev2: usize)
        requires
            self.wf(values, queries, rev),
            values <= values2,
            queries <= queries2,
            rev <= rev2,
        ensures
            self.wf(values2, queries2, rev2),
    {
        assert forall|i: int| 0 <= i < self.len() implies #[trigger] self.memo(i).wf(self.len(), values2, rev2) by {
            assert(self.memo(i).wf(self.len(), values, rev));
        }
    }


    /// Changing one memo of a consistent table into a consistent memo keeps
    /// the table consistent.
    pub proof fn lemma_wf_update(old: &Memos, new: &Memos, m: int, values: nat, queries: nat, rev: usize)
        requires
            old.wf(values, queries, rev),
            new.keys@ == old.keys@,
            new.entries@.len() == old.entries@.len(),
            0 <= m < old.len(),
            forall|i: int| 0 <= i < old.len() && i != m ==> new.entries@[i] == old.entries@[i],
            new.memo(m).wf(new.len(), values, rev),
        ensures
            new.wf(values, queries, rev),
    {
        assert forall|i: int| 0 <= i < new.len() implies #[trigger] new.memo(i).wf(new.len(), values, rev) by {
            if i != m {
                assert(old.memo(i).wf(old.len(), values, rev));
            }
        }
        assert forall|i: int, j: int|
            0 <= i < j < new.len() implies #[trigger] new.keys@[i] != #[trigger] new.keys@[j] by {
            assert(old.keys@[i] != old.keys@[j]);
        }
    }

    /// Adding a consistent memo under a new key to a consistent table keeps
    /// it consistent.
    pub proof fn lemma_wf_push(old: &Memos, new: &Memos, key: MemoKey, values: nat, queries: nat, rev: usize)
        requires
            old.wf(values, queries, rev),
            new.keys@ == old.keys@.push(key),
            new.entries@.len() == old.entries@.len() + 1,
            forall|i: int| 0 <= i < old.len() ==> new.entries@[i] == old.entries@[i],
            !old.has_key(key),
            key.args_id@ < values,
            key.query_id.0 < queries,
            new.memo(old.len() as int).wf(new.len(), values, rev),
        ensures
            new.wf(values, queries, rev),
    {
        assert forall|i: int| 0 <= i < new.len() implies #[trigger] new.memo(i).wf(new.len(), values, rev) by {
            if i < old.len() {
                assert(old.memo(i).wf(old.len(), values, rev));
                assert(new.memo(i) == old.memo(i));
            }
        }
        assert forall|i: int, j: int|
            0 <= i < j < new.len() implies #[trigger] new.keys@[i] != #[trigger] new.keys@[j] by {
            if j < old.len() {
                assert(old.keys@[i] != old.keys@[j]);
            } else {
                assert(new.keys@[j] == key);
                assert(new.keys@[i] == old.keys@[i]);
            }
        }
        assert forall|i: int| 0 <= i < new.len() implies {
            &&& (#[trigger] new.keys@[i]).args_id@ < values
            &&& new.keys@[i].query_id.0 < queries
        } by {
            if i < old.len() {
                assert(new.keys@[i] == old.keys@[i]);
            }
        }
    }

    /// The position of the memo of `key`, if there is one.
    pub fn find(&self, key: MemoKey) -> (r: Option<MemoId>)
        ensures
            match r {
                Some(m) => m.0 < self.len() && self.keys@[m.0 as int] == key,
                None => !self.has_key(key),
            },
    {
        let mut i: usize = 0;
        while i < self.keys.len()
            invariant
                i <= self.keys@.len(),
                forall|j: int| 0 <= j < i ==> self.keys@[j] != key,
            decreases self.keys@.len() - i,
        {
            if self.keys[i] == key {
                return Some(MemoId(i));
            }
            i = i + 1;
        }
        None
    }

    /// Replaces the entry of memo `m`.
    fn replace_entry(&mut self, m: MemoId, entry: MemoEntry)
        requires
            m.0 < old(self).entries@.len(),
        ensures
            final(self).keys == old(self).keys,
            final(self).entries@ == old(self).entries@.update(m.0 as int, entry),
    {
        self.entries.set(m.0, entry);
    }

    /// Installs the memo of an input with value `value_id` at `rev`: the
    /// memo of `key` is replaced if there is one, else a new memo is added
    /// and the handler is told so.
    pub fn new_input<H: Handler>(
        &mut self,
        handler: &mut H,
        rev: Revision,
        key: MemoKey,
        value_id: DefaultStorageId,
        values: Ghost<nat>,
        queries: Ghost<nat>,
    ) -> (m: MemoId)
        requires
            old(self).wf(values@, queries@, rev.0),
            key.args_id@ < values@,
            key.query_id.0 < queries@,
            value_id@ < values@,
            rev.0 > NEVER_VERIFIED,
        ensures
            final(self).wf(values@, queries@, rev.0),
            m.0 < final(self).len(),
            final(self).keys@[m.0 as int] == key,
            final(self).memo(m.0 as int) == input_memo(rev.0, value_id),
            old(self).has_key(key) ==> {
                &&& final(self).keys@ == old(self).keys@
                &&& old(self).keys@[m.0 as int] == key
                &&& forall|i: int|
                    0 <= i < old(self).len() && i != m.0 ==> final(self).memo(i) == old(self).memo(i)
            },
            !old(self).has_key(key) ==> {
                &&& final(self).keys@ == old(self).keys@.push(key)
                &&& m.0 == old(self).len()
                &&& forall|i: int|
                    0 <= i < old(self).len() ==> final(self).memo(i) == old(self).memo(i)
            },
            H::keeps_records() ==> recorded_if(
                old(handler).records(),
                final(handler).records(),
                !old(self).has_key(key),
                Record::Point(EventKind::RegisterMemo),
            ),
            old(handler).inv() ==> final(handler).inv(),
    {
        let entry = MemoEntry {
            deps: Vec::new(),
            last_verified: rev,
            last_changed: rev,
            value_id: Some(value_id),
        };
        match self.find(key) {
            Some(m) => {
                let ghost pre = *self;
                self.replace_entry(m, entry);
                assert(self.memo(m.0 as int) == input_memo(rev.0, value_id));
                proof {
                    Memos::lemma_wf_update(&pre, self, m.0 as int, values@, queries@, rev.0);
                }
                m
            },
            None => {
                handler.event(Event::new(EventKind::RegisterMemo));
                let ghost pre = *self;
                let m = MemoId(self.keys.len());
                self.keys.push(key);
                self.entries.push(entry);
                assert(self.memo(m.0 as int) == input_memo(rev.0, value_id));
                proof {
                    Memos::lemma_wf_push(&pre, self, key, values@, queries@, rev.0);
                }
                m
            },
        }
    }

    /// The memo of `key`; a fresh one is added (and the handler told so) if
    /// there is none yet.
    pub fn memo_id<H: Handler>(
        &mut self,
        handler: &mut H,
        key: MemoKey,
        values: Ghost<nat>,
        queries: Ghost<nat>,
        rev: Ghost<usize>,
    ) -> (m: MemoId)
        requires
            old(self).wf(values@, queries@, rev@),
            key.args_id@ < values@,
            key.query_id.0 < queries@,
            rev@ > NEVER_VERIFIED,
        ensures
            final(self).wf(values@, queries@, rev@),
            m.0 < final(self).len(),
            final(self).keys@[m.0 as int] == key,
            old(self).has_key(key) ==> final(self).keys == old(self).keys && final(self).entries
                == old(self).entries,
            !old(self).has_key(key) ==> {
                &&& final(self).keys@ == old(self).keys@.push(key)
                &&& final(self).entries@.len() == old(self).entries@.len() + 1
                &&& forall|i: int|
                    0 <= i < old(self).len() ==> final(self).entries@[i] == old(self).entries@[i]
                &&& final(self).memo(m.0 as int) == fresh_memo()
            },
            H::keeps_records() ==> recorded_if(
                old(handler).records(),
                final(handler).records(),
                !old(self).has_key(key),
                Record::Point(EventKind::RegisterMemo),
            ),
            old(handler).inv() ==> final(handler).inv(),
    {
        match self.find(key) {
            Some(m) => m,
            None => {
                handler.event(Event::new(EventKind::RegisterMemo));
                let ghost pre = *self;
                let m = MemoId(self.keys.len());
                self.keys.push(key);
                self.entries.push(MemoEntry::new());
                proof {
                    Memos::lemma_wf_push(&pre, self, key, values@, queries@, rev@);
                }
                m
            },
        }
    }

    /// Records that memo `m` was verified at `rev`.
    pub fn mark_verified(&mut self, m: MemoId, rev: Revision, values: Ghost<nat>, queries: Ghost<nat>)
        requires
            m.0 < old(self).len(),
            old(self).wf(values@, queries@, rev.0),
            old(self).memo(m.0 as int).value_id is Some,
        ensures
            final(self).wf(values@, queries@, rev.0),
            final(self).keys == old(self).keys,
            final(self).entries@.len() == old(self).entries@.len(),
            final(self).memo(m.0 as int) == verified_memo(old(self).memo(m.0 as int), rev.0),
            forall|i: int|
                0 <= i < old(self).len() && i != m.0 ==> final(self).entries@[i] == old(
                    self,
                ).entries@[i],
    {
        let ghost pre = *self;
        let mut entry = MemoEntry::new();
        self.entries.set_and_swap(m.0, &mut entry);
        entry.last_verified = rev;
        self.entries.set(m.0, entry);
        proof {
            assert(pre.memo(m.0 as int).wf(pre.len(), values@, rev.0));
            Memos::lemma_wf_update(&pre, self, m.0 as int, values@, queries@, rev.0);
        }
    }

    /// Commits the outcome of an update of memo `m` at `rev`.
    pub fn commit(
        &mut self,
        m: MemoId,
        rev: Revision,
        change: Option<(DefaultStorageId, Option<Vec<MemoId>>)>,
        values: Ghost<nat>,
        queries: Ghost<nat>,
    )
        requires
            m.0 < old(self).len(),
            old(self).wf(values@, queries@, rev.0),
            rev.0 > NEVER_VERIFIED,
            change is None ==> old(self).memo(m.0 as int).value_id is Some,
            change matches Some((v, deps)) ==> v@ < values@ && (deps matches Some(d) ==> forall|
                i: int,
            | 0 <= i < d@.len() ==> (#[trigger] d@[i]).0 < old(self).len()),
        ensures
            final(self).wf(values@, queries@, rev.0),
            final(self).keys == old(self).keys,
            final(self).entries@.len() == old(self).entries@.len(),
            final(self).memo(m.0 as int) == committed_memo(
                old(self).memo(m.0 as int),
                rev.0,
                change_view(change),
            ),
            forall|i: int|
                0 <= i < old(self).len() && i != m.0 ==> final(self).entries@[i] == old(
                    self,
                ).entries@[i],
    {
        let ghost pre = *self;
        let mut entry = MemoEntry::new();
        self.entries.set_and_swap(m.0, &mut entry);
        entry.last_verified = rev;
        match change {
            Some((value_id, deps)) => {
                entry.value_id = Some(value_id);
                entry.last_changed = rev;
                match deps {
                    Some(deps) => {
                        entry.deps = deps;
                    },
                    None => {},
                }
            },
            None => {},
        }
        self.entries.set(m.0, entry);
        proof {
            assert(pre.memo(m.0 as int).wf(pre.len(), values@, rev.0));
            Memos::lemma_wf_update(&pre, self, m.0 as int, values@, queries@, rev.0);
        }
    }

    pub fn entry(&self, m: MemoId) -> (r: &MemoEntry)
        requires
            m.0 < self.entries@.len(),
        ensures
            *r == self.entries@[m.0 as int],
    {
        &self.entries[m.0]
    }
}

/// The mathematical content of a pending change.
pub open spec fn change_view(change: Option<(DefaultStorageId, Option<Vec<MemoId>>)>) -> Option<
    (DefaultStorageId, Option<Seq<MemoId>>),
> {
    match change {
        None => None,
        Some((value_id, deps)) => Some(
            (
                value_id,
                match deps {
                    None => None,
                    Some(d) => Some(d@),
                },
            ),
        ),
    }
}

impl MemoView {
    /// A memo's dependencies are memos of a table of `memos` memos, its value
    /// is one of `values` stored values, it was verified no later than
    /// `rev` and changed no later than it was verified, and it has a value
    /// exactly once it was verified.
    pub open spec fn wf(self, memos: nat, values: nat, rev: usize) -> bool {
        &&& forall|d: int| 0 <= d < self.deps.len() ==> (#[trigger] self.deps[d]).0 < memos
        &&& (self.value_id matches Some(v) ==> v@ < values)
        &&& NEVER_VERIFIED <= self.last_changed <= self.last_verified <= rev
        &&& (self.value_id is Some <==> self.last_verified > NEVER_VERIFIED)
    }
}

} // verus!
