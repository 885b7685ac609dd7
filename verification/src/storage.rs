//! Interned storage of the values that queries take and return.
//!
//! Every value is stored once: storing a value equal (by its type and its
//! `Eq`) to one already stored gives back the identifier of the stored one.
use vstd::prelude::*;
use crate::event::Event;
use crate::event::EventKind;
use crate::event::Handler;
use crate::event::Record;
use crate::event::recorded_if;
use crate::query::InputId;
use core::any::Any;
use core::hash::BuildHasher;
use core::hash::Hash;
use std::collections::HashMap;
use std::hash::RandomState;
use std::sync::Arc;
use vstd::std_specs::cmp::PartialEqSpec;

verus! {

broadcast use vstd::std_specs::hash::group_hash_axioms;

/// A stored value whose type is known only at run time: a shared
/// `dyn Any + Send + Sync` pointer. The functions below that create, copy
/// and inspect it are the only ones that look inside.
#[verifier::external_body]
#[derive(Debug)]
pub struct Payload(Arc<dyn Any + Send + Sync>);

/// `Arc::new`, unsized to a type-erased payload. Nothing is stated of the
/// result beyond its existence.
#[verifier::external_body]
pub(crate) fn payload_new<T: Send + Sync + 'static>(value: T) -> Payload {
    let shared: Arc<dyn Any + Send + Sync> = Arc::new(value);
    Payload(shared)
}

/// `Arc::clone`: the copy shares the allocation of `payload`, so it is the
/// same stored value.
#[verifier::external_body]
pub(crate) fn payload_clone(payload: &Payload) -> (r: Payload)
    ensures
        r == *payload,
{
    let shared: &Arc<dyn Any + Send + Sync> = &payload.0;
    Payload(shared.clone())
}

/// `<dyn Any>::downcast_ref`: a reference to the stored value if it has type
/// `T`. Which type a payload holds is not stated.
#[verifier::external_body]
pub(crate) fn payload_downcast_ref<T: 'static>(payload: &Payload) -> Option<&T> {
    payload.0.downcast_ref::<T>()
}

/// `Arc::downcast`: the stored value as an `Arc<T>` if it has type `T`. Which
/// type a payload holds is not stated.
#[verifier::external_body]
pub(crate) fn payload_downcast<T: Send + Sync + 'static>(payload: Payload) -> Option<Arc<T>> {
    payload.0.downcast::<T>().ok()
}

/// `RandomState::new`: a hasher seeded at random for this process.
#[verifier::external_body]
fn new_fingerprint_hasher() -> RandomState {
    RandomState::new()
}

/// `BuildHasher::hash_one`: the fingerprint of `value` under a randomly
/// seeded hasher; nothing is stated of its value.
#[verifier::external_body]
fn fingerprint<T: Hash>(hasher: &RandomState, value: &T) -> u64 {
    hasher.hash_one(value)
}

/// The identifier of a value in a [`DefaultStorage`]: its position.
#[derive(Clone, Copy, PartialEq, Eq, PartialOrd, Ord, Hash, Debug, Structural)]
pub struct DefaultStorageId(usize);

impl View for DefaultStorageId {
    type V = nat;

    closed spec fn view(&self) -> nat {
        self.0 as nat
    }
}

impl DefaultStorageId {
    /// The identifier of position `idx`; the last position of `usize` has
    /// none.
    pub fn new(idx: usize) -> (r: Self)
        requires
            idx < usize::MAX,
        ensures
            r@ == idx,
    {
        DefaultStorageId(idx)
    }

    pub fn idx(self) -> (r: usize)
        ensures
            r == self@,
    {
        self.0
    }
}

/// Storage of values of any type, each kept once.
pub trait Storage: Sized {
    type Id;

    /// A shared handle on a stored value.
    type Handle: Handle;

    /// The storage's internal bookkeeping is consistent.
    spec fn wf(&self) -> bool;

    /// Whether `id` names a value held by this storage.
    spec fn holds(&self, id: Self::Id) -> bool;

    /// Stores `value`, or finds it stored already, and returns its identifier.
    fn store<H: Handler, T: Clone + Eq + Hash + Send + Sync + 'static>(
        &mut self,
        handler: &mut H,
        value: &T,
    ) -> (id: Self::Id)
        requires
            old(self).wf(),
        ensures
            final(self).wf(),
            final(self).holds(id),
    ;

    fn get(&self, id: Self::Id) -> Self::Handle
        requires
            self.holds(id),
    ;
}

/// Moves the values that are still needed from one storage into a fresh one.
pub trait Transfer: Sized {
    type Storage: Storage;

    /// The bookkeeping of both storages is consistent.
    spec fn wf(&self) -> bool;

    /// Whether `id` names a value of the storage being emptied.
    spec fn holds_source(&self, id: <Self::Storage as Storage>::Id) -> bool;

    /// Whether the value that `id` names can still be read: it names a value
    /// of the storage being emptied that was not transferred yet.
    spec fn readable(&self, id: <Self::Storage as Storage>::Id) -> bool;

    /// Retrieve a value of the storage being emptied.
    ///
    /// `id` must name a value of the storage that created this transfer, one
    /// that was not transferred yet.
    fn get(&mut self, id: <Self::Storage as Storage>::Id) -> (r: <Self::Storage as Storage>::Handle)
        requires
            old(self).wf(),
            old(self).readable(id),
        ensures
            final(self).wf(),
    ;

    /// Copies the value that `id` names into the new storage, and returns its
    /// identifier there; `None` if that value is not a `T`.
    fn transfer<T: Clone + Eq + Hash + Send + Sync + 'static>(
        &mut self,
        id: <Self::Storage as Storage>::Id,
    ) -> (r: Option<<Self::Storage as Storage>::Id>)
        requires
            old(self).wf(),
            old(self).holds_source(id),
        ensures
            final(self).wf(),
    ;

    /// The new storage, holding the values transferred; the handler is told
    /// how many values were left behind.
    fn into_storage<H: Handler>(self, handler: &mut H) -> (r: Self::Storage)
        requires
            self.wf(),
        ensures
            r.wf(),
    ;
}

/// A shared, type-erased handle on a stored value.
pub trait Handle: Sized {
    /// The value as a `T`, `None` if it is not a `T`.
    fn downcast<T: Send + Sync + 'static>(self) -> Option<Arc<T>>;
}

impl Handle for Payload {
    fn downcast<T: Send + Sync + 'static>(self) -> Option<Arc<T>> {
        payload_downcast::<T>(self)
    }
}

/// The storage that a database uses unless told otherwise: values are kept in
/// insertion order, and found again through buckets of identifiers keyed by a
/// fingerprint of the value.
#[derive(Debug)]
pub struct DefaultStorage {
    fingerprint_hasher: RandomState,
    index: HashMap<u64, Vec<DefaultStorageId>>,
    values: Vec<Payload>,
}

impl View for DefaultStorage {
    type V = Seq<Payload>;

    closed spec fn view(&self) -> Seq<Payload> {
        self.values@
    }
}

/// `answer` is what comparing `value` with the stored value `stored` gave:
/// `stored` was read back as a `T` by `payload_downcast_ref` (`found`), and
/// the answer is no when it is not a `T`, and otherwise what `==` between
/// `value` and it returned (for a type whose `==` follows its
/// specification, whether the two are equal).
pub closed spec fn entry_matches<T: PartialEq + 'static>(stored: Payload, value: T, answer: bool) -> bool {
    exists|found: Option<&T>|
        #[trigger] call_ensures(payload_downcast_ref::<T>, (&stored,), found) && match found {
            None => !answer,
            Some(v) => T::obeys_eq_spec() ==> answer == value.eq_spec(v),
        }
}

/// `value` is what `payload_downcast` gave for `stored`: the stored value,
/// read back as a `T`.
pub closed spec fn read_back_as<T: Send + Sync + 'static>(stored: Payload, value: Arc<T>) -> bool {
    call_ensures(payload_downcast::<T>, (stored,), Some(value))
}

/// The first identifier of `bucket` whose entry of `matches` is true.
pub open spec fn first_match(bucket: Seq<DefaultStorageId>, matches: Seq<bool>) -> Option<
    DefaultStorageId,
>
    decreases bucket.len(),
{
    if bucket.len() == 0 || matches.len() == 0 {
        None
    } else if matches[0] {
        Some(bucket[0])
    } else {
        first_match(bucket.drop_first(), matches.drop_first())
    }
}

impl DefaultStorage {
    /// The identifiers filed under fingerprint `print`, oldest first.
    pub closed spec fn filed_under(&self, print: u64) -> Seq<DefaultStorageId> {
        if self.index@.contains_key(print) {
            self.index@[print]@
        } else {
            Seq::empty()
        }
    }

    /// `print` is a fingerprint that this storage's hasher gave for `value`.
    pub closed spec fn fingerprint_of<T: Hash>(&self, value: T, print: u64) -> bool {
        call_ensures(fingerprint::<T>, (&self.fingerprint_hasher, &value), print)
    }

    /// No value filed under fingerprint `print` compared equal to `value`.
    pub closed spec fn none_filed_matches<T: PartialEq + 'static>(&self, print: u64, value: T) -> bool {
        forall|j: int|
            0 <= j < self.filed_under(print).len() ==> #[trigger] entry_matches(
                self@[self.filed_under(print)[j]@ as int],
                value,
                false,
            )
    }

    /// Every identifier in the index names a stored value.
    pub closed spec fn index_valid(&self) -> bool {
        forall|fp: u64, j: int|
            #![trigger self.index@[fp]@[j]]
            self.index@.contains_key(fp) && 0 <= j < self.index@[fp]@.len()
                ==> self.index@[fp]@[j]@ < self.values@.len()
    }

    pub fn new() -> (r: Self)
        ensures
            r.wf(),
            r@ == Seq::<Payload>::empty(),
    {
        DefaultStorage {
            fingerprint_hasher: new_fingerprint_hasher(),
            index: HashMap::new(),
            values: Vec::new(),
        }
    }

    pub fn len(&self) -> (r: usize)
        ensures
            r == self@.len(),
    {
        self.values.len()
    }

    /// The bucket of identifiers whose values have fingerprint `print`,
    /// taken out of the index (empty if there is none yet).
    fn find_bucket(&mut self, print: u64) -> (bucket: Vec<DefaultStorageId>)
        requires
            old(self).index_valid(),
        ensures
            final(self).index_valid(),
            final(self)@ == old(self)@,
            final(self).fingerprint_hasher == old(self).fingerprint_hasher,
            final(self).index@ == old(self).index@.remove(print),
            bucket@ == (if old(self).index@.contains_key(print) {
                old(self).index@[print]@
            } else {
                Seq::<DefaultStorageId>::empty()
            }),
            forall|j: int| 0 <= j < bucket@.len() ==> #[trigger] bucket@[j]@ < final(self)@.len(),
    {
        match self.index.remove(&print) {
            Some(bucket) => bucket,
            None => Vec::new(),
        }
    }

    /// The first identifier of `bucket` for which `matches` holds.
    fn find_bucket_entry(bucket: &Vec<DefaultStorageId>, matches: &Vec<bool>) -> (r: Option<
        DefaultStorageId,
    >)
        requires
            bucket@.len() == matches@.len(),
        ensures
            r == first_match(bucket@, matches@),
    {
        let mut i: usize = bucket.len();
        let mut found: Option<DefaultStorageId> = None;
        while i > 0
            invariant
                i <= bucket@.len(),
                bucket@.len() == matches@.len(),
                found == first_match(bucket@.skip(i as int), matches@.skip(i as int)),
            decreases i,
        {
            i = i - 1;
            assert(bucket@.skip(i as int).drop_first() == bucket@.skip(i + 1));
            assert(matches@.skip(i as int).drop_first() == matches@.skip(i + 1));
            if matches[i] {
                found = Some(bucket[i]);
            }
        }
        assert(bucket@.skip(0) == bucket@);
        assert(matches@.skip(0) == matches@);
        found
    }

    /// Compares `value` with the stored value of every identifier in
    /// `bucket`: an entry is true where the stored value is a `T` equal to
    /// `value`.
    fn bucket_matches<T: Eq + 'static>(&self, bucket: &Vec<DefaultStorageId>, value: &T) -> (r: Vec<
        bool,
    >)
        requires
            forall|j: int| 0 <= j < bucket@.len() ==> #[trigger] bucket@[j]@ < self@.len(),
        ensures
            r@.len() == bucket@.len(),
            forall|j: int|
                0 <= j < bucket@.len() ==> entry_matches(self@[bucket@[j]@ as int], *value, #[trigger] r@[j]),
    {
        let mut matches: Vec<bool> = Vec::new();
        let mut i: usize = 0;
        while i < bucket.len()
            invariant
                i <= bucket@.len(),
                matches@.len() == i,
                forall|j: int| 0 <= j < bucket@.len() ==> #[trigger] bucket@[j]@ < self@.len(),
                forall|j: int|
                    0 <= j < i ==> entry_matches(self@[bucket@[j]@ as int], *value, #[trigger] matches@[j]),
            decreases bucket@.len() - i,
        {
            let id = bucket[i];
            let read_back = payload_downcast_ref::<T>;
            let found = read_back(&self.values[id.idx()]);
            let equal = match found {
                Some(stored) => value.eq(stored),
                None => false,
            };
            proof {
                assert(entry_matches(self@[bucket@[i as int]@ as int], *value, equal));
            }
            matches.push(equal);
            i = i + 1;
        }
        matches
    }

    /// Appends `value` to the stored values and files its identifier in
    /// `bucket`.
    fn insert_value<T: Clone + Send + Sync + 'static>(
        &mut self,
        bucket: &mut Vec<DefaultStorageId>,
        value: &T,
    ) -> (id: DefaultStorageId)
        ensures
            id@ == old(self)@.len(),
            final(self)@.len() == old(self)@.len() + 1,
            final(self)@.subrange(0, old(self)@.len() as int) == old(self)@,
            final(self).index == old(self).index,
            final(self).fingerprint_hasher == old(self).fingerprint_hasher,
            final(bucket)@ == old(bucket)@.push(id),
    {
        let id = DefaultStorageId(self.values.len());
        self.values.push(payload_new(value.clone()));
        bucket.push(id);
        id
    }

    /// Stores the identifier of a new input of type `I` whose memo is at
    /// position `memo`: the identifier also names the position at which it
    /// is stored, which is the next one. It is filed under its fingerprint
    /// like any value, so that an equal identifier stored later is found; the
    /// handler is told of the store.
    pub(crate) fn store_input_id<H: Handler, I: Send + Sync + 'static>(&mut self, handler: &mut H, memo: usize) -> (r: (
        DefaultStorageId,
        InputId<I>,
    ))
        requires
            old(self).wf(),
        ensures
            final(self).wf(),
            r.0@ == old(self)@.len(),
            r.1@ == (memo as nat, old(self)@.len()),
            final(self)@.len() == old(self)@.len() + 1,
            final(self)@.subrange(0, old(self)@.len() as int) == old(self)@,
            H::keeps_records() ==> final(handler).records() == old(handler).records().push(
                Record::Point(EventKind::StoreValue),
            ),
            old(handler).inv() ==> final(handler).inv(),
    {
        let input_id = InputId::<I>::new(memo, self.values.len());
        let print = fingerprint(&self.fingerprint_hasher, &input_id);
        let mut bucket = self.find_bucket(print);
        handler.event(Event::new(EventKind::StoreValue));
        let id = self.insert_value(&mut bucket, &input_id);
        self.index.insert(print, bucket);
        (id, input_id)
    }

    proof fn lemma_first_match_in(bucket: Seq<DefaultStorageId>, matches: Seq<bool>)
        ensures
            first_match(bucket, matches) matches Some(id) ==> exists|j: int|
                0 <= j < bucket.len() && j < matches.len() && bucket[j] == id && #[trigger] matches[j],
            first_match(bucket, matches) is None && bucket.len() == matches.len() ==> forall|j: int|
                0 <= j < matches.len() ==> !#[trigger] matches[j],
        decreases bucket.len(),
    {
        if bucket.len() == 0 || matches.len() == 0 {
        } else if matches[0] {
            assert(bucket[0] == bucket[0]);
        } else {
            Self::lemma_first_match_in(bucket.drop_first(), matches.drop_first());
            if let Some(id) = first_match(bucket, matches) {
                let j = choose|j: int|
                    0 <= j < bucket.drop_first().len() && j < matches.drop_first().len()
                        && bucket.drop_first()[j] == id && #[trigger] matches.drop_first()[j];
                assert(bucket[j + 1] == id);
                assert(matches[j + 1]);
            } else if bucket.len() == matches.len() {
                assert forall|j: int| 0 <= j < matches.len() implies !#[trigger] matches[j] by {
                    if j > 0 {
                        assert(matches[j] == matches.drop_first()[j - 1]);
                    }
                }
            }
        }
    }

}

impl Storage for DefaultStorage {
    type Id = DefaultStorageId;

    type Handle = Payload;

    closed spec fn wf(&self) -> bool {
        self.index_valid()
    }

    open spec fn holds(&self, id: DefaultStorageId) -> bool {
        id@ < self@.len()
    }

    /// Stores `value` and returns its identifier. A value already stored
    /// (the first of its bucket that is a `T` equal to `value`) is not stored
    /// again; a new value is appended, and the handler is told so.
    fn store<H: Handler, T: Clone + Eq + Hash + Send + Sync + 'static>(
        &mut self,
        handler: &mut H,
        value: &T,
    ) -> (id: DefaultStorageId)
        ensures
            id@ < final(self)@.len(),
            final(self)@.subrange(0, old(self)@.len() as int) == old(self)@,
            final(self)@.len() == old(self)@.len() || (final(self)@.len() == old(self)@.len() + 1
                && id@ == old(self)@.len()),
            H::keeps_records() ==> recorded_if(
                old(handler).records(),
                final(handler).records(),
                final(self)@.len() > old(self)@.len(),
                Record::Point(EventKind::StoreValue),
            ),
            old(handler).inv() ==> final(handler).inv(),
            final(self)@.len() == old(self)@.len() ==> entry_matches(old(self)@[id@ as int], *value, true),
            final(self)@.len() > old(self)@.len() ==> exists|print: u64|
                #[trigger] old(self).fingerprint_of(*value, print) && old(self).none_filed_matches(print, *value)
                    && final(self).filed_under(print) == old(self).filed_under(print).push(id),
    {
        let fingerprint_with = fingerprint::<T>;
        let print = fingerprint_with(&self.fingerprint_hasher, value);
        let mut bucket = self.find_bucket(print);
        let matches = self.bucket_matches(&bucket, value);
        match Self::find_bucket_entry(&bucket, &matches) {
            Some(id) => {
                proof {
                    Self::lemma_first_match_in(bucket@, matches@);
                    let j = choose|j: int|
                        0 <= j < bucket@.len() && j < matches@.len() && bucket@[j] == id && #[trigger] matches@[j];
                    assert(entry_matches(self@[bucket@[j]@ as int], *value, matches@[j]));
                }
                self.index.insert(print, bucket);
                assert(self@.subrange(0, self@.len() as int) == self@);
                id
            },
            None => {
                proof {
                    Self::lemma_first_match_in(bucket@, matches@);
                    assert(old(self).none_filed_matches(print, *value)) by {
                        assert forall|j: int| 0 <= j < old(self).filed_under(print).len() implies #[trigger] entry_matches(
                            old(self)@[old(self).filed_under(print)[j]@ as int],
                            *value,
                            false,
                        ) by {
                            assert(bucket@[j] == old(self).filed_under(print)[j]);
                            assert(entry_matches(self@[bucket@[j]@ as int], *value, matches@[j]));
                            assert(!matches@[j]);
                        }
                    }
                }
                handler.event(Event::new(EventKind::StoreValue));
                let id = self.insert_value(&mut bucket, value);
                self.index.insert(print, bucket);
                proof {
                    assert(self.filed_under(print) == old(self).filed_under(print).push(id));
                    assert(old(self).fingerprint_of(*value, print));
                }
                id
            },
        }
    }

    /// The stored value that `id` names.
    fn get(&self, id: DefaultStorageId) -> (r: Payload)
        ensures
            r == self@[id@ as int],
    {
        payload_clone(&self.values[id.idx()])
    }
}

impl DefaultStorage {
    /// A transfer of the values still needed out of this storage into an
    /// empty one.
    pub fn into_transfer(self) -> (r: DefaultTransfer)
        requires
            self.wf(),
        ensures
            r.wf(),
            r.source() == self@,
            r.target() == Seq::<Payload>::empty(),
            r.transferred() == Seq::new(self@.len(), |i: int| false),
    {
        let n = self.len();
        let mut transferred: Vec<bool> = Vec::new();
        let mut i: usize = 0;
        while i < n
            invariant
                i <= n,
                transferred@ == Seq::new(i as nat, |k: int| false),
            decreases n - i,
        {
            transferred.push(false);
            i = i + 1;
            proof {
                assert(transferred@ =~= Seq::new(i as nat, |k: int| false));
            }
        }
        DefaultTransfer { curr: self, next: DefaultStorage::new(), transferred }
    }
}

/// Moves values out of one [`DefaultStorage`] into a fresh one.
#[derive(Debug)]
pub struct DefaultTransfer {
    curr: DefaultStorage,
    next: DefaultStorage,
    /// For each value of the storage being emptied, whether it was
    /// transferred.
    transferred: Vec<bool>,
}

impl DefaultTransfer {
    /// The values of the storage being emptied.
    pub closed spec fn source(&self) -> Seq<Payload> {
        self.curr@
    }

    /// The values transferred so far, in the new storage.
    pub closed spec fn target(&self) -> Seq<Payload> {
        self.next@
    }

    /// For each value of the storage being emptied, whether it was
    /// transferred.
    pub closed spec fn transferred(&self) -> Seq<bool> {
        self.transferred@
    }
}

impl DefaultTransfer {
    /// Stores `value`, a value taken out of the storage being emptied, in the
    /// new storage (no event is emitted for it) and returns its identifier
    /// there; `None`, with nothing stored, if there is no value.
    pub fn store_transferred<T: Clone + Eq + Hash + Send + Sync + 'static>(&mut self, value: Option<Arc<T>>) -> (r:
        Option<DefaultStorageId>)
        requires
            old(self).wf(),
        ensures
            final(self).wf(),
            final(self).source() == old(self).source(),
            final(self).transferred() == old(self).transferred(),
            r is Some <==> value is Some,
            r is None ==> *final(self) == *old(self),
            r matches Some(new_id) ==> {
                &&& new_id@ < final(self).target().len()
                &&& final(self).target().subrange(0, old(self).target().len() as int) == old(self).target()
                &&& (final(self).target().len() == old(self).target().len() || (final(self).target().len()
                    == old(self).target().len() + 1 && new_id@ == old(self).target().len()))
                &&& final(self).target().len() == old(self).target().len() ==> entry_matches(
                    old(self).target()[new_id@ as int],
                    *value->0,
                    true,
                )
            },
    {
        match value {
            Some(value) => {
                let mut silent = ();
                Some(self.next.store(&mut silent, &*value))
            },
            None => None,
        }
    }
}

/// The number of values left behind when `next` values of `curr` were
/// transferred; none if more were transferred than there were.
pub open spec fn freed_values(curr: nat, next: nat) -> nat {
    if next <= curr {
        (curr - next) as nat
    } else {
        0
    }
}

impl Transfer for DefaultTransfer {
    type Storage = DefaultStorage;

    closed spec fn wf(&self) -> bool {
        self.curr.wf() && self.next.wf() && self.transferred@.len() == self.curr@.len()
    }

    open spec fn holds_source(&self, id: DefaultStorageId) -> bool {
        id@ < self.source().len()
    }

    open spec fn readable(&self, id: DefaultStorageId) -> bool {
        id@ < self.source().len() && !self.transferred()[id@ as int]
    }

    fn get(&mut self, id: DefaultStorageId) -> (r: Payload)
        ensures
            r == old(self).source()[id@ as int],
            *final(self) == *old(self),
    {
        self.curr.get(id)
    }

    /// Stores the value that `id` names, as a `T`, in the new storage (no
    /// event is emitted for it); `None`, with nothing stored, if it is not a
    /// `T`.
    fn transfer<T: Clone + Eq + Hash + Send + Sync + 'static>(&mut self, id: DefaultStorageId) -> (r:
        Option<DefaultStorageId>)
        ensures
            final(self).source() == old(self).source(),
            final(self).target().subrange(0, old(self).target().len() as int) == old(self).target(),
            r is None ==> final(self).target() == old(self).target() && final(self).transferred() == old(
                self,
            ).transferred(),
            r is Some ==> final(self).transferred() == old(self).transferred().update(id@ as int, true),
            r matches Some(new_id) ==> {
                &&& new_id@ < final(self).target().len()
                &&& (final(self).target().len() == old(self).target().len() || (final(self).target().len()
                    == old(self).target().len() + 1 && new_id@ == old(self).target().len()))
                &&& exists|v: Arc<T>|
                    #[trigger] read_back_as(old(self).source()[id@ as int], v) && (final(self).target().len()
                        == old(self).target().len() ==> entry_matches(
                        old(self).target()[new_id@ as int],
                        *v,
                        true,
                    ))
            },
    {
        let read_back = payload_downcast::<T>;
        let stored = self.curr.get(id);
        let value = read_back(stored);
        let ghost read = value;
        let ghost before = *self;
        let r = self.store_transferred(value);
        if r.is_some() {
            self.transferred.set(id.idx(), true);
        }
        proof {
            if let Some(v) = read {
                assert(read_back_as(old(self).source()[id@ as int], v));
                if self.target().len() == before.target().len() {
                    assert(entry_matches(before.target()[r->0@ as int], *v, true));
                }
            }
        }
        r
    }

    /// The new storage; the handler is told, with `FreeValues`, how many
    /// values were not transferred.
    fn into_storage<H: Handler>(self, handler: &mut H) -> (r: DefaultStorage)
        ensures
            r@ == self.target(),
            H::keeps_records() ==> final(handler).records() == old(handler).records().push(
                Record::Point(EventKind::FreeValues(freed_values(self.source().len(), self.target().len()) as usize)),
            ),
            old(handler).inv() ==> final(handler).inv(),
    {
        let curr_len = self.curr.len();
        let next_len = self.next.len();
        let freed: usize = if next_len <= curr_len {
            curr_len - next_len
        } else {
            0
        };
        assert(freed == freed_values(self.source().len(), self.target().len()));
        handler.event(Event::new(EventKind::FreeValues(freed)));
        self.next
    }
}

} // verus!
