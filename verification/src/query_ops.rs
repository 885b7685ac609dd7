//! The registry of query types: each gets an identifier and the operation
//! that evaluates it without knowing its type.
use vstd::prelude::*;
use crate::Snapshot;
use crate::eval_recorded_at;
use crate::frames_grow;
use crate::lemma_frames_grow_refl;
use crate::event::Event;
use crate::event::EventKind;
use crate::event::Handler;
use crate::event::Record;
use crate::event::recorded_if;
use crate::event::ScopedEvent;
use crate::event::ScopedEventKind;
use crate::query::Query;
use crate::query::QueryError;
use crate::storage::DefaultStorage;
use crate::storage::DefaultStorageId;
use crate::storage::Payload;
use crate::storage::payload_downcast;
use core::any::TypeId;
use std::sync::Arc;

verus! {

/// The position of a query type in the registry.
#[derive(Clone, Copy, PartialEq, Eq, Hash, Debug, Structural)]
pub struct QueryId(pub usize);

#[verifier::external_type_specification]
#[verifier::external_body]
pub struct ExTypeId(TypeId);

/// `TypeId::of`: the identifier of the type `T`; nothing is stated of its
/// value.
#[verifier::external_body]
pub(crate) fn type_id_of<T: ?Sized + 'static>() -> TypeId {
    TypeId::of::<T>()
}

/// `==` on `TypeId`: true exactly when both name the same type.
#[verifier::external_body]
fn same_type_id(a: &TypeId, b: &TypeId) -> (r: bool)
    ensures
        r == (*a == *b),
{
    a == b
}

/// The type-erased operations of a query type: a function pointer to
/// [`eval_erased`] for that type, held opaquely. Verus has no function
/// pointer types, takes no `dyn Fn`, and refuses a trait object whose method
/// takes the snapshot (the snapshot's type would then hold itself in a
/// non-positive position); so the pointer is held here unseen, and the call
/// through it, [`run_eval`], is believed to keep the contract of
/// `eval_erased`.
#[verifier::external_body]
#[verifier::reject_recursive_types(H)]
pub struct QueryOps<H> {
    eval: for<'s> fn(&'s mut Snapshot<DefaultStorage, H>, Payload) -> Result<
        DefaultStorageId,
        QueryError,
    >,
}

impl<H: Handler> QueryOps<H> {
    /// The operations of query type `Q`: a pointer to `eval_erased::<H, Q>`.
    #[verifier::external_body]
    pub(crate) fn new<Q: Query>() -> Self {
        QueryOps { eval: eval_erased::<H, Q> }
    }
}

/// Evaluates query `Q` on arguments `args` whose type was erased, and stores
/// the output: what [`eval_typed`] does with the arguments read back as
/// `Q::Args`.
pub fn eval_erased<H: Handler, Q: Query>(
    snapshot: &mut Snapshot<DefaultStorage, H>,
    args: Payload,
) -> (r: Result<DefaultStorageId, QueryError>)
    requires
        old(snapshot).wf(),
    ensures
        final(snapshot).wf(),
        old(snapshot).grows_into(*final(snapshot)),
        r matches Ok(id) ==> id@ < final(snapshot).stored().len(),
        Q::IS_INPUT ==> r == Err::<DefaultStorageId, QueryError>(QueryError::InputNotSet),
        r matches Err(e) ==> *final(snapshot) == *old(snapshot) && (e == QueryError::InputNotSet || e
            == QueryError::TypeMismatch),
        !Q::IS_INPUT && r is Err ==> r == Err::<DefaultStorageId, QueryError>(QueryError::TypeMismatch),
        H::keeps_records() && r is Ok ==> eval_recorded_at(old(snapshot).records(), final(snapshot).records()),
        frames_grow(old(snapshot).frames(), final(snapshot).frames()),
{
    if Q::IS_INPUT {
        proof {
            old(snapshot).lemma_grows_refl();
            lemma_frames_grow_refl(old(snapshot).frames());
        }
        return Err(QueryError::InputNotSet);
    }
    eval_typed::<H, Q>(snapshot, payload_downcast::<Q::Args>(args))
}

/// Evaluates query `Q` on `args`, the arguments read back as `Q::Args`
/// (`None` when they were of another type), and stores the output: an input
/// is never evaluated; arguments of another type are a type mismatch; else
/// `Q::eval` runs within an evaluation scope and the identifier of its
/// stored output is returned.
pub fn eval_typed<H: Handler, Q: Query>(
    snapshot: &mut Snapshot<DefaultStorage, H>,
    args: Option<Arc<Q::Args>>,
) -> (r: Result<DefaultStorageId, QueryError>)
    requires
        old(snapshot).wf(),
    ensures
        final(snapshot).wf(),
        old(snapshot).grows_into(*final(snapshot)),
        Q::IS_INPUT ==> r == Err::<DefaultStorageId, QueryError>(QueryError::InputNotSet) && *final(snapshot)
            == *old(snapshot),
        !Q::IS_INPUT && args is None ==> r == Err::<DefaultStorageId, QueryError>(QueryError::TypeMismatch)
            && *final(snapshot) == *old(snapshot),
        !Q::IS_INPUT && args is Some ==> (r matches Ok(id) && id@ < final(snapshot).stored().len()),
        H::keeps_records() && !Q::IS_INPUT && args is Some ==> eval_recorded_at(
            old(snapshot).records(),
            final(snapshot).records(),
        ),
        frames_grow(old(snapshot).frames(), final(snapshot).frames()),
{
    proof {
        old(snapshot).lemma_grows_refl();
        lemma_frames_grow_refl(old(snapshot).frames());
    }
    if Q::IS_INPUT {
        return Err(QueryError::InputNotSet);
    }
    let args = match args {
        Some(args) => args,
        None => {
            return Err(QueryError::TypeMismatch);
        },
    };
    let ghost s0 = *snapshot;
    let scope = snapshot.enter_scope(ScopedEventKind::Eval);
    let ghost s1 = *snapshot;
    let out = Q::eval(snapshot, &*args);
    let ghost s2 = *snapshot;
    snapshot.exit_scope(scope);
    let ghost s3 = *snapshot;
    let id = snapshot.store(&out);
    proof {
        Snapshot::lemma_grows_trans(s0, s1, s2);
        Snapshot::lemma_grows_trans(s0, s2, s3);
        Snapshot::lemma_grows_trans(s0, s3, *snapshot);
        if H::keeps_records() {
            Snapshot::lemma_grows_trans(s1, s2, s3);
            Snapshot::lemma_grows_trans(s1, s3, *snapshot);
            s1.lemma_records_prefix(*snapshot);
            assert(snapshot.records()[s0.records().len() as int] == snapshot.records().subrange(
                0,
                s1.records().len() as int,
            )[s0.records().len() as int]);
        }
    }
    Ok(id)
}

/// Calls the evaluation registered for `query` (a pointer to
/// [`eval_erased`] for the query's type) and returns what it returns. Its
/// contract is that of `eval_erased`: the snapshot stays well formed and
/// only grows, a returned identifier names a stored value, a failure leaves
/// the snapshot as it was (an input read before it was set, or arguments of
/// another type), a success was an evaluation, recorded as such, and the
/// frames of reads keep growing.
#[verifier::external_body]
pub(crate) fn run_eval<H: Handler>(
    snapshot: &mut Snapshot<DefaultStorage, H>,
    query: QueryId,
    args: Payload,
) -> (r: Result<DefaultStorageId, QueryError>)
    requires
        old(snapshot).wf(),
        query.0 < old(snapshot).registered(),
    ensures
        final(snapshot).wf(),
        old(snapshot).grows_into(*final(snapshot)),
        r matches Ok(id) ==> id@ < final(snapshot).stored().len(),
        r is Err ==> *final(snapshot) == *old(snapshot),
        r matches Err(e) ==> e == QueryError::InputNotSet || e == QueryError::TypeMismatch,
        H::keeps_records() && r is Ok ==> eval_recorded_at(old(snapshot).records(), final(snapshot).records()),
        frames_grow(old(snapshot).frames(), final(snapshot).frames()),
{
    let eval = snapshot.registry().ops[query.0].eval;
    eval(snapshot, args)
}

/// The query types registered so far, in order of registration.
#[verifier::reject_recursive_types(H)]
pub struct QueryOpsRegistry<H> {
    pub type_ids: Vec<TypeId>,
    pub ops: Vec<QueryOps<H>>,
}

impl<H: Handler> QueryOpsRegistry<H> {
    pub open spec fn wf(&self) -> bool {
        self.type_ids@.len() == self.ops@.len()
    }

    pub open spec fn len(&self) -> nat {
        self.type_ids@.len()
    }

    pub fn new() -> (r: Self)
        ensures
            r.wf(),
            r.len() == 0,
    {
        QueryOpsRegistry { type_ids: Vec::new(), ops: Vec::new() }
    }

    /// The position of `type_id` in the registry, if it is registered.
    pub fn find(&self, type_id: &TypeId) -> (r: Option<QueryId>)
        ensures
            match r {
                Some(q) => q.0 < self.len() && self.type_ids@[q.0 as int] == *type_id,
                None => forall|i: int| 0 <= i < self.len() ==> self.type_ids@[i] != *type_id,
            },
    {
        let mut i: usize = 0;
        while i < self.type_ids.len()
            invariant
                i <= self.type_ids@.len(),
                forall|j: int| 0 <= j < i ==> self.type_ids@[j] != *type_id,
            decreases self.type_ids@.len() - i,
        {
            if same_type_id(&self.type_ids[i], type_id) {
                return Some(QueryId(i));
            }
            i = i + 1;
        }
        None
    }

    /// The identifier of the query type `type_id`, registered with `ops`
    /// (and the handler told so) if it is not registered yet.
    pub fn query_id(&mut self, type_id: TypeId, ops: QueryOps<H>, handler: &mut H) -> (r: QueryId)
        requires
            old(self).wf(),
        ensures
            final(self).wf(),
            r.0 < final(self).len(),
            final(self).type_ids@[r.0 as int] == type_id,
            (exists|i: int| 0 <= i < old(self).len() && old(self).type_ids@[i] == type_id) ==> (
            final(self).type_ids == old(self).type_ids && final(self).ops == old(self).ops),
            (forall|i: int| 0 <= i < old(self).len() ==> old(self).type_ids@[i] != type_id) ==> {
                &&& final(self).type_ids@ == old(self).type_ids@.push(type_id)
                &&& final(self).ops@ == old(self).ops@.push(ops)
            },
            H::keeps_records() ==> recorded_if(
                old(handler).records(),
                final(handler).records(),
                forall|i: int| 0 <= i < old(self).len() ==> old(self).type_ids@[i] != type_id,
                Record::Point(EventKind::RegisterQueryOps),
            ),
            old(handler).inv() ==> final(handler).inv(),
    {
        match self.find(&type_id) {
            Some(q) => q,
            None => {
                handler.event(Event::new(EventKind::RegisterQueryOps));
                let q = QueryId(self.type_ids.len());
                self.type_ids.push(type_id);
                self.ops.push(ops);
                q
            },
        }
    }
}

} // verus!
