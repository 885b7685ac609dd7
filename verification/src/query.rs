//! Queries, inputs, and the identifiers of inputs.
use vstd::prelude::*;
use crate::Snapshot;
use crate::frames_grow;
use crate::event::Handler;
use crate::storage::DefaultStorage;
use core::hash::Hash;
use core::hash::Hasher;
use core::marker::PhantomData;
use vstd::std_specs::cmp::PartialEqSpecImpl;

verus! {

/// A function of the database: its output depends only on its arguments and
/// on the queries it runs through the snapshot it is given.
pub trait Query: Sized + Send + Sync + 'static {
    type Args: Clone + Eq + Hash + Send + Sync + 'static;

    type Out: Clone + Eq + Hash + Send + Sync + 'static;

    /// Whether the query is an input, whose values are set rather than
    /// evaluated.
    const IS_INPUT: bool = false;

    /// Computes the output for `args`. An implementation reads other queries
    /// through `snapshot`. It can change the snapshot only through its public
    /// methods, all of which keep it well formed and only add memos, values
    /// and registrations, and that keep the frames of reads growing; it must
    /// not put another snapshot in its place. That is what the `ensures`
    /// states of every implementation.
    fn eval<H: Handler>(snapshot: &mut Snapshot<DefaultStorage, H>, args: &Self::Args) -> (out:
        Self::Out)
        requires
            !Self::IS_INPUT,
            old(snapshot).wf(),
        ensures
            final(snapshot).wf(),
            old(snapshot).grows_into(*final(snapshot)),
            frames_grow(old(snapshot).frames(), final(snapshot).frames()),
    ;
}

/// A value that is set on the database rather than computed.
pub trait Input: Send + Sync + 'static {
    type Value: Clone + Eq + Hash + Send + Sync + 'static;
}

/// Why a query could not produce its output.
#[derive(Clone, Copy, PartialEq, Eq, Debug, Structural)]
pub enum QueryError {
    /// An input was read whose value was never set on this database (its
    /// identifier comes from another database).
    InputNotSet,
    /// A stored value did not have the type its query declares (identifiers
    /// of another database were mixed in).
    TypeMismatch,
    /// A query depends on itself: its memo was reached again while it was
    /// being verified or evaluated.
    Cycle,
}

/// The identifier of an input: the position of its memo in the memo table,
/// and the position at which the database stored the identifier itself (the
/// arguments of that memo).
#[derive(Debug)]
pub struct InputId<I> {
    memo: usize,
    args: usize,
    marker: PhantomData<I>,
}

impl<I> View for InputId<I> {
    /// The memo position and the stored position.
    type V = (nat, nat);

    closed spec fn view(&self) -> (nat, nat) {
        (self.memo as nat, self.args as nat)
    }
}

impl<I> InputId<I> {
    pub(crate) fn new(memo: usize, args: usize) -> (r: Self)
        ensures
            r@ == (memo as nat, args as nat),
    {
        InputId { memo, args, marker: PhantomData }
    }

    pub(crate) fn memo(&self) -> (r: usize)
        ensures
            r == self@.0,
    {
        self.memo
    }

    pub(crate) fn args(&self) -> (r: usize)
        ensures
            r == self@.1,
    {
        self.args
    }
}

impl<I> Clone for InputId<I> {
    fn clone(&self) -> (r: Self)
        ensures
            r@ == self@,
    {
        InputId { memo: self.memo, args: self.args, marker: PhantomData }
    }
}

impl<I> Copy for InputId<I> {

}

impl<I> PartialEq for InputId<I> {
    fn eq(&self, other: &Self) -> (r: bool) {
        self.memo == other.memo && self.args == other.args
    }
}

impl<I> PartialEqSpecImpl for InputId<I> {
    open spec fn obeys_eq_spec() -> bool {
        true
    }

    open spec fn eq_spec(&self, other: &Self) -> bool {
        self@ == other@
    }
}

impl<I> Eq for InputId<I> {

}

impl<I> Hash for InputId<I> {
    /// Feeds both positions to `state` with `usize::hash`; nothing is
    /// stated of the hasher's state afterwards.
    #[verifier::external_body]
    fn hash<S: Hasher>(&self, state: &mut S) {
        self.memo.hash(state);
        self.args.hash(state);
    }
}

/// Inputs are queries that are never evaluated: their memos are set by the
/// database.
impl<I: Input> Query for I {
    type Args = InputId<I>;

    type Out = I::Value;

    const IS_INPUT: bool = true;

    fn eval<H: Handler>(snapshot: &mut Snapshot<DefaultStorage, H>, args: &Self::Args) -> Self::Out {
        vstd::pervasive::unreached()
    }
}

} // verus!
