//! Decision variables for constraint propagation: the set of values a
//! variable may still take, the operations that narrow it, and the
//! classification of every change for the scheduler that reacts to it.
pub mod arrays;
pub mod ascending;
pub mod bool_var;
pub mod domains;
pub mod int_var;
pub mod scalar;

pub use arrays::{ArrayOfRefs, ArrayOfVariables, ArrayOfVars};

use vstd::prelude::*;

verus! {

/// Describes the state of a set variable after its domain is updated.
#[derive(Debug, Copy, Clone, PartialEq, Eq)]
pub enum SetVariableState {
    MeSetNone,
    MeSetFailed,
    MeSetVal,
    MeSetCard,
    MeSetLub,
    MeSetGlb,
    MeSetBb,
    MeSetClub,
    MeSetCglb,
    MeSetCbb,
    PcSetVal,
    PcSetCard,
    PcSetClub,
    PcSetCglb,
    PcSetAny,
    PcSetNone,
}

/// Represents an error that occurred during a variable domain update.
#[derive(Debug, Copy, Clone, PartialEq, Eq, Structural)]
pub enum VariableError {
    /// The domain of the variable is empty.
    DomainWipeout,
}

/// The identity of a variable, as a notification sink sees it.
#[derive(Debug, Copy, Clone, PartialEq, Eq, Hash, Structural)]
pub struct VariableId(pub usize);

/// A classification of domain changes: a value that says what an update did
/// to a domain, with a neutral element, a merge and a subsumption relation.
pub trait VariableState: Sized + Copy + std::ops::BitOr<Output = Self> {
    /// The classification of an update that changed nothing.
    spec fn null_state() -> Self;

    /// The classification of two updates taken together.
    spec fn merged(self, rhs: Self) -> Self;

    /// Whether `val` tells at least as much as `self`.
    spec fn subsumed_under(self, val: Self) -> bool;

    /// The neutral classification leaves every classification that it is
    /// merged with as it is.
    proof fn lemma_null_is_neutral(x: Self)
        ensures
            Self::null_state().merged(x) == x,
            x.merged(Self::null_state()) == x,
    ;

    /// Returns the classification of an update that changed nothing.
    fn null() -> (r: Self)
        ensures
            r == Self::null_state(),
    ;

    /// Returns whether `self` says that nothing changed.
    fn is_null(&self) -> (r: bool)
        ensures
            r == (*self == Self::null_state()),
    ;

    /// Resets `self` to the neutral classification and returns what it held.
    fn nullify(&mut self) -> (r: Self)
        ensures
            r == *old(self),
            *final(self) == Self::null_state(),
    ;

    /// Returns the classification of `self` and `rhs` taken together.
    fn merge(&self, rhs: Self) -> (r: Self)
        ensures
            r == self.merged(rhs),
    ;

    /// Returns whether `val` tells at least as much as `self`.
    fn is_subsumed_under(&self, val: &Self) -> (r: bool)
        ensures
            r == self.subsumed_under(*val),
    ;
}

/// Trait for types that represent decision variables.
/// A decision variable is a variable along with its domain of allowed values.
/// A variable has to be cloneable because tree based search works on copies.
///
/// The view of a variable is the sequence of the values it may still take.
pub trait Variable<Type>: Clone + View<V = Seq<Type>> {
    /// Returns if the variable is affected.
    /// A variable is affected if and only if its domain is a singleton.
    fn is_affected(&self) -> (r: bool)
        ensures
            r == (self@.len() == 1),
    ;

    /// Returns the value of the variable or `None` if the variable is not
    /// affected.
    fn value(&self) -> (r: Option<&Type>)
        ensures
            r == (if self@.len() == 1 {
                Some(&self@[0])
            } else {
                None
            }),
    ;
}

/// A variable that a notification sink can tell from the others.
pub trait CruspVariable<Type>: Variable<Type> {
    /// The identity of the variable.
    spec fn identity(&self) -> VariableId;

    /// Returns the id of the variable.
    fn id(&self) -> (r: VariableId)
        ensures
            r == self.identity(),
    ;
}

/// A sink for what happens to the domains of variables.
///
/// A sink is told of every change and of every wipeout, and answers each
/// notice. What a notice does to the sink and which answers it may give is
/// the sink's own business: it states both in `change_received` and
/// `error_received`.
pub trait VariableObserver<VState> where Self: Sized {
    /// `post` and `answer` are a possible outcome of telling the sink `self`
    /// that the domain of variable `id` changed as `state` says. A sink that
    /// says nothing of itself may do anything.
    open spec fn change_received(
        &self,
        post: &Self,
        id: VariableId,
        state: VState,
        answer: Result<VState, VariableError>,
    ) -> bool {
        true
    }

    /// `post` and `answer` are a possible outcome of telling the sink `self`
    /// that an update of variable `id` failed with `error`. A sink that says
    /// nothing of itself may do anything.
    open spec fn error_received(
        &self,
        post: &Self,
        id: VariableId,
        error: VariableError,
        answer: Result<VState, VariableError>,
    ) -> bool {
        true
    }

    /// Tells the sink that the domain of variable `id` changed.
    fn push_change(&mut self, id: VariableId, state: VState) -> (r: Result<VState, VariableError>)
        ensures
            old(self).change_received(final(self), id, state, r),
    ;

    /// Tells the sink that an update of variable `id` failed.
    fn push_error(&mut self, id: VariableId, error: VariableError) -> (r: Result<
        VState,
        VariableError,
    >)
        ensures
            old(self).error_received(final(self), id, error, r),
    ;
}

} // verus!
