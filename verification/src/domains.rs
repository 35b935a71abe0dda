//! What a domain can do: the capabilities of a variable, each as a trait,
//! without and with a sink that is told of every change.
//!
//! Every operation that narrows a domain leaves exactly the values that the
//! operation admits. A domain that is left without a value is wiped out: the
//! operation fails with `DomainWipeout`. An operation on a domain that is
//! already empty fails in the same way; only `not_equal` does not, as long as
//! neither of its domains is down to a single value.
use crate::ascending::{
    is_run_of, lemma_part_length, lemma_run_cut, lemma_run_of_itself, part_of, restricts,
    same_values, strictly_ascending,
};
use crate::scalar::DomainValue;
use crate::{Variable, VariableError, VariableId, VariableObserver, VariableState};
use std::marker::PhantomData;
use vstd::prelude::*;

verus! {

/// What every narrowing operation owes its caller once the domain went from
/// `before` values to `after` values: failure exactly on a wipeout, and the
/// neutral classification when no value left a domain that still has one.
pub open spec fn answers_narrowing<VState: VariableState>(
    r: Result<VState, VariableError>,
    before: nat,
    after: nat,
) -> bool {
    &&& r is Err <==> after == 0
    &&& after == before && after > 0 ==> r == Ok::<VState, VariableError>(VState::null_state())
}

/// What every narrowing operation that tells a sink owes its caller once the
/// domain went from `before` values to `after` values, and the sink from `pre`
/// to `post`: failure on a wipeout, and where no value left a domain that
/// still has one, the neutral classification and a sink that was left alone.
/// A change is the sink's to answer.
pub open spec fn answers_told_narrowing<VState: VariableState, Observer>(
    r: Result<VState, VariableError>,
    before: nat,
    after: nat,
    pre: Observer,
    post: Observer,
) -> bool {
    &&& after == 0 ==> r is Err
    &&& after == before && after > 0 ==> post == pre && r == Ok::<VState, VariableError>(
        VState::null_state(),
    )
}

/// The domain after `set_value`: the value alone where it was admissible,
/// nothing where it was not.
pub open spec fn assigned<Type>(before: Seq<Type>, value: Type) -> Seq<Type> {
    if before.contains(value) {
        seq![value]
    } else {
        Seq::empty()
    }
}

/// The sink went from `pre` to `post` and `r` is handed to the caller, after
/// an update of variable `id` that ended as `outcome` says. A change is
/// pushed to the sink, whose answer goes to the caller. Where nothing
/// changed the sink is left alone. A failure is pushed too, and goes to the
/// caller whatever the sink answers.
pub open spec fn delivered<VState: VariableState, Observer: VariableObserver<VState>>(
    pre: Observer,
    post: Observer,
    id: VariableId,
    outcome: Result<VState, VariableError>,
    r: Result<VState, VariableError>,
) -> bool {
    match outcome {
        Ok(state) => if state == VState::null_state() {
            post == pre && r == outcome
        } else {
            pre.change_received(&post, id, state, r)
        },
        Err(error) => r == outcome && exists|answer: Result<VState, VariableError>|
            pre.error_received(&post, id, error, answer),
    }
}

/// One side of what an update of two variables ended in.
pub open spec fn side_of<VState>(
    outcome: Result<(VState, VState), VariableError>,
    first: bool,
) -> Result<VState, VariableError> {
    match outcome {
        Ok((a, b)) => Ok(
            if first {
                a
            } else {
                b
            },
        ),
        Err(error) => Err(error),
    }
}

/// The sink went from `pre` to `post` after an update of the two variables
/// `first_id` and `second_id` that ended as `outcome` says: it was told of
/// the first variable and then of the second, each as `delivered` has it.
pub open spec fn delivered_both<VState: VariableState, Observer: VariableObserver<VState>>(
    pre: Observer,
    post: Observer,
    first_id: VariableId,
    second_id: VariableId,
    outcome: Result<(VState, VState), VariableError>,
) -> bool {
    exists|
        between: Observer,
        first_answer: Result<VState, VariableError>,
        second_answer: Result<VState, VariableError>,
    |
        #![trigger delivered(pre, between, first_id, side_of(outcome, true), first_answer), delivered(between, post, second_id, side_of(outcome, false), second_answer)]
        delivered(pre, between, first_id, side_of(outcome, true), first_answer) && delivered(
            between,
            post,
            second_id,
            side_of(outcome, false),
            second_answer,
        )
}

/// Tells the sink how an update of variable `id` ended, and returns what the
/// caller of the update is to get: nothing is told where nothing changed, a
/// change is told and the sink's answer returned, and a failure is told and
/// returned whatever the sink answers.
pub fn deliver<VState: VariableState, Observer: VariableObserver<VState>>(
    observer: &mut Observer,
    id: VariableId,
    outcome: Result<VState, VariableError>,
) -> (r: Result<VState, VariableError>)
    ensures
        delivered(*old(observer), *final(observer), id, outcome, r),
{
    match outcome {
        Ok(state) => {
            if state.is_null() {
                Ok(state)
            } else {
                observer.push_change(id, state)
            }
        },
        Err(error) => {
            let _answer = observer.push_error(id, error);
            Err(error)
        },
    }
}

/// The sink that accepts whatever it is told and keeps nothing.
#[derive(Default)]
pub struct NoOpObserver<VState> where VState: VariableState {
    _state: PhantomData<VState>,
}

impl<VState> NoOpObserver<VState> where VState: VariableState {
    pub fn new() -> (r: Self) {
        NoOpObserver { _state: PhantomData }
    }
}

impl<VState> VariableObserver<VState> for NoOpObserver<VState> where VState: VariableState {
    open spec fn change_received(
        &self,
        post: &Self,
        id: VariableId,
        state: VState,
        answer: Result<VState, VariableError>,
    ) -> bool {
        answer == Ok::<VState, VariableError>(state)
    }

    open spec fn error_received(
        &self,
        post: &Self,
        id: VariableId,
        error: VariableError,
        answer: Result<VState, VariableError>,
    ) -> bool {
        answer == Err::<VState, VariableError>(error)
    }

    fn push_change(&mut self, id: VariableId, state: VState) -> (r: Result<VState, VariableError>) {
        Ok(state)
    }

    fn push_error(&mut self, id: VariableId, error: VariableError) -> (r: Result<
        VState,
        VariableError,
    >) {
        Err(error)
    }
}

/// Trait that defines variables with finite domains. In other words the number of elements
/// of the domain is countable. Every variable should have a finite domain.
pub trait FiniteDomain<Type>: Variable<Type> {
    /// The number of elements of the domain.
    fn size(&self) -> (r: usize)
        ensures
            r == self@.len(),
    ;
}

/// Trait that defines variables allowing to go through the elements of their domain.
pub trait IterableDomain<Type>: FiniteDomain<Type> where Type: Copy {
    /// Returns the elements of the domain as they are now, in ascending order.
    /// What happens to the domain afterwards does not reach what was returned.
    fn iter(&self) -> (r: Vec<Type>)
        ensures
            r@ == self@,
    ;
}

/// Trait that defines variables that can be assigned to a specific value.
pub trait AssignableDomain<Type, VState>: Variable<Type> where
    Type: DomainValue,
    VState: VariableState,
 {
    /// Change the value of the variable.
    /// Returns an error of type `VariableError::DomainWipeout`
    /// if value is not inside the domain, otherwise returns the correct `VariableState`.
    ///
    /// # Argument
    /// * `value` - The value to assign.
    fn set_value(&mut self, value: Type) -> (r: Result<VState, VariableError>)
        requires
            strictly_ascending(old(self)@),
        ensures
            strictly_ascending(final(self)@),
            final(self)@ == assigned(old(self)@, value),
            answers_narrowing(r, old(self)@.len(), final(self)@.len()),
    ;
}

/// Trait that defines variables that can be assigned to a specific value,
/// and that tell a sink about it.
pub trait AssignableDomainObserver<Type, VState>: Variable<Type> where
    Type: DomainValue,
    VState: VariableState,
 {
    /// Change the value of the variable.
    /// Returns an error of type `VariableError::DomainWipeout`
    /// if value is not inside the domain, otherwise returns what the sink
    /// answered.
    ///
    /// # Argument
    /// * `observer` - The sink to tell of any change.
    /// * `value` - The value to assign.
    fn set_value<Observer>(&mut self, observer: &mut Observer, value: Type) -> (r: Result<
        VState,
        VariableError,
    >) where Observer: VariableObserver<VState>
        requires
            strictly_ascending(old(self)@),
        ensures
            strictly_ascending(final(self)@),
            final(self)@ == assigned(old(self)@, value),
            answers_told_narrowing(
                r,
                old(self)@.len(),
                final(self)@.len(),
                *old(observer),
                *final(observer),
            ),
    ;
}

/// Trait that defines variables whose underlying `Type` is totally ordered.
pub trait OrderedDomain<Type, VState>: FiniteDomain<Type> where
    VState: VariableState,
    Type: DomainValue,
 {
    /// Returns the minimal value of the domain.
    fn min(&self) -> (r: Option<&Type>)
        ensures
            r == (if self@.len() > 0 {
                Some(&self@[0])
            } else {
                None
            }),
    ;

    /// Returns the maximal value of the domain.
    fn max(&self) -> (r: Option<&Type>)
        ensures
            r == (if self@.len() > 0 {
                Some(&self@[self@.len() - 1])
            } else {
                None
            }),
    ;

    /// Returns the minimal value of a domain that is known to have one.
    fn unchecked_min(&self) -> (r: &Type)
        requires
            self@.len() > 0,
        ensures
            *r == self@[0],
    {
        match self.min() {
            Some(v) => v,
            None => vstd::pervasive::unreached(),
        }
    }

    /// Returns the maximal value of a domain that is known to have one.
    fn unchecked_max(&self) -> (r: &Type)
        requires
            self@.len() > 0,
        ensures
            *r == self@[self@.len() - 1],
    {
        match self.max() {
            Some(v) => v,
            None => vstd::pervasive::unreached(),
        }
    }

    /// Removes the values that do not come before `ub`.
    fn strict_upperbound(&mut self, ub: &Type) -> (r: Result<VState, VariableError>)
        requires
            strictly_ascending(old(self)@),
        ensures
            strictly_ascending(final(self)@),
            restricts(final(self)@, old(self)@, |x: Type| x.rank() < ub.rank()),
            answers_narrowing(r, old(self)@.len(), final(self)@.len()),
    ;

    /// Removes the values that come after `ub`.
    fn weak_upperbound(&mut self, ub: &Type) -> (r: Result<VState, VariableError>)
        requires
            strictly_ascending(old(self)@),
        ensures
            strictly_ascending(final(self)@),
            restricts(final(self)@, old(self)@, |x: Type| x.rank() <= ub.rank()),
            answers_narrowing(r, old(self)@.len(), final(self)@.len()),
    ;

    /// Removes the values that do not come after `lb`.
    fn strict_lowerbound(&mut self, lb: &Type) -> (r: Result<VState, VariableError>)
        requires
            strictly_ascending(old(self)@),
        ensures
            strictly_ascending(final(self)@),
            restricts(final(self)@, old(self)@, |x: Type| x.rank() > lb.rank()),
            answers_narrowing(r, old(self)@.len(), final(self)@.len()),
    ;

    /// Removes the values that come before `lb`.
    fn weak_lowerbound(&mut self, lb: &Type) -> (r: Result<VState, VariableError>)
        requires
            strictly_ascending(old(self)@),
        ensures
            strictly_ascending(final(self)@),
            restricts(final(self)@, old(self)@, |x: Type| x.rank() >= lb.rank()),
            answers_narrowing(r, old(self)@.len(), final(self)@.len()),
    ;
}

/// Trait that defines variables whose underlying `Type` is totally ordered,
/// and that tell a sink about every change of a bound.
pub trait OrderedDomainObserver<Type, VState>: FiniteDomain<Type> where
    VState: VariableState,
    Type: DomainValue,
 {
    /// Returns the minimal value of the domain.
    fn min(&self) -> (r: Option<&Type>)
        ensures
            r == (if self@.len() > 0 {
                Some(&self@[0])
            } else {
                None
            }),
    ;

    /// Returns the maximal value of the domain.
    fn max(&self) -> (r: Option<&Type>)
        ensures
            r == (if self@.len() > 0 {
                Some(&self@[self@.len() - 1])
            } else {
                None
            }),
    ;

    /// Returns the minimal value of a domain that is known to have one.
    fn unchecked_min(&self) -> (r: &Type)
        requires
            self@.len() > 0,
        ensures
            *r == self@[0],
    {
        match self.min() {
            Some(v) => v,
            None => vstd::pervasive::unreached(),
        }
    }

    /// Returns the maximal value of a domain that is known to have one.
    fn unchecked_max(&self) -> (r: &Type)
        requires
            self@.len() > 0,
        ensures
            *r == self@[self@.len() - 1],
    {
        match self.max() {
            Some(v) => v,
            None => vstd::pervasive::unreached(),
        }
    }

    /// Removes the values that do not come before `ub`.
    fn strict_upperbound<Observer>(&mut self, observer: &mut Observer, ub: &Type) -> (r: Result<
        VState,
        VariableError,
    >) where Observer: VariableObserver<VState>
        requires
            strictly_ascending(old(self)@),
        ensures
            strictly_ascending(final(self)@),
            restricts(final(self)@, old(self)@, |x: Type| x.rank() < ub.rank()),
            answers_told_narrowing(
                r,
                old(self)@.len(),
                final(self)@.len(),
                *old(observer),
                *final(observer),
            ),
    ;

    /// Removes the values that come after `ub`.
    fn weak_upperbound<Observer>(&mut self, observer: &mut Observer, ub: &Type) -> (r: Result<
        VState,
        VariableError,
    >) where Observer: VariableObserver<VState>
        requires
            strictly_ascending(old(self)@),
        ensures
            strictly_ascending(final(self)@),
            restricts(final(self)@, old(self)@, |x: Type| x.rank() <= ub.rank()),
            answers_told_narrowing(
                r,
                old(self)@.len(),
                final(self)@.len(),
                *old(observer),
                *final(observer),
            ),
    ;

    /// Removes the values that do not come after `lb`.
    fn strict_lowerbound<Observer>(&mut self, observer: &mut Observer, lb: &Type) -> (r: Result<
        VState,
        VariableError,
    >) where Observer: VariableObserver<VState>
        requires
            strictly_ascending(old(self)@),
        ensures
            strictly_ascending(final(self)@),
            restricts(final(self)@, old(self)@, |x: Type| x.rank() > lb.rank()),
            answers_told_narrowing(
                r,
                old(self)@.len(),
                final(self)@.len(),
                *old(observer),
                *final(observer),
            ),
    ;

    /// Removes the values that come before `lb`.
    fn weak_lowerbound<Observer>(&mut self, observer: &mut Observer, lb: &Type) -> (r: Result<
        VState,
        VariableError,
    >) where Observer: VariableObserver<VState>
        requires
            strictly_ascending(old(self)@),
        ensures
            strictly_ascending(final(self)@),
            restricts(final(self)@, old(self)@, |x: Type| x.rank() >= lb.rank()),
            answers_told_narrowing(
                r,
                old(self)@.len(),
                final(self)@.len(),
                *old(observer),
                *final(observer),
            ),
    ;
}

/// What `not_equal` leaves of the two domains `a` and `b`: where one of them
/// holds a single value, that value leaves the other one; `a` is looked at
/// first. Where neither does, both stay as they are.
pub open spec fn kept_apart<Type>(
    a_before: Seq<Type>,
    b_before: Seq<Type>,
    a_after: Seq<Type>,
    b_after: Seq<Type>,
) -> bool {
    if a_before.len() == 1 {
        a_after == a_before && restricts(b_after, b_before, |x: Type| x != a_before[0])
    } else if b_before.len() == 1 {
        b_after == b_before && restricts(a_after, a_before, |x: Type| x != b_before[0])
    } else {
        a_after == a_before && b_after == b_before
    }
}

/// Trait that defines variables that can be made equal to, or different from,
/// another variable.
pub trait EqualDomain<Type, VState, Other = Self>: FiniteDomain<Type> where
    Type: DomainValue,
    VState: VariableState,
    Other: Variable<Type>,
 {
    /// Forces the domain of two variables to be equal: both are left with the
    /// values that they had in common.
    ///
    /// # Parameters
    /// * `value` - The variable to compare to.
    fn equal(&mut self, value: &mut Other) -> (r: Result<(VState, VState), VariableError>)
        requires
            strictly_ascending(old(self)@),
            strictly_ascending(old(value)@),
        ensures
            strictly_ascending(final(self)@),
            final(value)@ == final(self)@,
            forall|x: Type| #[trigger]
                final(self)@.contains(x) <==> (old(self)@.contains(x) && old(value)@.contains(x)),
            r is Err <==> final(self)@.len() == 0,
    ;

    /// Forces the value of two variables to be distinct. Nothing happens
    /// before one of them is down to a single value.
    ///
    /// # Parameters
    /// * `value` - The variable to compare to.
    fn not_equal(&mut self, value: &mut Other) -> (r: Result<(VState, VState), VariableError>)
        requires
            strictly_ascending(old(self)@),
            strictly_ascending(old(value)@),
        ensures
            strictly_ascending(final(self)@),
            strictly_ascending(final(value)@),
            kept_apart(old(self)@, old(value)@, final(self)@, final(value)@),
    ;
}

/// Trait that defines variables that can be made equal to, or different from,
/// another variable, and that tell a sink about it.
pub trait EqualDomainObserver<Type, VState, Other = Self>: FiniteDomain<Type> where
    Type: DomainValue,
    VState: VariableState,
    Other: Variable<Type>,
 {
    /// Forces the domain of two variables to be equal: both are left with the
    /// values that they had in common.
    ///
    /// # Parameters
    /// * `value` - The variable to compare to.
    fn equal<Observer>(&mut self, observer: &mut Observer, value: &mut Other) -> (r: Result<
        (VState, VState),
        VariableError,
    >) where Observer: VariableObserver<VState>
        requires
            strictly_ascending(old(self)@),
            strictly_ascending(old(value)@),
        ensures
            strictly_ascending(final(self)@),
            final(value)@ == final(self)@,
            forall|x: Type| #[trigger]
                final(self)@.contains(x) <==> (old(self)@.contains(x) && old(value)@.contains(x)),
            r is Err <==> final(self)@.len() == 0,
    ;

    /// Forces the value of two variables to be distinct. Nothing happens
    /// before one of them is down to a single value.
    ///
    /// # Parameters
    /// * `value` - The variable to compare to.
    fn not_equal<Observer>(&mut self, observer: &mut Observer, value: &mut Other) -> (r: Result<
        (VState, VState),
        VariableError,
    >) where Observer: VariableObserver<VState>
        requires
            strictly_ascending(old(self)@),
            strictly_ascending(old(value)@),
        ensures
            strictly_ascending(final(self)@),
            strictly_ascending(final(value)@),
            kept_apart(old(self)@, old(value)@, final(self)@, final(value)@),
    ;
}

/// `after` is what a predicate left of `before`, where the predicate answers
/// `removes` for the values that go: every value that stayed was spared by
/// the predicate and every value that went was condemned by it.
pub open spec fn pruned_by<Type, Predicate: FnMut(&Type) -> bool>(
    after: Seq<Type>,
    before: Seq<Type>,
    pred: Predicate,
    removes: bool,
) -> bool {
    &&& forall|x: Type| #[trigger]
        after.contains(x) ==> before.contains(x) && call_ensures(pred, (&x,), !removes)
    &&& forall|x: Type| #[trigger]
        before.contains(x) && !after.contains(x) ==> call_ensures(pred, (&x,), removes)
}

/// Trait that defines variables that allow to remove any value from their domain.
pub trait PrunableDomain<Type, VState>: FiniteDomain<Type> where
    Type: DomainValue,
    VState: VariableState,
 {
    /// Forces the domain of the variable to be in the values passed as parameter.
    ///
    /// # Parameters
    /// * `values` - The admissible values, in any order.
    fn in_values(&mut self, values: Vec<Type>) -> (r: Result<VState, VariableError>)
        requires
            strictly_ascending(old(self)@),
        ensures
            strictly_ascending(final(self)@),
            restricts(final(self)@, old(self)@, |x: Type| values@.contains(x)),
            answers_narrowing(r, old(self)@.len(), final(self)@.len()),
    ;

    /// Remove the value from the domain of a variable.
    ///
    /// # Parameters
    /// * `value` - The value to remove.
    fn remove_value(&mut self, value: Type) -> (r: Result<VState, VariableError>)
        requires
            strictly_ascending(old(self)@),
        ensures
            strictly_ascending(final(self)@),
            restricts(final(self)@, old(self)@, |x: Type| x != value),
            answers_narrowing(r, old(self)@.len(), final(self)@.len()),
    ;

    /// Remove the values of the domain that satisfy the predicate.
    ///
    /// # Parameters
    /// * `pred` - The predicate that says which values go.
    fn remove_if<Predicate>(&mut self, pred: Predicate) -> (r: Result<
        VState,
        VariableError,
    >) where Predicate: FnMut(&Type) -> bool
        requires
            strictly_ascending(old(self)@),
            forall|x: Type| old(self)@.contains(x) ==> call_requires(pred, (&x,)),
        ensures
            strictly_ascending(final(self)@),
            pruned_by(final(self)@, old(self)@, pred, true),
            answers_narrowing(r, old(self)@.len(), final(self)@.len()),
    ;

    /// Remove the values of the domain that do not satisfy the predicate.
    ///
    /// # Parameters
    /// * `pred` - The predicate that says which values stay.
    fn retains_if<Predicate>(&mut self, pred: Predicate) -> (r: Result<
        VState,
        VariableError,
    >) where Predicate: FnMut(&Type) -> bool
        requires
            strictly_ascending(old(self)@),
            forall|x: Type| old(self)@.contains(x) ==> call_requires(pred, (&x,)),
        ensures
            strictly_ascending(final(self)@),
            pruned_by(final(self)@, old(self)@, pred, false),
            answers_narrowing(r, old(self)@.len(), final(self)@.len()),
    ;
}

/// Trait that defines variables that allow to remove any value from their
/// domain, and that tell a sink about it.
pub trait PrunableDomainObserver<Type, VState>: FiniteDomain<Type> where
    Type: DomainValue,
    VState: VariableState,
 {
    /// Forces the domain of the variable to be in the values passed as parameter.
    ///
    /// # Parameters
    /// * `values` - The admissible values, in any order.
    fn in_values<Observer>(&mut self, observer: &mut Observer, values: Vec<Type>) -> (r: Result<
        VState,
        VariableError,
    >) where Observer: VariableObserver<VState>
        requires
            strictly_ascending(old(self)@),
        ensures
            strictly_ascending(final(self)@),
            restricts(final(self)@, old(self)@, |x: Type| values@.contains(x)),
            answers_told_narrowing(
                r,
                old(self)@.len(),
                final(self)@.len(),
                *old(observer),
                *final(observer),
            ),
    ;

    /// Remove the value from the domain of a variable.
    ///
    /// # Parameters
    /// * `value` - The value to remove.
    fn remove_value<Observer>(&mut self, observer: &mut Observer, value: Type) -> (r: Result<
        VState,
        VariableError,
    >) where Observer: VariableObserver<VState>
        requires
            strictly_ascending(old(self)@),
        ensures
            strictly_ascending(final(self)@),
            restricts(final(self)@, old(self)@, |x: Type| x != value),
            answers_told_narrowing(
                r,
                old(self)@.len(),
                final(self)@.len(),
                *old(observer),
                *final(observer),
            ),
    ;

    /// Remove the values of the domain that satisfy the predicate.
    ///
    /// # Parameters
    /// * `pred` - The predicate that says which values go.
    fn remove_if<Observer, Predicate>(
        &mut self,
        observer: &mut Observer,
        pred: Predicate,
    ) -> (r: Result<VState, VariableError>) where
        Observer: VariableObserver<VState>,
        Predicate: FnMut(&Type) -> bool,

        requires
            strictly_ascending(old(self)@),
            forall|x: Type| old(self)@.contains(x) ==> call_requires(pred, (&x,)),
        ensures
            strictly_ascending(final(self)@),
            pruned_by(final(self)@, old(self)@, pred, true),
            answers_told_narrowing(
                r,
                old(self)@.len(),
                final(self)@.len(),
                *old(observer),
                *final(observer),
            ),
    ;

    /// Remove the values of the domain that do not satisfy the predicate.
    ///
    /// # Parameters
    /// * `pred` - The predicate that says which values stay.
    fn retains_if<Observer, Predicate>(
        &mut self,
        observer: &mut Observer,
        pred: Predicate,
    ) -> (r: Result<VState, VariableError>) where
        Observer: VariableObserver<VState>,
        Predicate: FnMut(&Type) -> bool,

        requires
            strictly_ascending(old(self)@),
            forall|x: Type| old(self)@.contains(x) ==> call_requires(pred, (&x,)),
        ensures
            strictly_ascending(final(self)@),
            pruned_by(final(self)@, old(self)@, pred, false),
            answers_told_narrowing(
                r,
                old(self)@.len(),
                final(self)@.len(),
                *old(observer),
                *final(observer),
            ),
    ;
}

/// Trait that defines ordered variables that can be cut down to a list of
/// values.
pub trait OrderedPrunableDomain<Type, VState>: EqualDomain<Type, VState> + OrderedDomain<
    Type,
    VState,
> where Type: DomainValue, VState: VariableState {
    /// Forces the domain of the variable to be in the values passed as
    /// parameter. The values are best handed over in ascending order, each
    /// once; any other order is put right first.
    ///
    /// # Parameters
    /// * `values` - The admissible values.
    fn in_sorted_values(&mut self, values: Vec<Type>) -> (r: Result<VState, VariableError>)
        requires
            strictly_ascending(old(self)@),
        ensures
            strictly_ascending(final(self)@),
            restricts(final(self)@, old(self)@, |x: Type| values@.contains(x)),
            answers_narrowing(r, old(self)@.len(), final(self)@.len()),
    ;
}

/// Trait that defines ordered variables that can be cut down to a list of
/// values, and that tell a sink about it.
pub trait OrderedPrunableDomainObserver<Type, VState>: EqualDomainObserver<
    Type,
    VState,
> + OrderedDomainObserver<Type, VState> where Type: DomainValue, VState: VariableState {
    /// Forces the domain of the variable to be in the values passed as
    /// parameter. The values are best handed over in ascending order, each
    /// once; any other order is put right first.
    ///
    /// # Parameters
    /// * `values` - The admissible values.
    fn in_sorted_values<Observer>(
        &mut self,
        observer: &mut Observer,
        values: Vec<Type>,
    ) -> (r: Result<VState, VariableError>) where Observer: VariableObserver<VState>
        requires
            strictly_ascending(old(self)@),
        ensures
            strictly_ascending(final(self)@),
            restricts(final(self)@, old(self)@, |x: Type| values@.contains(x)),
            answers_told_narrowing(
                r,
                old(self)@.len(),
                final(self)@.len(),
                *old(observer),
                *final(observer),
            ),
    ;
}

/// Trait that defines variables whose domain can be deduced from an interval.
pub trait FromRangeDomain<Type>: FiniteDomain<Type> where Type: DomainValue {
    /// Returns a new variable from an interval or returns `None` if the interval is not valid
    /// (max < min). The domain of the new variable contains `min` and `max`.
    ///
    /// # Parameters
    /// * `min` - The minimal value of the interval.
    /// * `max` - The maximal value of the interval.
    fn new_from_range(min: Type, max: Type) -> (r: Option<Self>)
        ensures
            r is None <==> min.rank() > max.rank(),
            r matches Some(d) ==> {
                &&& strictly_ascending(d@)
                &&& d@.len() == max.rank() - min.rank() + 1
                &&& forall|i: int| 0 <= i < d@.len() ==> (#[trigger] d@[i]).rank() == min.rank() + i
            },
    ;
}

/// Trait that defines variables whose domain can be deduced from a list of values.
pub trait FromValuesDomain<Type>: FiniteDomain<Type> + Sized where Type: DomainValue {
    /// Returns a new variable from a list of values or `None` if the list
    /// of values is empty. The values may come in any order and more than
    /// once.
    ///
    /// # Parameters
    /// * `values` - The values of the domain.
    fn new_from_values(values: Vec<Type>) -> (r: Option<Self>)
        ensures
            r is None <==> values@.len() == 0,
            r matches Some(d) ==> strictly_ascending(d@) && same_values(d@, values@),
    ;
}

/// What is left of `a0` and `b0` once the first is kept from going beyond
/// the second: `a1` holds the values of `a0` up to the greatest of `b0`, and
/// `b1` the values of `b0` from the least of `a1` on. Where `strict`, the
/// bound itself goes too. Neither is left empty.
pub open spec fn precedence_enforced<Type: DomainValue>(
    a0: Seq<Type>,
    b0: Seq<Type>,
    a1: Seq<Type>,
    b1: Seq<Type>,
    strict: bool,
) -> bool {
    &&& b0.len() > 0
    &&& a1.len() > 0
    &&& b1.len() > 0
    &&& restricts(
        a1,
        a0,
        |x: Type|
            if strict {
                x.rank() < b0[b0.len() - 1].rank()
            } else {
                x.rank() <= b0[b0.len() - 1].rank()
            },
    )
    &&& restricts(
        b1,
        b0,
        |x: Type|
            if strict {
                x.rank() > a1[0].rank()
            } else {
                x.rank() >= a1[0].rank()
            },
    )
}

/// What is left of `a0` and `b0` once the first is kept from going below
/// the second: `a1` holds the values of `a0` from the least of `b0` on, and
/// `b1` the values of `b0` up to the greatest of `a1`. Where `strict`, the
/// bound itself goes too. Neither is left empty.
pub open spec fn succession_enforced<Type: DomainValue>(
    a0: Seq<Type>,
    b0: Seq<Type>,
    a1: Seq<Type>,
    b1: Seq<Type>,
    strict: bool,
) -> bool {
    &&& b0.len() > 0
    &&& a1.len() > 0
    &&& b1.len() > 0
    &&& restricts(
        a1,
        a0,
        |x: Type|
            if strict {
                x.rank() > b0[0].rank()
            } else {
                x.rank() >= b0[0].rank()
            },
    )
    &&& restricts(
        b1,
        b0,
        |x: Type|
            if strict {
                x.rank() < a1[a1.len() - 1].rank()
            } else {
                x.rank() <= a1[a1.len() - 1].rank()
            },
    )
}

/// Relations between the bounds of two ordered variables, each built from
/// one bound operation on either side. The sink is told of every change, and
/// the states that come back are its answers.
///
/// Each operation fails as soon as one of the bound operations fails, be it
/// by a wipeout or because the sink turned a change down. What was cut from
/// the domains until then stays cut. Where nothing is cut from either
/// domain, the sink is left alone and both states are neutral. The weak
/// relations and the equality of bounds never take a value away that both
/// domains hold.
pub trait BoundedDomainObserver<Type, VState, Other = Self>: OrderedDomainObserver<
    Type,
    VState,
> where VState: VariableState, Type: DomainValue, Other: OrderedDomainObserver<Type, VState> {
    /// Forces the domain of `self` to satisfy a precedence relation
    /// with `value`: `self` loses the values that do not come before the
    /// maximal value of `value`, then `value` the values that do not come
    /// after the minimal value of `self`.
    ///
    /// # Parameters
    /// * `value` - The variable to compare to.
    fn less_than<Observer>(&mut self, observer: &mut Observer, value: &mut Other) -> (r: Result<
        (VState, VState),
        VariableError,
    >) where Observer: VariableObserver<VState>
        requires
            strictly_ascending(old(self)@),
            strictly_ascending(old(value)@),
            old(value)@.len() > 0,
        ensures
            strictly_ascending(final(self)@),
            strictly_ascending(final(value)@),
            part_of(final(self)@, old(self)@),
            part_of(final(value)@, old(value)@),
            final(self)@.len() == 0 || final(value)@.len() == 0 ==> r is Err,
            final(self)@.len() == old(self)@.len() && final(value)@.len() == old(value)@.len()
                && old(self)@.len() > 0 ==> *final(observer) == *old(observer) && r == Ok::<
                (VState, VState),
                VariableError,
            >((VState::null_state(), VState::null_state())),
            r is Ok ==> precedence_enforced(
                old(self)@,
                old(value)@,
                final(self)@,
                final(value)@,
                true,
            ),
    {
        let ub: Type = *value.unchecked_max();
        let state_self = match self.strict_upperbound(observer, &ub) {
            Ok(state) => state,
            Err(error) => {
                return Err(error);
            },
        };
        let lb: Type = *self.unchecked_min();
        let state_value = match value.strict_lowerbound(observer, &lb) {
            Ok(state) => state,
            Err(error) => {
                return Err(error);
            },
        };
        Ok((state_self, state_value))
    }

    /// Forces the domain of `self` to satisfy a weak precedence relation
    /// with `value`: `self` loses the values that come after the maximal
    /// value of `value`, then `value` the values that come before the
    /// minimal value of `self`.
    ///
    /// # Parameters
    /// * `value` - The variable to compare to.
    fn less_or_equal_than<Observer>(
        &mut self,
        observer: &mut Observer,
        value: &mut Other,
    ) -> (r: Result<(VState, VState), VariableError>) where Observer: VariableObserver<VState>
        requires
            strictly_ascending(old(self)@),
            strictly_ascending(old(value)@),
            old(value)@.len() > 0,
        ensures
            strictly_ascending(final(self)@),
            strictly_ascending(final(value)@),
            part_of(final(self)@, old(self)@),
            part_of(final(value)@, old(value)@),
            final(self)@.len() == 0 || final(value)@.len() == 0 ==> r is Err,
            final(self)@.len() == old(self)@.len() && final(value)@.len() == old(value)@.len()
                && old(self)@.len() > 0 ==> *final(observer) == *old(observer) && r == Ok::<
                (VState, VState),
                VariableError,
            >((VState::null_state(), VState::null_state())),
            forall|z: Type|
                #![trigger old(self)@.contains(z), old(value)@.contains(z)]
                old(self)@.contains(z) && old(value)@.contains(z) ==> final(self)@.contains(z)
                    && final(value)@.contains(z),
            r is Ok ==> precedence_enforced(
                old(self)@,
                old(value)@,
                final(self)@,
                final(value)@,
                false,
            ),
    {
        let ub: Type = *value.unchecked_max();
        let state_self = match self.weak_upperbound(observer, &ub) {
            Ok(state) => state,
            Err(error) => {
                return Err(error);
            },
        };
        let lb: Type = *self.unchecked_min();
        let state_value = match value.weak_lowerbound(observer, &lb) {
            Ok(state) => state,
            Err(error) => {
                return Err(error);
            },
        };
        Ok((state_self, state_value))
    }

    /// Forces the domain of `value` to satisfy a strict precedence relation
    /// with `self`: `self` loses the values that do not come after the
    /// minimal value of `value`, then `value` the values that do not come
    /// before the maximal value of `self`.
    ///
    /// # Parameters
    /// * `value` - The variable to compare to.
    fn greater_than<Observer>(&mut self, observer: &mut Observer, value: &mut Other) -> (r: Result<
        (VState, VState),
        VariableError,
    >) where Observer: VariableObserver<VState>
        requires
            strictly_ascending(old(self)@),
            strictly_ascending(old(value)@),
            old(value)@.len() > 0,
        ensures
            strictly_ascending(final(self)@),
            strictly_ascending(final(value)@),
            part_of(final(self)@, old(self)@),
            part_of(final(value)@, old(value)@),
            final(self)@.len() == 0 || final(value)@.len() == 0 ==> r is Err,
            final(self)@.len() == old(self)@.len() && final(value)@.len() == old(value)@.len()
                && old(self)@.len() > 0 ==> *final(observer) == *old(observer) && r == Ok::<
                (VState, VState),
                VariableError,
            >((VState::null_state(), VState::null_state())),
            r is Ok ==> succession_enforced(
                old(self)@,
                old(value)@,
                final(self)@,
                final(value)@,
                true,
            ),
    {
        let lb: Type = *value.unchecked_min();
        let state_self = match self.strict_lowerbound(observer, &lb) {
            Ok(state) => state,
            Err(error) => {
                return Err(error);
            },
        };
        let ub: Type = *self.unchecked_max();
        let state_value = match value.strict_upperbound(observer, &ub) {
            Ok(state) => state,
            Err(error) => {
                return Err(error);
            },
        };
        Ok((state_self, state_value))
    }

    /// Forces the domain of `value` to satisfy a weak precedence relation
    /// with `self`: `self` loses the values that come before the minimal
    /// value of `value`, then `value` the values that come after the
    /// maximal value of `self`.
    ///
    /// # Parameters
    /// * `value` - The variable to compare to.
    fn greater_or_equal_than<Observer>(
        &mut self,
        observer: &mut Observer,
        value: &mut Other,
    ) -> (r: Result<(VState, VState), VariableError>) where Observer: VariableObserver<VState>
        requires
            strictly_ascending(old(self)@),
            strictly_ascending(old(value)@),
            old(value)@.len() > 0,
        ensures
            strictly_ascending(final(self)@),
            strictly_ascending(final(value)@),
            part_of(final(self)@, old(self)@),
            part_of(final(value)@, old(value)@),
            final(self)@.len() == 0 || final(value)@.len() == 0 ==> r is Err,
            final(self)@.len() == old(self)@.len() && final(value)@.len() == old(value)@.len()
                && old(self)@.len() > 0 ==> *final(observer) == *old(observer) && r == Ok::<
                (VState, VState),
                VariableError,
            >((VState::null_state(), VState::null_state())),
            forall|z: Type|
                #![trigger old(self)@.contains(z), old(value)@.contains(z)]
                old(self)@.contains(z) && old(value)@.contains(z) ==> final(self)@.contains(z)
                    && final(value)@.contains(z),
            r is Ok ==> succession_enforced(
                old(self)@,
                old(value)@,
                final(self)@,
                final(value)@,
                false,
            ),
    {
        let lb: Type = *value.unchecked_min();
        let state_self = match self.weak_lowerbound(observer, &lb) {
            Ok(state) => state,
            Err(error) => {
                return Err(error);
            },
        };
        let ub: Type = *self.unchecked_max();
        let state_value = match value.weak_upperbound(observer, &ub) {
            Ok(state) => state,
            Err(error) => {
                return Err(error);
            },
        };
        Ok((state_self, state_value))
    }

    /// Brings the bounds of two variables closer in one round: the weak
    /// precedence of `self` before `value`, then that of `value` before
    /// `self`. The bounds need not be the same afterwards.
    ///
    /// # Parameters
    /// * `value` - The variable to compare to.
    fn equal_bounds_lazy<Observer>(
        &mut self,
        observer: &mut Observer,
        value: &mut Other,
    ) -> (r: Result<(VState, VState), VariableError>) where Observer: VariableObserver<VState>
        requires
            strictly_ascending(old(self)@),
            strictly_ascending(old(value)@),
            old(value)@.len() > 0,
        ensures
            strictly_ascending(final(self)@),
            strictly_ascending(final(value)@),
            part_of(final(self)@, old(self)@),
            part_of(final(value)@, old(value)@),
            final(self)@.len() == 0 || final(value)@.len() == 0 ==> r is Err,
            final(self)@.len() == old(self)@.len() && final(value)@.len() == old(value)@.len()
                && old(self)@.len() > 0 ==> *final(observer) == *old(observer) && r == Ok::<
                (VState, VState),
                VariableError,
            >((VState::null_state(), VState::null_state())),
            forall|z: Type|
                #![trigger old(self)@.contains(z), old(value)@.contains(z)]
                old(self)@.contains(z) && old(value)@.contains(z) ==> final(self)@.contains(z)
                    && final(value)@.contains(z),
            r is Ok ==> exists|a: Seq<Type>, b: Seq<Type>|
                #![trigger precedence_enforced(old(self)@, old(value)@, a, b, false)]
                precedence_enforced(old(self)@, old(value)@, a, b, false) && succession_enforced(
                    a,
                    b,
                    final(self)@,
                    final(value)@,
                    false,
                ),
    {
        let (x1, y1) = match self.less_or_equal_than(observer, value) {
            Ok(states) => states,
            Err(error) => {
                return Err(error);
            },
        };
        let ghost a = self@;
        let ghost b = value@;
        proof {
            lemma_part_length(a, old(self)@);
            lemma_part_length(b, old(value)@);
        }
        let (x2, y2) = match self.greater_or_equal_than(observer, value) {
            Ok(states) => states,
            Err(error) => {
                proof {
                    lemma_part_length(self@, a);
                    lemma_part_length(value@, b);
                }
                return Err(error);
            },
        };
        proof {
            lemma_part_length(self@, a);
            lemma_part_length(value@, b);
            VState::lemma_null_is_neutral(VState::null_state());
            assert(precedence_enforced(old(self)@, old(value)@, a, b, false));
            assert(succession_enforced(a, b, self@, value@, false));
        }
        Ok((x1.merge(x2), y1.merge(y2)))
    }

    /// Forces the domains of two variables to have the same bounds (this does not imply to have
    /// the same domain): rounds of `equal_bounds_lazy`, until one of them
    /// leaves both domains as they were. Each domain is then a run of what
    /// it was, from the common minimal value to the common maximal value.
    /// The states returned are the sink's answers, merged.
    ///
    /// # Parameters
    /// * `value` - The variable to compare to.
    fn equal_bounds<Observer>(&mut self, observer: &mut Observer, value: &mut Other) -> (r: Result<
        (VState, VState),
        VariableError,
    >) where Observer: VariableObserver<VState>
        requires
            strictly_ascending(old(self)@),
            strictly_ascending(old(value)@),
            old(value)@.len() > 0,
        ensures
            strictly_ascending(final(self)@),
            strictly_ascending(final(value)@),
            part_of(final(self)@, old(self)@),
            part_of(final(value)@, old(value)@),
            final(self)@.len() == 0 || final(value)@.len() == 0 ==> r is Err,
            final(self)@.len() == old(self)@.len() && final(value)@.len() == old(value)@.len()
                && old(self)@.len() > 0 ==> *final(observer) == *old(observer) && r == Ok::<
                (VState, VState),
                VariableError,
            >((VState::null_state(), VState::null_state())),
            forall|z: Type|
                #![trigger old(self)@.contains(z), old(value)@.contains(z)]
                old(self)@.contains(z) && old(value)@.contains(z) ==> final(self)@.contains(z)
                    && final(value)@.contains(z),
            r is Ok ==> {
                &&& is_run_of(final(self)@, old(self)@)
                &&& is_run_of(final(value)@, old(value)@)
                &&& final(self)@[0] == final(value)@[0]
                &&& final(self)@[final(self)@.len() - 1] == final(value)@[final(value)@.len() - 1]
            },
    {
        let mut x = VState::null();
        let mut y = VState::null();
        proof {
            lemma_run_of_itself(value@);
            if self@.len() > 0 {
                lemma_run_of_itself(self@);
            }
        }
        loop
            invariant
                strictly_ascending(self@),
                strictly_ascending(value@),
                part_of(self@, old(self)@),
                part_of(value@, old(value)@),
                self@.len() <= old(self)@.len(),
                value@.len() <= old(value)@.len(),
                self@.len() > 0 ==> is_run_of(self@, old(self)@),
                is_run_of(value@, old(value)@),
                self@.len() == old(self)@.len() && value@.len() == old(value)@.len() ==> *observer
                    == *old(observer) && x == VState::null_state() && y == VState::null_state(),
                forall|z: Type|
                    #![trigger old(self)@.contains(z), old(value)@.contains(z)]
                    old(self)@.contains(z) && old(value)@.contains(z) ==> self@.contains(z)
                        && value@.contains(z),
            ensures
                self@.len() > 0,
                self@[0] == value@[0],
                self@[self@.len() - 1] == value@[value@.len() - 1],
            decreases self@.len() + value@.len(),
        {
            let size_self = self.size();
            let size_value = value.size();
            let ghost a0 = self@;
            let ghost b0 = value@;
            let (x1, y1) = match self.less_or_equal_than(observer, value) {
                Ok(states) => states,
                Err(error) => {
                    proof {
                        lemma_part_length(self@, a0);
                        lemma_part_length(value@, b0);
                    }
                    return Err(error);
                },
            };
            let ghost a1 = self@;
            let ghost b1 = value@;
            proof {
                lemma_part_length(a1, a0);
                lemma_part_length(b1, b0);
            }
            let (x2, y2) = match self.greater_or_equal_than(observer, value) {
                Ok(states) => states,
                Err(error) => {
                    proof {
                        lemma_part_length(self@, a1);
                        lemma_part_length(value@, b1);
                    }
                    return Err(error);
                },
            };
            let ghost a2 = self@;
            let ghost b2 = value@;
            x = x.merge(x1.merge(x2));
            y = y.merge(y1.merge(y2));
            proof {
                let last_b0 = b0[b0.len() - 1];
                let first_a1 = a1[0];
                let first_b1 = b1[0];
                let last_a2 = a2[a2.len() - 1];
                assert(a1.contains(a1[0]));
                assert(a0.len() > 0);
                lemma_run_cut(
                    old(self)@,
                    a0,
                    a1,
                    |z: Type| z.rank() <= last_b0.rank(),
                    true,
                );
                lemma_run_cut(
                    old(value)@,
                    b0,
                    b1,
                    |z: Type| z.rank() >= first_a1.rank(),
                    false,
                );
                lemma_run_cut(
                    old(self)@,
                    a1,
                    a2,
                    |z: Type| z.rank() >= first_b1.rank(),
                    false,
                );
                lemma_run_cut(
                    old(value)@,
                    b1,
                    b2,
                    |z: Type| z.rank() <= last_a2.rank(),
                    true,
                );
                lemma_part_length(a2, a1);
                lemma_part_length(b2, b1);
                VState::lemma_null_is_neutral(VState::null_state());
            }
            if self.size() == size_self && value.size() == size_value {
                proof {
                    assert(a1 == a0 && a2 == a0 && b1 == b0 && b2 == b0);
                    assert(a0.contains(a0[0]));
                    assert(a0.contains(a0[a0.len() - 1]));
                    assert(b0.contains(b0[0]));
                    assert(b0.contains(b0[b0.len() - 1]));
                    Type::rank_determines_value(a0[0], b0[0]);
                    Type::rank_determines_value(a0[a0.len() - 1], b0[b0.len() - 1]);
                }
                break ;
            }
        }
        Ok((x, y))
    }
}

} // verus!
