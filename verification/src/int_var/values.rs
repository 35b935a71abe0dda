//! The domain of an integer variable, kept as the ascending list of its
//! values.
//!
//! The list is strictly ascending at all times: its first value is the
//! minimum of the domain, its last value the maximum, and no value stands in
//! it twice. An empty list is a domain that was wiped out.
use crate::ascending::{
    copy_of, count_below, count_up_to, intersection, is_strictly_ascending, lemma_ascending_bounds,
    lemma_push_contains, lemma_remove_restricts, lemma_segment_restricts, normalized, part_of,
    position_of, restricts, strictly_ascending,
};
use crate::domains::{
    assigned, deliver, delivered, delivered_both, pruned_by, side_of, AssignableDomain,
    AssignableDomainObserver, BoundedDomainObserver, EqualDomain, EqualDomainObserver,
    FiniteDomain, FromRangeDomain, FromValuesDomain, IterableDomain, OrderedDomain,
    OrderedDomainObserver, OrderedPrunableDomain, OrderedPrunableDomainObserver, PrunableDomain,
    PrunableDomainObserver,
};
use crate::int_var::IntVariableState;
use crate::scalar::{same_value, DomainValue};
use crate::{CruspVariable, Variable, VariableError, VariableId, VariableObserver};
use vstd::prelude::*;

verus! {

/// How a domain changed that went from `before` to `after` by losing values:
/// not at all where it still has as many, in a bound where its first or its
/// last value is another one, and else in its inner values only.
pub open spec fn change_between<T>(before: Seq<T>, after: Seq<T>) -> IntVariableState {
    if after.len() == before.len() {
        IntVariableState::NoChange
    } else if before.first() != after.first() || before.last() != after.last() {
        IntVariableState::BoundsChange
    } else {
        IntVariableState::ValuesChange
    }
}

/// What pruning a domain from `before` to `after` returns: the wipeout where
/// nothing is left, and else how the domain changed.
pub open spec fn pruning_outcome<T>(before: Seq<T>, after: Seq<T>) -> Result<
    IntVariableState,
    VariableError,
> {
    if after.len() == 0 {
        Err(VariableError::DomainWipeout)
    } else {
        Ok(change_between(before, after))
    }
}

/// What tightening one bound of a domain from `before` to `after` returns:
/// the wipeout where nothing is left, `NoChange` where the bound held
/// already, and else `moved`, the change of that bound.
pub open spec fn bound_outcome<T>(before: Seq<T>, after: Seq<T>, moved: IntVariableState) -> Result<
    IntVariableState,
    VariableError,
> {
    if after.len() == 0 {
        Err(VariableError::DomainWipeout)
    } else if after.len() == before.len() {
        Ok(IntVariableState::NoChange)
    } else {
        Ok(moved)
    }
}

/// What assigning `value` to a domain that holds `before` returns: the
/// wipeout where the value is not admissible, `NoChange` where it is the only
/// value already, and else `BoundsChange`.
pub open spec fn assignment_outcome<T>(before: Seq<T>, value: T) -> Result<
    IntVariableState,
    VariableError,
> {
    if !before.contains(value) {
        Err(VariableError::DomainWipeout)
    } else if before.len() == 1 {
        Ok(IntVariableState::NoChange)
    } else {
        Ok(IntVariableState::BoundsChange)
    }
}

/// What making two domains equal returns, where they held `a_before` and
/// `b_before` and both hold `after` now: the wipeout where they had nothing in
/// common, and else how each of them changed.
pub open spec fn joint_outcome<T>(a_before: Seq<T>, b_before: Seq<T>, after: Seq<T>) -> Result<
    (IntVariableState, IntVariableState),
    VariableError,
> {
    if after.len() == 0 {
        Err(VariableError::DomainWipeout)
    } else {
        Ok((change_between(a_before, after), change_between(b_before, after)))
    }
}

/// What keeping two domains apart returns. Only the domain that lost the
/// single value of the other one can have changed, and its wipeout is the
/// failure of the whole.
pub open spec fn apart_outcome<T>(
    a_before: Seq<T>,
    b_before: Seq<T>,
    a_after: Seq<T>,
    b_after: Seq<T>,
) -> Result<(IntVariableState, IntVariableState), VariableError> {
    if a_before.len() == 1 {
        match pruning_outcome(b_before, b_after) {
            Ok(state) => Ok((IntVariableState::NoChange, state)),
            Err(error) => Err(error),
        }
    } else if b_before.len() == 1 {
        match pruning_outcome(a_before, a_after) {
            Ok(state) => Ok((state, IntVariableState::NoChange)),
            Err(error) => Err(error),
        }
    } else {
        Ok((IntVariableState::NoChange, IntVariableState::NoChange))
    }
}

/// Assigning a value that the domain admits, and then the same value again:
/// the second assignment finds the domain as the first one left it, leaves it
/// so, and returns `NoChange`.
pub proof fn lemma_set_value_idempotent<T>(before: Seq<T>, value: T)
    requires
        before.contains(value),
    ensures
        assigned(assigned(before, value), value) == assigned(before, value),
        assignment_outcome(assigned(before, value), value) == Ok::<
            IntVariableState,
            VariableError,
        >(IntVariableState::NoChange),
{
    let once = assigned(before, value);
    assert(once[0] == value);
    assert(once.contains(value));
}

/// A domain that was wiped out stays wiped out: assigning a value to it,
/// pruning it and tightening one of its bounds all fail again.
pub proof fn lemma_wipeout_is_final<T>(after: Seq<T>, value: T, moved: IntVariableState)
    requires
        part_of(after, Seq::<T>::empty()),
    ensures
        after == Seq::<T>::empty(),
        assignment_outcome(Seq::<T>::empty(), value) is Err,
        pruning_outcome(Seq::<T>::empty(), after) is Err,
        bound_outcome(Seq::<T>::empty(), after, moved) is Err,
{
    if after.len() > 0 {
        assert(after.contains(after[0]));
        assert(Seq::<T>::empty().contains(after[0]));
    }
    assert(after =~= Seq::<T>::empty());
}

/// The values from `min` to `max`, both included, in ascending order.
pub open spec fn is_range<T: DomainValue>(s: Seq<T>, min: T, max: T) -> bool {
    &&& s.len() == max.rank() - min.rank() + 1
    &&& forall|i: int| 0 <= i < s.len() ==> (#[trigger] s[i]).rank() == min.rank() + i
}

/// The values from `min` to `max`, or `None` where `min` comes after `max`.
fn range_values<T: DomainValue>(min: T, max: T) -> (r: Option<Vec<T>>)
    ensures
        r is None <==> min.rank() > max.rank(),
        r matches Some(v) ==> strictly_ascending(v@) && is_range(v@, min, max),
{
    if max.precedes(&min) {
        return None;
    }
    let mut domain: Vec<T> = Vec::new();
    let mut val = min;
    while val.precedes(&max)
        invariant
            min.rank() <= val.rank() <= max.rank(),
            domain@.len() == val.rank() - min.rank(),
            forall|i: int| 0 <= i < domain@.len() ==> (#[trigger] domain@[i]).rank() == min.rank() + i,
        decreases max.rank() - val.rank(),
    {
        domain.push(val);
        match val.successor() {
            Some(next) => {
                val = next;
            },
            None => {
                proof {
                    assert(max.rank() <= val.rank());
                }
            },
        }
    }
    domain.push(val);
    Some(domain)
}

/// How `before` changed on its way to `after`.
fn change_to<T: DomainValue>(before: &Vec<T>, after: &Vec<T>) -> (r: IntVariableState)
    requires
        before@.len() > 0,
        after@.len() > 0,
    ensures
        r == change_between(before@, after@),
{
    if after.len() == before.len() {
        IntVariableState::NoChange
    } else if !same_value(&before[0], &after[0]) || !same_value(
        &before[before.len() - 1],
        &after[after.len() - 1],
    ) {
        IntVariableState::BoundsChange
    } else {
        IntVariableState::ValuesChange
    }
}

/// The values of `v` that the predicate spares, where it answers `removes`
/// for the values that go.
fn sifted<T: DomainValue, Predicate: FnMut(&T) -> bool>(
    v: &Vec<T>,
    mut pred: Predicate,
    removes: bool,
) -> (r: Vec<T>)
    requires
        strictly_ascending(v@),
        forall|x: T| v@.contains(x) ==> call_requires(pred, (&x,)),
    ensures
        strictly_ascending(r@),
        pruned_by(r@, v@, pred, removes),
{
    let mut r: Vec<T> = Vec::new();
    let mut i: usize = 0;
    let ghost asked = pred;
    while i < v.len()
        invariant
            i <= v@.len(),
            pred == asked,
            strictly_ascending(v@),
            strictly_ascending(r@),
            forall|x: T| v@.contains(x) ==> call_requires(pred, (&x,)),
            forall|k: int|
                0 <= k < r@.len() && i < v@.len() ==> (#[trigger] r@[k]).rank() < v@[i as int].rank(),
            forall|x: T| #[trigger]
                r@.contains(x) ==> v@.contains(x) && call_ensures(pred, (&x,), !removes),
            forall|m: int|
                0 <= m < i && !r@.contains(#[trigger] v@[m]) ==> call_ensures(
                    pred,
                    (&v@[m],),
                    removes,
                ),
        decreases v@.len() - i,
    {
        let x = v[i];
        assert(v@.contains(x));
        let goes = pred(&x);
        let ghost before = r@;
        if goes != removes {
            r.push(x);
            proof {
                let after = before.push(x);
                assert forall|m: int, n: int| 0 <= m < n < after.len() implies (
                #[trigger] after[m]).rank() < (#[trigger] after[n]).rank() by {
                    if n < before.len() {
                        assert(before[m].rank() < before[n].rank());
                    } else {
                        assert(before[m].rank() < v@[i as int].rank());
                    }
                }
                assert forall|z: T| #[trigger] after.contains(z) implies v@.contains(z)
                    && call_ensures(pred, (&z,), !removes) by {
                    lemma_push_contains(before, x, z);
                }
                assert forall|m: int| 0 <= m < i + 1 && !after.contains(
                    #[trigger] v@[m],
                ) implies call_ensures(pred, (&v@[m],), removes) by {
                    lemma_push_contains(before, x, v@[m]);
                }
            }
        }
        proof {
            assert forall|k: int| 0 <= k < r@.len() && i + 1 < v@.len() implies (
            #[trigger] r@[k]).rank() < v@[i + 1].rank() by {
                assert(v@[i as int].rank() < v@[i + 1].rank());
                if k < before.len() {
                    assert(before[k].rank() < v@[i as int].rank());
                }
            }
        }
        i += 1;
    }
    proof {
        assert forall|x: T| #[trigger] v@.contains(x) && !r@.contains(x) implies call_ensures(
            pred,
            (&x,),
            removes,
        ) by {
            let m = choose|m: int| 0 <= m < v@.len() && v@[m] == x;
            assert(!r@.contains(v@[m]));
        }
    }
    r
}

/// An integer variable whose domain is the ascending list of its values.
#[derive(Debug, Eq, PartialEq)]
pub struct IntVarValues<T: DomainValue> {
    domain: Vec<T>,
}

/// A domain under construction.
#[derive(Debug, Eq, PartialEq)]
pub struct IntVarValuesBuilder<T: DomainValue> {
    domain: Vec<T>,
}

impl<T: DomainValue> View for IntVarValuesBuilder<T> {
    type V = Seq<T>;

    /// The values gathered so far.
    closed spec fn view(&self) -> Seq<T> {
        self.domain@
    }
}

impl<T: DomainValue> Clone for IntVarValuesBuilder<T> {
    fn clone(&self) -> (r: Self)
        ensures
            r@ == self@,
    {
        IntVarValuesBuilder { domain: copy_of(&self.domain) }
    }
}

impl<T: DomainValue> IntVarValuesBuilder<T> {
    /// Starts a domain with the values from `min` to `max`, both included,
    /// or returns `None` where `min` comes after `max`.
    pub fn try_new<U: DomainValue>(min: U, max: U) -> (r: Option<IntVarValuesBuilder<U>>)
        ensures
            r is None <==> min.rank() > max.rank(),
            r matches Some(b) ==> strictly_ascending(b@) && is_range(b@, min, max),
    {
        match range_values(min, max) {
            Some(domain) => Some(IntVarValuesBuilder::<U> { domain }),
            None => None,
        }
    }

    /// Hands over the domain that was built.
    pub fn finalize(self) -> (r: IntVarValues<T>)
        ensures
            r@ == self@,
    {
        IntVarValues { domain: self.domain }
    }
}

impl<T: DomainValue> View for IntVarValues<T> {
    type V = Seq<T>;

    /// The values of the domain, in ascending order.
    closed spec fn view(&self) -> Seq<T> {
        self.domain@
    }
}

impl<T: DomainValue> Clone for IntVarValues<T> {
    fn clone(&self) -> (r: Self)
        ensures
            r@ == self@,
    {
        IntVarValues { domain: copy_of(&self.domain) }
    }
}

impl<T: DomainValue> IntVarValues<T> {
    /// Returns the domain with the values from `min` to `max`, both
    /// included, or `None` where `min` comes after `max`.
    pub fn try_new<U: DomainValue>(min: U, max: U) -> (r: Option<IntVarValues<U>>)
        ensures
            r is None <==> min.rank() > max.rank(),
            r matches Some(d) ==> strictly_ascending(d@) && is_range(d@, min, max),
    {
        match range_values(min, max) {
            Some(domain) => Some(IntVarValues::<U> { domain }),
            None => None,
        }
    }

    /// Empties the domain: the mark of a wipeout.
    pub fn invalidate(&mut self)
        ensures
            final(self)@ == Seq::<T>::empty(),
    {
        self.domain.clear();
    }

    /// Says how the domain changed since it had `prev_size` values from
    /// `prev_min` to `prev_max`: it was wiped out where it is empty, did not
    /// change where it still has as many values, changed in a bound where
    /// its minimum or its maximum is another one, and else in its inner
    /// values only.
    pub fn domain_change(&mut self, prev_min: T, prev_max: T, prev_size: usize) -> (r: Result<
        IntVariableState,
        VariableError,
    >)
        ensures
            final(self)@ == old(self)@,
            r == (if old(self)@.len() == 0 {
                Err::<IntVariableState, VariableError>(VariableError::DomainWipeout)
            } else if old(self)@.len() == prev_size {
                Ok(IntVariableState::NoChange)
            } else if old(self)@.first() != prev_min || old(self)@.last() != prev_max {
                Ok(IntVariableState::BoundsChange)
            } else {
                Ok(IntVariableState::ValuesChange)
            }),
    {
        if self.domain.len() == 0 {
            self.invalidate();
            assert(self.domain@ =~= old(self).domain@);
            Err(VariableError::DomainWipeout)
        } else if self.domain.len() == prev_size {
            Ok(IntVariableState::NoChange)
        } else if !same_value(&self.domain[0], &prev_min) || !same_value(
            &self.domain[self.domain.len() - 1],
            &prev_max,
        ) {
            Ok(IntVariableState::BoundsChange)
        } else {
            Ok(IntVariableState::ValuesChange)
        }
    }

    /// Replaces the domain by `kept`, which is what is left of it, and says
    /// how it changed.
    fn prune_to(&mut self, kept: Vec<T>) -> (r: Result<IntVariableState, VariableError>)
        requires
            forall|x: T| kept@.contains(x) ==> old(self)@.contains(x),
        ensures
            final(self)@ == kept@,
            r == pruning_outcome(old(self)@, kept@),
    {
        if kept.len() == 0 {
            self.domain = kept;
            Err(VariableError::DomainWipeout)
        } else {
            proof {
                assert(kept@.contains(kept@[0]));
                assert(self.domain@.contains(kept@[0]));
            }
            let state = change_to(&self.domain, &kept);
            self.domain = kept;
            Ok(state)
        }
    }

    /// Leaves the values that stand in `admissible` too.
    fn keep_common(&mut self, admissible: &Vec<T>) -> (r: Result<IntVariableState, VariableError>)
        requires
            strictly_ascending(old(self)@),
            strictly_ascending(admissible@),
        ensures
            strictly_ascending(final(self)@),
            restricts(final(self)@, old(self)@, |x: T| admissible@.contains(x)),
            r == pruning_outcome(old(self)@, final(self)@),
    {
        let kept = intersection(&self.domain, admissible);
        self.prune_to(kept)
    }
}

impl<T: DomainValue> Variable<T> for IntVarValues<T> {
    fn is_affected(&self) -> (r: bool) {
        self.domain.len() == 1
    }

    fn value(&self) -> (r: Option<&T>) {
        if self.domain.len() == 1 {
            Some(&self.domain[0])
        } else {
            None
        }
    }
}

impl<T: DomainValue> FiniteDomain<T> for IntVarValues<T> {
    fn size(&self) -> (r: usize) {
        self.domain.len()
    }
}

impl<T: DomainValue> IterableDomain<T> for IntVarValues<T> {
    fn iter(&self) -> (r: Vec<T>) {
        copy_of(&self.domain)
    }
}

impl<T: DomainValue> FromRangeDomain<T> for IntVarValues<T> {
    fn new_from_range(min: T, max: T) -> (r: Option<IntVarValues<T>>) {
        match range_values(min, max) {
            Some(domain) => Some(IntVarValues { domain }),
            None => None,
        }
    }
}

impl<T: DomainValue> FromValuesDomain<T> for IntVarValues<T> {
    fn new_from_values(values: Vec<T>) -> (r: Option<IntVarValues<T>>) {
        if values.len() == 0 {
            None
        } else {
            let domain = normalized(&values);
            proof {
                assert(values@.contains(values@[0]));
                assert(domain@.contains(values@[0]));
            }
            Some(IntVarValues { domain })
        }
    }
}

impl<T: DomainValue> AssignableDomain<T, IntVariableState> for IntVarValues<T> {
    fn set_value(&mut self, value: T) -> (r: Result<IntVariableState, VariableError>)
        ensures
            r == assignment_outcome(old(self)@, value),
    {
        match position_of(&self.domain, &value) {
            Some(at) => {
                if self.domain.len() == 1 {
                    assert(self.domain@ =~= seq![value]);
                    Ok(IntVariableState::NoChange)
                } else {
                    self.domain.clear();
                    self.domain.push(value);
                    assert(self.domain@ =~= seq![value]);
                    assert(old(self)@.contains(value));
                    Ok(IntVariableState::BoundsChange)
                }
            },
            None => {
                self.invalidate();
                Err(VariableError::DomainWipeout)
            },
        }
    }
}

impl<T: DomainValue> OrderedDomain<T, IntVariableState> for IntVarValues<T> {
    fn min(&self) -> (r: Option<&T>) {
        if self.domain.len() > 0 {
            assert(self@[0] == self.domain@[0]);
            Some(&self.domain[0])
        } else {
            None
        }
    }

    fn max(&self) -> (r: Option<&T>) {
        if self.domain.len() > 0 {
            assert(self@[self@.len() - 1] == self.domain@[self.domain.len() - 1]);
            Some(&self.domain[self.domain.len() - 1])
        } else {
            None
        }
    }

    fn strict_upperbound(&mut self, ub: &T) -> (r: Result<IntVariableState, VariableError>)
        ensures
            r == bound_outcome(old(self)@, final(self)@, IntVariableState::MaxBoundChange),
    {
        let before = self.domain.len();
        let kept = count_below(&self.domain, ub);
        self.domain.truncate(kept);
        proof {
            lemma_segment_restricts(
                old(self)@,
                0,
                kept as int,
                |x: T| x.rank() < ub.rank(),
            );
        }
        if kept == 0 {
            Err(VariableError::DomainWipeout)
        } else if kept == before {
            Ok(IntVariableState::NoChange)
        } else {
            Ok(IntVariableState::MaxBoundChange)
        }
    }

    fn weak_upperbound(&mut self, ub: &T) -> (r: Result<IntVariableState, VariableError>)
        ensures
            r == bound_outcome(old(self)@, final(self)@, IntVariableState::MaxBoundChange),
    {
        let before = self.domain.len();
        let kept = count_up_to(&self.domain, ub);
        self.domain.truncate(kept);
        proof {
            lemma_segment_restricts(
                old(self)@,
                0,
                kept as int,
                |x: T| x.rank() <= ub.rank(),
            );
        }
        if kept == 0 {
            Err(VariableError::DomainWipeout)
        } else if kept == before {
            Ok(IntVariableState::NoChange)
        } else {
            Ok(IntVariableState::MaxBoundChange)
        }
    }

    fn strict_lowerbound(&mut self, lb: &T) -> (r: Result<IntVariableState, VariableError>)
        ensures
            r == bound_outcome(old(self)@, final(self)@, IntVariableState::MinBoundChange),
    {
        let before = self.domain.len();
        let dropped = count_up_to(&self.domain, lb);
        if dropped == 0 {
            proof {
                lemma_segment_restricts(
                    old(self)@,
                    0,
                    before as int,
                    |x: T| x.rank() > lb.rank(),
                );
                assert(old(self)@.subrange(0, before as int) =~= old(self)@);
            }
            if before == 0 {
                return Err(VariableError::DomainWipeout);
            }
            return Ok(IntVariableState::NoChange);
        }
        let kept = self.domain.split_off(dropped);
        self.domain = kept;
        proof {
            lemma_segment_restricts(
                old(self)@,
                dropped as int,
                before as int,
                |x: T| x.rank() > lb.rank(),
            );
        }
        if dropped == before {
            Err(VariableError::DomainWipeout)
        } else {
            Ok(IntVariableState::MinBoundChange)
        }
    }

    fn weak_lowerbound(&mut self, lb: &T) -> (r: Result<IntVariableState, VariableError>)
        ensures
            r == bound_outcome(old(self)@, final(self)@, IntVariableState::MinBoundChange),
    {
        let before = self.domain.len();
        let dropped = count_below(&self.domain, lb);
        if dropped == 0 {
            proof {
                lemma_segment_restricts(
                    old(self)@,
                    0,
                    before as int,
                    |x: T| x.rank() >= lb.rank(),
                );
                assert(old(self)@.subrange(0, before as int) =~= old(self)@);
            }
            if before == 0 {
                return Err(VariableError::DomainWipeout);
            }
            return Ok(IntVariableState::NoChange);
        }
        let kept = self.domain.split_off(dropped);
        self.domain = kept;
        proof {
            lemma_segment_restricts(
                old(self)@,
                dropped as int,
                before as int,
                |x: T| x.rank() >= lb.rank(),
            );
        }
        if dropped == before {
            Err(VariableError::DomainWipeout)
        } else {
            Ok(IntVariableState::MinBoundChange)
        }
    }
}

impl<T: DomainValue> EqualDomain<T, IntVariableState> for IntVarValues<T> {
    fn equal(&mut self, value: &mut Self) -> (r: Result<
        (IntVariableState, IntVariableState),
        VariableError,
    >)
        ensures
            r == joint_outcome(old(self)@, old(value)@, final(self)@),
    {
        let common = intersection(&self.domain, &value.domain);
        if common.len() == 0 {
            self.invalidate();
            value.invalidate();
            proof {
                assert forall|x: T| #[trigger]
                    self@.contains(x) <==> (old(self)@.contains(x) && old(value)@.contains(
                        x,
                    )) by {
                    assert(!common@.contains(x));
                }
            }
            return Err(VariableError::DomainWipeout);
        }
        proof {
            assert(common@.contains(common@[0]));
        }
        let ok_self = change_to(&self.domain, &common);
        let ok_value = change_to(&value.domain, &common);
        self.domain = copy_of(&common);
        value.domain = common;
        Ok((ok_self, ok_value))
    }

    fn not_equal(&mut self, value: &mut IntVarValues<T>) -> (r: Result<
        (IntVariableState, IntVariableState),
        VariableError,
    >)
        ensures
            r == apart_outcome(old(self)@, old(value)@, final(self)@, final(value)@),
    {
        if self.domain.len() == 1 {
            let val = self.domain[0];
            match value.remove_value(val) {
                Ok(ok_value) => Ok((IntVariableState::NoChange, ok_value)),
                Err(error) => Err(error),
            }
        } else if value.domain.len() == 1 {
            let val = value.domain[0];
            match self.remove_value(val) {
                Ok(ok_self) => Ok((ok_self, IntVariableState::NoChange)),
                Err(error) => Err(error),
            }
        } else {
            Ok((IntVariableState::NoChange, IntVariableState::NoChange))
        }
    }
}

impl<T: DomainValue> PrunableDomain<T, IntVariableState> for IntVarValues<T> {
    fn in_values(&mut self, values: Vec<T>) -> (r: Result<IntVariableState, VariableError>)
        ensures
            r == pruning_outcome(old(self)@, final(self)@),
    {
        let admissible = normalized(&values);
        self.keep_common(&admissible)
    }

    fn remove_value(&mut self, value: T) -> (r: Result<IntVariableState, VariableError>)
        ensures
            r == pruning_outcome(old(self)@, final(self)@),
    {
        let size = self.domain.len();
        if size == 0 {
            return Err(VariableError::DomainWipeout);
        }
        if value.precedes(&self.domain[0]) || self.domain[size - 1].precedes(&value) {
            proof {
                if self.domain@.contains(value) {
                    lemma_ascending_bounds(self.domain@, value);
                }
            }
            return Ok(IntVariableState::NoChange);
        }
        match position_of(&self.domain, &value) {
            Some(at) => {
                self.domain.remove(at);
                proof {
                    lemma_remove_restricts(old(self)@, at as int);
                    if size > 1 {
                        if at == 0 {
                            assert(old(self)@[0].rank() < old(self)@[1].rank());
                        } else if at == size - 1 {
                            assert(old(self)@[size - 2].rank() < old(self)@[size - 1].rank());
                        }
                    }
                }
                if size == 1 {
                    Err(VariableError::DomainWipeout)
                } else if at == 0 || at == size - 1 {
                    Ok(IntVariableState::BoundsChange)
                } else {
                    Ok(IntVariableState::ValuesChange)
                }
            },
            None => Ok(IntVariableState::NoChange),
        }
    }

    fn remove_if<Predicate>(&mut self, pred: Predicate) -> (r: Result<
        IntVariableState,
        VariableError,
    >) where Predicate: FnMut(&T) -> bool
        ensures
            r == pruning_outcome(old(self)@, final(self)@),
    {
        let kept = sifted(&self.domain, pred, true);
        self.prune_to(kept)
    }

    fn retains_if<Predicate>(&mut self, pred: Predicate) -> (r: Result<
        IntVariableState,
        VariableError,
    >) where Predicate: FnMut(&T) -> bool
        ensures
            r == pruning_outcome(old(self)@, final(self)@),
    {
        let kept = sifted(&self.domain, pred, false);
        self.prune_to(kept)
    }
}

impl<T: DomainValue> OrderedPrunableDomain<T, IntVariableState> for IntVarValues<T> {
    fn in_sorted_values(&mut self, values: Vec<T>) -> (r: Result<IntVariableState, VariableError>)
        ensures
            r == pruning_outcome(old(self)@, final(self)@),
    {
        if is_strictly_ascending(&values) {
            self.keep_common(&values)
        } else {
            let admissible = normalized(&values);
            self.keep_common(&admissible)
        }
    }
}

/// What keeping two domains apart returns where a sink is told: `part` is
/// what came back for the domain that lost a value, and the other domain did
/// not change.
pub open spec fn lifted(part: Result<IntVariableState, VariableError>, first: bool) -> Result<
    (IntVariableState, IntVariableState),
    VariableError,
> {
    match part {
        Ok(state) => Ok(
            if first {
                (state, IntVariableState::NoChange)
            } else {
                (IntVariableState::NoChange, state)
            },
        ),
        Err(error) => Err(error),
    }
}

/// An integer variable with an identity, whose updates are reported to a
/// sink.
#[derive(Debug, Eq, PartialEq)]
pub struct CruspIntVarValues<T: DomainValue> {
    id: VariableId,
    domain: IntVarValues<T>,
}

impl<T: DomainValue> View for CruspIntVarValues<T> {
    type V = Seq<T>;

    /// The values of the domain, in ascending order.
    closed spec fn view(&self) -> Seq<T> {
        self.domain@
    }
}

impl<T: DomainValue> Clone for CruspIntVarValues<T> {
    fn clone(&self) -> (r: Self)
        ensures
            r@ == self@,
            r.identity() == self.identity(),
    {
        CruspIntVarValues { id: self.id, domain: self.domain.clone() }
    }
}

impl<T: DomainValue> CruspIntVarValues<T> {
    /// Gives the domain `domain` the identity `id`.
    pub fn new(id: VariableId, domain: IntVarValues<T>) -> (r: Self)
        ensures
            r@ == domain@,
            r.identity() == id,
    {
        CruspIntVarValues { id, domain }
    }

    /// Empties the domain: the mark of a wipeout.
    pub fn invalidate(&mut self)
        ensures
            final(self)@ == Seq::<T>::empty(),
            final(self).identity() == old(self).identity(),
    {
        self.domain.invalidate();
    }

    /// Says how the domain changed since it had `prev_size` values from
    /// `prev_min` to `prev_max`, as `IntVarValues::domain_change` does, and
    /// tells the sink.
    pub fn domain_change<Observer>(
        &mut self,
        observer: &mut Observer,
        prev_min: T,
        prev_max: T,
        prev_size: usize,
    ) -> (r: Result<IntVariableState, VariableError>) where
        Observer: VariableObserver<IntVariableState>,

        ensures
            final(self)@ == old(self)@,
            final(self).identity() == old(self).identity(),
            delivered(
                *old(observer),
                *final(observer),
                old(self).identity(),
                if old(self)@.len() == 0 {
                    Err::<IntVariableState, VariableError>(VariableError::DomainWipeout)
                } else if old(self)@.len() == prev_size {
                    Ok(IntVariableState::NoChange)
                } else if old(self)@.first() != prev_min || old(self)@.last() != prev_max {
                    Ok(IntVariableState::BoundsChange)
                } else {
                    Ok(IntVariableState::ValuesChange)
                },
                r,
            ),
    {
        let outcome = self.domain.domain_change(prev_min, prev_max, prev_size);
        deliver(observer, self.id, outcome)
    }
}

impl<T: DomainValue> Variable<T> for CruspIntVarValues<T> {
    fn is_affected(&self) -> (r: bool) {
        self.domain.is_affected()
    }

    fn value(&self) -> (r: Option<&T>) {
        self.domain.value()
    }
}

impl<T: DomainValue> CruspVariable<T> for CruspIntVarValues<T> {
    closed spec fn identity(&self) -> VariableId {
        self.id
    }

    fn id(&self) -> (r: VariableId) {
        self.id
    }
}

impl<T: DomainValue> FiniteDomain<T> for CruspIntVarValues<T> {
    fn size(&self) -> (r: usize) {
        self.domain.size()
    }
}

impl<T: DomainValue> AssignableDomainObserver<T, IntVariableState> for CruspIntVarValues<T> {
    fn set_value<Observer>(&mut self, observer: &mut Observer, value: T) -> (r: Result<
        IntVariableState,
        VariableError,
    >) where Observer: VariableObserver<IntVariableState>
        ensures
            final(self).identity() == old(self).identity(),
            delivered(
                *old(observer),
                *final(observer),
                old(self).identity(),
                assignment_outcome(old(self)@, value),
                r,
            ),
    {
        let outcome = self.domain.set_value(value);
        deliver(observer, self.id, outcome)
    }
}

impl<T: DomainValue> OrderedDomainObserver<T, IntVariableState> for CruspIntVarValues<T> {
    fn min(&self) -> (r: Option<&T>) {
        assert(self@ == self.domain@);
        self.domain.min()
    }

    fn max(&self) -> (r: Option<&T>) {
        assert(self@ == self.domain@);
        self.domain.max()
    }

    fn strict_upperbound<Observer>(&mut self, observer: &mut Observer, ub: &T) -> (r: Result<
        IntVariableState,
        VariableError,
    >) where Observer: VariableObserver<IntVariableState>
        ensures
            final(self).identity() == old(self).identity(),
            delivered(
                *old(observer),
                *final(observer),
                old(self).identity(),
                bound_outcome(old(self)@, final(self)@, IntVariableState::MaxBoundChange),
                r,
            ),
    {
        let outcome = self.domain.strict_upperbound(ub);
        deliver(observer, self.id, outcome)
    }

    fn weak_upperbound<Observer>(&mut self, observer: &mut Observer, ub: &T) -> (r: Result<
        IntVariableState,
        VariableError,
    >) where Observer: VariableObserver<IntVariableState>
        ensures
            final(self).identity() == old(self).identity(),
            delivered(
                *old(observer),
                *final(observer),
                old(self).identity(),
                bound_outcome(old(self)@, final(self)@, IntVariableState::MaxBoundChange),
                r,
            ),
    {
        let outcome = self.domain.weak_upperbound(ub);
        deliver(observer, self.id, outcome)
    }

    fn strict_lowerbound<Observer>(&mut self, observer: &mut Observer, lb: &T) -> (r: Result<
        IntVariableState,
        VariableError,
    >) where Observer: VariableObserver<IntVariableState>
        ensures
            final(self).identity() == old(self).identity(),
            delivered(
                *old(observer),
                *final(observer),
                old(self).identity(),
                bound_outcome(old(self)@, final(self)@, IntVariableState::MinBoundChange),
                r,
            ),
    {
        let outcome = self.domain.strict_lowerbound(lb);
        deliver(observer, self.id, outcome)
    }

    fn weak_lowerbound<Observer>(&mut self, observer: &mut Observer, lb: &T) -> (r: Result<
        IntVariableState,
        VariableError,
    >) where Observer: VariableObserver<IntVariableState>
        ensures
            final(self).identity() == old(self).identity(),
            delivered(
                *old(observer),
                *final(observer),
                old(self).identity(),
                bound_outcome(old(self)@, final(self)@, IntVariableState::MinBoundChange),
                r,
            ),
    {
        let outcome = self.domain.weak_lowerbound(lb);
        deliver(observer, self.id, outcome)
    }
}

impl<T: DomainValue> EqualDomainObserver<T, IntVariableState> for CruspIntVarValues<T> {
    fn equal<Observer>(&mut self, observer: &mut Observer, value: &mut Self) -> (r: Result<
        (IntVariableState, IntVariableState),
        VariableError,
    >) where Observer: VariableObserver<IntVariableState>
        ensures
            final(self).identity() == old(self).identity(),
            final(value).identity() == old(value).identity(),
            r == joint_outcome(old(self)@, old(value)@, final(self)@),
            delivered_both(
                *old(observer),
                *final(observer),
                old(self).identity(),
                old(value).identity(),
                r,
            ),
    {
        let outcome = self.domain.equal(&mut value.domain);
        let (for_self, for_value) = match outcome {
            Ok((ok_self, ok_value)) => (Ok(ok_self), Ok(ok_value)),
            Err(error) => (Err(error), Err(error)),
        };
        let first_answer = deliver(observer, self.id, for_self);
        let ghost between = *observer;
        let second_answer = deliver(observer, value.id, for_value);
        proof {
            assert(for_self == side_of(outcome, true));
            assert(for_value == side_of(outcome, false));
            assert(delivered(
                *old(observer),
                between,
                self.id,
                side_of(outcome, true),
                first_answer,
            ));
            assert(delivered(between, *observer, value.id, side_of(outcome, false), second_answer));
        }
        outcome
    }

    fn not_equal<Observer>(
        &mut self,
        observer: &mut Observer,
        value: &mut CruspIntVarValues<T>,
    ) -> (r: Result<(IntVariableState, IntVariableState), VariableError>) where
        Observer: VariableObserver<IntVariableState>,

        ensures
            final(self).identity() == old(self).identity(),
            final(value).identity() == old(value).identity(),
            old(self)@.len() == 1 ==> exists|part: Result<IntVariableState, VariableError>|
                r == lifted(part, false) && #[trigger] delivered(
                    *old(observer),
                    *final(observer),
                    old(value).identity(),
                    pruning_outcome(old(value)@, final(value)@),
                    part,
                ),
            old(self)@.len() != 1 && old(value)@.len() == 1 ==> exists|
                part: Result<IntVariableState, VariableError>,
            |
                r == lifted(part, true) && #[trigger] delivered(
                    *old(observer),
                    *final(observer),
                    old(self).identity(),
                    pruning_outcome(old(self)@, final(self)@),
                    part,
                ),
            old(self)@.len() != 1 && old(value)@.len() != 1 ==> *final(observer) == *old(observer)
                && r == Ok::<(IntVariableState, IntVariableState), VariableError>(
                (IntVariableState::NoChange, IntVariableState::NoChange),
            ),
    {
        if self.domain.size() == 1 {
            let val = *self.domain.unchecked_min();
            let part = value.remove_value(observer, val);
            match part {
                Ok(ok_value) => Ok((IntVariableState::NoChange, ok_value)),
                Err(error) => Err(error),
            }
        } else if value.domain.size() == 1 {
            let val = *value.domain.unchecked_min();
            let part = self.remove_value(observer, val);
            match part {
                Ok(ok_self) => Ok((ok_self, IntVariableState::NoChange)),
                Err(error) => Err(error),
            }
        } else {
            Ok((IntVariableState::NoChange, IntVariableState::NoChange))
        }
    }
}

impl<T: DomainValue> PrunableDomainObserver<T, IntVariableState> for CruspIntVarValues<T> {
    fn in_values<Observer>(&mut self, observer: &mut Observer, values: Vec<T>) -> (r: Result<
        IntVariableState,
        VariableError,
    >) where Observer: VariableObserver<IntVariableState>
        ensures
            final(self).identity() == old(self).identity(),
            delivered(
                *old(observer),
                *final(observer),
                old(self).identity(),
                pruning_outcome(old(self)@, final(self)@),
                r,
            ),
    {
        let outcome = self.domain.in_values(values);
        deliver(observer, self.id, outcome)
    }

    fn remove_value<Observer>(&mut self, observer: &mut Observer, value: T) -> (r: Result<
        IntVariableState,
        VariableError,
    >) where Observer: VariableObserver<IntVariableState>
        ensures
            final(self).identity() == old(self).identity(),
            delivered(
                *old(observer),
                *final(observer),
                old(self).identity(),
                pruning_outcome(old(self)@, final(self)@),
                r,
            ),
    {
        let outcome = self.domain.remove_value(value);
        deliver(observer, self.id, outcome)
    }

    fn remove_if<Observer, Predicate>(
        &mut self,
        observer: &mut Observer,
        pred: Predicate,
    ) -> (r: Result<IntVariableState, VariableError>) where
        Observer: VariableObserver<IntVariableState>,
        Predicate: FnMut(&T) -> bool,

        ensures
            final(self).identity() == old(self).identity(),
            delivered(
                *old(observer),
                *final(observer),
                old(self).identity(),
                pruning_outcome(old(self)@, final(self)@),
                r,
            ),
    {
        let outcome = self.domain.remove_if(pred);
        deliver(observer, self.id, outcome)
    }

    fn retains_if<Observer, Predicate>(
        &mut self,
        observer: &mut Observer,
        pred: Predicate,
    ) -> (r: Result<IntVariableState, VariableError>) where
        Observer: VariableObserver<IntVariableState>,
        Predicate: FnMut(&T) -> bool,

        ensures
            final(self).identity() == old(self).identity(),
            delivered(
                *old(observer),
                *final(observer),
                old(self).identity(),
                pruning_outcome(old(self)@, final(self)@),
                r,
            ),
    {
        let outcome = self.domain.retains_if(pred);
        deliver(observer, self.id, outcome)
    }
}

impl<T: DomainValue> OrderedPrunableDomainObserver<T, IntVariableState> for CruspIntVarValues<T> {
    fn in_sorted_values<Observer>(
        &mut self,
        observer: &mut Observer,
        values: Vec<T>,
    ) -> (r: Result<IntVariableState, VariableError>) where
        Observer: VariableObserver<IntVariableState>,

        ensures
            final(self).identity() == old(self).identity(),
            delivered(
                *old(observer),
                *final(observer),
                old(self).identity(),
                pruning_outcome(old(self)@, final(self)@),
                r,
            ),
    {
        let outcome = self.domain.in_sorted_values(values);
        deliver(observer, self.id, outcome)
    }
}

impl<T: DomainValue> BoundedDomainObserver<T, IntVariableState> for CruspIntVarValues<T> {

}

} // verus!
