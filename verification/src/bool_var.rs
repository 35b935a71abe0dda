//! The boolean variable: a domain of at most the two truth values.
use crate::ascending::strictly_ascending;
use crate::domains::{AssignableDomain, FiniteDomain};
use crate::int_var::values::assignment_outcome;
use crate::int_var::IntVariableState;
use crate::{Variable, VariableError};
use vstd::prelude::*;

verus! {

#[derive(Clone, Copy, Debug, Eq, PartialEq, Structural)]
enum BoolDomain {
    True,
    False,
    Both,
    Empty,
}

/// A variable that is true, false, still open, or wiped out.
#[derive(Debug, Eq, PartialEq)]
pub struct BoolVar {
    domain: BoolDomain,
    state: IntVariableState,
}

impl View for BoolVar {
    type V = Seq<bool>;

    /// The truth values that the variable may still take, `false` before
    /// `true`.
    closed spec fn view(&self) -> Seq<bool> {
        match self.domain {
            BoolDomain::True => seq![true],
            BoolDomain::False => seq![false],
            BoolDomain::Both => seq![false, true],
            BoolDomain::Empty => Seq::empty(),
        }
    }
}

impl Clone for BoolVar {
    fn clone(&self) -> (r: Self)
        ensures
            r@ == self@,
    {
        BoolVar { domain: self.domain, state: self.state }
    }
}

impl BoolVar {
    /// Returns a variable that may still take both truth values.
    pub fn new() -> (r: Option<BoolVar>)
        ensures
            r matches Some(b) && b@ == seq![false, true],
    {
        Some(BoolVar { domain: BoolDomain::Both, state: IntVariableState::NoChange })
    }

    /// The values of a boolean variable are in ascending order, whatever
    /// happened to it.
    pub proof fn lemma_ascending(&self)
        ensures
            strictly_ascending(self@),
    {
    }
}

impl AssignableDomain<bool, IntVariableState> for BoolVar {
    fn set_value(&mut self, value: bool) -> (r: Result<IntVariableState, VariableError>)
        ensures
            r == assignment_outcome(old(self)@, value),
    {
        let value = match self.domain {
            BoolDomain::Both => value,
            BoolDomain::True if value => {
                assert(self@ =~= seq![value]);
                assert(self@[0] == value);
                return Ok(IntVariableState::NoChange);
            },
            BoolDomain::False if !value => {
                assert(self@ =~= seq![value]);
                assert(self@[0] == value);
                return Ok(IntVariableState::NoChange);
            },
            _ => {
                assert(!self@.contains(value));
                self.domain = BoolDomain::Empty;
                return Err(VariableError::DomainWipeout);
            },
        };
        assert(self@[0] == false && self@[1] == true);
        self.domain = if value {
            BoolDomain::True
        } else {
            BoolDomain::False
        };
        assert(self@ =~= seq![value]);
        Ok(IntVariableState::BoundsChange)
    }
}

impl Variable<bool> for BoolVar {
    fn is_affected(&self) -> (r: bool) {
        self.domain == BoolDomain::True || self.domain == BoolDomain::False
    }

    fn value(&self) -> (r: Option<&bool>) {
        match self.domain {
            BoolDomain::True => Some(&true),
            BoolDomain::False => Some(&false),
            _ => None,
        }
    }
}

impl FiniteDomain<bool> for BoolVar {
    fn size(&self) -> (r: usize) {
        match self.domain {
            BoolDomain::True => 1,
            BoolDomain::False => 1,
            BoolDomain::Both => 2,
            _ => 0,
        }
    }
}

} // verus!
