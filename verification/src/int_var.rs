//! The classification of what an update did to the domain of an integer
//! variable, with its merge and its subsumption relation.
use crate::VariableState;
use vstd::prelude::*;

pub use self::values::{CruspIntVarValues, IntVarValues, IntVarValuesBuilder};

pub mod values;

verus! {

/// Describes the state of a variable after its domain is updated.
#[derive(Debug, Copy, Clone, PartialEq, Eq, Structural)]
pub enum IntVariableState {
    /// If only the maximal bound of the variable has been updated.
    MaxBoundChange,
    /// If only the minimal bound of the variable has been updated.
    MinBoundChange,
    /// If both bounds of the variable have been updated.
    BoundsChange,
    /// If the domain has been changed but not its bounds.
    ValuesChange,
    /// If no change occurred.
    NoChange,
    /// When the value has been changed by a universal brancher.
    UniversalChange,
    /// When universal and per-value reasoning have been mixed.
    UniversalError,
}

impl IntVariableState {
    /// The state comes from universal reasoning.
    pub open spec fn is_universal(self) -> bool {
        self == IntVariableState::UniversalChange || self == IntVariableState::UniversalError
    }

    /// The state says that some value left the domain: a bound or an inner
    /// value.
    pub open spec fn is_concrete_change(self) -> bool {
        self == IntVariableState::MaxBoundChange || self == IntVariableState::MinBoundChange
            || self == IntVariableState::BoundsChange || self == IntVariableState::ValuesChange
    }

    /// The state allows for a moved minimal bound.
    pub open spec fn covers_min(self) -> bool {
        self == IntVariableState::MinBoundChange || self == IntVariableState::BoundsChange || self
            == IntVariableState::ValuesChange
    }

    /// The state allows for a moved maximal bound.
    pub open spec fn covers_max(self) -> bool {
        self == IntVariableState::MaxBoundChange || self == IntVariableState::BoundsChange || self
            == IntVariableState::ValuesChange
    }

    /// The state allows for a removed inner value.
    pub open spec fn covers_inner(self) -> bool {
        self == IntVariableState::ValuesChange
    }

    /// The state without universal reasoning that covers what is asked for.
    pub open spec fn covering(min: bool, max: bool, inner: bool) -> Self {
        if inner {
            IntVariableState::ValuesChange
        } else if min && max {
            IntVariableState::BoundsChange
        } else if min {
            IntVariableState::MinBoundChange
        } else if max {
            IntVariableState::MaxBoundChange
        } else {
            IntVariableState::NoChange
        }
    }
}

impl VariableState for IntVariableState {
    open spec fn null_state() -> Self {
        IntVariableState::NoChange
    }

    /// Without universal reasoning the merge covers what either side covers.
    /// With it, the merge is `UniversalChange` as long as nothing else was
    /// reported, and `UniversalError` once anything else is mixed in.
    open spec fn merged(self, rhs: Self) -> Self {
        if self.is_universal() || rhs.is_universal() {
            if self == IntVariableState::UniversalError || rhs == IntVariableState::UniversalError
                || self.is_concrete_change() || rhs.is_concrete_change() {
                IntVariableState::UniversalError
            } else {
                IntVariableState::UniversalChange
            }
        } else {
            IntVariableState::covering(
                self.covers_min() || rhs.covers_min(),
                self.covers_max() || rhs.covers_max(),
                self.covers_inner() || rhs.covers_inner(),
            )
        }
    }

    /// Every state is subsumed under itself. Beyond that a change of one
    /// bound is subsumed under `BoundsChange`, `BoundsChange` under
    /// `ValuesChange` and `ValuesChange` under `NoChange`. The relation goes
    /// from one tier to the next and no further.
    open spec fn subsumed_under(self, val: Self) -> bool {
        self == val || match self {
            IntVariableState::MaxBoundChange => val == IntVariableState::BoundsChange,
            IntVariableState::MinBoundChange => val == IntVariableState::BoundsChange,
            IntVariableState::BoundsChange => val == IntVariableState::ValuesChange,
            IntVariableState::ValuesChange => val == IntVariableState::NoChange,
            _ => false,
        }
    }

    proof fn lemma_null_is_neutral(x: Self) {
    }

    fn null() -> (r: Self) {
        IntVariableState::NoChange
    }

    fn is_null(&self) -> (r: bool) {
        *self == IntVariableState::NoChange
    }

    fn nullify(&mut self) -> (r: Self) {
        let prev = *self;
        *self = IntVariableState::NoChange;
        prev
    }

    fn merge(&self, rhs: Self) -> (r: Self) {
        *self | rhs
    }

    fn is_subsumed_under(&self, val: &Self) -> (r: bool) {
        match *self {
            IntVariableState::MaxBoundChange => *val == IntVariableState::MaxBoundChange || *val
                == IntVariableState::BoundsChange,
            IntVariableState::MinBoundChange => *val == IntVariableState::MinBoundChange || *val
                == IntVariableState::BoundsChange,
            IntVariableState::BoundsChange => *val == IntVariableState::BoundsChange || *val
                == IntVariableState::ValuesChange,
            IntVariableState::ValuesChange => *val == IntVariableState::ValuesChange || *val
                == IntVariableState::NoChange,
            IntVariableState::NoChange => *val == IntVariableState::NoChange,
            IntVariableState::UniversalChange => *val == IntVariableState::UniversalChange,
            IntVariableState::UniversalError => *val == IntVariableState::UniversalError,
        }
    }
}

impl vstd::std_specs::ops::BitOrSpecImpl for IntVariableState {
    open spec fn obeys_bitor_spec() -> bool {
        true
    }

    open spec fn bitor_req(self, rhs: Self) -> bool {
        true
    }

    open spec fn bitor_spec(self, rhs: Self) -> Self {
        self.merged(rhs)
    }
}

impl std::ops::BitOr for IntVariableState {
    type Output = Self;

    /// Merges two states.
    fn bitor(self, rhs: Self) -> (r: Self) {
        match (self, rhs) {
            (IntVariableState::UniversalError, _) => IntVariableState::UniversalError,
            (_, IntVariableState::UniversalError) => IntVariableState::UniversalError,
            (IntVariableState::NoChange, other) => other,
            (other, IntVariableState::NoChange) => other,
            (IntVariableState::UniversalChange, IntVariableState::UniversalChange) => {
                IntVariableState::UniversalChange
            },
            (IntVariableState::UniversalChange, _) => IntVariableState::UniversalError,
            (_, IntVariableState::UniversalChange) => IntVariableState::UniversalError,
            (IntVariableState::ValuesChange, _) => IntVariableState::ValuesChange,
            (_, IntVariableState::ValuesChange) => IntVariableState::ValuesChange,
            (IntVariableState::MaxBoundChange, IntVariableState::MaxBoundChange) => {
                IntVariableState::MaxBoundChange
            },
            (IntVariableState::MinBoundChange, IntVariableState::MinBoundChange) => {
                IntVariableState::MinBoundChange
            },
            _ => IntVariableState::BoundsChange,
        }
    }
}

/// `NoChange` is the identity of the merge, on either side.
pub proof fn lemma_merge_identity(x: IntVariableState)
    ensures
        IntVariableState::NoChange.merged(x) == x,
        x.merged(IntVariableState::NoChange) == x,
{
}

/// The merge does not depend on the order of its arguments.
pub proof fn lemma_merge_commutative(a: IntVariableState, b: IntVariableState)
    ensures
        a.merged(b) == b.merged(a),
{
}

/// Merging a state of the universal tier with a change of a bound or of an
/// inner value gives `UniversalError`, whichever side the universal state is
/// on.
pub proof fn lemma_universal_mixing(universal: IntVariableState, concrete: IntVariableState)
    requires
        universal.is_universal(),
        concrete.is_concrete_change(),
    ensures
        universal.merged(concrete) == IntVariableState::UniversalError,
        concrete.merged(universal) == IntVariableState::UniversalError,
{
}

/// Subsumption is reflexive, and two different states are never subsumed
/// under each other.
pub proof fn lemma_subsumption_order(a: IntVariableState, b: IntVariableState)
    ensures
        a.subsumed_under(a),
        a.subsumed_under(b) && b.subsumed_under(a) ==> a == b,
{
}

} // verus!
