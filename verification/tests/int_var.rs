use var_domains::int_var::IntVariableState;
use var_domains::VariableState;

#[test]
fn test_op_or() {
    // no change is neutral
    assert_eq!(
        IntVariableState::NoChange | IntVariableState::MaxBoundChange,
        IntVariableState::MaxBoundChange
    );
    assert_eq!(
        IntVariableState::NoChange | IntVariableState::MinBoundChange,
        IntVariableState::MinBoundChange
    );
    assert_eq!(
        IntVariableState::NoChange | IntVariableState::BoundsChange,
        IntVariableState::BoundsChange
    );
    assert_eq!(
        IntVariableState::NoChange | IntVariableState::ValuesChange,
        IntVariableState::ValuesChange
    );
    assert_eq!(
        IntVariableState::NoChange | IntVariableState::NoChange,
        IntVariableState::NoChange
    );
    assert_eq!(
        IntVariableState::NoChange | IntVariableState::UniversalChange,
        IntVariableState::UniversalChange
    );
    assert_eq!(
        IntVariableState::NoChange | IntVariableState::UniversalError,
        IntVariableState::UniversalError
    );
    // max bounds
    assert_eq!(
        IntVariableState::MaxBoundChange | IntVariableState::MaxBoundChange,
        IntVariableState::MaxBoundChange
    );
    assert_eq!(
        IntVariableState::MaxBoundChange | IntVariableState::MinBoundChange,
        IntVariableState::BoundsChange
    );
    assert_eq!(
        IntVariableState::MaxBoundChange | IntVariableState::BoundsChange,
        IntVariableState::BoundsChange
    );
    assert_eq!(
        IntVariableState::MaxBoundChange | IntVariableState::ValuesChange,
        IntVariableState::ValuesChange
    );
    assert_eq!(
        IntVariableState::MaxBoundChange | IntVariableState::NoChange,
        IntVariableState::MaxBoundChange
    );
    assert_eq!(
        IntVariableState::MaxBoundChange | IntVariableState::UniversalChange,
        IntVariableState::UniversalError
    );
    assert_eq!(
        IntVariableState::MaxBoundChange | IntVariableState::UniversalError,
        IntVariableState::UniversalError
    );
    // min bounds
    assert_eq!(
        IntVariableState::MinBoundChange | IntVariableState::MaxBoundChange,
        IntVariableState::BoundsChange
    );
    assert_eq!(
        IntVariableState::MinBoundChange | IntVariableState::MinBoundChange,
        IntVariableState::MinBoundChange
    );
    assert_eq!(
        IntVariableState::MinBoundChange | IntVariableState::BoundsChange,
        IntVariableState::BoundsChange
    );
    assert_eq!(
        IntVariableState::MinBoundChange | IntVariableState::ValuesChange,
        IntVariableState::ValuesChange
    );
    assert_eq!(
        IntVariableState::MinBoundChange | IntVariableState::NoChange,
        IntVariableState::MinBoundChange
    );
    assert_eq!(
        IntVariableState::MinBoundChange | IntVariableState::UniversalChange,
        IntVariableState::UniversalError
    );
    assert_eq!(
        IntVariableState::MinBoundChange | IntVariableState::UniversalError,
        IntVariableState::UniversalError
    );
    // bounds
    assert_eq!(
        IntVariableState::BoundsChange | IntVariableState::MaxBoundChange,
        IntVariableState::BoundsChange
    );
    assert_eq!(
        IntVariableState::BoundsChange | IntVariableState::MinBoundChange,
        IntVariableState::BoundsChange
    );
    assert_eq!(
        IntVariableState::BoundsChange | IntVariableState::BoundsChange,
        IntVariableState::BoundsChange
    );
    assert_eq!(
        IntVariableState::BoundsChange | IntVariableState::ValuesChange,
        IntVariableState::ValuesChange
    );
    assert_eq!(
        IntVariableState::BoundsChange | IntVariableState::NoChange,
        IntVariableState::BoundsChange
    );
    assert_eq!(
        IntVariableState::BoundsChange | IntVariableState::UniversalChange,
        IntVariableState::UniversalError
    );
    assert_eq!(
        IntVariableState::BoundsChange | IntVariableState::UniversalError,
        IntVariableState::UniversalError
    );
    // values
    assert_eq!(
        IntVariableState::ValuesChange | IntVariableState::MaxBoundChange,
        IntVariableState::ValuesChange
    );
    assert_eq!(
        IntVariableState::ValuesChange | IntVariableState::MinBoundChange,
        IntVariableState::ValuesChange
    );
    assert_eq!(
        IntVariableState::ValuesChange | IntVariableState::BoundsChange,
        IntVariableState::ValuesChange
    );
    assert_eq!(
        IntVariableState::ValuesChange | IntVariableState::ValuesChange,
        IntVariableState::ValuesChange
    );
    assert_eq!(
        IntVariableState::ValuesChange | IntVariableState::NoChange,
        IntVariableState::ValuesChange
    );
    assert_eq!(
        IntVariableState::ValuesChange | IntVariableState::UniversalChange,
        IntVariableState::UniversalError
    );
    assert_eq!(
        IntVariableState::ValuesChange | IntVariableState::UniversalError,
        IntVariableState::UniversalError
    );
    // universal
    assert_eq!(
        IntVariableState::UniversalChange | IntVariableState::MaxBoundChange,
        IntVariableState::UniversalError
    );
    assert_eq!(
        IntVariableState::UniversalChange | IntVariableState::MinBoundChange,
        IntVariableState::UniversalError
    );
    assert_eq!(
        IntVariableState::UniversalChange | IntVariableState::BoundsChange,
        IntVariableState::UniversalError
    );
    assert_eq!(
        IntVariableState::UniversalChange | IntVariableState::ValuesChange,
        IntVariableState::UniversalError
    );
    assert_eq!(
        IntVariableState::UniversalChange | IntVariableState::NoChange,
        IntVariableState::UniversalChange
    );
    assert_eq!(
        IntVariableState::UniversalChange | IntVariableState::UniversalChange,
        IntVariableState::UniversalChange
    );
    assert_eq!(
        IntVariableState::UniversalChange | IntVariableState::UniversalError,
        IntVariableState::UniversalError
    );
    // universal error
    assert_eq!(
        IntVariableState::UniversalError | IntVariableState::MaxBoundChange,
        IntVariableState::UniversalError
    );
    assert_eq!(
        IntVariableState::UniversalError | IntVariableState::MinBoundChange,
        IntVariableState::UniversalError
    );
    assert_eq!(
        IntVariableState::UniversalError | IntVariableState::BoundsChange,
        IntVariableState::UniversalError
    );
    assert_eq!(
        IntVariableState::UniversalError | IntVariableState::ValuesChange,
        IntVariableState::UniversalError
    );
    assert_eq!(
        IntVariableState::UniversalError | IntVariableState::NoChange,
        IntVariableState::UniversalError
    );
    assert_eq!(
        IntVariableState::UniversalError | IntVariableState::UniversalChange,
        IntVariableState::UniversalError
    );
    assert_eq!(
        IntVariableState::UniversalError | IntVariableState::UniversalError,
        IntVariableState::UniversalError
    );
}

fn all_states() -> Vec<IntVariableState> {
    vec![
        IntVariableState::MaxBoundChange,
        IntVariableState::MinBoundChange,
        IntVariableState::BoundsChange,
        IntVariableState::ValuesChange,
        IntVariableState::NoChange,
        IntVariableState::UniversalChange,
        IntVariableState::UniversalError,
    ]
}

#[test]
fn merge_is_the_or_operator() {
    for a in all_states() {
        for b in all_states() {
            assert_eq!(a.merge(b), a | b);
        }
    }
}

#[test]
fn no_change_is_the_identity_of_merge() {
    for x in all_states() {
        assert_eq!(IntVariableState::NoChange.merge(x), x);
        assert_eq!(x.merge(IntVariableState::NoChange), x);
    }
}

#[test]
fn merge_is_commutative() {
    for a in all_states() {
        for b in all_states() {
            assert_eq!(a.merge(b), b.merge(a));
        }
    }
}

#[test]
fn opposite_bounds_merge_into_both_bounds() {
    assert_eq!(
        IntVariableState::MinBoundChange.merge(IntVariableState::MaxBoundChange),
        IntVariableState::BoundsChange
    );
}

#[test]
fn universal_and_concrete_changes_do_not_mix() {
    let universal = vec![
        IntVariableState::UniversalChange,
        IntVariableState::UniversalError,
    ];
    let concrete = vec![
        IntVariableState::MaxBoundChange,
        IntVariableState::MinBoundChange,
        IntVariableState::BoundsChange,
        IntVariableState::ValuesChange,
    ];
    for u in universal {
        for c in concrete.clone() {
            assert_eq!(u.merge(c), IntVariableState::UniversalError);
            assert_eq!(c.merge(u), IntVariableState::UniversalError);
        }
    }
}

#[test]
fn a_bound_change_is_subsumed_under_both_bounds() {
    assert!(IntVariableState::MinBoundChange.is_subsumed_under(&IntVariableState::BoundsChange));
    assert!(IntVariableState::MaxBoundChange.is_subsumed_under(&IntVariableState::BoundsChange));
    assert!(IntVariableState::MinBoundChange.is_subsumed_under(&IntVariableState::MinBoundChange));
    assert!(!IntVariableState::MinBoundChange.is_subsumed_under(&IntVariableState::MaxBoundChange));
    assert!(!IntVariableState::MinBoundChange.is_subsumed_under(&IntVariableState::ValuesChange));
    assert!(!IntVariableState::MaxBoundChange.is_subsumed_under(&IntVariableState::NoChange));
}

#[test]
fn subsumption_goes_up_one_tier() {
    assert!(IntVariableState::BoundsChange.is_subsumed_under(&IntVariableState::ValuesChange));
    assert!(IntVariableState::ValuesChange.is_subsumed_under(&IntVariableState::NoChange));
    assert!(!IntVariableState::BoundsChange.is_subsumed_under(&IntVariableState::NoChange));
    assert!(!IntVariableState::BoundsChange.is_subsumed_under(&IntVariableState::MinBoundChange));
    assert!(!IntVariableState::ValuesChange.is_subsumed_under(&IntVariableState::BoundsChange));
    assert!(!IntVariableState::NoChange.is_subsumed_under(&IntVariableState::ValuesChange));
}

#[test]
fn subsumption_is_reflexive_and_keeps_the_universal_tier_apart() {
    for x in all_states() {
        assert!(x.is_subsumed_under(&x));
    }
    for x in all_states() {
        if x != IntVariableState::UniversalChange {
            assert!(!IntVariableState::UniversalChange.is_subsumed_under(&x));
            assert!(!x.is_subsumed_under(&IntVariableState::UniversalChange));
        }
        if x != IntVariableState::UniversalError {
            assert!(!IntVariableState::UniversalError.is_subsumed_under(&x));
            assert!(!x.is_subsumed_under(&IntVariableState::UniversalError));
        }
    }
}

#[test]
fn null_is_no_change() {
    assert_eq!(IntVariableState::null(), IntVariableState::NoChange);
    assert!(IntVariableState::NoChange.is_null());
    assert!(!IntVariableState::ValuesChange.is_null());
    assert!(!IntVariableState::UniversalChange.is_null());
}

#[test]
fn nullify_returns_what_was_there() {
    let mut state = IntVariableState::BoundsChange;
    let previous = state.nullify();
    assert_eq!(previous, IntVariableState::BoundsChange);
    assert_eq!(state, IntVariableState::NoChange);
}
