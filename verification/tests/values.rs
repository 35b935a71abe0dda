use var_domains::domains::{
    AssignableDomain, EqualDomain, FiniteDomain, FromRangeDomain, FromValuesDomain,
    IterableDomain, OrderedDomain, OrderedPrunableDomain, PrunableDomain,
};
use var_domains::int_var::{IntVarValues, IntVarValuesBuilder, IntVariableState};
use var_domains::{Variable, VariableError};

fn range(min: i32, max: i32) -> IntVarValues<i32> {
    IntVarValues::new_from_range(min, max).unwrap()
}

fn values(list: Vec<i32>) -> IntVarValues<i32> {
    IntVarValues::new_from_values(list).unwrap()
}

#[test]
fn a_range_holds_both_of_its_ends() {
    let var = range(1, 10);
    assert_eq!(var.iter(), vec![1, 2, 3, 4, 5, 6, 7, 8, 9, 10]);
    assert_eq!(var.size(), 10);
    assert_eq!(var.min(), Some(&1));
    assert_eq!(var.max(), Some(&10));
    assert_eq!(*var.unchecked_min(), 1);
    assert_eq!(*var.unchecked_max(), 10);
}

#[test]
fn a_range_of_one_value_is_affected() {
    let var = range(4, 4);
    assert_eq!(var.iter(), vec![4]);
    assert!(var.is_affected());
    assert_eq!(var.value(), Some(&4));
    assert_eq!(var.min(), Some(&4));
    assert_eq!(var.max(), Some(&4));
}

#[test]
fn a_range_from_a_greater_to_a_smaller_value_is_none() {
    assert_eq!(IntVarValues::<i32>::new_from_range(3, 2), None);
    assert_eq!(IntVarValues::<i32>::try_new(3, 2), None);
    assert_eq!(IntVarValuesBuilder::<i32>::try_new(3, 2), None);
}

#[test]
fn a_range_may_end_at_the_greatest_value_of_its_type() {
    let var: IntVarValues<i8> = IntVarValues::new_from_range(125, 127).unwrap();
    assert_eq!(var.iter(), vec![125i8, 126, 127]);
    let var: IntVarValues<u8> = IntVarValues::new_from_range(255, 255).unwrap();
    assert_eq!(var.iter(), vec![255u8]);
    let var: IntVarValues<i64> = IntVarValues::new_from_range(-2, 1).unwrap();
    assert_eq!(var.iter(), vec![-2i64, -1, 0, 1]);
}

#[test]
fn try_new_is_the_range() {
    let var = IntVarValues::<i32>::try_new(1, 3).unwrap();
    assert_eq!(var, range(1, 3));
    assert_eq!(var.iter(), vec![1, 2, 3]);
}

#[test]
fn the_builder_hands_over_the_range() {
    let builder = IntVarValuesBuilder::<i32>::try_new(2, 5).unwrap();
    let var = builder.finalize();
    assert_eq!(var.iter(), vec![2, 3, 4, 5]);
    assert_eq!(var, range(2, 5));
}

#[test]
fn a_list_of_values_is_sorted_and_loses_its_duplicates() {
    let var = values(vec![3, 1, 2, 2]);
    assert_eq!(var.iter(), vec![1, 2, 3]);
    assert_eq!(var.size(), 3);
    assert_eq!(var.min(), Some(&1));
    assert_eq!(var.max(), Some(&3));
}

#[test]
fn values_and_range_give_the_same_domain() {
    assert_eq!(values(vec![3, 1, 2, 2]), range(1, 3));
}

#[test]
fn an_empty_list_of_values_is_none() {
    assert_eq!(IntVarValues::<i32>::new_from_values(vec![]), None);
}

#[test]
fn an_unaffected_variable_has_no_value() {
    let var = range(1, 2);
    assert!(!var.is_affected());
    assert_eq!(var.value(), None);
}

#[test]
fn what_iter_returned_does_not_follow_the_domain() {
    let mut var = range(1, 5);
    let before = var.iter();
    assert_eq!(var.strict_upperbound(&3), Ok(IntVariableState::MaxBoundChange));
    assert_eq!(before, vec![1, 2, 3, 4, 5]);
    assert_eq!(var.iter(), vec![1, 2]);
}

#[test]
fn a_copy_of_a_domain_goes_its_own_way() {
    let mut var = range(1, 5);
    let copy = var.clone();
    assert_eq!(var.remove_value(3), Ok(IntVariableState::ValuesChange));
    assert_eq!(copy.iter(), vec![1, 2, 3, 4, 5]);
    assert_eq!(var.iter(), vec![1, 2, 4, 5]);
}

#[test]
fn strict_upperbound_moves_the_maximum() {
    let mut var = range(1, 10);
    assert_eq!(var.strict_upperbound(&5), Ok(IntVariableState::MaxBoundChange));
    assert_eq!(var.iter(), vec![1, 2, 3, 4]);
    assert_eq!(var.min(), Some(&1));
    assert_eq!(var.max(), Some(&4));
    assert_eq!(var.size(), 4);
}

#[test]
fn strict_upperbound_that_holds_changes_nothing() {
    let mut var = range(1, 10);
    assert_eq!(var.strict_upperbound(&11), Ok(IntVariableState::NoChange));
    assert_eq!(var.iter(), vec![1, 2, 3, 4, 5, 6, 7, 8, 9, 10]);
}

#[test]
fn strict_upperbound_at_the_maximum_removes_it() {
    let mut var = range(1, 10);
    assert_eq!(var.strict_upperbound(&10), Ok(IntVariableState::MaxBoundChange));
    assert_eq!(var.max(), Some(&9));
}

#[test]
fn strict_upperbound_at_the_minimum_wipes_out() {
    let mut var = range(1, 10);
    assert_eq!(var.strict_upperbound(&1), Err(VariableError::DomainWipeout));
    assert_eq!(var.size(), 0);
    assert_eq!(var.min(), None);
    assert_eq!(var.max(), None);
}

#[test]
fn weak_upperbound_keeps_the_bound() {
    let mut var = range(1, 10);
    assert_eq!(var.weak_upperbound(&5), Ok(IntVariableState::MaxBoundChange));
    assert_eq!(var.iter(), vec![1, 2, 3, 4, 5]);
    assert_eq!(var.weak_upperbound(&5), Ok(IntVariableState::NoChange));
    assert_eq!(var.weak_upperbound(&9), Ok(IntVariableState::NoChange));
    assert_eq!(var.weak_upperbound(&1), Ok(IntVariableState::MaxBoundChange));
    assert_eq!(var.iter(), vec![1]);
    assert_eq!(var.weak_upperbound(&0), Err(VariableError::DomainWipeout));
    assert_eq!(var.size(), 0);
}

#[test]
fn strict_lowerbound_moves_the_minimum() {
    let mut var = range(1, 10);
    assert_eq!(var.strict_lowerbound(&0), Ok(IntVariableState::NoChange));
    assert_eq!(var.strict_lowerbound(&5), Ok(IntVariableState::MinBoundChange));
    assert_eq!(var.iter(), vec![6, 7, 8, 9, 10]);
    assert_eq!(var.strict_lowerbound(&9), Ok(IntVariableState::MinBoundChange));
    assert_eq!(var.iter(), vec![10]);
    assert_eq!(var.strict_lowerbound(&10), Err(VariableError::DomainWipeout));
    assert_eq!(var.size(), 0);
}

#[test]
fn weak_lowerbound_keeps_the_bound() {
    let mut var = range(1, 10);
    assert_eq!(var.weak_lowerbound(&1), Ok(IntVariableState::NoChange));
    assert_eq!(var.weak_lowerbound(&5), Ok(IntVariableState::MinBoundChange));
    assert_eq!(var.iter(), vec![5, 6, 7, 8, 9, 10]);
    assert_eq!(var.weak_lowerbound(&10), Ok(IntVariableState::MinBoundChange));
    assert_eq!(var.iter(), vec![10]);
    assert_eq!(var.weak_lowerbound(&11), Err(VariableError::DomainWipeout));
    assert_eq!(var.size(), 0);
}

#[test]
fn a_bound_between_two_values_cuts_between_them() {
    let mut var = values(vec![1, 4, 9]);
    assert_eq!(var.strict_upperbound(&6), Ok(IntVariableState::MaxBoundChange));
    assert_eq!(var.iter(), vec![1, 4]);
    let mut var = values(vec![1, 4, 9]);
    assert_eq!(var.weak_lowerbound(&2), Ok(IntVariableState::MinBoundChange));
    assert_eq!(var.iter(), vec![4, 9]);
}

#[test]
fn a_domain_that_was_wiped_out_stays_so() {
    let mut var = range(1, 3);
    assert_eq!(var.strict_upperbound(&0), Err(VariableError::DomainWipeout));
    assert_eq!(var.strict_upperbound(&9), Err(VariableError::DomainWipeout));
    assert_eq!(var.weak_upperbound(&9), Err(VariableError::DomainWipeout));
    assert_eq!(var.strict_lowerbound(&0), Err(VariableError::DomainWipeout));
    assert_eq!(var.weak_lowerbound(&0), Err(VariableError::DomainWipeout));
    assert_eq!(var.set_value(2), Err(VariableError::DomainWipeout));
    assert_eq!(var.remove_value(2), Err(VariableError::DomainWipeout));
    assert_eq!(var.in_values(vec![1, 2]), Err(VariableError::DomainWipeout));
    assert_eq!(var.remove_if(|_| false), Err(VariableError::DomainWipeout));
    assert_eq!(var.retains_if(|_| true), Err(VariableError::DomainWipeout));
    assert_eq!(var.size(), 0);
    assert_eq!(var.value(), None);
    assert!(!var.is_affected());
    assert_eq!(var.iter(), Vec::<i32>::new());
}

#[test]
fn set_value_leaves_the_value_alone() {
    let mut var = range(1, 10);
    assert_eq!(var.set_value(4), Ok(IntVariableState::BoundsChange));
    assert_eq!(var.iter(), vec![4]);
    assert!(var.is_affected());
    assert_eq!(var.value(), Some(&4));
}

#[test]
fn set_value_at_a_bound_is_a_change_of_both_bounds() {
    let mut var = range(1, 3);
    assert_eq!(var.set_value(1), Ok(IntVariableState::BoundsChange));
    assert_eq!(var.iter(), vec![1]);
}

#[test]
fn set_value_twice_changes_nothing_the_second_time() {
    let mut var = range(1, 10);
    assert_eq!(var.set_value(7), Ok(IntVariableState::BoundsChange));
    assert_eq!(var.set_value(7), Ok(IntVariableState::NoChange));
    assert_eq!(var.iter(), vec![7]);
}

#[test]
fn set_value_outside_the_bounds_wipes_out() {
    let mut var = range(1, 10);
    assert_eq!(var.set_value(11), Err(VariableError::DomainWipeout));
    assert_eq!(var.size(), 0);
    let mut var = range(1, 10);
    assert_eq!(var.set_value(0), Err(VariableError::DomainWipeout));
    assert_eq!(var.size(), 0);
}

#[test]
fn set_value_in_a_gap_wipes_out() {
    let mut var = values(vec![1, 3, 5]);
    assert_eq!(var.set_value(4), Err(VariableError::DomainWipeout));
    assert_eq!(var.size(), 0);
    assert_eq!(var.set_value(4), Err(VariableError::DomainWipeout));
}

#[test]
fn removing_the_last_value_wipes_out() {
    let mut var = values(vec![5]);
    assert_eq!(var.remove_value(5), Err(VariableError::DomainWipeout));
    assert_eq!(var.size(), 0);
    assert_eq!(var.min(), None);
    assert_eq!(var.iter(), Vec::<i32>::new());
}

#[test]
fn removing_a_value_out_of_range_changes_nothing() {
    let mut var = values(vec![1, 2, 3]);
    assert_eq!(var.remove_value(10), Ok(IntVariableState::NoChange));
    assert_eq!(var.iter(), vec![1, 2, 3]);
    assert_eq!(var.remove_value(0), Ok(IntVariableState::NoChange));
    assert_eq!(var.iter(), vec![1, 2, 3]);
}

#[test]
fn removing_a_value_that_is_not_there_changes_nothing() {
    let mut var = values(vec![1, 3, 5]);
    assert_eq!(var.remove_value(2), Ok(IntVariableState::NoChange));
    assert_eq!(var.iter(), vec![1, 3, 5]);
}

#[test]
fn removing_an_inner_value_changes_the_values() {
    let mut var = range(1, 5);
    assert_eq!(var.remove_value(3), Ok(IntVariableState::ValuesChange));
    assert_eq!(var.iter(), vec![1, 2, 4, 5]);
}

#[test]
fn removing_a_bound_changes_the_bounds() {
    let mut var = range(1, 5);
    assert_eq!(var.remove_value(1), Ok(IntVariableState::BoundsChange));
    assert_eq!(var.iter(), vec![2, 3, 4, 5]);
    assert_eq!(var.remove_value(5), Ok(IntVariableState::BoundsChange));
    assert_eq!(var.iter(), vec![2, 3, 4]);
}

#[test]
fn remove_if_removes_what_the_predicate_accepts() {
    let mut var = range(1, 6);
    assert_eq!(var.remove_if(|v| *v == 3 || *v == 4), Ok(IntVariableState::ValuesChange));
    assert_eq!(var.iter(), vec![1, 2, 5, 6]);
    assert_eq!(var.remove_if(|v| *v > 5), Ok(IntVariableState::BoundsChange));
    assert_eq!(var.iter(), vec![1, 2, 5]);
    assert_eq!(var.remove_if(|v| *v > 5), Ok(IntVariableState::NoChange));
    assert_eq!(var.iter(), vec![1, 2, 5]);
    assert_eq!(var.remove_if(|_| true), Err(VariableError::DomainWipeout));
    assert_eq!(var.size(), 0);
}

#[test]
fn a_predicate_may_keep_count() {
    let mut var = range(1, 6);
    let mut asked = 0;
    assert_eq!(
        var.remove_if(|v| {
            asked += 1;
            *v % 2 == 0
        }),
        Ok(IntVariableState::BoundsChange)
    );
    assert_eq!(asked, 6);
    assert_eq!(var.iter(), vec![1, 3, 5]);
}

#[test]
fn retains_if_keeps_what_the_predicate_accepts() {
    let mut var = range(1, 6);
    assert_eq!(var.retains_if(|v| *v != 3), Ok(IntVariableState::ValuesChange));
    assert_eq!(var.iter(), vec![1, 2, 4, 5, 6]);
    assert_eq!(var.retains_if(|v| *v % 2 == 0), Ok(IntVariableState::BoundsChange));
    assert_eq!(var.iter(), vec![2, 4, 6]);
    assert_eq!(var.retains_if(|_| true), Ok(IntVariableState::NoChange));
    assert_eq!(var.retains_if(|_| false), Err(VariableError::DomainWipeout));
    assert_eq!(var.size(), 0);
}

#[test]
fn in_values_takes_the_values_in_any_order() {
    let mut var = range(1, 6);
    assert_eq!(var.in_values(vec![6, 1, 4, 4, 9]), Ok(IntVariableState::ValuesChange));
    assert_eq!(var.iter(), vec![1, 4, 6]);
    assert_eq!(var.in_values(vec![4, 1, 6]), Ok(IntVariableState::NoChange));
    assert_eq!(var.in_values(vec![4, 1]), Ok(IntVariableState::BoundsChange));
    assert_eq!(var.iter(), vec![1, 4]);
    assert_eq!(var.in_values(vec![7, 8]), Err(VariableError::DomainWipeout));
    assert_eq!(var.size(), 0);
}

#[test]
fn in_values_with_no_value_wipes_out() {
    let mut var = range(1, 6);
    assert_eq!(var.in_values(vec![]), Err(VariableError::DomainWipeout));
    assert_eq!(var.size(), 0);
}

#[test]
fn in_sorted_values_takes_sorted_and_unsorted_values() {
    let mut var = range(1, 6);
    assert_eq!(var.in_sorted_values(vec![0, 2, 3, 6]), Ok(IntVariableState::BoundsChange));
    assert_eq!(var.iter(), vec![2, 3, 6]);
    assert_eq!(var.in_sorted_values(vec![6, 2, 2]), Ok(IntVariableState::ValuesChange));
    assert_eq!(var.iter(), vec![2, 6]);
    assert_eq!(var.in_sorted_values(vec![2, 6]), Ok(IntVariableState::NoChange));
    assert_eq!(var.in_sorted_values(vec![3, 4]), Err(VariableError::DomainWipeout));
    assert_eq!(var.size(), 0);
}

#[test]
fn equal_leaves_the_common_values() {
    let mut a = values(vec![1, 2, 3]);
    let mut b = values(vec![2, 3, 4]);
    assert_eq!(
        a.equal(&mut b),
        Ok((IntVariableState::BoundsChange, IntVariableState::BoundsChange))
    );
    assert_eq!(a.iter(), vec![2, 3]);
    assert_eq!(b.iter(), vec![2, 3]);
    assert_eq!(a.min(), Some(&2));
    assert_eq!(b.max(), Some(&3));
}

#[test]
fn equal_tells_each_side_its_own_change() {
    let mut a = values(vec![1, 2, 3, 4]);
    let mut b = values(vec![1, 2, 4]);
    assert_eq!(
        a.equal(&mut b),
        Ok((IntVariableState::ValuesChange, IntVariableState::NoChange))
    );
    assert_eq!(a.iter(), vec![1, 2, 4]);
    assert_eq!(b.iter(), vec![1, 2, 4]);
    assert_eq!(
        a.equal(&mut b),
        Ok((IntVariableState::NoChange, IntVariableState::NoChange))
    );
}

#[test]
fn equal_without_a_common_value_wipes_both_out() {
    let mut a = values(vec![1, 2]);
    let mut b = values(vec![3, 4]);
    assert_eq!(a.equal(&mut b), Err(VariableError::DomainWipeout));
    assert_eq!(a.size(), 0);
    assert_eq!(b.size(), 0);
}

#[test]
fn not_equal_waits_for_a_single_value() {
    let mut a = values(vec![1, 2]);
    let mut b = values(vec![1, 2]);
    assert_eq!(
        a.not_equal(&mut b),
        Ok((IntVariableState::NoChange, IntVariableState::NoChange))
    );
    assert_eq!(a.iter(), vec![1, 2]);
    assert_eq!(b.iter(), vec![1, 2]);
}

#[test]
fn not_equal_removes_the_single_value_from_the_other_side() {
    let mut a = values(vec![2]);
    let mut b = values(vec![1, 2, 3]);
    assert_eq!(
        a.not_equal(&mut b),
        Ok((IntVariableState::NoChange, IntVariableState::ValuesChange))
    );
    assert_eq!(a.iter(), vec![2]);
    assert_eq!(b.iter(), vec![1, 3]);

    let mut a = values(vec![1, 2, 3]);
    let mut b = values(vec![3]);
    assert_eq!(
        a.not_equal(&mut b),
        Ok((IntVariableState::BoundsChange, IntVariableState::NoChange))
    );
    assert_eq!(a.iter(), vec![1, 2]);
    assert_eq!(b.iter(), vec![3]);
}

#[test]
fn not_equal_of_a_value_that_is_not_there_changes_nothing() {
    let mut a = values(vec![7]);
    let mut b = values(vec![1, 2, 3]);
    assert_eq!(
        a.not_equal(&mut b),
        Ok((IntVariableState::NoChange, IntVariableState::NoChange))
    );
    assert_eq!(b.iter(), vec![1, 2, 3]);
}

#[test]
fn not_equal_of_two_equal_single_values_wipes_the_second_out() {
    let mut a = values(vec![2]);
    let mut b = values(vec![2]);
    assert_eq!(a.not_equal(&mut b), Err(VariableError::DomainWipeout));
    assert_eq!(a.iter(), vec![2]);
    assert_eq!(b.size(), 0);
}

#[test]
fn invalidate_empties_the_domain() {
    let mut var = range(1, 3);
    var.invalidate();
    assert_eq!(var.size(), 0);
    assert_eq!(var.min(), None);
    assert_eq!(var.max(), None);
}

#[test]
fn domain_change_compares_with_what_was() {
    let mut var = values(vec![2, 3, 5]);
    assert_eq!(var.domain_change(2, 5, 3), Ok(IntVariableState::NoChange));
    assert_eq!(var.domain_change(2, 5, 4), Ok(IntVariableState::ValuesChange));
    assert_eq!(var.domain_change(1, 5, 4), Ok(IntVariableState::BoundsChange));
    assert_eq!(var.domain_change(2, 6, 4), Ok(IntVariableState::BoundsChange));
    assert_eq!(var.iter(), vec![2, 3, 5]);
    var.invalidate();
    assert_eq!(var.domain_change(2, 5, 3), Err(VariableError::DomainWipeout));
}

#[test]
fn the_domain_stays_ascending_through_a_run_of_updates() {
    let mut var = values(vec![9, 1, 5, 3, 7, 7, 11, 13]);
    assert_eq!(var.iter(), vec![1, 3, 5, 7, 9, 11, 13]);
    assert_eq!(var.weak_lowerbound(&2), Ok(IntVariableState::MinBoundChange));
    assert_eq!(var.remove_value(7), Ok(IntVariableState::ValuesChange));
    assert_eq!(var.strict_upperbound(&13), Ok(IntVariableState::MaxBoundChange));
    assert_eq!(var.in_values(vec![11, 3, 5, 20]), Ok(IntVariableState::ValuesChange));
    let seen = var.iter();
    assert_eq!(seen, vec![3, 5, 11]);
    assert_eq!(var.size(), seen.len());
    assert_eq!(var.min(), seen.first());
    assert_eq!(var.max(), seen.last());
    for pair in seen.windows(2) {
        assert!(pair[0] < pair[1]);
    }
}
