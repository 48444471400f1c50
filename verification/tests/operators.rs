use blue_prince_solvers::operators::NumericCoreOps::{Pink, Violet, Yellow};
use blue_prince_solvers::operators::{evaluate, pink_multiply, violet_divide, yellow_subtract};
use blue_prince_solvers::operators::{NumericCoreOps, NUMERIC_CORE_OP_COMBOS};

#[test]
fn yellow_subtracts_where_the_left_is_not_smaller() {
    assert_eq!(yellow_subtract(7, 3), Some(4));
    assert_eq!(yellow_subtract(3, 3), Some(0));
    assert_eq!(yellow_subtract(3, 7), None);
    assert_eq!(yellow_subtract(0, 0), Some(0));
    assert_eq!(yellow_subtract(u64::MAX, 1), Some(u64::MAX - 1));
}

#[test]
fn pink_multiplies() {
    assert_eq!(pink_multiply(6, 7), 42);
    assert_eq!(pink_multiply(0, 9), 0);
    assert_eq!(pink_multiply(4294967295, 4294967295), 18446744065119617025);
}

#[test]
fn violet_divides_where_nothing_is_left_over() {
    assert_eq!(violet_divide(12, 4), Some(3));
    assert_eq!(violet_divide(12, 5), None);
    assert_eq!(violet_divide(12, 0), None);
    assert_eq!(violet_divide(0, 0), None);
    assert_eq!(violet_divide(0, 5), Some(0));
    assert_eq!(violet_divide(5, 5), Some(1));
}

#[test]
fn apply_follows_the_operator() {
    assert_eq!(Yellow.apply(9, 4), Some(5));
    assert_eq!(Yellow.apply(4, 9), None);
    assert_eq!(Pink.apply(9, 4), Some(36));
    assert_eq!(Violet.apply(8, 4), Some(2));
    assert_eq!(Violet.apply(9, 4), None);
    assert_eq!(Violet.apply(9, 0), None);
}

#[test]
fn the_table_holds_the_six_arrangements() {
    assert_eq!(
        NUMERIC_CORE_OP_COMBOS,
        [
            (Yellow, Pink, Violet),
            (Yellow, Violet, Pink),
            (Pink, Yellow, Violet),
            (Pink, Violet, Yellow),
            (Violet, Yellow, Pink),
            (Violet, Pink, Yellow),
        ]
    );
    for (s, first) in NUMERIC_CORE_OP_COMBOS.iter().enumerate() {
        let (op1, op2, op3): (NumericCoreOps, NumericCoreOps, NumericCoreOps) = *first;
        assert!(op1 != op2 && op1 != op3 && op2 != op3);
        for second in NUMERIC_CORE_OP_COMBOS.iter().skip(s + 1) {
            assert_ne!(first, second);
        }
    }
}

#[test]
fn evaluate_folds_from_the_left() {
    // (20 - 5) * 2 / 3
    assert_eq!(evaluate((Yellow, Pink, Violet), (20, 5, 2, 3)), Some(10));
    // 4 * 5 - 2, then / 9
    assert_eq!(evaluate((Pink, Yellow, Violet), (4, 5, 2, 9)), Some(2));
    // 4 * 6 / 3 - 8
    assert_eq!(evaluate((Pink, Violet, Yellow), (4, 6, 3, 8)), Some(0));
    // (12 / 4 - 1) * 5
    assert_eq!(evaluate((Violet, Yellow, Pink), (12, 4, 1, 5)), Some(10));
}

#[test]
fn evaluate_gives_nothing_where_a_step_is_undefined() {
    assert_eq!(evaluate((Yellow, Pink, Violet), (5, 20, 2, 3)), None);
    assert_eq!(evaluate((Yellow, Pink, Violet), (20, 5, 2, 7)), None);
    assert_eq!(evaluate((Yellow, Pink, Violet), (20, 5, 2, 0)), None);
    assert_eq!(evaluate((Pink, Yellow, Violet), (4, 5, 21, 1)), None);
    assert_eq!(evaluate((Pink, Violet, Yellow), (4, 6, 3, 9)), None);
    assert_eq!(evaluate((Violet, Yellow, Pink), (12, 5, 1, 5)), None);
    assert_eq!(evaluate((Violet, Pink, Yellow), (12, 0, 3, 1)), None);
    assert_eq!(evaluate((Violet, Pink, Yellow), (12, 2, 3, 3)), None);
}

#[test]
fn division_in_slot_one_waits_for_the_multiplication() {
    // 12 / (2 * 3) - 1, where the fold from the left would give 12 / 2 * 3 - 1 = 17.
    assert_eq!(evaluate((Violet, Pink, Yellow), (12, 2, 3, 1)), Some(1));
    // 7 / (1 * 7) - 0, where the fold from the left would give 49.
    assert_eq!(evaluate((Violet, Pink, Yellow), (7, 1, 7, 0)), Some(1));
    // 12 is no multiple of 5 * 3, though it is one of 3.
    assert_eq!(evaluate((Violet, Pink, Yellow), (12, 3, 5, 0)), None);
    // 20 / (2 * 5) - 1, where the fold from the left would give 49.
    assert_eq!(evaluate((Violet, Pink, Yellow), (20, 2, 5, 1)), Some(1));
}

#[test]
fn division_in_slot_two_waits_for_the_multiplication() {
    // (7 - 1) * 2 / 4, where the fold from the left stops at 6 / 4.
    assert_eq!(evaluate((Yellow, Violet, Pink), (7, 1, 4, 2)), Some(3));
    // (10 - 2) * 3 / 4, which the fold from the left gives as well.
    assert_eq!(evaluate((Yellow, Violet, Pink), (10, 2, 4, 3)), Some(6));
    // (9 - 2) * 3 / 4 has a remainder.
    assert_eq!(evaluate((Yellow, Violet, Pink), (9, 2, 4, 3)), None);
    // (9 - 2) * 3 / 0
    assert_eq!(evaluate((Yellow, Violet, Pink), (9, 2, 0, 3)), None);
}

#[test]
fn no_other_neighbours_change_places() {
    // Multiplication before division: 6 * 4 / 8 - 1.
    assert_eq!(evaluate((Pink, Violet, Yellow), (6, 4, 8, 1)), Some(2));
    // Division, subtraction, multiplication: (12 / 4 - 1) * 5, not 12 / 4 - 1 * 5.
    assert_eq!(evaluate((Violet, Yellow, Pink), (12, 4, 1, 5)), Some(10));
    // Subtraction before multiplication: (9 - 4) * 2 / 5, not 9 - 4 * 2 / 5.
    assert_eq!(evaluate((Yellow, Pink, Violet), (9, 4, 2, 5)), Some(2));
}

#[test]
fn operands_below_two_to_the_thirty_second_are_safe() {
    let top: u64 = 4294967295;
    assert_eq!(
        evaluate((Pink, Yellow, Violet), (top, top, 0, 1)),
        Some(18446744065119617025)
    );
    assert_eq!(evaluate((Yellow, Violet, Pink), (top, 0, top, top)), Some(top));
    assert_eq!(evaluate((Violet, Pink, Yellow), (top, 1, top, 1)), Some(0));
    for ops in NUMERIC_CORE_OP_COMBOS {
        let _ = evaluate(ops, (top, top, top, top));
        let _ = evaluate(ops, (top, 1, 1, top));
    }
}
