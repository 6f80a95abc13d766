use rustrace::math::{lower_root_in, solve_quadratic, solve_span, upper_root_in, QuadraticSolution};

#[test]
fn negative_discriminant_has_no_root() {
    assert_eq!(solve_quadratic(1, 0, 1), QuadraticSolution::Zero);
    assert_eq!(solve_quadratic(2, 1, 3), QuadraticSolution::Zero);
}

#[test]
fn zero_discriminant_gives_minus_b_over_2a() {
    assert_eq!(solve_quadratic(1, 2, 1), QuadraticSolution::One { x: -1 });
    assert_eq!(solve_quadratic(4, -12, 9), QuadraticSolution::One { x: 1 });
}

#[test]
fn whole_roots_are_exact() {
    assert_eq!(solve_quadratic(1, -3, 2), QuadraticSolution::Two { x1: 1, x2: 2 });
    assert_eq!(solve_quadratic(3, 3, -18), QuadraticSolution::Two { x1: -3, x2: 2 });
}

#[test]
fn negative_leading_coefficient_keeps_order() {
    assert_eq!(solve_quadratic(-1, 3, -2), QuadraticSolution::Two { x1: 1, x2: 2 });
}

#[test]
fn irrational_roots_are_rounded_down() {
    // x² = 2: roots ±1.414...
    assert_eq!(solve_quadratic(1, 0, -2), QuadraticSolution::Two { x1: -2, x2: 1 });
    // 4x² - 1 = 0: roots ±0.5
    assert_eq!(solve_quadratic(4, 0, -1), QuadraticSolution::Two { x1: -1, x2: 0 });
}

#[test]
fn close_roots_round_to_the_same_whole_number() {
    // 10x² - 9x + 2 = 0: roots 0.4 and 0.5.
    assert_eq!(solve_quadratic(10, -9, 2), QuadraticSolution::Two { x1: 0, x2: 0 });
}

#[test]
fn span_runs_from_entry_rounded_up_to_exit_rounded_down() {
    // Roots 0.4 and 0.5: no whole number between them.
    assert_eq!(solve_span(10, -9, 2), None);
    // Roots 1 - √2 and 1 + √2.
    assert_eq!(solve_span(1, -2, -1), Some((0, 2)));
    // Roots 1 and 2 exactly.
    assert_eq!(solve_span(1, -3, 2), Some((1, 2)));
    assert_eq!(solve_span(1, 0, 1), None);
}

#[test]
fn root_positions_against_an_interval() {
    // Roots 1 and 3.
    assert!(lower_root_in(1, -4, 3, 0, 2));
    assert!(!lower_root_in(1, -4, 3, 2, 5));
    assert!(upper_root_in(1, -4, 3, 2, 5));
    assert!(!upper_root_in(1, -4, 3, 4, 5));
}
