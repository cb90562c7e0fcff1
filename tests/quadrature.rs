use bayes_predict::quadrature::{fresh_points, next_step, Step, MANDATORY_REFINEMENTS};

#[test]
fn fresh_points_double_after_the_second_refinement() {
    assert_eq!(Some(2), fresh_points(1));
    assert_eq!(Some(1), fresh_points(2));
    assert_eq!(Some(2), fresh_points(3));
    assert_eq!(Some(16), fresh_points(6));
    assert_eq!(Some(1_u64 << 63), fresh_points(65));
    assert_eq!(None, fresh_points(66));
    assert_eq!(None, fresh_points(u64::MAX));
}

#[test]
fn fresh_points_cover_the_grid_once() {
    let mut total: u64 = 0;
    for i in 1..=11_u64 {
        total += fresh_points(i).unwrap();
    }
    assert_eq!((1_u64 << 10) + 1, total);
}

#[test]
fn single_step_budget_fails() {
    assert_eq!(Step::Exhausted, next_step(1, 1, true));
    assert_eq!(Step::Exhausted, next_step(1, 1, false));
}

#[test]
fn agreement_is_ignored_during_mandatory_refinements() {
    for i in 1..=MANDATORY_REFINEMENTS {
        assert_eq!(Step::Refine, next_step(i, 1000, true));
    }
    assert_eq!(Step::Exhausted, next_step(5, 5, true));
}

#[test]
fn agreement_converges_after_mandatory_refinements() {
    assert_eq!(Step::Converged, next_step(6, 1000, true));
    assert_eq!(Step::Converged, next_step(6, 6, true));
    assert_eq!(Step::Refine, next_step(6, 1000, false));
    assert_eq!(Step::Exhausted, next_step(1000, 1000, false));
}
