use terminal_display::layout::solve;
use terminal_display::Constraint;

#[test]
fn fixed_constraints_exact() {
    let sizes = solve(&[Constraint::Fixed(3), Constraint::Fixed(5)], 20);
    assert_eq!(sizes, vec![3, 5]);
}

#[test]
fn fill_splits_remaining_equally() {
    // 20 - 4 fixed = 16 remaining, split between 2 Fill → 8 each
    let sizes = solve(
        &[Constraint::Fixed(4), Constraint::Fill, Constraint::Fill],
        20,
    );
    assert_eq!(sizes, vec![4, 8, 8]);
}

#[test]
fn ratio_allocates_fractional_share() {
    // Ratio(1,3) and Ratio(2,3) of 30 → 10 and 20
    let sizes = solve(&[Constraint::Ratio(1, 3), Constraint::Ratio(2, 3)], 30);
    assert_eq!(sizes, vec![10, 20]);
}

#[test]
fn fill_gets_zero_when_no_space_remains() {
    // Fixed(20) on a total of 10 — clamp, Fill gets nothing
    let sizes = solve(&[Constraint::Fixed(20), Constraint::Fill], 10);
    assert_eq!(sizes, vec![10, 0]);
}

#[test]
fn mixed_fixed_and_fill() {
    // 5 + Fill + 3 in 20 → Fill gets 20 - 5 - 3 = 12
    let sizes = solve(
        &[Constraint::Fixed(5), Constraint::Fill, Constraint::Fixed(3)],
        20,
    );
    assert_eq!(sizes, vec![5, 12, 3]);
}

#[test]
fn remainder_goes_to_first_fills() {
    // 10 over 3 fills: 4, 3, 3 — the sum is the total and shares differ by at most one
    let sizes = solve(&[Constraint::Fill, Constraint::Fill, Constraint::Fill], 10);
    assert_eq!(sizes, vec![4, 3, 3]);
    assert_eq!(sizes.iter().map(|s| *s as u32).sum::<u32>(), 10);
}

#[test]
fn ratio_with_zero_denominator_gets_nothing() {
    let sizes = solve(&[Constraint::Ratio(1, 0), Constraint::Fixed(2)], 10);
    assert_eq!(sizes, vec![0, 2]);
}

#[test]
fn ratio_clamped_to_remaining_and_large_totals() {
    // Ratio(3, 2) of 40000 asks for 60000 but only 40000 remain after nothing
    let sizes = solve(&[Constraint::Fixed(1000), Constraint::Ratio(3, 2)], 40000);
    assert_eq!(sizes, vec![1000, 39000]);
}

#[test]
fn no_constraints_no_sizes() {
    let sizes = solve(&[], 10);
    assert!(sizes.is_empty());
}
