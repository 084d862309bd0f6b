use sbpf_guest::context::{SolanaContext, DEFAULT_COMPUTE_BUDGET};

#[test]
fn charge_within_budget_takes_exactly_the_units() {
    let mut ctx = SolanaContext::new(DEFAULT_COMPUTE_BUDGET);
    ctx.consume_compute_units(150);
    assert_eq!(ctx.compute_units_remaining, 199_850);
    assert_eq!(ctx.compute_units_consumed, 150);
    assert_eq!(ctx.get_remaining(), 199_850);
}

#[test]
fn charge_of_everything_left_empties_the_meter() {
    let mut ctx = SolanaContext::new(40);
    ctx.consume_compute_units(40);
    assert_eq!(ctx.compute_units_remaining, 0);
    assert_eq!(ctx.compute_units_consumed, 40);
}

#[test]
fn over_charge_clamps_to_what_remains() {
    let mut ctx = SolanaContext::new(40);
    ctx.consume_compute_units(15);
    ctx.consume_gas(100);
    assert_eq!(ctx.compute_units_remaining, 0);
    assert_eq!(ctx.compute_units_consumed, 40);
    ctx.consume_gas(7);
    assert_eq!(ctx.compute_units_remaining, 0);
    assert_eq!(ctx.compute_units_consumed, 40);
}

#[test]
fn zero_charge_changes_nothing() {
    let mut ctx = SolanaContext::new(5);
    ctx.consume_compute_units(0);
    assert_eq!(ctx.compute_units_remaining, 5);
    assert_eq!(ctx.compute_units_consumed, 0);
}

#[test]
fn default_budget_is_two_hundred_thousand() {
    assert_eq!(DEFAULT_COMPUTE_BUDGET, 200_000);
    let ctx = SolanaContext::new(DEFAULT_COMPUTE_BUDGET);
    assert_eq!(ctx.get_remaining(), 200_000);
    assert_eq!(ctx.compute_units_consumed, 0);
}
