use spinlattice::mathy::{div_tz, exp_neg, metropolis_accepts, EXP_CUT, INV_E, SCALE};

#[test]
fn truncating_division_rounds_toward_zero() {
    assert_eq!(div_tz(7, 2), 3);
    assert_eq!(div_tz(-7, 2), -3);
    assert_eq!(div_tz(6, 2), 3);
    assert_eq!(div_tz(-6, 2), -3);
    assert_eq!(div_tz(1, 1_000_000_000), 0);
    assert_eq!(div_tz(-1, 1_000_000_000), 0);
}

#[test]
fn exp_of_zero_is_one() {
    assert_eq!(exp_neg(0), SCALE);
}

#[test]
fn exp_of_one_is_inverse_e() {
    assert_eq!(exp_neg(SCALE), INV_E);
}

#[test]
fn exp_of_half() {
    // series on f = 0.5: 1 - 1/2 + 1/8 - 1/48 + 1/384, truncated per term
    let expected = SCALE - 500_000_000 + 125_000_000 - 20_833_333 + 2_604_166;
    assert_eq!(exp_neg(500_000_000), expected);
}

#[test]
fn exp_beyond_cutoff_is_zero() {
    assert_eq!(exp_neg(EXP_CUT), 0);
    assert_eq!(exp_neg(EXP_CUT + 12345), 0);
}

#[test]
fn exp_is_decreasing_on_samples() {
    let mut last = exp_neg(0);
    for k in 1..40 {
        let v = exp_neg(k * 500_000_000);
        assert!(v <= last, "exp(-x) rose at sample {}", k);
        last = v;
    }
}

#[test]
fn metropolis_accepts_downhill_and_level() {
    // any draw, any temperature: dh <= 0 always passes
    assert!(metropolis_accepts(-8 * SCALE, SCALE, 0, 0));
    assert!(metropolis_accepts(0, SCALE, 5 * SCALE, SCALE - 1));
    assert!(metropolis_accepts(-1, 0, 0, SCALE - 1));
}

#[test]
fn metropolis_cold_rejects_uphill() {
    // kb * temp below one unit: no uphill move passes, whatever the draw
    for draw in [0, 1, 12345, SCALE - 1] {
        assert!(!metropolis_accepts(1, SCALE, 0, draw));
        assert!(!metropolis_accepts(8 * SCALE, SCALE, 0, draw));
        assert!(!metropolis_accepts(8 * SCALE, 0, 5 * SCALE, draw));
    }
}

#[test]
fn metropolis_warm_uphill_depends_on_draw() {
    // dh = 8, kb = 1, T = 5: the acceptance weight is strictly between
    // 0 and 1, so a zero draw passes and a maximal draw does not
    let dh = 8 * SCALE;
    let kb = SCALE;
    let temp = 5 * SCALE;
    assert!(metropolis_accepts(dh, kb, temp, 0));
    assert!(!metropolis_accepts(dh, kb, temp, SCALE - 1));
}
