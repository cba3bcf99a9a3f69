use ecg_monitor::decimal::{parse_decimal, Decimal, Fixed};
use ecg_monitor::grid_helper::{ecg_grid_spacer, GridInput, GridMark};

fn dec(mantissa: i64, scale: u32) -> Decimal {
    Decimal { mantissa, scale }
}

fn marks(base: Decimal, min: Decimal, max: Decimal) -> Vec<GridMark> {
    ecg_grid_spacer(GridInput { bounds: (min, max), base_step_size: base })
}

#[test]
fn half_second_base_uses_the_paper_grid_without_merging() {
    let m = marks(dec(5, 1), dec(0, 0), dec(2, 0));
    let mut expected: Vec<GridMark> = (0..10)
        .map(|i| GridMark { value: Fixed { mantissa: 2 * i, scale: 1 }, step_size: dec(2, 1) })
        .collect();
    expected.push(GridMark { value: Fixed { mantissa: 0, scale: 0 }, step_size: dec(1, 0) });
    expected.push(GridMark { value: Fixed { mantissa: 1, scale: 0 }, step_size: dec(1, 0) });
    expected.push(GridMark { value: Fixed { mantissa: 0, scale: 0 }, step_size: dec(10, 0) });
    assert_eq!(m, expected);
}

#[test]
fn base_thresholds_pick_the_spacings() {
    let steps = |base: Decimal| {
        let m = marks(base, dec(-1, 0), dec(7200, 0));
        let mut s: Vec<Decimal> = m.iter().map(|g| g.step_size).collect();
        s.dedup();
        s
    };
    assert_eq!(steps(dec(60, 0)), vec![dec(60, 0), dec(300, 0), dec(3600, 0)]);
    assert_eq!(steps(dec(599, 1)), vec![dec(10, 0), dec(60, 0), dec(300, 0)]);
    assert_eq!(steps(dec(1, 0)), vec![dec(1, 0), dec(10, 0), dec(60, 0)]);
    assert_eq!(steps(dec(20, 2)), vec![dec(2, 1), dec(1, 0), dec(10, 0)]);
    assert_eq!(steps(dec(19, 2)), vec![dec(4, 2), dec(2, 1), dec(1, 0)]);
}

#[test]
fn negative_and_fractional_bounds() {
    // multiples of 60 from ceil(-130 / 60) = -2 up to before ceil(61.5 / 60) = 2
    let m = marks(dec(100, 0), dec(-130, 0), dec(615, 1));
    let sixty: Vec<i128> = m.iter().filter(|g| g.step_size == dec(60, 0)).map(|g| g.value.mantissa).collect();
    assert_eq!(sixty, vec![-120, -60, 0, 60]);
    let hour: Vec<i128> = m.iter().filter(|g| g.step_size == dec(3600, 0)).map(|g| g.value.mantissa).collect();
    assert_eq!(hour, vec![0]);
}

#[test]
fn exact_upper_bound_is_left_out() {
    let m = marks(dec(1, 0), dec(5, 1), dec(3, 0));
    let ones: Vec<i128> = m.iter().filter(|g| g.step_size == dec(1, 0)).map(|g| g.value.mantissa).collect();
    assert_eq!(ones, vec![1, 2]);
}

fn parse(s: &str) -> Option<Decimal> {
    parse_decimal(&s.chars().collect::<Vec<char>>())
}

#[test]
fn decimals_in_plain_notation() {
    assert_eq!(parse("1000"), Some(dec(1000, 0)));
    assert_eq!(parse("-0.25"), Some(dec(-25, 2)));
    assert_eq!(parse("+3"), Some(dec(3, 0)));
    assert_eq!(parse(".5"), Some(dec(5, 1)));
    assert_eq!(parse("5."), Some(dec(5, 0)));
    assert_eq!(parse("9223372036854775807"), Some(dec(i64::MAX, 0)));
    assert_eq!(parse("0.000000000000001"), Some(dec(1, 15)));
}

#[test]
fn decimals_that_are_refused() {
    for s in ["", ".", "-", "1.2.3", " 1", "1 ", "abc", "9223372036854775808", "NaN", "inf", "e5", ".e1", "1e", "1e+", "1e2.5", "1E2e3", "1e19"] {
        assert_eq!(parse(s), None, "{:?}", s);
    }
}

#[test]
fn decimal_comparison_and_product() {
    assert!(dec(19, 2).lt(&dec(2, 1)));
    assert!(!dec(20, 2).lt(&dec(2, 1)));
    assert!(dec(20, 2).equals(&dec(2, 1)));
    assert!(dec(-1, 0).lt(&dec(0, 5)));
    assert_eq!(dec(-15, 1).times(&dec(4, 2)), Fixed { mantissa: -60, scale: 3 });
    assert_eq!(Decimal::integer(7), dec(7, 0));
}

#[test]
fn decimals_with_exponents() {
    assert_eq!(parse("1e3"), Some(dec(1000, 0)));
    assert_eq!(parse("1.5E-2"), Some(dec(15, 3)));
    assert_eq!(parse("-2.50e+1"), Some(dec(-250, 1)));
    assert_eq!(parse("9e18"), Some(dec(9_000_000_000_000_000_000, 0)));
    assert_eq!(parse("0e999999999999999999999"), Some(dec(0, 0)));
    assert_eq!(parse("123e-2"), Some(dec(123, 2)));
}

#[test]
fn decimals_past_fifteen_places_are_rounded() {
    assert_eq!(parse("0.0000000000000001"), Some(dec(0, 15)));
    assert_eq!(parse("0.0000000000000005"), Some(dec(1, 15)));
    assert_eq!(parse("-0.0000000000000005"), Some(dec(-1, 15)));
    assert_eq!(parse("1.2345678901234567890123"), Some(dec(1_234_567_890_123_457, 15)));
    assert_eq!(parse("1.2345678901234564999"), Some(dec(1_234_567_890_123_456, 15)));
    assert_eq!(parse("2.5e-16"), Some(dec(0, 15)));
    assert_eq!(parse("1e-99999999999999999999999"), Some(dec(0, 15)));
}
