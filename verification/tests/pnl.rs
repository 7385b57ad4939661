use tradebook::decimal::Decimal;
use tradebook::models::{Direction, TradeResult};
use tradebook::pnl::{
    calculate_gross_pnl, calculate_net_pnl, calculate_pnl_per_share, calculate_r_multiple,
    calculate_risk_per_share, classify_result,
};

fn dec(x: f64) -> Decimal {
    Decimal::from_micros((x * 1_000_000.0).round() as i64)
}

fn num(d: Decimal) -> f64 {
    d.micros() as f64 / 1_000_000.0
}

#[test]
fn test_gross_pnl_long_win() {
    let pnl = calculate_gross_pnl(Direction::Long, dec(100.0), dec(110.0), dec(10.0), dec(1.0));
    assert!((num(pnl) - 100.0).abs() < 0.01);
}

#[test]
fn test_gross_pnl_long_loss() {
    let pnl = calculate_gross_pnl(Direction::Long, dec(100.0), dec(90.0), dec(10.0), dec(1.0));
    assert!((num(pnl) - (-100.0)).abs() < 0.01);
}

#[test]
fn test_gross_pnl_short_win() {
    let pnl = calculate_gross_pnl(Direction::Short, dec(100.0), dec(90.0), dec(10.0), dec(1.0));
    assert!((num(pnl) - 100.0).abs() < 0.01);
}

#[test]
fn test_gross_pnl_short_loss() {
    let pnl = calculate_gross_pnl(Direction::Short, dec(100.0), dec(110.0), dec(10.0), dec(1.0));
    assert!((num(pnl) - (-100.0)).abs() < 0.01);
}

#[test]
fn test_gross_pnl_option_with_multiplier() {
    // Option trade: 5 contracts, entry $1.50, exit $2.00
    // PnL = (2.00 - 1.50) * 5 * 100 = 250
    let pnl = calculate_gross_pnl(Direction::Long, dec(1.50), dec(2.00), dec(5.0), dec(100.0));
    assert!((num(pnl) - 250.0).abs() < 0.01);
}

#[test]
fn test_net_pnl() {
    let net = calculate_net_pnl(dec(100.0), dec(10.0));
    assert!((num(net) - 90.0).abs() < 0.01);
}

#[test]
fn test_pnl_per_share_long() {
    let pps = calculate_pnl_per_share(Direction::Long, dec(100.0), dec(110.0));
    assert!((num(pps) - 10.0).abs() < 0.01);
}

#[test]
fn test_pnl_per_share_short() {
    let pps = calculate_pnl_per_share(Direction::Short, dec(100.0), dec(90.0));
    assert!((num(pps) - 10.0).abs() < 0.01);
}

#[test]
fn test_risk_per_share() {
    let risk = calculate_risk_per_share(dec(100.0), dec(95.0));
    assert!(risk.is_some());
    assert!((num(risk.unwrap()) - 5.0).abs() < 0.01);
}

#[test]
fn test_risk_per_share_zero() {
    let risk = calculate_risk_per_share(dec(100.0), dec(100.0));
    assert!(risk.is_none());
}

#[test]
fn test_r_multiple() {
    let r = calculate_r_multiple(dec(10.0), Some(dec(5.0)));
    assert!(r.is_some());
    assert!((num(r.unwrap()) - 2.0).abs() < 0.01);
}

#[test]
fn test_r_multiple_no_risk() {
    let r = calculate_r_multiple(dec(10.0), None);
    assert!(r.is_none());
}

#[test]
fn test_classify_result_win() {
    assert_eq!(classify_result(dec(100.0)), TradeResult::Win);
}

#[test]
fn test_classify_result_loss() {
    assert_eq!(classify_result(dec(-100.0)), TradeResult::Loss);
}

#[test]
fn test_classify_result_breakeven() {
    assert_eq!(classify_result(dec(0.0)), TradeResult::Breakeven);
}

#[test]
fn gross_pnl_is_exact_in_millionths() {
    // (110.25 - 100.5) * 3.5 * 100 = 3412.5
    let pnl = calculate_gross_pnl(
        Direction::Long,
        Decimal::from_micros(100_500_000),
        Decimal::from_micros(110_250_000),
        Decimal::from_micros(3_500_000),
        Decimal::from_micros(100_000_000),
    );
    assert_eq!(pnl.micros(), 3_412_500_000);
}

#[test]
fn r_multiple_rounds_toward_zero() {
    // 10 / 3 = 3.333333..., -10 / 3 = -3.333333...
    let up = calculate_r_multiple(dec(10.0), Some(dec(3.0))).unwrap();
    assert_eq!(up.micros(), 3_333_333);
    let down = calculate_r_multiple(dec(-10.0), Some(dec(3.0))).unwrap();
    assert_eq!(down.micros(), -3_333_333);
}

#[test]
fn r_multiple_needs_positive_risk() {
    assert!(calculate_r_multiple(dec(10.0), Some(dec(0.0))).is_none());
    assert!(calculate_r_multiple(dec(10.0), Some(dec(-5.0))).is_none());
}

#[test]
fn risk_per_share_is_a_distance() {
    assert_eq!(calculate_risk_per_share(dec(95.0), dec(100.0)).unwrap().micros(), 5_000_000);
    assert_eq!(calculate_risk_per_share(dec(100.0), dec(95.0)).unwrap().micros(), 5_000_000);
}

#[test]
fn smallest_amounts_classify_by_sign() {
    assert_eq!(classify_result(Decimal::from_micros(1)), TradeResult::Win);
    assert_eq!(classify_result(Decimal::from_micros(-1)), TradeResult::Loss);
}
