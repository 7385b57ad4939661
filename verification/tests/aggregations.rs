use tradebook::aggregations::{
    calculate_daily_metrics, calculate_equity_curve, calculate_equity_curve_owned,
    calculate_max_drawdown, calculate_period_metrics,
};
use tradebook::date::Date;
use tradebook::decimal::Decimal;
use tradebook::models::{
    AssetClass, Direction, EquityPoint, PeriodMetrics, ProfitFactor, Status, Trade, TradeResult,
    TradeWithDerived,
};

fn dec(x: f64) -> Decimal {
    Decimal::from_micros((x * 1_000_000.0).round() as i64)
}

fn num(d: Decimal) -> f64 {
    d.micros() as f64 / 1_000_000.0
}

fn day(year: i32, month: u32, day: u32) -> Date {
    Date::from_ymd_opt(year, month, day).unwrap()
}

fn create_test_trade(net_pnl: f64, result: TradeResult, date: Date) -> TradeWithDerived {
    let trade = Trade {
        id: "trade".to_string(),
        user_id: "user1".to_string(),
        account_id: "account1".to_string(),
        instrument_id: "inst1".to_string(),
        symbol: "AAPL".to_string(),
        asset_class: AssetClass::Stock,
        trade_number: None,
        trade_date: date,
        direction: Direction::Long,
        quantity: Some(dec(100.0)),
        entry_price: dec(100.0),
        exit_price: Some(dec(if net_pnl >= 0.0 { 101.0 } else { 99.0 })),
        stop_loss_price: None,
        entry_time: None,
        exit_time: None,
        fees: dec(0.0),
        strategy: None,
        notes: None,
        status: Status::Closed,
        created_at: 0,
        updated_at: 0,
    };

    TradeWithDerived {
        trade,
        gross_pnl: Some(dec(net_pnl)),
        net_pnl: Some(dec(net_pnl)),
        pnl_per_share: None,
        risk_per_share: None,
        r_multiple: None,
        result: Some(result),
    }
}

fn open_trade(date: Date) -> TradeWithDerived {
    let mut t = create_test_trade(0.0, TradeResult::Breakeven, date);
    t.trade.exit_price = None;
    t.trade.status = Status::Open;
    t.gross_pnl = None;
    t.net_pnl = None;
    t.result = None;
    t
}

#[test]
fn test_win_rate_calculation() {
    let trades = vec![
        create_test_trade(100.0, TradeResult::Win, day(2024, 1, 1)),
        create_test_trade(50.0, TradeResult::Win, day(2024, 1, 2)),
        create_test_trade(-75.0, TradeResult::Loss, day(2024, 1, 3)),
        create_test_trade(0.0, TradeResult::Breakeven, day(2024, 1, 4)),
    ];

    let metrics = calculate_period_metrics(&trades);

    // Win rate should be 2/3 (excluding breakeven)
    assert!(metrics.win_rate.is_some());
    assert!((num(metrics.win_rate.unwrap()) - (2.0 / 3.0)).abs() < 0.01);
}

#[test]
fn test_profit_factor() {
    let trades = vec![
        create_test_trade(200.0, TradeResult::Win, day(2024, 1, 1)),
        create_test_trade(-100.0, TradeResult::Loss, day(2024, 1, 2)),
    ];

    let metrics = calculate_period_metrics(&trades);

    // Profit factor should be 200/100 = 2.0
    assert!(metrics.profit_factor.is_some());
    match metrics.profit_factor.unwrap() {
        ProfitFactor::Ratio(r) => assert!((num(r) - 2.0).abs() < 0.01),
        ProfitFactor::Infinite => panic!("the losses are not zero"),
    }
}

#[test]
fn test_profit_factor_no_losses() {
    let trades = vec![
        create_test_trade(100.0, TradeResult::Win, day(2024, 1, 1)),
        create_test_trade(50.0, TradeResult::Win, day(2024, 1, 2)),
    ];

    let metrics = calculate_period_metrics(&trades);

    // Profit factor should be infinity when no losses
    assert!(metrics.profit_factor.is_some());
    assert_eq!(metrics.profit_factor.unwrap(), ProfitFactor::Infinite);
}

#[test]
fn aggregations_test_max_drawdown() {
    let trades = vec![
        create_test_trade(100.0, TradeResult::Win, day(2024, 1, 1)),
        create_test_trade(-150.0, TradeResult::Loss, day(2024, 1, 2)),
        create_test_trade(50.0, TradeResult::Win, day(2024, 1, 3)),
    ];

    let metrics = calculate_period_metrics(&trades);

    // Peak was 100, then went to -50, then 0
    // Max drawdown is 100 - (-50) = 150
    assert!((num(metrics.max_drawdown) - 150.0).abs() < 0.01);
}

#[test]
fn test_win_streak() {
    let trades = vec![
        create_test_trade(100.0, TradeResult::Win, day(2024, 1, 1)),
        create_test_trade(50.0, TradeResult::Win, day(2024, 1, 2)),
        create_test_trade(75.0, TradeResult::Win, day(2024, 1, 3)),
        create_test_trade(-100.0, TradeResult::Loss, day(2024, 1, 4)),
    ];

    let metrics = calculate_period_metrics(&trades);
    assert_eq!(metrics.max_win_streak, 3);
}

#[test]
fn test_expectancy() {
    let trades = vec![
        create_test_trade(200.0, TradeResult::Win, day(2024, 1, 1)),
        create_test_trade(-100.0, TradeResult::Loss, day(2024, 1, 2)),
    ];

    let metrics = calculate_period_metrics(&trades);

    // win_rate = 0.5, avg_win = 200, avg_loss = -100
    // expectancy = (0.5 * 200) + (0.5 * -100) = 100 - 50 = 50
    assert!(metrics.expectancy.is_some());
    assert!((num(metrics.expectancy.unwrap()) - 50.0).abs() < 0.01);
}

#[test]
fn period_metrics_of_no_trades_are_empty() {
    let metrics = calculate_period_metrics(&[]);
    assert_eq!(metrics, PeriodMetrics::default());
    assert_eq!(metrics.total_net_pnl.micros(), 0);
    assert_eq!(metrics.trade_count, 0);
    assert!(metrics.win_rate.is_none());
    assert!(metrics.profit_factor.is_none());
    assert_eq!(metrics.max_drawdown.micros(), 0);
}

#[test]
fn period_metrics_exact_values() {
    let trades = vec![
        create_test_trade(100.0, TradeResult::Win, day(2024, 1, 1)),
        create_test_trade(50.0, TradeResult::Win, day(2024, 1, 2)),
        create_test_trade(-75.0, TradeResult::Loss, day(2024, 1, 3)),
        create_test_trade(0.0, TradeResult::Breakeven, day(2024, 1, 4)),
    ];
    let m = calculate_period_metrics(&trades);
    assert_eq!(m.total_net_pnl.micros(), 75_000_000);
    assert_eq!(m.trade_count, 4);
    assert_eq!(m.win_count, 2);
    assert_eq!(m.loss_count, 1);
    assert_eq!(m.breakeven_count, 1);
    assert_eq!(m.win_rate.unwrap().micros(), 666_666);
    assert_eq!(m.avg_win.unwrap().micros(), 75_000_000);
    assert_eq!(m.avg_loss.unwrap().micros(), -75_000_000);
    assert_eq!(m.profit_factor, Some(ProfitFactor::Ratio(Decimal::from_micros(2_000_000))));
    // 0.666666 * 75 + 0.333334 * -75 = 49.99995 - 25.00005
    assert_eq!(m.expectancy.unwrap().micros(), 49_999_950 - 25_000_050);
    assert_eq!(m.max_drawdown.micros(), 75_000_000);
    assert_eq!(m.max_win_streak, 2);
    assert_eq!(m.max_loss_streak, 1);
}

#[test]
fn losses_only_have_no_profit_factor_above_zero() {
    let trades = vec![
        create_test_trade(-10.0, TradeResult::Loss, day(2024, 1, 1)),
        create_test_trade(-30.0, TradeResult::Loss, day(2024, 1, 2)),
    ];
    let m = calculate_period_metrics(&trades);
    assert_eq!(m.profit_factor, Some(ProfitFactor::Ratio(Decimal::from_micros(0))));
    assert_eq!(m.win_rate.unwrap().micros(), 0);
    assert!(m.avg_win.is_none());
    assert_eq!(m.avg_loss.unwrap().micros(), -20_000_000);
    assert!(m.expectancy.is_none());
}

#[test]
fn breakevens_only_have_no_rates() {
    let trades = vec![create_test_trade(0.0, TradeResult::Breakeven, day(2024, 1, 1))];
    let m = calculate_period_metrics(&trades);
    assert_eq!(m.trade_count, 1);
    assert_eq!(m.breakeven_count, 1);
    assert!(m.win_rate.is_none());
    assert!(m.profit_factor.is_none());
    assert!(m.expectancy.is_none());
}

#[test]
fn drawdown_from_peak_to_trough() {
    // +1000, -800, -500: peak 1000, trough -300, drawdown 1300.
    let trades = vec![
        create_test_trade(1000.0, TradeResult::Win, day(2024, 3, 1)),
        create_test_trade(-800.0, TradeResult::Loss, day(2024, 3, 2)),
        create_test_trade(-500.0, TradeResult::Loss, day(2024, 3, 3)),
    ];
    let m = calculate_period_metrics(&trades);
    assert_eq!(m.max_drawdown.micros(), 1_300_000_000);
    let curve = calculate_equity_curve_owned(&trades);
    assert_eq!(curve.len(), 3);
    assert_eq!(curve[0].cumulative_pnl.micros(), 1_000_000_000);
    assert_eq!(curve[0].drawdown.micros(), 0);
    assert_eq!(curve[1].cumulative_pnl.micros(), 200_000_000);
    assert_eq!(curve[1].drawdown.micros(), 800_000_000);
    assert_eq!(curve[2].cumulative_pnl.micros(), -300_000_000);
    assert_eq!(curve[2].drawdown.micros(), 1_300_000_000);
    assert_eq!(calculate_max_drawdown(&curve).micros(), 1_300_000_000);
}

#[test]
fn streaks_of_wins_and_losses() {
    let w = TradeResult::Win;
    let l = TradeResult::Loss;
    let trades = vec![
        create_test_trade(10.0, w, day(2024, 1, 1)),
        create_test_trade(10.0, w, day(2024, 1, 2)),
        create_test_trade(10.0, w, day(2024, 1, 3)),
        create_test_trade(-10.0, l, day(2024, 1, 4)),
        create_test_trade(-10.0, l, day(2024, 1, 5)),
    ];
    let m = calculate_period_metrics(&trades);
    assert_eq!(m.max_win_streak, 3);
    assert_eq!(m.max_loss_streak, 2);
}

#[test]
fn breakeven_breaks_a_streak() {
    let w = TradeResult::Win;
    let l = TradeResult::Loss;
    let trades = vec![
        create_test_trade(10.0, w, day(2024, 1, 1)),
        create_test_trade(10.0, w, day(2024, 1, 2)),
        create_test_trade(0.0, TradeResult::Breakeven, day(2024, 1, 3)),
        create_test_trade(10.0, w, day(2024, 1, 4)),
        create_test_trade(-10.0, l, day(2024, 1, 5)),
        create_test_trade(0.0, TradeResult::Breakeven, day(2024, 1, 6)),
        create_test_trade(-10.0, l, day(2024, 1, 7)),
    ];
    let m = calculate_period_metrics(&trades);
    assert_eq!(m.max_win_streak, 2);
    assert_eq!(m.max_loss_streak, 1);
}

#[test]
fn streaks_follow_the_dates_not_the_order_given() {
    let w = TradeResult::Win;
    let l = TradeResult::Loss;
    // Given out of order; by date: W W W L L.
    let trades = vec![
        create_test_trade(-10.0, l, day(2024, 1, 5)),
        create_test_trade(10.0, w, day(2024, 1, 2)),
        create_test_trade(-10.0, l, day(2024, 1, 4)),
        create_test_trade(10.0, w, day(2024, 1, 1)),
        create_test_trade(10.0, w, day(2024, 1, 3)),
    ];
    let m = calculate_period_metrics(&trades);
    assert_eq!(m.max_win_streak, 3);
    assert_eq!(m.max_loss_streak, 2);
}

#[test]
fn same_day_trades_keep_their_order_in_streaks() {
    let w = TradeResult::Win;
    let l = TradeResult::Loss;
    let d = day(2024, 1, 1);
    let trades = vec![
        create_test_trade(10.0, w, d),
        create_test_trade(-10.0, l, d),
        create_test_trade(10.0, w, d),
        create_test_trade(10.0, w, d),
    ];
    let m = calculate_period_metrics(&trades);
    assert_eq!(m.max_win_streak, 2);
    assert_eq!(m.max_loss_streak, 1);
}

#[test]
fn daily_metrics_group_by_day() {
    let trades = vec![
        create_test_trade(-40.0, TradeResult::Loss, day(2024, 1, 16)),
        create_test_trade(1000.0, TradeResult::Win, day(2024, 1, 15)),
        create_test_trade(500.0, TradeResult::Win, day(2024, 1, 15)),
        create_test_trade(0.0, TradeResult::Breakeven, day(2024, 1, 15)),
        open_trade(day(2024, 1, 17)),
    ];
    let daily = calculate_daily_metrics(&trades);
    assert_eq!(daily.len(), 2);
    assert_eq!(daily[0].date, day(2024, 1, 15));
    assert_eq!(daily[0].realized_net_pnl.micros(), 1_500_000_000);
    assert_eq!(daily[0].trade_count, 3);
    assert_eq!(daily[0].win_count, 2);
    assert_eq!(daily[0].loss_count, 0);
    assert_eq!(daily[1].date, day(2024, 1, 16));
    assert_eq!(daily[1].realized_net_pnl.micros(), -40_000_000);
    assert_eq!(daily[1].trade_count, 1);
    assert_eq!(daily[1].win_count, 0);
    assert_eq!(daily[1].loss_count, 1);
}

#[test]
fn daily_metrics_of_nothing() {
    assert!(calculate_daily_metrics(&[]).is_empty());
    assert!(calculate_daily_metrics(&[open_trade(day(2024, 1, 1))]).is_empty());
}

#[test]
fn equity_curve_has_one_point_per_traded_day() {
    let trades = vec![
        create_test_trade(100.0, TradeResult::Win, day(2024, 2, 10)),
        create_test_trade(-30.0, TradeResult::Loss, day(2024, 2, 1)),
        create_test_trade(20.0, TradeResult::Win, day(2024, 2, 10)),
        open_trade(day(2024, 2, 5)),
        create_test_trade(-200.0, TradeResult::Loss, day(2024, 3, 1)),
    ];
    let refs: Vec<&TradeWithDerived> = trades.iter().collect();
    let curve = calculate_equity_curve(&refs);
    let expected = vec![
        EquityPoint { date: day(2024, 2, 1), cumulative_pnl: dec(-30.0), drawdown: dec(30.0) },
        EquityPoint { date: day(2024, 2, 10), cumulative_pnl: dec(90.0), drawdown: dec(0.0) },
        EquityPoint { date: day(2024, 3, 1), cumulative_pnl: dec(-110.0), drawdown: dec(200.0) },
    ];
    assert_eq!(curve, expected);
    assert_eq!(calculate_equity_curve_owned(&trades), expected);
}

#[test]
fn equity_curve_drawdown_is_distance_below_running_peak() {
    let nets = [50.0, -20.0, 80.0, -10.0, -200.0, 30.0, 400.0, -1.0];
    let mut trades = Vec::new();
    for (i, net) in nets.iter().enumerate() {
        let result = if *net > 0.0 { TradeResult::Win } else { TradeResult::Loss };
        trades.push(create_test_trade(*net, result, day(2024, 5, 1 + i as u32)));
    }
    let curve = calculate_equity_curve_owned(&trades);
    assert_eq!(curve.len(), nets.len());
    let mut peak: i64 = 0;
    let mut total: i64 = 0;
    for (i, point) in curve.iter().enumerate() {
        total += (nets[i] * 1_000_000.0) as i64;
        peak = peak.max(total);
        assert_eq!(point.cumulative_pnl.micros(), total);
        assert!(point.drawdown.micros() >= 0);
        assert_eq!(point.drawdown.micros(), peak - total);
        if i > 0 {
            assert!(curve[i - 1].date.sort_key() < point.date.sort_key());
        }
    }
    // From the first day on the cumulative value has been above zero, so
    // the peak is the largest cumulative value so far.
    let largest = curve.iter().map(|p| p.cumulative_pnl.micros()).max().unwrap();
    assert_eq!(peak, largest);
}

#[test]
fn a_curve_that_starts_with_a_loss_is_below_a_flat_account() {
    let trades = vec![create_test_trade(-100.0, TradeResult::Loss, day(2024, 1, 1))];
    let curve = calculate_equity_curve_owned(&trades);
    assert_eq!(curve.len(), 1);
    assert_eq!(curve[0].cumulative_pnl.micros(), -100_000_000);
    assert_eq!(curve[0].drawdown.micros(), 100_000_000);
}

#[test]
fn max_drawdown_of_curves() {
    assert_eq!(calculate_max_drawdown(&[]).micros(), 0);
    let curve = vec![
        EquityPoint { date: day(2024, 1, 1), cumulative_pnl: dec(10.0), drawdown: dec(0.0) },
        EquityPoint { date: day(2024, 1, 2), cumulative_pnl: dec(3.0), drawdown: dec(7.0) },
        EquityPoint { date: day(2024, 1, 3), cumulative_pnl: dec(5.0), drawdown: dec(5.0) },
    ];
    assert_eq!(calculate_max_drawdown(&curve).micros(), 7_000_000);
}

#[test]
fn totals_saturate_instead_of_wrapping() {
    let big = Decimal::from_micros(i64::MAX);
    let mut a = create_test_trade(1.0, TradeResult::Win, day(2024, 1, 1));
    a.net_pnl = Some(big);
    let mut b = create_test_trade(1.0, TradeResult::Win, day(2024, 1, 2));
    b.net_pnl = Some(big);
    let m = calculate_period_metrics(&[a, b]);
    assert_eq!(m.total_net_pnl.micros(), i64::MAX);
    assert_eq!(m.avg_win.unwrap().micros(), i64::MAX);
}
