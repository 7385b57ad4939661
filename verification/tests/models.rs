use tradebook::models::{count_for_report, AssetClass, Direction, PeriodMetrics, Status};

#[test]
fn direction_names() {
    assert_eq!(Direction::Long.as_str(), "long");
    assert_eq!(Direction::Short.as_str(), "short");
    assert_eq!(Direction::from_str("long"), Some(Direction::Long));
    assert_eq!(Direction::from_str("SHORT"), Some(Direction::Short));
    assert_eq!(Direction::from_str("Long"), Some(Direction::Long));
    assert_eq!(Direction::from_str("sideways"), None);
    assert_eq!(Direction::from_str(""), None);
    assert_eq!(Direction::from_lowercase("short"), Some(Direction::Short));
    assert_eq!(Direction::from_lowercase("Short"), None);
    for d in [Direction::Long, Direction::Short] {
        assert_eq!(Direction::from_str(d.as_str()), Some(d));
    }
}

#[test]
fn status_names() {
    assert_eq!(Status::Open.as_str(), "open");
    assert_eq!(Status::Closed.as_str(), "closed");
    assert_eq!(Status::from_str("OPEN"), Some(Status::Open));
    assert_eq!(Status::from_str("Closed"), Some(Status::Closed));
    assert_eq!(Status::from_str("close"), None);
    assert_eq!(Status::from_lowercase("closed"), Some(Status::Closed));
    assert_eq!(Status::from_lowercase("CLOSED"), None);
    for s in [Status::Open, Status::Closed] {
        assert_eq!(Status::from_str(s.as_str()), Some(s));
    }
}

#[test]
fn asset_class_names_and_multiplier() {
    assert_eq!(AssetClass::Stock.as_str(), "stock");
    assert_eq!(AssetClass::Option.as_str(), "option");
    assert_eq!(AssetClass::from_str("STOCK"), Some(AssetClass::Stock));
    assert_eq!(AssetClass::from_str("Option"), Some(AssetClass::Option));
    assert_eq!(AssetClass::from_str("future"), None);
    assert_eq!(AssetClass::from_lowercase("option"), Some(AssetClass::Option));
    assert_eq!(AssetClass::from_lowercase("OPTION"), None);
    assert_eq!(AssetClass::Stock.multiplier().micros(), 1_000_000);
    assert_eq!(AssetClass::Option.multiplier().micros(), 100_000_000);
    for a in [AssetClass::Stock, AssetClass::Option] {
        assert_eq!(AssetClass::from_str(a.as_str()), Some(a));
    }
}

#[test]
fn default_metrics_are_empty() {
    let m = PeriodMetrics::default();
    assert_eq!(m.total_net_pnl.micros(), 0);
    assert_eq!(m.trade_count, 0i32);
    assert_eq!(m.win_count, 0);
    assert_eq!(m.loss_count, 0);
    assert_eq!(m.breakeven_count, 0);
    assert!(m.win_rate.is_none());
    assert!(m.avg_win.is_none());
    assert!(m.avg_loss.is_none());
    assert!(m.profit_factor.is_none());
    assert!(m.expectancy.is_none());
    assert_eq!(m.max_drawdown.micros(), 0);
    assert_eq!(m.max_win_streak, 0);
    assert_eq!(m.max_loss_streak, 0);
}

#[test]
fn names_beyond_ascii_go_by_their_lower_case() {
    // The Kelvin sign has the small letter k.
    assert_eq!(AssetClass::from_str("stoc\u{212a}"), Some(AssetClass::Stock));
    assert_eq!(AssetClass::from_lowercase("stoc\u{212a}"), None);
    assert_eq!(Direction::from_str("LONG\u{e9}"), None);
    assert_eq!(Direction::from_str("L\u{d6}NG"), None);
    assert_eq!(Status::from_str("OPEN "), None);
}

#[test]
fn report_counts_stop_at_the_largest() {
    assert_eq!(count_for_report(0), 0);
    assert_eq!(count_for_report(7), 7);
    assert_eq!(count_for_report(2_147_483_647), i32::MAX);
    assert_eq!(count_for_report(2_147_483_648), i32::MAX);
    assert_eq!(count_for_report(usize::MAX), i32::MAX);
}
