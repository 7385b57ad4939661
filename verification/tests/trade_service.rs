use tradebook::date::Date;
use tradebook::decimal::Decimal;
use tradebook::models::{CreateTradeInput, Direction, ExitExecution, Status};
use tradebook::pnl::calculate_gross_pnl;
use tradebook::trade_service::TradeService;

fn dec(x: f64) -> Decimal {
    Decimal::from_micros((x * 1_000_000.0).round() as i64)
}

fn valid_input() -> CreateTradeInput {
    CreateTradeInput {
        account_id: "acc1".to_string(),
        symbol: "AAPL".to_string(),
        asset_class: None,
        trade_number: Some(1),
        trade_date: Date::from_ymd_opt(2024, 1, 15).unwrap(),
        direction: Direction::Long,
        quantity: Some(dec(100.0)),
        entry_price: dec(150.0),
        exit_price: Some(dec(155.0)),
        stop_loss_price: Some(dec(145.0)),
        entry_time: None,
        exit_time: None,
        fees: Some(dec(10.0)),
        strategy: Some("momentum".to_string()),
        notes: None,
        status: Some(Status::Closed),
        exits: None,
    }
}

fn exit(quantity: f64, price: f64, fees: Option<f64>, time: Option<&str>) -> ExitExecution {
    ExitExecution {
        id: None,
        exit_date: Date::from_ymd_opt(2024, 1, 16).unwrap(),
        exit_time: time.map(|t| t.to_string()),
        quantity: dec(quantity),
        price: dec(price),
        fees: fees.map(dec),
    }
}

#[test]
fn test_validate_input_valid() {
    let input = valid_input();
    assert!(TradeService::validate_input(&input).is_ok());
}

#[test]
fn test_validate_input_zero_entry_price() {
    let mut input = valid_input();
    input.entry_price = dec(0.0);
    let result = TradeService::validate_input(&input);
    assert!(result.is_err());
    assert_eq!(result.unwrap_err(), "Entry price must be greater than 0");
}

#[test]
fn test_validate_input_negative_entry_price() {
    let mut input = valid_input();
    input.entry_price = dec(-10.0);
    let result = TradeService::validate_input(&input);
    assert!(result.is_err());
    assert_eq!(result.unwrap_err(), "Entry price must be greater than 0");
}

#[test]
fn test_validate_input_zero_quantity() {
    let mut input = valid_input();
    input.quantity = Some(dec(0.0));
    let result = TradeService::validate_input(&input);
    assert!(result.is_err());
    assert_eq!(result.unwrap_err(), "Quantity must be greater than 0");
}

#[test]
fn test_validate_input_negative_quantity() {
    let mut input = valid_input();
    input.quantity = Some(dec(-50.0));
    let result = TradeService::validate_input(&input);
    assert!(result.is_err());
    assert_eq!(result.unwrap_err(), "Quantity must be greater than 0");
}

#[test]
fn test_validate_input_none_quantity_ok() {
    let mut input = valid_input();
    input.quantity = None;
    assert!(TradeService::validate_input(&input).is_ok());
}

#[test]
fn test_validate_input_zero_exit_price() {
    let mut input = valid_input();
    input.exit_price = Some(dec(0.0));
    let result = TradeService::validate_input(&input);
    assert!(result.is_err());
    assert_eq!(result.unwrap_err(), "Exit price must be greater than 0");
}

#[test]
fn test_validate_input_negative_exit_price() {
    let mut input = valid_input();
    input.exit_price = Some(dec(-100.0));
    let result = TradeService::validate_input(&input);
    assert!(result.is_err());
    assert_eq!(result.unwrap_err(), "Exit price must be greater than 0");
}

#[test]
fn test_validate_input_none_exit_price_ok() {
    let mut input = valid_input();
    input.exit_price = None;
    assert!(TradeService::validate_input(&input).is_ok());
}

#[test]
fn test_validate_input_zero_stop_loss() {
    let mut input = valid_input();
    input.stop_loss_price = Some(dec(0.0));
    let result = TradeService::validate_input(&input);
    assert!(result.is_err());
    assert_eq!(result.unwrap_err(), "Stop loss price must be greater than 0");
}

#[test]
fn test_validate_input_negative_stop_loss() {
    let mut input = valid_input();
    input.stop_loss_price = Some(dec(-5.0));
    let result = TradeService::validate_input(&input);
    assert!(result.is_err());
    assert_eq!(result.unwrap_err(), "Stop loss price must be greater than 0");
}

#[test]
fn test_validate_input_none_stop_loss_ok() {
    let mut input = valid_input();
    input.stop_loss_price = None;
    assert!(TradeService::validate_input(&input).is_ok());
}

#[test]
fn test_validate_input_negative_fees() {
    let mut input = valid_input();
    input.fees = Some(dec(-1.0));
    let result = TradeService::validate_input(&input);
    assert!(result.is_err());
    assert_eq!(result.unwrap_err(), "Fees cannot be negative");
}

#[test]
fn test_validate_input_zero_fees_ok() {
    let mut input = valid_input();
    input.fees = Some(dec(0.0));
    assert!(TradeService::validate_input(&input).is_ok());
}

#[test]
fn test_validate_input_none_fees_ok() {
    let mut input = valid_input();
    input.fees = None;
    assert!(TradeService::validate_input(&input).is_ok());
}

#[test]
fn test_validate_input_minimal_valid() {
    let input = CreateTradeInput {
        account_id: "acc1".to_string(),
        symbol: "TSLA".to_string(),
        asset_class: None,
        trade_number: None,
        trade_date: Date::from_ymd_opt(2024, 6, 1).unwrap(),
        direction: Direction::Short,
        quantity: None,
        entry_price: dec(200.0),
        exit_price: None,
        stop_loss_price: None,
        entry_time: None,
        exit_time: None,
        fees: None,
        strategy: None,
        notes: None,
        status: None,
        exits: None,
    };
    assert!(TradeService::validate_input(&input).is_ok());
}

#[test]
fn first_fault_is_reported() {
    let mut input = valid_input();
    input.entry_price = dec(0.0);
    input.quantity = Some(dec(0.0));
    input.fees = Some(dec(-1.0));
    assert_eq!(
        TradeService::validate_input(&input).unwrap_err(),
        "Entry price must be greater than 0"
    );
    input.entry_price = dec(1.0);
    assert_eq!(
        TradeService::validate_input(&input).unwrap_err(),
        "Quantity must be greater than 0"
    );
}

#[test]
fn exits_are_checked_in_turn() {
    let mut input = valid_input();
    input.exits = Some(vec![]);
    assert!(TradeService::validate_input(&input).is_ok());
    input.exits = Some(vec![exit(60.0, 110.0, Some(0.0), None), exit(40.0, 115.0, None, None)]);
    assert!(TradeService::validate_input(&input).is_ok());

    input.exits = Some(vec![exit(60.0, 110.0, None, None), exit(0.0, 115.0, None, None)]);
    assert_eq!(
        TradeService::validate_input(&input).unwrap_err(),
        "Exit 2 quantity must be greater than 0"
    );
    input.exits = Some(vec![exit(-1.0, 0.0, Some(-1.0), None)]);
    assert_eq!(
        TradeService::validate_input(&input).unwrap_err(),
        "Exit 1 quantity must be greater than 0"
    );
    input.exits = Some(vec![exit(1.0, 0.0, Some(-1.0), None)]);
    assert_eq!(
        TradeService::validate_input(&input).unwrap_err(),
        "Exit 1 price must be greater than 0"
    );
    input.exits = Some(vec![exit(1.0, 1.0, Some(-0.01), None)]);
    assert_eq!(
        TradeService::validate_input(&input).unwrap_err(),
        "Exit 1 fees cannot be negative"
    );
    let mut many: Vec<ExitExecution> = (0..11).map(|_| exit(1.0, 1.0, None, None)).collect();
    many.push(exit(1.0, -3.0, None, None));
    many.push(exit(-1.0, 1.0, None, None));
    input.exits = Some(many);
    assert_eq!(
        TradeService::validate_input(&input).unwrap_err(),
        "Exit 12 price must be greater than 0"
    );
    // The trade's own fields come first.
    input.fees = Some(dec(-1.0));
    assert_eq!(TradeService::validate_input(&input).unwrap_err(), "Fees cannot be negative");
}

#[test]
fn no_exits_leave_everything_unset() {
    let mut input = valid_input();
    assert_eq!(TradeService::process_exits(&input).unwrap(), (None, None, None, None));
    input.exits = Some(vec![]);
    assert_eq!(TradeService::process_exits(&input).unwrap(), (None, None, None, None));
}

#[test]
fn two_partial_exits_close_the_trade() {
    // 60 at 110 and 40 at 115 on a long entry of 100 at 100.
    let mut input = valid_input();
    input.entry_price = dec(100.0);
    input.exits = Some(vec![
        exit(60.0, 110.0, Some(1.5), Some("10:15:00")),
        exit(40.0, 115.0, None, Some("09:45:00")),
    ]);
    let (price, time, fees, status) = TradeService::process_exits(&input).unwrap();
    assert_eq!(price.unwrap().micros(), 112_000_000);
    assert_eq!(time, Some("10:15:00".to_string()));
    assert_eq!(fees.unwrap().micros(), 1_500_000);
    assert_eq!(status, Some(Status::Closed));
    let gross = calculate_gross_pnl(
        Direction::Long,
        input.entry_price,
        price.unwrap(),
        input.quantity.unwrap(),
        dec(1.0),
    );
    assert_eq!(gross.micros(), 1_200_000_000);
}

#[test]
fn a_partial_exit_leaves_the_trade_open() {
    let mut input = valid_input();
    input.exits = Some(vec![exit(60.0, 110.0, Some(0.0), None)]);
    let (price, time, fees, status) = TradeService::process_exits(&input).unwrap();
    assert_eq!(price.unwrap().micros(), 110_000_000);
    assert!(time.is_none());
    assert!(fees.is_none());
    assert_eq!(status, Some(Status::Open));
}

#[test]
fn status_at_the_tolerance() {
    let mut input = valid_input();
    // 0.0001 short of the entry: not yet closed.
    input.exits = Some(vec![exit(99.9999, 110.0, None, None)]);
    assert_eq!(TradeService::process_exits(&input).unwrap().3, Some(Status::Open));
    // Less than 0.0001 short: closed.
    input.exits = Some(vec![ExitExecution {
        quantity: Decimal::from_micros(99_999_901),
        ..exit(1.0, 110.0, None, None)
    }]);
    assert_eq!(TradeService::process_exits(&input).unwrap().3, Some(Status::Closed));
}

#[test]
fn exits_without_an_entered_quantity_set_no_status() {
    let mut input = valid_input();
    input.quantity = None;
    input.exits = Some(vec![exit(60.0, 110.0, None, Some("b")), exit(40.0, 120.0, None, Some("a"))]);
    let (price, time, _, status) = TradeService::process_exits(&input).unwrap();
    assert_eq!(price.unwrap().micros(), 114_000_000);
    assert_eq!(time, Some("b".to_string()));
    assert!(status.is_none());
}

#[test]
fn exits_may_not_exceed_the_entry() {
    let mut input = valid_input();
    input.exits = Some(vec![exit(60.0, 110.0, None, None), exit(60.5, 115.0, None, None)]);
    assert_eq!(
        TradeService::process_exits(&input).unwrap_err(),
        "Total exit quantity (120.5) cannot exceed entry quantity (100)"
    );
    input.quantity = Some(Decimal::from_micros(100_000_001));
    input.exits = Some(vec![exit(100.25, 110.0, None, None)]);
    assert_eq!(
        TradeService::process_exits(&input).unwrap_err(),
        "Total exit quantity (100.25) cannot exceed entry quantity (100.000001)"
    );
}

#[test]
fn prepare_trade_folds_the_exits_in() {
    let mut input = valid_input();
    input.entry_price = dec(100.0);
    input.exit_price = None;
    input.exit_time = Some("08:00:00".to_string());
    input.status = Some(Status::Open);
    input.fees = Some(dec(2.0));
    input.exits = Some(vec![
        exit(60.0, 110.0, Some(1.0), Some("10:15:00")),
        exit(40.0, 115.0, Some(0.5), Some("11:00:00")),
    ]);
    let out = TradeService::prepare_trade(input).unwrap();
    assert_eq!(out.exit_price.unwrap().micros(), 112_000_000);
    assert_eq!(out.exit_time, Some("11:00:00".to_string()));
    assert_eq!(out.fees.unwrap().micros(), 3_500_000);
    assert_eq!(out.status, Some(Status::Closed));
    assert_eq!(out.symbol, "AAPL");
    assert_eq!(out.quantity.unwrap().micros(), 100_000_000);
    assert_eq!(out.exits.unwrap().len(), 2);
}

#[test]
fn prepare_trade_without_exits_changes_nothing() {
    let out = TradeService::prepare_trade(valid_input()).unwrap();
    assert_eq!(out.exit_price.unwrap().micros(), 155_000_000);
    assert!(out.exit_time.is_none());
    assert_eq!(out.fees.unwrap().micros(), 10_000_000);
    assert_eq!(out.status, Some(Status::Closed));
}

#[test]
fn prepare_trade_refuses_what_is_not_valid() {
    let mut input = valid_input();
    input.exits = Some(vec![exit(60.0, -1.0, None, None)]);
    assert_eq!(
        TradeService::prepare_trade(input).unwrap_err(),
        "Exit 1 price must be greater than 0"
    );
    let mut input = valid_input();
    input.exits = Some(vec![exit(160.0, 1.0, None, None)]);
    assert_eq!(
        TradeService::prepare_trade(input).unwrap_err(),
        "Total exit quantity (160) cannot exceed entry quantity (100)"
    );
}
