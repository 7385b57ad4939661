use tradebook::date::Date;
use tradebook::decimal::Decimal;
use tradebook::parser::{
    parse_date, parse_option_symbol, parse_option_transaction, parse_record, parse_record_in,
    parse_stock_transaction, parse_tlg_file, OptionType, TlgAction, TlgAssetType,
};

fn num(d: Decimal) -> f64 {
    d.micros() as f64 / 1_000_000.0
}

#[test]
fn test_parse_date() {
    let date = parse_date("20260127").unwrap();
    assert_eq!(date, Date::from_ymd_opt(2026, 1, 27).unwrap());
}

#[test]
fn test_parse_date_invalid() {
    assert!(parse_date("2026012").is_err()); // Too short
    assert!(parse_date("20261327").is_err()); // Invalid month
}

#[test]
fn test_parse_option_symbol() {
    let details = parse_option_symbol("AAPL  250905C00240000").unwrap();
    assert_eq!(details.underlying, "AAPL");
    assert_eq!(details.expiration_date, Date::from_ymd_opt(2025, 9, 5).unwrap());
    assert_eq!(details.option_type, OptionType::Call);
    assert_eq!(num(details.strike_price), 240.0);
}

#[test]
fn test_parse_option_symbol_put() {
    let details = parse_option_symbol("AMD   251017P00145000").unwrap();
    assert_eq!(details.underlying, "AMD");
    assert_eq!(details.expiration_date, Date::from_ymd_opt(2025, 10, 17).unwrap());
    assert_eq!(details.option_type, OptionType::Put);
    assert_eq!(num(details.strike_price), 145.0);
}

#[test]
fn test_parse_stock_transaction() {
    let line = "STK_TRD|1055305319|AAPL|APPLE INC|DARK|BUYTOOPEN|O|20260127|09:38:25|USD|100.00|1.00|260.595|26059.50|-1.00|0.83654";
    let exec = parse_stock_transaction(line).unwrap();

    assert_eq!(exec.broker_execution_id, "1055305319");
    assert_eq!(exec.symbol, "AAPL");
    assert_eq!(exec.action, TlgAction::BuyToOpen);
    assert_eq!(exec.execution_date, Date::from_ymd_opt(2026, 1, 27).unwrap());
    assert_eq!(exec.execution_time, "09:38:25");
    assert_eq!(num(exec.quantity), 100.0);
    assert_eq!(num(exec.price), 260.595);
    assert_eq!(num(exec.fees), -1.00);
    assert_eq!(exec.asset_type, TlgAssetType::Stock);
    assert!(exec.option_details.is_none());
}

#[test]
fn test_parse_stock_transaction_sell() {
    let line = "STK_TRD|1055344297|AAPL|APPLE INC|IBKRATS|SELLTOCLOSE|C|20260127|09:49:27|USD|-70.00|1.00|260.925|-18264.75|-1.01365|0.83654";
    let exec = parse_stock_transaction(line).unwrap();

    assert_eq!(exec.action, TlgAction::SellToClose);
    assert_eq!(num(exec.quantity), -70.0);
    assert_eq!(num(exec.abs_quantity()), 70.0);
}

#[test]
fn test_parse_option_transaction() {
    let line = "OPT_TRD|931660771|AAPL  250905C00240000|AAPL 05SEP25 240 C|MEMX,MIAX|BUYTOOPEN|O|20250904|09:49:58|USD|5.00|100.00|1.45|725.00|-3.96325|0.85835";
    let exec = parse_option_transaction(line).unwrap();

    assert_eq!(exec.broker_execution_id, "931660771");
    assert_eq!(exec.symbol, "AAPL  250905C00240000");
    assert_eq!(exec.action, TlgAction::BuyToOpen);
    assert_eq!(num(exec.quantity), 5.0);
    assert_eq!(num(exec.multiplier), 100.0);
    assert_eq!(num(exec.price), 1.45);
    assert_eq!(exec.asset_type, TlgAssetType::Option);

    let details = exec.option_details.unwrap();
    assert_eq!(details.underlying, "AAPL");
    assert_eq!(details.expiration_date, Date::from_ymd_opt(2025, 9, 5).unwrap());
    assert_eq!(details.option_type, OptionType::Call);
    assert_eq!(num(details.strike_price), 240.0);
}

#[test]
fn test_tlg_action_is_opening() {
    assert!(TlgAction::BuyToOpen.is_opening());
    assert!(TlgAction::SellToOpen.is_opening());
    assert!(!TlgAction::SellToClose.is_opening());
    assert!(!TlgAction::BuyToClose.is_opening());
}

#[test]
fn test_tlg_action_is_closing() {
    assert!(!TlgAction::BuyToOpen.is_closing());
    assert!(!TlgAction::SellToOpen.is_closing());
    assert!(TlgAction::SellToClose.is_closing());
    assert!(TlgAction::BuyToClose.is_closing());
}

#[test]
fn test_parse_tlg_file() {
    let content = r#"ACCOUNT_INFORMATION
ACT_INF|U6498184|Test User|Individual|Address

STOCK_TRANSACTIONS
STK_TRD|1055305319|AAPL|APPLE INC|DARK|BUYTOOPEN|O|20260127|09:38:25|USD|100.00|1.00|260.595|26059.50|-1.00|0.83654
STK_TRD|1055344297|AAPL|APPLE INC|IBKRATS|SELLTOCLOSE|C|20260127|09:49:27|USD|-70.00|1.00|260.925|-18264.75|-1.01365|0.83654

OPTION_TRANSACTIONS
OPT_TRD|931660771|AAPL  250905C00240000|AAPL 05SEP25 240 C|MEMX,MIAX|BUYTOOPEN|O|20250904|09:49:58|USD|5.00|100.00|1.45|725.00|-3.96325|0.85835
"#;

    let result = parse_tlg_file(content);

    assert_eq!(result.executions.len(), 3);
    assert!(result.errors.is_empty());

    // First execution is stock buy
    assert_eq!(result.executions[0].symbol, "AAPL");
    assert_eq!(result.executions[0].asset_type, TlgAssetType::Stock);

    // Third execution is option
    assert_eq!(result.executions[2].asset_type, TlgAssetType::Option);
}

#[test]
fn tlg_action_is_buy() {
    assert!(TlgAction::BuyToOpen.is_buy());
    assert!(TlgAction::BuyToClose.is_buy());
    assert!(!TlgAction::SellToOpen.is_buy());
    assert!(!TlgAction::SellToClose.is_buy());
}

#[test]
fn tlg_action_from_str_ignores_case() {
    assert_eq!(TlgAction::from_str("BUYTOOPEN"), Some(TlgAction::BuyToOpen));
    assert_eq!(TlgAction::from_str("buytoopen"), Some(TlgAction::BuyToOpen));
    assert_eq!(TlgAction::from_str("SellToClose"), Some(TlgAction::SellToClose));
    assert_eq!(TlgAction::from_str("selltoopen"), Some(TlgAction::SellToOpen));
    assert_eq!(TlgAction::from_str("BuyToClose"), Some(TlgAction::BuyToClose));
    assert_eq!(TlgAction::from_str("BUY"), None);
    assert_eq!(TlgAction::from_str(""), None);
    assert_eq!(TlgAction::from_str(" BUYTOOPEN"), None);
}

#[test]
fn tlg_action_from_uppercase_is_exact() {
    assert_eq!(TlgAction::from_uppercase("BUYTOCLOSE"), Some(TlgAction::BuyToClose));
    assert_eq!(TlgAction::from_uppercase("buytoclose"), None);
}

#[test]
fn parse_date_wants_eight_digits_of_a_real_day() {
    assert_eq!(parse_date("2026012").unwrap_err(), "Invalid date format: 2026012");
    assert_eq!(parse_date("202601270").unwrap_err(), "Invalid date format: 202601270");
    assert_eq!(parse_date("").unwrap_err(), "Invalid date format: ");
    assert_eq!(parse_date("2O260127").unwrap_err(), "Invalid year in date: 2O260127");
    assert_eq!(parse_date("+0260127").unwrap_err(), "Invalid year in date: +0260127");
    assert_eq!(parse_date("2026x127").unwrap_err(), "Invalid month in date: 2026x127");
    assert_eq!(parse_date("202601-7").unwrap_err(), "Invalid day in date: 202601-7");
    assert_eq!(parse_date("20261327").unwrap_err(), "Invalid date: 20261327");
    assert_eq!(parse_date("20260230").unwrap_err(), "Invalid date: 20260230");
    assert_eq!(parse_date("20260100").unwrap_err(), "Invalid date: 20260100");
    assert_eq!(parse_date("20230229").unwrap_err(), "Invalid date: 20230229");
    assert_eq!(parse_date("20240229").unwrap(), Date::from_ymd_opt(2024, 2, 29).unwrap());
    assert_eq!(parse_date("00000101").unwrap(), Date::from_ymd_opt(0, 1, 1).unwrap());
}

#[test]
fn option_symbol_is_trimmed_and_scanned_for_the_expiry() {
    let d = parse_option_symbol("  SPXW  240119P04700000  ").unwrap();
    assert_eq!(d.underlying, "SPXW");
    assert_eq!(d.expiration_date, Date::from_ymd_opt(2024, 1, 19).unwrap());
    assert_eq!(d.option_type, OptionType::Put);
    assert_eq!(d.strike_price.micros(), 4_700_000_000);

    // The underlying may hold digits; the first six digits before C or P count.
    let d = parse_option_symbol("BRK2 991231C00000500").unwrap();
    assert_eq!(d.underlying, "BRK2");
    assert_eq!(d.expiration_date, Date::from_ymd_opt(2099, 12, 31).unwrap());
    assert_eq!(d.strike_price.micros(), 500_000);

    // No padding at all.
    let d = parse_option_symbol("F250620C00012500").unwrap();
    assert_eq!(d.underlying, "F");
    assert_eq!(d.strike_price.micros(), 12_500_000);
}

#[test]
fn option_symbol_errors() {
    assert_eq!(
        parse_option_symbol("AAPL").unwrap_err(),
        "Could not find date portion in option symbol: AAPL"
    );
    assert_eq!(
        parse_option_symbol("  AAPL 2509C00240000 ").unwrap_err(),
        "Could not find date portion in option symbol: AAPL 2509C00240000"
    );
    // Nothing stands before the expiry.
    assert_eq!(
        parse_option_symbol("250905C00240000").unwrap_err(),
        "Empty underlying symbol in option contract: 250905C00240000"
    );
    assert_eq!(
        parse_option_symbol("  250230P1 ").unwrap_err(),
        "Empty underlying symbol in option contract: 250230P1"
    );
    assert_eq!(
        parse_option_symbol("AAPL  250230C00240000").unwrap_err(),
        "Invalid expiration date: 250230"
    );
    assert_eq!(
        parse_option_symbol("AAPL  251305C00240000").unwrap_err(),
        "Invalid expiration date: 251305"
    );
    assert_eq!(parse_option_symbol("AAPL  250905C").unwrap_err(), "Invalid strike price: ");
    assert_eq!(
        parse_option_symbol("AAPL  250905C0024x000").unwrap_err(),
        "Invalid strike price: 0024x000"
    );
    assert_eq!(
        parse_option_symbol("AAPL  250905C240.5").unwrap_err(),
        "Invalid strike price: 240.5"
    );
    assert_eq!(
        parse_option_symbol("AAPL  250905C99999999999999999999").unwrap_err(),
        "Invalid strike price: 99999999999999999999"
    );
    assert_eq!(
        parse_option_symbol("AAPL  250905C9223372036854776").unwrap_err(),
        "Invalid strike price: 9223372036854776"
    );
    assert_eq!(
        parse_option_symbol("AAPL  250905C9223372036854775").unwrap().strike_price.micros(),
        9_223_372_036_854_775_000
    );
}

#[test]
fn decoded_symbol_writes_back_to_its_digits() {
    for symbol in ["AAPL  250905C00240000", "AMD   251017P00145000", "X 000101P1", "F250620C00012500"] {
        let d = parse_option_symbol(symbol).unwrap();
        let mark = symbol
            .char_indices()
            .position(|(i, _)| {
                let rest = &symbol[i..];
                rest.len() >= 7
                    && rest[..6].chars().all(|c| c.is_ascii_digit())
                    && matches!(rest.as_bytes()[6], b'C' | b'P')
            })
            .unwrap();
        let expiry = &symbol[mark..mark + 6];
        let strike = &symbol[mark + 7..];
        let date = d.expiration_date;
        assert_eq!(format!("{:02}{:02}{:02}", date.year() - 2000, date.month(), date.day()), expiry);
        let thousandths = d.strike_price.micros() / 1000;
        assert_eq!(format!("{:0width$}", thousandths, width = strike.len()), strike);
    }
}

#[test]
fn stock_transaction_errors() {
    let good = "STK_TRD|1|AAPL|APPLE INC|DARK|BUYTOOPEN|O|20260127|09:38:25|USD|100.00|1.00|260.595|26059.50|-1.00|0.83654";
    assert!(parse_stock_transaction(good).is_ok());

    let with = |index: usize, value: &str| -> String {
        let mut fields: Vec<&str> = good.split('|').collect();
        fields[index] = value;
        fields.join("|")
    };

    assert_eq!(
        parse_stock_transaction("STK_TRD|1|AAPL").unwrap_err(),
        "Invalid stock transaction: expected 16 fields, got 3"
    );
    assert_eq!(
        parse_stock_transaction(&format!("{}|extra", good)).unwrap_err(),
        "Invalid stock transaction: expected 16 fields, got 17"
    );
    assert_eq!(parse_stock_transaction(&with(5, "HOLD")).unwrap_err(), "Unknown action: HOLD");
    assert_eq!(
        parse_stock_transaction(&with(7, "20260230")).unwrap_err(),
        "Invalid date: 20260230"
    );
    assert_eq!(
        parse_stock_transaction(&with(7, "2026-01-27")).unwrap_err(),
        "Invalid date format: 2026-01-27"
    );
    assert_eq!(parse_stock_transaction(&with(10, "ten")).unwrap_err(), "Invalid quantity: ten");
    assert_eq!(parse_stock_transaction(&with(11, "")).unwrap_err(), "Invalid multiplier: ");
    assert_eq!(parse_stock_transaction(&with(12, "1.2.3")).unwrap_err(), "Invalid price: 1.2.3");
    assert_eq!(parse_stock_transaction(&with(13, "1e")).unwrap_err(), "Invalid total: 1e");
    assert_eq!(parse_stock_transaction(&with(13, "inf")).unwrap_err(), "Invalid total: inf");
    assert_eq!(parse_stock_transaction(&with(13, "2.60595e4")).unwrap().total.micros(), 26_059_500_000);
    assert_eq!(parse_stock_transaction(&with(14, "-")).unwrap_err(), "Invalid fees: -");
    // The action is checked before the date, the date before the numbers.
    assert_eq!(
        parse_stock_transaction(&with(5, "HOLD").replace("20260127", "x")).unwrap_err(),
        "Unknown action: HOLD"
    );
}

#[test]
fn option_transaction_errors() {
    assert_eq!(
        parse_option_transaction("OPT_TRD|1").unwrap_err(),
        "Invalid option transaction: expected 16 fields, got 2"
    );
    let bad_symbol = "OPT_TRD|1|AAPL|AAPL 05SEP25 240 C|MEMX|BUYTOOPEN|O|20250904|09:49:58|USD|5.00|100.00|1.45|725.00|-3.96|0.85";
    assert_eq!(
        parse_option_transaction(bad_symbol).unwrap_err(),
        "Could not find date portion in option symbol: AAPL"
    );
    // A stock record does not decode its symbol.
    assert!(parse_stock_transaction(&bad_symbol.replace("OPT_TRD", "STK_TRD")).is_ok());
}

#[test]
fn fx_rate_may_be_left_out() {
    let none = "STK_TRD|1|AAPL|APPLE INC|DARK|buytoopen|O|20260127|09:38:25|USD|100|1|260.595|26059.50|-1|";
    let exec = parse_stock_transaction(none).unwrap();
    assert!(exec.fx_rate.is_none());
    assert_eq!(exec.action, TlgAction::BuyToOpen);
    let unreadable = "STK_TRD|1|AAPL|APPLE INC|DARK|BUYTOOPEN|O|20260127|09:38:25|USD|100|1|260.595|26059.50|-1|n/a";
    assert!(parse_stock_transaction(unreadable).unwrap().fx_rate.is_none());
    let given = "STK_TRD|1|AAPL|APPLE INC|DARK|BUYTOOPEN|O|20260127|09:38:25|USD|100|1|260.595|26059.50|-1|0.83654";
    assert_eq!(parse_stock_transaction(given).unwrap().fx_rate.unwrap().micros(), 836_540);
}

#[test]
fn execution_accessors() {
    let stock = parse_stock_transaction(
        "STK_TRD|1|AAPL|APPLE INC|DARK|SELLTOCLOSE|C|20260127|09:49:27|USD|-70.00|1.00|260.925|-18264.75|-1.01365|0.83654",
    )
    .unwrap();
    assert_eq!(stock.abs_quantity().micros(), 70_000_000);
    assert_eq!(stock.abs_fees().micros(), 1_013_650);
    assert_eq!(stock.underlying_symbol(), "AAPL");
    let option = parse_option_transaction(
        "OPT_TRD|2|AMD   251017P00145000|AMD 17OCT25 145 P|MEMX|BUYTOOPEN|O|20250904|09:49:58|USD|5.00|100.00|1.45|725.00|-3.96325|0.85835",
    )
    .unwrap();
    assert_eq!(option.symbol, "AMD   251017P00145000");
    assert_eq!(option.underlying_symbol(), "AMD");
}

#[test]
fn malformed_line_is_reported_and_the_rest_is_read() {
    let content = "HEADER\n\
STK_TRD|1001|AAPL|APPLE INC|DARK|BUYTOOPEN|O|20260127|09:30:00|USD|100.00|1.00|150.00|15000.00|-1.00|0.85\n\
STK_TRD|1002|AAPL|APPLE INC|DARK|SELLTOCLOSE\n\
\n\
   OPT_TRD|1003|AAPL  250905C00240000|AAPL 05SEP25 240 C|MEMX|BUYTOOPEN|O|20250904|09:30:00|USD|5.00|100.00|1.50|750.00|-4.00|0.85  \r\n\
STK_TRD|1004|MSFT|MICROSOFT|DARK|BUYTOOPEN|O|20261301|09:30:00|USD|50.00|1.00|400.00|20000.00|-1.00|0.85\n\
STK_TRD|1005|MSFT|MICROSOFT|DARK|BUYTOOPEN|O|20260128|09:30:00|USD|50.00|1.00|400.00|20000.00|-1.00|0.85";
    let result = parse_tlg_file(content);
    assert_eq!(result.executions.len(), 3);
    assert_eq!(result.executions[0].broker_execution_id, "1001");
    assert_eq!(result.executions[1].broker_execution_id, "1003");
    assert_eq!(result.executions[2].broker_execution_id, "1005");
    assert_eq!(result.errors.len(), 2);
    assert_eq!(result.errors[0].line_number, 3);
    assert_eq!(result.errors[0].line_content, "STK_TRD|1002|AAPL|APPLE INC|DARK|SELLTOCLOSE");
    assert_eq!(
        result.errors[0].error,
        "Invalid stock transaction: expected 16 fields, got 6"
    );
    assert_eq!(result.errors[1].line_number, 6);
    assert_eq!(result.errors[1].error, "Invalid date: 20261301");
}

#[test]
fn parsing_twice_gives_the_same_result() {
    let content = "STK_TRD|1|A|a|X|BUYTOOPEN|O|20260127|09:30:00|USD|1|1|1|1|-1|\nSTK_TRD|bad\nnoise\n";
    let first = parse_tlg_file(content);
    let second = parse_tlg_file(content);
    assert_eq!(first.executions.len(), second.executions.len());
    assert_eq!(first.errors.len(), 1);
    assert_eq!(first.errors[0].line_number, second.errors[0].line_number);
    assert_eq!(first.errors[0].error, second.errors[0].error);
    assert_eq!(first.errors[0].line_content, second.errors[0].line_content);
}

#[test]
fn empty_file_has_nothing() {
    let result = parse_tlg_file("");
    assert!(result.executions.is_empty());
    assert!(result.errors.is_empty());
    let result = parse_tlg_file("\n\n  \n");
    assert!(result.executions.is_empty());
    assert!(result.errors.is_empty());
}

#[test]
fn action_names_beyond_ascii_go_by_their_upper_case() {
    // The long s has the capital S.
    assert_eq!(TlgAction::from_str("\u{17f}elltoopen"), Some(TlgAction::SellToOpen));
    assert_eq!(TlgAction::from_str("BUYTOOPEN\u{e9}"), None);
    assert_eq!(TlgAction::from_str("buy to open"), None);
}

#[test]
fn record_with_its_action_handed_in() {
    let line = "STK_TRD|1|AAPL|APPLE INC|DARK|whatever|O|20260127|09:38:25|USD|100.00|1.00|260.595|26059.50|-1.00|0.83654";
    let exec = parse_record(line, TlgAssetType::Stock, Some(TlgAction::SellToOpen)).unwrap();
    assert_eq!(exec.action, TlgAction::SellToOpen);
    assert_eq!(exec.symbol, "AAPL");
    assert_eq!(exec.price.micros(), 260_595_000);
    assert!(exec.option_details.is_none());
    assert_eq!(
        parse_record(line, TlgAssetType::Stock, None).unwrap_err(),
        "Unknown action: whatever"
    );
    assert_eq!(parse_stock_transaction(line).unwrap_err(), "Unknown action: whatever");
    // The number of fields comes first, the symbol of an option last.
    assert_eq!(
        parse_record("OPT_TRD|1|AAPL", TlgAssetType::Option, None).unwrap_err(),
        "Invalid option transaction: expected 16 fields, got 3"
    );
    assert_eq!(
        parse_record(line, TlgAssetType::Option, Some(TlgAction::BuyToOpen)).unwrap_err(),
        "Could not find date portion in option symbol: AAPL"
    );
    let chars: Vec<char> = format!("  {line}\n").chars().collect();
    let exec =
        parse_record_in(&chars, 2, chars.len() - 1, TlgAssetType::Stock, Some(TlgAction::BuyToClose))
            .unwrap();
    assert_eq!(exec.action, TlgAction::BuyToClose);
    assert_eq!(exec.broker_execution_id, "1");
}
