//! The records that the journal works on: trades, their derived figures, and
//! the reports built from them.

use crate::date::Date;
use crate::decimal::{Decimal, SCALE};
use crate::text::{lemma_small_letters_stay_in_lower_case, lower_case, same_text, to_lowercase};
use vstd::prelude::*;

verus! {

/// Trade direction.
#[derive(Clone, Copy, Debug, PartialEq, Eq, Structural)]
pub enum Direction {
    Long,
    Short,
}

impl Direction {
    /// The name under which the direction is stored.
    pub open spec fn text(self) -> Seq<char> {
        match self {
            Direction::Long => "long"@,
            Direction::Short => "short"@,
        }
    }

    /// The direction stored under exactly the name `t`.
    pub open spec fn named(t: Seq<char>) -> Option<Direction> {
        if t == "long"@ {
            Some(Direction::Long)
        } else if t == "short"@ {
            Some(Direction::Short)
        } else {
            None
        }
    }

    /// The name under which the value is stored.
    pub fn as_str(&self) -> (r: &'static str)
        ensures
            r@ == self.text(),
    {
        match self {
            Direction::Long => "long",
            Direction::Short => "short",
        }
    }

    /// Reads a name that is already in lower case.
    pub fn from_lowercase(s: &str) -> (r: Option<Direction>)
        ensures
            r == Self::named(s@),
    {
        if same_text(s, "long") {
            Some(Direction::Long)
        } else if same_text(s, "short") {
            Some(Direction::Short)
        } else {
            None
        }
    }

    /// Reads a name in any mix of upper and lower case.
    pub fn from_str(s: &str) -> (r: Option<Direction>)
        ensures
            r == Self::named(lower_case(s@)),
    {
        let lower = to_lowercase(s);
        Self::from_lowercase(lower.as_str())
    }
}

/// Every direction is read back from its own name, with and without the
/// step to lower case.
pub proof fn lemma_direction_name_round_trip(d: Direction)
    ensures
        Direction::named(d.text()) == Some(d),
        Direction::named(lower_case(d.text())) == Some(d),
{
    reveal_strlit("long");
    reveal_strlit("short");
    assert("long"@.len() != "short"@.len());
    lemma_small_letters_stay_in_lower_case(d.text());
}

/// Trade status.
#[derive(Clone, Copy, Debug, PartialEq, Eq, Structural)]
pub enum Status {
    Open,
    Closed,
}

impl Status {
    /// The name under which the status is stored.
    pub open spec fn text(self) -> Seq<char> {
        match self {
            Status::Open => "open"@,
            Status::Closed => "closed"@,
        }
    }

    /// The status stored under exactly the name `t`.
    pub open spec fn named(t: Seq<char>) -> Option<Status> {
        if t == "open"@ {
            Some(Status::Open)
        } else if t == "closed"@ {
            Some(Status::Closed)
        } else {
            None
        }
    }

    /// The name under which the value is stored.
    pub fn as_str(&self) -> (r: &'static str)
        ensures
            r@ == self.text(),
    {
        match self {
            Status::Open => "open",
            Status::Closed => "closed",
        }
    }

    /// Reads a name that is already in lower case.
    pub fn from_lowercase(s: &str) -> (r: Option<Status>)
        ensures
            r == Self::named(s@),
    {
        if same_text(s, "open") {
            Some(Status::Open)
        } else if same_text(s, "closed") {
            Some(Status::Closed)
        } else {
            None
        }
    }

    /// Reads a name in any mix of upper and lower case.
    pub fn from_str(s: &str) -> (r: Option<Status>)
        ensures
            r == Self::named(lower_case(s@)),
    {
        let lower = to_lowercase(s);
        Self::from_lowercase(lower.as_str())
    }
}

/// Every status is read back from its own name, with and without the step
/// to lower case.
pub proof fn lemma_status_name_round_trip(s: Status)
    ensures
        Status::named(s.text()) == Some(s),
        Status::named(lower_case(s.text())) == Some(s),
{
    reveal_strlit("open");
    reveal_strlit("closed");
    assert("open"@.len() != "closed"@.len());
    lemma_small_letters_stay_in_lower_case(s.text());
}

/// Trade result classification.
#[derive(Clone, Copy, Debug, PartialEq, Eq, Structural)]
pub enum TradeResult {
    Win,
    Loss,
    Breakeven,
}

/// Asset class of the traded instrument.
#[derive(Clone, Copy, Debug, PartialEq, Eq, Structural)]
pub enum AssetClass {
    Stock,
    Option,
}

impl AssetClass {
    /// The name under which the asset class is stored.
    pub open spec fn text(self) -> Seq<char> {
        match self {
            AssetClass::Stock => "stock"@,
            AssetClass::Option => "option"@,
        }
    }

    /// The asset class stored under exactly the name `t`.
    pub open spec fn named(t: Seq<char>) -> Option<AssetClass> {
        if t == "stock"@ {
            Some(AssetClass::Stock)
        } else if t == "option"@ {
            Some(AssetClass::Option)
        } else {
            None
        }
    }

    /// Units of the underlying that one unit of quantity stands for: 1 for a
    /// share, 100 for an option contract.
    pub open spec fn contract_size(self) -> int {
        match self {
            AssetClass::Stock => 1,
            AssetClass::Option => 100,
        }
    }

    /// The contract multiplier as an amount, in millionths.
    pub open spec fn multiplier_micros(self) -> int {
        self.contract_size() * SCALE
    }

    /// The name under which the value is stored.
    pub fn as_str(&self) -> (r: &'static str)
        ensures
            r@ == self.text(),
    {
        match self {
            AssetClass::Stock => "stock",
            AssetClass::Option => "option",
        }
    }

    /// Reads a name that is already in lower case.
    pub fn from_lowercase(s: &str) -> (r: Option<AssetClass>)
        ensures
            r == Self::named(s@),
    {
        if same_text(s, "stock") {
            Some(AssetClass::Stock)
        } else if same_text(s, "option") {
            Some(AssetClass::Option)
        } else {
            None
        }
    }

    /// Reads a name in any mix of upper and lower case.
    pub fn from_str(s: &str) -> (r: Option<AssetClass>)
        ensures
            r == Self::named(lower_case(s@)),
    {
        let lower = to_lowercase(s);
        Self::from_lowercase(lower.as_str())
    }

    /// The contract multiplier for this asset class, as an amount.
    pub fn multiplier(&self) -> (r: Decimal)
        ensures
            r@ == self.multiplier_micros(),
    {
        match self {
            AssetClass::Stock => Decimal::from_micros(1_000_000),
            AssetClass::Option => Decimal::from_micros(100_000_000),
        }
    }
}

/// Every asset class is read back from its own name, with and without the
/// step to lower case.
pub proof fn lemma_asset_class_name_round_trip(a: AssetClass)
    ensures
        AssetClass::named(a.text()) == Some(a),
        AssetClass::named(lower_case(a.text())) == Some(a),
{
    reveal_strlit("stock");
    reveal_strlit("option");
    assert("stock"@.len() != "option"@.len());
    lemma_small_letters_stay_in_lower_case(a.text());
}

/// One partial exit of a manually entered trade.
#[derive(Clone, Debug)]
pub struct ExitExecution {
    pub id: Option<String>,
    pub exit_date: Date,
    pub exit_time: Option<String>,
    pub quantity: Decimal,
    pub price: Decimal,
    pub fees: Option<Decimal>,
}

/// A stored execution of a trade.
#[derive(Clone, Debug)]
pub struct TradeExecutionRecord {
    pub id: String,
    pub trade_id: String,
    pub execution_type: String,
    pub execution_date: Date,
    pub execution_time: Option<String>,
    pub quantity: Decimal,
    pub price: Decimal,
    pub fees: Decimal,
}

/// A trade as it is stored. The two timestamps count microseconds since the
/// Unix epoch.
#[derive(Clone, Debug)]
pub struct Trade {
    pub id: String,
    pub user_id: String,
    pub account_id: String,
    pub instrument_id: String,
    pub symbol: String,
    pub asset_class: AssetClass,
    pub trade_number: Option<i32>,
    pub trade_date: Date,
    pub direction: Direction,
    pub quantity: Option<Decimal>,
    pub entry_price: Decimal,
    pub exit_price: Option<Decimal>,
    pub stop_loss_price: Option<Decimal>,
    pub entry_time: Option<String>,
    pub exit_time: Option<String>,
    pub fees: Decimal,
    pub strategy: Option<String>,
    pub notes: Option<String>,
    pub status: Status,
    pub created_at: i64,
    pub updated_at: i64,
}

/// The figures derived from a trade's prices, quantity and fees.
#[derive(Clone, Copy, Debug, PartialEq, Eq, Structural)]
pub struct DerivedFields {
    pub gross_pnl: Option<Decimal>,
    pub net_pnl: Option<Decimal>,
    pub pnl_per_share: Option<Decimal>,
    pub risk_per_share: Option<Decimal>,
    pub r_multiple: Option<Decimal>,
    pub result: Option<TradeResult>,
}

/// A trade together with its derived figures.
#[derive(Clone, Debug)]
pub struct TradeWithDerived {
    pub trade: Trade,
    pub gross_pnl: Option<Decimal>,
    pub net_pnl: Option<Decimal>,
    pub pnl_per_share: Option<Decimal>,
    pub risk_per_share: Option<Decimal>,
    pub r_multiple: Option<Decimal>,
    pub result: Option<TradeResult>,
}

impl TradeWithDerived {
    /// The derived figures that the record carries.
    pub open spec fn derived(self) -> DerivedFields {
        DerivedFields {
            gross_pnl: self.gross_pnl,
            net_pnl: self.net_pnl,
            pnl_per_share: self.pnl_per_share,
            risk_per_share: self.risk_per_share,
            r_multiple: self.r_multiple,
            result: self.result,
        }
    }

    /// Puts a trade and its derived figures into one record.
    pub fn from_trade(trade: Trade, derived: DerivedFields) -> (r: TradeWithDerived)
        ensures
            r.trade == trade,
            r.derived() == derived,
    {
        TradeWithDerived {
            trade,
            gross_pnl: derived.gross_pnl,
            net_pnl: derived.net_pnl,
            pnl_per_share: derived.pnl_per_share,
            risk_per_share: derived.risk_per_share,
            r_multiple: derived.r_multiple,
            result: derived.result,
        }
    }
}

/// What a caller hands in to record a new trade.
#[derive(Clone, Debug)]
pub struct CreateTradeInput {
    pub account_id: String,
    pub symbol: String,
    pub asset_class: Option<AssetClass>,
    pub trade_number: Option<i32>,
    pub trade_date: Date,
    pub direction: Direction,
    pub quantity: Option<Decimal>,
    pub entry_price: Decimal,
    pub exit_price: Option<Decimal>,
    pub stop_loss_price: Option<Decimal>,
    pub entry_time: Option<String>,
    pub exit_time: Option<String>,
    pub fees: Option<Decimal>,
    pub strategy: Option<String>,
    pub notes: Option<String>,
    pub status: Option<Status>,
    pub exits: Option<Vec<ExitExecution>>,
}

/// What a caller hands in to change a stored trade; absent fields stay.
#[derive(Clone, Debug)]
pub struct UpdateTradeInput {
    pub account_id: Option<String>,
    pub symbol: Option<String>,
    pub trade_number: Option<i32>,
    pub trade_date: Option<Date>,
    pub direction: Option<Direction>,
    pub quantity: Option<Decimal>,
    pub entry_price: Option<Decimal>,
    pub exit_price: Option<Decimal>,
    pub stop_loss_price: Option<Decimal>,
    pub entry_time: Option<String>,
    pub exit_time: Option<String>,
    pub fees: Option<Decimal>,
    pub strategy: Option<String>,
    pub notes: Option<String>,
    pub status: Option<Status>,
}

/// A count as the reports hold it: the number itself, and the largest number
/// that fits where there are more.
pub open spec fn report_count(n: int) -> i32 {
    if n > i32::MAX {
        i32::MAX
    } else if n < 0 {
        0
    } else {
        n as i32
    }
}

/// A count as the reports hold it.
pub fn count_for_report(n: usize) -> (r: i32)
    ensures
        r == report_count(n as int),
{
    if n > 2_147_483_647 {
        i32::MAX
    } else {
        n as i32
    }
}

/// One calendar day of realized results. The counts stop at `i32::MAX`.
#[derive(Clone, Copy, Debug, PartialEq, Eq, Structural)]
pub struct DailyPerformance {
    pub date: Date,
    pub realized_net_pnl: Decimal,
    pub trade_count: i32,
    pub win_count: i32,
    pub loss_count: i32,
}

/// Gross profit over gross loss.
#[derive(Clone, Copy, Debug, PartialEq, Eq, Structural)]
pub enum ProfitFactor {
    /// Summed wins divided by the magnitude of summed losses.
    Ratio(Decimal),
    /// There are wins and no losses.
    Infinite,
}

/// Statistics over a set of trades. The counts and streaks stop at
/// `i32::MAX`.
#[derive(Clone, Copy, Debug, PartialEq, Eq, Structural)]
pub struct PeriodMetrics {
    pub total_net_pnl: Decimal,
    pub trade_count: i32,
    pub win_count: i32,
    pub loss_count: i32,
    pub breakeven_count: i32,
    pub win_rate: Option<Decimal>,
    pub avg_win: Option<Decimal>,
    pub avg_loss: Option<Decimal>,
    pub profit_factor: Option<ProfitFactor>,
    pub expectancy: Option<Decimal>,
    pub max_drawdown: Decimal,
    pub max_win_streak: i32,
    pub max_loss_streak: i32,
}

impl PeriodMetrics {
    /// The statistics of no trades at all.
    pub open spec fn empty() -> PeriodMetrics {
        PeriodMetrics {
            total_net_pnl: Decimal { micros: 0 },
            trade_count: 0,
            win_count: 0,
            loss_count: 0,
            breakeven_count: 0,
            win_rate: None,
            avg_win: None,
            avg_loss: None,
            profit_factor: None,
            expectancy: None,
            max_drawdown: Decimal { micros: 0 },
            max_win_streak: 0,
            max_loss_streak: 0,
        }
    }
}

impl Default for PeriodMetrics {
    fn default() -> (r: PeriodMetrics)
        ensures
            r == PeriodMetrics::empty(),
    {
        PeriodMetrics {
            total_net_pnl: Decimal::zero(),
            trade_count: 0,
            win_count: 0,
            loss_count: 0,
            breakeven_count: 0,
            win_rate: None,
            avg_win: None,
            avg_loss: None,
            profit_factor: None,
            expectancy: None,
            max_drawdown: Decimal::zero(),
            max_win_streak: 0,
            max_loss_streak: 0,
        }
    }
}

/// One date of the equity curve.
#[derive(Clone, Copy, Debug, PartialEq, Eq, Structural)]
pub struct EquityPoint {
    pub date: Date,
    pub cumulative_pnl: Decimal,
    pub drawdown: Decimal,
}

} // verus!
