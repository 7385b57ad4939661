//! Rebuilding round-trip trades from fills: per-symbol position tracking,
//! weighted-average prices, and the open or closed state of each position.

use crate::date::{iso_date, Date};
use crate::decimal::{clamp, micros_of, spec_abs, spec_add, spec_div, spec_mul, Decimal};
use crate::models::{count_for_report, report_count, Direction};
use crate::parser::{
    error_models,
    execution_models,
    parse_tlg_file,
    read_file,
    ContractModel,
    ExecutionModel,
    OptionDetails,
    OptionType,
    TlgAction,
    TlgAssetType,
    TlgExecution,
    TlgParseError,
};
use crate::pnl::{calculate_gross_pnl, gross_pnl};
use crate::sorting::{
    in_order,
    is_strict_weak_order,
    lemma_sort_commutes,
    lemma_sorted_by_in_order,
    sorted_by,
    stable_sort,
    stable_sorted,
    Ranked,
};
use crate::text::{
    lemma_text_lt_asymmetric,
    lemma_text_not_after_carries_over,
    push_text,
    same_text,
    string_from,
    text_less,
    text_lt,
};
use vstd::prelude::*;

verus! {

/// A remaining quantity of at most this many millionths, 0.0001, counts as
/// fully exited.
pub const QUANTITY_EPSILON: i64 = 100;

/// The text that an optional string holds.
pub open spec fn text_of(s: Option<String>) -> Option<Seq<char>> {
    match s {
        Some(t) => Some(t@),
        None => None,
    }
}

/// One entry or exit of an aggregated trade.
#[derive(Clone, Debug)]
pub struct Execution {
    /// `entry` or `exit`.
    pub execution_type: String,
    pub execution_date: Date,
    pub execution_time: Option<String>,
    /// Never negative.
    pub quantity: Decimal,
    pub price: Decimal,
    /// Never negative.
    pub fees: Decimal,
    pub exchange: Option<String>,
    pub broker_execution_id: String,
}

/// The content of an [`Execution`].
pub struct LegModel {
    pub execution_type: Seq<char>,
    pub year: int,
    pub month: int,
    pub day: int,
    pub execution_time: Option<Seq<char>>,
    pub quantity: int,
    pub price: int,
    pub fees: int,
    pub exchange: Option<Seq<char>>,
    pub broker_execution_id: Seq<char>,
}

impl View for Execution {
    type V = LegModel;

    open spec fn view(&self) -> LegModel {
        LegModel {
            execution_type: self.execution_type@,
            year: self.execution_date.year_of(),
            month: self.execution_date.month_of(),
            day: self.execution_date.day_of(),
            execution_time: text_of(self.execution_time),
            quantity: self.quantity@,
            price: self.price@,
            fees: self.fees@,
            exchange: text_of(self.exchange),
            broker_execution_id: self.broker_execution_id@,
        }
    }
}

/// The contents of a list of executions.
pub open spec fn legs(v: Seq<Execution>) -> Seq<LegModel> {
    v.map_values(|e: Execution| e@)
}

/// Anything that was traded at a quantity and a price for a fee: an execution
/// of an imported trade as much as a partial exit that was keyed in.
pub trait Leg: Sized {
    spec fn leg(&self) -> LegModel;

    fn leg_quantity(&self) -> (r: Decimal)
        ensures
            r@ == self.leg().quantity,
    ;

    fn leg_price(&self) -> (r: Decimal)
        ensures
            r@ == self.leg().price,
    ;

    fn leg_fees(&self) -> (r: Decimal)
        ensures
            r@ == self.leg().fees,
    ;
}

impl Leg for Execution {
    open spec fn leg(&self) -> LegModel {
        self@
    }

    fn leg_quantity(&self) -> (r: Decimal) {
        self.quantity
    }

    fn leg_price(&self) -> (r: Decimal) {
        self.price
    }

    fn leg_fees(&self) -> (r: Decimal) {
        self.fees
    }
}

/// The contents of a list of legs.
pub open spec fn leg_models<T: Leg>(v: Seq<T>) -> Seq<LegModel> {
    v.map_values(|e: T| e.leg())
}

/// Exact sum of the quantities, in millionths.
pub open spec fn total_quantity(l: Seq<LegModel>) -> int
    decreases l.len(),
{
    if l.len() == 0 {
        0
    } else {
        total_quantity(l.drop_last()) + l.last().quantity
    }
}

/// Exact sum of quantity times price over the executions, each product taken
/// as an amount.
pub open spec fn total_value(l: Seq<LegModel>) -> int
    decreases l.len(),
{
    if l.len() == 0 {
        0
    } else {
        total_value(l.drop_last()) + spec_mul(l.last().quantity, l.last().price)
    }
}

/// Exact sum of the fees, in millionths.
pub open spec fn total_fees(l: Seq<LegModel>) -> int
    decreases l.len(),
{
    if l.len() == 0 {
        0
    } else {
        total_fees(l.drop_last()) + l.last().fees
    }
}

/// The quantity-weighted average price: summed value over summed quantity,
/// and zero where no quantity was traded.
pub open spec fn average_price(l: Seq<LegModel>) -> int {
    if clamp(total_quantity(l)) > 0 {
        spec_div(clamp(total_value(l)), clamp(total_quantity(l)))
    } else {
        0
    }
}

/// A position is closed when it has an entry and an exit and at most
/// `QUANTITY_EPSILON` of the entered quantity is still open.
pub open spec fn is_closed(entries: Seq<LegModel>, exits: Seq<LegModel>) -> bool {
    &&& entries.len() > 0
    &&& exits.len() > 0
    &&& total_quantity(entries) - total_quantity(exits) <= QUANTITY_EPSILON
}

/// In a closed position the entered and the exited quantity differ by at
/// most `QUANTITY_EPSILON`, unless it exited more than that above what it
/// entered. (Such a position is closed all the same: nothing of it is open.)
pub proof fn lemma_closed_means_fully_exited(entries: Seq<LegModel>, exits: Seq<LegModel>)
    requires
        is_closed(entries, exits),
        total_quantity(exits) - total_quantity(entries) <= QUANTITY_EPSILON,
    ensures
        -QUANTITY_EPSILON <= total_quantity(entries) - total_quantity(exits) <= QUANTITY_EPSILON,
        entries.len() > 0,
        exits.len() > 0,
{
}

/// One round trip, or a position that is still open, in one instrument.
#[derive(Clone, Debug)]
pub struct AggregatedTrade {
    /// The symbol, `_`, and the trade date as `YYYY-MM-DD`.
    pub key: String,
    pub symbol: String,
    pub underlying_symbol: String,
    /// `stock` or `option`.
    pub asset_class: String,
    /// `call` or `put`.
    pub option_type: Option<String>,
    pub strike_price: Option<Decimal>,
    pub expiration_date: Option<Date>,
    /// `long` or `short`.
    pub direction: String,
    pub trade_date: Date,
    pub entries: Vec<Execution>,
    pub exits: Vec<Execution>,
    /// `open` or `closed`.
    pub status: String,
    pub total_quantity: Decimal,
    pub avg_entry_price: Decimal,
    pub avg_exit_price: Option<Decimal>,
    pub total_fees: Decimal,
    pub net_pnl: Option<Decimal>,
}

/// The content of an [`AggregatedTrade`].
pub struct PositionModel {
    pub key: Seq<char>,
    pub symbol: Seq<char>,
    pub underlying_symbol: Seq<char>,
    pub asset_class: Seq<char>,
    pub option_type: Option<Seq<char>>,
    pub strike_price: Option<int>,
    pub expiration: Option<(int, int, int)>,
    pub direction: Seq<char>,
    pub trade_date: (int, int, int),
    pub entries: Seq<LegModel>,
    pub exits: Seq<LegModel>,
    pub status: Seq<char>,
    pub total_quantity: int,
    pub avg_entry_price: int,
    pub avg_exit_price: Option<int>,
    pub total_fees: int,
    pub net_pnl: Option<int>,
}

/// Year, month and day of a date.
pub open spec fn ymd(d: Date) -> (int, int, int) {
    (d.year_of(), d.month_of(), d.day_of())
}

impl View for AggregatedTrade {
    type V = PositionModel;

    open spec fn view(&self) -> PositionModel {
        PositionModel {
            key: self.key@,
            symbol: self.symbol@,
            underlying_symbol: self.underlying_symbol@,
            asset_class: self.asset_class@,
            option_type: text_of(self.option_type),
            strike_price: micros_of(self.strike_price),
            expiration: match self.expiration_date {
                Some(d) => Some(ymd(d)),
                None => None,
            },
            direction: self.direction@,
            trade_date: ymd(self.trade_date),
            entries: legs(self.entries@),
            exits: legs(self.exits@),
            status: self.status@,
            total_quantity: self.total_quantity@,
            avg_entry_price: self.avg_entry_price@,
            avg_exit_price: micros_of(self.avg_exit_price),
            total_fees: self.total_fees@,
            net_pnl: micros_of(self.net_pnl),
        }
    }
}

/// The position with its status and its derived figures worked out from its
/// entries and exits. An open position has neither an exit price nor a P&L. A
/// closed one has the weighted-average exit price and the net P&L: the gain
/// per unit, times the quantity, times 100 for an option, minus all fees. Any
/// direction but `long` counts as short, any asset class but `option` as
/// stock.
pub open spec fn with_derived(p: PositionModel) -> PositionModel {
    let quantity = clamp(total_quantity(p.entries));
    let entry_price = average_price(p.entries);
    let fees = spec_add(clamp(total_fees(p.entries)), clamp(total_fees(p.exits)));
    let closed = is_closed(p.entries, p.exits);
    let exit_price = average_price(p.exits);
    let direction = if p.direction == "long"@ {
        Direction::Long
    } else {
        Direction::Short
    };
    let multiplier: int = if p.asset_class == "option"@ {
        100_000_000
    } else {
        1_000_000
    };
    PositionModel {
        status: if closed {
            "closed"@
        } else {
            "open"@
        },
        total_quantity: quantity,
        avg_entry_price: entry_price,
        avg_exit_price: if closed {
            Some(exit_price)
        } else {
            None
        },
        total_fees: fees,
        net_pnl: if closed {
            Some(
                crate::pnl::net_pnl(
                    gross_pnl(direction, entry_price, exit_price, quantity, multiplier),
                    fees,
                ),
            )
        } else {
            None
        },
        ..p
    }
}

/// A trade comes out of the derivation marked closed exactly when its entries
/// and exits close it, and marked open otherwise.
pub proof fn lemma_status_follows_the_quantities(p: PositionModel)
    ensures
        with_derived(p).status == "closed"@ <==> is_closed(p.entries, p.exits),
        with_derived(p).status == "open"@ <==> !is_closed(p.entries, p.exits),
        with_derived(p).avg_exit_price is Some <==> is_closed(p.entries, p.exits),
        with_derived(p).net_pnl is Some <==> is_closed(p.entries, p.exits),
{
    reveal_strlit("closed");
    reveal_strlit("open");
    assert("closed"@.len() != "open"@.len());
}

/// In every trade that is marked closed the entered and the exited quantity
/// differ by at most `QUANTITY_EPSILON`, unless the trade exited more than
/// that above what it entered.
pub proof fn lemma_closed_trade_is_fully_exited(p: PositionModel)
    requires
        with_derived(p).status == "closed"@,
        total_quantity(p.exits) - total_quantity(p.entries) <= QUANTITY_EPSILON,
    ensures
        -QUANTITY_EPSILON <= total_quantity(with_derived(p).entries) - total_quantity(
            with_derived(p).exits,
        ) <= QUANTITY_EPSILON,
        with_derived(p).entries.len() > 0,
        with_derived(p).exits.len() > 0,
{
    lemma_status_follows_the_quantities(p);
    lemma_closed_means_fully_exited(p.entries, p.exits);
}

/// Exact totals of a list of legs, in millionths.
pub struct LegTotals {
    pub quantity: i128,
    pub value: i128,
    pub fees: i128,
}

/// The totals of a list of legs are no larger in magnitude than the number
/// of legs times the largest magnitude that an amount can have.
pub proof fn lemma_leg_totals_bound(l: Seq<LegModel>)
    requires
        forall|i: int|
            0 <= i < l.len() ==> i64::MIN <= (#[trigger] l[i]).quantity <= i64::MAX && i64::MIN
                <= l[i].fees <= i64::MAX,
    ensures
        -l.len() * 0x8000_0000_0000_0000 <= total_quantity(l) <= l.len() * 0x8000_0000_0000_0000,
        -l.len() * 0x8000_0000_0000_0000 <= total_value(l) <= l.len() * 0x8000_0000_0000_0000,
        -l.len() * 0x8000_0000_0000_0000 <= total_fees(l) <= l.len() * 0x8000_0000_0000_0000,
    decreases l.len(),
{
    if l.len() > 0 {
        assert forall|i: int| 0 <= i < l.drop_last().len() implies i64::MIN <= (
        #[trigger] l.drop_last()[i]).quantity <= i64::MAX && i64::MIN <= l.drop_last()[i].fees
            <= i64::MAX by {
            assert(l.drop_last()[i] == l[i]);
        }
        lemma_leg_totals_bound(l.drop_last());
        assert(l.last() == l[l.len() - 1]);
    }
}

/// Adds up quantity, value and fees over the legs.
pub fn leg_totals<T: Leg>(v: &Vec<T>) -> (t: LegTotals)
    ensures
        t.quantity == total_quantity(leg_models(v@)),
        t.value == total_value(leg_models(v@)),
        t.fees == total_fees(leg_models(v@)),
        -v.len() * 0x8000_0000_0000_0000 <= t.quantity <= v.len() * 0x8000_0000_0000_0000,
        -v.len() * 0x8000_0000_0000_0000 <= t.value <= v.len() * 0x8000_0000_0000_0000,
        -v.len() * 0x8000_0000_0000_0000 <= t.fees <= v.len() * 0x8000_0000_0000_0000,
{
    let mut t = LegTotals { quantity: 0, value: 0, fees: 0 };
    let mut i: usize = 0;
    let ghost all = leg_models(v@);
    assert(all.take(0) =~= Seq::<LegModel>::empty());
    while i < v.len()
        invariant
            i <= v.len(),
            all == leg_models(v@),
            t.quantity == total_quantity(all.take(i as int)),
            t.value == total_value(all.take(i as int)),
            t.fees == total_fees(all.take(i as int)),
            -i * 0x8000_0000_0000_0000 <= t.quantity <= i * 0x8000_0000_0000_0000,
            -i * 0x8000_0000_0000_0000 <= t.value <= i * 0x8000_0000_0000_0000,
            -i * 0x8000_0000_0000_0000 <= t.fees <= i * 0x8000_0000_0000_0000,
        decreases v.len() - i,
    {
        proof {
            assert(all.take(i + 1).drop_last() =~= all.take(i as int));
            assert(all.take(i + 1).last() == v@[i as int].leg());
        }
        let e = &v[i];
        let quantity = e.leg_quantity();
        let price = e.leg_price();
        t.quantity = t.quantity + quantity.micros() as i128;
        t.value = t.value + quantity.mul(&price).micros() as i128;
        t.fees = t.fees + e.leg_fees().micros() as i128;
        i = i + 1;
    }
    assert(all.take(i as int) =~= all);
    t
}

/// Summed value over summed quantity; zero where no quantity was traded.
pub fn weighted_average(t: &LegTotals) -> (r: Decimal)
    ensures
        r@ == if clamp(t.quantity as int) > 0 {
            spec_div(clamp(t.value as int), clamp(t.quantity as int))
        } else {
            0
        },
{
    let quantity = Decimal::saturate(t.quantity);
    if quantity.is_positive() {
        match Decimal::saturate(t.value).checked_div(&quantity) {
            Some(q) => q,
            None => Decimal::zero(),
        }
    } else {
        Decimal::zero()
    }
}

impl AggregatedTrade {
    /// Works out the status and the derived figures from the entries and
    /// exits; everything else stays as it is.
    pub fn calculate_derived(&mut self)
        ensures
            final(self)@ == with_derived(old(self)@),
            final(self).trade_date == old(self).trade_date,
            final(self).expiration_date == old(self).expiration_date,
            final(self).entries == old(self).entries,
            final(self).exits == old(self).exits,
    {
        let entered = leg_totals(&self.entries);
        let exited = leg_totals(&self.exits);
        proof {
            assert(legs(self.entries@) =~= leg_models(self.entries@));
            assert(legs(self.exits@) =~= leg_models(self.exits@));
        }
        let quantity = Decimal::saturate(entered.quantity);
        let entry_price = weighted_average(&entered);
        let fees = Decimal::saturate(entered.fees).add(&Decimal::saturate(exited.fees));
        let closed = self.entries.len() > 0 && self.exits.len() > 0 && entered.quantity
            <= exited.quantity + QUANTITY_EPSILON as i128;
        self.total_quantity = quantity;
        self.avg_entry_price = entry_price;
        self.total_fees = fees;
        if closed {
            let exit_price = weighted_average(&exited);
            let direction = if same_text(self.direction.as_str(), "long") {
                Direction::Long
            } else {
                Direction::Short
            };
            let multiplier = if same_text(self.asset_class.as_str(), "option") {
                Decimal::from_micros(100_000_000)
            } else {
                Decimal::from_micros(1_000_000)
            };
            let gross = calculate_gross_pnl(direction, entry_price, exit_price, quantity, multiplier);
            self.status = "closed".to_owned();
            self.avg_exit_price = Some(exit_price);
            self.net_pnl = Some(gross.sub(&fees));
        } else {
            self.status = "open".to_owned();
            self.avg_exit_price = None;
            self.net_pnl = None;
        }
    }
}

/// The fills of one symbol while they are collected.
pub struct PositionTracker {
    symbol: String,
    underlying_symbol: String,
    asset_class: TlgAssetType,
    option_details: Option<OptionDetails>,
    direction: Option<Direction>,
    entries: Vec<TlgExecution>,
    exits: Vec<TlgExecution>,
    /// Entered quantity less exited quantity, in millionths.
    open_quantity: i128,
}

/// The content of a position tracker: what is known of the instrument, the
/// direction once an opening fill has fixed it, and the fills so far.
pub struct TrackerModel {
    pub symbol: Seq<char>,
    pub underlying_symbol: Seq<char>,
    pub asset_class: TlgAssetType,
    pub option_details: Option<ContractModel>,
    pub direction: Option<Direction>,
    pub entries: Seq<ExecutionModel>,
    pub exits: Seq<ExecutionModel>,
}

/// The content of an optional contract.
pub open spec fn contract_of(d: Option<OptionDetails>) -> Option<ContractModel> {
    match d {
        Some(c) => Some(c@),
        None => None,
    }
}

/// Exact sum of the quantities of the fills, each without its sign.
pub open spec fn abs_total(fills: Seq<ExecutionModel>) -> int
    decreases fills.len(),
{
    if fills.len() == 0 {
        0
    } else {
        abs_total(fills.drop_last()) + spec_abs(fills.last().quantity)
    }
}

/// Whether the action opens a position.
pub open spec fn opens(a: TlgAction) -> bool {
    a == TlgAction::BuyToOpen || a == TlgAction::SellToOpen
}

/// The underlying of a fill: the one its contract names, else its symbol.
pub open spec fn underlying_of(e: ExecutionModel) -> Seq<char> {
    match e.option_details {
        Some(d) => d.underlying,
        None => e.symbol,
    }
}

/// An empty tracker for the instrument of the fill `first`.
pub open spec fn new_tracker(first: ExecutionModel) -> TrackerModel {
    TrackerModel {
        symbol: first.symbol,
        underlying_symbol: underlying_of(first),
        asset_class: first.asset_type,
        option_details: first.option_details,
        direction: None,
        entries: Seq::empty(),
        exits: Seq::empty(),
    }
}

/// The tracker with one more fill. An opening fill joins the entries, and the
/// first of them fixes the direction: long for a buy, short for a sale. Any
/// other fill joins the exits.
pub open spec fn add_fill(t: TrackerModel, e: ExecutionModel) -> TrackerModel {
    if opens(e.action) {
        TrackerModel {
            direction: if t.direction is None {
                Some(
                    if e.action == TlgAction::BuyToOpen {
                        Direction::Long
                    } else {
                        Direction::Short
                    },
                )
            } else {
                t.direction
            },
            entries: t.entries.push(e),
            ..t
        }
    } else {
        TrackerModel { exits: t.exits.push(e), ..t }
    }
}

/// Entered quantity less exited quantity.
pub open spec fn open_quantity(t: TrackerModel) -> int {
    abs_total(t.entries) - abs_total(t.exits)
}

/// A tracked position is closed when it has an entry and an exit and at most
/// `QUANTITY_EPSILON` is still open.
pub open spec fn tracker_closed(t: TrackerModel) -> bool {
    open_quantity(t) <= QUANTITY_EPSILON && t.entries.len() > 0 && t.exits.len() > 0
}

/// A fill as an execution of an aggregated trade: quantity and fees lose
/// their signs.
pub open spec fn leg_of(e: ExecutionModel, kind: Seq<char>) -> LegModel {
    LegModel {
        execution_type: kind,
        year: e.year,
        month: e.month,
        day: e.day,
        execution_time: Some(e.execution_time),
        quantity: spec_abs(e.quantity),
        price: e.price,
        fees: spec_abs(e.fees),
        exchange: Some(e.exchange),
        broker_execution_id: e.broker_execution_id,
    }
}

/// The fills as executions of the given kind.
pub open spec fn legs_of(fills: Seq<ExecutionModel>, kind: Seq<char>) -> Seq<LegModel> {
    fills.map_values(|e: ExecutionModel| leg_of(e, kind))
}

/// The date of the first entry, or 1970-01-01 where there is none.
pub open spec fn trade_date_of(t: TrackerModel) -> (int, int, int) {
    if t.entries.len() > 0 {
        (t.entries[0].year, t.entries[0].month, t.entries[0].day)
    } else {
        (1970, 1, 1)
    }
}

/// The aggregated trade that a tracker stands for.
pub open spec fn position_of(t: TrackerModel) -> PositionModel {
    let date = trade_date_of(t);
    with_derived(
        PositionModel {
            key: t.symbol + "_"@ + iso_date(date.0, date.1, date.2),
            symbol: t.symbol,
            underlying_symbol: t.underlying_symbol,
            asset_class: match t.asset_class {
                TlgAssetType::Stock => "stock"@,
                TlgAssetType::Option => "option"@,
            },
            option_type: match t.option_details {
                Some(d) => Some(
                    match d.option_type {
                        OptionType::Call => "call"@,
                        OptionType::Put => "put"@,
                    },
                ),
                None => None,
            },
            strike_price: match t.option_details {
                Some(d) => Some(d.strike),
                None => None,
            },
            expiration: match t.option_details {
                Some(d) => Some((d.year, d.month, d.day)),
                None => None,
            },
            direction: match t.direction {
                Some(Direction::Short) => "short"@,
                _ => "long"@,
            },
            trade_date: date,
            entries: legs_of(t.entries, "entry"@),
            exits: legs_of(t.exits, "exit"@),
            status: "open"@,
            total_quantity: 0,
            avg_entry_price: 0,
            avg_exit_price: None,
            total_fees: 0,
            net_pnl: None,
        },
    )
}

/// The quantities of the executions add up to the quantities of the fills.
pub proof fn lemma_legs_keep_quantity(fills: Seq<ExecutionModel>, kind: Seq<char>)
    ensures
        total_quantity(legs_of(fills, kind)) == abs_total(fills),
    decreases fills.len(),
{
    if fills.len() > 0 {
        lemma_legs_keep_quantity(fills.drop_last(), kind);
        assert(legs_of(fills, kind).drop_last() =~= legs_of(fills.drop_last(), kind));
    }
}

/// Signs stay in the fills: in an aggregated trade no quantity and no fee is
/// negative, nor is the total quantity.
pub proof fn lemma_aggregated_amounts_are_not_negative(t: TrackerModel)
    ensures
        forall|i: int|
            0 <= i < position_of(t).entries.len() ==> (#[trigger] position_of(t).entries[i]).quantity
                >= 0 && position_of(t).entries[i].fees >= 0,
        forall|i: int|
            0 <= i < position_of(t).exits.len() ==> (#[trigger] position_of(t).exits[i]).quantity
                >= 0 && position_of(t).exits[i].fees >= 0,
        position_of(t).total_quantity >= 0,
{
    lemma_legs_keep_quantity(t.entries, "entry"@);
    lemma_abs_total_not_negative(t.entries);
}

proof fn lemma_abs_total_not_negative(fills: Seq<ExecutionModel>)
    ensures
        abs_total(fills) >= 0,
    decreases fills.len(),
{
    if fills.len() > 0 {
        lemma_abs_total_not_negative(fills.drop_last());
    }
}

/// A tracker is closed exactly when the trade made from it is.
pub proof fn lemma_tracker_and_trade_agree(t: TrackerModel)
    ensures
        tracker_closed(t) <==> position_of(t).status == "closed"@,
        tracker_closed(t) <==> is_closed(position_of(t).entries, position_of(t).exits),
        position_of(t).status == "closed"@ || position_of(t).status == "open"@,
{
    lemma_legs_keep_quantity(t.entries, "entry"@);
    lemma_legs_keep_quantity(t.exits, "exit"@);
    reveal_strlit("closed");
    reveal_strlit("open");
    assert("closed"@.len() != "open"@.len());
}

impl View for PositionTracker {
    type V = TrackerModel;

    /// What the tracker holds of its instrument and its fills. The counter of
    /// the open quantity is no part of it: by `wf` it is what the fills add
    /// up to, `open_quantity` of this content.
    closed spec fn view(&self) -> TrackerModel {
        TrackerModel {
            symbol: self.symbol@,
            underlying_symbol: self.underlying_symbol@,
            asset_class: self.asset_class,
            option_details: contract_of(self.option_details),
            direction: self.direction,
            entries: execution_models(self.entries@),
            exits: execution_models(self.exits@),
        }
    }
}

proof fn lemma_abs_total_bound(fills: Seq<ExecutionModel>)
    requires
        forall|i: int| 0 <= i < fills.len() ==> i64::MIN <= (#[trigger] fills[i]).quantity <= i64::MAX,
    ensures
        0 <= abs_total(fills) <= fills.len() * 0x7fff_ffff_ffff_ffff,
    decreases fills.len(),
{
    if fills.len() > 0 {
        assert forall|i: int| 0 <= i < fills.drop_last().len() implies i64::MIN <= (
        #[trigger] fills.drop_last()[i]).quantity <= i64::MAX by {
            assert(fills.drop_last()[i] == fills[i]);
        }
        lemma_abs_total_bound(fills.drop_last());
        assert(fills.last() == fills[fills.len() - 1]);
    }
}

/// Copies the contract details.
fn copy_details(d: &Option<OptionDetails>) -> (r: Option<OptionDetails>)
    ensures
        contract_of(r) == contract_of(*d),
{
    match d {
        Some(c) => Some(
            OptionDetails {
                underlying: c.underlying.clone(),
                expiration_date: c.expiration_date,
                option_type: c.option_type,
                strike_price: c.strike_price,
            },
        ),
        None => None,
    }
}

impl PositionTracker {
    /// The counter holds what the fills add up to.
    pub closed spec fn wf(&self) -> bool {
        self.open_quantity == open_quantity(self@)
    }

    /// A tracker for one instrument, without fills.
    pub fn new(
        symbol: &str,
        underlying: &str,
        asset_type: TlgAssetType,
        option_details: Option<OptionDetails>,
    ) -> (r: PositionTracker)
        ensures
            r.wf(),
            r@ == (TrackerModel {
                symbol: symbol@,
                underlying_symbol: underlying@,
                asset_class: asset_type,
                option_details: contract_of(option_details),
                direction: None,
                entries: Seq::empty(),
                exits: Seq::empty(),
            }),
    {
        let r = PositionTracker {
            symbol: symbol.to_owned(),
            underlying_symbol: underlying.to_owned(),
            asset_class: asset_type,
            option_details,
            direction: None,
            entries: Vec::new(),
            exits: Vec::new(),
            open_quantity: 0,
        };
        assert(execution_models(r.entries@) =~= Seq::<ExecutionModel>::empty());
        assert(execution_models(r.exits@) =~= Seq::<ExecutionModel>::empty());
        r
    }

    /// Takes one more fill: an opening fill joins the entries and, if it is
    /// the first, fixes the direction; any other fill joins the exits.
    pub fn add_execution(&mut self, exec: TlgExecution)
        requires
            old(self).wf(),
        ensures
            final(self).wf(),
            final(self)@ == add_fill(old(self)@, exec@),
    {
        let qty: i128 = exec.abs_quantity().micros() as i128;
        let ghost before = self@;
        let ghost fill = exec@;
        proof {
            assert(execution_models(self.entries@.push(exec)) =~= execution_models(
                self.entries@,
            ).push(exec@));
            assert(execution_models(self.exits@.push(exec)) =~= execution_models(self.exits@).push(
                exec@,
            ));
            assert(before.entries.push(fill).drop_last() =~= before.entries);
            assert(before.exits.push(fill).drop_last() =~= before.exits);
        }
        if exec.action.is_opening() {
            if self.direction.is_none() {
                self.direction = Some(
                    if exec.action == TlgAction::BuyToOpen {
                        Direction::Long
                    } else {
                        Direction::Short
                    },
                );
            }
            self.entries.push(exec);
            let entered: usize = self.entries.len();
            let exited: usize = self.exits.len();
            proof {
                let now = execution_models(self.entries@);
                assert(now == before.entries.push(fill));
                assert(abs_total(now) == abs_total(before.entries) + qty);
                lemma_abs_total_bound(now);
                lemma_abs_total_bound(before.exits);
                assert(now.len() == entered);
                assert(before.exits.len() == exited);
            }
            self.open_quantity = self.open_quantity + qty;
        } else {
            self.exits.push(exec);
            let entered: usize = self.entries.len();
            let exited: usize = self.exits.len();
            proof {
                let now = execution_models(self.exits@);
                assert(now == before.exits.push(fill));
                assert(abs_total(now) == abs_total(before.exits) + qty);
                lemma_abs_total_bound(now);
                lemma_abs_total_bound(before.entries);
                assert(now.len() == exited);
                assert(before.entries.len() == entered);
            }
            self.open_quantity = self.open_quantity - qty;
        }
    }

    /// Whether the position has an entry and an exit and at most
    /// `QUANTITY_EPSILON` is still open.
    pub fn is_closed(&self) -> (r: bool)
        requires
            self.wf(),
        ensures
            r == tracker_closed(self@),
    {
        assert(execution_models(self.entries@).len() == self.entries@.len());
        assert(execution_models(self.exits@).len() == self.exits@.len());
        self.open_quantity <= QUANTITY_EPSILON as i128 && self.entries.len() > 0 && self.exits.len()
            > 0
    }
}

/// The fills as executions of an aggregated trade.
fn executions_of(fills: &Vec<TlgExecution>, kind: &str) -> (r: Vec<Execution>)
    ensures
        legs(r@) == legs_of(execution_models(fills@), kind@),
        r.len() == fills.len(),
        forall|i: int| 0 <= i < r.len() ==> (#[trigger] r[i]).execution_date == fills[i].execution_date,
{
    let mut out: Vec<Execution> = Vec::new();
    let mut i: usize = 0;
    while i < fills.len()
        invariant
            i <= fills.len(),
            out.len() == i,
            forall|j: int| 0 <= j < i ==> (#[trigger] out[j])@ == leg_of(fills[j]@, kind@),
            forall|j: int| 0 <= j < i ==> (#[trigger] out[j]).execution_date == fills[j].execution_date,
        decreases fills.len() - i,
    {
        let e = &fills[i];
        out.push(
            Execution {
                execution_type: kind.to_owned(),
                execution_date: e.execution_date,
                execution_time: Some(e.execution_time.clone()),
                quantity: e.abs_quantity(),
                price: e.price,
                fees: e.abs_fees(),
                exchange: Some(e.exchange.clone()),
                broker_execution_id: e.broker_execution_id.clone(),
            },
        );
        i = i + 1;
    }
    assert(legs(out@) =~= legs_of(execution_models(fills@), kind@));
    out
}

impl PositionTracker {
    /// The aggregated trade of the fills collected so far, with its status
    /// and derived figures.
    pub fn to_aggregated_trade(&self) -> (r: AggregatedTrade)
        ensures
            r@ == position_of(self@),
    {
        let entries = executions_of(&self.entries, "entry");
        let exits = executions_of(&self.exits, "exit");
        let trade_date: Date = if self.entries.len() > 0 {
            self.entries[0].execution_date
        } else {
            match Date::from_ymd_opt(1970, 1, 1) {
                Some(d) => d,
                None => {
                    assert(false);
                    self.entries[0].execution_date
                },
            }
        };
        assert(ymd(trade_date) == trade_date_of(self@)) by {
            if self.entries.len() > 0 {
                assert(execution_models(self.entries@)[0] == self.entries@[0]@);
            } else {
                assert(execution_models(self.entries@).len() == 0);
            }
        }
        let mut key: Vec<char> = Vec::new();
        push_text(&mut key, self.symbol.as_str());
        key.push('_');
        trade_date.push_iso(&mut key);
        assert(key@ =~= self.symbol@ + "_"@ + trade_date.iso()) by {
            reveal_strlit("_");
            assert("_"@ =~= seq!['_']);
        }
        let (option_type, strike_price, expiration_date) = match &self.option_details {
            Some(details) => (
                Some(
                    match details.option_type {
                        OptionType::Call => "call".to_owned(),
                        OptionType::Put => "put".to_owned(),
                    },
                ),
                Some(details.strike_price),
                Some(details.expiration_date),
            ),
            None => (None, None, None),
        };
        let mut trade = AggregatedTrade {
            key: string_from(&key),
            symbol: self.symbol.clone(),
            underlying_symbol: self.underlying_symbol.clone(),
            asset_class: match self.asset_class {
                TlgAssetType::Stock => "stock".to_owned(),
                TlgAssetType::Option => "option".to_owned(),
            },
            option_type,
            strike_price,
            expiration_date,
            direction: match self.direction {
                Some(Direction::Short) => "short".to_owned(),
                _ => "long".to_owned(),
            },
            trade_date,
            entries,
            exits,
            status: "open".to_owned(),
            total_quantity: Decimal::zero(),
            avg_entry_price: Decimal::zero(),
            avg_exit_price: None,
            total_fees: Decimal::zero(),
            net_pnl: None,
        };
        trade.calculate_derived();
        trade
    }
}

/// The date of a fill as one number, `YYYYMMDD`.
pub open spec fn fill_day(e: ExecutionModel) -> int {
    e.year * 10000 + e.month * 100 + e.day
}

/// Fills are processed by date and, within a date, by time as the log writes
/// it.
pub open spec fn fill_before(a: ExecutionModel, b: ExecutionModel) -> bool {
    fill_day(a) < fill_day(b) || (fill_day(a) == fill_day(b) && text_lt(
        a.execution_time,
        b.execution_time,
    ))
}

/// [`fill_before`] as an order.
pub open spec fn fill_order() -> spec_fn(ExecutionModel, ExecutionModel) -> bool {
    |a: ExecutionModel, b: ExecutionModel| fill_before(a, b)
}

/// The order of fills is a strict weak order.
pub proof fn lemma_fill_order_is_strict_weak()
    ensures
        is_strict_weak_order(fill_order()),
{
    assert forall|a: ExecutionModel, b: ExecutionModel| #[trigger] fill_before(a, b) implies
        !fill_before(b, a) by {
        if fill_day(a) == fill_day(b) {
            lemma_text_lt_asymmetric(a.execution_time, b.execution_time);
        }
    }
    assert forall|a: ExecutionModel, b: ExecutionModel, c: ExecutionModel|
        !#[trigger] fill_before(b, a) && !#[trigger] fill_before(c, b) implies !fill_before(
        c,
        a,
    ) by {
        if fill_day(a) == fill_day(b) && fill_day(b) == fill_day(c) {
            lemma_text_not_after_carries_over(a.execution_time, b.execution_time, c.execution_time);
        }
    }
}

/// The fills are processed in order of time: none is handed to its tracker
/// ahead of one that is before it.
pub proof fn lemma_fills_are_processed_in_time_order(fills: Seq<ExecutionModel>)
    ensures
        in_order(sorted_by(fills, fill_order()), fill_order()),
{
    lemma_fill_order_is_strict_weak();
    lemma_sorted_by_in_order(fills, fill_order());
}

impl Ranked for TlgExecution {
    open spec fn before(&self, other: &Self) -> bool {
        fill_before(self@, other@)
    }

    fn comes_before(&self, other: &Self) -> (r: bool) {
        let a = self.execution_date.sort_key();
        let b = other.execution_date.sort_key();
        a < b || (a == b && text_less(self.execution_time.as_str(), other.execution_time.as_str()))
    }
}

/// The trade date of a position as one number, `YYYYMMDD`.
pub open spec fn position_day(p: PositionModel) -> int {
    p.trade_date.0 * 10000 + p.trade_date.1 * 100 + p.trade_date.2
}

/// Positions are listed by trade date.
pub open spec fn position_before(a: PositionModel, b: PositionModel) -> bool {
    position_day(a) < position_day(b)
}

/// [`position_before`] as an order.
pub open spec fn position_order() -> spec_fn(PositionModel, PositionModel) -> bool {
    |a: PositionModel, b: PositionModel| position_before(a, b)
}

/// Both lists of positions come by trade date: no position stands ahead of
/// one with an earlier trade date.
pub proof fn lemma_positions_are_listed_by_date(fills: Seq<ExecutionModel>)
    ensures
        in_order(closed_positions(fills), position_order()),
        in_order(open_positions(fills), position_order()),
{
    assert(is_strict_weak_order(position_order()));
    lemma_sorted_by_in_order(with_status(positions(fills), true), position_order());
    lemma_sorted_by_in_order(with_status(positions(fills), false), position_order());
}

impl Ranked for AggregatedTrade {
    open spec fn before(&self, other: &Self) -> bool {
        position_before(self@, other@)
    }

    fn comes_before(&self, other: &Self) -> (r: bool) {
        self.trade_date.sort_key() < other.trade_date.sort_key()
    }
}

/// Index of the tracker of `symbol`, if there is one.
pub open spec fn find_symbol(ts: Seq<TrackerModel>, symbol: Seq<char>) -> Option<int>
    decreases ts.len(),
{
    if ts.len() == 0 {
        None
    } else {
        match find_symbol(ts.drop_last(), symbol) {
            Some(i) => Some(i),
            None => if ts.last().symbol == symbol {
                Some(ts.len() - 1)
            } else {
                None
            },
        }
    }
}

/// The trackers after the fills, one per symbol in the order in which the
/// symbols first occur: each fill goes to the tracker of its symbol, which is
/// opened on the symbol's first fill.
pub open spec fn track(fills: Seq<ExecutionModel>) -> Seq<TrackerModel>
    decreases fills.len(),
{
    if fills.len() == 0 {
        Seq::empty()
    } else {
        let before = track(fills.drop_last());
        let e = fills.last();
        match find_symbol(before, e.symbol) {
            Some(i) => before.update(i, add_fill(before[i], e)),
            None => before.push(add_fill(new_tracker(e), e)),
        }
    }
}

/// The contents of a list of trackers.
pub open spec fn tracker_models(v: Seq<PositionTracker>) -> Seq<TrackerModel> {
    v.map_values(|t: PositionTracker| t@)
}

/// The contents of a list of trades.
pub open spec fn trade_models(v: Seq<AggregatedTrade>) -> Seq<PositionModel> {
    v.map_values(|t: AggregatedTrade| t@)
}

proof fn lemma_find_symbol_bounds(ts: Seq<TrackerModel>, symbol: Seq<char>)
    ensures
        match find_symbol(ts, symbol) {
            Some(i) => 0 <= i < ts.len() && ts[i].symbol == symbol,
            None => forall|k: int| 0 <= k < ts.len() ==> (#[trigger] ts[k]).symbol != symbol,
        },
    decreases ts.len(),
{
    if ts.len() > 0 {
        lemma_find_symbol_bounds(ts.drop_last(), symbol);
        match find_symbol(ts.drop_last(), symbol) {
            Some(i) => {
                assert(ts.drop_last()[i] == ts[i]);
            },
            None => {
                assert forall|k: int| 0 <= k < ts.len() && !(ts.last().symbol == symbol) implies (
                #[trigger] ts[k]).symbol != symbol by {
                    if k < ts.len() - 1 {
                        assert(ts.drop_last()[k] == ts[k]);
                    }
                }
            },
        }
    }
}

proof fn lemma_find_symbol_stays(ts: Seq<TrackerModel>, symbol: Seq<char>, k: int)
    requires
        0 <= k < ts.len(),
        find_symbol(ts.take(k + 1), symbol) == Some(k),
    ensures
        find_symbol(ts, symbol) == Some(k),
    decreases ts.len(),
{
    if ts.len() == k + 1 {
        assert(ts.take(k + 1) =~= ts);
    } else {
        assert(ts.drop_last().take(k + 1) =~= ts.take(k + 1));
        lemma_find_symbol_stays(ts.drop_last(), symbol, k);
    }
}

/// The fills of one symbol, in the order given.
pub open spec fn fills_of(fills: Seq<ExecutionModel>, symbol: Seq<char>) -> Seq<ExecutionModel>
    decreases fills.len(),
{
    if fills.len() == 0 {
        fills
    } else if fills.last().symbol == symbol {
        fills_of(fills.drop_last(), symbol).push(fills.last())
    } else {
        fills_of(fills.drop_last(), symbol)
    }
}

/// The tracker that the fills of one symbol make: opened for the first of
/// them, and then given each in turn.
pub open spec fn tracker_of(group: Seq<ExecutionModel>) -> TrackerModel
    decreases group.len(),
{
    if group.len() <= 1 {
        add_fill(new_tracker(group[0]), group[0])
    } else {
        add_fill(tracker_of(group.drop_last()), group.last())
    }
}

proof fn lemma_fills_of_none(fills: Seq<ExecutionModel>, symbol: Seq<char>)
    requires
        forall|k: int| 0 <= k < fills.len() ==> (#[trigger] fills[k]).symbol != symbol,
    ensures
        fills_of(fills, symbol).len() == 0,
    decreases fills.len(),
{
    if fills.len() > 0 {
        assert(fills.last() == fills[fills.len() - 1]);
        assert forall|k: int| 0 <= k < fills.drop_last().len() implies (
        #[trigger] fills.drop_last()[k]).symbol != symbol by {
            assert(fills.drop_last()[k] == fills[k]);
        }
        lemma_fills_of_none(fills.drop_last(), symbol);
    }
}

/// A tracker keeps its symbol when it takes a fill.
proof fn lemma_add_fill_keeps_symbol(t: TrackerModel, e: ExecutionModel)
    ensures
        add_fill(t, e).symbol == t.symbol,
{
}

/// Tracking a further fill leaves every tracker where it stands, under its
/// symbol, and opens at most one more.
proof fn lemma_track_grows(fills: Seq<ExecutionModel>)
    requires
        fills.len() > 0,
    ensures
        track(fills.drop_last()).len() <= track(fills).len(),
        forall|i: int|
            0 <= i < track(fills.drop_last()).len() ==> (#[trigger] track(fills)[i]).symbol == track(
                fills.drop_last(),
            )[i].symbol,
{
    let before = track(fills.drop_last());
    let e = fills.last();
    lemma_find_symbol_bounds(before, e.symbol);
    match find_symbol(before, e.symbol) {
        Some(at) => {
            lemma_add_fill_keeps_symbol(before[at], e);
        },
        None => {},
    }
}

/// Every fill has a tracker: the one of its symbol.
pub proof fn lemma_every_fill_has_a_tracker(fills: Seq<ExecutionModel>, k: int)
    requires
        0 <= k < fills.len(),
    ensures
        find_symbol(track(fills), fills[k].symbol) is Some,
    decreases fills.len(),
{
    let head = fills.drop_last();
    let e = fills.last();
    let before = track(head);
    let now = track(fills);
    let symbol = fills[k].symbol;
    lemma_track_grows(fills);
    lemma_find_symbol_bounds(now, symbol);
    if k < fills.len() - 1 {
        assert(head[k] == fills[k]);
        lemma_every_fill_has_a_tracker(head, k);
        lemma_find_symbol_bounds(before, symbol);
        let i = find_symbol(before, symbol)->0;
        assert(now[i].symbol == symbol);
    } else {
        lemma_find_symbol_bounds(before, e.symbol);
        match find_symbol(before, e.symbol) {
            Some(at) => {
                assert(now[at].symbol == symbol);
            },
            None => {
                lemma_add_fill_keeps_symbol(new_tracker(e), e);
                assert(now[before.len() as int].symbol == symbol);
            },
        }
    }
}

/// Tracking buckets the fills by symbol: no two trackers share a symbol, and
/// each tracker is what the fills of its symbol make, in the order in which
/// they came. (That every fill has a tracker is
/// `lemma_every_fill_has_a_tracker`.)
pub proof fn lemma_track_buckets_by_symbol(fills: Seq<ExecutionModel>)
    ensures
        forall|i: int|
            0 <= i < track(fills).len() ==> fills_of(fills, (#[trigger] track(fills)[i]).symbol).len()
                > 0 && track(fills)[i] == tracker_of(fills_of(fills, track(fills)[i].symbol)),
        forall|i: int, j: int|
            0 <= i < j < track(fills).len() ==> (#[trigger] track(fills)[i]).symbol != (
            #[trigger] track(fills)[j]).symbol,
    decreases fills.len(),
{
    if fills.len() > 0 {
        let head = fills.drop_last();
        let e = fills.last();
        let before = track(head);
        let now = track(fills);
        lemma_track_buckets_by_symbol(head);
        lemma_find_symbol_bounds(before, e.symbol);
        lemma_track_grows(fills);
        match find_symbol(before, e.symbol) {
            Some(at) => {
                assert(now == before.update(at, add_fill(before[at], e)));
                assert forall|i: int| 0 <= i < now.len() implies fills_of(
                    fills,
                    (#[trigger] now[i]).symbol,
                ).len() > 0 && now[i] == tracker_of(fills_of(fills, now[i].symbol)) by {
                    if i == at {
                        let group = fills_of(head, e.symbol);
                        assert(before[at] == tracker_of(group) && group.len() > 0);
                        assert(group.push(e).drop_last() =~= group);
                    } else {
                        assert(now[i] == before[i]);
                        if i < at {
                            assert(before[i].symbol != before[at].symbol);
                        } else {
                            assert(before[at].symbol != before[i].symbol);
                        }
                    }
                }
                assert forall|i: int, j: int| 0 <= i < j < now.len() implies (
                #[trigger] now[i]).symbol != (#[trigger] now[j]).symbol by {
                    assert(now[i].symbol == before[i].symbol);
                    assert(now[j].symbol == before[j].symbol);
                }
            },
            None => {
                let fresh = add_fill(new_tracker(e), e);
                assert(now == before.push(fresh));
                assert forall|k: int| 0 <= k < head.len() implies (#[trigger] head[k]).symbol
                    != e.symbol by {
                    lemma_every_fill_has_a_tracker(head, k);
                    lemma_find_symbol_bounds(before, head[k].symbol);
                    let i = find_symbol(before, head[k].symbol)->0;
                    assert(before[i].symbol != e.symbol);
                }
                lemma_fills_of_none(head, e.symbol);
                assert forall|i: int| 0 <= i < now.len() implies fills_of(
                    fills,
                    (#[trigger] now[i]).symbol,
                ).len() > 0 && now[i] == tracker_of(fills_of(fills, now[i].symbol)) by {
                    if i < before.len() {
                        assert(now[i] == before[i]);
                        assert(before[i].symbol != e.symbol);
                    } else {
                        let group = fills_of(fills, e.symbol);
                        assert(group =~= seq![e]);
                        assert(group[0] == e);
                    }
                }
                assert forall|i: int, j: int| 0 <= i < j < now.len() implies (
                #[trigger] now[i]).symbol != (#[trigger] now[j]).symbol by {
                    assert(now[i] == before[i]);
                    if j < before.len() {
                        assert(now[j] == before[j]);
                    } else {
                        assert(before[i].symbol != e.symbol);
                    }
                }
            },
        }
    }
}

/// Index of the tracker of `symbol`, if there is one.
fn find_tracker(trackers: &Vec<PositionTracker>, symbol: &str) -> (r: Option<usize>)
    ensures
        match r {
            Some(i) => i < trackers.len() && find_symbol(tracker_models(trackers@), symbol@)
                == Some(i as int),
            None => find_symbol(tracker_models(trackers@), symbol@) is None,
        },
{
    let ghost models = tracker_models(trackers@);
    let mut k: usize = 0;
    assert(models.take(0) =~= Seq::<TrackerModel>::empty());
    while k < trackers.len()
        invariant
            k <= trackers.len(),
            models == tracker_models(trackers@),
            find_symbol(models.take(k as int), symbol@) is None,
        decreases trackers.len() - k,
    {
        proof {
            assert(models.take(k + 1).drop_last() =~= models.take(k as int));
            assert(models.take(k + 1).last() == trackers@[k as int]@);
        }
        if same_text(trackers[k].symbol.as_str(), symbol) {
            proof {
                lemma_find_symbol_stays(models, symbol@, k as int);
            }
            return Some(k);
        }
        k = k + 1;
    }
    assert(models.take(k as int) =~= models);
    None
}

/// Hands each fill, in the order given, to the tracker of its symbol.
pub fn track_positions(fills: Vec<TlgExecution>) -> (r: Vec<PositionTracker>)
    ensures
        tracker_models(r@) == track(execution_models(fills@)),
        forall|k: int| 0 <= k < r.len() ==> (#[trigger] r[k]).wf(),
{
    let mut trackers: Vec<PositionTracker> = Vec::new();
    let ghost all = execution_models(fills@);
    assert(all.take(0) =~= Seq::<ExecutionModel>::empty());
    assert(tracker_models(trackers@) =~= track(all.take(0)));
    for e in it: fills
        invariant
            all == execution_models(fills@),
            it.seq() == fills@,
            tracker_models(trackers@) == track(all.take(it.index() as int)),
            forall|k: int| 0 <= k < trackers.len() ==> (#[trigger] trackers[k]).wf(),
    {
        let ghost n = it.index() as int;
        let ghost before = tracker_models(trackers@);
        let ghost old_trackers = trackers@;
        proof {
            assert(all.take(n + 1).drop_last() =~= all.take(n));
            assert(all.take(n + 1).last() == e@);
            lemma_find_symbol_bounds(before, e@.symbol);
        }
        match find_tracker(&trackers, e.symbol.as_str()) {
            Some(i) => {
                let ghost fill = e@;
                trackers[i].add_execution(e);
                proof {
                    assert(trackers@ =~= old_trackers.update(i as int, trackers@[i as int]));
                    assert(tracker_models(trackers@) =~= before.update(
                        i as int,
                        add_fill(before[i as int], fill),
                    ));
                    assert forall|k: int| 0 <= k < trackers.len() implies (
                    #[trigger] trackers[k]).wf() by {
                        if k != i {
                            assert(trackers[k] == old_trackers[k]);
                        }
                    }
                }
            },
            None => {
                let ghost fill = e@;
                let details = copy_details(&e.option_details);
                let mut t = PositionTracker::new(
                    e.symbol.as_str(),
                    e.underlying_symbol(),
                    e.asset_type,
                    details,
                );
                assert(t@ == new_tracker(fill));
                t.add_execution(e);
                trackers.push(t);
                proof {
                    assert(tracker_models(trackers@) =~= before.push(
                        add_fill(new_tracker(fill), fill),
                    ));
                    assert forall|k: int| 0 <= k < trackers.len() implies (
                    #[trigger] trackers[k]).wf() by {
                        if k < old_trackers.len() {
                            assert(trackers[k] == old_trackers[k]);
                        }
                    }
                }
            },
        }
    }
    assert(all.take(fills@.len() as int) =~= all);
    trackers
}

/// Whether the position is marked closed.
pub open spec fn marked_closed(p: PositionModel) -> bool {
    p.status == "closed"@
}

/// The positions that are marked closed, or those that are not, in the order
/// given.
pub open spec fn with_status(ps: Seq<PositionModel>, closed: bool) -> Seq<PositionModel>
    decreases ps.len(),
{
    if ps.len() == 0 {
        ps
    } else if marked_closed(ps.last()) == closed {
        with_status(ps.drop_last(), closed).push(ps.last())
    } else {
        with_status(ps.drop_last(), closed)
    }
}

/// One position per symbol: the fills are put in order of date and time, each
/// goes to the tracker of its symbol, and every tracker becomes a trade.
pub open spec fn positions(fills: Seq<ExecutionModel>) -> Seq<PositionModel> {
    track(sorted_by(fills, fill_order())).map_values(|t: TrackerModel| position_of(t))
}

/// The closed trades among the positions, by trade date.
pub open spec fn closed_positions(fills: Seq<ExecutionModel>) -> Seq<PositionModel> {
    sorted_by(with_status(positions(fills), true), position_order())
}

/// The positions that are still open, by trade date.
pub open spec fn open_positions(fills: Seq<ExecutionModel>) -> Seq<PositionModel> {
    sorted_by(with_status(positions(fills), false), position_order())
}

/// Parting by status puts every position on the side of its own status.
pub proof fn lemma_with_status_only(ps: Seq<PositionModel>, closed: bool)
    ensures
        forall|i: int|
            0 <= i < with_status(ps, closed).len() ==> marked_closed(
                #[trigger] with_status(ps, closed)[i],
            ) == closed,
    decreases ps.len(),
{
    if ps.len() > 0 {
        lemma_with_status_only(ps.drop_last(), closed);
        let inner = with_status(ps.drop_last(), closed);
        let all = with_status(ps, closed);
        assert forall|i: int| 0 <= i < all.len() implies marked_closed(#[trigger] all[i])
            == closed by {
            if i < inner.len() {
                assert(all[i] == inner[i]);
            }
        }
    }
}

/// What an import would do, before anything is stored.
#[derive(Clone, Debug)]
pub struct ImportPreview {
    pub trades_to_import: Vec<AggregatedTrade>,
    pub open_positions: Vec<AggregatedTrade>,
    /// Stops at `i32::MAX`.
    pub duplicate_count: i32,
    pub parse_errors: Vec<TlgParseError>,
}

/// What an import did.
#[derive(Clone, Debug)]
pub struct ImportResult {
    pub imported_count: i32,
    pub skipped_duplicates: i32,
    pub errors: Vec<String>,
}

/// Whether one of the entries carries an execution id that is known already.
pub open spec fn has_known_entry(entries: Seq<Execution>, known: Seq<String>) -> bool {
    exists|i: int, j: int|
        0 <= i < entries.len() && 0 <= j < known.len() && (
        #[trigger] entries[i]).broker_execution_id@ == (#[trigger] known[j])@
}

/// The trades none of whose entries is known already, in the order given.
pub open spec fn fresh_trades(trades: Seq<AggregatedTrade>, known: Seq<String>) -> Seq<
    AggregatedTrade,
>
    decreases trades.len(),
{
    if trades.len() == 0 {
        trades
    } else if has_known_entry(trades.last().entries@, known) {
        fresh_trades(trades.drop_last(), known)
    } else {
        fresh_trades(trades.drop_last(), known).push(trades.last())
    }
}

/// Importing broker logs.
pub struct ImportService;

impl ImportService {
    /// Groups fills into one trade per symbol and parts the closed trades
    /// from the open positions, each list by trade date. The fills may come
    /// in any order: they are put in order of date and time first. Trades of
    /// one trade date stay in the order in which their symbols first occur.
    pub fn aggregate(executions: Vec<TlgExecution>) -> (r: (
        Vec<AggregatedTrade>,
        Vec<AggregatedTrade>,
    ))
        ensures
            trade_models(r.0@) == closed_positions(execution_models(executions@)),
            trade_models(r.1@) == open_positions(execution_models(executions@)),
    {
        let ghost given = execution_models(executions@);
        let mut sorted = executions;
        stable_sort(&mut sorted);
        proof {
            let content = |e: TlgExecution| e@;
            assert(crate::sorting::ranks_alike(content, fill_order()));
            lemma_sort_commutes(executions@, content, fill_order());
            assert(execution_models(sorted@) =~= stable_sorted(executions@).map_values(content));
            assert(given =~= executions@.map_values(content));
        }
        let trackers = track_positions(sorted);
        let ghost all = positions(given);
        assert(all =~= tracker_models(trackers@).map_values(|t: TrackerModel| position_of(t)));
        let mut closed: Vec<AggregatedTrade> = Vec::new();
        let mut open: Vec<AggregatedTrade> = Vec::new();
        let mut i: usize = 0;
        assert(all.take(0) =~= Seq::<PositionModel>::empty());
        assert(trade_models(closed@) =~= with_status(all.take(0), true));
        assert(trade_models(open@) =~= with_status(all.take(0), false));
        while i < trackers.len()
            invariant
                i <= trackers.len(),
                all.len() == trackers.len(),
                forall|k: int| 0 <= k < all.len() ==> #[trigger] all[k] == position_of(trackers[k]@),
                trade_models(closed@) == with_status(all.take(i as int), true),
                trade_models(open@) == with_status(all.take(i as int), false),
            decreases trackers.len() - i,
        {
            let trade = trackers[i].to_aggregated_trade();
            let ghost old_closed = closed@;
            let ghost old_open = open@;
            proof {
                assert(all.take(i + 1).drop_last() =~= all.take(i as int));
                assert(all.take(i + 1).last() == trade@);
            }
            if same_text(trade.status.as_str(), "closed") {
                closed.push(trade);
                assert(trade_models(closed@) =~= trade_models(old_closed).push(trade@));
            } else {
                open.push(trade);
                assert(trade_models(open@) =~= trade_models(old_open).push(trade@));
            }
            i = i + 1;
        }
        assert(all.take(i as int) =~= all);
        let ghost closed_unsorted = closed@;
        let ghost open_unsorted = open@;
        stable_sort(&mut closed);
        stable_sort(&mut open);
        proof {
            let content = |t: AggregatedTrade| t@;
            assert(crate::sorting::ranks_alike(content, position_order()));
            lemma_sort_commutes(closed_unsorted, content, position_order());
            lemma_sort_commutes(open_unsorted, content, position_order());
            assert(trade_models(closed@) =~= stable_sorted(closed_unsorted).map_values(content));
            assert(trade_models(open@) =~= stable_sorted(open_unsorted).map_values(content));
            assert(trade_models(closed_unsorted) =~= closed_unsorted.map_values(content));
            assert(trade_models(open_unsorted) =~= open_unsorted.map_values(content));
        }
        (closed, open)
    }

    /// Reads a log file and groups its fills into trades: the closed trades,
    /// the positions still open, and the lines that could not be read.
    pub fn parse_and_aggregate(content: &str) -> (r: (
        Vec<AggregatedTrade>,
        Vec<AggregatedTrade>,
        Vec<TlgParseError>,
    ))
        ensures
            trade_models(r.0@) == closed_positions(read_file(content@).0),
            trade_models(r.1@) == open_positions(read_file(content@).0),
            error_models(r.2@) == read_file(content@).1,
    {
        let parsed = parse_tlg_file(content);
        let (closed, open) = Self::aggregate(parsed.executions);
        (closed, open, parsed.errors)
    }

    /// Whether one of the trade's entries carries an execution id that is
    /// among `known_ids`.
    pub fn is_duplicate(trade: &AggregatedTrade, known_ids: &Vec<String>) -> (r: bool)
        ensures
            r == has_known_entry(trade.entries@, known_ids@),
    {
        let mut i: usize = 0;
        while i < trade.entries.len()
            invariant
                i <= trade.entries.len(),
                forall|a: int, b: int|
                    0 <= a < i && 0 <= b < known_ids.len() ==> (
                    #[trigger] trade.entries[a]).broker_execution_id@ != (#[trigger] known_ids[b])@,
            decreases trade.entries.len() - i,
        {
            let mut j: usize = 0;
            while j < known_ids.len()
                invariant
                    i < trade.entries.len(),
                    j <= known_ids.len(),
                    forall|b: int|
                        0 <= b < j ==> trade.entries[i as int].broker_execution_id@ != (
                        #[trigger] known_ids[b])@,
                decreases known_ids.len() - j,
            {
                if trade.entries[i].broker_execution_id == known_ids[j] {
                    return true;
                }
                j = j + 1;
            }
            i = i + 1;
        }
        false
    }

    /// The preview of an import: the closed trades that are not stored yet,
    /// the number of those that are, the open positions, and the lines that
    /// could not be read. A trade counts as stored when one of its entries
    /// carries an execution id among `known_ids`.
    pub fn build_preview(
        closed_trades: Vec<AggregatedTrade>,
        open_positions: Vec<AggregatedTrade>,
        parse_errors: Vec<TlgParseError>,
        known_ids: &Vec<String>,
    ) -> (r: ImportPreview)
        ensures
            r.trades_to_import@ == fresh_trades(closed_trades@, known_ids@),
            r.duplicate_count == report_count(
                closed_trades.len() - fresh_trades(closed_trades@, known_ids@).len(),
            ),
            r.open_positions == open_positions,
            r.parse_errors == parse_errors,
    {
        let mut trades_to_import: Vec<AggregatedTrade> = Vec::new();
        let mut duplicate_count: usize = 0;
        let total: usize = closed_trades.len();
        assert(closed_trades@.take(0) =~= Seq::<AggregatedTrade>::empty());
        for trade in it: closed_trades
            invariant
                it.seq() == closed_trades@,
                total == closed_trades@.len(),
                trades_to_import@ == fresh_trades(closed_trades@.take(it.index() as int), known_ids@),
                duplicate_count + trades_to_import.len() == it.index(),
        {
            let ghost n = it.index() as int;
            proof {
                assert(closed_trades@.take(n + 1).drop_last() =~= closed_trades@.take(n));
                assert(closed_trades@.take(n + 1).last() == trade);
            }
            if Self::is_duplicate(&trade, known_ids) {
                duplicate_count = duplicate_count + 1;
            } else {
                trades_to_import.push(trade);
            }
        }
        assert(closed_trades@.take(closed_trades@.len() as int) =~= closed_trades@);
        ImportPreview {
            trades_to_import,
            open_positions,
            duplicate_count: count_for_report(duplicate_count),
            parse_errors,
        }
    }
}

} // verus!
