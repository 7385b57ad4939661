//! The rules that stored records follow: defaults for what is left out, how
//! names in a row are read, and how a change is laid over a stored trade.
//! Nothing here touches a store; the caller reads and writes.

use crate::decimal::Decimal;
use crate::import::text_of;
use crate::models::{AssetClass, CreateTradeInput, Direction, Status, Trade, UpdateTradeInput};
use crate::text::{lower_case, push_text, same_text, string_from, to_uppercase, upper_case};
use vstd::prelude::*;

verus! {

/// Accounts.
pub struct AccountRepository;

impl AccountRepository {
    /// The base currency of a new account: the one named, else US dollars.
    pub fn currency_or_default<'a>(base_currency: Option<&'a str>) -> (r: &'a str)
        ensures
            r@ == match base_currency {
                Some(c) => c@,
                None => "USD"@,
            },
    {
        match base_currency {
            Some(c) => c,
            None => "USD",
        }
    }
}

/// What has to be done so that an instrument stands in the store with the
/// asset class that was asked for.
#[derive(Clone, Debug)]
pub enum InstrumentPlan {
    /// It is stored and nothing has to change.
    Keep,
    /// It is stored under another asset class, which has to be replaced.
    ChangeAssetClass(AssetClass),
    /// It has to be stored under this symbol and asset class.
    Create { symbol: String, asset_class: AssetClass },
}

/// Instruments.
pub struct InstrumentRepository;

impl InstrumentRepository {
    /// The symbol under which an instrument is stored and looked up: the
    /// symbol in upper case.
    pub fn stored_symbol(symbol: &str) -> (r: String)
        ensures
            r@ == upper_case(symbol@),
    {
        to_uppercase(symbol)
    }

    /// Decides what to do for `symbol`. `stored_asset_class` is the asset
    /// class of the stored instrument, if one is stored. A stored instrument
    /// is kept unless an asset class is asked for that differs from the
    /// stored one. A new instrument gets the asset class asked for, and is a
    /// stock if none is.
    pub fn plan(symbol: &str, stored_asset_class: Option<&str>, requested: Option<AssetClass>) -> (r:
        InstrumentPlan)
        ensures
            match (stored_asset_class, requested) {
                (Some(stored), Some(a)) => if stored@ == a.text() {
                    r is Keep
                } else {
                    r == InstrumentPlan::ChangeAssetClass(a)
                },
                (Some(_), None) => r is Keep,
                (None, _) => match r {
                    InstrumentPlan::Create { symbol: s, asset_class } => s@ == upper_case(symbol@)
                        && asset_class == match requested {
                        Some(a) => a,
                        None => AssetClass::Stock,
                    },
                    _ => false,
                },
            },
    {
        match stored_asset_class {
            Some(stored) => {
                match requested {
                    Some(a) => {
                        if same_text(stored, a.as_str()) {
                            InstrumentPlan::Keep
                        } else {
                            InstrumentPlan::ChangeAssetClass(a)
                        }
                    },
                    None => InstrumentPlan::Keep,
                }
            },
            None => InstrumentPlan::Create {
                symbol: Self::stored_symbol(symbol),
                asset_class: match requested {
                    Some(a) => a,
                    None => AssetClass::Stock,
                },
            },
        }
    }
}

/// The query that lists the trades of a user, newest first, with a condition
/// for each filter that is set.
pub open spec fn trade_query(account: bool, start: bool, end: bool, status: bool) -> Seq<char> {
    "SELECT t.*, i.symbol, i.asset_class FROM trades t JOIN instruments i ON t.instrument_id = i.id WHERE t.user_id = ?"@
        + (if account {
        " AND t.account_id = ?"@
    } else {
        Seq::<char>::empty()
    }) + (if start {
        " AND t.trade_date >= ?"@
    } else {
        Seq::<char>::empty()
    }) + (if end {
        " AND t.trade_date <= ?"@
    } else {
        Seq::<char>::empty()
    }) + (if status {
        " AND t.status = ?"@
    } else {
        Seq::<char>::empty()
    }) + " ORDER BY t.trade_date DESC, t.created_at DESC"@
}

/// Trades.
pub struct TradeRepository;

impl TradeRepository {
    /// The asset class that a row names; a stock where it names none or one
    /// that is not known.
    pub fn stored_asset_class(text: Option<&str>) -> (r: AssetClass)
        ensures
            r == match text {
                Some(t) => match AssetClass::named(lower_case(t@)) {
                    Some(a) => a,
                    None => AssetClass::Stock,
                },
                None => AssetClass::Stock,
            },
    {
        match text {
            Some(t) => match AssetClass::from_str(t) {
                Some(a) => a,
                None => AssetClass::Stock,
            },
            None => AssetClass::Stock,
        }
    }

    /// The direction that a row names; long where the name is not known.
    pub fn stored_direction(text: &str) -> (r: Direction)
        ensures
            r == match Direction::named(lower_case(text@)) {
                Some(d) => d,
                None => Direction::Long,
            },
    {
        match Direction::from_str(text) {
            Some(d) => d,
            None => Direction::Long,
        }
    }

    /// The status that a row names; closed where the name is not known.
    pub fn stored_status(text: &str) -> (r: Status)
        ensures
            r == match Status::named(lower_case(text@)) {
                Some(s) => s,
                None => Status::Closed,
            },
    {
        match Status::from_str(text) {
            Some(s) => s,
            None => Status::Closed,
        }
    }

    /// The status and the fees under which a new trade is stored: closed and
    /// zero where the input names none.
    pub fn insert_defaults(input: &CreateTradeInput) -> (r: (Status, Decimal))
        ensures
            r.0 == match input.status {
                Some(s) => s,
                None => Status::Closed,
            },
            r.1@ == match input.fees {
                Some(f) => f@,
                None => 0,
            },
    {
        (
            match input.status {
                Some(s) => s,
                None => Status::Closed,
            },
            match input.fees {
                Some(f) => f,
                None => Decimal::zero(),
            },
        )
    }

    /// The query that lists the trades of a user, newest first, with a
    /// condition for each filter that is set.
    pub fn filter_query(account: bool, start: bool, end: bool, status: bool) -> (r: String)
        ensures
            r@ == trade_query(account, start, end, status),
    {
        let mut out: Vec<char> = Vec::new();
        push_text(
            &mut out,
            "SELECT t.*, i.symbol, i.asset_class FROM trades t JOIN instruments i ON t.instrument_id = i.id WHERE t.user_id = ?",
        );
        if account {
            push_text(&mut out, " AND t.account_id = ?");
        }
        if start {
            push_text(&mut out, " AND t.trade_date >= ?");
        }
        if end {
            push_text(&mut out, " AND t.trade_date <= ?");
        }
        if status {
            push_text(&mut out, " AND t.status = ?");
        }
        push_text(&mut out, " ORDER BY t.trade_date DESC, t.created_at DESC");
        assert(out@ =~= trade_query(account, start, end, status));
        string_from(&out)
    }

    /// The stored trade with a change laid over it: every field that the
    /// change names takes the new value, every other field stays, and the
    /// trade counts as updated at `now`. The instrument changes only where a
    /// new one is named; symbol and asset class are still those of the stored
    /// trade.
    pub fn apply_update(
        existing: Trade,
        instrument_id: Option<&str>,
        input: &UpdateTradeInput,
        now: i64,
    ) -> (r: Trade)
        ensures
            r.id == existing.id,
            r.user_id == existing.user_id,
            r.symbol == existing.symbol,
            r.asset_class == existing.asset_class,
            r.created_at == existing.created_at,
            r.updated_at == now,
            r.account_id@ == match input.account_id {
                Some(a) => a@,
                None => existing.account_id@,
            },
            r.instrument_id@ == match instrument_id {
                Some(i) => i@,
                None => existing.instrument_id@,
            },
            r.trade_number == match input.trade_number {
                Some(n) => Some(n),
                None => existing.trade_number,
            },
            r.trade_date == match input.trade_date {
                Some(d) => d,
                None => existing.trade_date,
            },
            r.direction == match input.direction {
                Some(d) => d,
                None => existing.direction,
            },
            r.quantity == match input.quantity {
                Some(q) => Some(q),
                None => existing.quantity,
            },
            r.entry_price == match input.entry_price {
                Some(p) => p,
                None => existing.entry_price,
            },
            r.exit_price == match input.exit_price {
                Some(p) => Some(p),
                None => existing.exit_price,
            },
            r.stop_loss_price == match input.stop_loss_price {
                Some(p) => Some(p),
                None => existing.stop_loss_price,
            },
            text_of(r.entry_time) == match input.entry_time {
                Some(t) => Some(t@),
                None => text_of(existing.entry_time),
            },
            text_of(r.exit_time) == match input.exit_time {
                Some(t) => Some(t@),
                None => text_of(existing.exit_time),
            },
            r.fees == match input.fees {
                Some(f) => f,
                None => existing.fees,
            },
            text_of(r.strategy) == match input.strategy {
                Some(t) => Some(t@),
                None => text_of(existing.strategy),
            },
            text_of(r.notes) == match input.notes {
                Some(t) => Some(t@),
                None => text_of(existing.notes),
            },
            r.status == match input.status {
                Some(s) => s,
                None => existing.status,
            },
    {
        Trade {
            id: existing.id,
            user_id: existing.user_id,
            account_id: match &input.account_id {
                Some(a) => a.clone(),
                None => existing.account_id,
            },
            instrument_id: match instrument_id {
                Some(i) => i.to_owned(),
                None => existing.instrument_id,
            },
            symbol: existing.symbol,
            asset_class: existing.asset_class,
            trade_number: match input.trade_number {
                Some(n) => Some(n),
                None => existing.trade_number,
            },
            trade_date: match input.trade_date {
                Some(d) => d,
                None => existing.trade_date,
            },
            direction: match input.direction {
                Some(d) => d,
                None => existing.direction,
            },
            quantity: match input.quantity {
                Some(q) => Some(q),
                None => existing.quantity,
            },
            entry_price: match input.entry_price {
                Some(p) => p,
                None => existing.entry_price,
            },
            exit_price: match input.exit_price {
                Some(p) => Some(p),
                None => existing.exit_price,
            },
            stop_loss_price: match input.stop_loss_price {
                Some(p) => Some(p),
                None => existing.stop_loss_price,
            },
            entry_time: match &input.entry_time {
                Some(t) => Some(t.clone()),
                None => existing.entry_time,
            },
            exit_time: match &input.exit_time {
                Some(t) => Some(t.clone()),
                None => existing.exit_time,
            },
            fees: match input.fees {
                Some(f) => f,
                None => existing.fees,
            },
            strategy: match &input.strategy {
                Some(t) => Some(t.clone()),
                None => existing.strategy,
            },
            notes: match &input.notes {
                Some(t) => Some(t.clone()),
                None => existing.notes,
            },
            status: match input.status {
                Some(s) => s,
                None => existing.status,
            },
            created_at: existing.created_at,
            updated_at: now,
        }
    }
}

} // verus!
