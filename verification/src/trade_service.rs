//! Trades that are keyed in by hand: validating the input and folding a list
//! of partial exits into one exit price, fee total and status.

use crate::decimal::{clamp, decimal_text, micros_of, spec_add, Decimal};
use crate::import::{
    average_price,
    leg_models,
    leg_totals,
    text_of,
    total_fees,
    total_quantity,
    weighted_average,
    Leg,
    LegModel,
    QUANTITY_EPSILON,
};
use crate::models::{CreateTradeInput, ExitExecution, Status, Trade, TradeWithDerived};
use crate::pnl::{calculate_derived_fields, derived_fields_of};
use crate::text::{
    digits_of,
    lemma_text_lt_asymmetric,
    lemma_text_not_after_carries_over,
    push_number,
    push_text,
    string_from,
    text_less,
    text_lt,
};
use vstd::prelude::*;

verus! {

impl Leg for ExitExecution {
    /// A partial exit as a leg; a fee that was left out counts as zero.
    open spec fn leg(&self) -> LegModel {
        LegModel {
            execution_type: "exit"@,
            year: self.exit_date.year_of(),
            month: self.exit_date.month_of(),
            day: self.exit_date.day_of(),
            execution_time: text_of(self.exit_time),
            quantity: self.quantity@,
            price: self.price@,
            fees: match self.fees {
                Some(f) => f@,
                None => 0,
            },
            exchange: None,
            broker_execution_id: match self.id {
                Some(s) => s@,
                None => Seq::empty(),
            },
        }
    }

    fn leg_quantity(&self) -> (r: Decimal) {
        self.quantity
    }

    fn leg_price(&self) -> (r: Decimal) {
        self.price
    }

    fn leg_fees(&self) -> (r: Decimal) {
        match self.fees {
            Some(f) => f,
            None => Decimal::zero(),
        }
    }
}

/// What is wrong with the exit at index `i`, counted from 1 in the message:
/// a quantity or a price that is not positive, or a negative fee.
pub open spec fn exit_fault(exit: ExitExecution, i: int) -> Option<Seq<char>> {
    let ordinal = "Exit "@ + digits_of((i + 1) as nat);
    if exit.quantity@ <= 0 {
        Some(ordinal + " quantity must be greater than 0"@)
    } else if exit.price@ <= 0 {
        Some(ordinal + " price must be greater than 0"@)
    } else if exit.fees is Some && exit.fees->0@ < 0 {
        Some(ordinal + " fees cannot be negative"@)
    } else {
        None
    }
}

/// The complaint about the first faulty exit at or after index `i`.
pub open spec fn exits_complaint(exits: Seq<ExitExecution>, i: int) -> Option<Seq<char>>
    decreases exits.len() - i,
{
    if i < 0 || i >= exits.len() {
        None
    } else if exit_fault(exits[i], i) is Some {
        exit_fault(exits[i], i)
    } else {
        exits_complaint(exits, i + 1)
    }
}

/// The first thing that is wrong with the input, if anything is: the entry
/// price, the quantity, the exit price and the stop have to be positive where
/// they are given, the fees not negative, and then every exit in turn.
pub open spec fn input_complaint(input: CreateTradeInput) -> Option<Seq<char>> {
    if input.entry_price@ <= 0 {
        Some("Entry price must be greater than 0"@)
    } else if input.quantity is Some && input.quantity->0@ <= 0 {
        Some("Quantity must be greater than 0"@)
    } else if input.exit_price is Some && input.exit_price->0@ <= 0 {
        Some("Exit price must be greater than 0"@)
    } else if input.stop_loss_price is Some && input.stop_loss_price->0@ <= 0 {
        Some("Stop loss price must be greater than 0"@)
    } else if input.fees is Some && input.fees->0@ < 0 {
        Some("Fees cannot be negative"@)
    } else {
        match input.exits {
            Some(exits) => exits_complaint(exits@, 0),
            None => None,
        }
    }
}

/// The latest of the exit times that are given, as texts compare.
pub open spec fn latest_time(exits: Seq<ExitExecution>) -> Option<Seq<char>>
    decreases exits.len(),
{
    if exits.len() == 0 {
        None
    } else {
        let before = latest_time(exits.drop_last());
        match (text_of(exits.last().exit_time), before) {
            (None, _) => before,
            (Some(t), None) => Some(t),
            (Some(t), Some(b)) => if text_lt(t, b) {
                Some(b)
            } else {
                Some(t)
            },
        }
    }
}

/// Index of the exit that has the latest exit time; -1 where no exit has a
/// time.
pub open spec fn latest_time_index(exits: Seq<ExitExecution>) -> int
    decreases exits.len(),
{
    if exits.len() == 0 {
        -1
    } else {
        let before = latest_time(exits.drop_last());
        match (text_of(exits.last().exit_time), before) {
            (None, _) => latest_time_index(exits.drop_last()),
            (Some(t), None) => exits.len() - 1,
            (Some(t), Some(b)) => if text_lt(t, b) {
                latest_time_index(exits.drop_last())
            } else {
                exits.len() - 1
            },
        }
    }
}

/// The latest exit time is the time of one of the exits, the one at
/// `latest_time_index`; there is none only where no exit has a time.
pub proof fn lemma_latest_time_is_a_time(exits: Seq<ExitExecution>)
    ensures
        -1 <= latest_time_index(exits) < exits.len(),
        latest_time_index(exits) == -1 <==> latest_time(exits) is None,
        latest_time_index(exits) >= 0 ==> latest_time(exits) == text_of(
            exits[latest_time_index(exits)].exit_time,
        ),
    decreases exits.len(),
{
    if exits.len() > 0 {
        let head = exits.drop_last();
        lemma_latest_time_is_a_time(head);
        if latest_time_index(head) >= 0 {
            assert(head[latest_time_index(head)] == exits[latest_time_index(head)]);
        }
    }
}

/// No exit has a later time than the latest.
pub proof fn lemma_latest_time_is_latest(exits: Seq<ExitExecution>, i: int)
    requires
        0 <= i < exits.len(),
        exits[i].exit_time is Some,
    ensures
        latest_time(exits) is Some,
        !text_lt(latest_time(exits)->0, exits[i].exit_time->0@),
    decreases exits.len(),
{
    let head = exits.drop_last();
    let last = exits[exits.len() - 1];
    let before = latest_time(head);
    if i < exits.len() - 1 {
        assert(head[i] == exits[i]);
        lemma_latest_time_is_latest(head, i);
        let u = exits[i].exit_time->0@;
        match text_of(last.exit_time) {
            None => {},
            Some(t) => {
                if !text_lt(t, before->0) {
                    lemma_text_not_after_carries_over(u, before->0, t);
                }
            },
        }
    } else {
        let t = last.exit_time->0@;
        if before is Some && text_lt(t, before->0) {
            lemma_text_lt_asymmetric(t, before->0);
        } else if text_lt(t, t) {
            lemma_text_lt_asymmetric(t, t);
        }
    }
}

/// What a list of partial exits comes to.
pub struct ExitSummary {
    pub exit_price: Option<int>,
    pub exit_time: Option<Seq<char>>,
    pub fees: Option<int>,
    pub status: Option<Status>,
}

/// The complaint about exits that add up to more than was entered.
pub open spec fn exceeds_message(exited: int, entered: int) -> Seq<char> {
    "Total exit quantity ("@ + decimal_text(exited) + ") cannot exceed entry quantity ("@
        + decimal_text(entered) + ")"@
}

/// The status that the exited quantity gives a trade of the entered
/// quantity: closed when the two differ by less than `QUANTITY_EPSILON`, open
/// when something, but strictly less, was exited; nothing is said where no
/// quantity was entered.
pub open spec fn status_after_exits(entered: int, exited: int) -> Option<Status> {
    if entered > 0 && -QUANTITY_EPSILON < exited - entered < QUANTITY_EPSILON {
        Some(Status::Closed)
    } else if exited > 0 && exited < entered {
        Some(Status::Open)
    } else {
        None
    }
}

/// What the partial exits of the input come to, or why they are refused.
/// Without exits there is nothing to report. Exits that add up to more than a
/// positive entered quantity are refused. Otherwise: the quantity-weighted
/// average exit price, the latest exit time, the summed exit fees if there
/// are any, and the status.
pub open spec fn exit_summary(input: CreateTradeInput) -> Result<ExitSummary, Seq<char>> {
    let none = ExitSummary { exit_price: None, exit_time: None, fees: None, status: None };
    match input.exits {
        None => Ok(none),
        Some(exits) => {
            let l = leg_models(exits@);
            let entered = match input.quantity {
                Some(q) => q@,
                None => 0,
            };
            let exited = total_quantity(l);
            if exits@.len() == 0 {
                Ok(none)
            } else if entered > 0 && exited > entered {
                Err(exceeds_message(clamp(exited), entered))
            } else {
                Ok(
                    ExitSummary {
                        exit_price: Some(average_price(l)),
                        exit_time: latest_time(exits@),
                        fees: if total_fees(l) > 0 {
                            Some(clamp(total_fees(l)))
                        } else {
                            None
                        },
                        status: status_after_exits(entered, exited),
                    },
                )
            }
        },
    }
}

/// The latest of the exit times that are given.
fn latest_exit_time(exits: &Vec<ExitExecution>) -> (r: Option<String>)
    ensures
        text_of(r) == latest_time(exits@),
{
    let mut best: Option<usize> = None;
    let mut i: usize = 0;
    assert(exits@.take(0) =~= Seq::<ExitExecution>::empty());
    while i < exits.len()
        invariant
            i <= exits.len(),
            match best {
                Some(k) => k < i && exits[k as int].exit_time is Some && latest_time(
                    exits@.take(i as int),
                ) == Some(exits[k as int].exit_time->0@),
                None => latest_time(exits@.take(i as int)) is None,
            },
        decreases exits.len() - i,
    {
        proof {
            assert(exits@.take(i + 1).drop_last() =~= exits@.take(i as int));
            assert(exits@.take(i + 1).last() == exits@[i as int]);
        }
        match &exits[i].exit_time {
            None => {},
            Some(t) => {
                match best {
                    None => {
                        best = Some(i);
                    },
                    Some(k) => {
                        let current = match &exits[k].exit_time {
                            Some(c) => c,
                            None => t,
                        };
                        if !text_less(t.as_str(), current.as_str()) {
                            best = Some(i);
                        }
                    },
                }
            },
        }
        i = i + 1;
    }
    assert(exits@.take(i as int) =~= exits@);
    match best {
        Some(k) => match &exits[k].exit_time {
            Some(t) => Some(t.clone()),
            None => None,
        },
        None => None,
    }
}

/// Entering and changing trades by hand.
pub struct TradeService;

impl TradeService {
    /// Checks the input of a new trade. The first fault found is reported, in
    /// the order: entry price, quantity, exit price, stop, fees, then each
    /// exit in turn with its quantity, price and fees.
    pub fn validate_input(input: &CreateTradeInput) -> (r: Result<(), String>)
        ensures
            match r {
                Ok(_) => input_complaint(*input) is None,
                Err(e) => input_complaint(*input) == Some(e@),
            },
    {
        if input.entry_price.micros() <= 0 {
            return Err("Entry price must be greater than 0".to_owned());
        }
        match input.quantity {
            Some(q) => {
                if q.micros() <= 0 {
                    return Err("Quantity must be greater than 0".to_owned());
                }
            },
            None => {},
        }
        match input.exit_price {
            Some(p) => {
                if p.micros() <= 0 {
                    return Err("Exit price must be greater than 0".to_owned());
                }
            },
            None => {},
        }
        match input.stop_loss_price {
            Some(p) => {
                if p.micros() <= 0 {
                    return Err("Stop loss price must be greater than 0".to_owned());
                }
            },
            None => {},
        }
        match input.fees {
            Some(f) => {
                if f.micros() < 0 {
                    return Err("Fees cannot be negative".to_owned());
                }
            },
            None => {},
        }
        match &input.exits {
            None => Ok(()),
            Some(exits) => {
                let mut i: usize = 0;
                while i < exits.len()
                    invariant
                        i <= exits.len(),
                        input_complaint(*input) == exits_complaint(exits@, 0),
                        exits_complaint(exits@, 0) == exits_complaint(exits@, i as int),
                    decreases exits.len() - i,
                {
                    let exit = &exits[i];
                    let fault: Option<&str> = if exit.quantity.micros() <= 0 {
                        Some(" quantity must be greater than 0")
                    } else if exit.price.micros() <= 0 {
                        Some(" price must be greater than 0")
                    } else {
                        match exit.fees {
                            Some(f) => if f.micros() < 0 {
                                Some(" fees cannot be negative")
                            } else {
                                None
                            },
                            None => None,
                        }
                    };
                    match fault {
                        Some(what) => {
                            let mut out: Vec<char> = Vec::new();
                            push_text(&mut out, "Exit ");
                            push_number(&mut out, i as u64 + 1);
                            push_text(&mut out, what);
                            assert(out@ =~= "Exit "@ + digits_of((i + 1) as nat) + what@);
                            return Err(string_from(&out));
                        },
                        None => {},
                    }
                    i = i + 1;
                }
                Ok(())
            },
        }
    }

    /// Folds the partial exits of the input into an exit price, an exit time,
    /// a fee total and a status.
    pub fn process_exits(input: &CreateTradeInput) -> (r: Result<
        (Option<Decimal>, Option<String>, Option<Decimal>, Option<Status>),
        String,
    >)
        ensures
            match r {
                Ok(s) => exit_summary(*input) == Ok::<ExitSummary, Seq<char>>(
                    ExitSummary {
                        exit_price: micros_of(s.0),
                        exit_time: text_of(s.1),
                        fees: micros_of(s.2),
                        status: s.3,
                    },
                ),
                Err(e) => exit_summary(*input) == Err::<ExitSummary, Seq<char>>(e@),
            },
    {
        let exits = match &input.exits {
            Some(exits) => exits,
            None => {
                return Ok((None, None, None, None));
            },
        };
        if exits.len() == 0 {
            return Ok((None, None, None, None));
        }
        let entered: Decimal = match input.quantity {
            Some(q) => q,
            None => Decimal::zero(),
        };
        let totals = leg_totals(exits);
        let entered_wide: i128 = entered.micros() as i128;
        if entered.is_positive() && totals.quantity > entered_wide {
            let mut out: Vec<char> = Vec::new();
            push_text(&mut out, "Total exit quantity (");
            Decimal::saturate(totals.quantity).push_text(&mut out);
            push_text(&mut out, ") cannot exceed entry quantity (");
            entered.push_text(&mut out);
            push_text(&mut out, ")");
            assert(out@ =~= exceeds_message(clamp(totals.quantity as int), entered@));
            return Err(string_from(&out));
        }
        let exit_price = weighted_average(&totals);
        let exit_time = latest_exit_time(exits);
        let fees = if totals.fees > 0 {
            Some(Decimal::saturate(totals.fees))
        } else {
            None
        };
        let epsilon: i128 = QUANTITY_EPSILON as i128;
        let status = if entered.is_positive() && entered_wide - epsilon < totals.quantity
            && totals.quantity < entered_wide + epsilon {
            Some(Status::Closed)
        } else if totals.quantity > 0 && totals.quantity < entered_wide {
            Some(Status::Open)
        } else {
            None
        };
        Ok((Some(exit_price), exit_time, fees, status))
    }

    /// Checks the input of a new trade and folds its partial exits into it:
    /// where exits are given, their average price, latest time and status
    /// take the place of what the input said, and their fees are added to
    /// its fees. Everything else is handed back as it came.
    pub fn prepare_trade(input: CreateTradeInput) -> (r: Result<CreateTradeInput, String>)
        ensures
            match r {
                Err(e) => input_complaint(input) == Some(e@) || (input_complaint(input) is None
                    && exit_summary(input) == Err::<ExitSummary, Seq<char>>(e@)),
                Ok(out) => {
                    &&& input_complaint(input) is None
                    &&& exit_summary(input) is Ok
                    &&& micros_of(out.exit_price) == match exit_summary(input)->Ok_0.exit_price {
                        Some(p) => Some(p),
                        None => micros_of(input.exit_price),
                    }
                    &&& text_of(out.exit_time) == match exit_summary(input)->Ok_0.exit_time {
                        Some(t) => Some(t),
                        None => text_of(input.exit_time),
                    }
                    &&& micros_of(out.fees) == match exit_summary(input)->Ok_0.fees {
                        Some(f) => Some(
                            spec_add(
                                match input.fees {
                                    Some(base) => base@,
                                    None => 0,
                                },
                                f,
                            ),
                        ),
                        None => micros_of(input.fees),
                    }
                    &&& out.status == match exit_summary(input)->Ok_0.status {
                        Some(s) => Some(s),
                        None => input.status,
                    }
                    &&& out.account_id == input.account_id
                    &&& out.symbol == input.symbol
                    &&& out.asset_class == input.asset_class
                    &&& out.trade_number == input.trade_number
                    &&& out.trade_date == input.trade_date
                    &&& out.direction == input.direction
                    &&& out.quantity == input.quantity
                    &&& out.entry_price == input.entry_price
                    &&& out.stop_loss_price == input.stop_loss_price
                    &&& out.entry_time == input.entry_time
                    &&& out.strategy == input.strategy
                    &&& out.notes == input.notes
                    &&& out.exits == input.exits
                },
            },
    {
        match Self::validate_input(&input) {
            Err(e) => {
                return Err(e);
            },
            Ok(_) => {},
        }
        let (exit_price, exit_time, exit_fees, status) = match Self::process_exits(&input) {
            Err(e) => {
                return Err(e);
            },
            Ok(s) => s,
        };
        let mut out = input;
        match exit_price {
            Some(p) => {
                out.exit_price = Some(p);
            },
            None => {},
        }
        match exit_time {
            Some(t) => {
                out.exit_time = Some(t);
            },
            None => {},
        }
        match exit_fees {
            Some(f) => {
                let base = match out.fees {
                    Some(b) => b,
                    None => Decimal::zero(),
                };
                out.fees = Some(base.add(&f));
            },
            None => {},
        }
        match status {
            Some(s) => {
                out.status = Some(s);
            },
            None => {},
        }
        Ok(out)
    }

    /// The trade together with its derived figures.
    pub fn with_derived_fields(trade: Trade) -> (r: TradeWithDerived)
        ensures
            r.trade == trade,
            r.derived() == derived_fields_of(trade),
    {
        let derived = calculate_derived_fields(&trade);
        TradeWithDerived::from_trade(trade, derived)
    }
}

} // verus!
