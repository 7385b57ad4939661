//! Profit and loss of a single trade.

use crate::decimal::{micros_of, spec_abs, spec_div, spec_mul, spec_sub, Decimal};
use crate::models::{DerivedFields, Direction, Trade, TradeResult};
use vstd::prelude::*;

verus! {

/// Price gained per unit: what was paid on entry against what came back on
/// exit for a long trade, the reverse for a short one.
pub open spec fn pnl_per_share(direction: Direction, entry: int, exit: int) -> int {
    match direction {
        Direction::Long => spec_sub(exit, entry),
        Direction::Short => spec_sub(entry, exit),
    }
}

/// Profit before fees: the gain per unit, times the quantity, times the
/// contract multiplier.
pub open spec fn gross_pnl(
    direction: Direction,
    entry: int,
    exit: int,
    quantity: int,
    multiplier: int,
) -> int {
    spec_mul(spec_mul(pnl_per_share(direction, entry, exit), quantity), multiplier)
}

/// Profit after fees.
pub open spec fn net_pnl(gross: int, fees: int) -> int {
    spec_sub(gross, fees)
}

/// Distance between entry and stop, or nothing when the two coincide.
pub open spec fn risk_per_share(entry: int, stop: int) -> Option<int> {
    let risk = spec_abs(spec_sub(entry, stop));
    if risk > 0 {
        Some(risk)
    } else {
        None
    }
}

/// Gain per unit as a multiple of the risk per unit, where a positive risk is
/// known.
pub open spec fn r_multiple(per_share: int, risk: Option<int>) -> Option<int> {
    match risk {
        Some(r) if r > 0 => Some(spec_div(per_share, r)),
        _ => None,
    }
}

/// Win above zero, loss below, breakeven at exactly zero.
pub open spec fn classify(net: int) -> TradeResult {
    if net > 0 {
        TradeResult::Win
    } else if net < 0 {
        TradeResult::Loss
    } else {
        TradeResult::Breakeven
    }
}

/// The amount of `x` millionths, where there is one.
pub open spec fn amount_of(x: Option<int>) -> Option<Decimal> {
    match x {
        Some(v) => Some(Decimal::nearest(v)),
        None => None,
    }
}

/// All derived figures of a trade, each from the inputs that it needs and no
/// others. The risk per share comes from the entry and the stop. The P&L per
/// share comes from the entry and the exit, and the R-multiple from these two;
/// neither depends on the quantity. Gross and net P&L, and with them the
/// result, need an exit price and a quantity. A figure whose inputs are not
/// all there is absent.
pub open spec fn derived_fields_of(trade: Trade) -> DerivedFields {
    let entry = trade.entry_price@;
    let risk = match trade.stop_loss_price {
        Some(stop) => risk_per_share(entry, stop@),
        None => None,
    };
    let per_share = match trade.exit_price {
        Some(exit) => Some(pnl_per_share(trade.direction, entry, exit@)),
        None => None,
    };
    let gross = match (trade.exit_price, trade.quantity) {
        (Some(exit), Some(quantity)) => Some(
            gross_pnl(
                trade.direction,
                entry,
                exit@,
                quantity@,
                trade.asset_class.multiplier_micros(),
            ),
        ),
        _ => None,
    };
    let net = match gross {
        Some(g) => Some(net_pnl(g, trade.fees@)),
        None => None,
    };
    DerivedFields {
        gross_pnl: amount_of(gross),
        net_pnl: amount_of(net),
        pnl_per_share: amount_of(per_share),
        risk_per_share: amount_of(risk),
        r_multiple: match per_share {
            Some(p) => amount_of(r_multiple(p, risk)),
            None => None,
        },
        result: match net {
            Some(n) => Some(classify(n)),
            None => None,
        },
    }
}

/// Gross P&L of a trade. Long: (exit − entry) × quantity × multiplier; short:
/// (entry − exit) × quantity × multiplier.
pub fn calculate_gross_pnl(
    direction: Direction,
    entry_price: Decimal,
    exit_price: Decimal,
    quantity: Decimal,
    multiplier: Decimal,
) -> (r: Decimal)
    ensures
        r@ == gross_pnl(direction, entry_price@, exit_price@, quantity@, multiplier@),
{
    let per_share = calculate_pnl_per_share(direction, entry_price, exit_price);
    per_share.mul(&quantity).mul(&multiplier)
}

/// Net P&L: gross P&L minus fees.
pub fn calculate_net_pnl(gross_pnl: Decimal, fees: Decimal) -> (r: Decimal)
    ensures
        r@ == net_pnl(gross_pnl@, fees@),
{
    gross_pnl.sub(&fees)
}

/// P&L per share. Long: exit − entry; short: entry − exit.
pub fn calculate_pnl_per_share(direction: Direction, entry_price: Decimal, exit_price: Decimal) -> (r:
    Decimal)
    ensures
        r@ == pnl_per_share(direction, entry_price@, exit_price@),
{
    match direction {
        Direction::Long => exit_price.sub(&entry_price),
        Direction::Short => entry_price.sub(&exit_price),
    }
}

/// Risk per share, |entry − stop|; `None` when the stop equals the entry.
pub fn calculate_risk_per_share(entry_price: Decimal, stop_loss_price: Decimal) -> (r: Option<
    Decimal,
>)
    ensures
        micros_of(r) == risk_per_share(entry_price@, stop_loss_price@),
{
    let risk = entry_price.sub(&stop_loss_price).abs();
    if risk.is_positive() {
        Some(risk)
    } else {
        None
    }
}

/// R-multiple, P&L per share over risk per share; `None` without a positive
/// risk.
pub fn calculate_r_multiple(pnl_per_share: Decimal, risk_per_share: Option<Decimal>) -> (r: Option<
    Decimal,
>)
    ensures
        micros_of(r) == r_multiple(pnl_per_share@, micros_of(risk_per_share)),
{
    match risk_per_share {
        Some(risk) => {
            if risk.is_positive() {
                pnl_per_share.checked_div(&risk)
            } else {
                None
            }
        },
        None => None,
    }
}

/// Win for a positive net P&L, loss for a negative one, breakeven at exactly
/// zero.
pub fn classify_result(net_pnl: Decimal) -> (r: TradeResult)
    ensures
        r == classify(net_pnl@),
{
    if net_pnl.is_positive() {
        TradeResult::Win
    } else if net_pnl.is_negative() {
        TradeResult::Loss
    } else {
        TradeResult::Breakeven
    }
}

/// All derived figures of a trade. The risk per share needs the stop, the
/// P&L per share and the R-multiple need the exit price but not the quantity,
/// and gross P&L, net P&L and the result need the exit price and the
/// quantity. What lacks an input is `None`.
pub fn calculate_derived_fields(trade: &Trade) -> (r: DerivedFields)
    ensures
        r == derived_fields_of(*trade),
{
    let multiplier = trade.asset_class.multiplier();
    let risk_per_share = match trade.stop_loss_price {
        Some(stop) => calculate_risk_per_share(trade.entry_price, stop),
        None => None,
    };
    let pnl_per_share = match trade.exit_price {
        Some(exit) => Some(calculate_pnl_per_share(trade.direction, trade.entry_price, exit)),
        None => None,
    };
    let r_multiple = match pnl_per_share {
        Some(per_share) => calculate_r_multiple(per_share, risk_per_share),
        None => None,
    };
    let gross_pnl = match (trade.exit_price, trade.quantity) {
        (Some(exit), Some(quantity)) => Some(
            calculate_gross_pnl(trade.direction, trade.entry_price, exit, quantity, multiplier),
        ),
        _ => None,
    };
    let net_pnl = match gross_pnl {
        Some(gross) => Some(calculate_net_pnl(gross, trade.fees)),
        None => None,
    };
    let result = match net_pnl {
        Some(net) => Some(classify_result(net)),
        None => None,
    };
    DerivedFields { gross_pnl, net_pnl, pnl_per_share, risk_per_share, r_multiple, result }
}

/// Deriving is a function of the trade's direction, prices, quantity, stop,
/// fees and asset class, and of nothing else: two trades that agree on these
/// have the same derived figures, whatever else they hold and whenever they
/// are derived.
pub proof fn lemma_derived_depends_on_inputs_only(a: Trade, b: Trade)
    requires
        a.direction == b.direction,
        a.entry_price == b.entry_price,
        a.exit_price == b.exit_price,
        a.quantity == b.quantity,
        a.stop_loss_price == b.stop_loss_price,
        a.fees == b.fees,
        a.asset_class == b.asset_class,
    ensures
        derived_fields_of(a) == derived_fields_of(b),
{
}

/// The P&L per share and the R-multiple do not depend on the quantity: two
/// trades that differ in nothing that bears on the figures but the quantity
/// have the same of both.
pub proof fn lemma_per_share_figures_ignore_quantity(a: Trade, b: Trade)
    requires
        a.direction == b.direction,
        a.entry_price == b.entry_price,
        a.exit_price == b.exit_price,
        a.stop_loss_price == b.stop_loss_price,
    ensures
        derived_fields_of(a).pnl_per_share == derived_fields_of(b).pnl_per_share,
        derived_fields_of(a).risk_per_share == derived_fields_of(b).risk_per_share,
        derived_fields_of(a).r_multiple == derived_fields_of(b).r_multiple,
{
}

/// Gross P&L, net P&L and the result are there exactly when the trade has an
/// exit price and a quantity; the P&L per share exactly when it has an exit
/// price.
pub proof fn lemma_figures_are_there_with_their_inputs(trade: Trade)
    ensures
        derived_fields_of(trade).gross_pnl is Some <==> trade.exit_price is Some
            && trade.quantity is Some,
        derived_fields_of(trade).net_pnl is Some <==> trade.exit_price is Some
            && trade.quantity is Some,
        derived_fields_of(trade).result is Some <==> trade.exit_price is Some
            && trade.quantity is Some,
        derived_fields_of(trade).pnl_per_share is Some <==> trade.exit_price is Some,
        derived_fields_of(trade).r_multiple is Some ==> trade.exit_price is Some
            && trade.stop_loss_price is Some,
{
}

/// A trade without an exit price has no realized figures and no result.
pub proof fn lemma_open_trade_has_no_pnl(trade: Trade)
    requires
        trade.exit_price is None,
    ensures
        derived_fields_of(trade).gross_pnl is None,
        derived_fields_of(trade).net_pnl is None,
        derived_fields_of(trade).pnl_per_share is None,
        derived_fields_of(trade).r_multiple is None,
        derived_fields_of(trade).result is None,
{
}

/// The result of a closed trade says on which side of zero its net P&L lies.
pub proof fn lemma_result_follows_net_pnl(trade: Trade)
    requires
        derived_fields_of(trade).net_pnl is Some,
    ensures
        derived_fields_of(trade).result == Some(classify(derived_fields_of(trade).net_pnl->0@)),
{
}

} // verus!
