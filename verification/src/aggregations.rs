//! Reports over many trades: daily performance, period statistics, and the
//! equity curve with its drawdown.

use crate::date::Date;
use crate::decimal::{
    clamp,
    spec_abs,
    spec_add,
    spec_div,
    spec_mul,
    spec_ratio,
    spec_sub,
    trunc_div,
    Decimal,
    SCALE,
};
use crate::models::{
    count_for_report,
    report_count,
    DailyPerformance,
    EquityPoint,
    PeriodMetrics,
    ProfitFactor,
    TradeResult,
    TradeWithDerived,
};
use crate::sorting::{stable_sort, stable_sorted, Ranked};
use vstd::prelude::*;

verus! {

/// What the reports read of one closed trade: its date, its realized net P&L
/// and its classification.
#[derive(Clone, Copy, Debug, PartialEq, Eq, Structural)]
pub struct Outcome {
    pub date: Date,
    pub net_pnl: Decimal,
    pub result: Option<TradeResult>,
}

impl Ranked for Outcome {
    /// Outcomes are ranked by date alone.
    open spec fn before(&self, other: &Self) -> bool {
        self.date.key() < other.date.key()
    }

    fn comes_before(&self, other: &Self) -> (r: bool) {
        self.date.sort_key() < other.date.sort_key()
    }
}

/// The outcome of a trade that carries a net P&L; a trade without one is
/// still open and has no outcome.
pub open spec fn outcome_of(t: TradeWithDerived) -> Option<Outcome> {
    match t.net_pnl {
        Some(net) => Some(Outcome { date: t.trade.trade_date, net_pnl: net, result: t.result }),
        None => None,
    }
}

/// The outcomes of the trades that have one, in the order of the trades.
pub open spec fn realized(trades: Seq<TradeWithDerived>) -> Seq<Outcome>
    decreases trades.len(),
{
    if trades.len() == 0 {
        Seq::empty()
    } else {
        match outcome_of(trades.last()) {
            Some(o) => realized(trades.drop_last()).push(o),
            None => realized(trades.drop_last()),
        }
    }
}

/// The trades behind a list of references.
pub open spec fn pointees(trades: Seq<&TradeWithDerived>) -> Seq<TradeWithDerived> {
    Seq::new(trades.len(), |i: int| *trades[i])
}

/// The outcomes dated on the day with the given key.
pub open spec fn on_day(o: Seq<Outcome>, key: int) -> Seq<Outcome>
    decreases o.len(),
{
    if o.len() == 0 {
        o
    } else if o.last().date.key() == key {
        on_day(o.drop_last(), key).push(o.last())
    } else {
        on_day(o.drop_last(), key)
    }
}

/// The outcomes dated on or before the day with the given key.
pub open spec fn through_day(o: Seq<Outcome>, key: int) -> Seq<Outcome>
    decreases o.len(),
{
    if o.len() == 0 {
        o
    } else if o.last().date.key() <= key {
        through_day(o.drop_last(), key).push(o.last())
    } else {
        through_day(o.drop_last(), key)
    }
}

/// Exact sum of the net P&L of the outcomes, in millionths.
pub open spec fn sum_net(o: Seq<Outcome>) -> int
    decreases o.len(),
{
    if o.len() == 0 {
        0
    } else {
        sum_net(o.drop_last()) + o.last().net_pnl@
    }
}

/// The outcomes classified as `which`.
pub open spec fn with_result(o: Seq<Outcome>, which: TradeResult) -> Seq<Outcome>
    decreases o.len(),
{
    if o.len() == 0 {
        o
    } else if o.last().result == Some(which) {
        with_result(o.drop_last(), which).push(o.last())
    } else {
        with_result(o.drop_last(), which)
    }
}

/// `dates`, kept ascending, with `d` put in unless its day is there already.
pub open spec fn insert_date(dates: Seq<Date>, d: Date) -> Seq<Date>
    decreases dates.len(),
{
    if dates.len() == 0 || dates.last().key() < d.key() {
        dates.push(d)
    } else if dates.last().key() == d.key() {
        dates
    } else {
        insert_date(dates.drop_last(), d).push(dates.last())
    }
}

/// The days on which the outcomes fall: each once, earliest first.
pub open spec fn dates_of(o: Seq<Outcome>) -> Seq<Date>
    decreases o.len(),
{
    if o.len() == 0 {
        Seq::empty()
    } else {
        insert_date(dates_of(o.drop_last()), o.last().date)
    }
}

/// The dates stand in strictly ascending order.
pub open spec fn strictly_ascending(dates: Seq<Date>) -> bool {
    forall|i: int, j: int| 0 <= i < j < dates.len() ==> #[trigger] dates[i].key() < #[trigger] dates[j].key()
}

/// Every outcome's day is among `dates`.
pub open spec fn covers(dates: Seq<Date>, o: Seq<Outcome>) -> bool {
    forall|k: int|
        0 <= k < o.len() ==> exists|i: int|
            0 <= i < dates.len() && #[trigger] dates[i].key() == (#[trigger] o[k]).date.key()
}

/// A sum of amounts is no larger in magnitude than their number times the
/// largest magnitude that an amount can have.
pub proof fn lemma_sum_net_bound(o: Seq<Outcome>)
    ensures
        -o.len() * 0x8000_0000_0000_0000 <= sum_net(o) <= o.len() * 0x8000_0000_0000_0000,
    decreases o.len(),
{
    if o.len() > 0 {
        lemma_sum_net_bound(o.drop_last());
    }
}

/// A day holds no more outcomes than there are.
pub proof fn lemma_on_day_len(o: Seq<Outcome>, key: int)
    ensures
        on_day(o, key).len() <= o.len(),
    decreases o.len(),
{
    if o.len() > 0 {
        lemma_on_day_len(o.drop_last(), key);
    }
}

/// No more outcomes fall on or before a day than there are.
pub proof fn lemma_through_day_len(o: Seq<Outcome>, key: int)
    ensures
        through_day(o, key).len() <= o.len(),
    decreases o.len(),
{
    if o.len() > 0 {
        lemma_through_day_len(o.drop_last(), key);
    }
}

/// No more outcomes have a given result than there are.
pub proof fn lemma_with_result_len(o: Seq<Outcome>, which: TradeResult)
    ensures
        with_result(o, which).len() <= o.len(),
    decreases o.len(),
{
    if o.len() > 0 {
        lemma_with_result_len(o.drop_last(), which);
    }
}

/// A day on which no outcome falls has no outcomes.
pub proof fn lemma_on_day_empty(o: Seq<Outcome>, key: int)
    requires
        forall|k: int| 0 <= k < o.len() ==> (#[trigger] o[k]).date.key() != key,
    ensures
        on_day(o, key).len() == 0,
    decreases o.len(),
{
    if o.len() > 0 {
        assert(o.last() == o[o.len() - 1]);
        assert forall|k: int| 0 <= k < o.drop_last().len() implies (#[trigger] o.drop_last()[k]).date.key()
            != key by {
            assert(o.drop_last()[k] == o[k]);
        }
        lemma_on_day_empty(o.drop_last(), key);
    }
}

proof fn lemma_insert_date_at(dates: Seq<Date>, d: Date, p: int)
    requires
        0 <= p <= dates.len(),
        forall|k: int| p <= k < dates.len() ==> (#[trigger] dates[k]).key() > d.key(),
        p == 0 || dates[p - 1].key() <= d.key(),
    ensures
        insert_date(dates, d) == if p > 0 && dates[p - 1].key() == d.key() {
            dates
        } else {
            dates.insert(p, d)
        },
    decreases dates.len(),
{
    if dates.len() == 0 {
        assert(dates.insert(0, d) =~= dates.push(d));
    } else if p == dates.len() {
        assert(dates.insert(p, d) =~= dates.push(d));
    } else {
        assert(dates[dates.len() - 1].key() > d.key());
        let head = dates.drop_last();
        assert forall|k: int| p <= k < head.len() implies (#[trigger] head[k]).key() > d.key() by {
            assert(head[k] == dates[k]);
        }
        lemma_insert_date_at(head, d, p);
        if p > 0 && dates[p - 1].key() == d.key() {
            assert(head.push(dates.last()) =~= dates);
        } else {
            assert(head.insert(p, d).push(dates.last()) =~= dates.insert(p, d));
        }
    }
}

/// Whether one of the dates has the given key.
pub open spec fn has_day(dates: Seq<Date>, key: int) -> bool {
    exists|i: int| 0 <= i < dates.len() && #[trigger] dates[i].key() == key
}

proof fn lemma_has_day_push(dates: Seq<Date>, d: Date, key: int)
    ensures
        has_day(dates.push(d), key) <==> (key == d.key() || has_day(dates, key)),
{
    let r = dates.push(d);
    if has_day(r, key) {
        let i = choose|i: int| 0 <= i < r.len() && #[trigger] r[i].key() == key;
        if i < dates.len() {
            assert(dates[i].key() == key);
        }
    }
    if key == d.key() {
        assert(r[dates.len() as int].key() == key);
    }
    if has_day(dates, key) {
        let i = choose|i: int| 0 <= i < dates.len() && #[trigger] dates[i].key() == key;
        assert(r[i].key() == key);
    }
}

proof fn lemma_insert_date_has(dates: Seq<Date>, d: Date, key: int)
    ensures
        has_day(insert_date(dates, d), key) <==> (key == d.key() || has_day(dates, key)),
    decreases dates.len(),
{
    if dates.len() == 0 || dates.last().key() < d.key() {
        lemma_has_day_push(dates, d, key);
    } else if dates.last().key() == d.key() {
        if key == d.key() {
            assert(dates[dates.len() - 1].key() == key);
        }
    } else {
        let head = dates.drop_last();
        lemma_insert_date_has(head, d, key);
        lemma_has_day_push(insert_date(head, d), dates.last(), key);
        lemma_has_day_push(head, dates.last(), key);
        assert(head.push(dates.last()) =~= dates);
    }
}

proof fn lemma_insert_date_keeps_order(dates: Seq<Date>, d: Date)
    requires
        strictly_ascending(dates),
    ensures
        strictly_ascending(insert_date(dates, d)),
        insert_date(dates, d).len() > 0,
        insert_date(dates, d).last().key() == if dates.len() > 0 && dates.last().key() > d.key() {
            dates.last().key()
        } else {
            d.key()
        },
    decreases dates.len(),
{
    let r = insert_date(dates, d);
    if dates.len() == 0 || dates.last().key() < d.key() {
        assert forall|i: int, j: int| 0 <= i < j < r.len() implies #[trigger] r[i].key()
            < #[trigger] r[j].key() by {
            if j < dates.len() {
                assert(dates[i].key() < dates[j].key());
            } else if i < dates.len() - 1 {
                assert(dates[i].key() < dates[dates.len() - 1].key());
            }
        }
    } else if dates.last().key() == d.key() {
    } else {
        let head = dates.drop_last();
        let last = dates.last();
        assert forall|i: int, j: int| 0 <= i < j < head.len() implies #[trigger] head[i].key()
            < #[trigger] head[j].key() by {
            assert(dates[i].key() < dates[j].key());
        }
        lemma_insert_date_keeps_order(head, d);
        let inner = insert_date(head, d);
        if head.len() > 0 {
            assert(head.last().key() == dates[dates.len() - 2].key());
            assert(dates[dates.len() - 2].key() < dates[dates.len() - 1].key());
        }
        assert(inner[inner.len() - 1].key() < last.key());
        assert forall|i: int, j: int| 0 <= i < j < r.len() implies #[trigger] r[i].key()
            < #[trigger] r[j].key() by {
            if j < inner.len() {
                assert(inner[i].key() < inner[j].key());
            } else if i < inner.len() - 1 {
                assert(inner[i].key() < inner[inner.len() - 1].key());
            }
        }
    }
}

/// A day is among the days of the outcomes exactly when an outcome falls on
/// it.
pub proof fn lemma_day_is_listed_iff_traded(o: Seq<Outcome>, key: int)
    ensures
        has_day(dates_of(o), key) <==> on_day(o, key).len() > 0,
    decreases o.len(),
{
    if o.len() > 0 {
        lemma_day_is_listed_iff_traded(o.drop_last(), key);
        lemma_insert_date_has(dates_of(o.drop_last()), o.last().date, key);
    }
}

/// The days of the outcomes stand in calendar order, each once.
pub proof fn lemma_days_are_in_calendar_order(o: Seq<Outcome>)
    ensures
        strictly_ascending(dates_of(o)),
    decreases o.len(),
{
    if o.len() > 0 {
        lemma_days_are_in_calendar_order(o.drop_last());
        lemma_insert_date_keeps_order(dates_of(o.drop_last()), o.last().date);
    }
}

/// Adding an outcome adds it to its own day and to no other.
proof fn lemma_on_day_push(o: Seq<Outcome>, x: Outcome, key: int)
    ensures
        on_day(o.push(x), key) == if x.date.key() == key {
            on_day(o, key).push(x)
        } else {
            on_day(o, key)
        },
{
    assert(o.push(x).drop_last() =~= o);
}

/// Adding an outcome adds its net P&L to the sum and, where it has that
/// result, the outcome to those with a given result.
proof fn lemma_stats_push(day: Seq<Outcome>, x: Outcome)
    ensures
        sum_net(day.push(x)) == sum_net(day) + x.net_pnl@,
        forall|w: TradeResult| #[trigger]
            with_result(day.push(x), w) == if x.result == Some(w) {
                with_result(day, w).push(x)
            } else {
                with_result(day, w)
            },
{
    assert(day.push(x).drop_last() =~= day);
}

/// Running totals of one day while its outcomes are collected.
#[derive(Clone, Copy)]
struct DayBucket {
    date: Date,
    net: i128,
    trades: usize,
    wins: usize,
    losses: usize,
}

spec fn bucket_matches(b: DayBucket, o: Seq<Outcome>) -> bool {
    let day = on_day(o, b.date.key());
    &&& b.net == sum_net(day)
    &&& b.trades == day.len()
    &&& b.trades >= 1
    &&& b.wins == with_result(day, TradeResult::Win).len()
    &&& b.losses == with_result(day, TradeResult::Loss).len()
}

spec fn bucket_dates(b: Seq<DayBucket>) -> Seq<Date> {
    Seq::new(b.len(), |i: int| b[i].date)
}

/// The buckets are the days of `o`, earliest first, each with its totals.
spec fn grouped(b: Seq<DayBucket>, o: Seq<Outcome>) -> bool {
    &&& bucket_dates(b) == dates_of(o)
    &&& strictly_ascending(bucket_dates(b))
    &&& covers(bucket_dates(b), o)
    &&& forall|i: int| 0 <= i < b.len() ==> bucket_matches(#[trigger] b[i], o)
}

/// The bucket of the day of `x` once `x` is counted in.
spec fn bucket_with(cur: DayBucket, x: Outcome) -> DayBucket {
    DayBucket {
        date: cur.date,
        net: (cur.net + x.net_pnl@) as i128,
        trades: (cur.trades + 1) as usize,
        wins: if x.result == Some(TradeResult::Win) {
            (cur.wins + 1) as usize
        } else {
            cur.wins
        },
        losses: if x.result == Some(TradeResult::Loss) {
            (cur.losses + 1) as usize
        } else {
            cur.losses
        },
    }
}

/// The bucket of a day that so far holds `x` alone.
spec fn bucket_of(x: Outcome) -> DayBucket {
    DayBucket {
        date: x.date,
        net: x.net_pnl@ as i128,
        trades: 1,
        wins: if x.result == Some(TradeResult::Win) {
            1
        } else {
            0
        },
        losses: if x.result == Some(TradeResult::Loss) {
            1
        } else {
            0
        },
    }
}

proof fn lemma_bucket_unchanged(cur: DayBucket, o: Seq<Outcome>, x: Outcome)
    requires
        bucket_matches(cur, o),
        cur.date.key() != x.date.key(),
    ensures
        bucket_matches(cur, o.push(x)),
{
    lemma_on_day_push(o, x, cur.date.key());
}

proof fn lemma_bucket_updated(cur: DayBucket, o: Seq<Outcome>, x: Outcome)
    requires
        bucket_matches(cur, o),
        cur.date.key() == x.date.key(),
        o.len() < usize::MAX,
    ensures
        bucket_matches(bucket_with(cur, x), o.push(x)),
        i128::MIN < cur.net + x.net_pnl@ < i128::MAX,
        cur.trades + 1 <= usize::MAX,
        cur.wins + 1 <= usize::MAX,
        cur.losses + 1 <= usize::MAX,
{
    let day = on_day(o, cur.date.key());
    lemma_on_day_push(o, x, cur.date.key());
    lemma_stats_push(day, x);
    lemma_sum_net_bound(day);
    lemma_on_day_len(o, cur.date.key());
    lemma_with_result_len(day, TradeResult::Win);
    lemma_with_result_len(day, TradeResult::Loss);
    assert(with_result(day.push(x), TradeResult::Win) == if x.result == Some(TradeResult::Win) {
        with_result(day, TradeResult::Win).push(x)
    } else {
        with_result(day, TradeResult::Win)
    });
    assert(with_result(day.push(x), TradeResult::Loss) == if x.result == Some(TradeResult::Loss) {
        with_result(day, TradeResult::Loss).push(x)
    } else {
        with_result(day, TradeResult::Loss)
    });
}

proof fn lemma_bucket_fresh(o: Seq<Outcome>, x: Outcome)
    requires
        forall|k: int| 0 <= k < o.len() ==> (#[trigger] o[k]).date.key() != x.date.key(),
    ensures
        bucket_matches(bucket_of(x), o.push(x)),
{
    let key = x.date.key();
    lemma_on_day_empty(o, key);
    lemma_on_day_push(o, x, key);
    let day = on_day(o, key);
    assert(day =~= Seq::<Outcome>::empty());
    lemma_stats_push(day, x);
    assert(with_result(day.push(x), TradeResult::Win) == if x.result == Some(TradeResult::Win) {
        with_result(day, TradeResult::Win).push(x)
    } else {
        with_result(day, TradeResult::Win)
    });
    assert(with_result(day.push(x), TradeResult::Loss) == if x.result == Some(TradeResult::Loss) {
        with_result(day, TradeResult::Loss).push(x)
    } else {
        with_result(day, TradeResult::Loss)
    });
}

/// Counting `x` into the bucket of its day keeps the grouping.
proof fn lemma_group_update(b: Seq<DayBucket>, o: Seq<Outcome>, x: Outcome, p: int)
    requires
        grouped(b, o),
        0 < p <= b.len(),
        b[p - 1].date.key() == x.date.key(),
        o.len() < usize::MAX,
    ensures
        grouped(b.update(p - 1, bucket_with(b[p - 1], x)), o.push(x)),
{
    let dates = bucket_dates(b);
    let next = o.push(x);
    let nb = b.update(p - 1, bucket_with(b[p - 1], x));
    assert(next.drop_last() =~= o);
    assert forall|k: int| p <= k < dates.len() implies (#[trigger] dates[k]).key() > x.date.key() by {
        assert(dates[p - 1].key() < dates[k].key());
    }
    lemma_insert_date_at(dates, x.date, p);
    assert(bucket_dates(nb) =~= dates);
    assert forall|k: int| 0 <= k < next.len() implies exists|i: int|
        0 <= i < dates.len() && #[trigger] dates[i].key() == (#[trigger] next[k]).date.key() by {
        if k < o.len() {
            assert(next[k] == o[k]);
        } else {
            assert(dates[p - 1].key() == next[k].date.key());
        }
    }
    assert forall|i: int| 0 <= i < nb.len() implies bucket_matches(#[trigger] nb[i], next) by {
        if i != p - 1 {
            assert(nb[i] == b[i]);
            assert(bucket_matches(b[i], o));
            assert(dates[i].key() != dates[p - 1].key());
            lemma_bucket_unchanged(b[i], o, x);
        } else {
            assert(bucket_matches(b[p - 1], o));
            lemma_bucket_updated(b[p - 1], o, x);
        }
    }
}

/// Opening a bucket for the day of `x`, at its place in the order, keeps the
/// grouping.
proof fn lemma_group_insert(b: Seq<DayBucket>, o: Seq<Outcome>, x: Outcome, p: int)
    requires
        grouped(b, o),
        0 <= p <= b.len(),
        forall|k: int| p <= k < b.len() ==> (#[trigger] b[k]).date.key() > x.date.key(),
        p == 0 || b[p - 1].date.key() < x.date.key(),
    ensures
        grouped(b.insert(p, bucket_of(x)), o.push(x)),
{
    let dates = bucket_dates(b);
    let key = x.date.key();
    let next = o.push(x);
    let nb = b.insert(p, bucket_of(x));
    let new_dates = dates.insert(p, x.date);
    assert(next.drop_last() =~= o);
    assert forall|k: int| p <= k < dates.len() implies (#[trigger] dates[k]).key() > key by {
        assert(dates[k] == b[k].date);
    }
    lemma_insert_date_at(dates, x.date, p);
    assert(bucket_dates(nb) =~= new_dates);
    assert forall|i: int| 0 <= i < dates.len() implies (#[trigger] dates[i]).key() != key by {
        if i < p {
            assert(dates[p - 1].key() < key);
            if i < p - 1 {
                assert(dates[i].key() < dates[p - 1].key());
            }
        }
    }
    assert forall|k: int| 0 <= k < o.len() implies (#[trigger] o[k]).date.key() != key by {
        let i = choose|i: int| 0 <= i < dates.len() && #[trigger] dates[i].key() == o[k].date.key();
        assert(dates[i].key() != key);
    }
    assert forall|i: int, j: int| 0 <= i < j < new_dates.len() implies #[trigger] new_dates[i].key()
        < #[trigger] new_dates[j].key() by {
        let oi = if i < p { i } else { i - 1 };
        let oj = if j < p { j } else { j - 1 };
        if i != p && j != p {
            assert(new_dates[i] == dates[oi] && new_dates[j] == dates[oj]);
            assert(dates[oi].key() < dates[oj].key());
        } else if i == p {
            assert(new_dates[j] == dates[oj]);
            assert(dates[oj].key() > key);
        } else {
            assert(new_dates[i] == dates[oi]);
            assert(dates[p - 1].key() < key);
            if oi < p - 1 {
                assert(dates[oi].key() < dates[p - 1].key());
            }
        }
    }
    assert forall|k: int| 0 <= k < next.len() implies exists|i: int|
        0 <= i < new_dates.len() && #[trigger] new_dates[i].key() == (#[trigger] next[k]).date.key() by {
        if k < o.len() {
            assert(next[k] == o[k]);
            let i = choose|i: int| 0 <= i < dates.len() && #[trigger] dates[i].key() == o[k].date.key();
            let ni = if i < p { i } else { i + 1 };
            assert(new_dates[ni] == dates[i]);
            assert(new_dates[ni].key() == next[k].date.key());
        } else {
            assert(new_dates[p].key() == next[k].date.key());
        }
    }
    assert forall|i: int| 0 <= i < nb.len() implies bucket_matches(#[trigger] nb[i], next) by {
        if i < p {
            assert(nb[i] == b[i]);
            assert(bucket_matches(b[i], o));
            assert(dates[i].key() != key);
            lemma_bucket_unchanged(b[i], o, x);
        } else if i > p {
            assert(nb[i] == b[i - 1]);
            assert(bucket_matches(b[i - 1], o));
            assert(dates[i - 1].key() != key);
            lemma_bucket_unchanged(b[i - 1], o, x);
        } else {
            lemma_bucket_fresh(o, x);
        }
    }
}

/// The outcomes of the trades that carry a net P&L.
fn realized_outcomes(trades: &[TradeWithDerived]) -> (r: Vec<Outcome>)
    ensures
        r@ == realized(trades@),
        r.len() <= trades.len(),
{
    let mut out: Vec<Outcome> = Vec::new();
    let mut i: usize = 0;
    assert(trades@.take(0) =~= Seq::<TradeWithDerived>::empty());
    while i < trades.len()
        invariant
            i <= trades.len(),
            out@ == realized(trades@.take(i as int)),
            out.len() <= i,
        decreases trades.len() - i,
    {
        assert(trades@.take(i + 1).drop_last() =~= trades@.take(i as int));
        assert(trades@.take(i + 1).last() == trades@[i as int]);
        match trades[i].net_pnl {
            Some(net) => {
                out.push(
                    Outcome { date: trades[i].trade.trade_date, net_pnl: net, result: trades[i].result },
                );
            },
            None => {},
        }
        i = i + 1;
    }
    assert(trades@.take(i as int) =~= trades@);
    out
}

/// Groups the outcomes by day, earliest day first.
fn day_buckets(o: &Vec<Outcome>) -> (b: Vec<DayBucket>)
    ensures
        grouped(b@, o@),
{
    let mut b: Vec<DayBucket> = Vec::new();
    let mut n: usize = 0;
    assert(o@.take(0) =~= Seq::<Outcome>::empty());
    assert(bucket_dates(b@) =~= dates_of(o@.take(0)));
    while n < o.len()
        invariant
            n <= o.len(),
            grouped(b@, o@.take(n as int)),
        decreases o.len() - n,
    {
        let ghost seen = o@.take(n as int);
        let x: Outcome = o[n];
        let key: i64 = x.date.sort_key();
        assert(o@.take(n + 1) =~= seen.push(x));
        let mut p: usize = b.len();
        while p > 0 && b[p - 1].date.sort_key() > key
            invariant
                p <= b.len(),
                key == x.date.key(),
                forall|k: int| p <= k < b.len() ==> (#[trigger] b[k]).date.key() > key,
            decreases p,
        {
            p = p - 1;
        }
        if p > 0 && b[p - 1].date.sort_key() == key {
            let cur: DayBucket = b[p - 1];
            proof {
                assert(bucket_matches(b[p - 1], seen));
                lemma_bucket_updated(cur, seen, x);
                lemma_group_update(b@, seen, x, p as int);
            }
            let updated = DayBucket {
                date: cur.date,
                net: cur.net + x.net_pnl.micros() as i128,
                trades: cur.trades + 1,
                wins: match x.result {
                    Some(TradeResult::Win) => cur.wins + 1,
                    _ => cur.wins,
                },
                losses: match x.result {
                    Some(TradeResult::Loss) => cur.losses + 1,
                    _ => cur.losses,
                },
            };
            assert(updated == bucket_with(cur, x));
            b.set(p - 1, updated);
        } else {
            proof {
                lemma_group_insert(b@, seen, x, p as int);
            }
            let fresh = DayBucket {
                date: x.date,
                net: x.net_pnl.micros() as i128,
                trades: 1,
                wins: match x.result {
                    Some(TradeResult::Win) => 1,
                    _ => 0,
                },
                losses: match x.result {
                    Some(TradeResult::Loss) => 1,
                    _ => 0,
                },
            };
            assert(fresh == bucket_of(x));
            b.insert(p, fresh);
        }
        n = n + 1;
    }
    assert(o@.take(n as int) =~= o@);
    b
}

/// The report of one day: what its trades realized, how many there were, and
/// how many of them won or lost.
pub open spec fn day_performance(o: Seq<Outcome>, date: Date) -> DailyPerformance {
    let day = on_day(o, date.key());
    DailyPerformance {
        date,
        realized_net_pnl: Decimal::nearest(sum_net(day)),
        trade_count: report_count(day.len() as int),
        win_count: report_count(with_result(day, TradeResult::Win).len() as int),
        loss_count: report_count(with_result(day, TradeResult::Loss).len() as int),
    }
}

/// One report per day on which an outcome falls, earliest day first.
pub open spec fn daily_report(o: Seq<Outcome>) -> Seq<DailyPerformance> {
    let dates = dates_of(o);
    Seq::new(dates.len(), |i: int| day_performance(o, dates[i]))
}

/// Realized P&L of all outcomes dated on or before the day with the given
/// key, as an amount.
pub open spec fn cumulative_through(o: Seq<Outcome>, key: int) -> int {
    clamp(sum_net(through_day(o, key)))
}

/// The highest cumulative P&L reached on the first `n` of the `dates`, and at
/// least zero: the curve starts from a flat account.
pub open spec fn peak_over(o: Seq<Outcome>, dates: Seq<Date>, n: nat) -> int
    decreases n,
{
    if n == 0 {
        0
    } else {
        let before = peak_over(o, dates, (n - 1) as nat);
        let here = cumulative_through(o, dates[n - 1].key());
        if here > before {
            here
        } else {
            before
        }
    }
}

/// The point of the curve on the `i`-th of the `dates`.
pub open spec fn equity_point(o: Seq<Outcome>, dates: Seq<Date>, i: int) -> EquityPoint {
    let here = cumulative_through(o, dates[i].key());
    EquityPoint {
        date: dates[i],
        cumulative_pnl: Decimal::nearest(here),
        drawdown: Decimal::nearest(peak_over(o, dates, (i + 1) as nat) - here),
    }
}

/// One point per day on which an outcome falls, earliest day first.
pub open spec fn equity_curve(o: Seq<Outcome>) -> Seq<EquityPoint> {
    let dates = dates_of(o);
    Seq::new(dates.len(), |i: int| equity_point(o, dates, i))
}

/// The largest drawdown on the curve; zero for an empty curve.
pub open spec fn max_drawdown_of(curve: Seq<EquityPoint>) -> int
    decreases curve.len(),
{
    if curve.len() == 0 {
        0
    } else {
        let before = max_drawdown_of(curve.drop_last());
        if curve.last().drawdown@ > before {
            curve.last().drawdown@
        } else {
            before
        }
    }
}

/// Length of the run of `which` that ends the sequence. An outcome without a
/// result neither extends nor breaks a run; any other result breaks it.
pub open spec fn trailing_run(o: Seq<Outcome>, which: TradeResult) -> nat
    decreases o.len(),
{
    if o.len() == 0 {
        0
    } else {
        match o.last().result {
            None => trailing_run(o.drop_last(), which),
            Some(r) => if r == which {
                trailing_run(o.drop_last(), which) + 1
            } else {
                0
            },
        }
    }
}

/// Length of the longest run of `which` anywhere in the sequence.
pub open spec fn longest_run(o: Seq<Outcome>, which: TradeResult) -> nat
    decreases o.len(),
{
    if o.len() == 0 {
        0
    } else {
        let before = longest_run(o.drop_last(), which);
        let here = trailing_run(o, which);
        if here > before {
            here
        } else {
            before
        }
    }
}

/// Summed wins over the magnitude of summed losses; unbounded with wins and
/// no losses; nothing where neither occurred.
pub open spec fn profit_factor_of(total_wins: int, total_losses: int) -> Option<ProfitFactor> {
    if total_losses < 0 {
        Some(
            ProfitFactor::Ratio(
                Decimal::nearest(spec_div(total_wins, spec_abs(total_losses))),
            ),
        )
    } else if total_wins > 0 {
        Some(ProfitFactor::Infinite)
    } else {
        None
    }
}

/// Win rate times average win, plus loss rate times average loss.
pub open spec fn expectancy_of(
    win_rate: Option<Decimal>,
    avg_win: Option<Decimal>,
    avg_loss: Option<Decimal>,
) -> Option<Decimal> {
    match (win_rate, avg_win, avg_loss) {
        (Some(wr), Some(aw), Some(al)) => Some(
            Decimal::nearest(
                spec_add(spec_mul(wr@, aw@), spec_mul(spec_sub(SCALE as int, wr@), al@)),
            ),
        ),
        _ => None,
    }
}

/// The statistics of a set of outcomes. Sums and counts do not depend on the
/// order of the outcomes; the streaks are those of the outcomes in date
/// order, same-day outcomes in the order given.
pub open spec fn period_metrics_of(o: Seq<Outcome>) -> PeriodMetrics {
    let wins = with_result(o, TradeResult::Win);
    let losses = with_result(o, TradeResult::Loss);
    let evens = with_result(o, TradeResult::Breakeven);
    let decisive = wins.len() + losses.len();
    let win_rate = if decisive > 0 {
        Some(Decimal::nearest(spec_ratio(wins.len() as int, decisive as int)))
    } else {
        None
    };
    let avg_win = if wins.len() > 0 {
        Some(Decimal::nearest(trunc_div(sum_net(wins), wins.len() as int)))
    } else {
        None
    };
    let avg_loss = if losses.len() > 0 {
        Some(Decimal::nearest(trunc_div(sum_net(losses), losses.len() as int)))
    } else {
        None
    };
    let by_date = stable_sorted(o);
    PeriodMetrics {
        total_net_pnl: Decimal::nearest(sum_net(o)),
        trade_count: report_count((wins.len() + losses.len() + evens.len()) as int),
        win_count: report_count(wins.len() as int),
        loss_count: report_count(losses.len() as int),
        breakeven_count: report_count(evens.len() as int),
        win_rate,
        avg_win,
        avg_loss,
        profit_factor: profit_factor_of(clamp(sum_net(wins)), clamp(sum_net(losses))),
        expectancy: expectancy_of(win_rate, avg_win, avg_loss),
        max_drawdown: Decimal::nearest(max_drawdown_of(equity_curve(o))),
        max_win_streak: report_count(longest_run(by_date, TradeResult::Win) as int),
        max_loss_streak: report_count(longest_run(by_date, TradeResult::Loss) as int),
    }
}

/// Where no outcome is dated before the day `hi`, everything through `hi`
/// fell on `hi`.
proof fn lemma_through_first_day(o: Seq<Outcome>, hi: int)
    requires
        forall|k: int| 0 <= k < o.len() ==> (#[trigger] o[k]).date.key() >= hi,
    ensures
        through_day(o, hi) == on_day(o, hi),
    decreases o.len(),
{
    if o.len() > 0 {
        assert(o.last() == o[o.len() - 1]);
        assert forall|k: int| 0 <= k < o.drop_last().len() implies (#[trigger] o.drop_last()[k]).date.key()
            >= hi by {
            assert(o.drop_last()[k] == o[k]);
        }
        lemma_through_first_day(o.drop_last(), hi);
    }
}

/// Where no outcome is dated between the days `lo` and `hi`, the sum through
/// `hi` is the sum through `lo` plus the sum on `hi`.
proof fn lemma_through_next_day(o: Seq<Outcome>, lo: int, hi: int)
    requires
        lo < hi,
        forall|k: int|
            0 <= k < o.len() ==> (#[trigger] o[k]).date.key() <= lo || o[k].date.key() >= hi,
    ensures
        sum_net(through_day(o, hi)) == sum_net(through_day(o, lo)) + sum_net(on_day(o, hi)),
    decreases o.len(),
{
    if o.len() > 0 {
        let head = o.drop_last();
        let x = o.last();
        assert(x == o[o.len() - 1]);
        assert forall|k: int| 0 <= k < head.len() implies (#[trigger] head[k]).date.key() <= lo
            || head[k].date.key() >= hi by {
            assert(head[k] == o[k]);
        }
        lemma_through_next_day(head, lo, hi);
        lemma_stats_push(through_day(head, hi), x);
        lemma_stats_push(through_day(head, lo), x);
        lemma_stats_push(on_day(head, hi), x);
    }
}

/// Where the peak over the first `n` dates was reached: the index of the
/// date, or -1 where the curve has not risen above the flat account that it
/// starts from.
pub open spec fn peak_index(o: Seq<Outcome>, dates: Seq<Date>, n: nat) -> int
    decreases n,
{
    if n == 0 {
        -1
    } else if cumulative_through(o, dates[n - 1].key()) > peak_over(o, dates, (n - 1) as nat) {
        n - 1
    } else {
        peak_index(o, dates, (n - 1) as nat)
    }
}

/// The peak is zero or more, and it is a value that the curve has had: the
/// cumulative value at `peak_index`, or the zero of the flat account.
pub proof fn lemma_peak_is_reached(o: Seq<Outcome>, dates: Seq<Date>, n: nat)
    ensures
        peak_over(o, dates, n) >= 0,
        -1 <= peak_index(o, dates, n) < n,
        peak_index(o, dates, n) == -1 ==> peak_over(o, dates, n) == 0,
        peak_index(o, dates, n) >= 0 ==> peak_over(o, dates, n) == cumulative_through(
            o,
            dates[peak_index(o, dates, n)].key(),
        ),
    decreases n,
{
    if n > 0 {
        lemma_peak_is_reached(o, dates, (n - 1) as nat);
    }
}

/// The peak is the running maximum: it is at least the cumulative value on
/// each of the first `n` dates.
pub proof fn lemma_peak_is_running_maximum(o: Seq<Outcome>, dates: Seq<Date>, n: nat, j: int)
    requires
        0 <= j < n,
    ensures
        peak_over(o, dates, n) >= cumulative_through(o, dates[j].key()),
    decreases n,
{
    if j < n - 1 {
        lemma_peak_is_running_maximum(o, dates, (n - 1) as nat, j);
    }
}

/// Once the curve has had a cumulative value of zero or more, on the date
/// `j`, its peak is the largest of the cumulative values so far: it is one of
/// them, and by `lemma_peak_is_running_maximum` none is larger.
pub proof fn lemma_peak_is_largest_cumulative(o: Seq<Outcome>, dates: Seq<Date>, n: nat, j: int)
    requires
        0 <= j < n,
        cumulative_through(o, dates[j].key()) >= 0,
    ensures
        peak_over(o, dates, n) == cumulative_through(
            o,
            dates[if peak_index(o, dates, n) >= 0 {
                peak_index(o, dates, n)
            } else {
                j
            }].key(),
        ),
{
    lemma_peak_is_reached(o, dates, n);
    lemma_peak_is_running_maximum(o, dates, n, j);
}

/// Where the largest drawdown occurs: the index of the point, or -1 for a
/// curve without a drawdown above zero.
pub open spec fn deepest_index(curve: Seq<EquityPoint>) -> int
    decreases curve.len(),
{
    if curve.len() == 0 {
        -1
    } else if curve.last().drawdown@ > max_drawdown_of(curve.drop_last()) {
        curve.len() - 1
    } else {
        deepest_index(curve.drop_last())
    }
}

/// The largest drawdown is zero or more, and it is zero or the drawdown of
/// the point at `deepest_index`.
pub proof fn lemma_max_drawdown_is_reached(curve: Seq<EquityPoint>)
    ensures
        max_drawdown_of(curve) >= 0,
        -1 <= deepest_index(curve) < curve.len(),
        deepest_index(curve) == -1 ==> max_drawdown_of(curve) == 0,
        deepest_index(curve) >= 0 ==> max_drawdown_of(curve) == curve[deepest_index(
            curve,
        )].drawdown@,
    decreases curve.len(),
{
    if curve.len() > 0 {
        let head = curve.drop_last();
        lemma_max_drawdown_is_reached(head);
        if deepest_index(head) >= 0 {
            assert(head[deepest_index(head)] == curve[deepest_index(head)]);
        }
    }
}

/// The largest drawdown is at least the drawdown of every point of the curve.
pub proof fn lemma_max_drawdown_is_maximum(curve: Seq<EquityPoint>, i: int)
    requires
        0 <= i < curve.len(),
    ensures
        max_drawdown_of(curve) >= curve[i].drawdown@,
    decreases curve.len(),
{
    if i < curve.len() - 1 {
        lemma_max_drawdown_is_maximum(curve.drop_last(), i);
        assert(curve.drop_last()[i] == curve[i]);
    }
}

/// Daily performance of the outcomes.
fn daily_from_outcomes(o: &Vec<Outcome>) -> (r: Vec<DailyPerformance>)
    ensures
        r@ == daily_report(o@),
        strictly_ascending(dates_of(o@)),
        covers(dates_of(o@), o@),
        forall|i: int| 0 <= i < r.len() ==> (#[trigger] r[i]).trade_count >= 1,
{
    let b = day_buckets(o);
    let ghost dates = dates_of(o@);
    let mut out: Vec<DailyPerformance> = Vec::new();
    let mut i: usize = 0;
    while i < b.len()
        invariant
            i <= b.len(),
            grouped(b@, o@),
            dates == dates_of(o@),
            out.len() == i,
            forall|j: int| 0 <= j < i ==> #[trigger] out[j] == day_performance(o@, dates[j]),
            forall|j: int| 0 <= j < i ==> (#[trigger] out[j]).trade_count >= 1,
        decreases b.len() - i,
    {
        let cur: DayBucket = b[i];
        assert(bucket_matches(b[i as int], o@));
        assert(dates[i as int] == b@[i as int].date);
        out.push(
            DailyPerformance {
                date: cur.date,
                realized_net_pnl: Decimal::saturate(cur.net),
                trade_count: count_for_report(cur.trades),
                win_count: count_for_report(cur.wins),
                loss_count: count_for_report(cur.losses),
            },
        );
        i = i + 1;
    }
    assert(out@ =~= daily_report(o@));
    out
}

/// Equity curve of the outcomes.
fn curve_from_outcomes(o: &Vec<Outcome>) -> (r: Vec<EquityPoint>)
    ensures
        r@ == equity_curve(o@),
        strictly_ascending(dates_of(o@)),
        covers(dates_of(o@), o@),
        forall|i: int| 0 <= i < r.len() ==> (#[trigger] r[i]).drawdown@ >= 0,
{
    let b = day_buckets(o);
    let ghost dates = dates_of(o@);
    let mut curve: Vec<EquityPoint> = Vec::new();
    let mut total: i128 = 0;
    let mut peak = Decimal::zero();
    let mut i: usize = 0;
    let count: usize = o.len();
    while i < b.len()
        invariant
            i <= b.len(),
            count == o@.len(),
            grouped(b@, o@),
            dates == dates_of(o@),
            curve.len() == i,
            i == 0 ==> total == 0,
            i > 0 ==> total == sum_net(through_day(o@, dates[i - 1].key())),
            peak@ == peak_over(o@, dates, i as nat),
            forall|j: int| 0 <= j < i ==> #[trigger] curve[j] == equity_point(o@, dates, j),
            forall|j: int| 0 <= j < i ==> (#[trigger] curve[j]).drawdown@ >= 0,
        decreases b.len() - i,
    {
        let cur: DayBucket = b[i];
        proof {
            let hi = dates[i as int].key();
            assert(bucket_matches(b[i as int], o@));
            assert(dates[i as int] == b@[i as int].date);
            assert forall|k: int| 0 <= k < o@.len() implies (if i == 0 {
                (#[trigger] o@[k]).date.key() >= hi
            } else {
                o@[k].date.key() <= dates[i - 1].key() || o@[k].date.key() >= hi
            }) by {
                let d = choose|d: int|
                    0 <= d < dates.len() && #[trigger] dates[d].key() == o@[k].date.key();
                if d < i {
                    if d < i - 1 {
                        assert(dates[d].key() < dates[i - 1].key());
                    }
                } else if d > i {
                    assert(dates[i as int].key() < dates[d].key());
                }
            }
            if i == 0 {
                lemma_through_first_day(o@, hi);
            } else {
                assert(dates[i - 1].key() < dates[i as int].key());
                lemma_through_next_day(o@, dates[i - 1].key(), hi);
            }
            lemma_sum_net_bound(through_day(o@, hi));
            lemma_through_day_len(o@, hi);
        }
        total = total + cur.net;
        let here = Decimal::saturate(total);
        peak = peak.max(&here);
        let drawdown = peak.sub(&here);
        curve.push(EquityPoint { date: cur.date, cumulative_pnl: here, drawdown });
        i = i + 1;
    }
    assert(curve@ =~= equity_curve(o@));
    curve
}

/// Daily performance of the trades that carry a net P&L: one entry per day on
/// which such a trade is dated, earliest day first, with the day's summed net
/// P&L, its number of trades, and its wins and losses. Breakeven trades count
/// as trades only.
pub fn calculate_daily_metrics(trades: &[TradeWithDerived]) -> (r: Vec<DailyPerformance>)
    ensures
        r@ == daily_report(realized(trades@)),
        strictly_ascending(dates_of(realized(trades@))),
        covers(dates_of(realized(trades@)), realized(trades@)),
        forall|i: int| 0 <= i < r.len() ==> (#[trigger] r[i]).trade_count >= 1,
{
    let o = realized_outcomes(trades);
    daily_from_outcomes(&o)
}

/// Equity curve of the trades that carry a net P&L: one point per day on
/// which such a trade is dated, earliest day first, with the P&L realized up
/// to and including that day and the distance below the running peak.
pub fn calculate_equity_curve(trades: &[&TradeWithDerived]) -> (r: Vec<EquityPoint>)
    ensures
        r@ == equity_curve(realized(pointees(trades@))),
        strictly_ascending(dates_of(realized(pointees(trades@)))),
        covers(dates_of(realized(pointees(trades@))), realized(pointees(trades@))),
        forall|i: int| 0 <= i < r.len() ==> (#[trigger] r[i]).drawdown@ >= 0,
{
    let ghost owned = pointees(trades@);
    let mut o: Vec<Outcome> = Vec::new();
    let mut i: usize = 0;
    assert(owned.take(0) =~= Seq::<TradeWithDerived>::empty());
    while i < trades.len()
        invariant
            i <= trades.len(),
            owned == pointees(trades@),
            o@ == realized(owned.take(i as int)),
        decreases trades.len() - i,
    {
        assert(owned.take(i + 1).drop_last() =~= owned.take(i as int));
        assert(owned.take(i + 1).last() == *trades@[i as int]);
        let t: &TradeWithDerived = trades[i];
        match t.net_pnl {
            Some(net) => {
                o.push(Outcome { date: t.trade.trade_date, net_pnl: net, result: t.result });
            },
            None => {},
        }
        i = i + 1;
    }
    assert(owned.take(i as int) =~= owned);
    curve_from_outcomes(&o)
}

/// Equity curve of trades held by value.
pub fn calculate_equity_curve_owned(trades: &[TradeWithDerived]) -> (r: Vec<EquityPoint>)
    ensures
        r@ == equity_curve(realized(trades@)),
        strictly_ascending(dates_of(realized(trades@))),
        covers(dates_of(realized(trades@)), realized(trades@)),
        forall|i: int| 0 <= i < r.len() ==> (#[trigger] r[i]).drawdown@ >= 0,
{
    let mut refs: Vec<&TradeWithDerived> = Vec::new();
    let mut i: usize = 0;
    while i < trades.len()
        invariant
            i <= trades.len(),
            refs.len() == i,
            forall|j: int| 0 <= j < i ==> *(#[trigger] refs[j]) == trades@[j],
        decreases trades.len() - i,
    {
        refs.push(&trades[i]);
        i = i + 1;
    }
    assert(pointees(refs@) =~= trades@);
    calculate_equity_curve(refs.as_slice())
}

/// The largest drawdown on the curve; zero for an empty curve.
pub fn calculate_max_drawdown(equity_curve: &[EquityPoint]) -> (r: Decimal)
    ensures
        r@ == max_drawdown_of(equity_curve@),
{
    let mut best = Decimal::zero();
    let mut i: usize = 0;
    assert(equity_curve@.take(0) =~= Seq::<EquityPoint>::empty());
    while i < equity_curve.len()
        invariant
            i <= equity_curve.len(),
            best@ == max_drawdown_of(equity_curve@.take(i as int)),
        decreases equity_curve.len() - i,
    {
        assert(equity_curve@.take(i + 1).drop_last() =~= equity_curve@.take(i as int));
        assert(equity_curve@.take(i + 1).last() == equity_curve@[i as int]);
        if equity_curve[i].drawdown.micros() > best.micros() {
            best = equity_curve[i].drawdown;
        }
        i = i + 1;
    }
    assert(equity_curve@.take(i as int) =~= equity_curve@);
    best
}

/// Sums and counts of the outcomes by result.
struct Tally {
    net: i128,
    win_sum: i128,
    loss_sum: i128,
    wins: usize,
    losses: usize,
    evens: usize,
}

spec fn tally_matches(t: Tally, o: Seq<Outcome>) -> bool {
    &&& t.net == sum_net(o)
    &&& t.win_sum == sum_net(with_result(o, TradeResult::Win))
    &&& t.loss_sum == sum_net(with_result(o, TradeResult::Loss))
    &&& t.wins == with_result(o, TradeResult::Win).len()
    &&& t.losses == with_result(o, TradeResult::Loss).len()
    &&& t.evens == with_result(o, TradeResult::Breakeven).len()
    &&& t.wins + t.losses + t.evens <= o.len()
}

proof fn lemma_tally_push(o: Seq<Outcome>, x: Outcome)
    ensures
        sum_net(o.push(x)) == sum_net(o) + x.net_pnl@,
        forall|w: TradeResult|
            x.result == Some(w) ==> #[trigger] with_result(o.push(x), w) == with_result(o, w).push(x)
                && sum_net(with_result(o.push(x), w)) == sum_net(with_result(o, w)) + x.net_pnl@,
        forall|w: TradeResult|
            x.result != Some(w) ==> #[trigger] with_result(o.push(x), w) == with_result(o, w),
        -o.len() * 0x8000_0000_0000_0000 <= sum_net(o) <= o.len() * 0x8000_0000_0000_0000,
        forall|w: TradeResult|
            -o.len() * 0x8000_0000_0000_0000 <= sum_net(#[trigger] with_result(o, w)) <= o.len()
                * 0x8000_0000_0000_0000,
{
    lemma_stats_push(o, x);
    lemma_sum_net_bound(o);
    assert forall|w: TradeResult| x.result == Some(w) implies #[trigger] with_result(o.push(x), w)
        == with_result(o, w).push(x) && sum_net(with_result(o.push(x), w)) == sum_net(
        with_result(o, w),
    ) + x.net_pnl@ by {
        lemma_stats_push(with_result(o, w), x);
    }
    assert forall|w: TradeResult|
        -o.len() * 0x8000_0000_0000_0000 <= sum_net(#[trigger] with_result(o, w)) <= o.len()
            * 0x8000_0000_0000_0000 by {
        lemma_sum_net_bound(with_result(o, w));
        lemma_with_result_len(o, w);
    }
}

/// Sums and counts of the outcomes by result.
fn tally(o: &Vec<Outcome>) -> (t: Tally)
    ensures
        tally_matches(t, o@),
{
    let mut t = Tally { net: 0, win_sum: 0, loss_sum: 0, wins: 0, losses: 0, evens: 0 };
    let mut i: usize = 0;
    assert(o@.take(0) =~= Seq::<Outcome>::empty());
    while i < o.len()
        invariant
            i <= o.len(),
            tally_matches(t, o@.take(i as int)),
        decreases o.len() - i,
    {
        let x: Outcome = o[i];
        proof {
            assert(o@.take(i + 1) =~= o@.take(i as int).push(x));
            lemma_tally_push(o@.take(i as int), x);
        }
        let net: i128 = x.net_pnl.micros() as i128;
        t.net = t.net + net;
        match x.result {
            Some(TradeResult::Win) => {
                t.wins = t.wins + 1;
                t.win_sum = t.win_sum + net;
            },
            Some(TradeResult::Loss) => {
                t.losses = t.losses + 1;
                t.loss_sum = t.loss_sum + net;
            },
            Some(TradeResult::Breakeven) => {
                t.evens = t.evens + 1;
            },
            None => {},
        }
        i = i + 1;
    }
    assert(o@.take(i as int) =~= o@);
    t
}

/// The longest runs of wins and of losses in the outcomes as they stand.
fn longest_runs(o: &Vec<Outcome>) -> (r: (usize, usize))
    ensures
        r.0 == longest_run(o@, TradeResult::Win),
        r.1 == longest_run(o@, TradeResult::Loss),
{
    let mut win_run: usize = 0;
    let mut loss_run: usize = 0;
    let mut best_win: usize = 0;
    let mut best_loss: usize = 0;
    let mut i: usize = 0;
    assert(o@.take(0) =~= Seq::<Outcome>::empty());
    while i < o.len()
        invariant
            i <= o.len(),
            win_run == trailing_run(o@.take(i as int), TradeResult::Win),
            loss_run == trailing_run(o@.take(i as int), TradeResult::Loss),
            best_win == longest_run(o@.take(i as int), TradeResult::Win),
            best_loss == longest_run(o@.take(i as int), TradeResult::Loss),
            win_run <= i,
            loss_run <= i,
        decreases o.len() - i,
    {
        assert(o@.take(i + 1).drop_last() =~= o@.take(i as int));
        assert(o@.take(i + 1).last() == o@[i as int]);
        match o[i].result {
            Some(TradeResult::Win) => {
                win_run = win_run + 1;
                loss_run = 0;
            },
            Some(TradeResult::Loss) => {
                loss_run = loss_run + 1;
                win_run = 0;
            },
            Some(TradeResult::Breakeven) => {
                win_run = 0;
                loss_run = 0;
            },
            None => {},
        }
        if win_run > best_win {
            best_win = win_run;
        }
        if loss_run > best_loss {
            best_loss = loss_run;
        }
        i = i + 1;
    }
    assert(o@.take(i as int) =~= o@);
    (best_win, best_loss)
}

/// Statistics over the trades that carry a net P&L: totals and counts by
/// result, win rate over the decisive trades, average win and loss, profit
/// factor, expectancy, the largest drawdown of their equity curve, and the
/// longest winning and losing streaks in date order.
pub fn calculate_period_metrics(trades: &[TradeWithDerived]) -> (r: PeriodMetrics)
    ensures
        r == period_metrics_of(realized(trades@)),
{
    let mut o = realized_outcomes(trades);
    let ghost given = o@;
    let t = tally(&o);
    let curve = curve_from_outcomes(&o);
    let max_drawdown = calculate_max_drawdown(curve.as_slice());
    stable_sort(&mut o);
    let (max_win_streak, max_loss_streak) = longest_runs(&o);

    proof {
        lemma_sum_net_bound(with_result(given, TradeResult::Win));
        lemma_sum_net_bound(with_result(given, TradeResult::Loss));
        lemma_with_result_len(given, TradeResult::Win);
        lemma_with_result_len(given, TradeResult::Loss);
    }
    let decisive: usize = t.wins + t.losses;
    let win_rate = Decimal::ratio(t.wins, decisive);
    let avg_win = Decimal::mean(t.win_sum, t.wins);
    let avg_loss = Decimal::mean(t.loss_sum, t.losses);
    let total_wins = Decimal::saturate(t.win_sum);
    let total_losses = Decimal::saturate(t.loss_sum);
    let profit_factor = if total_losses.is_negative() {
        match total_wins.checked_div(&total_losses.abs()) {
            Some(q) => Some(ProfitFactor::Ratio(q)),
            None => None,
        }
    } else if total_wins.is_positive() {
        Some(ProfitFactor::Infinite)
    } else {
        None
    };
    let expectancy = match (win_rate, avg_win, avg_loss) {
        (Some(wr), Some(aw), Some(al)) => Some(
            wr.mul(&aw).add(&Decimal::one().sub(&wr).mul(&al)),
        ),
        _ => None,
    };
    PeriodMetrics {
        total_net_pnl: Decimal::saturate(t.net),
        trade_count: count_for_report(t.wins + t.losses + t.evens),
        win_count: count_for_report(t.wins),
        loss_count: count_for_report(t.losses),
        breakeven_count: count_for_report(t.evens),
        win_rate,
        avg_win,
        avg_loss,
        profit_factor,
        expectancy,
        max_drawdown,
        max_win_streak: count_for_report(max_win_streak),
        max_loss_streak: count_for_report(max_loss_streak),
    }
}

/// No trades give the empty statistics.
pub proof fn lemma_no_trades_no_metrics()
    ensures
        period_metrics_of(Seq::<Outcome>::empty()) == PeriodMetrics::empty(),
{
    let o = Seq::<Outcome>::empty();
    assert(equity_curve(o) =~= Seq::<EquityPoint>::empty());
    assert(stable_sorted(o) =~= o);
}

/// Where the longest run ends: the number of outcomes up to and including
/// its last one.
pub open spec fn longest_run_end(o: Seq<Outcome>, which: TradeResult) -> int
    decreases o.len(),
{
    if o.len() == 0 {
        0
    } else if trailing_run(o, which) > longest_run(o.drop_last(), which) {
        o.len() as int
    } else {
        longest_run_end(o.drop_last(), which)
    }
}

/// The longest run is a run of the sequence: the one that ends where
/// `longest_run_end` says.
pub proof fn lemma_longest_run_is_a_run(o: Seq<Outcome>, which: TradeResult)
    ensures
        0 <= longest_run_end(o, which) <= o.len(),
        longest_run(o, which) == trailing_run(o.take(longest_run_end(o, which)), which),
    decreases o.len(),
{
    if o.len() == 0 {
        assert(o.take(0) =~= o);
    } else if trailing_run(o, which) > longest_run(o.drop_last(), which) {
        assert(o.take(o.len() as int) =~= o);
    } else {
        let head = o.drop_last();
        lemma_longest_run_is_a_run(head, which);
        assert(o.take(longest_run_end(head, which)) =~= head.take(longest_run_end(head, which)));
    }
}

/// No run is longer than the longest: the run that ends after the first `k`
/// outcomes, whatever `k`, is at most as long.
pub proof fn lemma_longest_run_is_maximum(o: Seq<Outcome>, which: TradeResult, k: int)
    requires
        0 <= k <= o.len(),
    ensures
        longest_run(o, which) >= trailing_run(o.take(k), which),
    decreases o.len(),
{
    if k == o.len() {
        assert(o.take(k) =~= o);
    } else {
        let head = o.drop_last();
        lemma_longest_run_is_maximum(head, which, k);
        assert(o.take(k) =~= head.take(k));
    }
}

/// A breakeven outcome ends both streaks: right after it the running win
/// streak and the running loss streak are zero.
pub proof fn lemma_breakeven_resets_streaks(o: Seq<Outcome>, x: Outcome)
    requires
        x.result == Some(TradeResult::Breakeven),
    ensures
        trailing_run(o.push(x), TradeResult::Win) == 0,
        trailing_run(o.push(x), TradeResult::Loss) == 0,
{
}

/// Every drawdown on the equity curve is zero or more.
pub proof fn lemma_drawdown_never_negative(o: Seq<Outcome>, i: int)
    requires
        0 <= i < equity_curve(o).len(),
    ensures
        equity_curve(o)[i].drawdown@ >= 0,
{
    lemma_peak_is_running_maximum(o, dates_of(o), (i + 1) as nat, i);
}

} // verus!
