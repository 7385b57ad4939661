//! Reading broker execution logs: pipe-delimited trade records, one per
//! line, for equities and for options with packed contract symbols.

use crate::date::{is_calendar_date, Date};
use crate::decimal::{
    lemma_digits_value_bound,
    lemma_pow10_split,
    micros_of,
    parse_decimal_in,
    read_decimal,
    spec_abs,
    Decimal,
};
use crate::text::{
    all_digits,
    digits_of,
    digits_only,
    digits_value,
    has_prefix,
    lemma_capitals_stay_in_upper_case,
    lemma_digits_round_trip,
    parse_digits,
    push_number,
    push_range,
    push_text,
    same_text,
    spans_of,
    split,
    split_spans,
    starts_with,
    string_from,
    string_of,
    to_chars,
    to_uppercase,
    trim_range,
    trimmed,
    upper_case,
    zero_padded,
    Span,
};
use vstd::prelude::*;

verus! {

/// What a fill does to the position.
#[derive(Clone, Copy, Debug, PartialEq, Eq, Structural)]
pub enum TlgAction {
    BuyToOpen,
    SellToClose,
    SellToOpen,
    BuyToClose,
}

impl TlgAction {
    /// The action that the log writes as exactly `t`.
    pub open spec fn named(t: Seq<char>) -> Option<TlgAction> {
        if t == "BUYTOOPEN"@ {
            Some(TlgAction::BuyToOpen)
        } else if t == "SELLTOCLOSE"@ {
            Some(TlgAction::SellToClose)
        } else if t == "SELLTOOPEN"@ {
            Some(TlgAction::SellToOpen)
        } else if t == "BUYTOCLOSE"@ {
            Some(TlgAction::BuyToClose)
        } else {
            None
        }
    }

    /// Reads an action name that is already in upper case.
    pub fn from_uppercase(s: &str) -> (r: Option<TlgAction>)
        ensures
            r == Self::named(s@),
    {
        if same_text(s, "BUYTOOPEN") {
            Some(TlgAction::BuyToOpen)
        } else if same_text(s, "SELLTOCLOSE") {
            Some(TlgAction::SellToClose)
        } else if same_text(s, "SELLTOOPEN") {
            Some(TlgAction::SellToOpen)
        } else if same_text(s, "BUYTOCLOSE") {
            Some(TlgAction::BuyToClose)
        } else {
            None
        }
    }

    /// Reads an action name in any mix of upper and lower case.
    pub fn from_str(s: &str) -> (r: Option<TlgAction>)
        ensures
            r == Self::named(upper_case(s@)),
    {
        let upper = to_uppercase(s);
        Self::from_uppercase(upper.as_str())
    }

    /// Whether this action opens a position.
    pub fn is_opening(&self) -> (r: bool)
        ensures
            r == (*self == TlgAction::BuyToOpen || *self == TlgAction::SellToOpen),
    {
        match self {
            TlgAction::BuyToOpen | TlgAction::SellToOpen => true,
            _ => false,
        }
    }

    /// Whether this action closes a position.
    pub fn is_closing(&self) -> (r: bool)
        ensures
            r == (*self == TlgAction::SellToClose || *self == TlgAction::BuyToClose),
    {
        match self {
            TlgAction::SellToClose | TlgAction::BuyToClose => true,
            _ => false,
        }
    }

    /// Whether this action buys: a long entry or a short exit.
    pub fn is_buy(&self) -> (r: bool)
        ensures
            r == (*self == TlgAction::BuyToOpen || *self == TlgAction::BuyToClose),
    {
        match self {
            TlgAction::BuyToOpen | TlgAction::BuyToClose => true,
            _ => false,
        }
    }
}

/// The log's four action names are read as the four actions, also through the
/// step to upper case.
pub proof fn lemma_action_names_are_read()
    ensures
        TlgAction::named(upper_case("BUYTOOPEN"@)) == Some(TlgAction::BuyToOpen),
        TlgAction::named(upper_case("SELLTOCLOSE"@)) == Some(TlgAction::SellToClose),
        TlgAction::named(upper_case("SELLTOOPEN"@)) == Some(TlgAction::SellToOpen),
        TlgAction::named(upper_case("BUYTOCLOSE"@)) == Some(TlgAction::BuyToClose),
{
    reveal_strlit("BUYTOOPEN");
    reveal_strlit("SELLTOCLOSE");
    reveal_strlit("SELLTOOPEN");
    reveal_strlit("BUYTOCLOSE");
    lemma_capitals_stay_in_upper_case("BUYTOOPEN"@);
    lemma_capitals_stay_in_upper_case("SELLTOCLOSE"@);
    lemma_capitals_stay_in_upper_case("SELLTOOPEN"@);
    lemma_capitals_stay_in_upper_case("BUYTOCLOSE"@);
    assert("BUYTOOPEN"@.len() != "SELLTOCLOSE"@.len());
    assert("BUYTOOPEN"@.len() != "SELLTOOPEN"@.len());
    assert("BUYTOOPEN"@.len() != "BUYTOCLOSE"@.len());
    assert("SELLTOCLOSE"@.len() != "SELLTOOPEN"@.len());
    assert("SELLTOCLOSE"@[0] != "BUYTOCLOSE"@[0]);
    assert("SELLTOOPEN"@[0] != "BUYTOCLOSE"@[0]);
}

/// Kind of record in the log.
#[derive(Clone, Copy, Debug, PartialEq, Eq, Structural)]
pub enum TlgAssetType {
    Stock,
    Option,
}

/// Call or put.
#[derive(Clone, Copy, Debug, PartialEq, Eq, Structural)]
pub enum OptionType {
    Call,
    Put,
}

/// What a packed contract symbol says.
#[derive(Clone, Debug)]
pub struct OptionDetails {
    pub underlying: String,
    pub expiration_date: Date,
    pub option_type: OptionType,
    pub strike_price: Decimal,
}

/// The content of an [`OptionDetails`].
pub struct ContractModel {
    pub underlying: Seq<char>,
    pub year: int,
    pub month: int,
    pub day: int,
    pub option_type: OptionType,
    pub strike: int,
}

impl View for OptionDetails {
    type V = ContractModel;

    open spec fn view(&self) -> ContractModel {
        ContractModel {
            underlying: self.underlying@,
            year: self.expiration_date.year_of(),
            month: self.expiration_date.month_of(),
            day: self.expiration_date.day_of(),
            option_type: self.option_type,
            strike: self.strike_price@,
        }
    }
}

/// Whether a six-digit expiry followed by `C` or `P` starts at index `i`.
pub open spec fn is_date_mark(s: Seq<char>, i: int) -> bool {
    &&& 0 <= i
    &&& i + 7 <= s.len()
    &&& all_digits(s.subrange(i, i + 6))
    &&& (s[i + 6] == 'C' || s[i + 6] == 'P')
}

/// The first index at or after `i` where an expiry and type stand.
pub open spec fn first_date_mark(s: Seq<char>, i: int) -> Option<int>
    decreases s.len() - i,
{
    if i < 0 || i + 7 > s.len() {
        None
    } else if is_date_mark(s, i) {
        Some(i)
    } else {
        first_date_mark(s, i + 1)
    }
}

/// The largest strike, in thousandths, whose amount still fits.
pub const MAX_STRIKE_THOUSANDTHS: u64 = 9_223_372_036_854_775;

/// What a packed contract symbol decodes to, or the reason why it does not
/// decode. The symbol is trimmed first. The underlying is what stands before
/// the first six-digit expiry that `C` or `P` follows, trimmed; the expiry is
/// `YYMMDD` in the years 2000 to 2099; what follows the type letter is the
/// strike in thousandths. A symbol fails to decode, in this order, where no
/// expiry with a type letter is found, where the underlying is empty, where
/// the expiry is no day of the calendar, and where the strike is no number
/// that fits.
pub open spec fn decode_symbol(raw: Seq<char>) -> Result<ContractModel, Seq<char>> {
    let s = trimmed(raw);
    match first_date_mark(s, 0) {
        None => Err("Could not find date portion in option symbol: "@ + s),
        Some(i) => {
            let underlying = trimmed(s.take(i));
            let year = 2000 + digits_value(s.subrange(i, i + 2)) as int;
            let month = digits_value(s.subrange(i + 2, i + 4)) as int;
            let day = digits_value(s.subrange(i + 4, i + 6)) as int;
            let strike_text = s.subrange(i + 7, s.len() as int);
            if underlying.len() == 0 {
                Err("Empty underlying symbol in option contract: "@ + s)
            } else if !is_calendar_date(year, month, day) {
                Err("Invalid expiration date: "@ + s.subrange(i, i + 6))
            } else if strike_text.len() == 0 || !all_digits(strike_text) || digits_value(
                strike_text,
            ) > MAX_STRIKE_THOUSANDTHS {
                Err("Invalid strike price: "@ + strike_text)
            } else {
                Ok(
                    ContractModel {
                        underlying,
                        year,
                        month,
                        day,
                        option_type: if s[i + 6] == 'C' {
                            OptionType::Call
                        } else {
                            OptionType::Put
                        },
                        strike: digits_value(strike_text) as int * 1000,
                    },
                )
            }
        },
    }
}

/// The six digits that write an expiry in a contract symbol.
pub open spec fn expiry_digits(year: int, month: int, day: int) -> Seq<char> {
    zero_padded(digits_of((year - 2000) as nat), 2) + zero_padded(digits_of(month as nat), 2)
        + zero_padded(digits_of(day as nat), 2)
}

/// The digits that write a strike in a contract symbol: the strike in
/// thousandths, with zeros in front up to `width`.
pub open spec fn strike_digits(strike: int, width: nat) -> Seq<char> {
    zero_padded(digits_of((strike / 1000) as nat), width)
}

/// Decoding a contract symbol and writing the expiry and the strike again
/// gives back the digits that stood in the symbol: the six of the expiry, and
/// those of the strike at the width that they had.
pub proof fn lemma_symbol_digits_round_trip(raw: Seq<char>)
    requires
        decode_symbol(raw) is Ok,
    ensures
        ({
            let s = trimmed(raw);
            let i = first_date_mark(s, 0)->0;
            let m = decode_symbol(raw)->Ok_0;
            let strike_text = s.subrange(i + 7, s.len() as int);
            &&& is_date_mark(s, i)
            &&& expiry_digits(m.year, m.month, m.day) == s.subrange(i, i + 6)
            &&& strike_digits(m.strike, strike_text.len()) == strike_text
        }),
{
    let s = trimmed(raw);
    lemma_first_date_mark(s, 0);
    let i = first_date_mark(s, 0)->0;
    let expiry = s.subrange(i, i + 6);
    let yy = s.subrange(i, i + 2);
    let mm = s.subrange(i + 2, i + 4);
    let dd = s.subrange(i + 4, i + 6);
    assert forall|k: int| 0 <= k < 2 implies crate::text::is_digit(#[trigger] yy[k]) by {
        assert(yy[k] == expiry[k]);
    }
    assert forall|k: int| 0 <= k < 2 implies crate::text::is_digit(#[trigger] mm[k]) by {
        assert(mm[k] == expiry[k + 2]);
    }
    assert forall|k: int| 0 <= k < 2 implies crate::text::is_digit(#[trigger] dd[k]) by {
        assert(dd[k] == expiry[k + 4]);
    }
    lemma_digits_round_trip(yy);
    lemma_digits_round_trip(mm);
    lemma_digits_round_trip(dd);
    assert(yy + mm + dd =~= expiry);
    let strike_text = s.subrange(i + 7, s.len() as int);
    lemma_digits_round_trip(strike_text);
}

/// Where a first date mark is found, an expiry and a type letter stand
/// there, and at no index before it; where none is found, none stands
/// anywhere from `from` on.
pub proof fn lemma_first_date_mark(s: Seq<char>, from: int)
    requires
        0 <= from,
    ensures
        match first_date_mark(s, from) {
            Some(i) => from <= i && is_date_mark(s, i) && forall|j: int|
                from <= j < i ==> !is_date_mark(s, j),
            None => forall|j: int| from <= j ==> !is_date_mark(s, j),
        },
    decreases s.len() - from,
{
    if !(from + 7 > s.len()) && !is_date_mark(s, from) {
        lemma_first_date_mark(s, from + 1);
    }
}

/// The text `prefix` followed by `v[from..to]`.
fn message_about(prefix: &str, v: &Vec<char>, from: usize, to: usize) -> (r: String)
    requires
        from <= to <= v.len(),
    ensures
        r@ == prefix@ + v@.subrange(from as int, to as int),
{
    let mut out: Vec<char> = Vec::new();
    push_text(&mut out, prefix);
    push_range(&mut out, v, from, to);
    assert(out@ =~= prefix@ + v@.subrange(from as int, to as int));
    string_from(&out)
}

/// Decodes the contract symbol `v[from..to]`.
fn decode_symbol_in(v: &Vec<char>, from: usize, to: usize) -> (r: Result<OptionDetails, String>)
    requires
        from <= to <= v.len(),
    ensures
        match r {
            Ok(d) => decode_symbol(v@.subrange(from as int, to as int)) == Ok::<
                ContractModel,
                Seq<char>,
            >(d@),
            Err(e) => decode_symbol(v@.subrange(from as int, to as int)) == Err::<
                ContractModel,
                Seq<char>,
            >(e@),
        },
{
    let (a, b) = trim_range(v, from, to);
    let mut s: Vec<char> = Vec::new();
    push_range(&mut s, v, a, b);
    assert(s@ =~= trimmed(v@.subrange(from as int, to as int)));
    let n: usize = s.len();
    let mut i: usize = 0;
    let mut found = false;
    assert(s@.subrange(0, n as int) =~= s@);
    while n >= 7 && i <= n - 7
        invariant_except_break
            !found,
            first_date_mark(s@, 0) == first_date_mark(s@, i as int),
        invariant
            n == s.len(),
        ensures
            found ==> is_date_mark(s@, i as int) && first_date_mark(s@, 0) == Some(i as int),
            !found ==> first_date_mark(s@, 0) is None,
        decreases n - i,
    {
        if digits_only(&s, i, i + 6) && (s[i + 6] == 'C' || s[i + 6] == 'P') {
            found = true;
            break ;
        }
        i = i + 1;
    }
    if !found {
        return Err(message_about("Could not find date portion in option symbol: ", &s, 0, n));
    }
    let (ua, ub) = trim_range(&s, 0, i);
    assert(s@.subrange(0, i as int) =~= s@.take(i as int));
    if ua == ub {
        return Err(message_about("Empty underlying symbol in option contract: ", &s, 0, n));
    }
    let ghost expiry = s@.subrange(i as int, i + 6);
    proof {
        assert(s@.subrange(0, n as int) =~= s@);
        let yy = s@.subrange(i as int, i + 2);
        let mm = s@.subrange(i + 2, i + 4);
        let dd = s@.subrange(i + 4, i + 6);
        assert forall|k: int| 0 <= k < 2 implies crate::text::is_digit(#[trigger] yy[k]) by {
            assert(yy[k] == expiry[k]);
        }
        assert forall|k: int| 0 <= k < 2 implies crate::text::is_digit(#[trigger] mm[k]) by {
            assert(mm[k] == expiry[k + 2]);
        }
        assert forall|k: int| 0 <= k < 2 implies crate::text::is_digit(#[trigger] dd[k]) by {
            assert(dd[k] == expiry[k + 4]);
        }
        lemma_digits_value_bound(yy);
        lemma_digits_value_bound(mm);
        lemma_digits_value_bound(dd);
        lemma_pow10_split(2);
    }
    let yy: u64 = match parse_digits(&s, i, i + 2) {
        Some(n) => n,
        None => {
            assert(false);
            0
        },
    };
    let mm: u64 = match parse_digits(&s, i + 2, i + 4) {
        Some(n) => n,
        None => {
            assert(false);
            0
        },
    };
    let dd: u64 = match parse_digits(&s, i + 4, i + 6) {
        Some(n) => n,
        None => {
            assert(false);
            0
        },
    };
    let expiration_date = match Date::from_ymd_opt(2000 + yy as i32, mm as u32, dd as u32) {
        Some(d) => d,
        None => {
            return Err(message_about("Invalid expiration date: ", &s, i, i + 6));
        },
    };
    let option_type = if s[i + 6] == 'C' {
        OptionType::Call
    } else {
        OptionType::Put
    };
    let strike: u64 = match parse_digits(&s, i + 7, n) {
        Some(k) => {
            if k > MAX_STRIKE_THOUSANDTHS {
                return Err(message_about("Invalid strike price: ", &s, i + 7, n));
            }
            k
        },
        None => {
            return Err(message_about("Invalid strike price: ", &s, i + 7, n));
        },
    };
    let underlying = string_of(&s, ua, ub);
    Ok(
        OptionDetails {
            underlying,
            expiration_date,
            option_type,
            strike_price: Decimal::from_micros((strike * 1000) as i64),
        },
    )
}

/// Decodes a packed option contract symbol such as `AAPL  250905C00240000`:
/// the underlying, padded with spaces; the expiry as `YYMMDD`; `C` or `P`;
/// and the strike in thousandths.
pub fn parse_option_symbol(contract: &str) -> (r: Result<OptionDetails, String>)
    ensures
        match r {
            Ok(d) => decode_symbol(contract@) == Ok::<ContractModel, Seq<char>>(d@),
            Err(e) => decode_symbol(contract@) == Err::<ContractModel, Seq<char>>(e@),
        },
{
    let v = to_chars(contract);
    assert(v@.subrange(0, v.len() as int) =~= v@);
    decode_symbol_in(&v, 0, v.len())
}

/// The date that `YYYYMMDD` writes, as year, month and day, or the reason why
/// the text is no date.
pub open spec fn read_date(s: Seq<char>) -> Result<(int, int, int), Seq<char>> {
    let year = digits_value(s.subrange(0, 4)) as int;
    let month = digits_value(s.subrange(4, 6)) as int;
    let day = digits_value(s.subrange(6, 8)) as int;
    if s.len() != 8 {
        Err("Invalid date format: "@ + s)
    } else if !all_digits(s.subrange(0, 4)) {
        Err("Invalid year in date: "@ + s)
    } else if !all_digits(s.subrange(4, 6)) {
        Err("Invalid month in date: "@ + s)
    } else if !all_digits(s.subrange(6, 8)) {
        Err("Invalid day in date: "@ + s)
    } else if !is_calendar_date(year, month, day) {
        Err("Invalid date: "@ + s)
    } else {
        Ok((year, month, day))
    }
}

/// Reads `v[from..to]` as a date written `YYYYMMDD`.
fn parse_date_in(v: &Vec<char>, from: usize, to: usize) -> (r: Result<Date, String>)
    requires
        from <= to <= v.len(),
    ensures
        match r {
            Ok(d) => d.wf() && read_date(v@.subrange(from as int, to as int)) == Ok::<
                (int, int, int),
                Seq<char>,
            >((d.year_of(), d.month_of(), d.day_of())),
            Err(e) => read_date(v@.subrange(from as int, to as int)) == Err::<
                (int, int, int),
                Seq<char>,
            >(e@),
        },
{
    let ghost s = v@.subrange(from as int, to as int);
    if to - from != 8 {
        return Err(message_about("Invalid date format: ", v, from, to));
    }
    proof {
        assert(v@.subrange(from as int, from + 4) =~= s.subrange(0, 4));
        assert(v@.subrange(from + 4, from + 6) =~= s.subrange(4, 6));
        assert(v@.subrange(from + 6, from + 8) =~= s.subrange(6, 8));
        lemma_pow10_split(2);
        assert(crate::decimal::pow10(3) == 1000);
        assert(crate::decimal::pow10(4) == 10000);
    }
    let year: u64 = match parse_digits(v, from, from + 4) {
        Some(n) => n,
        None => {
            proof {
                if all_digits(s.subrange(0, 4)) {
                    lemma_digits_value_bound(s.subrange(0, 4));
                }
            }
            return Err(message_about("Invalid year in date: ", v, from, to));
        },
    };
    let month: u64 = match parse_digits(v, from + 4, from + 6) {
        Some(n) => n,
        None => {
            proof {
                if all_digits(s.subrange(4, 6)) {
                    lemma_digits_value_bound(s.subrange(4, 6));
                }
            }
            return Err(message_about("Invalid month in date: ", v, from, to));
        },
    };
    let day: u64 = match parse_digits(v, from + 6, from + 8) {
        Some(n) => n,
        None => {
            proof {
                if all_digits(s.subrange(6, 8)) {
                    lemma_digits_value_bound(s.subrange(6, 8));
                }
            }
            return Err(message_about("Invalid day in date: ", v, from, to));
        },
    };
    proof {
        lemma_digits_value_bound(s.subrange(0, 4));
        lemma_digits_value_bound(s.subrange(4, 6));
        lemma_digits_value_bound(s.subrange(6, 8));
    }
    match Date::from_ymd_opt(year as i32, month as u32, day as u32) {
        Some(d) => Ok(d),
        None => Err(message_about("Invalid date: ", v, from, to)),
    }
}

/// Reads a date written as `YYYYMMDD`: exactly eight digits that name a day
/// of the calendar.
pub fn parse_date(s: &str) -> (r: Result<Date, String>)
    ensures
        match r {
            Ok(d) => d.wf() && read_date(s@) == Ok::<(int, int, int), Seq<char>>(
                (d.year_of(), d.month_of(), d.day_of()),
            ),
            Err(e) => read_date(s@) == Err::<(int, int, int), Seq<char>>(e@),
        },
{
    let v = to_chars(s);
    assert(v@.subrange(0, v.len() as int) =~= v@);
    parse_date_in(&v, 0, v.len())
}

/// One fill from the broker log.
#[derive(Clone, Debug)]
pub struct TlgExecution {
    pub broker_execution_id: String,
    pub symbol: String,
    pub name: String,
    pub exchange: String,
    pub action: TlgAction,
    pub execution_date: Date,
    pub execution_time: String,
    pub currency: String,
    /// Positive for buys, negative for sells.
    pub quantity: Decimal,
    pub multiplier: Decimal,
    pub price: Decimal,
    pub total: Decimal,
    /// As the log has them: zero or negative.
    pub fees: Decimal,
    pub fx_rate: Option<Decimal>,
    pub asset_type: TlgAssetType,
    pub option_details: Option<OptionDetails>,
}

/// The content of a [`TlgExecution`].
pub struct ExecutionModel {
    pub broker_execution_id: Seq<char>,
    pub symbol: Seq<char>,
    pub name: Seq<char>,
    pub exchange: Seq<char>,
    pub action: TlgAction,
    pub year: int,
    pub month: int,
    pub day: int,
    pub execution_time: Seq<char>,
    pub currency: Seq<char>,
    pub quantity: int,
    pub multiplier: int,
    pub price: int,
    pub total: int,
    pub fees: int,
    pub fx_rate: Option<int>,
    pub asset_type: TlgAssetType,
    pub option_details: Option<ContractModel>,
}

impl View for TlgExecution {
    type V = ExecutionModel;

    open spec fn view(&self) -> ExecutionModel {
        ExecutionModel {
            broker_execution_id: self.broker_execution_id@,
            symbol: self.symbol@,
            name: self.name@,
            exchange: self.exchange@,
            action: self.action,
            year: self.execution_date.year_of(),
            month: self.execution_date.month_of(),
            day: self.execution_date.day_of(),
            execution_time: self.execution_time@,
            currency: self.currency@,
            quantity: self.quantity@,
            multiplier: self.multiplier@,
            price: self.price@,
            total: self.total@,
            fees: self.fees@,
            fx_rate: micros_of(self.fx_rate),
            asset_type: self.asset_type,
            option_details: match self.option_details {
                Some(d) => Some(d@),
                None => None,
            },
        }
    }
}

impl TlgExecution {
    /// The quantity without its sign.
    pub fn abs_quantity(&self) -> (r: Decimal)
        ensures
            r@ == spec_abs(self.quantity@),
            r@ >= 0,
    {
        self.quantity.abs()
    }

    /// The fees as a positive amount.
    pub fn abs_fees(&self) -> (r: Decimal)
        ensures
            r@ == spec_abs(self.fees@),
            r@ >= 0,
    {
        self.fees.abs()
    }

    /// The underlying symbol: for an option the one its contract names, for
    /// a stock the symbol itself.
    pub fn underlying_symbol(&self) -> (r: &str)
        ensures
            r@ == match self.option_details {
                Some(d) => d.underlying@,
                None => self.symbol@,
            },
    {
        match &self.option_details {
            Some(details) => details.underlying.as_str(),
            None => self.symbol.as_str(),
        }
    }
}

/// A line that could not be read.
#[derive(Clone, Debug)]
pub struct TlgParseError {
    /// Counted from 1.
    pub line_number: usize,
    pub line_content: String,
    pub error: String,
}

/// The content of a [`TlgParseError`].
pub struct ParseErrorModel {
    pub line_number: int,
    pub line_content: Seq<char>,
    pub error: Seq<char>,
}

impl View for TlgParseError {
    type V = ParseErrorModel;

    open spec fn view(&self) -> ParseErrorModel {
        ParseErrorModel {
            line_number: self.line_number as int,
            line_content: self.line_content@,
            error: self.error@,
        }
    }
}

/// What a log file held: the fills, and the lines that could not be read,
/// both in the order of the file.
#[derive(Clone, Debug)]
pub struct TlgParseResult {
    pub executions: Vec<TlgExecution>,
    pub errors: Vec<TlgParseError>,
}

/// Number of fields in a trade record.
pub const FIELD_COUNT: usize = 16;

/// The complaint about a record that does not have `FIELD_COUNT` fields.
pub open spec fn field_count_error(kind: TlgAssetType, found: nat) -> Seq<char> {
    (match kind {
        TlgAssetType::Stock => "Invalid stock transaction: expected 16 fields, got "@,
        TlgAssetType::Option => "Invalid option transaction: expected 16 fields, got "@,
    }) + digits_of(found)
}

/// The fill that a trade record writes, or the reason why the line is no
/// trade record, where `action` is what the record's action field reads as.
/// The fields, between `|`, are: record kind, execution id, symbol, name,
/// exchange, action, flags, date, time, currency, quantity, multiplier,
/// price, total, fees, and an FX rate that may be left empty or unreadable.
/// The faults are looked for in this order: the number of fields, the action,
/// the date, the five numbers, and last the symbol of an option record.
pub open spec fn read_record(line: Seq<char>, kind: TlgAssetType, action: Option<TlgAction>) -> Result<
    ExecutionModel,
    Seq<char>,
> {
    let f = split(line, '|');
    if f.len() != FIELD_COUNT {
        Err(field_count_error(kind, f.len()))
    } else if action is None {
        Err("Unknown action: "@ + f[5])
    } else if read_date(f[7]) is Err {
        Err(read_date(f[7])->Err_0)
    } else if read_decimal(f[10]) is None {
        Err("Invalid quantity: "@ + f[10])
    } else if read_decimal(f[11]) is None {
        Err("Invalid multiplier: "@ + f[11])
    } else if read_decimal(f[12]) is None {
        Err("Invalid price: "@ + f[12])
    } else if read_decimal(f[13]) is None {
        Err("Invalid total: "@ + f[13])
    } else if read_decimal(f[14]) is None {
        Err("Invalid fees: "@ + f[14])
    } else if kind == TlgAssetType::Option && decode_symbol(f[2]) is Err {
        Err(decode_symbol(f[2])->Err_0)
    } else {
        Ok(
            ExecutionModel {
                broker_execution_id: f[1],
                symbol: f[2],
                name: f[3],
                exchange: f[4],
                action: action->0,
                year: read_date(f[7])->Ok_0.0,
                month: read_date(f[7])->Ok_0.1,
                day: read_date(f[7])->Ok_0.2,
                execution_time: f[8],
                currency: f[9],
                quantity: read_decimal(f[10])->0,
                multiplier: read_decimal(f[11])->0,
                price: read_decimal(f[12])->0,
                total: read_decimal(f[13])->0,
                fees: read_decimal(f[14])->0,
                fx_rate: read_decimal(f[15]),
                asset_type: kind,
                option_details: if kind == TlgAssetType::Option {
                    Some(decode_symbol(f[2])->Ok_0)
                } else {
                    None
                },
            },
        )
    }
}

/// What the action field of a record reads as: the field in upper case has
/// to be one of the four action names.
pub open spec fn read_action(line: Seq<char>) -> Option<TlgAction> {
    TlgAction::named(upper_case(split(line, '|')[5]))
}

/// The fill that a trade record writes, or the reason why the line is no
/// trade record.
pub open spec fn read_trade_line(line: Seq<char>, kind: TlgAssetType) -> Result<
    ExecutionModel,
    Seq<char>,
> {
    read_record(line, kind, read_action(line))
}

proof fn lemma_field_text(spans: Seq<Span>, v: Seq<char>, k: int)
    requires
        0 <= k < spans.len(),
    ensures
        spans_of(spans, v)[k] == v.subrange(spans[k].start as int, spans[k].end as int),
{
}

/// The owned text of one field.
fn field_string(v: &Vec<char>, span: &Span) -> (r: String)
    requires
        span.wf(v.len() as int),
    ensures
        r@ == span.of(v@),
{
    string_of(v, span.start, span.end)
}

/// Reads one numeric field; on failure the message names the field.
fn numeric_field(v: &Vec<char>, span: &Span, complaint: &str) -> (r: Result<Decimal, String>)
    requires
        span.wf(v.len() as int),
    ensures
        match r {
            Ok(d) => read_decimal(span.of(v@)) == Some(d@),
            Err(e) => read_decimal(span.of(v@)) is None && e@ == complaint@ + span.of(v@),
        },
{
    match parse_decimal_in(v, span.start, span.end) {
        Some(d) => Ok(d),
        None => Err(message_about(complaint, v, span.start, span.end)),
    }
}

/// Reads the trade record `v[from..to]`, given what its action field reads
/// as.
pub fn parse_record_in(
    v: &Vec<char>,
    from: usize,
    to: usize,
    kind: TlgAssetType,
    action: Option<TlgAction>,
) -> (r: Result<TlgExecution, String>)
    requires
        from <= to <= v.len(),
    ensures
        match r {
            Ok(e) => e.execution_date.wf() && read_record(
                v@.subrange(from as int, to as int),
                kind,
                action,
            ) == Ok::<ExecutionModel, Seq<char>>(e@),
            Err(e) => read_record(v@.subrange(from as int, to as int), kind, action) == Err::<
                ExecutionModel,
                Seq<char>,
            >(e@),
        },
{
    let ghost line = v@.subrange(from as int, to as int);
    let ghost f = split(line, '|');
    let spans = split_spans(v, from, to, '|');
    assert(spans_of(spans@, v@).len() == spans.len());
    if spans.len() != FIELD_COUNT {
        let mut out: Vec<char> = Vec::new();
        match kind {
            TlgAssetType::Stock => push_text(
                &mut out,
                "Invalid stock transaction: expected 16 fields, got ",
            ),
            TlgAssetType::Option => push_text(
                &mut out,
                "Invalid option transaction: expected 16 fields, got ",
            ),
        }
        push_number(&mut out, spans.len() as u64);
        assert(out@ =~= field_count_error(kind, f.len()));
        return Err(string_from(&out));
    }
    proof {
        assert forall|k: int| 0 <= k < 16 implies (#[trigger] spans@[k]).wf(v.len() as int)
            && spans@[k].of(v@) == f[k] by {
            lemma_field_text(spans@, v@, k);
        }
    }
    let action = match action {
        Some(a) => a,
        None => {
            return Err(message_about("Unknown action: ", v, spans[5].start, spans[5].end));
        },
    };
    let execution_date = match parse_date_in(v, spans[7].start, spans[7].end) {
        Ok(d) => d,
        Err(e) => {
            return Err(e);
        },
    };
    let quantity = match numeric_field(v, &spans[10], "Invalid quantity: ") {
        Ok(d) => d,
        Err(e) => {
            return Err(e);
        },
    };
    let multiplier = match numeric_field(v, &spans[11], "Invalid multiplier: ") {
        Ok(d) => d,
        Err(e) => {
            return Err(e);
        },
    };
    let price = match numeric_field(v, &spans[12], "Invalid price: ") {
        Ok(d) => d,
        Err(e) => {
            return Err(e);
        },
    };
    let total = match numeric_field(v, &spans[13], "Invalid total: ") {
        Ok(d) => d,
        Err(e) => {
            return Err(e);
        },
    };
    let fees = match numeric_field(v, &spans[14], "Invalid fees: ") {
        Ok(d) => d,
        Err(e) => {
            return Err(e);
        },
    };
    let fx_rate = parse_decimal_in(v, spans[15].start, spans[15].end);
    let option_details = match kind {
        TlgAssetType::Stock => None,
        TlgAssetType::Option => match decode_symbol_in(v, spans[2].start, spans[2].end) {
            Ok(d) => Some(d),
            Err(e) => {
                return Err(e);
            },
        },
    };
    Ok(
        TlgExecution {
            broker_execution_id: field_string(v, &spans[1]),
            symbol: field_string(v, &spans[2]),
            name: field_string(v, &spans[3]),
            exchange: field_string(v, &spans[4]),
            action,
            execution_date,
            execution_time: field_string(v, &spans[8]),
            currency: field_string(v, &spans[9]),
            quantity,
            multiplier,
            price,
            total,
            fees,
            fx_rate,
            asset_type: kind,
            option_details,
        },
    )
}

/// Reads a trade record, given what its action field reads as.
pub fn parse_record(line: &str, kind: TlgAssetType, action: Option<TlgAction>) -> (r: Result<
    TlgExecution,
    String,
>)
    ensures
        match r {
            Ok(e) => e.execution_date.wf() && read_record(line@, kind, action) == Ok::<
                ExecutionModel,
                Seq<char>,
            >(e@),
            Err(e) => read_record(line@, kind, action) == Err::<ExecutionModel, Seq<char>>(e@),
        },
{
    let v = to_chars(line);
    assert(v@.subrange(0, v.len() as int) =~= v@);
    parse_record_in(&v, 0, v.len(), kind, action)
}

/// What the action field of the record `v[from..to]` reads as; nothing for a
/// record that has no such field.
fn action_in(v: &Vec<char>, from: usize, to: usize) -> (r: Option<TlgAction>)
    requires
        from <= to <= v.len(),
    ensures
        split(v@.subrange(from as int, to as int), '|').len() > 5 ==> r == read_action(
            v@.subrange(from as int, to as int),
        ),
{
    let spans = split_spans(v, from, to, '|');
    assert(spans_of(spans@, v@).len() == spans.len());
    if spans.len() <= 5 {
        return None;
    }
    proof {
        lemma_field_text(spans@, v@, 5);
    }
    let text = field_string(v, &spans[5]);
    TlgAction::from_str(text.as_str())
}

/// Reads the trade record `v[from..to]`.
fn parse_transaction_in(v: &Vec<char>, from: usize, to: usize, kind: TlgAssetType) -> (r: Result<
    TlgExecution,
    String,
>)
    requires
        from <= to <= v.len(),
    ensures
        match r {
            Ok(e) => e.execution_date.wf() && read_trade_line(
                v@.subrange(from as int, to as int),
                kind,
            ) == Ok::<ExecutionModel, Seq<char>>(e@),
            Err(e) => read_trade_line(v@.subrange(from as int, to as int), kind) == Err::<
                ExecutionModel,
                Seq<char>,
            >(e@),
        },
{
    let action = action_in(v, from, to);
    parse_record_in(v, from, to, kind, action)
}

/// Reads one equity trade record.
pub fn parse_stock_transaction(line: &str) -> (r: Result<TlgExecution, String>)
    ensures
        match r {
            Ok(e) => e.execution_date.wf() && read_trade_line(line@, TlgAssetType::Stock) == Ok::<
                ExecutionModel,
                Seq<char>,
            >(e@),
            Err(e) => read_trade_line(line@, TlgAssetType::Stock) == Err::<
                ExecutionModel,
                Seq<char>,
            >(e@),
        },
{
    let v = to_chars(line);
    assert(v@.subrange(0, v.len() as int) =~= v@);
    parse_transaction_in(&v, 0, v.len(), TlgAssetType::Stock)
}

/// Reads one option trade record; its symbol is a packed contract symbol.
pub fn parse_option_transaction(line: &str) -> (r: Result<TlgExecution, String>)
    ensures
        match r {
            Ok(e) => e.execution_date.wf() && read_trade_line(line@, TlgAssetType::Option) == Ok::<
                ExecutionModel,
                Seq<char>,
            >(e@),
            Err(e) => read_trade_line(line@, TlgAssetType::Option) == Err::<
                ExecutionModel,
                Seq<char>,
            >(e@),
        },
{
    let v = to_chars(line);
    assert(v@.subrange(0, v.len() as int) =~= v@);
    parse_transaction_in(&v, 0, v.len(), TlgAssetType::Option)
}

/// What one line of the file gives: nothing, if it is no trade record; a
/// fill; or an error that carries the line's number and its trimmed text.
pub open spec fn read_line(raw: Seq<char>, number: int) -> Option<
    Result<ExecutionModel, ParseErrorModel>,
> {
    let line = trimmed(raw);
    let kind = if has_prefix(line, "STK_TRD|"@) {
        Some(TlgAssetType::Stock)
    } else if has_prefix(line, "OPT_TRD|"@) {
        Some(TlgAssetType::Option)
    } else {
        None
    };
    match kind {
        None => None,
        Some(k) => Some(
            match read_trade_line(line, k) {
                Ok(e) => Ok(e),
                Err(msg) => Err(
                    ParseErrorModel { line_number: number, line_content: line, error: msg },
                ),
            },
        ),
    }
}

/// The fills and the errors of a run of lines, numbered from 1.
pub open spec fn read_lines(lines: Seq<Seq<char>>) -> (Seq<ExecutionModel>, Seq<ParseErrorModel>)
    decreases lines.len(),
{
    if lines.len() == 0 {
        (Seq::empty(), Seq::empty())
    } else {
        let before = read_lines(lines.drop_last());
        match read_line(lines.last(), lines.len() as int) {
            None => before,
            Some(Ok(e)) => (before.0.push(e), before.1),
            Some(Err(x)) => (before.0, before.1.push(x)),
        }
    }
}

/// The fills and the errors of a whole file. Lines end at `\n`.
pub open spec fn read_file(content: Seq<char>) -> (Seq<ExecutionModel>, Seq<ParseErrorModel>) {
    read_lines(split(content, '\n'))
}

/// The contents of a list of fills.
pub open spec fn execution_models(v: Seq<TlgExecution>) -> Seq<ExecutionModel> {
    Seq::new(v.len(), |i: int| v[i]@)
}

/// The contents of a list of line errors.
pub open spec fn error_models(v: Seq<TlgParseError>) -> Seq<ParseErrorModel> {
    Seq::new(v.len(), |i: int| v[i]@)
}

/// Every fill and every error comes from a line of its own.
pub proof fn lemma_read_lines_counts(lines: Seq<Seq<char>>)
    ensures
        read_lines(lines).0.len() + read_lines(lines).1.len() <= lines.len(),
        forall|i: int|
            0 <= i < read_lines(lines).1.len() ==> 1 <= (#[trigger] read_lines(
                lines,
            ).1[i]).line_number <= lines.len(),
    decreases lines.len(),
{
    if lines.len() > 0 {
        lemma_read_lines_counts(lines.drop_last());
    }
}

/// Reads a whole log file. Every line is trimmed; a line that starts with
/// `STK_TRD|` or `OPT_TRD|` is a trade record and gives either a fill or an
/// error with the line's number; every other line is passed over. A line that
/// cannot be read never stops the lines after it from being read.
pub fn parse_tlg_file(content: &str) -> (r: TlgParseResult)
    ensures
        execution_models(r.executions@) == read_file(content@).0,
        error_models(r.errors@) == read_file(content@).1,
        forall|i: int| 0 <= i < r.executions.len() ==> (#[trigger] r.executions[i]).execution_date.wf(),
{
    let v = to_chars(content);
    assert(v@.subrange(0, v.len() as int) =~= v@);
    let lines = split_spans(&v, 0, v.len(), '\n');
    let ghost texts = split(content@, '\n');
    assert(spans_of(lines@, v@).len() == lines.len());
    let mut executions: Vec<TlgExecution> = Vec::new();
    let mut errors: Vec<TlgParseError> = Vec::new();
    let mut i: usize = 0;
    assert(texts.take(0) =~= Seq::<Seq<char>>::empty());
    assert(execution_models(executions@) =~= read_lines(texts.take(0)).0);
    assert(error_models(errors@) =~= read_lines(texts.take(0)).1);
    while i < lines.len()
        invariant
            i <= lines.len(),
            lines.len() == texts.len(),
            texts == spans_of(lines@, v@),
            forall|k: int| 0 <= k < lines.len() ==> (#[trigger] lines[k]).wf(v.len() as int),
            execution_models(executions@) == read_lines(texts.take(i as int)).0,
            error_models(errors@) == read_lines(texts.take(i as int)).1,
            forall|k: int|
                0 <= k < executions.len() ==> (#[trigger] executions[k]).execution_date.wf(),
        decreases lines.len() - i,
    {
        let span: Span = lines[i];
        proof {
            lemma_field_text(lines@, v@, i as int);
            assert(texts.take(i + 1).drop_last() =~= texts.take(i as int));
            assert(texts.take(i + 1).last() == texts[i as int]);
            assert(lines@[i as int].wf(v.len() as int));
        }
        let (a, b) = trim_range(&v, span.start, span.end);
        let ghost line = v@.subrange(a as int, b as int);
        let kind = if starts_with(&v, a, b, "STK_TRD|") {
            Some(TlgAssetType::Stock)
        } else if starts_with(&v, a, b, "OPT_TRD|") {
            Some(TlgAssetType::Option)
        } else {
            None
        };
        let ghost old_executions = executions@;
        let ghost old_errors = errors@;
        match kind {
            None => {},
            Some(k) => {
                match parse_transaction_in(&v, a, b, k) {
                    Ok(e) => {
                        executions.push(e);
                        assert(execution_models(executions@) =~= execution_models(
                            old_executions,
                        ).push(e@));
                    },
                    Err(msg) => {
                        let err = TlgParseError {
                            line_number: i + 1,
                            line_content: string_of(&v, a, b),
                            error: msg,
                        };
                        errors.push(err);
                        assert(error_models(errors@) =~= error_models(old_errors).push(err@));
                    },
                }
            },
        }
        i = i + 1;
    }
    assert(texts.take(i as int) =~= texts);
    TlgParseResult { executions, errors }
}

} // verus!
