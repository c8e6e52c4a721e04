//! Quotes and daily bars from the Yahoo Finance chart API, and the TWSE
//! market holidays. The HTTP requests and the JSON decoding happen outside
//! the library; here is what is computed from the decoded fields.
//!
//! Prices are held in hundredths (cents): `95050` is `950.50`.

use vstd::prelude::*;
use crate::text::{lit, remove_all, remove_str, split_char, split_at_char, same_text};
use crate::numtext::{
    int_text, push_int, signed_int_value, unsigned_int_value, in_range, parse_i32, parse_u32,
};

verus! {

/// A stock's current quote.
#[derive(Debug)]
pub struct Quote {
    /// Yahoo symbol, e.g. `"2330.TW"`.
    pub symbol: String,
    pub name: String,
    /// Current price, in cents.
    pub price: i64,
    /// Day's open, high and low, in cents.
    pub open: i64,
    pub high: i64,
    pub low: i64,
    /// Volume, in lots of 1000 shares.
    pub volume: i64,
    /// Change from the previous close, in cents.
    pub change: i64,
    /// Change from the previous close, in hundredths of a percent.
    pub change_pct: i64,
}

/// What a `Quote` holds, as plain values.
pub struct QuoteView {
    pub symbol: Seq<char>,
    pub name: Seq<char>,
    pub price: i64,
    pub open: i64,
    pub high: i64,
    pub low: i64,
    pub volume: i64,
    pub change: i64,
    pub change_pct: i64,
}

impl DeepView for Quote {
    type V = QuoteView;

    open spec fn deep_view(&self) -> QuoteView {
        QuoteView {
            symbol: self.symbol@,
            name: self.name@,
            price: self.price,
            open: self.open,
            high: self.high,
            low: self.low,
            volume: self.volume,
            change: self.change,
            change_pct: self.change_pct,
        }
    }
}

impl Clone for Quote {
    fn clone(&self) -> (r: Quote)
        ensures
            r.deep_view() == self.deep_view(),
    {
        Quote {
            symbol: self.symbol.clone(),
            name: self.name.clone(),
            price: self.price,
            open: self.open,
            high: self.high,
            low: self.low,
            volume: self.volume,
            change: self.change,
            change_pct: self.change_pct,
        }
    }
}

/// One day of price history.
#[derive(Debug)]
pub struct DayBar {
    /// `YYYY-MM-DD` (UTC).
    pub date: String,
    /// Open, high, low and close, in cents.
    pub open: i64,
    pub high: i64,
    pub low: i64,
    pub close: i64,
    /// Volume, in lots of 1000 shares.
    pub volume: i64,
}

pub struct DayBarView {
    pub date: Seq<char>,
    pub open: i64,
    pub high: i64,
    pub low: i64,
    pub close: i64,
    pub volume: i64,
}

impl DeepView for DayBar {
    type V = DayBarView;

    open spec fn deep_view(&self) -> DayBarView {
        DayBarView {
            date: self.date@,
            open: self.open,
            high: self.high,
            low: self.low,
            close: self.close,
            volume: self.volume,
        }
    }
}

/// The fields of the chart API's `meta` object that a quote is made from;
/// prices in cents, the volume in shares.
pub struct ChartMeta {
    pub regular_market_price: Option<i64>,
    pub chart_previous_close: Option<i64>,
    pub previous_close: Option<i64>,
    pub regular_market_open: Option<i64>,
    pub regular_market_day_high: Option<i64>,
    pub regular_market_day_low: Option<i64>,
    pub regular_market_volume: Option<i64>,
    pub long_name: Option<String>,
    pub short_name: Option<String>,
}

/// Integer division truncating toward zero, as Rust's `/` on integers does.
pub open spec fn trunc_div(v: int, d: int) -> int {
    if v >= 0 { v / d } else { -((-v) / d) }
}

/// A quotient rounded to the nearest integer, halves away from zero, as
/// `f64::round` does.
pub open spec fn round_div(n: int, d: int) -> int {
    let m = (2 * crate::numtext::abs(n) + crate::numtext::abs(d)) / (2 * crate::numtext::abs(d));
    if (n >= 0) == (d > 0) { m } else { -m }
}

/// `v` limited to the range of `i64`.
pub open spec fn clamp_i64(v: int) -> int {
    if v < i64::MIN { i64::MIN as int } else if v > i64::MAX { i64::MAX as int } else { v }
}

pub open spec fn or_zero(o: Option<i64>) -> int {
    match o {
        Some(v) => v as int,
        None => 0,
    }
}

/// The change in percent, in hundredths of a percent: `change / prev * 100`,
/// rounded to two places (zero where there is no previous close to divide by).
pub open spec fn change_pct_of(change: int, prev: int) -> int {
    if prev == 0 { 0 } else { clamp_i64(round_div(change * 10000, prev)) }
}

/// The name shown for a quote: the long name, else the short name, else the
/// symbol without `.TWO` and `.TW`.
pub open spec fn quote_name(symbol: Seq<char>, long_name: Option<Seq<char>>, short_name: Option<Seq<char>>) -> Seq<char> {
    match long_name {
        Some(n) => n,
        None => match short_name {
            Some(n) => n,
            None => remove_all(remove_all(symbol, ".TWO"@), ".TW"@),
        },
    }
}

/// The quote made from the chart API's `meta`: `None` without a current
/// price, or without a previous close (`chartPreviousClose`, else
/// `previousClose`).
pub open spec fn quote_of(symbol: Seq<char>, m: ChartMeta) -> Option<QuoteView> {
    match m.regular_market_price {
        None => None,
        Some(price) => {
            let prev = match m.chart_previous_close {
                Some(p) => Some(p),
                None => m.previous_close,
            };
            match prev {
                None => None,
                Some(prev) => {
                    let change = clamp_i64(price - prev);
                    Some(QuoteView {
                        symbol,
                        name: quote_name(symbol, m.long_name.deep_view(), m.short_name.deep_view()),
                        price,
                        open: or_zero(m.regular_market_open) as i64,
                        high: or_zero(m.regular_market_day_high) as i64,
                        low: or_zero(m.regular_market_day_low) as i64,
                        volume: trunc_div(or_zero(m.regular_market_volume), 1000) as i64,
                        change: change as i64,
                        change_pct: change_pct_of(price - prev, prev as int) as i64,
                    })
                },
            }
        },
    }
}

fn opt_or_zero(o: Option<i64>) -> (r: i64)
    ensures
        r == or_zero(o),
{
    match o {
        Some(v) => v,
        None => 0,
    }
}

/// `v / d` truncated toward zero, for a positive `d`.
pub fn div_trunc(v: i64, d: i64) -> (r: i64)
    requires
        d > 0,
    ensures
        r == trunc_div(v as int, d as int),
{
    let w = v as i128;
    let q: i128 = if w >= 0 { w / d as i128 } else { 0 - ((0 - w) / d as i128) };
    q as i64
}

fn clamp(v: i128) -> (r: i64)
    ensures
        r == clamp_i64(v as int),
{
    if v < i64::MIN as i128 {
        i64::MIN
    } else if v > i64::MAX as i128 {
        i64::MAX
    } else {
        v as i64
    }
}

/// The change in percent (see `change_pct_of`).
pub fn percent_change(change: i128, prev: i64) -> (r: i64)
    requires
        -0x1_0000_0000_0000_0000 <= change <= 0x1_0000_0000_0000_0000,
    ensures
        r == change_pct_of(change as int, prev as int),
{
    if prev == 0 {
        return 0;
    }
    let n: i128 = change * 10000;
    let d: i128 = prev as i128;
    let an: i128 = if n >= 0 { n } else { 0 - n };
    let ad: i128 = if d >= 0 { d } else { 0 - d };
    let m: i128 = (2 * an + ad) / (2 * ad);
    let q: i128 = if (n >= 0) == (d > 0) { m } else { 0 - m };
    clamp(q)
}


fn clone_opt(o: &Option<String>) -> (r: Option<String>)
    ensures
        r.deep_view() == o.deep_view(),
{
    match o {
        Some(s) => Some(s.clone()),
        None => None,
    }
}

/// Makes the quote of `symbol` from the chart API's `meta` (see `quote_of`).
pub fn quote_from_meta(symbol: &str, m: &ChartMeta) -> (r: Option<Quote>)
    ensures
        r.deep_view() == quote_of(symbol@, *m),
{
    let price = match m.regular_market_price {
        Some(p) => p,
        None => return None,
    };
    let prev = match m.chart_previous_close {
        Some(p) => p,
        None => match m.previous_close {
            Some(p) => p,
            None => return None,
        },
    };
    let diff: i128 = price as i128 - prev as i128;
    let name = match clone_opt(&m.long_name) {
        Some(n) => n,
        None => match clone_opt(&m.short_name) {
            Some(n) => n,
            None => {
                proof {
                    reveal_strlit(".TWO");
                    reveal_strlit(".TW");
                }
                let a = remove_str(symbol, ".TWO");
                remove_str(a.as_str(), ".TW")
            },
        },
    };
    Some(Quote {
        symbol: lit(symbol),
        name,
        price,
        open: opt_or_zero(m.regular_market_open),
        high: opt_or_zero(m.regular_market_day_high),
        low: opt_or_zero(m.regular_market_day_low),
        volume: div_trunc(opt_or_zero(m.regular_market_volume), 1000),
        change: clamp(diff),
        change_pct: percent_change(diff, prev),
    })
}

/// The `i`-th value of an optional series, where it is there, else zero.
pub open spec fn series_at(s: Seq<Option<i64>>, i: int) -> int {
    if 0 <= i < s.len() { or_zero(s[i]) } else { 0 }
}

/// The columns of the chart API's daily series, prices in cents and volumes
/// in shares, one entry per day (a missing value is `None`).
pub struct ChartSeries {
    pub opens: Vec<Option<i64>>,
    pub highs: Vec<Option<i64>>,
    pub lows: Vec<Option<i64>>,
    pub closes: Vec<Option<i64>>,
    pub volumes: Vec<Option<i64>>,
}

/// The bar of day `i`, dated `date`.
pub open spec fn bar_at(date: Seq<char>, s: ChartSeries, i: int) -> DayBarView {
    DayBarView {
        date,
        open: series_at(s.opens@, i) as i64,
        high: series_at(s.highs@, i) as i64,
        low: series_at(s.lows@, i) as i64,
        close: series_at(s.closes@, i) as i64,
        volume: trunc_div(series_at(s.volumes@, i), 1000) as i64,
    }
}

/// The bars of the days `0..n` whose timestamp has a date, in order.
pub open spec fn bars_upto(dates: Seq<Option<Seq<char>>>, s: ChartSeries, n: int) -> Seq<DayBarView>
    decreases n,
{
    if n <= 0 {
        seq![]
    } else {
        let rest = bars_upto(dates, s, n - 1);
        match dates[n - 1] {
            Some(d) => rest.push(bar_at(d, s, n - 1)),
            None => rest,
        }
    }
}

/// The last `days` of a sequence (all of it when it is shorter).
pub open spec fn last_n<A>(s: Seq<A>, days: int) -> Seq<A> {
    if s.len() > days { s.skip(s.len() - days) } else { s }
}

/// The daily bars: one per timestamp that has a date, the missing values
/// taken as zero, volumes in lots; the last `days` of them.
pub open spec fn history_of(dates: Seq<Option<Seq<char>>>, s: ChartSeries, days: int) -> Seq<DayBarView> {
    last_n(bars_upto(dates, s, dates.len() as int), days)
}

fn series_value(v: &Vec<Option<i64>>, i: usize) -> (r: i64)
    ensures
        r == series_at(v@, i as int),
{
    if i < v.len() {
        opt_or_zero(v[i])
    } else {
        0
    }
}

/// Builds the daily bars from the dates of the timestamps (`None` where a
/// timestamp has no date) and the series (see `history_of`).
pub fn bars_from_dates(dates: &Vec<Option<String>>, s: &ChartSeries, days: usize) -> (r: Vec<DayBar>)
    ensures
        r.deep_view() == history_of(dates.deep_view(), *s, days as int),
{
    let mut bars: Vec<DayBar> = Vec::new();
    let mut i: usize = 0;
    while i < dates.len()
        invariant
            i <= dates.len(),
            bars.deep_view() == bars_upto(dates.deep_view(), *s, i as int),
        decreases dates.len() - i,
    {
        match &dates[i] {
            Some(d) => {
                let bar = DayBar {
                    date: d.clone(),
                    open: series_value(&s.opens, i),
                    high: series_value(&s.highs, i),
                    low: series_value(&s.lows, i),
                    close: series_value(&s.closes, i),
                    volume: div_trunc(series_value(&s.volumes, i), 1000),
                };
                let ghost before = bars.deep_view();
                bars.push(bar);
                assert(bars.deep_view() =~= before.push(bar_at(dates.deep_view()[i as int].unwrap(), *s, i as int)));
            },
            None => {},
        }
        i = i + 1;
    }
    if bars.len() > days {
        let n = bars.len();
        let ghost all = bars.deep_view();
        let tail = bars.split_off(n - days);
        assert(tail.deep_view() =~= all.skip(n - days));
        tail
    } else {
        bars
    }
}

/// A chrono format string made only of literal characters and the items
/// `%Y`, `%m` and `%d`: every `%` is followed by one of those letters.
pub open spec fn date_format_ok(fmt: Seq<char>) -> bool {
    forall|i: int| 0 <= i < fmt.len() && #[trigger] fmt[i] == '%' ==> {
        &&& i + 1 < fmt.len()
        &&& (fmt[i + 1] == 'Y' || fmt[i + 1] == 'm' || fmt[i + 1] == 'd')
    }
}

/// The text of a Unix timestamp (UTC) in the format `fmt`, as chrono's
/// `DateTime::from_timestamp(ts, 0)` formatted with `fmt` gives it;
/// `None` where chrono has no date for the timestamp.
pub uninterp spec fn utc_time_text(ts: i64, fmt: Seq<char>) -> Option<Seq<char>>;

/// Calls `chrono::DateTime::from_timestamp(ts, 0)` and formats the result with
/// `fmt`; the contract claims only that the result is the one these calls
/// give for `ts` and `fmt`. A format item that chrono cannot read would make
/// `to_string` panic, so only formats of `date_format_ok` are taken.
#[verifier::external_body]
fn utc_time_text_of(ts: i64, fmt: &str) -> (r: Option<String>)
    requires
        date_format_ok(fmt@),
    ensures
        r.deep_view() == utc_time_text(ts, fmt@),
{
    chrono::DateTime::from_timestamp(ts, 0).map(|t| t.format(fmt).to_string())
}

/// The format of a bar's date: `YYYY-MM-DD`.
pub open spec fn bar_date_format() -> Seq<char> {
    "%Y-%m-%d"@
}

/// The `YYYY-MM-DD` dates (UTC) of the timestamps.
pub open spec fn dates_of(ts: Seq<i64>) -> Seq<Option<Seq<char>>> {
    ts.map_values(|t: i64| utc_time_text(t, bar_date_format()))
}

/// The daily bars of the chart API's answer: its timestamps and series,
/// keeping the last `days` (see `history_of`).
pub fn history_from_chart(timestamps: &Vec<i64>, s: &ChartSeries, days: usize) -> (r: Vec<DayBar>)
    ensures
        r.deep_view() == history_of(dates_of(timestamps@), *s, days as int),
{
    let fmt = "%Y-%m-%d";
    proof {
        reveal_strlit("%Y-%m-%d");
        assert(fmt@ == bar_date_format());
        assert(date_format_ok(fmt@)) by {
            assert forall|k: int| 0 <= k < fmt@.len() && #[trigger] fmt@[k] == '%' implies {
                &&& k + 1 < fmt@.len()
                &&& (fmt@[k + 1] == 'Y' || fmt@[k + 1] == 'm' || fmt@[k + 1] == 'd')
            } by {
                assert(k == 0 || k == 3 || k == 6);
            }
        }
    }
    let mut dates: Vec<Option<String>> = Vec::new();
    let mut i: usize = 0;
    while i < timestamps.len()
        invariant
            i <= timestamps.len(),
            fmt@ == bar_date_format(),
            date_format_ok(fmt@),
            dates.deep_view() == dates_of(timestamps@).take(i as int),
        decreases timestamps.len() - i,
    {
        let d = utc_time_text_of(timestamps[i], fmt);
        let ghost before = dates.deep_view();
        let ghost dv = d.deep_view();
        dates.push(d);
        assert(dates.deep_view() =~= before.push(dv));
        assert(dates_of(timestamps@)[i as int] == utc_time_text(timestamps@[i as int], bar_date_format()));
        assert(dates_of(timestamps@).take(i + 1) =~= dates_of(timestamps@).take(i as int).push(dv));
        i = i + 1;
    }
    assert(dates_of(timestamps@).take(i as int) =~= dates_of(timestamps@));
    bars_from_dates(&dates, s, days)
}

/// The daily bars of the chart API's answer, where it holds both the
/// timestamps and the series (else `None`), keeping the last `days` (see
/// `history_from_chart`).
pub fn history_from_parts(timestamps: Option<Vec<i64>>, series: Option<ChartSeries>, days: usize) -> (r: Option<Vec<DayBar>>)
    ensures
        r is Some <==> (timestamps is Some && series is Some),
        r matches Some(bars) ==> bars.deep_view()
            == history_of(dates_of(timestamps->Some_0@), series->Some_0, days as int),
{
    match (timestamps, series) {
        (Some(ts), Some(s)) => Some(history_from_chart(&ts, &s, days)),
        _ => None,
    }
}

// ---------------------------------------------------------------------
// URLs

/// The chart API's URL for a symbol, with the given range (`"1d"`, `"1mo"`).
pub open spec fn chart_url(symbol: Seq<char>, range: Seq<char>) -> Seq<char> {
    "https://query1.finance.yahoo.com/v8/finance/chart/"@ + symbol + "?interval=1d&range="@ + range
}

/// The URL of a symbol's quote: one day of the chart API.
pub fn quote_url(symbol: &str) -> (r: String)
    ensures
        r@ == chart_url(symbol@, "1d"@),
{
    let mut r = lit("https://query1.finance.yahoo.com/v8/finance/chart/");
    r.append(symbol);
    r.append("?interval=1d&range=");
    r.append("1d");
    r
}

/// The URL of a symbol's history: one month of the chart API.
pub fn history_url(symbol: &str) -> (r: String)
    ensures
        r@ == chart_url(symbol@, "1mo"@),
{
    let mut r = lit("https://query1.finance.yahoo.com/v8/finance/chart/");
    r.append(symbol);
    r.append("?interval=1d&range=");
    r.append("1mo");
    r
}

/// The URL of TWSE's holiday schedule for a year: the year is given in the
/// Republic of China calendar (the Gregorian year minus 1911).
pub open spec fn holiday_url_text(year: int) -> Seq<char> {
    "https://www.twse.com.tw/rwd/zh/holidaySchedule/holidaySchedule?response=json&year="@ + int_text(year - 1911)
}

pub fn holiday_url(year: i32) -> (r: String)
    ensures
        r@ == holiday_url_text(year as int),
{
    let mut r = lit("https://www.twse.com.tw/rwd/zh/holidaySchedule/holidaySchedule?response=json&year=");
    push_int(&mut r, year as i64 - 1911);
    r
}

// ---------------------------------------------------------------------
// Dates and TWSE holidays

/// A calendar date.
#[derive(Debug, Clone, Copy, PartialEq, Eq, Structural)]
pub struct Date {
    pub year: i32,
    pub month: u32,
    pub day: u32,
}

pub open spec fn is_leap_year(y: int) -> bool {
    y % 4 == 0 && (y % 100 != 0 || y % 400 == 0)
}

pub open spec fn days_in_month(y: int, m: int) -> int {
    if m == 2 {
        if is_leap_year(y) { 29 } else { 28 }
    } else if m == 4 || m == 6 || m == 9 || m == 11 {
        30
    } else {
        31
    }
}

/// A day of the proleptic Gregorian calendar that `chrono::NaiveDate` can
/// hold (years -262143 to 262142).
pub open spec fn valid_date(y: int, m: int, d: int) -> bool {
    -262143 <= y <= 262142 && 1 <= m <= 12 && 1 <= d <= days_in_month(y, m)
}

/// Whether `chrono::NaiveDate::from_ymd_opt(y, m, d)` gives a date; the
/// contract states the calendar rules that chrono documents.
#[verifier::external_body]
fn ymd_exists(y: i32, m: u32, d: u32) -> (r: bool)
    ensures
        r == valid_date(y as int, m as int, d as int),
{
    chrono::NaiveDate::from_ymd_opt(y, m, d).is_some()
}

/// A holiday from the first cell of a row of TWSE's schedule, written
/// `"114/01/01"` (Republic of China year / month / day).
pub open spec fn roc_date(cell: Seq<char>) -> Option<Date> {
    let parts = split_at_char(cell, '/');
    if parts.len() == 3 {
        match (
            in_range(signed_int_value(parts[0]), i32::MIN as int, i32::MAX as int),
            in_range(unsigned_int_value(parts[1]), 0, u32::MAX as int),
            in_range(unsigned_int_value(parts[2]), 0, u32::MAX as int),
        ) {
            (Some(y), Some(m), Some(d)) => {
                if valid_date(y + 1911, m, d) {
                    Some(Date { year: (y + 1911) as i32, month: m as u32, day: d as u32 })
                } else {
                    None
                }
            },
            _ => None,
        }
    } else {
        None
    }
}

/// Reads a date written `"114/01/01"` (see `roc_date`).
pub fn parse_roc_date(cell: &str) -> (r: Option<Date>)
    ensures
        r == roc_date(cell@),
{
    let parts = split_char(cell, '/');
    if parts.len() != 3 {
        return None;
    }
    let y = match parse_i32(parts[0].as_str()) {
        Some(v) => v,
        None => return None,
    };
    let m = match parse_u32(parts[1].as_str()) {
        Some(v) => v,
        None => return None,
    };
    let d = match parse_u32(parts[2].as_str()) {
        Some(v) => v,
        None => return None,
    };
    let year: i64 = y as i64 + 1911;
    if year > i32::MAX as i64 {
        return None;
    }
    if ymd_exists(year as i32, m, d) {
        Some(Date { year: year as i32, month: m, day: d })
    } else {
        None
    }
}

/// The holidays of TWSE's schedule: none unless `stat` is `"OK"`; otherwise
/// one per row whose first cell is a valid date, in order.
pub open spec fn holidays_of(stat: Seq<char>, rows: Seq<Seq<Seq<char>>>) -> Seq<Date> {
    if stat != "OK"@ {
        seq![]
    } else {
        holidays_upto(rows, rows.len() as int)
    }
}

pub open spec fn holidays_upto(rows: Seq<Seq<Seq<char>>>, n: int) -> Seq<Date>
    decreases n,
{
    if n <= 0 {
        seq![]
    } else {
        let rest = holidays_upto(rows, n - 1);
        if rows[n - 1].len() > 0 {
            match roc_date(rows[n - 1][0]) {
                Some(d) => rest.push(d),
                None => rest,
            }
        } else {
            rest
        }
    }
}

/// Reads TWSE's holiday schedule (its `stat` and the rows of `data`).
pub fn holidays_from_schedule(stat: &str, rows: &Vec<Vec<String>>) -> (r: Vec<Date>)
    ensures
        r@ == holidays_of(stat@, rows.deep_view()),
{
    let mut r: Vec<Date> = Vec::new();
    if !same_text(stat, "OK") {
        return r;
    }
    let mut i: usize = 0;
    while i < rows.len()
        invariant
            i <= rows.len(),
            r@ == holidays_upto(rows.deep_view(), i as int),
        decreases rows.len() - i,
    {
        if rows[i].len() > 0 {
            assert(rows.deep_view()[i as int][0] == rows[i as int][0]@);
            match parse_roc_date(rows[i][0].as_str()) {
                Some(d) => r.push(d),
                None => {},
            }
        }
        i = i + 1;
    }
    assert(rows.deep_view().len() == rows.len());
    r
}

/// Whether `date` is one of the holidays.
pub fn is_holiday(holidays: &Vec<Date>, date: Date) -> (r: bool)
    ensures
        r == holidays@.contains(date),
{
    let mut i: usize = 0;
    while i < holidays.len()
        invariant
            i <= holidays.len(),
            forall|k: int| 0 <= k < i ==> holidays@[k] != date,
        decreases holidays.len() - i,
    {
        let h = holidays[i];
        if h.year == date.year && h.month == date.month && h.day == date.day {
            assert(holidays@[i as int] == date);
            return true;
        }
        i = i + 1;
    }
    false
}


// ---------------------------------------------------------------------
// Laws of quotes and daily bars

/// A quote takes each figure from its own field of the chart's `meta`: the
/// price, the open, the day's high and low (zero where absent), the volume
/// in whole lots of 1000 shares, the change from the previous close
/// (`chartPreviousClose`, else `previousClose`) where it fits in `i64`, and
/// the name from the long name, else the short name. There is a quote
/// exactly when there is a price and a previous close.
pub proof fn law_quote_fields(symbol: Seq<char>, m: ChartMeta)
    ensures
        quote_of(symbol, m) is Some <==> (m.regular_market_price is Some
            && (m.chart_previous_close is Some || m.previous_close is Some)),
        quote_of(symbol, m) matches Some(q) ==> {
            let price = m.regular_market_price->Some_0;
            let prev = if m.chart_previous_close is Some { m.chart_previous_close->Some_0 } else { m.previous_close->Some_0 };
            &&& q.symbol == symbol
            &&& q.price == price
            &&& q.open == (match m.regular_market_open { Some(v) => v, None => 0 })
            &&& q.high == (match m.regular_market_day_high { Some(v) => v, None => 0 })
            &&& q.low == (match m.regular_market_day_low { Some(v) => v, None => 0 })
            &&& q.volume == (match m.regular_market_volume {
                Some(v) => if v >= 0 { v / 1000 } else { -((-(v as int)) / 1000) },
                None => 0,
            })
            &&& (i64::MIN <= price - prev <= i64::MAX ==> q.change == price - prev)
            &&& (prev == 0 ==> q.change_pct == 0)
            &&& (prev != 0 && i64::MIN <= round_div((price - prev) * 10000, prev as int) <= i64::MAX ==>
                2 * crate::numtext::abs(q.change_pct * prev - (price - prev) * 10000) <= crate::numtext::abs(prev as int))
            &&& (m.long_name is Some ==> q.name == m.long_name->Some_0@)
            &&& (m.long_name is None && m.short_name is Some ==> q.name == m.short_name->Some_0@)
        },
{
    if m.regular_market_price is Some {
        let price = m.regular_market_price->Some_0;
        let prev = if m.chart_previous_close is Some { m.chart_previous_close->Some_0 } else { m.previous_close->Some_0 };
        if prev != 0 && i64::MIN <= round_div((price - prev) * 10000, prev as int) <= i64::MAX {
            law_change_pct_nearest(price - prev, prev as int);
        }
    }
}

/// Reading one more day adds its bar, where its timestamp has a date: the
/// bar of day `i` carries that date and the day's own open, high, low and
/// close (zero where missing) and its volume in whole lots.
pub proof fn law_bars_step(dates: Seq<Option<Seq<char>>>, s: ChartSeries, i: int)
    requires
        0 <= i < dates.len(),
    ensures
        bars_upto(dates, s, i + 1) == match dates[i] {
            Some(d) => bars_upto(dates, s, i).push(DayBarView {
                date: d,
                open: (if i < s.opens@.len() && s.opens@[i] is Some { s.opens@[i]->Some_0 } else { 0 }),
                high: (if i < s.highs@.len() && s.highs@[i] is Some { s.highs@[i]->Some_0 } else { 0 }),
                low: (if i < s.lows@.len() && s.lows@[i] is Some { s.lows@[i]->Some_0 } else { 0 }),
                close: (if i < s.closes@.len() && s.closes@[i] is Some { s.closes@[i]->Some_0 } else { 0 }),
                volume: (if i < s.volumes@.len() && s.volumes@[i] is Some {
                    let v = s.volumes@[i]->Some_0;
                    (if v >= 0 { v / 1000 } else { -((-(v as int)) / 1000) }) as i64
                } else {
                    0
                }),
            }),
            None => bars_upto(dates, s, i),
        },
{
}

/// The bars of the first `n` days are one per dated day among them.
pub proof fn law_bars_count(dates: Seq<Option<Seq<char>>>, s: ChartSeries, n: int)
    requires
        0 <= n <= dates.len(),
    ensures
        bars_upto(dates, s, n).len() == dates.take(n).filter(|d: Option<Seq<char>>| d is Some).len(),
    decreases n,
{
    reveal(Seq::filter);
    if n > 0 {
        law_bars_count(dates, s, n - 1);
        assert(dates.take(n).drop_last() =~= dates.take(n - 1));
        assert(dates.take(n).last() == dates[n - 1]);
    } else {
        assert(dates.take(0) =~= Seq::<Option<Seq<char>>>::empty());
    }
}

/// The history keeps the last `days` bars of all the dated days, in order,
/// or all of them where there are no more than `days`.
pub proof fn law_history_keeps_last_days(dates: Seq<Option<Seq<char>>>, s: ChartSeries, days: int)
    requires
        days >= 0,
    ensures
        ({
            let all = bars_upto(dates, s, dates.len() as int);
            let h = history_of(dates, s, days);
            &&& h.len() == if all.len() > days { days } else { all.len() as int }
            &&& forall|k: int| 0 <= k < h.len() ==> #[trigger] h[k] == all[all.len() - h.len() + k]
        }),
{
}


/// `round_div` gives the whole number nearest to the quotient: `n / d`
/// misses it by at most half.
pub proof fn law_round_div_nearest(n: int, d: int)
    requires
        d != 0,
    ensures
        2 * crate::numtext::abs(round_div(n, d) * d - n) <= crate::numtext::abs(d),
{
    let a = crate::numtext::abs(n);
    let b = crate::numtext::abs(d);
    let x = 2 * a + b;
    let y = 2 * b;
    let m = x / y;
    vstd::arithmetic::div_mod::lemma_fundamental_div_mod(x, y);
    vstd::arithmetic::div_mod::lemma_mod_bound(x, y);
    assert(x == y * m + x % y);
    assert(-b <= 2 * a - 2 * b * m < b) by (nonlinear_arith)
        requires x == y * m + x % y, 0 <= x % y < y, x == 2 * a + b, y == 2 * b;
    let r = round_div(n, d);
    assert(r == if (n >= 0) == (d > 0) { m } else { -m });
    if n >= 0 && d > 0 {
        assert(r * d - n == m * b - a) by (nonlinear_arith) requires r == m, d == b, n == a;
    } else if n < 0 && d < 0 {
        assert(r * d - n == a - m * b) by (nonlinear_arith) requires r == m, d == -b, n == -a;
    } else if n >= 0 {
        assert(r * d - n == m * b - a) by (nonlinear_arith) requires r == -m, d == -b, n == a;
    } else {
        assert(r * d - n == a - m * b) by (nonlinear_arith) requires r == -m, d == b, n == -a;
    }
    assert(2 * b * m == m * b * 2) by (nonlinear_arith);
}

/// The change in percent is the percentage of the change over the previous
/// close, to the nearest hundredth of a percent: `change_pct * prev` is
/// within half of `prev` of `change * 10000` (where it fits in `i64`).
pub proof fn law_change_pct_nearest(change: int, prev: int)
    requires
        prev != 0,
        i64::MIN <= round_div(change * 10000, prev) <= i64::MAX,
    ensures
        2 * crate::numtext::abs(change_pct_of(change, prev) * prev - change * 10000) <= crate::numtext::abs(prev),
        prev > 0 && change >= 0 ==> change_pct_of(change, prev) >= 0,
        prev > 0 && change <= 0 ==> change_pct_of(change, prev) <= 0,
{
    law_round_div_nearest(change * 10000, prev);
    let a = crate::numtext::abs(change * 10000);
    let b = crate::numtext::abs(prev);
    assert((2 * a + b) / (2 * b) >= 0) by (nonlinear_arith)
        requires a >= 0, b > 0;
    if change == 0 {
        assert(a == 0);
        assert(b / (2 * b) == 0) by (nonlinear_arith)
            requires b > 0;
    }
}


/// The calendar: within chrono's years, every month has days 1 to 28; the
/// 29th of February only in a year divisible by 4 and not by 100 unless by
/// 400; a 31st only in January, March, May, July, August, October and
/// December; no month 0 or 13 and no day 0.
pub proof fn law_calendar(y: int, m: int, d: int)
    requires
        -262143 <= y <= 262142,
    ensures
        1 <= m <= 12 && 1 <= d <= 28 ==> valid_date(y, m, d),
        valid_date(y, 2, 29) <==> (y % 4 == 0 && (y % 100 != 0 || y % 400 == 0)),
        valid_date(y, m, 31) <==> (m == 1 || m == 3 || m == 5 || m == 7 || m == 8 || m == 10 || m == 12),
        valid_date(y, m, 30) <==> (1 <= m <= 12 && m != 2),
        !valid_date(y, 0, d) && !valid_date(y, 13, d) && !valid_date(y, m, 0),
{
}

/// A TWSE date `"Y/M/D"` is the day `D` of month `M` of the year `Y + 1911`,
/// where that day exists.
pub proof fn law_roc_date(cell: Seq<char>)
    ensures
        roc_date(cell) matches Some(d) ==> {
            let parts = split_at_char(cell, '/');
            &&& parts.len() == 3
            &&& signed_int_value(parts[0]) == Some(d.year - 1911)
            &&& unsigned_int_value(parts[1]) == Some(d.month as int)
            &&& unsigned_int_value(parts[2]) == Some(d.day as int)
            &&& valid_date(d.year as int, d.month as int, d.day as int)
        },
{
}

/// The holidays of a schedule: none unless its status is `"OK"`; each later
/// row adds the date of its first cell, where that reads as a date.
pub proof fn law_holidays_step(stat: Seq<char>, rows: Seq<Seq<Seq<char>>>, i: int)
    requires
        0 <= i < rows.len(),
    ensures
        stat != "OK"@ ==> holidays_of(stat, rows).len() == 0,
        holidays_of("OK"@, rows) == holidays_upto(rows, rows.len() as int),
        holidays_upto(rows, i + 1) == if rows[i].len() > 0 && roc_date(rows[i][0]) is Some {
            holidays_upto(rows, i).push(roc_date(rows[i][0])->Some_0)
        } else {
            holidays_upto(rows, i)
        },
{
}

} // verus!
