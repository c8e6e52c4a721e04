//! Alert conditions and their cooldown: once a condition fires for a stock,
//! the same kind of condition stays quiet for that stock for 30 minutes.

use vstd::prelude::*;
use crate::assoc::{assoc_map, assoc_index, lemma_assoc_index, lemma_assoc_index_unique, lemma_assoc_update, lemma_assoc_push};
use crate::fetcher::{Quote, QuoteView};
use crate::user_store::{AlertCondition, AlertConditionView};
use crate::text::{lit, same_text};
use crate::numtext::Threshold;
use crate::clock::{instant_now, millis_since};
use std::time::Instant;

verus! {

/// How long a fired condition stays quiet: 30 minutes, in milliseconds.
pub const COOLDOWN_MS: u64 = 1_800_000;

/// Whether the amount `x` is above the threshold, as floats compare:
/// nothing is above plus infinity or not-a-number, everything is above
/// minus infinity.
pub open spec fn above(x: int, t: Threshold) -> bool {
    match t {
        Threshold::Amount(v) => x > v,
        Threshold::PlusInfinity => false,
        Threshold::MinusInfinity => true,
        Threshold::NotANumber => false,
    }
}

/// Whether the amount `x` is below the threshold, as floats compare.
pub open spec fn below(x: int, t: Threshold) -> bool {
    match t {
        Threshold::Amount(v) => x < v,
        Threshold::PlusInfinity => true,
        Threshold::MinusInfinity => false,
        Threshold::NotANumber => false,
    }
}

/// Whether the quote meets the condition. Prices are compared in cents,
/// percentages in hundredths of a percent; `volume_above` compares the
/// volume in lots with a threshold in hundredths of a lot; a falling
/// percentage must be below the negative of the threshold's magnitude
/// (never below that of an infinity or of not-a-number); an unknown kind
/// never fires.
pub open spec fn triggers(q: QuoteView, c: AlertConditionView) -> bool {
    if c.kind == "price_below"@ {
        below(q.price as int, c.value)
    } else if c.kind == "price_above"@ {
        above(q.price as int, c.value)
    } else if c.kind == "change_pct_above"@ {
        above(q.change_pct as int, c.value)
    } else if c.kind == "change_pct_below"@ {
        match c.value {
            Threshold::Amount(v) => q.change_pct < -crate::numtext::abs(v as int),
            _ => false,
        }
    } else if c.kind == "volume_above"@ {
        above(q.volume * 100, c.value)
    } else {
        false
    }
}

/// Whether `x` is above the threshold (see `above`).
fn is_above(x: i128, t: Threshold) -> (r: bool)
    ensures
        r == above(x as int, t),
{
    match t {
        Threshold::Amount(v) => x > v as i128,
        Threshold::PlusInfinity => false,
        Threshold::MinusInfinity => true,
        Threshold::NotANumber => false,
    }
}

/// Whether `x` is below the threshold (see `below`).
fn is_below(x: i128, t: Threshold) -> (r: bool)
    ensures
        r == below(x as int, t),
{
    match t {
        Threshold::Amount(v) => x < v as i128,
        Threshold::PlusInfinity => true,
        Threshold::MinusInfinity => false,
        Threshold::NotANumber => false,
    }
}

/// The record key of a condition kind on a symbol: `"{symbol}:{kind}"`.
pub open spec fn alert_key(symbol: Seq<char>, kind: Seq<char>) -> Seq<char> {
    symbol + ":"@ + kind
}

/// The time from `t` to `now`, zero when `now` is earlier.
pub open spec fn elapsed(t: u64, now: u64) -> int {
    if now >= t { now - t } else { 0int }
}

/// Whether the key fired less than 30 minutes before `now`.
pub open spec fn cooling(rec: Map<Seq<char>, u64>, key: Seq<char>, now: u64) -> bool {
    rec.contains_key(key) && elapsed(rec[key], now) < COOLDOWN_MS
}

/// One check of a stock's conditions at `now`: taken in order, a condition
/// fires when the quote meets it and its key is not cooling; a firing
/// condition is reported and its key recorded at `now`. The result is the
/// records after the check and the conditions reported, in order.
pub open spec fn check_run(
    rec: Map<Seq<char>, u64>,
    symbol: Seq<char>,
    q: QuoteView,
    conds: Seq<AlertConditionView>,
    now: u64,
) -> (Map<Seq<char>, u64>, Seq<AlertConditionView>)
    decreases conds.len(),
{
    if conds.len() == 0 {
        (rec, seq![])
    } else {
        let (r1, out1) = check_run(rec, symbol, q, conds.drop_last(), now);
        let c = conds.last();
        let key = alert_key(symbol, c.kind);
        if triggers(q, c) && !cooling(r1, key, now) {
            (r1.insert(key, now), out1.push(c))
        } else {
            (r1, out1)
        }
    }
}

/// The alert state of one user: when each (symbol, kind) last fired, on a
/// monotonic clock that starts when the engine is made.
pub struct AlertEngine {
    origin: Instant,
    last_now: u64,
    last_triggered: Vec<(String, u64)>,
}

impl AlertEngine {
    /// When each key last fired, in milliseconds since the engine was made.
    pub closed spec fn records(&self) -> Map<Seq<char>, u64> {
        assoc_map(self.last_triggered.deep_view())
    }

    /// The time of the latest check, in milliseconds since the engine was
    /// made; the engine's checks never go back before it.
    pub closed spec fn clock(&self) -> u64 {
        self.last_now
    }

    /// An engine with nothing fired yet.
    pub fn new() -> (e: AlertEngine)
        ensures
            e.records() == Map::<Seq<char>, u64>::empty(),
            e.clock() == 0,
    {
        AlertEngine { origin: instant_now(), last_now: 0, last_triggered: Vec::new() }
    }

    /// Reads the monotonic clock: the milliseconds since the engine was
    /// made, never earlier than the engine's clock (and at most
    /// `u64::MAX`); the engine's clock moves to the reading.
    pub fn tick(&mut self) -> (now: u64)
        ensures
            now >= old(self).clock(),
            final(self).clock() == now,
            final(self).records() == old(self).records(),
    {
        let ms = millis_since(&self.origin);
        let reading: u64 = if ms > u64::MAX as u128 { u64::MAX } else { ms as u64 };
        let now: u64 = if reading < self.last_now { self.last_now } else { reading };
        self.last_now = now;
        now
    }

    /// Whether the quote meets the condition.
    pub fn is_triggered(quote: &Quote, cond: &AlertCondition) -> (r: bool)
        ensures
            r == triggers(quote.deep_view(), cond.deep_view()),
    {
        let k = cond.kind.as_str();
        if same_text(k, "price_below") {
            is_below(quote.price as i128, cond.value)
        } else if same_text(k, "price_above") {
            is_above(quote.price as i128, cond.value)
        } else if same_text(k, "change_pct_above") {
            is_above(quote.change_pct as i128, cond.value)
        } else if same_text(k, "change_pct_below") {
            match cond.value {
                Threshold::Amount(v) => {
                    let mag: i128 = if v < 0 { 0 - v as i128 } else { v as i128 };
                    (quote.change_pct as i128) < 0 - mag
                },
                _ => false,
            }
        } else if same_text(k, "volume_above") {
            is_above((quote.volume as i128) * 100, cond.value)
        } else {
            false
        }
    }

    fn find_key(&self, key: &str) -> (r: usize)
        ensures
            r == assoc_index(self.last_triggered.deep_view(), key@),
    {
        let mut i: usize = 0;
        while i < self.last_triggered.len()
            invariant
                i <= self.last_triggered.len(),
                forall|j: int| 0 <= j < i ==> #[trigger] self.last_triggered.deep_view()[j].0 != key@,
            decreases self.last_triggered.len() - i,
        {
            if same_text(self.last_triggered[i].0.as_str(), key) {
                proof {
                    lemma_assoc_index_unique(self.last_triggered.deep_view(), key@, i as int);
                }
                return i;
            }
            i = i + 1;
        }
        proof {
            lemma_assoc_index_unique(self.last_triggered.deep_view(), key@, i as int);
        }
        i
    }

    /// Whether `key` fired less than 30 minutes before `now`.
    fn is_cooling(&self, key: &str, now: u64) -> (r: bool)
        ensures
            r == cooling(self.records(), key@, now),
    {
        let k = self.find_key(key);
        proof {
            lemma_assoc_index(self.last_triggered.deep_view(), key@);
        }
        if k < self.last_triggered.len() {
            let t = self.last_triggered[k].1;
            let el: i128 = if now >= t { now as i128 - t as i128 } else { 0 };
            el < COOLDOWN_MS as i128
        } else {
            false
        }
    }

    /// Records that `key` fired at `now`.
    fn record(&mut self, key: String, now: u64)
        ensures
            final(self).records() == old(self).records().insert(key@, now),
            final(self).clock() == old(self).clock(),
    {
        let k = self.find_key(key.as_str());
        let ghost es = self.last_triggered.deep_view();
        proof {
            lemma_assoc_index(es, key@);
        }
        if k < self.last_triggered.len() {
            let (name, _) = self.last_triggered.remove(k);
            self.last_triggered.insert(k, (name, now));
            proof {
                assert(self.last_triggered.deep_view() =~= es.update(k as int, (es[k as int].0, now)));
                lemma_assoc_update(es, k as int, now);
            }
        } else {
            let ghost kv = key@;
            self.last_triggered.push((key, now));
            proof {
                assert(self.last_triggered.deep_view() =~= es.push((kv, now)));
                lemma_assoc_push(es, (kv, now));
            }
        }
    }

    /// Moves the engine's clock to `at`, where that is later, and returns it.
    pub fn advance_to(&mut self, at: u64) -> (now: u64)
        ensures
            now == (if at < old(self).clock() { old(self).clock() } else { at }),
            final(self).clock() == now,
            final(self).records() == old(self).records(),
    {
        let now: u64 = if at < self.last_now { self.last_now } else { at };
        self.last_now = now;
        now
    }

    /// Checks a stock's conditions against its quote at `at` (milliseconds
    /// since the engine was made), or at the engine's clock where that is
    /// later; returns the conditions that fire, in order, and records them
    /// (see `check_run`). The engine's clock moves to the time of the check.
    pub fn check_at(&mut self, symbol: &str, quote: &Quote, conditions: &Vec<AlertCondition>, at: u64) -> (r: Vec<AlertCondition>)
        ensures
            final(self).clock() == (if at < old(self).clock() { old(self).clock() } else { at }),
            (final(self).records(), r.deep_view()) == check_run(
                old(self).records(),
                symbol@,
                quote.deep_view(),
                conditions.deep_view(),
                final(self).clock(),
            ),
    {
        let now = self.advance_to(at);
        let ghost rec0 = self.records();
        let ghost q = quote.deep_view();
        let ghost cs = conditions.deep_view();
        let mut fired: Vec<AlertCondition> = Vec::new();
        let mut i: usize = 0;
        while i < conditions.len()
            invariant
                i <= conditions.len(),
                cs == conditions.deep_view(),
                self.clock() == now,
                q == quote.deep_view(),
                (self.records(), fired.deep_view()) == check_run(rec0, symbol@, q, cs.take(i as int), now),
            decreases conditions.len() - i,
        {
            let cond = &conditions[i];
            proof {
                assert(cs.take(i + 1).drop_last() =~= cs.take(i as int));
                assert(cs.take(i + 1).last() == cs[i as int]);
            }
            if AlertEngine::is_triggered(quote, cond) {
                let mut key = lit(symbol);
                key.append(":");
                key.append(cond.kind.as_str());
                if !self.is_cooling(key.as_str(), now) {
                    self.record(key, now);
                    let c = cond.clone();
                    let ghost before = fired.deep_view();
                    fired.push(c);
                    assert(fired.deep_view() =~= before.push(cs[i as int]));
                }
            }
            i = i + 1;
        }
        assert(cs.take(i as int) =~= cs);
        fired
    }

    /// Checks a stock's conditions now, on the engine's monotonic clock
    /// (see `tick` and `check_run`): the check's time is the engine's clock
    /// afterwards, never earlier than before.
    pub fn check(&mut self, symbol: &str, quote: &Quote, conditions: &Vec<AlertCondition>) -> (r: Vec<AlertCondition>)
        ensures
            final(self).clock() >= old(self).clock(),
            (final(self).records(), r.deep_view()) == check_run(
                old(self).records(),
                symbol@,
                quote.deep_view(),
                conditions.deep_view(),
                final(self).clock(),
            ),
    {
        let now = self.tick();
        self.check_at(symbol, quote, conditions, now)
    }
}

impl Default for AlertEngine {
    fn default() -> (e: AlertEngine)
        ensures
            e.records() == Map::<Seq<char>, u64>::empty(),
            e.clock() == 0,
    {
        AlertEngine::new()
    }
}


// ---------------------------------------------------------------------
// Laws of the alert check

/// Different kinds on the same symbol have different keys.
pub proof fn lemma_alert_key_injective(symbol: Seq<char>, k1: Seq<char>, k2: Seq<char>)
    ensures
        alert_key(symbol, k1) == alert_key(symbol, k2) ==> k1 == k2,
{
    reveal_strlit(":");
    let n = symbol.len() + 1;
    assert(alert_key(symbol, k1).skip(n as int) =~= k1);
    assert(alert_key(symbol, k2).skip(n as int) =~= k2);
}

/// Every condition a check reports is recorded at the time of the check.
pub proof fn lemma_reported_recorded(
    rec: Map<Seq<char>, u64>,
    symbol: Seq<char>,
    q: QuoteView,
    conds: Seq<AlertConditionView>,
    now: u64,
)
    ensures
        forall|i: int| 0 <= i < check_run(rec, symbol, q, conds, now).1.len() ==> {
            let k = alert_key(symbol, #[trigger] check_run(rec, symbol, q, conds, now).1[i].kind);
            &&& check_run(rec, symbol, q, conds, now).0.contains_key(k)
            &&& check_run(rec, symbol, q, conds, now).0[k] == now
        },
    decreases conds.len(),
{
    if conds.len() > 0 {
        let t = conds.drop_last();
        lemma_reported_recorded(rec, symbol, q, t, now);
        let (r1, out1) = check_run(rec, symbol, q, t, now);
        let (r, out) = check_run(rec, symbol, q, conds, now);
        let c = conds.last();
        let kc = alert_key(symbol, c.kind);
        assert forall|i: int| 0 <= i < out.len() implies {
            let k = alert_key(symbol, #[trigger] out[i].kind);
            &&& r.contains_key(k)
            &&& r[k] == now
        } by {
            if triggers(q, c) && !cooling(r1, kc, now) {
                if i < out1.len() {
                    assert(out[i] == out1[i]);
                }
            } else {
                assert(out[i] == out1[i]);
            }
        }
    }
}

/// A key that is cooling at `now` stays as it is through a check at `now`,
/// and no condition of its kind is reported.
pub proof fn lemma_cooling_kind_quiet(
    rec: Map<Seq<char>, u64>,
    symbol: Seq<char>,
    q: QuoteView,
    conds: Seq<AlertConditionView>,
    now: u64,
    kind: Seq<char>,
)
    requires
        cooling(rec, alert_key(symbol, kind), now),
    ensures
        check_run(rec, symbol, q, conds, now).0.contains_key(alert_key(symbol, kind)),
        check_run(rec, symbol, q, conds, now).0[alert_key(symbol, kind)] == rec[alert_key(symbol, kind)],
        forall|j: int| 0 <= j < check_run(rec, symbol, q, conds, now).1.len() ==>
            (#[trigger] check_run(rec, symbol, q, conds, now).1[j]).kind != kind,
    decreases conds.len(),
{
    if conds.len() > 0 {
        lemma_cooling_kind_quiet(rec, symbol, q, conds.drop_last(), now, kind);
        lemma_alert_key_injective(symbol, conds.last().kind, kind);
    }
}

/// Cooldown: a condition kind reported for a stock by a check at `t` is not
/// reported again for that stock by the next check at any time `t2` in the
/// following 30 minutes, whatever the quote and the conditions then.
pub proof fn law_cooldown(
    rec: Map<Seq<char>, u64>,
    symbol: Seq<char>,
    q: QuoteView,
    conds: Seq<AlertConditionView>,
    t: u64,
    q2: QuoteView,
    conds2: Seq<AlertConditionView>,
    t2: u64,
)
    requires
        t <= t2 < t + COOLDOWN_MS,
    ensures
        ({
            let (r1, out1) = check_run(rec, symbol, q, conds, t);
            let out2 = check_run(r1, symbol, q2, conds2, t2).1;
            forall|i: int, j: int| 0 <= i < out1.len() && 0 <= j < out2.len() ==> #[trigger] out1[i].kind != #[trigger] out2[j].kind
        }),
{
    let (r1, out1) = check_run(rec, symbol, q, conds, t);
    let out2 = check_run(r1, symbol, q2, conds2, t2).1;
    lemma_reported_recorded(rec, symbol, q, conds, t);
    assert forall|i: int, j: int| 0 <= i < out1.len() && 0 <= j < out2.len() implies #[trigger] out1[i].kind != #[trigger] out2[j].kind by {
        let kind = out1[i].kind;
        lemma_cooling_kind_quiet(r1, symbol, q2, conds2, t2, kind);
    }
}

/// A key that is cooling at `now` keeps its time through a check at `now`,
/// whatever stock is checked.
pub proof fn lemma_cooling_key_kept(
    rec: Map<Seq<char>, u64>,
    symbol: Seq<char>,
    q: QuoteView,
    conds: Seq<AlertConditionView>,
    now: u64,
    key: Seq<char>,
)
    requires
        cooling(rec, key, now),
    ensures
        check_run(rec, symbol, q, conds, now).0.contains_key(key),
        check_run(rec, symbol, q, conds, now).0[key] == rec[key],
    decreases conds.len(),
{
    if conds.len() > 0 {
        lemma_cooling_key_kept(rec, symbol, q, conds.drop_last(), now, key);
    }
}

/// One check in a run of checks on an engine: the stock, its quote, the
/// conditions and the time of the check.
pub struct CheckCall {
    pub symbol: Seq<char>,
    pub quote: QuoteView,
    pub conds: Seq<AlertConditionView>,
    pub now: u64,
}

/// The records after a run of checks made one after another from `rec`.
pub open spec fn records_after(rec: Map<Seq<char>, u64>, calls: Seq<CheckCall>) -> Map<Seq<char>, u64>
    decreases calls.len(),
{
    if calls.len() == 0 {
        rec
    } else {
        let c = calls.last();
        check_run(records_after(rec, calls.drop_last()), c.symbol, c.quote, c.conds, c.now).0
    }
}

/// What the `i`-th check of a run reports.
pub open spec fn reported_in_run(rec: Map<Seq<char>, u64>, calls: Seq<CheckCall>, i: int) -> Seq<AlertConditionView> {
    let c = calls[i];
    check_run(records_after(rec, calls.take(i)), c.symbol, c.quote, c.conds, c.now).1
}

/// The times of a run of checks never go back, as an engine's clock keeps
/// them (see `AlertEngine::check`).
pub open spec fn times_ascending(calls: Seq<CheckCall>) -> bool {
    forall|m: int| 0 < m < calls.len() ==> #[trigger] calls[m - 1].now <= calls[m].now
}

proof fn lemma_records_after_step(rec: Map<Seq<char>, u64>, calls: Seq<CheckCall>, m: int)
    requires
        0 <= m < calls.len(),
    ensures
        records_after(rec, calls.take(m + 1)) == check_run(
            records_after(rec, calls.take(m)), calls[m].symbol, calls[m].quote, calls[m].conds, calls[m].now).0,
{
    assert(calls.take(m + 1).drop_last() =~= calls.take(m));
    assert(calls.take(m + 1).last() == calls[m]);
}

proof fn lemma_times_ascending(calls: Seq<CheckCall>, a: int, b: int)
    requires
        times_ascending(calls),
        0 <= a <= b < calls.len(),
    ensures
        calls[a].now <= calls[b].now,
    decreases b - a,
{
    if a < b {
        lemma_times_ascending(calls, a, b - 1);
        assert(calls[b - 1].now <= calls[b].now);
    }
}

/// A key recorded at `t0` keeps that time through the checks `m..j` of a
/// run, where each of them comes less than 30 minutes after `t0`.
proof fn lemma_key_kept_through(rec: Map<Seq<char>, u64>, calls: Seq<CheckCall>, m: int, j: int, key: Seq<char>, t0: u64)
    requires
        0 <= m <= j <= calls.len(),
        records_after(rec, calls.take(m)).contains_key(key),
        records_after(rec, calls.take(m))[key] == t0,
        forall|l: int| m <= l < j ==> t0 <= #[trigger] calls[l].now < t0 + COOLDOWN_MS,
    ensures
        records_after(rec, calls.take(j)).contains_key(key),
        records_after(rec, calls.take(j))[key] == t0,
    decreases j - m,
{
    if m < j {
        let c = calls[m];
        assert(t0 <= calls[m].now < t0 + COOLDOWN_MS);
        lemma_cooling_key_kept(records_after(rec, calls.take(m)), c.symbol, c.quote, c.conds, c.now, key);
        lemma_records_after_step(rec, calls, m);
        lemma_key_kept_through(rec, calls, m + 1, j, key, t0);
    }
}

/// Cooldown over a run of checks: where a check of a stock at `t` reports a
/// condition kind, no later check of that stock in the run reports that
/// kind while less than 30 minutes have passed since `t`, whatever the
/// quotes and conditions of the checks in between and then.
pub proof fn law_cooldown_across_checks(
    rec: Map<Seq<char>, u64>,
    calls: Seq<CheckCall>,
    i: int,
    j: int,
    kind: Seq<char>,
)
    requires
        times_ascending(calls),
        0 <= i < j < calls.len(),
        calls[j].symbol == calls[i].symbol,
        calls[j].now < calls[i].now + COOLDOWN_MS,
        exists|a: int| 0 <= a < reported_in_run(rec, calls, i).len() && (#[trigger] reported_in_run(rec, calls, i)[a]).kind == kind,
    ensures
        forall|b: int| 0 <= b < reported_in_run(rec, calls, j).len() ==> (#[trigger] reported_in_run(rec, calls, j)[b]).kind != kind,
{
    let ci = calls[i];
    let t0 = ci.now;
    let key = alert_key(ci.symbol, kind);
    let before = records_after(rec, calls.take(i));
    let a = choose|a: int| 0 <= a < reported_in_run(rec, calls, i).len() && (#[trigger] reported_in_run(rec, calls, i)[a]).kind == kind;
    lemma_reported_recorded(before, ci.symbol, ci.quote, ci.conds, t0);
    assert(check_run(before, ci.symbol, ci.quote, ci.conds, t0).1[a].kind == kind);
    lemma_records_after_step(rec, calls, i);
    assert forall|l: int| i + 1 <= l < j implies t0 <= #[trigger] calls[l].now < t0 + COOLDOWN_MS by {
        lemma_times_ascending(calls, i, l);
        lemma_times_ascending(calls, l, j);
    }
    lemma_key_kept_through(rec, calls, i + 1, j, key, t0);
    lemma_times_ascending(calls, i, j);
    let cj = calls[j];
    lemma_cooling_kind_quiet(records_after(rec, calls.take(j)), cj.symbol, cj.quote, cj.conds, cj.now, kind);
}

/// After the first `i` conditions of a check, a kind's key is cooling
/// exactly where it was cooling before the check or an earlier condition
/// of that kind was met.
proof fn lemma_cooling_after_prefix(
    rec: Map<Seq<char>, u64>,
    symbol: Seq<char>,
    q: QuoteView,
    conds: Seq<AlertConditionView>,
    now: u64,
    i: int,
    kind: Seq<char>,
)
    requires
        0 <= i <= conds.len(),
    ensures
        cooling(check_run(rec, symbol, q, conds.take(i), now).0, alert_key(symbol, kind), now) == (
            cooling(rec, alert_key(symbol, kind), now)
            || exists|j: int| 0 <= j < i && triggers(q, #[trigger] conds[j]) && conds[j].kind == kind),
    decreases i,
{
    if i > 0 {
        lemma_cooling_after_prefix(rec, symbol, q, conds, now, i - 1, kind);
        let pre = conds.take(i);
        assert(pre.drop_last() =~= conds.take(i - 1));
        assert(pre.last() == conds[i - 1]);
        let c = conds[i - 1];
        lemma_alert_key_injective(symbol, c.kind, kind);
        let r0 = check_run(rec, symbol, q, conds.take(i - 1), now).0;
        let k = alert_key(symbol, kind);
        if exists|j: int| 0 <= j < i && triggers(q, #[trigger] conds[j]) && conds[j].kind == kind {
            let j = choose|j: int| 0 <= j < i && triggers(q, #[trigger] conds[j]) && conds[j].kind == kind;
            if j < i - 1 {
                assert(exists|j2: int| 0 <= j2 < i - 1 && triggers(q, #[trigger] conds[j2]) && conds[j2].kind == kind);
            }
        } else {
            assert(!(exists|j2: int| 0 <= j2 < i - 1 && triggers(q, #[trigger] conds[j2]) && conds[j2].kind == kind)) by {
                if exists|j2: int| 0 <= j2 < i - 1 && triggers(q, #[trigger] conds[j2]) && conds[j2].kind == kind {
                    let j2 = choose|j2: int| 0 <= j2 < i - 1 && triggers(q, #[trigger] conds[j2]) && conds[j2].kind == kind;
                    assert(0 <= j2 < i && triggers(q, conds[j2]) && conds[j2].kind == kind);
                }
            }
        }
    } else {
        assert(conds.take(0) =~= Seq::<AlertConditionView>::empty());
    }
}

/// What a check decides for each condition, against the records from
/// before the check: the `i`-th condition is reported exactly when the
/// quote meets it, its kind was not reported for the stock in the 30
/// minutes before, and no earlier condition of the check of that kind is
/// met; the reported conditions come in the order given.
pub proof fn law_condition_reported_iff(
    rec: Map<Seq<char>, u64>,
    symbol: Seq<char>,
    q: QuoteView,
    conds: Seq<AlertConditionView>,
    now: u64,
    i: int,
)
    requires
        0 <= i < conds.len(),
    ensures
        check_run(rec, symbol, q, conds.take(i + 1), now).1 == if triggers(q, conds[i])
            && !cooling(rec, alert_key(symbol, conds[i].kind), now)
            && (forall|j: int| 0 <= j < i ==> !(triggers(q, #[trigger] conds[j]) && conds[j].kind == conds[i].kind)) {
            check_run(rec, symbol, q, conds.take(i), now).1.push(conds[i])
        } else {
            check_run(rec, symbol, q, conds.take(i), now).1
        },
{
    lemma_cooling_after_prefix(rec, symbol, q, conds, now, i, conds[i].kind);
    let pre = conds.take(i + 1);
    assert(pre.drop_last() =~= conds.take(i));
    assert(pre.last() == conds[i]);
}

/// A check from records with nothing in them, as a new engine has: the
/// `i`-th condition is reported exactly when the quote meets it and no
/// earlier condition of the check of that kind is met.
pub proof fn law_fresh_check_reports_first_met(
    symbol: Seq<char>,
    q: QuoteView,
    conds: Seq<AlertConditionView>,
    now: u64,
    i: int,
)
    requires
        0 <= i < conds.len(),
    ensures
        ({
            let rec = Map::<Seq<char>, u64>::empty();
            check_run(rec, symbol, q, conds.take(i + 1), now).1 == if triggers(q, conds[i])
                && (forall|j: int| 0 <= j < i ==> !(triggers(q, #[trigger] conds[j]) && conds[j].kind == conds[i].kind)) {
                check_run(rec, symbol, q, conds.take(i), now).1.push(conds[i])
            } else {
                check_run(rec, symbol, q, conds.take(i), now).1
            }
        }),
{
    law_condition_reported_iff(Map::<Seq<char>, u64>::empty(), symbol, q, conds, now, i);
}

/// A check changes the records only at the keys of the conditions it
/// reports: every other key keeps its time, or stays absent.
pub proof fn law_unreported_keys_unchanged(
    rec: Map<Seq<char>, u64>,
    symbol: Seq<char>,
    q: QuoteView,
    conds: Seq<AlertConditionView>,
    now: u64,
    key: Seq<char>,
)
    requires
        forall|j: int| 0 <= j < check_run(rec, symbol, q, conds, now).1.len()
            ==> alert_key(symbol, (#[trigger] check_run(rec, symbol, q, conds, now).1[j]).kind) != key,
    ensures
        check_run(rec, symbol, q, conds, now).0.contains_key(key) == rec.contains_key(key),
        rec.contains_key(key) ==> check_run(rec, symbol, q, conds, now).0[key] == rec[key],
    decreases conds.len(),
{
    if conds.len() > 0 {
        let t = conds.drop_last();
        let (r1, out1) = check_run(rec, symbol, q, t, now);
        let out = check_run(rec, symbol, q, conds, now).1;
        assert forall|j: int| 0 <= j < out1.len() implies alert_key(symbol, (#[trigger] out1[j]).kind) != key by {
            assert(out[j] == out1[j]);
        }
        law_unreported_keys_unchanged(rec, symbol, q, t, now, key);
        let c = conds.last();
        if triggers(q, c) && !cooling(r1, alert_key(symbol, c.kind), now) {
            assert(out[out1.len() as int] == c);
        }
    }
}

/// Once 30 minutes have passed since a kind last fired for a stock, a
/// condition of that kind that the quote meets fires again.
pub proof fn law_fires_again_after_cooldown(
    rec: Map<Seq<char>, u64>,
    symbol: Seq<char>,
    q: QuoteView,
    c: AlertConditionView,
    now: u64,
)
    requires
        triggers(q, c),
        rec.contains_key(alert_key(symbol, c.kind)) ==> now >= rec[alert_key(symbol, c.kind)] + COOLDOWN_MS,
    ensures
        check_run(rec, symbol, q, seq![c], now).1 == seq![c],
        check_run(rec, symbol, q, seq![c], now).0 == rec.insert(alert_key(symbol, c.kind), now),
{
    let e = Seq::<AlertConditionView>::empty();
    assert(seq![c].drop_last() =~= e);
    assert(seq![c].last() == c);
    assert(check_run(rec, symbol, q, e, now) == (rec, e));
    assert(!cooling(rec, alert_key(symbol, c.kind), now));
    assert(e.push(c) =~= seq![c]);
}

/// A check reports only conditions that the quote meets, taken from those given.
pub proof fn law_reports_only_met_conditions(
    rec: Map<Seq<char>, u64>,
    symbol: Seq<char>,
    q: QuoteView,
    conds: Seq<AlertConditionView>,
    now: u64,
)
    ensures
        forall|j: int| 0 <= j < check_run(rec, symbol, q, conds, now).1.len() ==> {
            &&& triggers(q, #[trigger] check_run(rec, symbol, q, conds, now).1[j])
            &&& conds.contains(check_run(rec, symbol, q, conds, now).1[j])
        },
    decreases conds.len(),
{
    if conds.len() > 0 {
        let t = conds.drop_last();
        law_reports_only_met_conditions(rec, symbol, q, t, now);
        let (r1, out1) = check_run(rec, symbol, q, t, now);
        let out = check_run(rec, symbol, q, conds, now).1;
        let c = conds.last();
        assert forall|j: int| 0 <= j < out.len() implies {
            &&& triggers(q, #[trigger] out[j])
            &&& conds.contains(out[j])
        } by {
            if j < out1.len() {
                assert(out[j] == out1[j]);
                assert(t.contains(out1[j]));
                let k = choose|k: int| 0 <= k < t.len() && t[k] == out1[j];
                assert(conds[k] == t[k]);
            } else {
                assert(out[j] == c);
                assert(conds[conds.len() - 1] == c);
            }
        }
    }
}

/// Recording a key at `now` keeps every cooling key cooling.
pub proof fn lemma_insert_now_keeps_cooling(rec: Map<Seq<char>, u64>, k: Seq<char>, k2: Seq<char>, now: u64)
    requires
        cooling(rec, k, now),
    ensures
        cooling(rec.insert(k2, now), k, now),
{
}

/// After a check at `now`, the key of every condition that the quote meets
/// is cooling.
pub proof fn lemma_met_conditions_cooling(
    rec: Map<Seq<char>, u64>,
    symbol: Seq<char>,
    q: QuoteView,
    conds: Seq<AlertConditionView>,
    now: u64,
)
    ensures
        forall|i: int| 0 <= i < conds.len() && triggers(q, #[trigger] conds[i]) ==>
            cooling(check_run(rec, symbol, q, conds, now).0, alert_key(symbol, conds[i].kind), now),
    decreases conds.len(),
{
    if conds.len() > 0 {
        let t = conds.drop_last();
        lemma_met_conditions_cooling(rec, symbol, q, t, now);
        let r1 = check_run(rec, symbol, q, t, now).0;
        let c = conds.last();
        let kc = alert_key(symbol, c.kind);
        assert forall|i: int| 0 <= i < conds.len() && triggers(q, #[trigger] conds[i]) implies
            cooling(check_run(rec, symbol, q, conds, now).0, alert_key(symbol, conds[i].kind), now) by {
            if i < t.len() {
                assert(conds[i] == t[i]);
                if triggers(q, c) && !cooling(r1, kc, now) {
                    lemma_insert_now_keeps_cooling(r1, alert_key(symbol, conds[i].kind), kc, now);
                }
            }
        }
    }
}

/// A check at `now` in which every met condition is cooling changes nothing
/// and reports nothing.
pub proof fn lemma_all_cooling_quiet(
    rec: Map<Seq<char>, u64>,
    symbol: Seq<char>,
    q: QuoteView,
    conds: Seq<AlertConditionView>,
    now: u64,
)
    requires
        forall|i: int| 0 <= i < conds.len() && triggers(q, #[trigger] conds[i]) ==>
            cooling(rec, alert_key(symbol, conds[i].kind), now),
    ensures
        check_run(rec, symbol, q, conds, now) == (rec, Seq::<AlertConditionView>::empty()),
    decreases conds.len(),
{
    if conds.len() > 0 {
        let t = conds.drop_last();
        assert forall|i: int| 0 <= i < t.len() && triggers(q, #[trigger] t[i]) implies
            cooling(rec, alert_key(symbol, t[i].kind), now) by {
            assert(t[i] == conds[i]);
        }
        lemma_all_cooling_quiet(rec, symbol, q, t, now);
        assert(conds.last() == conds[conds.len() - 1]);
    }
}

/// Checking the same conditions against the same quote again at the same
/// time reports nothing and records nothing new.
pub proof fn law_recheck_is_quiet(
    rec: Map<Seq<char>, u64>,
    symbol: Seq<char>,
    q: QuoteView,
    conds: Seq<AlertConditionView>,
    now: u64,
)
    ensures
        ({
            let r1 = check_run(rec, symbol, q, conds, now).0;
            check_run(r1, symbol, q, conds, now) == (r1, Seq::<AlertConditionView>::empty())
        }),
{
    lemma_met_conditions_cooling(rec, symbol, q, conds, now);
    let r1 = check_run(rec, symbol, q, conds, now).0;
    lemma_all_cooling_quiet(r1, symbol, q, conds, now);
}

/// The five kinds are five different texts.
pub proof fn lemma_kinds_distinct()
    ensures
        "price_below"@ != "price_above"@,
        "price_below"@ != "change_pct_above"@,
        "price_below"@ != "change_pct_below"@,
        "price_below"@ != "volume_above"@,
        "price_above"@ != "change_pct_above"@,
        "price_above"@ != "change_pct_below"@,
        "price_above"@ != "volume_above"@,
        "change_pct_above"@ != "change_pct_below"@,
        "change_pct_above"@ != "volume_above"@,
        "change_pct_below"@ != "volume_above"@,
{
    reveal_strlit("price_below");
    reveal_strlit("price_above");
    reveal_strlit("change_pct_above");
    reveal_strlit("change_pct_below");
    reveal_strlit("volume_above");
    assert("price_below"@[6] != "price_above"@[6]);
    assert("change_pct_above"@[11] != "change_pct_below"@[11]);
}

/// What each kind of condition asks of the quote, for a threshold that is
/// an amount `v`: the price below `v`, the price above `v`, the change in
/// percent above `v`, the change in percent below `-|v|`, the volume (in
/// lots, against `v` in hundredths of a lot) above `v`.
pub proof fn law_triggers_by_kind(q: QuoteView, kind: Seq<char>, v: i64)
    ensures
        ({
            let c = AlertConditionView { kind, value: Threshold::Amount(v) };
            &&& kind == "price_below"@ ==> (triggers(q, c) <==> q.price < v)
            &&& kind == "price_above"@ ==> (triggers(q, c) <==> q.price > v)
            &&& kind == "change_pct_above"@ ==> (triggers(q, c) <==> q.change_pct > v)
            &&& kind == "change_pct_below"@ ==> (triggers(q, c) <==> (q.change_pct < v && q.change_pct < -v))
            &&& kind == "volume_above"@ ==> (triggers(q, c) <==> q.volume * 100 > v)
        }),
{
    lemma_kinds_distinct();
}

/// What each kind asks of the quote where the threshold is an infinity or
/// not a number, as floats compare: everything is below plus infinity and
/// above minus infinity, nothing is below minus infinity or above plus
/// infinity, and not-a-number is met by nothing.
pub proof fn law_triggers_beyond_amounts(q: QuoteView, kind: Seq<char>)
    ensures
        triggers(q, AlertConditionView { kind, value: Threshold::NotANumber }) == false,
        triggers(q, AlertConditionView { kind, value: Threshold::PlusInfinity }) == (kind == "price_below"@),
        triggers(q, AlertConditionView { kind, value: Threshold::MinusInfinity }) == (kind == "price_above"@
            || kind == "change_pct_above"@ || kind == "volume_above"@),
{
    lemma_kinds_distinct();
}

/// A condition of a kind other than the five known ones never fires.
pub proof fn law_unknown_kind_never_fires(q: QuoteView, c: AlertConditionView)
    requires
        c.kind != "price_below"@,
        c.kind != "price_above"@,
        c.kind != "change_pct_above"@,
        c.kind != "change_pct_below"@,
        c.kind != "volume_above"@,
    ensures
        !triggers(q, c),
{
}

} // verus!
