//! The chat messages: a quote, a summary of quotes, an alert.

use vstd::prelude::*;
use crate::fetcher::{Quote, QuoteView, trunc_div, div_trunc};
use crate::numtext::{
    int_text, fixed2_text, fixed1_text, abs, push_fixed2, int_to_text, sign_text, digits_of, push_digits,
    push_wide_digits, magnitude, float_whole, float_whole_of, Threshold, threshold_fixed2_text,
    threshold_fixed1_text, threshold_abs_fixed1_text, push_threshold_fixed2, push_threshold_fixed1,
    push_threshold_abs_fixed1,
};
use crate::searcher::{code_of, code_from_symbol};
use crate::text::{joined, join_texts, lit, same_text, to_chars, push_range, push_char};
use crate::user_store::{AlertCondition, AlertConditionView};

verus! {

/// The digits `s` with a comma before every third one from the right.
pub open spec fn grouped(s: Seq<char>) -> Seq<char>
    decreases s.len(),
{
    if s.len() <= 3 {
        s
    } else {
        grouped(s.take(s.len() - 3)) + seq![','] + s.skip(s.len() - 3)
    }
}

/// A number with thousands separators: `8189` is written `8,189`, and
/// `-1234` is written `-1,234` (the sign stands outside the groups).
pub open spec fn number_text(n: int) -> Seq<char> {
    sign_text(n) + grouped(digits_of(abs(n) as nat))
}

/// Appends `grouped(v[0..end])`.
fn push_grouped(out: &mut String, v: &Vec<char>, end: usize)
    requires
        end <= v.len(),
    ensures
        final(out)@ == old(out)@ + grouped(v@.take(end as int)),
    decreases end,
{
    let ghost s = v@.take(end as int);
    if end <= 3 {
        push_range(out, v, 0, end);
        assert(v@.subrange(0, end as int) =~= s);
    } else {
        push_grouped(out, v, end - 3);
        push_char(out, ',');
        push_range(out, v, end - 3, end);
        proof {
            assert(s.take(s.len() - 3) =~= v@.take(end - 3));
            assert(s.skip(s.len() - 3) =~= v@.subrange(end - 3, end as int));
            assert(final(out)@ =~= old(out)@ + grouped(s));
        }
    }
}

/// Writes `n` with thousands separators.
pub fn format_number(n: i64) -> (r: String)
    ensures
        r@ == number_text(n as int),
{
    let mut r = String::new();
    let m: u64 = if n < 0 { (0i128 - n as i128) as u64 } else { n as u64 };
    if n < 0 {
        push_char(&mut r, '-');
    }
    let mut t = String::new();
    push_digits(&mut t, m);
    let v = to_chars(t.as_str());
    let ghost before = r@;
    push_grouped(&mut r, &v, v.len());
    proof {
        assert(Seq::<char>::empty() + digits_of(m as nat) =~= digits_of(m as nat));
        assert(v@.take(v.len() as int) =~= v@);
        assert(before =~= sign_text(n as int));
        assert(m as int == abs(n as int));
    }
    r
}

/// The title of a quote: the code and the name, or the code alone where the
/// name is empty or the same as the code.
pub open spec fn quote_title(q: QuoteView) -> Seq<char> {
    let code = code_of(q.symbol);
    if q.name.len() > 0 && q.name != code { code + " "@ + q.name } else { code }
}

/// A quote as a Markdown message:
/// ```text
/// 📊 *2330 台積電*
/// 現價：`950.00` ▲ +10.00 (+1.06%)
/// 開/高/低：940.00 / 955.00 / 938.00
/// 成交量：25,000 張
/// ```
/// The arrow follows the sign of the percentage, the `+` that of the change.
pub open spec fn quote_text(q: QuoteView) -> Seq<char> {
    let arrow = if q.change_pct >= 0 { "▲"@ } else { "▼"@ };
    let sign = if q.change >= 0 { "+"@ } else { ""@ };
    "📊 *"@ + quote_title(q) + "*\n現價：`"@ + fixed2_text(q.price as int) + "` "@ + arrow + " "@ + sign
        + fixed2_text(q.change as int) + " ("@ + sign + fixed2_text(q.change_pct as int) + "%)\n開/高/低："@
        + fixed2_text(q.open as int) + " / "@ + fixed2_text(q.high as int) + " / "@ + fixed2_text(q.low as int)
        + "\n成交量："@ + number_text(q.volume as int) + " 張"@
}

/// Formats one quote (see `quote_text`).
pub fn format_quote(quote: &Quote) -> (r: String)
    ensures
        r@ == quote_text(quote.deep_view()),
{
    let code = code_from_symbol(quote.symbol.as_str());
    let mut r = lit("📊 *");
    if quote.name.unicode_len() > 0 && !same_text(quote.name.as_str(), code) {
        r.append(code);
        r.append(" ");
        r.append(quote.name.as_str());
    } else {
        r.append(code);
    }
    r.append("*\n現價：`");
    push_fixed2(&mut r, quote.price);
    r.append("` ");
    r.append(if quote.change_pct >= 0 { "▲" } else { "▼" });
    r.append(" ");
    let sign = if quote.change >= 0 { "+" } else { "" };
    r.append(sign);
    push_fixed2(&mut r, quote.change);
    r.append(" (");
    r.append(sign);
    push_fixed2(&mut r, quote.change_pct);
    r.append("%)\n開/高/低：");
    push_fixed2(&mut r, quote.open);
    r.append(" / ");
    push_fixed2(&mut r, quote.high);
    r.append(" / ");
    push_fixed2(&mut r, quote.low);
    r.append("\n成交量：");
    let vol = format_number(quote.volume);
    r.append(vol.as_str());
    r.append(" 張");
    proof {
        let q = quote.deep_view();
        assert(r@ =~= quote_text(q));
    }
    r
}

/// The messages of several quotes.
pub open spec fn quote_texts(qs: Seq<QuoteView>) -> Seq<Seq<char>> {
    qs.map_values(|q: QuoteView| quote_text(q))
}

/// The summary of several quotes: their messages separated by a blank line,
/// or a notice where there are none.
pub open spec fn summary_text(qs: Seq<QuoteView>) -> Seq<char> {
    if qs.len() == 0 {
        "⚠️ 目前無法取得行情資料"@
    } else {
        joined(quote_texts(qs), "\n\n"@)
    }
}

/// Formats the summary of several quotes.
pub fn format_summary(quotes: &Vec<Quote>) -> (r: String)
    ensures
        r@ == summary_text(quotes.deep_view()),
{
    if quotes.len() == 0 {
        return lit("⚠️ 目前無法取得行情資料");
    }
    let mut texts: Vec<String> = Vec::new();
    let mut i: usize = 0;
    while i < quotes.len()
        invariant
            i <= quotes.len(),
            texts.deep_view() == quote_texts(quotes.deep_view().take(i as int)),
        decreases quotes.len() - i,
    {
        let t = format_quote(&quotes[i]);
        let ghost before = texts.deep_view();
        let ghost tv = t@;
        texts.push(t);
        assert(texts.deep_view() =~= before.push(tv));
        assert(quotes.deep_view().take(i + 1) =~= quotes.deep_view().take(i as int).push(quotes.deep_view()[i as int]));
        assert(quote_texts(quotes.deep_view().take(i + 1)) =~= quote_texts(quotes.deep_view().take(i as int)).push(tv));
        i = i + 1;
    }
    assert(quotes.deep_view().take(i as int) =~= quotes.deep_view());
    join_texts(&texts, "\n\n")
}

/// A threshold of hundredths of a lot as whole lots, as `as i64` makes of
/// the float: the whole part of the `f64` nearest to it, the bounds of
/// `i64` for the infinities, and zero for not-a-number.
pub open spec fn threshold_lots(t: Threshold) -> int {
    match t {
        Threshold::Amount(v) => if v < 0 {
            -(float_whole(abs(v as int) as nat) as int)
        } else {
            float_whole(v as nat) as int
        },
        Threshold::PlusInfinity => i64::MAX as int,
        Threshold::MinusInfinity => i64::MIN as int,
        Threshold::NotANumber => 0,
    }
}

/// What an alert condition says, by its kind.
pub open spec fn condition_text(c: AlertConditionView) -> Seq<char> {
    if c.kind == "price_below"@ {
        "跌破 "@ + threshold_fixed2_text(c.value) + " 元"@
    } else if c.kind == "price_above"@ {
        "突破 "@ + threshold_fixed2_text(c.value) + " 元"@
    } else if c.kind == "change_pct_above"@ {
        "漲幅超過 "@ + threshold_fixed1_text(c.value) + "%"@
    } else if c.kind == "change_pct_below"@ {
        "跌幅超過 "@ + threshold_abs_fixed1_text(c.value) + "%"@
    } else if c.kind == "volume_above"@ {
        "成交量超過 "@ + number_text(threshold_lots(c.value)) + " 張"@
    } else {
        c.kind
    }
}

/// Appends `number_text(n)`.
fn push_number(out: &mut String, neg: bool, mag: u128)
    ensures
        final(out)@ == old(out)@ + number_text(if neg { -(mag as int) } else { mag as int }),
{
    let ghost n: int = if neg { -(mag as int) } else { mag as int };
    let ghost before = out@;
    if neg && mag > 0 {
        push_char(out, '-');
    }
    let mut t = String::new();
    push_wide_digits(&mut t, mag);
    let v = to_chars(t.as_str());
    let ghost mid = out@;
    push_grouped(out, &v, v.len());
    proof {
        assert(Seq::<char>::empty() + digits_of(mag as nat) =~= digits_of(mag as nat));
        assert(v@.take(v.len() as int) =~= v@);
        assert(mid =~= before + sign_text(n));
        assert(mag as int == abs(n));
    }
}

/// Appends `number_text(threshold_lots(t))`.
fn push_threshold_lots(out: &mut String, t: Threshold)
    ensures
        final(out)@ == old(out)@ + number_text(threshold_lots(t)),
{
    match t {
        Threshold::Amount(v) => {
            let m = magnitude(v);
            let w = float_whole_of(m);
            push_number(out, v < 0, w);
        },
        Threshold::PlusInfinity => push_number(out, false, 0x7FFF_FFFF_FFFF_FFFF),
        Threshold::MinusInfinity => push_number(out, true, 0x8000_0000_0000_0000),
        Threshold::NotANumber => push_number(out, false, 0),
    }
}

/// An alert message: the condition that fired, then the quote.
pub open spec fn alert_text(q: QuoteView, c: AlertConditionView) -> Seq<char> {
    "🚨 *"@ + code_of(q.symbol) + " 警示*："@ + condition_text(c) + "\n\n"@ + quote_text(q)
}

/// Writes what an alert condition says (see `condition_text`).
fn condition_description(cond: &AlertCondition) -> (desc: String)
    ensures
        desc@ == condition_text(cond.deep_view()),
{
    let k = cond.kind.as_str();
    let mut desc = String::new();
    if same_text(k, "price_below") {
        desc.append("跌破 ");
        push_threshold_fixed2(&mut desc, cond.value);
        desc.append(" 元");
    } else if same_text(k, "price_above") {
        desc.append("突破 ");
        push_threshold_fixed2(&mut desc, cond.value);
        desc.append(" 元");
    } else if same_text(k, "change_pct_above") {
        desc.append("漲幅超過 ");
        push_threshold_fixed1(&mut desc, cond.value);
        desc.append("%");
    } else if same_text(k, "change_pct_below") {
        desc.append("跌幅超過 ");
        push_threshold_abs_fixed1(&mut desc, cond.value);
        desc.append("%");
    } else if same_text(k, "volume_above") {
        desc.append("成交量超過 ");
        push_threshold_lots(&mut desc, cond.value);
        desc.append(" 張");
    } else {
        desc.append(k);
    }
    desc
}

/// Formats an alert message (see `alert_text`).
pub fn format_alert(quote: &Quote, cond: &AlertCondition) -> (r: String)
    ensures
        r@ == alert_text(quote.deep_view(), cond.deep_view()),
{
    let code = code_from_symbol(quote.symbol.as_str());
    let desc = condition_description(cond);
    let mut r = lit("🚨 *");
    r.append(code);
    r.append(" 警示*：");
    r.append(desc.as_str());
    r.append("\n\n");
    let qt = format_quote(quote);
    r.append(qt.as_str());
    r
}


// ---------------------------------------------------------------------
// Laws of the summary

/// The summary has one message per quote, in the order of the quotes, each
/// the message of its own quote; one quote's summary is its message, and
/// one more quote adds its message after a blank line.
pub proof fn law_summary_messages(qs: Seq<QuoteView>, q: QuoteView)
    ensures
        quote_texts(qs).len() == qs.len(),
        forall|i: int| 0 <= i < qs.len() ==> #[trigger] quote_texts(qs)[i] == quote_text(qs[i]),
        summary_text(seq![q]) == quote_text(q),
        qs.len() > 0 ==> summary_text(qs.push(q)) == summary_text(qs) + "\n\n"@ + quote_text(q),
{
    let one = seq![q];
    assert(quote_texts(one).len() == 1);
    assert(quote_texts(one)[0] == quote_text(q));
    if qs.len() > 0 {
        let p = qs.push(q);
        assert(quote_texts(p).drop_last() =~= quote_texts(qs));
        assert(quote_texts(p).last() == quote_text(q));
        assert(quote_texts(p).len() == qs.len() + 1);
    }
}


// ---------------------------------------------------------------------
// Laws of the quote message

/// A quote's message shows, in order: the code (and the name where it is
/// another text), the price, an arrow up for a percentage of zero or more
/// and down otherwise, the change and the percentage (with `+` where the
/// change is zero or more), the open, the high and the low, and the volume
/// in lots.
pub proof fn law_quote_message(q: QuoteView)
    ensures
        ({
            let code = code_of(q.symbol);
            let title = if q.name.len() > 0 && q.name != code { code + " "@ + q.name } else { code };
            let arrow = if q.change_pct < 0 { "▼"@ } else { "▲"@ };
            let sign = if q.change < 0 { ""@ } else { "+"@ };
            quote_text(q) == "📊 *"@ + title + "*\n現價：`"@ + fixed2_text(q.price as int) + "` "@ + arrow + " "@
                + sign + fixed2_text(q.change as int) + " ("@ + sign + fixed2_text(q.change_pct as int)
                + "%)\n開/高/低："@ + fixed2_text(q.open as int) + " / "@ + fixed2_text(q.high as int) + " / "@
                + fixed2_text(q.low as int) + "\n成交量："@ + number_text(q.volume as int) + " 張"@
        }),
{
}

/// An alert message names the stock's code and says what was crossed, by
/// kind, for an amount `v`: prices to two places in 元, percentages to one
/// place (the falling one by its magnitude), volumes in whole lots; then
/// the quote's message follows after a blank line.
pub proof fn law_alert_message(q: QuoteView, kind: Seq<char>, v: i64)
    ensures
        ({
            let c = AlertConditionView { kind, value: Threshold::Amount(v) };
            &&& alert_text(q, c) == "🚨 *"@ + code_of(q.symbol) + " 警示*："@ + condition_text(c) + "\n\n"@ + quote_text(q)
            &&& kind == "price_below"@ ==> condition_text(c) == "跌破 "@ + fixed2_text(v as int) + " 元"@
            &&& kind == "price_above"@ ==> condition_text(c) == "突破 "@ + fixed2_text(v as int) + " 元"@
            &&& kind == "change_pct_above"@ ==> condition_text(c) == "漲幅超過 "@ + fixed1_text(v as int) + "%"@
            &&& kind == "change_pct_below"@ ==> condition_text(c) == "跌幅超過 "@ + fixed1_text(abs(v as int)) + "%"@
            &&& kind == "volume_above"@ ==> condition_text(c) == "成交量超過 "@
                + number_text(if v < 0 { -(float_whole(abs(v as int) as nat) as int) } else { float_whole(v as nat) as int })
                + " 張"@
        }),
{
    crate::alerts::lemma_kinds_distinct();
}


/// Grouping digits adds a comma before every third digit from the right
/// and changes nothing else: `n` digits take `(n - 1) / 3` commas, the
/// text without its commas is the digits again, and the last group has
/// three digits wherever there is a comma.
pub proof fn law_grouped(s: Seq<char>)
    requires
        s.len() > 0,
        forall|k: int| 0 <= k < s.len() ==> #[trigger] s[k] != ',',
    ensures
        grouped(s).len() == s.len() + (s.len() - 1) / 3,
        grouped(s).filter(|c: char| c != ',') == s,
        s.len() > 3 ==> grouped(s).skip(grouped(s).len() - 4) == seq![','] + s.skip(s.len() - 3),
        s.len() <= 3 ==> grouped(s) == s,
    decreases s.len(),
{
    let pred = |c: char| c != ',';
    if s.len() <= 3 {
        reveal(Seq::filter);
        lemma_filter_keeps(s, pred);
    } else {
        let h = s.take(s.len() - 3);
        let t = s.skip(s.len() - 3);
        assert forall|k: int| 0 <= k < h.len() implies #[trigger] h[k] != ',' by {
            assert(h[k] == s[k]);
        }
        law_grouped(h);
        lemma_filter_keeps(t, pred);
        let g = grouped(s);
        assert(g == grouped(h) + seq![','] + t);
        Seq::filter_distributes_over_add(grouped(h) + seq![','], t, pred);
        Seq::filter_distributes_over_add(grouped(h), seq![','], pred);
        reveal(Seq::filter);
        let comma = seq![','];
        assert(comma.drop_last() =~= Seq::<char>::empty());
        assert(Seq::<char>::empty().filter(pred) == Seq::<char>::empty());
        assert(!pred(comma.last()));
        assert(comma.filter(pred) == comma.drop_last().filter(pred));
        assert(comma.filter(pred) =~= Seq::<char>::empty());
        assert(h + t =~= s);
        assert(g.skip(g.len() - 4) =~= seq![','] + t);
    }
}

proof fn lemma_filter_keeps(x: Seq<char>, pred: spec_fn(char) -> bool)
    requires
        forall|k: int| 0 <= k < x.len() ==> pred(#[trigger] x[k]),
    ensures
        x.filter(pred) == x,
    decreases x.len(),
{
    reveal(Seq::filter);
    if x.len() > 0 {
        let t = x.drop_last();
        assert forall|k: int| 0 <= k < t.len() implies pred(#[trigger] t[k]) by {
            assert(t[k] == x[k]);
        }
        lemma_filter_keeps(t, pred);
        assert(pred(x[x.len() - 1]));
        assert(t.push(x.last()) =~= x);
    }
}

/// A number's text: a minus sign for a negative number, then its digits
/// grouped by thousands; without the sign and the commas it is the digits
/// of the magnitude.
pub proof fn law_number_text(n: int)
    ensures
        number_text(n) == (if n < 0 { seq!['-'] } else { Seq::<char>::empty() }) + grouped(digits_of(abs(n) as nat)),
        grouped(digits_of(abs(n) as nat)).filter(|c: char| c != ',') == digits_of(abs(n) as nat),
{
    let d = digits_of(abs(n) as nat);
    crate::numtext::lemma_digits_of(abs(n) as nat);
    assert forall|k: int| 0 <= k < d.len() implies #[trigger] d[k] != ',' by {
        assert(crate::numtext::is_digit(d[k]));
    }
    law_grouped(d);
}

} // verus!
