//! The AI analysis: the prompt built from a quote and its recent history,
//! the choice of service, and what is kept of the service's answer. The
//! HTTP requests themselves are made outside the library.

use vstd::prelude::*;
use crate::fetcher::{Quote, QuoteView, DayBar, DayBarView};
use crate::numtext::{fixed2_text, signed_fixed2_text, int_text, push_fixed2, push_signed_fixed2, push_int};
use crate::searcher::{code_of, code_from_symbol};
use crate::text::{joined, join_texts, lit, same_text};

verus! {

/// The label of the stock in the prompt: code and name, or the code alone
/// where the name is empty or the same as the code.
pub open spec fn stock_label(symbol: Seq<char>, name: Seq<char>) -> Seq<char> {
    let code = code_of(symbol);
    if name.len() > 0 && name != code { code + " "@ + name } else { code }
}

/// The current figures in the prompt.
pub open spec fn instant_text(q: QuoteView) -> Seq<char> {
    "現價："@ + fixed2_text(q.price as int) + " 元，漲跌："@ + signed_fixed2_text(q.change as int) + "（"@
        + signed_fixed2_text(q.change_pct as int) + "%）\n開盤："@ + fixed2_text(q.open as int) + " / 最高："@
        + fixed2_text(q.high as int) + " / 最低："@ + fixed2_text(q.low as int) + "\n成交量："@
        + int_text(q.volume as int) + " 張"@
}

/// One row of the history table.
pub open spec fn bar_row(d: DayBarView) -> Seq<char> {
    d.date + " | "@ + fixed2_text(d.open as int) + " | "@ + fixed2_text(d.high as int) + " | "@
        + fixed2_text(d.low as int) + " | "@ + fixed2_text(d.close as int) + " | "@ + int_text(d.volume as int)
}

pub open spec fn bar_rows(bars: Seq<DayBarView>) -> Seq<Seq<char>> {
    bars.map_values(|d: DayBarView| bar_row(d))
}

/// The history table, or a notice where there is no history.
pub open spec fn history_text(history: Option<Seq<DayBarView>>) -> Seq<char> {
    match history {
        Some(bars) => if bars.len() > 0 {
            "日期       | 開盤  | 最高  | 最低  | 收盤  | 量(張)"@ + "\n"@ + joined(bar_rows(bars), "\n"@)
        } else {
            "日K資料暫時無法取得"@
        },
        None => "日K資料暫時無法取得"@,
    }
}

/// The prompt sent to the AI service.
pub open spec fn prompt_text(symbol: Seq<char>, q: QuoteView, history: Option<Seq<DayBarView>>) -> Seq<char> {
    let label = stock_label(symbol, q.name);
    "你是一位台股技術分析師。請根據以下資料對 "@ + label + " 進行分析，以繁體中文撰寫，風格簡潔專業。請使用「"@
        + label + "」稱呼該股票。結尾請附上免責聲明。\n\n【即時行情】\n"@ + instant_text(q)
        + "\n\n【近期走勢】\n"@ + history_text(history) + "\n\n請自由發揮你的分析。"@
}

fn history_section(history: Option<&Vec<DayBar>>) -> (r: String)
    ensures
        r@ == history_text(match history {
            Some(h) => Some(h.deep_view()),
            None => None,
        }),
{
    match history {
        Some(bars) => {
            if bars.len() == 0 {
                return lit("日K資料暫時無法取得");
            }
            let mut rows: Vec<String> = Vec::new();
            let mut i: usize = 0;
            while i < bars.len()
                invariant
                    i <= bars.len(),
                    rows.deep_view() == bar_rows(bars.deep_view().take(i as int)),
                decreases bars.len() - i,
            {
                let d = &bars[i];
                let mut row = d.date.clone();
                row.append(" | ");
                push_fixed2(&mut row, d.open);
                row.append(" | ");
                push_fixed2(&mut row, d.high);
                row.append(" | ");
                push_fixed2(&mut row, d.low);
                row.append(" | ");
                push_fixed2(&mut row, d.close);
                row.append(" | ");
                push_int(&mut row, d.volume);
                let ghost before = rows.deep_view();
                let ghost rv = row@;
                rows.push(row);
                proof {
                    assert(rv =~= bar_row(bars.deep_view()[i as int]));
                    assert(rows.deep_view() =~= before.push(rv));
                    assert(bars.deep_view().take(i + 1) =~= bars.deep_view().take(i as int).push(bars.deep_view()[i as int]));
                    assert(bar_rows(bars.deep_view().take(i + 1)) =~= bar_rows(bars.deep_view().take(i as int)).push(rv));
                }
                i = i + 1;
            }
            assert(bars.deep_view().take(i as int) =~= bars.deep_view());
            let mut r = lit("日期       | 開盤  | 最高  | 最低  | 收盤  | 量(張)");
            r.append("\n");
            let body = join_texts(&rows, "\n");
            r.append(body.as_str());
            r
        },
        None => lit("日K資料暫時無法取得"),
    }
}

/// Builds the prompt for a stock (see `prompt_text`).
pub fn build_prompt(symbol: &str, quote: &Quote, history: Option<&Vec<DayBar>>) -> (r: String)
    ensures
        r@ == prompt_text(symbol@, quote.deep_view(), match history {
            Some(h) => Some(h.deep_view()),
            None => None,
        }),
{
    let code = code_from_symbol(symbol);
    let mut label = lit(code);
    if quote.name.unicode_len() > 0 && !same_text(quote.name.as_str(), code) {
        label.append(" ");
        label.append(quote.name.as_str());
    }
    let mut instant = lit("現價：");
    push_fixed2(&mut instant, quote.price);
    instant.append(" 元，漲跌：");
    push_signed_fixed2(&mut instant, quote.change);
    instant.append("（");
    push_signed_fixed2(&mut instant, quote.change_pct);
    instant.append("%）\n開盤：");
    push_fixed2(&mut instant, quote.open);
    instant.append(" / 最高：");
    push_fixed2(&mut instant, quote.high);
    instant.append(" / 最低：");
    push_fixed2(&mut instant, quote.low);
    instant.append("\n成交量：");
    push_int(&mut instant, quote.volume);
    instant.append(" 張");
    let hist = history_section(history);
    let mut r = lit("你是一位台股技術分析師。請根據以下資料對 ");
    r.append(label.as_str());
    r.append(" 進行分析，以繁體中文撰寫，風格簡潔專業。請使用「");
    r.append(label.as_str());
    r.append("」稱呼該股票。結尾請附上免責聲明。\n\n【即時行情】\n");
    r.append(instant.as_str());
    r.append("\n\n【近期走勢】\n");
    r.append(hist.as_str());
    r.append("\n\n請自由發揮你的分析。");
    r
}

/// The AI services the analysis can use.
#[derive(Debug, Clone, Copy, PartialEq, Eq, Structural)]
pub enum AiProvider {
    Gemini,
    Groq,
}

/// The error for a provider name that is neither `"gemini"` nor `"groq"`.
pub open spec fn unknown_provider_text(name: Seq<char>) -> Seq<char> {
    "未知的 ai_provider："@ + name + "，請設定為 \"gemini\" 或 \"groq\""@
}

/// The service named `provider` (`"gemini"` or `"groq"`), or the error
/// reported for any other name.
pub fn choose_provider(provider: &str) -> (r: Result<AiProvider, String>)
    ensures
        provider@ == "gemini"@ ==> r == Ok::<AiProvider, String>(AiProvider::Gemini),
        provider@ != "gemini"@ && provider@ == "groq"@ ==> r == Ok::<AiProvider, String>(AiProvider::Groq),
        provider@ != "gemini"@ && provider@ != "groq"@ ==> (r matches Err(e) && e@ == unknown_provider_text(provider@)),
{
    if same_text(provider, "gemini") {
        Ok(AiProvider::Gemini)
    } else if same_text(provider, "groq") {
        Ok(AiProvider::Groq)
    } else {
        let mut e = lit("未知的 ai_provider：");
        e.append(provider);
        e.append("，請設定為 \"gemini\" 或 \"groq\"");
        Err(e)
    }
}

/// The Gemini `generateContent` URL of a model, with the key.
pub open spec fn gemini_url_text(model: Seq<char>, api_key: Seq<char>) -> Seq<char> {
    "https://generativelanguage.googleapis.com/v1beta/models"@ + "/"@ + model + ":generateContent?key="@ + api_key
}

pub fn gemini_url(model: &str, api_key: &str) -> (r: String)
    ensures
        r@ == gemini_url_text(model@, api_key@),
{
    let mut r = lit("https://generativelanguage.googleapis.com/v1beta/models");
    r.append("/");
    r.append(model);
    r.append(":generateContent?key=");
    r.append(api_key);
    r
}

/// Groq's OpenAI-compatible chat completions endpoint.
pub fn groq_url() -> (r: String)
    ensures
        r@ == "https://api.groq.com/openai/v1/chat/completions"@,
{
    lit("https://api.groq.com/openai/v1/chat/completions")
}

/// The analysis kept from the service's answer: the first text it holds,
/// or a notice where it holds none.
pub fn analysis_text(first: Option<String>) -> (r: String)
    ensures
        r@ == match first {
            Some(t) => t@,
            None => "無法取得分析結果"@,
        },
{
    match first {
        Some(t) => t,
        None => lit("無法取得分析結果"),
    }
}


// ---------------------------------------------------------------------
// Laws of the history table

/// The history table of a single bar is the header and that bar's row:
/// its date, then its open, high, low and close to two places, then its
/// volume; one more bar adds its row on a line of its own, so every bar
/// has its row, in order.
pub proof fn law_history_rows(bars: Seq<DayBarView>, b: DayBarView)
    ensures
        history_text(Some(seq![b])) == "日期       | 開盤  | 最高  | 最低  | 收盤  | 量(張)"@ + "\n"@ + b.date + " | "@
            + fixed2_text(b.open as int) + " | "@ + fixed2_text(b.high as int) + " | "@ + fixed2_text(b.low as int)
            + " | "@ + fixed2_text(b.close as int) + " | "@ + int_text(b.volume as int),
        bars.len() > 0 ==> history_text(Some(bars.push(b))) == history_text(Some(bars)) + "\n"@ + bar_row(b),
        bar_rows(bars).len() == bars.len(),
        forall|i: int| 0 <= i < bars.len() ==> #[trigger] bar_rows(bars)[i] == bar_row(bars[i]),
{
    let one = seq![b];
    assert(bar_rows(one).len() == 1);
    assert(bar_rows(one)[0] == bar_row(b));
    if bars.len() > 0 {
        let p = bars.push(b);
        assert(bar_rows(p).drop_last() =~= bar_rows(bars));
        assert(bar_rows(p).last() == bar_row(b));
        assert(bar_rows(p).len() == bars.len() + 1);
    }
}


/// The prompt's current figures: the price, the change and the percentage
/// (each with its sign), then the open, the high and the low, each to two
/// places, then the volume in lots.
pub proof fn law_prompt_figures(q: QuoteView)
    ensures
        instant_text(q) == "現價："@ + fixed2_text(q.price as int) + " 元，漲跌："@
            + (if q.change < 0 { fixed2_text(q.change as int) } else { seq!['+'] + fixed2_text(q.change as int) }) + "（"@
            + (if q.change_pct < 0 { fixed2_text(q.change_pct as int) } else { seq!['+'] + fixed2_text(q.change_pct as int) })
            + "%）\n開盤："@ + fixed2_text(q.open as int) + " / 最高："@ + fixed2_text(q.high as int) + " / 最低："@
            + fixed2_text(q.low as int) + "\n成交量："@ + int_text(q.volume as int) + " 張"@,
{
    assert(instant_text(q) == "現價："@ + fixed2_text(q.price as int) + " 元，漲跌："@
            + (if q.change < 0 { fixed2_text(q.change as int) } else { seq!['+'] + fixed2_text(q.change as int) }) + "（"@
            + (if q.change_pct < 0 { fixed2_text(q.change_pct as int) } else { seq!['+'] + fixed2_text(q.change_pct as int) })
            + "%）\n開盤："@ + fixed2_text(q.open as int) + " / 最高："@ + fixed2_text(q.high as int) + " / 最低："@
            + fixed2_text(q.low as int) + "\n成交量："@ + int_text(q.volume as int) + " 張"@);
}


/// The prompt names the stock twice by its code (with its name where that
/// is another text), then gives the current figures, then the history
/// table, in that order.
pub proof fn law_prompt_layout(symbol: Seq<char>, q: QuoteView, history: Option<Seq<DayBarView>>)
    ensures
        ({
            let code = code_of(symbol);
            let label = if q.name.len() > 0 && q.name != code { code + " "@ + q.name } else { code };
            prompt_text(symbol, q, history) == "你是一位台股技術分析師。請根據以下資料對 "@ + label
                + " 進行分析，以繁體中文撰寫，風格簡潔專業。請使用「"@ + label
                + "」稱呼該股票。結尾請附上免責聲明。\n\n【即時行情】\n"@ + instant_text(q)
                + "\n\n【近期走勢】\n"@ + history_text(history) + "\n\n請自由發揮你的分析。"@
        }),
        history is None ==> history_text(history) == "日K資料暫時無法取得"@,
        (history matches Some(b) && b.len() == 0) ==> history_text(history) == "日K資料暫時無法取得"@,
{
}

} // verus!
