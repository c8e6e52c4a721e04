//! The bot's command decisions. Each command's chat replies and changes
//! are computed here from plain values; fetching, file access and sending
//! messages happen outside the library, which hands in what they gave.

use vstd::prelude::*;
use crate::alerts::{AlertEngine, check_run};
use crate::config::{Config, with_entry, without_entry};
use crate::fetcher::{Quote, QuoteView};
use crate::formatter::{format_alert, format_quote, format_summary, alert_text, quote_text, summary_text};
use crate::numtext::{
    digits_of, push_digits, signed_int_value, in_range, parse_i64, threshold_value, parse_threshold,
    threshold_plain_text, push_threshold_plain,
};
use crate::searcher::{Stock, StockView, code_of, code_from_symbol, resolve_symbol, resolved_symbol, get_stock_name, name_of, search_stocks, search_result};
use crate::text::{lit, same_text, trim, trimmed, joined, join_texts, words, split_whitespace};
use crate::user_store::{UserData, AlertCondition, AlertConditionView};

verus! {

/// A command sent to the bot, with its argument text.
pub enum BotCommand {
    Start,
    Help,
    Search(String),
    Price(String),
    List,
    Add(String),
    Remove(String),
    Alert(String),
    Summary,
    Analyze(String),
    Interval(String),
    Status,
    Allow(String),
    Deny(String),
    Revoke(String),
    Users,
}

/// Every command but `/start` and `/help` is for allowed users only.
pub open spec fn command_needs_auth(cmd: BotCommand) -> bool {
    !(cmd is Start || cmd is Help)
}

pub fn needs_auth(cmd: &BotCommand) -> (r: bool)
    ensures
        r == command_needs_auth(*cmd),
{
    match cmd {
        BotCommand::Start | BotCommand::Help => false,
        _ => true,
    }
}

/// Whether the command may run for `chat_id`: it needs no authorization,
/// or the chat is an allowed user.
pub fn may_run(config: &Config, chat_id: &str, cmd: &BotCommand) -> (r: bool)
    ensures
        r == (!command_needs_auth(*cmd) || config.allowed_users.deep_view().contains(chat_id@)),
{
    !needs_auth(cmd) || config.is_allowed(chat_id)
}

/// The reply to a command from a chat that may not run it.
pub fn unauthorized_text() -> (r: String)
    ensures
        r@ == "⛔ 您尚未獲得授權，請傳送 /start 申請使用權限。"@,
{
    lit("⛔ 您尚未獲得授權，請傳送 /start 申請使用權限。")
}

/// The chat id of a text, as `text.parse::<i64>().unwrap_or_default()` reads it.
pub open spec fn chat_id_value(s: Seq<char>) -> int {
    match in_range(signed_int_value(s), i64::MIN as int, i64::MAX as int) {
        Some(v) => v,
        None => 0,
    }
}

pub fn chat_id_of(s: &str) -> (r: i64)
    ensures
        r == chat_id_value(s@),
{
    match parse_i64(s) {
        Some(v) => v,
        None => 0,
    }
}

/// Whether a text is blank (empty once trimmed).
pub fn is_blank(s: &str) -> (r: bool)
    ensures
        r == (trimmed(s@).len() == 0),
{
    trim(s).unicode_len() == 0
}

// ---------------------------------------------------------------------
// /start

/// What `/start` answers: allowed users are told so; others are told that
/// their request went to the administrators, who are each sent the notice.
pub fn start_reply(config: &Config, chat_id: &str) -> (r: (String, bool))
    ensures
        r.1 == !config.allowed_users.deep_view().contains(chat_id@),
        r.1 ==> r.0@ == "📋 申請已送出，等待管理員審核。"@,
        !r.1 ==> r.0@ == "✅ 您已獲得授權，輸入 /help 查看指令。"@,
{
    if config.is_allowed(chat_id) {
        (lit("✅ 您已獲得授權，輸入 /help 查看指令。"), false)
    } else {
        (lit("📋 申請已送出，等待管理員審核。"), true)
    }
}

/// The notice sent to the administrators about a new user: the user's full
/// name (else the chat id), the `@` user name (or a note that there is
/// none), and the `/allow` and `/deny` commands for the chat.
pub open spec fn applicant_notice_text(chat_id: Seq<char>, full_name: Option<Seq<char>>, username: Option<Seq<char>>) -> Seq<char> {
    let name = match full_name { Some(n) => n, None => chat_id };
    let uname = match username { Some(u) => "@"@ + u, None => "（無用戶名）"@ };
    "📩 新用戶申請\n姓名："@ + name + " "@ + uname + "\nchat\\_id：`"@ + chat_id + "`\n\n/allow "@ + chat_id
        + " — 核准\n/deny "@ + chat_id + " — 拒絕"@
}

pub fn applicant_notice(chat_id: &str, full_name: Option<String>, username: Option<String>) -> (r: String)
    ensures
        r@ == applicant_notice_text(chat_id@, full_name.deep_view(), username.deep_view()),
{
    let name = match full_name {
        Some(n) => n,
        None => lit(chat_id),
    };
    let uname = match username {
        Some(u) => {
            let mut s = lit("@");
            s.append(u.as_str());
            s
        },
        None => lit("（無用戶名）"),
    };
    let mut r = lit("📩 新用戶申請\n姓名：");
    r.append(name.as_str());
    r.append(" ");
    r.append(uname.as_str());
    r.append("\nchat\\_id：`");
    r.append(chat_id);
    r.append("`\n\n/allow ");
    r.append(chat_id);
    r.append(" — 核准\n/deny ");
    r.append(chat_id);
    r.append(" — 拒絕");
    r
}

// ---------------------------------------------------------------------
// /help

pub open spec fn user_help_text() -> Seq<char> {
    "📖 *指令說明*\n\n/search 台積電 — 搜尋股票代號或名稱\n/price 2330 — 查詢即時行情\n/summary — 推送所有追蹤股票摘要\n/list — 查看追蹤清單與警示條件\n/add 2330 — 新增追蹤股票\n/remove 2330 — 移除追蹤股票\n/alert 2330 price\\_below 900.0 — 設定警示\n　條件：price\\_below, price\\_above\n　　　　change\\_pct\\_above, change\\_pct\\_below\n　　　　volume\\_above\n/analyze [股票代號] — AI 分析\n/interval on|off — 開關定時推播\n/status — 查看運作狀態\n/help — 顯示此說明"@
}

pub open spec fn admin_help_text() -> Seq<char> {
    "\n\n👑 *管理員指令*\n/allow {chat\\_id} — 核准用戶申請\n/deny {chat\\_id} — 拒絕用戶申請\n/revoke {chat\\_id} — 撤銷授權\n/users — 列出所有授權用戶"@
}

/// The command list (Markdown), with the administrators' commands for an administrator.
pub fn help_text(config: &Config, chat_id: &str) -> (r: String)
    ensures
        r@ == if config.admin_ids.deep_view().contains(chat_id@) {
            user_help_text() + admin_help_text()
        } else {
            user_help_text()
        },
{
    let mut text = lit("📖 *指令說明*\n\n/search 台積電 — 搜尋股票代號或名稱\n/price 2330 — 查詢即時行情\n/summary — 推送所有追蹤股票摘要\n/list — 查看追蹤清單與警示條件\n/add 2330 — 新增追蹤股票\n/remove 2330 — 移除追蹤股票\n/alert 2330 price\\_below 900.0 — 設定警示\n　條件：price\\_below, price\\_above\n　　　　change\\_pct\\_above, change\\_pct\\_below\n　　　　volume\\_above\n/analyze [股票代號] — AI 分析\n/interval on|off — 開關定時推播\n/status — 查看運作狀態\n/help — 顯示此說明");
    if config.is_admin(chat_id) {
        text.append("\n\n👑 *管理員指令*\n/allow {chat\\_id} — 核准用戶申請\n/deny {chat\\_id} — 拒絕用戶申請\n/revoke {chat\\_id} — 撤銷授權\n/users — 列出所有授權用戶");
    }
    text
}

// ---------------------------------------------------------------------
// /search

/// One line of the search result: `• {code} {name}（{market}）`.
pub open spec fn search_line(s: StockView) -> Seq<char> {
    "• "@ + s.code + " "@ + s.name + "（"@ + match s.market {
        crate::searcher::Market::Listed => "Listed"@,
        crate::searcher::Market::Otc => "Otc"@,
    } + "）"@
}

pub open spec fn search_lines(found: Seq<StockView>) -> Seq<Seq<char>> {
    found.map_values(|s: StockView| search_line(s))
}

/// What `/search` answers: its usage for a blank query; a notice where
/// nothing matches; otherwise up to 20 matches, one per line.
pub open spec fn search_reply_text(list: Seq<StockView>, query: Seq<char>) -> Seq<char> {
    if trimmed(query).len() == 0 {
        "用法：/search 台積電 或 /search 2330"@
    } else {
        let found = search_result(list, query, 20);
        if found.len() == 0 {
            "找不到符合「"@ + query + "」的股票"@
        } else {
            "🔍 搜尋結果：\n"@ + joined(search_lines(found), "\n"@)
        }
    }
}

pub fn search_reply(stocks: &Vec<Stock>, query: &str) -> (r: String)
    ensures
        r@ == search_reply_text(stocks.deep_view(), query@),
{
    if is_blank(query) {
        return lit("用法：/search 台積電 或 /search 2330");
    }
    let found = search_stocks(stocks, query, 20);
    if found.len() == 0 {
        let mut r = lit("找不到符合「");
        r.append(query);
        r.append("」的股票");
        return r;
    }
    let mut lines: Vec<String> = Vec::new();
    let mut i: usize = 0;
    while i < found.len()
        invariant
            i <= found.len(),
            lines.deep_view() == search_lines(found.deep_view().take(i as int)),
        decreases found.len() - i,
    {
        let s = &found[i];
        let mut line = lit("• ");
        line.append(s.code.as_str());
        line.append(" ");
        line.append(s.name.as_str());
        line.append("（");
        line.append(s.market.debug_name());
        line.append("）");
        let ghost before = lines.deep_view();
        let ghost lv = line@;
        lines.push(line);
        proof {
            assert(lv =~= search_line(found.deep_view()[i as int]));
            assert(lines.deep_view() =~= before.push(lv));
            assert(found.deep_view().take(i + 1) =~= found.deep_view().take(i as int).push(found.deep_view()[i as int]));
            assert(search_lines(found.deep_view().take(i + 1)) =~= search_lines(found.deep_view().take(i as int)).push(lv));
        }
        i = i + 1;
    }
    assert(found.deep_view().take(i as int) =~= found.deep_view());
    let mut r = lit("🔍 搜尋結果：\n");
    let body = join_texts(&lines, "\n");
    r.append(body.as_str());
    r
}

// ---------------------------------------------------------------------
// Quotes with names from the stock list

/// A quote with its name taken from the stock list, where the list has the
/// quote's code.
pub open spec fn named(list: Seq<StockView>, q: QuoteView) -> QuoteView {
    match name_of(list, code_of(q.symbol)) {
        Some(n) => QuoteView { name: n, ..q },
        None => q,
    }
}

pub fn name_quote(stocks: &Vec<Stock>, quote: Quote) -> (r: Quote)
    ensures
        r.deep_view() == named(stocks.deep_view(), quote.deep_view()),
{
    let mut q = quote;
    let n = get_stock_name(stocks, code_from_symbol(q.symbol.as_str()));
    match n {
        Some(name) => {
            q.name = name;
        },
        None => {},
    }
    q
}

/// The quotes that were fetched, in order, each named from the stock list.
pub open spec fn named_quotes(list: Seq<StockView>, fetched: Seq<Option<QuoteView>>) -> Seq<QuoteView>
    decreases fetched.len(),
{
    if fetched.len() == 0 {
        seq![]
    } else {
        let rest = named_quotes(list, fetched.drop_last());
        match fetched.last() {
            Some(q) => rest.push(named(list, q)),
            None => rest,
        }
    }
}

pub fn collect_named(stocks: &Vec<Stock>, fetched: &Vec<Option<Quote>>) -> (r: Vec<Quote>)
    ensures
        r.deep_view() == named_quotes(stocks.deep_view(), fetched.deep_view()),
{
    let mut r: Vec<Quote> = Vec::new();
    let mut i: usize = 0;
    while i < fetched.len()
        invariant
            i <= fetched.len(),
            r.deep_view() == named_quotes(stocks.deep_view(), fetched.deep_view().take(i as int)),
        decreases fetched.len() - i,
    {
        let ghost all = fetched.deep_view();
        proof {
            assert(all.take(i + 1).drop_last() =~= all.take(i as int));
            assert(all.take(i + 1).last() == all[i as int]);
        }
        match &fetched[i] {
            Some(q) => {
                let nq = name_quote(stocks, q.clone());
                let ghost before = r.deep_view();
                let ghost nv = nq.deep_view();
                r.push(nq);
                assert(r.deep_view() =~= before.push(nv));
            },
            None => {},
        }
        i = i + 1;
    }
    assert(fetched.deep_view().take(i as int) =~= fetched.deep_view());
    r
}

/// A quote with the name the stock list gives `code`, where it has one.
pub open spec fn named_by(list: Seq<StockView>, code: Seq<char>, q: QuoteView) -> QuoteView {
    match name_of(list, code) {
        Some(n) => QuoteView { name: n, ..q },
        None => q,
    }
}

pub fn name_quote_by(stocks: &Vec<Stock>, code: &str, quote: Quote) -> (r: Quote)
    ensures
        r.deep_view() == named_by(stocks.deep_view(), code@, quote.deep_view()),
{
    let mut q = quote;
    match get_stock_name(stocks, code) {
        Some(name) => {
            q.name = name;
        },
        None => {},
    }
    q
}

// ---------------------------------------------------------------------
// Upper and lower case (std's Unicode case mapping)

/// `str::to_uppercase` of a text.
pub uninterp spec fn upper_text(s: Seq<char>) -> Seq<char>;

/// `str::to_lowercase` of a text.
pub uninterp spec fn lower_text(s: Seq<char>) -> Seq<char>;

/// Calls `str::to_uppercase`; the contract claims only that the result is
/// the one std gives for the text (Unicode case mapping).
#[verifier::external_body]
fn to_upper(s: &str) -> (r: String)
    ensures
        r@ == upper_text(s@),
{
    s.to_uppercase()
}

/// Calls `str::to_lowercase`; the contract claims only that the result is
/// the one std gives for the text (Unicode case mapping).
#[verifier::external_body]
fn to_lower(s: &str) -> (r: String)
    ensures
        r@ == lower_text(s@),
{
    s.to_lowercase()
}

// ---------------------------------------------------------------------
// /price

/// What `/price` answers (and whether as Markdown): its usage for a blank
/// code; the quote of the code's symbol, named from the stock list, where
/// it could be fetched; otherwise a notice.
pub open spec fn price_reply_text(list: Seq<StockView>, code: Seq<char>, fetched: Option<QuoteView>) -> (Seq<char>, bool) {
    if trimmed(code).len() == 0 {
        ("用法：/price 2330"@, false)
    } else {
        match fetched {
            Some(q) => (quote_text(named_by(list, code, q)), true),
            None => ("⚠️ 無法取得 "@ + code + " 的資料"@, false),
        }
    }
}

/// Answers `/price`; `fetched` is the quote of `resolve_symbol(stocks, code)`
/// where it could be fetched.
pub fn price_reply(stocks: &Vec<Stock>, code: &str, fetched: Option<Quote>) -> (r: (String, bool))
    ensures
        (r.0@, r.1) == price_reply_text(stocks.deep_view(), code@, fetched.deep_view()),
{
    if is_blank(code) {
        return (lit("用法：/price 2330"), false);
    }
    match fetched {
        Some(q) => {
            let nq = name_quote_by(stocks, code, q);
            (format_quote(&nq), true)
        },
        None => {
            let mut r = lit("⚠️ 無法取得 ");
            r.append(code);
            r.append(" 的資料");
            (r, false)
        },
    }
}

// ---------------------------------------------------------------------
// /list

/// A condition as `/list` shows it: `{kind}={value}`.
pub open spec fn condition_entry(c: AlertConditionView) -> Seq<char> {
    c.kind + "="@ + threshold_plain_text(c.value)
}

pub open spec fn condition_entries(cs: Seq<AlertConditionView>) -> Seq<Seq<char>> {
    cs.map_values(|c: AlertConditionView| condition_entry(c))
}

/// The conditions of a watched symbol, or `無警示` where it has none.
pub open spec fn conditions_text(cs: Seq<AlertConditionView>) -> Seq<char> {
    if cs.len() == 0 { "無警示"@ } else { joined(condition_entries(cs), ", "@) }
}

/// The conditions of a symbol in a user's alerts (none where it has none).
pub open spec fn conditions_of(alerts: Map<Seq<char>, Seq<AlertConditionView>>, symbol: Seq<char>) -> Seq<AlertConditionView> {
    if alerts.contains_key(symbol) { alerts[symbol] } else { seq![] }
}

/// One line of `/list`: `• {code} {name}：{conditions}`.
pub open spec fn list_line(list: Seq<StockView>, alerts: Map<Seq<char>, Seq<AlertConditionView>>, symbol: Seq<char>) -> Seq<char> {
    let code = code_of(symbol);
    let name = match name_of(list, code) { Some(n) => n, None => code };
    "• "@ + code + " "@ + name + "："@ + conditions_text(conditions_of(alerts, symbol))
}

pub open spec fn list_lines(list: Seq<StockView>, alerts: Map<Seq<char>, Seq<AlertConditionView>>, symbols: Seq<Seq<char>>) -> Seq<Seq<char>> {
    symbols.map_values(|s: Seq<char>| list_line(list, alerts, s))
}

/// What `/list` answers: a notice for an empty watch list; otherwise one
/// line per watched symbol.
pub open spec fn list_reply_text(list: Seq<StockView>, user_stocks: Seq<Seq<char>>, alerts: Map<Seq<char>, Seq<AlertConditionView>>) -> Seq<char> {
    if user_stocks.len() == 0 {
        "追蹤清單為空，用 /add 2330 新增"@
    } else {
        "📋 追蹤清單：\n"@ + joined(list_lines(list, alerts, user_stocks), "\n"@)
    }
}

fn conditions_reply(cs: &Vec<AlertCondition>) -> (r: String)
    ensures
        r@ == conditions_text(cs.deep_view()),
{
    if cs.len() == 0 {
        return lit("無警示");
    }
    let mut parts: Vec<String> = Vec::new();
    let mut i: usize = 0;
    while i < cs.len()
        invariant
            i <= cs.len(),
            parts.deep_view() == condition_entries(cs.deep_view().take(i as int)),
        decreases cs.len() - i,
    {
        let mut e = cs[i].kind.clone();
        e.append("=");
        push_threshold_plain(&mut e, cs[i].value);
        let ghost before = parts.deep_view();
        let ghost ev = e@;
        parts.push(e);
        proof {
            assert(ev =~= condition_entry(cs.deep_view()[i as int]));
            assert(parts.deep_view() =~= before.push(ev));
            assert(cs.deep_view().take(i + 1) =~= cs.deep_view().take(i as int).push(cs.deep_view()[i as int]));
            assert(condition_entries(cs.deep_view().take(i + 1)) =~= condition_entries(cs.deep_view().take(i as int)).push(ev));
        }
        i = i + 1;
    }
    assert(cs.deep_view().take(i as int) =~= cs.deep_view());
    join_texts(&parts, ", ")
}

pub fn list_reply(stocks: &Vec<Stock>, user: &UserData) -> (r: String)
    ensures
        r@ == list_reply_text(stocks.deep_view(), user.stocks.deep_view(), user.alert_view()),
{
    if user.stocks.len() == 0 {
        return lit("追蹤清單為空，用 /add 2330 新增");
    }
    let ghost syms = user.stocks.deep_view();
    let mut lines: Vec<String> = Vec::new();
    let mut i: usize = 0;
    while i < user.stocks.len()
        invariant
            i <= user.stocks.len(),
            syms == user.stocks.deep_view(),
            lines.deep_view() == list_lines(stocks.deep_view(), user.alert_view(), syms.take(i as int)),
        decreases user.stocks.len() - i,
    {
        let symbol = user.stocks[i].as_str();
        let code = code_from_symbol(symbol);
        let name = match get_stock_name(stocks, code) {
            Some(n) => n,
            None => lit(code),
        };
        let conds = user.alerts_for(symbol);
        let cond_str = conditions_reply(&conds);
        let mut line = lit("• ");
        line.append(code);
        line.append(" ");
        line.append(name.as_str());
        line.append("：");
        line.append(cond_str.as_str());
        let ghost before = lines.deep_view();
        let ghost lv = line@;
        lines.push(line);
        proof {
            assert(lv =~= list_line(stocks.deep_view(), user.alert_view(), syms[i as int]));
            assert(lines.deep_view() =~= before.push(lv));
            assert(syms.take(i + 1) =~= syms.take(i as int).push(syms[i as int]));
            assert(list_lines(stocks.deep_view(), user.alert_view(), syms.take(i + 1))
                =~= list_lines(stocks.deep_view(), user.alert_view(), syms.take(i as int)).push(lv));
        }
        i = i + 1;
    }
    assert(syms.take(i as int) =~= syms);
    let mut r = lit("📋 追蹤清單：\n");
    let body = join_texts(&lines, "\n");
    r.append(body.as_str());
    r
}

// ---------------------------------------------------------------------
// /add and /remove

/// The name `/add` reports: the stock list's name of the code, else the code.
pub open spec fn display_name(list: Seq<StockView>, code: Seq<char>) -> Seq<char> {
    match name_of(list, code) { Some(n) => n, None => code }
}

/// What `/add` does: for a blank code, answers its usage; otherwise adds
/// the code's symbol to the watch list unless it is there, and says which.
/// The flag says whether the user's data changed and must be saved.
pub fn add_reply(stocks: &Vec<Stock>, user: &mut UserData, code: &str) -> (r: (String, bool))
    ensures
        ({
            let symbol = resolved_symbol(stocks.deep_view(), code@);
            let had = old(user).stocks.deep_view().contains(symbol);
            if trimmed(code@).len() == 0 {
                &&& r.0@ == "用法：/add 2330"@
                &&& !r.1
                &&& final(user).stocks.deep_view() == old(user).stocks.deep_view()
            } else if had {
                &&& r.0@ == code@ + " 已在清單中"@
                &&& !r.1
                &&& final(user).stocks.deep_view() == old(user).stocks.deep_view()
            } else {
                &&& r.0@ == "✅ 已新增 "@ + code@ + " "@ + display_name(stocks.deep_view(), code@) + " 到追蹤清單"@
                &&& r.1
                &&& final(user).stocks.deep_view() == old(user).stocks.deep_view().push(symbol)
            }
        }),
        final(user).alert_view() == old(user).alert_view(),
        final(user).schedule == old(user).schedule,
{
    if is_blank(code) {
        return (lit("用法：/add 2330"), false);
    }
    let symbol = resolve_symbol(stocks, code);
    if user.add_stock(symbol.as_str()) {
        let name = match get_stock_name(stocks, code) {
            Some(n) => n,
            None => lit(code),
        };
        let mut r = lit("✅ 已新增 ");
        r.append(code);
        r.append(" ");
        r.append(name.as_str());
        r.append(" 到追蹤清單");
        (r, true)
    } else {
        let mut r = lit(code);
        r.append(" 已在清單中");
        (r, false)
    }
}

/// What `/remove` does: for a blank code, answers its usage; otherwise
/// removes the code's symbol and its alerts where it is watched, and says
/// which. The flag says whether the user's data changed.
pub fn remove_reply(stocks: &Vec<Stock>, user: &mut UserData, code: &str) -> (r: (String, bool))
    ensures
        ({
            let symbol = resolved_symbol(stocks.deep_view(), code@);
            let had = old(user).stocks.deep_view().contains(symbol);
            if trimmed(code@).len() == 0 || !had {
                &&& r.0@ == if trimmed(code@).len() == 0 { "用法：/remove 2330"@ } else { code@ + " 不在清單中"@ }
                &&& !r.1
                &&& final(user).stocks.deep_view() == old(user).stocks.deep_view()
                &&& final(user).alert_view() == old(user).alert_view()
            } else {
                &&& r.0@ == "✅ 已移除 "@ + code@
                &&& r.1
                &&& final(user).stocks.deep_view() == without_entry(old(user).stocks.deep_view(), symbol)
                &&& final(user).alert_view() == old(user).alert_view().remove(symbol)
            }
        }),
        final(user).schedule == old(user).schedule,
{
    if is_blank(code) {
        return (lit("用法：/remove 2330"), false);
    }
    let symbol = resolve_symbol(stocks, code);
    if user.remove_stock(symbol.as_str()) {
        let mut r = lit("✅ 已移除 ");
        r.append(code);
        (r, true)
    } else {
        let mut r = lit(code);
        r.append(" 不在清單中");
        (r, false)
    }
}

// ---------------------------------------------------------------------
// /alert

/// The usage of `/alert`.
pub open spec fn alert_usage_text() -> Seq<char> {
    "用法：/alert 2330 price_below 900.0\n條件類型：price_below, price_above, change_pct_above, change_pct_below, volume_above"@
}

/// What `/alert` does once the code is upper-cased: reads the threshold;
/// where it reads, appends the condition to the symbol's conditions and
/// confirms it, else reports the bad number. The flag says whether the
/// user's data changed.
pub fn apply_alert(stocks: &Vec<Stock>, user: &mut UserData, code: &str, kind: &str, value_text: &str) -> (r: (String, bool))
    ensures
        ({
            let symbol = resolved_symbol(stocks.deep_view(), code@);
            match threshold_value(value_text@) {
                None => {
                    &&& r.0@ == "⚠️ 數值格式錯誤"@
                    &&& !r.1
                    &&& final(user).alert_view() == old(user).alert_view()
                },
                Some(t) => {
                    let c = AlertConditionView { kind: kind@, value: t };
                    &&& r.0@ == "✅ 已設定 "@ + code@ + " 警示："@ + kind@ + " = "@ + threshold_plain_text(t)
                    &&& r.1
                    &&& final(user).alert_view() == old(user).alert_view().insert(
                        symbol,
                        conditions_of(old(user).alert_view(), symbol).push(c),
                    )
                },
            }
        }),
        final(user).stocks.deep_view() == old(user).stocks.deep_view(),
        final(user).schedule == old(user).schedule,
{
    let value = match parse_threshold(value_text) {
        Some(v) => v,
        None => return (lit("⚠️ 數值格式錯誤"), false),
    };
    let symbol = resolve_symbol(stocks, code);
    user.add_alert(symbol.as_str(), AlertCondition { kind: lit(kind), value });
    proof {
        let sv = symbol@;
        if !old(user).alert_view().contains_key(sv) {
            assert(conditions_of(old(user).alert_view(), sv).push(AlertConditionView { kind: kind@, value }) =~= seq![AlertConditionView { kind: kind@, value }]);
        }
    }
    let mut r = lit("✅ 已設定 ");
    r.append(code);
    r.append(" 警示：");
    r.append(kind);
    r.append(" = ");
    push_threshold_plain(&mut r, value);
    (r, true)
}

/// What `/alert {code} {kind} {value}` does: its usage where fewer than
/// three words are given; otherwise `apply_alert` with the first word
/// upper-cased, the second as the kind and the third as the threshold.
pub fn alert_reply(stocks: &Vec<Stock>, user: &mut UserData, args: &str) -> (r: (String, bool))
    ensures
        words(args@).len() < 3 ==> r.0@ == alert_usage_text() && !r.1 && final(user).alert_view() == old(user).alert_view(),
        words(args@).len() >= 3 ==> ({
            let ws = words(args@);
            let code = upper_text(ws[0]);
            let symbol = resolved_symbol(stocks.deep_view(), code);
            match threshold_value(ws[2]) {
                None => r.0@ == "⚠️ 數值格式錯誤"@ && !r.1 && final(user).alert_view() == old(user).alert_view(),
                Some(t) => {
                    &&& r.0@ == "✅ 已設定 "@ + code + " 警示："@ + ws[1] + " = "@ + threshold_plain_text(t)
                    &&& r.1
                    &&& final(user).alert_view() == old(user).alert_view().insert(
                        symbol,
                        conditions_of(old(user).alert_view(), symbol).push(AlertConditionView { kind: ws[1], value: t }),
                    )
                },
            }
        }),
        final(user).stocks.deep_view() == old(user).stocks.deep_view(),
        final(user).schedule == old(user).schedule,
{
    let parts = split_whitespace(args);
    if parts.len() < 3 {
        return (lit("用法：/alert 2330 price_below 900.0\n條件類型：price_below, price_above, change_pct_above, change_pct_below, volume_above"), false);
    }
    assert(parts.deep_view()[0] == parts[0]@);
    assert(parts.deep_view()[1] == parts[1]@);
    assert(parts.deep_view()[2] == parts[2]@);
    let code = to_upper(parts[0].as_str());
    apply_alert(stocks, user, code.as_str(), parts[1].as_str(), parts[2].as_str())
}

// ---------------------------------------------------------------------
// /summary

/// What a scheduled push sends a user, given the quotes fetched for the
/// watched stocks: nothing where none could be fetched; else the named
/// quotes, for the alert check, and their summary.
pub fn push_content(stocks: &Vec<Stock>, fetched: &Vec<Option<Quote>>) -> (r: Option<(Vec<Quote>, String)>)
    ensures
        r is None <==> named_quotes(stocks.deep_view(), fetched.deep_view()).len() == 0,
        r matches Some((qs, text)) ==> {
            &&& qs.deep_view() == named_quotes(stocks.deep_view(), fetched.deep_view())
            &&& text@ == summary_text(qs.deep_view())
        },
{
    let quotes = collect_named(stocks, fetched);
    if quotes.len() == 0 {
        return None;
    }
    let text = format_summary(&quotes);
    Some((quotes, text))
}

/// What `/summary` answers (as Markdown): the summary of the watched
/// stocks whose quotes could be fetched, named from the stock list.
pub fn summary_reply(stocks: &Vec<Stock>, fetched: &Vec<Option<Quote>>) -> (r: String)
    ensures
        r@ == summary_text(named_quotes(stocks.deep_view(), fetched.deep_view())),
{
    let quotes = collect_named(stocks, fetched);
    format_summary(&quotes)
}

// ---------------------------------------------------------------------
// /analyze

/// Whether the AI key is set: neither empty nor the placeholder.
pub fn api_key_ready(config: &Config) -> (r: bool)
    ensures
        r == (config.gemini_api_key@.len() > 0 && config.gemini_api_key@ != "YOUR_GEMINI_API_KEY"@),
{
    config.gemini_api_key.unicode_len() > 0 && !same_text(config.gemini_api_key.as_str(), "YOUR_GEMINI_API_KEY")
}

/// The reply where the AI key is not set.
pub fn api_key_missing_text() -> (r: String)
    ensures
        r@ == "⚠️ 請先在 config.json 設定 gemini_api_key"@,
{
    lit("⚠️ 請先在 config.json 設定 gemini_api_key")
}

/// The symbols `/analyze` works on, given the argument already trimmed and
/// upper-cased: the watch list for an empty argument, else the argument's
/// symbol.
pub fn analyze_targets_for(stocks: &Vec<Stock>, user: &UserData, arg_upper: &str) -> (r: Vec<String>)
    ensures
        r.deep_view() == if arg_upper@.len() == 0 {
            user.stocks.deep_view()
        } else {
            seq![resolved_symbol(stocks.deep_view(), arg_upper@)]
        },
{
    if arg_upper.unicode_len() == 0 {
        let mut r: Vec<String> = Vec::new();
        let mut i: usize = 0;
        while i < user.stocks.len()
            invariant
                i <= user.stocks.len(),
                r.deep_view() == user.stocks.deep_view().take(i as int),
            decreases user.stocks.len() - i,
        {
            let ghost before = r.deep_view();
            let c = user.stocks[i].clone();
            r.push(c);
            assert(r.deep_view() =~= before.push(user.stocks.deep_view()[i as int]));
            assert(r.deep_view() =~= user.stocks.deep_view().take(i + 1));
            i = i + 1;
        }
        assert(user.stocks.deep_view().take(i as int) =~= user.stocks.deep_view());
        r
    } else {
        let mut r: Vec<String> = Vec::new();
        r.push(resolve_symbol(stocks, arg_upper));
        assert(r.deep_view() =~= seq![resolved_symbol(stocks.deep_view(), arg_upper@)]);
        r
    }
}

/// The symbols `/analyze` works on: the watch list for a blank argument,
/// else the symbol of the trimmed, upper-cased argument.
pub fn analyze_targets(stocks: &Vec<Stock>, user: &UserData, arg: &str) -> (r: Vec<String>)
    ensures
        trimmed(arg@).len() == 0 ==> r.deep_view() == user.stocks.deep_view(),
        trimmed(arg@).len() > 0 ==> r.deep_view() == if upper_text(trimmed(arg@)).len() == 0 {
            user.stocks.deep_view()
        } else {
            seq![resolved_symbol(stocks.deep_view(), upper_text(trimmed(arg@)))]
        },
{
    if is_blank(arg) {
        let e = String::new();
        return analyze_targets_for(stocks, user, e.as_str());
    }
    let t = trim(arg);
    let u = to_upper(t.as_str());
    analyze_targets_for(stocks, user, u.as_str())
}

/// The reply where a symbol's quote could not be fetched.
pub fn quote_unavailable_text(symbol: &str) -> (r: String)
    ensures
        r@ == "⚠️ 無法取得 "@ + code_of(symbol@) + " 報價，分析取消"@,
{
    let mut r = lit("⚠️ 無法取得 ");
    r.append(code_from_symbol(symbol));
    r.append(" 報價，分析取消");
    r
}

/// The notice sent while a stock is analysed: its code and name (the code
/// alone where the name is empty).
pub fn analysis_pending_text(quote: &Quote) -> (r: String)
    ensures
        r@ == "⏳ 正在分析 "@ + (if quote.name@.len() > 0 { code_of(quote.symbol@) + " "@ + quote.name@ } else { code_of(quote.symbol@) }) + "，請稍候..."@,
{
    let code = code_from_symbol(quote.symbol.as_str());
    let mut r = lit("⏳ 正在分析 ");
    r.append(code);
    if quote.name.unicode_len() > 0 {
        r.append(" ");
        r.append(quote.name.as_str());
    }
    r.append("，請稍候...");
    r
}

/// The reply where the analysis failed.
pub fn analysis_failed_text(error: &str) -> (r: String)
    ensures
        r@ == "⚠️ AI 分析失敗："@ + error@,
{
    let mut r = lit("⚠️ AI 分析失敗：");
    r.append(error);
    r
}

// ---------------------------------------------------------------------
// /interval and /status

/// What `/interval` does once its argument is trimmed and lower-cased:
/// `on` and `off` turn the periodic push on and off and say so; anything
/// else gets the usage. The flag says whether the user's data changed.
pub fn apply_interval(user: &mut UserData, word: &str) -> (r: (String, bool))
    ensures
        word@ == "on"@ ==> r.0@ == "定時推播已開啟 ✅"@ && r.1 && final(user).schedule.interval_enabled,
        word@ == "off"@ ==> r.0@ == "定時推播已關閉 ❌"@ && r.1 && !final(user).schedule.interval_enabled,
        word@ != "on"@ && word@ != "off"@ ==> r.0@ == "用法：/interval on 或 /interval off"@ && !r.1
            && final(user).schedule == old(user).schedule,
        final(user).stocks.deep_view() == old(user).stocks.deep_view(),
        final(user).alerts.deep_view() == old(user).alerts.deep_view(),
{
    proof {
        reveal_strlit("on");
        reveal_strlit("off");
        assert("on"@.len() != "off"@.len());
    }
    if same_text(word, "on") {
        user.set_interval_enabled(true);
        (lit("定時推播已開啟 ✅"), true)
    } else if same_text(word, "off") {
        user.set_interval_enabled(false);
        (lit("定時推播已關閉 ❌"), true)
    } else {
        (lit("用法：/interval on 或 /interval off"), false)
    }
}

/// What `/interval` does: `apply_interval` with the trimmed, lower-cased argument.
pub fn interval_reply(user: &mut UserData, arg: &str) -> (r: (String, bool))
    ensures
        lower_text(trimmed(arg@)) == "on"@ ==> r.0@ == "定時推播已開啟 ✅"@ && r.1 && final(user).schedule.interval_enabled,
        lower_text(trimmed(arg@)) == "off"@ ==> r.0@ == "定時推播已關閉 ❌"@ && r.1 && !final(user).schedule.interval_enabled,
        lower_text(trimmed(arg@)) != "on"@ && lower_text(trimmed(arg@)) != "off"@ ==> r.0@ == "用法：/interval on 或 /interval off"@
            && !r.1 && final(user).schedule == old(user).schedule,
        final(user).stocks.deep_view() == old(user).stocks.deep_view(),
        final(user).alerts.deep_view() == old(user).alerts.deep_view(),
{
    let t = trim(arg);
    let w = to_lower(t.as_str());
    apply_interval(user, w.as_str())
}

/// What `/status` answers.
pub open spec fn status_text_of(interval: u32, key_times: Seq<Seq<char>>, count: nat, enabled: bool) -> Seq<char> {
    "🤖 Bot 運作中\n追蹤股票："@ + digits_of(count) + " 檔\n定時推播：每 "@ + digits_of(interval as nat) + " 分鐘 "@
        + (if enabled { "✅"@ } else { "❌"@ }) + "\n關鍵時間："@ + joined(key_times, ", "@)
}

pub fn status_reply(config: &Config, user: &UserData) -> (r: String)
    ensures
        r@ == status_text_of(config.schedule.interval_minutes, config.schedule.key_times.deep_view(), user.stocks@.len(), user.schedule.interval_enabled),
{
    let mut r = lit("🤖 Bot 運作中\n追蹤股票：");
    push_digits(&mut r, user.stocks.len() as u64);
    r.append(" 檔\n定時推播：每 ");
    push_digits(&mut r, config.schedule.interval_minutes as u64);
    r.append(" 分鐘 ");
    r.append(if user.schedule.interval_enabled { "✅" } else { "❌" });
    r.append("\n關鍵時間：");
    let kt = join_texts(&config.schedule.key_times, ", ");
    r.append(kt.as_str());
    r
}

// ---------------------------------------------------------------------
// Administrators' commands

/// What an administrator's command answers: the reply, whether the
/// settings changed and must be saved, and a message for another chat
/// (its id and text), if any.
pub struct AdminReply {
    pub text: String,
    pub save: bool,
    pub notify: Option<(i64, String)>,
}

pub open spec fn not_admin_text() -> Seq<char> {
    "⛔ 此指令僅限管理員使用。"@
}

/// `/allow {chat_id}`: for an administrator, adds the trimmed id to the
/// allowed users and tells that chat, unless the id is allowed already.
pub fn allow_reply(config: &mut Config, chat_id: &str, target_id: &str) -> (r: AdminReply)
    ensures
        ({
            let target = trimmed(target_id@);
            if !old(config).admin_ids.deep_view().contains(chat_id@) {
                &&& r.text@ == not_admin_text()
                &&& !r.save && r.notify is None
                &&& final(config).allowed_users.deep_view() == old(config).allowed_users.deep_view()
            } else if old(config).allowed_users.deep_view().contains(target) {
                &&& r.text@ == "⚠️ "@ + target + " 已在授權清單中"@
                &&& !r.save && r.notify is None
                &&& final(config).allowed_users.deep_view() == old(config).allowed_users.deep_view()
            } else {
                &&& r.text@ == "✅ 已核准 "@ + target
                &&& r.save
                &&& r.notify matches Some((id, msg)) && id == chat_id_value(target)
                    && msg@ == "✅ 您的申請已獲核准，歡迎使用！輸入 /help 查看指令。"@
                &&& final(config).allowed_users.deep_view() == with_entry(old(config).allowed_users.deep_view(), target)
            }
        }),
        final(config).admin_ids == old(config).admin_ids,
        final(config).schedule == old(config).schedule,
        final(config).telegram_token == old(config).telegram_token,
        final(config).gemini_api_key == old(config).gemini_api_key,
        final(config).gemini_model == old(config).gemini_model,
{
    if !config.is_admin(chat_id) {
        return AdminReply { text: lit("⛔ 此指令僅限管理員使用。"), save: false, notify: None };
    }
    let target = trim(target_id);
    if config.is_allowed(target.as_str()) {
        let mut t = lit("⚠️ ");
        t.append(target.as_str());
        t.append(" 已在授權清單中");
        return AdminReply { text: t, save: false, notify: None };
    }
    config.add_user(target.as_str());
    let mut t = lit("✅ 已核准 ");
    t.append(target.as_str());
    let id = chat_id_of(target.as_str());
    AdminReply { text: t, save: true, notify: Some((id, lit("✅ 您的申請已獲核准，歡迎使用！輸入 /help 查看指令。"))) }
}

/// `/deny {chat_id}`: for an administrator, confirms the refusal and tells
/// that chat; anyone else is refused and nobody is told.
pub fn deny_reply(config: &Config, chat_id: &str, target_id: &str) -> (r: AdminReply)
    ensures
        !r.save,
        !config.admin_ids.deep_view().contains(chat_id@) ==> {
            &&& r.text@ == not_admin_text()
            &&& r.notify is None
        },
        config.admin_ids.deep_view().contains(chat_id@) ==> {
            &&& r.text@ == "✅ 已拒絕 "@ + trimmed(target_id@) + " 的申請"@
            &&& r.notify matches Some((id, msg)) && id == chat_id_value(trimmed(target_id@))
                && msg@ == "❌ 您的申請未獲核准。"@
        },
{
    if !config.is_admin(chat_id) {
        return AdminReply { text: lit("⛔ 此指令僅限管理員使用。"), save: false, notify: None };
    }
    let target = trim(target_id);
    let mut t = lit("✅ 已拒絕 ");
    t.append(target.as_str());
    t.append(" 的申請");
    let id = chat_id_of(target.as_str());
    AdminReply { text: t, save: false, notify: Some((id, lit("❌ 您的申請未獲核准。"))) }
}

/// `/revoke {chat_id}`: for an administrator, removes the trimmed id from
/// the allowed users, where it is there.
pub fn revoke_reply(config: &mut Config, chat_id: &str, target_id: &str) -> (r: AdminReply)
    ensures
        ({
            let target = trimmed(target_id@);
            if !old(config).admin_ids.deep_view().contains(chat_id@) {
                &&& r.text@ == not_admin_text()
                &&& !r.save
                &&& final(config).allowed_users.deep_view() == old(config).allowed_users.deep_view()
            } else if !old(config).allowed_users.deep_view().contains(target) {
                &&& r.text@ == "⚠️ "@ + target + " 不在授權清單中"@
                &&& !r.save
                &&& final(config).allowed_users.deep_view() == old(config).allowed_users.deep_view()
            } else {
                &&& r.text@ == "✅ 已撤銷 "@ + target + " 的授權"@
                &&& r.save
                &&& final(config).allowed_users.deep_view() == without_entry(old(config).allowed_users.deep_view(), target)
            }
        }),
        r.notify is None,
        final(config).admin_ids == old(config).admin_ids,
        final(config).schedule == old(config).schedule,
        final(config).telegram_token == old(config).telegram_token,
        final(config).gemini_api_key == old(config).gemini_api_key,
        final(config).gemini_model == old(config).gemini_model,
{
    if !config.is_admin(chat_id) {
        return AdminReply { text: lit("⛔ 此指令僅限管理員使用。"), save: false, notify: None };
    }
    let target = trim(target_id);
    if !config.is_allowed(target.as_str()) {
        let mut t = lit("⚠️ ");
        t.append(target.as_str());
        t.append(" 不在授權清單中");
        return AdminReply { text: t, save: false, notify: None };
    }
    config.remove_user(target.as_str());
    let mut t = lit("✅ 已撤銷 ");
    t.append(target.as_str());
    t.append(" 的授權");
    AdminReply { text: t, save: true, notify: None }
}

/// The `i`-th of the counts, zero past their end.
pub open spec fn count_at(counts: Seq<usize>, i: int) -> nat {
    if 0 <= i < counts.len() { counts[i] as nat } else { 0 }
}

/// One line of `/users`: the id, a crown for an administrator, and the
/// number of watched stocks.
pub open spec fn user_line(admins: Seq<Seq<char>>, uid: Seq<char>, count: nat) -> Seq<char> {
    "• "@ + uid + (if admins.contains(uid) { " 👑"@ } else { Seq::<char>::empty() }) + "："@ + digits_of(count) + " 檔股票"@
}

pub open spec fn user_lines(admins: Seq<Seq<char>>, uids: Seq<Seq<char>>, counts: Seq<usize>) -> Seq<Seq<char>> {
    Seq::new(uids.len(), |i: int| user_line(admins, uids[i], count_at(counts, i)))
}

/// `/users`: for an administrator, each allowed user with the number of
/// stocks it watches (`counts[i]` for the `i`-th allowed user).
pub open spec fn users_reply_text(admins: Seq<Seq<char>>, allowed: Seq<Seq<char>>, chat_id: Seq<char>, counts: Seq<usize>) -> Seq<char> {
    if !admins.contains(chat_id) {
        not_admin_text()
    } else if allowed.len() == 0 {
        "目前無授權用戶"@
    } else {
        "👥 授權用戶清單：\n"@ + joined(user_lines(admins, allowed, counts), "\n"@)
    }
}

pub fn users_reply(config: &Config, chat_id: &str, counts: &Vec<usize>) -> (r: String)
    ensures
        r@ == users_reply_text(config.admin_ids.deep_view(), config.allowed_users.deep_view(), chat_id@, counts@),
{
    if !config.is_admin(chat_id) {
        return lit("⛔ 此指令僅限管理員使用。");
    }
    if config.allowed_users.len() == 0 {
        return lit("目前無授權用戶");
    }
    let ghost admins = config.admin_ids.deep_view();
    let ghost uids = config.allowed_users.deep_view();
    let mut lines: Vec<String> = Vec::new();
    let mut i: usize = 0;
    while i < config.allowed_users.len()
        invariant
            i <= config.allowed_users.len(),
            admins == config.admin_ids.deep_view(),
            uids == config.allowed_users.deep_view(),
            lines.deep_view() == user_lines(admins, uids, counts@).take(i as int),
        decreases config.allowed_users.len() - i,
    {
        let uid = config.allowed_users[i].as_str();
        let count: usize = if i < counts.len() { counts[i] } else { 0 };
        assert(uids[i as int] == uid@);
        assert(count as nat == count_at(counts@, i as int));
        let mut line = lit("• ");
        line.append(uid);
        if config.is_admin(uid) {
            line.append(" 👑");
        }
        line.append("：");
        push_digits(&mut line, count as u64);
        line.append(" 檔股票");
        let ghost before = lines.deep_view();
        let ghost lv = line@;
        lines.push(line);
        proof {
            assert(lv =~= user_line(admins, uids[i as int], count_at(counts@, i as int)));
            assert(lines.deep_view() =~= before.push(lv));
            assert(user_lines(admins, uids, counts@).take(i + 1) =~= user_lines(admins, uids, counts@).take(i as int).push(lv));
        }
        i = i + 1;
    }
    assert(user_lines(admins, uids, counts@).take(i as int) =~= user_lines(admins, uids, counts@));
    let mut r = lit("👥 授權用戶清單：\n");
    let body = join_texts(&lines, "\n");
    r.append(body.as_str());
    r
}

// ---------------------------------------------------------------------
// Scheduled pushes

/// Whether a user gets the scheduled summary: not when the push is an
/// interval push and the user turned those off, and not with an empty
/// watch list.
pub fn wants_push(user: &UserData, check_interval: bool) -> (r: bool)
    ensures
        r == (!(check_interval && !user.schedule.interval_enabled) && user.stocks@.len() > 0),
{
    !(check_interval && !user.schedule.interval_enabled) && user.stocks.len() > 0
}

pub open spec fn alert_texts(q: QuoteView, fired: Seq<AlertConditionView>) -> Seq<Seq<char>> {
    fired.map_values(|c: AlertConditionView| alert_text(q, c))
}

/// The alert messages of a push at `now`: the quotes checked in order
/// against the user's conditions on their symbols, each check seeing the
/// records left by the ones before; one message per condition that fires.
/// The result is the records after all checks and the messages.
pub open spec fn alert_round(
    rec: Map<Seq<char>, u64>,
    alerts: Map<Seq<char>, Seq<AlertConditionView>>,
    qs: Seq<QuoteView>,
    now: u64,
) -> (Map<Seq<char>, u64>, Seq<Seq<char>>)
    decreases qs.len(),
{
    if qs.len() == 0 {
        (rec, seq![])
    } else {
        let (r1, msgs) = alert_round(rec, alerts, qs.drop_last(), now);
        let q = qs.last();
        let (r2, fired) = check_run(r1, q.symbol, q, conditions_of(alerts, q.symbol), now);
        (r2, msgs + alert_texts(q, fired))
    }
}

/// Checks the quotes of a push against the user's conditions at `at`, or
/// at the engine's clock where that is later, and formats the alerts that
/// fire (see `alert_round`); the engine's clock moves to the time used.
pub fn alert_messages_at(engine: &mut AlertEngine, user: &UserData, quotes: &Vec<Quote>, at: u64) -> (r: Vec<String>)
    ensures
        final(engine).clock() == (if at < old(engine).clock() { old(engine).clock() } else { at }),
        (final(engine).records(), r.deep_view())
            == alert_round(old(engine).records(), user.alert_view(), quotes.deep_view(), final(engine).clock()),
{
    let now = engine.advance_to(at);
    let ghost rec0 = engine.records();
    let ghost qs = quotes.deep_view();
    let mut msgs: Vec<String> = Vec::new();
    let mut i: usize = 0;
    while i < quotes.len()
        invariant
            i <= quotes.len(),
            qs == quotes.deep_view(),
            engine.clock() == now,
            (engine.records(), msgs.deep_view()) == alert_round(rec0, user.alert_view(), qs.take(i as int), now),
        decreases quotes.len() - i,
    {
        let quote = &quotes[i];
        proof {
            assert(qs.take(i + 1).drop_last() =~= qs.take(i as int));
            assert(qs.take(i + 1).last() == qs[i as int]);
        }
        let conds = user.alerts_for(quote.symbol.as_str());
        let fired = engine.check_at(quote.symbol.as_str(), quote, &conds, now);
        let ghost m0 = msgs.deep_view();
        let mut j: usize = 0;
        while j < fired.len()
            invariant
                j <= fired.len(),
                msgs.deep_view() == m0 + alert_texts(quote.deep_view(), fired.deep_view().take(j as int)),
            decreases fired.len() - j,
        {
            let m = format_alert(quote, &fired[j]);
            let ghost before = msgs.deep_view();
            let ghost mv = m@;
            msgs.push(m);
            proof {
                assert(msgs.deep_view() =~= before.push(mv));
                assert(fired.deep_view().take(j + 1) =~= fired.deep_view().take(j as int).push(fired.deep_view()[j as int]));
                assert(alert_texts(quote.deep_view(), fired.deep_view().take(j + 1))
                    =~= alert_texts(quote.deep_view(), fired.deep_view().take(j as int)).push(mv));
                assert(msgs.deep_view() =~= m0 + alert_texts(quote.deep_view(), fired.deep_view().take(j + 1)));
            }
            j = j + 1;
        }
        assert(fired.deep_view().take(j as int) =~= fired.deep_view());
        i = i + 1;
    }
    assert(qs.take(i as int) =~= qs);
    msgs
}

/// Checks the quotes of a push against the user's conditions now, on the
/// engine's monotonic clock (see `AlertEngine::tick` and `alert_round`).
pub fn alert_messages(engine: &mut AlertEngine, user: &UserData, quotes: &Vec<Quote>) -> (r: Vec<String>)
    ensures
        final(engine).clock() >= old(engine).clock(),
        (final(engine).records(), r.deep_view())
            == alert_round(old(engine).records(), user.alert_view(), quotes.deep_view(), final(engine).clock()),
{
    let now = engine.tick();
    alert_messages_at(engine, user, quotes, now)
}


// ---------------------------------------------------------------------
// Laws of the commands and pushes

/// `/start` and `/help` may be run by anyone; every other command only by
/// an allowed user.
pub proof fn law_commands_needing_auth(cmd: BotCommand)
    ensures
        !command_needs_auth(BotCommand::Start),
        !command_needs_auth(BotCommand::Help),
        !(cmd is Start) && !(cmd is Help) ==> command_needs_auth(cmd),
{
}

/// The quotes of a push: one per quote that could be fetched, in order,
/// each with every figure of the fetched quote and the name that the stock
/// list gives its code (its own name where the list has none).
pub proof fn law_named_quotes(list: Seq<StockView>, fetched: Seq<Option<QuoteView>>, o: Option<QuoteView>)
    ensures
        named_quotes(list, fetched.push(o)) == match o {
            Some(q) => named_quotes(list, fetched).push(QuoteView {
                name: match name_of(list, code_of(q.symbol)) { Some(n) => n, None => q.name },
                ..q
            }),
            None => named_quotes(list, fetched),
        },
        named_quotes(list, fetched).len() == fetched.filter(|f: Option<QuoteView>| f is Some).len(),
    decreases fetched.len(),
{
    assert(fetched.push(o).drop_last() =~= fetched);
    reveal(Seq::filter);
    if fetched.len() > 0 {
        law_named_quotes(list, fetched.drop_last(), fetched.last());
        assert(fetched.drop_last().push(fetched.last()) =~= fetched);
    }
}

/// The alert messages of one quote: one per condition that fired, in
/// order, each that condition's alert on that quote.
pub proof fn law_alert_texts(q: QuoteView, fired: Seq<AlertConditionView>)
    ensures
        alert_texts(q, fired).len() == fired.len(),
        forall|i: int| 0 <= i < fired.len() ==> #[trigger] alert_texts(q, fired)[i] == alert_text(q, fired[i]),
{
}


/// The lines of the listing replies: one per item, in order, each made
/// from its own item: a search hit, an alert condition, a watched symbol,
/// an allowed user with its count of stocks.
pub proof fn law_reply_lines(
    list: Seq<StockView>,
    found: Seq<StockView>,
    cs: Seq<AlertConditionView>,
    alerts: Map<Seq<char>, Seq<AlertConditionView>>,
    symbols: Seq<Seq<char>>,
    admins: Seq<Seq<char>>,
    uids: Seq<Seq<char>>,
    counts: Seq<usize>,
)
    ensures
        search_lines(found).len() == found.len(),
        forall|i: int| 0 <= i < found.len() ==> #[trigger] search_lines(found)[i] == "• "@ + found[i].code + " "@
            + found[i].name + "（"@ + (if found[i].market == crate::searcher::Market::Otc { "Otc"@ } else { "Listed"@ }) + "）"@,
        condition_entries(cs).len() == cs.len(),
        forall|i: int| 0 <= i < cs.len() ==> #[trigger] condition_entries(cs)[i] == cs[i].kind + "="@
            + threshold_plain_text(cs[i].value),
        list_lines(list, alerts, symbols).len() == symbols.len(),
        forall|i: int| 0 <= i < symbols.len() ==> #[trigger] list_lines(list, alerts, symbols)[i] == "• "@
            + code_of(symbols[i]) + " "@ + (match name_of(list, code_of(symbols[i])) { Some(n) => n, None => code_of(symbols[i]) })
            + "："@ + conditions_text(if alerts.contains_key(symbols[i]) { alerts[symbols[i]] } else { seq![] }),
        user_lines(admins, uids, counts).len() == uids.len(),
        forall|i: int| 0 <= i < uids.len() ==> #[trigger] user_lines(admins, uids, counts)[i] == "• "@ + uids[i]
            + (if admins.contains(uids[i]) { " 👑"@ } else { Seq::<char>::empty() }) + "："@
            + digits_of(if i < counts.len() { counts[i] as nat } else { 0 }) + " 檔股票"@,
{
    assert forall|i: int| 0 <= i < found.len() implies #[trigger] search_lines(found)[i] == "• "@ + found[i].code + " "@
        + found[i].name + "（"@ + (if found[i].market == crate::searcher::Market::Otc { "Otc"@ } else { "Listed"@ }) + "）"@ by {
        match found[i].market {
            crate::searcher::Market::Otc => {},
            crate::searcher::Market::Listed => {},
        }
    }
}

} // verus!
