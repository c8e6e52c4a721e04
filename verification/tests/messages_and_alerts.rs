use stock_analysis::numtext::Threshold;
use stock_analysis::alerts::{AlertEngine, COOLDOWN_MS};
use stock_analysis::analyzer::{analysis_text, build_prompt, choose_provider, gemini_url, groq_url, AiProvider};
use stock_analysis::fetcher::{DayBar, Quote};
use stock_analysis::formatter::{format_alert, format_number, format_quote, format_summary};
use stock_analysis::user_store::AlertCondition;

fn quote() -> Quote {
    Quote {
        symbol: "2330.TW".to_string(),
        name: "台積電".to_string(),
        price: 95000,
        open: 94000,
        high: 95500,
        low: 93850,
        volume: 25000,
        change: 1000,
        change_pct: 106,
    }
}

fn cond(kind: &str, value: i64) -> AlertCondition {
    AlertCondition { kind: kind.to_string(), value: Threshold::Amount(value) }
}

#[test]
fn thousands_separators() {
    assert_eq!(format_number(8189), "8,189");
    assert_eq!(format_number(0), "0");
    assert_eq!(format_number(999), "999");
    assert_eq!(format_number(1234567), "1,234,567");
    assert_eq!(format_number(-1234), "-1,234");
    assert_eq!(format_number(-123), "-123");
    assert_eq!(format_number(i64::MIN), "-9,223,372,036,854,775,808");
}

#[test]
fn quote_message() {
    assert_eq!(
        format_quote(&quote()),
        "📊 *2330 台積電*\n現價：`950.00` ▲ +10.00 (+1.06%)\n開/高/低：940.00 / 955.00 / 938.50\n成交量：25,000 張"
    );
    let mut q = quote();
    q.name = "2330".to_string();
    q.change = -150;
    q.change_pct = -16;
    assert_eq!(
        format_quote(&q),
        "📊 *2330*\n現價：`950.00` ▼ -1.50 (-0.16%)\n開/高/低：940.00 / 955.00 / 938.50\n成交量：25,000 張"
    );
}

#[test]
fn summary_message() {
    assert_eq!(format_summary(&vec![]), "⚠️ 目前無法取得行情資料");
    let two = format_summary(&vec![quote(), quote()]);
    assert_eq!(two, format!("{}\n\n{}", format_quote(&quote()), format_quote(&quote())));
}

#[test]
fn alert_messages_by_kind() {
    let q = quote();
    let body = format_quote(&q);
    assert_eq!(format_alert(&q, &cond("price_below", 90000)), format!("🚨 *2330 警示*：跌破 900.00 元\n\n{body}"));
    assert_eq!(format_alert(&q, &cond("price_above", 100050)), format!("🚨 *2330 警示*：突破 1000.50 元\n\n{body}"));
    assert_eq!(format_alert(&q, &cond("change_pct_above", 250)), format!("🚨 *2330 警示*：漲幅超過 2.5%\n\n{body}"));
    assert_eq!(format_alert(&q, &cond("change_pct_below", -300)), format!("🚨 *2330 警示*：跌幅超過 3.0%\n\n{body}"));
    assert_eq!(format_alert(&q, &cond("volume_above", 1000099)), format!("🚨 *2330 警示*：成交量超過 10,000 張\n\n{body}"));
    assert_eq!(format_alert(&q, &cond("other", 1)), format!("🚨 *2330 警示*：other\n\n{body}"));
}

fn special(kind: &str, value: Threshold) -> AlertCondition {
    AlertCondition { kind: kind.to_string(), value }
}

#[test]
fn percentages_round_as_floats_do() {
    let q = quote();
    let body = format_quote(&q);
    for (v, text) in [(255, "2.5"), (225, "2.2"), (235, "2.4"), (15, "0.1"), (145, "1.4"), (75, "0.8"), (5, "0.1"), (0, "0.0")] {
        assert_eq!(
            format_alert(&q, &cond("change_pct_above", v)),
            format!("🚨 *2330 警示*：漲幅超過 {text}%\n\n{body}")
        );
    }
    assert_eq!(format_alert(&q, &cond("change_pct_above", -4)), format!("🚨 *2330 警示*：漲幅超過 -0.0%\n\n{body}"));
    assert_eq!(format_alert(&q, &cond("change_pct_below", -255)), format!("🚨 *2330 警示*：跌幅超過 2.5%\n\n{body}"));
    assert_eq!(
        format_alert(&q, &cond("price_below", i64::MAX)),
        format!("🚨 *2330 警示*：跌破 92233720368547760.00 元\n\n{body}")
    );
}

#[test]
fn infinite_and_nan_thresholds() {
    let q = quote();
    let body = format_quote(&q);
    assert!(AlertEngine::is_triggered(&q, &special("price_below", Threshold::PlusInfinity)));
    assert!(!AlertEngine::is_triggered(&q, &special("price_above", Threshold::PlusInfinity)));
    assert!(AlertEngine::is_triggered(&q, &special("price_above", Threshold::MinusInfinity)));
    assert!(AlertEngine::is_triggered(&q, &special("volume_above", Threshold::MinusInfinity)));
    assert!(!AlertEngine::is_triggered(&q, &special("change_pct_below", Threshold::MinusInfinity)));
    for kind in ["price_below", "price_above", "change_pct_above", "change_pct_below", "volume_above"] {
        assert!(!AlertEngine::is_triggered(&q, &special(kind, Threshold::NotANumber)));
    }
    assert_eq!(
        format_alert(&q, &special("price_below", Threshold::PlusInfinity)),
        format!("🚨 *2330 警示*：跌破 inf 元\n\n{body}")
    );
    assert_eq!(
        format_alert(&q, &special("change_pct_below", Threshold::MinusInfinity)),
        format!("🚨 *2330 警示*：跌幅超過 inf%\n\n{body}")
    );
    assert_eq!(
        format_alert(&q, &special("change_pct_above", Threshold::NotANumber)),
        format!("🚨 *2330 警示*：漲幅超過 NaN%\n\n{body}")
    );
    assert_eq!(
        format_alert(&q, &special("volume_above", Threshold::PlusInfinity)),
        format!("🚨 *2330 警示*：成交量超過 9,223,372,036,854,775,807 張\n\n{body}")
    );
    assert_eq!(
        format_alert(&q, &special("volume_above", Threshold::MinusInfinity)),
        format!("🚨 *2330 警示*：成交量超過 -9,223,372,036,854,775,808 張\n\n{body}")
    );
    assert_eq!(
        format_alert(&q, &special("volume_above", Threshold::NotANumber)),
        format!("🚨 *2330 警示*：成交量超過 0 張\n\n{body}")
    );
}

#[test]
fn conditions_fire_on_their_thresholds() {
    let q = quote();
    assert!(AlertEngine::is_triggered(&q, &cond("price_below", 95001)));
    assert!(!AlertEngine::is_triggered(&q, &cond("price_below", 95000)));
    assert!(AlertEngine::is_triggered(&q, &cond("price_above", 94999)));
    assert!(AlertEngine::is_triggered(&q, &cond("change_pct_above", 100)));
    assert!(!AlertEngine::is_triggered(&q, &cond("change_pct_below", 100)));
    let mut down = quote();
    down.change_pct = -250;
    assert!(AlertEngine::is_triggered(&down, &cond("change_pct_below", 200)));
    assert!(AlertEngine::is_triggered(&down, &cond("change_pct_below", -200)));
    assert!(!AlertEngine::is_triggered(&down, &cond("change_pct_below", 250)));
    assert!(AlertEngine::is_triggered(&q, &cond("volume_above", 2_499_999)));
    assert!(!AlertEngine::is_triggered(&q, &cond("volume_above", 2_500_000)));
    assert!(!AlertEngine::is_triggered(&q, &cond("unknown", 0)));
}

#[test]
fn cooldown_of_thirty_minutes() {
    let q = quote();
    let conds = vec![cond("price_above", 90000), cond("price_below", 90000)];
    let mut e = AlertEngine::new();
    let t = 1_000_000_000;
    let fired = e.check_at("2330.TW", &q, &conds, t);
    assert_eq!(fired.len(), 1);
    assert_eq!(fired[0].kind, "price_above");
    assert!(e.check_at("2330.TW", &q, &conds, t).is_empty());
    assert!(e.check_at("2330.TW", &q, &conds, t + COOLDOWN_MS - 1).is_empty());
    // another stock is not affected
    assert_eq!(e.check_at("2303.TW", &q, &conds, t).len(), 1);
    assert_eq!(e.check_at("2330.TW", &q, &conds, t + COOLDOWN_MS).len(), 1);
}

#[test]
fn checks_never_go_back_in_time() {
    let q = quote();
    let conds = vec![cond("price_above", 90000)];
    let mut e = AlertEngine::new();
    assert_eq!(e.check_at("2330.TW", &q, &conds, 5_000_000).len(), 1);
    assert!(e.check_at("2330.TW", &q, &conds, 0).is_empty());
    assert_eq!(e.advance_to(1), 5_000_000);
    assert!(e.check_at("2330.TW", &q, &conds, 5_000_000 + COOLDOWN_MS - 1).is_empty());
    assert_eq!(e.check_at("2330.TW", &q, &conds, 5_000_000 + COOLDOWN_MS).len(), 1);
    let later = e.tick();
    assert!(later >= 5_000_000 + COOLDOWN_MS);
}

#[test]
fn same_kind_twice_fires_once() {
    let q = quote();
    let conds = vec![cond("price_above", 90000), cond("price_above", 80000)];
    let mut e = AlertEngine::default();
    assert_eq!(e.check_at("2330.TW", &q, &conds, 5).len(), 1);
}

#[test]
fn check_uses_the_clock() {
    let q = quote();
    let conds = vec![cond("price_above", 90000)];
    let mut e = AlertEngine::new();
    assert_eq!(e.check("2330.TW", &q, &conds).len(), 1);
    assert!(e.check("2330.TW", &q, &conds).is_empty());
}

#[test]
fn prompt_with_and_without_history() {
    let q = quote();
    let p = build_prompt("2330.TW", &q, None);
    assert!(p.starts_with("你是一位台股技術分析師。請根據以下資料對 2330 台積電 進行分析，以繁體中文撰寫"));
    assert!(p.contains("【即時行情】\n現價：950.00 元，漲跌：+10.00（+1.06%）\n開盤：940.00 / 最高：955.00 / 最低：938.50\n成交量：25000 張"));
    assert!(p.contains("【近期走勢】\n日K資料暫時無法取得\n\n請自由發揮你的分析。"));
    let bars = vec![DayBar { date: "2025-01-02".to_string(), open: 100, high: 200, low: 50, close: 150, volume: 7 }];
    let p2 = build_prompt("2330.TW", &q, Some(&bars));
    assert!(p2.contains("日期       | 開盤  | 最高  | 最低  | 收盤  | 量(張)\n2025-01-02 | 1.00 | 2.00 | 0.50 | 1.50 | 7"));
    assert!(build_prompt("2330.TW", &q, Some(&vec![])).contains("日K資料暫時無法取得"));
}

#[test]
fn provider_choice() {
    assert_eq!(choose_provider("gemini"), Ok(AiProvider::Gemini));
    assert_eq!(choose_provider("groq"), Ok(AiProvider::Groq));
    assert_eq!(
        choose_provider("openai"),
        Err("未知的 ai_provider：openai，請設定為 \"gemini\" 或 \"groq\"".to_string())
    );
    assert_eq!(
        gemini_url("gemini-2.0-flash", "KEY"),
        "https://generativelanguage.googleapis.com/v1beta/models/gemini-2.0-flash:generateContent?key=KEY"
    );
    assert_eq!(groq_url(), "https://api.groq.com/openai/v1/chat/completions");
    assert_eq!(analysis_text(None), "無法取得分析結果");
    assert_eq!(analysis_text(Some("ok".to_string())), "ok");
}
