use stock_analysis::numtext::Threshold;
use stock_analysis::alerts::AlertEngine;
use stock_analysis::bot::{
    add_reply, alert_messages_at, alert_reply, allow_reply, analysis_failed_text, analysis_pending_text,
    analyze_targets, api_key_ready, applicant_notice, chat_id_of, collect_named, deny_reply, help_text,
    interval_reply, is_blank, list_reply, may_run, price_reply, push_content, quote_unavailable_text, remove_reply,
    revoke_reply, search_reply, start_reply, status_reply, summary_reply, unauthorized_text, users_reply,
    wants_push, BotCommand,
};
use stock_analysis::config::{Config, ScheduleConfig};
use stock_analysis::fetcher::Quote;
use stock_analysis::formatter::format_quote;
use stock_analysis::searcher::{Market, Stock};
use stock_analysis::user_store::{AlertCondition, UserData};

fn config() -> Config {
    Config {
        telegram_token: "t".to_string(),
        gemini_api_key: "key".to_string(),
        gemini_model: "m".to_string(),
        admin_ids: vec!["1".to_string()],
        allowed_users: vec!["1".to_string(), "2".to_string()],
        schedule: ScheduleConfig { interval_minutes: 30, key_times: vec!["09:30".to_string(), "13:25".to_string()] },
    }
}

fn stocks() -> Vec<Stock> {
    vec![
        Stock { code: "2330".to_string(), name: "台積電".to_string(), market: Market::Listed },
        Stock { code: "6488".to_string(), name: "環球晶".to_string(), market: Market::Otc },
    ]
}

fn quote(symbol: &str) -> Quote {
    Quote {
        symbol: symbol.to_string(),
        name: "TSMC".to_string(),
        price: 95000,
        open: 94000,
        high: 95500,
        low: 93850,
        volume: 25000,
        change: 1000,
        change_pct: 106,
    }
}

#[test]
fn authorization() {
    let c = config();
    assert!(may_run(&c, "3", &BotCommand::Start));
    assert!(may_run(&c, "3", &BotCommand::Help));
    assert!(!may_run(&c, "3", &BotCommand::List));
    assert!(may_run(&c, "2", &BotCommand::Price("2330".to_string())));
    assert_eq!(unauthorized_text(), "⛔ 您尚未獲得授權，請傳送 /start 申請使用權限。");
}

#[test]
fn start_and_notice() {
    let c = config();
    assert_eq!(start_reply(&c, "2"), ("✅ 您已獲得授權，輸入 /help 查看指令。".to_string(), false));
    assert_eq!(start_reply(&c, "9"), ("📋 申請已送出，等待管理員審核。".to_string(), true));
    assert_eq!(
        applicant_notice("9", Some("王 小明".to_string()), Some("ming".to_string())),
        "📩 新用戶申請\n姓名：王 小明 @ming\nchat\\_id：`9`\n\n/allow 9 — 核准\n/deny 9 — 拒絕"
    );
    assert_eq!(
        applicant_notice("9", None, None),
        "📩 新用戶申請\n姓名：9 （無用戶名）\nchat\\_id：`9`\n\n/allow 9 — 核准\n/deny 9 — 拒絕"
    );
}

#[test]
fn chat_ids() {
    assert_eq!(chat_id_of("123"), 123);
    assert_eq!(chat_id_of("-1001"), -1001);
    assert_eq!(chat_id_of("abc"), 0);
    assert_eq!(chat_id_of(""), 0);
}

#[test]
fn help_for_users_and_admins() {
    let c = config();
    let user = help_text(&c, "2");
    assert!(user.starts_with("📖 *指令說明*\n\n/search 台積電 — 搜尋股票代號或名稱\n"));
    assert!(user.ends_with("/help — 顯示此說明"));
    let admin = help_text(&c, "1");
    assert_eq!(admin, format!("{user}\n\n👑 *管理員指令*\n/allow {{chat\\_id}} — 核准用戶申請\n/deny {{chat\\_id}} — 拒絕用戶申請\n/revoke {{chat\\_id}} — 撤銷授權\n/users — 列出所有授權用戶"));
}

#[test]
fn search_replies() {
    let s = stocks();
    assert_eq!(search_reply(&s, "  "), "用法：/search 台積電 或 /search 2330");
    assert_eq!(search_reply(&s, "xyz"), "找不到符合「xyz」的股票");
    assert_eq!(search_reply(&s, "台積"), "🔍 搜尋結果：\n• 2330 台積電（Listed）");
    assert_eq!(search_reply(&s, "6"), "🔍 搜尋結果：\n• 6488 環球晶（Otc）");
    assert!(is_blank(" \t"));
    assert!(!is_blank(" x"));
}

#[test]
fn price_replies() {
    let s = stocks();
    assert_eq!(price_reply(&s, " ", None), ("用法：/price 2330".to_string(), false));
    assert_eq!(price_reply(&s, "2330", None), ("⚠️ 無法取得 2330 的資料".to_string(), false));
    let (text, markdown) = price_reply(&s, "2330", Some(quote("2330.TW")));
    assert!(markdown);
    let mut named = quote("2330.TW");
    named.name = "台積電".to_string();
    assert_eq!(text, format_quote(&named));
}

#[test]
fn watch_list_commands() {
    let s = stocks();
    let mut u = UserData::default();
    assert_eq!(add_reply(&s, &mut u, ""), ("用法：/add 2330".to_string(), false));
    assert_eq!(add_reply(&s, &mut u, "6488"), ("✅ 已新增 6488 環球晶 到追蹤清單".to_string(), true));
    assert_eq!(u.stocks, vec!["6488.TWO"]);
    assert_eq!(add_reply(&s, &mut u, "6488"), ("6488 已在清單中".to_string(), false));
    assert_eq!(add_reply(&s, &mut u, "9999"), ("✅ 已新增 9999 9999 到追蹤清單".to_string(), true));
    assert_eq!(list_reply(&s, &UserData::default()), "追蹤清單為空，用 /add 2330 新增");
    let (t, changed) = alert_reply(&s, &mut u, "6488 price_below 100.5");
    assert!(changed);
    assert_eq!(t, "✅ 已設定 6488 警示：price_below = 100.5");
    assert_eq!(
        list_reply(&s, &u),
        "📋 追蹤清單：\n• 6488 環球晶：price_below=100.5\n• 9999 9999：無警示"
    );
    assert_eq!(remove_reply(&s, &mut u, "6488"), ("✅ 已移除 6488".to_string(), true));
    assert!(u.alerts_for("6488.TWO").is_empty());
    assert_eq!(remove_reply(&s, &mut u, "6488"), ("6488 不在清單中".to_string(), false));
    assert_eq!(remove_reply(&s, &mut u, " "), ("用法：/remove 2330".to_string(), false));
}

#[test]
fn alert_command() {
    let s = stocks();
    let mut u = UserData::default();
    assert_eq!(
        alert_reply(&s, &mut u, "2330 price_below"),
        (
            "用法：/alert 2330 price_below 900.0\n條件類型：price_below, price_above, change_pct_above, change_pct_below, volume_above".to_string(),
            false
        )
    );
    assert_eq!(alert_reply(&s, &mut u, "2330 price_below abc"), ("⚠️ 數值格式錯誤".to_string(), false));
    assert_eq!(alert_reply(&s, &mut u, "abcd price_above 900.0"), ("✅ 已設定 ABCD 警示：price_above = 900".to_string(), true));
    assert_eq!(u.alerts_for("ABCD.TW").len(), 1);
    assert_eq!(u.alerts_for("ABCD.TW")[0].value, Threshold::Amount(90000));
    assert_eq!(alert_reply(&s, &mut u, "2330 volume_above 1e3"), ("✅ 已設定 2330 警示：volume_above = 1000".to_string(), true));
    assert_eq!(u.alerts_for("2330.TW")[0].value, Threshold::Amount(100000));
    assert_eq!(alert_reply(&s, &mut u, "2330 price_below inf"), ("✅ 已設定 2330 警示：price_below = inf".to_string(), true));
    assert_eq!(u.alerts_for("2330.TW")[1].value, Threshold::PlusInfinity);
    assert_eq!(alert_reply(&s, &mut u, "2330 price_above NaN"), ("✅ 已設定 2330 警示：price_above = NaN".to_string(), true));
    assert_eq!(alert_reply(&s, &mut u, "2330 price_above -inf"), ("✅ 已設定 2330 警示：price_above = -inf".to_string(), true));
    assert_eq!(alert_reply(&s, &mut u, "2330 price_above 1e400x"), ("⚠️ 數值格式錯誤".to_string(), false));
    assert_eq!(u.alerts_for("2330.TW").len(), 4);
}

#[test]
fn summary_and_names() {
    let s = stocks();
    let fetched = vec![Some(quote("2330.TW")), None, Some(quote("9999.TW"))];
    let named = collect_named(&s, &fetched);
    assert_eq!(named.len(), 2);
    assert_eq!(named[0].name, "台積電");
    assert_eq!(named[1].name, "TSMC");
    assert_eq!(summary_reply(&s, &vec![None]), "⚠️ 目前無法取得行情資料");
}

#[test]
fn push_skips_users_without_quotes() {
    let s = stocks();
    assert!(push_content(&s, &vec![None, None]).is_none());
    assert!(push_content(&s, &vec![]).is_none());
    let fetched = vec![None, Some(quote("2330.TW"))];
    let (quotes, text) = push_content(&s, &fetched).unwrap();
    assert_eq!(quotes.len(), 1);
    assert_eq!(quotes[0].name, "台積電");
    assert_eq!(text, summary_reply(&s, &fetched));
}

#[test]
fn analyze_helpers() {
    let mut c = config();
    assert!(api_key_ready(&c));
    c.gemini_api_key = "YOUR_GEMINI_API_KEY".to_string();
    assert!(!api_key_ready(&c));
    c.gemini_api_key = String::new();
    assert!(!api_key_ready(&c));
    let s = stocks();
    let mut u = UserData::default();
    u.stocks = vec!["2330.TW".to_string()];
    assert_eq!(analyze_targets(&s, &u, "  "), vec!["2330.TW"]);
    assert_eq!(analyze_targets(&s, &u, " 6488 "), vec!["6488.TWO"]);
    assert_eq!(analyze_targets(&s, &u, "aapl"), vec!["AAPL.TW"]);
    assert_eq!(quote_unavailable_text("6488.TWO"), "⚠️ 無法取得 6488 報價，分析取消");
    let mut q = quote("2330.TW");
    assert_eq!(analysis_pending_text(&q), "⏳ 正在分析 2330 TSMC，請稍候...");
    q.name = String::new();
    assert_eq!(analysis_pending_text(&q), "⏳ 正在分析 2330，請稍候...");
    assert_eq!(analysis_failed_text("timeout"), "⚠️ AI 分析失敗：timeout");
}

#[test]
fn interval_and_status() {
    let mut u = UserData::default();
    assert_eq!(interval_reply(&mut u, " OFF "), ("定時推播已關閉 ❌".to_string(), true));
    assert!(!u.schedule.interval_enabled);
    assert_eq!(interval_reply(&mut u, "maybe"), ("用法：/interval on 或 /interval off".to_string(), false));
    assert!(!u.schedule.interval_enabled);
    u.stocks = vec!["2330.TW".to_string(), "6488.TWO".to_string()];
    assert_eq!(
        status_reply(&config(), &u),
        "🤖 Bot 運作中\n追蹤股票：2 檔\n定時推播：每 30 分鐘 ❌\n關鍵時間：09:30, 13:25"
    );
    assert_eq!(interval_reply(&mut u, "on"), ("定時推播已開啟 ✅".to_string(), true));
    assert!(u.schedule.interval_enabled);
}

#[test]
fn administrators_commands() {
    let mut c = config();
    let r = allow_reply(&mut c, "2", "5");
    assert_eq!(r.text, "⛔ 此指令僅限管理員使用。");
    assert!(!r.save && r.notify.is_none());
    let r = allow_reply(&mut c, "1", " 2 ");
    assert_eq!(r.text, "⚠️ 2 已在授權清單中");
    let r = allow_reply(&mut c, "1", " 5 ");
    assert_eq!(r.text, "✅ 已核准 5");
    assert!(r.save);
    assert_eq!(r.notify, Some((5, "✅ 您的申請已獲核准，歡迎使用！輸入 /help 查看指令。".to_string())));
    assert!(c.is_allowed("5"));
    let d = deny_reply(&c, "2", "7");
    assert_eq!(d.text, "⛔ 此指令僅限管理員使用。");
    assert!(!d.save && d.notify.is_none());
    let d = deny_reply(&c, "1", " 7 ");
    assert_eq!(d.text, "✅ 已拒絕 7 的申請");
    assert!(!d.save);
    assert_eq!(d.notify, Some((7, "❌ 您的申請未獲核准。".to_string())));
    let r = revoke_reply(&mut c, "1", "8");
    assert_eq!(r.text, "⚠️ 8 不在授權清單中");
    let r = revoke_reply(&mut c, "1", "5");
    assert_eq!(r.text, "✅ 已撤銷 5 的授權");
    assert!(r.save && !c.is_allowed("5"));
    assert_eq!(revoke_reply(&mut c, "2", "1").text, "⛔ 此指令僅限管理員使用。");
    assert_eq!(users_reply(&c, "2", &vec![]), "⛔ 此指令僅限管理員使用。");
    assert_eq!(users_reply(&c, "1", &vec![3, 0]), "👥 授權用戶清單：\n• 1 👑：3 檔股票\n• 2：0 檔股票");
    c.allowed_users.clear();
    assert_eq!(users_reply(&c, "1", &vec![]), "目前無授權用戶");
}

#[test]
fn scheduled_pushes() {
    let mut u = UserData::default();
    assert!(!wants_push(&u, false));
    u.stocks = vec!["2330.TW".to_string()];
    assert!(wants_push(&u, true));
    u.schedule.interval_enabled = false;
    assert!(!wants_push(&u, true));
    assert!(wants_push(&u, false));
}

#[test]
fn alert_round_formats_what_fires() {
    let mut u = UserData::default();
    u.stocks = vec!["2330.TW".to_string()];
    u.add_alert("2330.TW", AlertCondition { kind: "price_above".to_string(), value: Threshold::Amount(90000) });
    let quotes = vec![quote("2330.TW"), quote("6488.TWO")];
    let mut e = AlertEngine::new();
    let msgs = alert_messages_at(&mut e, &u, &quotes, 1_000);
    assert_eq!(msgs.len(), 1);
    assert!(msgs[0].starts_with("🚨 *2330 警示*：突破 900.00 元\n\n📊 *2330 TSMC*"));
    assert!(alert_messages_at(&mut e, &u, &quotes, 2_000).is_empty());
}
