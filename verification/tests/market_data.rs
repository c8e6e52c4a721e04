use stock_analysis::clock::{market_open, taipei_now, LocalTime};
use stock_analysis::fetcher::{
    bars_from_dates, history_from_chart, history_from_parts, holiday_url, holidays_from_schedule, is_holiday, parse_roc_date,
    quote_from_meta, quote_url, history_url, ChartMeta, ChartSeries, Date,
};
use stock_analysis::scheduler::{interval_cron, key_time_cron, key_time_crons};
use stock_analysis::searcher::{
    code_from_symbol, get_stock_name, listed_stocks_from, merge_stock_lists, otc_stock_from_cell, otc_stocks_from_cells,
    otc_stocks_from_page, resolve_symbol, search_stocks, stock_list_expired, Market, Stock,
};

fn stock(code: &str, name: &str, market: Market) -> Stock {
    Stock { code: code.to_string(), name: name.to_string(), market }
}

fn list() -> Vec<Stock> {
    vec![
        stock("2330", "台積電", Market::Listed),
        stock("2303", "聯電", Market::Listed),
        stock("6488", "環球晶", Market::Otc),
    ]
}

#[test]
fn market_suffixes() {
    assert_eq!(Market::Listed.suffix(), ".TW");
    assert_eq!(Market::Otc.suffix(), ".TWO");
}

#[test]
fn code_from_symbol_strips_the_suffix() {
    assert_eq!(code_from_symbol("2330.TW"), "2330");
    assert_eq!(code_from_symbol("6488.TWO"), "6488");
    assert_eq!(code_from_symbol("2330"), "2330");
    assert_eq!(code_from_symbol("AAPL"), "AAPL");
}

#[test]
fn symbols_and_names_from_the_list() {
    let l = list();
    assert_eq!(resolve_symbol(&l, "2330"), "2330.TW");
    assert_eq!(resolve_symbol(&l, "6488"), "6488.TWO");
    assert_eq!(resolve_symbol(&l, "9999"), "9999.TW");
    assert_eq!(get_stock_name(&l, "6488"), Some("環球晶".to_string()));
    assert_eq!(get_stock_name(&l, "9999"), None);
    assert_eq!(code_from_symbol(&resolve_symbol(&l, "6488")), "6488");
}

#[test]
fn search_by_code_or_name() {
    let l = list();
    let r = search_stocks(&l, " 23 ", 20);
    assert_eq!(r.len(), 2);
    assert_eq!(r[0].code, "2330");
    assert_eq!(search_stocks(&l, "晶", 20)[0].code, "6488");
    assert_eq!(search_stocks(&l, "23", 1).len(), 1);
    assert!(search_stocks(&l, "   ", 20).is_empty());
    assert!(search_stocks(&l, "xyz", 20).is_empty());
}

#[test]
fn listed_entries_need_code_and_name() {
    let items = vec![
        (Some(" 2330 ".to_string()), Some(" 台積電 ".to_string())),
        (Some("".to_string()), Some("空".to_string())),
        (None, Some("無代號".to_string())),
        (Some("2303".to_string()), Some("聯電".to_string())),
    ];
    let r = listed_stocks_from(&items);
    assert_eq!(r.len(), 2);
    assert_eq!(r[0].code, "2330");
    assert_eq!(r[0].name, "台積電");
    assert_eq!(r[1].market, Market::Listed);
}

#[test]
fn otc_cells() {
    let s = otc_stock_from_cell(" 6488\u{3000}環球晶 ").unwrap();
    assert_eq!(s.code, "6488");
    assert_eq!(s.name, "環球晶");
    assert_eq!(s.market, Market::Otc);
    assert!(otc_stock_from_cell("700123\u{3000}權證").is_none());
    assert!(otc_stock_from_cell("A123\u{3000}名稱").is_none());
    assert!(otc_stock_from_cell("6488 環球晶").is_none());
    assert!(otc_stock_from_cell("6488\u{3000}").is_none());
    let cells = vec!["6488\u{3000}環球晶".to_string(), "有價證券代號及名稱".to_string()];
    assert_eq!(otc_stocks_from_cells(&cells).len(), 1);
}

#[test]
fn otc_page_from_big5_bytes() {
    // "<table><tr><td>6488　環球晶</td><td>x</td></tr></table>" in Big5
    let (bytes, _, _) = encoding_rs::BIG5.encode("<table><tr><td>6488\u{3000}環球晶</td><td>x</td></tr></table>");
    let r = otc_stocks_from_page(&bytes);
    assert_eq!(r.len(), 1);
    assert_eq!(r[0].code, "6488");
    assert_eq!(r[0].name, "環球晶");
}

#[test]
fn stock_list_freshness() {
    assert!(stock_list_expired(None));
    assert!(!stock_list_expired(Some((100, 0))));
    assert!(!stock_list_expired(Some((86400, 0))));
    assert!(stock_list_expired(Some((86400, 1))));
    assert!(stock_list_expired(Some((90000, 0))));
}

fn meta() -> ChartMeta {
    ChartMeta {
        regular_market_price: Some(95000),
        chart_previous_close: Some(94000),
        previous_close: Some(1),
        regular_market_open: Some(94500),
        regular_market_day_high: Some(95500),
        regular_market_day_low: None,
        regular_market_volume: Some(25_123_456),
        long_name: None,
        short_name: Some("TSMC".to_string()),
    }
}

#[test]
fn quote_from_chart_meta() {
    let q = quote_from_meta("2330.TW", &meta()).unwrap();
    assert_eq!(q.symbol, "2330.TW");
    assert_eq!(q.name, "TSMC");
    assert_eq!(q.price, 95000);
    assert_eq!(q.change, 1000);
    // 1000 / 94000 * 100 = 1.0638...% -> 1.06%
    assert_eq!(q.change_pct, 106);
    assert_eq!(q.low, 0);
    assert_eq!(q.volume, 25123);
}

#[test]
fn quote_name_falls_back_to_the_code() {
    let mut m = meta();
    m.short_name = None;
    assert_eq!(quote_from_meta("6488.TWO", &m).unwrap().name, "6488");
    m.chart_previous_close = None;
    m.previous_close = Some(96000);
    let q = quote_from_meta("6488.TWO", &m).unwrap();
    assert_eq!(q.change, -1000);
    // -1000 / 96000 * 100 = -1.0416...% -> -1.04%
    assert_eq!(q.change_pct, -104);
    m.previous_close = None;
    assert!(quote_from_meta("6488.TWO", &m).is_none());
    let mut m2 = meta();
    m2.regular_market_price = None;
    assert!(quote_from_meta("2330.TW", &m2).is_none());
}

#[test]
fn percentages_round_half_away_from_zero() {
    let mut m = meta();
    m.regular_market_price = Some(10005);
    m.chart_previous_close = Some(10000);
    // 0.05% exactly
    assert_eq!(quote_from_meta("X", &m).unwrap().change_pct, 5);
    m.regular_market_price = Some(100001);
    m.chart_previous_close = Some(100000);
    // 0.001% -> 0.00%
    assert_eq!(quote_from_meta("X", &m).unwrap().change_pct, 0);
    m.regular_market_price = Some(99995);
    // -0.005% -> -0.01%
    assert_eq!(quote_from_meta("X", &m).unwrap().change_pct, -1);
}

#[test]
fn urls() {
    assert_eq!(quote_url("2330.TW"), "https://query1.finance.yahoo.com/v8/finance/chart/2330.TW?interval=1d&range=1d");
    assert_eq!(history_url("2330.TW"), "https://query1.finance.yahoo.com/v8/finance/chart/2330.TW?interval=1d&range=1mo");
    assert_eq!(
        holiday_url(2025),
        "https://www.twse.com.tw/rwd/zh/holidaySchedule/holidaySchedule?response=json&year=114"
    );
}

fn series() -> ChartSeries {
    ChartSeries {
        opens: vec![Some(100), None, Some(300)],
        highs: vec![Some(110), Some(210), Some(310)],
        lows: vec![Some(90), Some(190), Some(290)],
        closes: vec![Some(105), Some(205)],
        volumes: vec![Some(1_234_000), Some(999), Some(-1500)],
    }
}

#[test]
fn bars_from_series() {
    let dates = vec![Some("2025-01-02".to_string()), None, Some("2025-01-06".to_string())];
    let bars = bars_from_dates(&dates, &series(), 10);
    assert_eq!(bars.len(), 2);
    assert_eq!(bars[0].date, "2025-01-02");
    assert_eq!(bars[0].volume, 1234);
    assert_eq!(bars[1].open, 300);
    assert_eq!(bars[1].close, 0);
    assert_eq!(bars[1].volume, -1);
    let last = bars_from_dates(&dates, &series(), 1);
    assert_eq!(last.len(), 1);
    assert_eq!(last[0].date, "2025-01-06");
}

#[test]
fn history_dates_come_from_timestamps() {
    // 2025-01-02 00:00:00 UTC, 2025-01-03 05:00:00 UTC
    let ts = vec![1_735_776_000, 1_735_880_400];
    let bars = history_from_chart(&ts, &series(), 10);
    assert_eq!(bars.len(), 2);
    assert_eq!(bars[0].date, "2025-01-02");
    assert_eq!(bars[1].date, "2025-01-03");
    assert_eq!(bars[1].open, 0);
}

#[test]
fn history_needs_timestamps_and_series() {
    let ts = vec![1_735_776_000, 1_735_880_400];
    assert!(history_from_parts(None, Some(series()), 10).is_none());
    assert!(history_from_parts(Some(ts.clone()), None, 10).is_none());
    let bars = history_from_parts(Some(ts), Some(series()), 1).unwrap();
    assert_eq!(bars.len(), 1);
    assert_eq!(bars[0].date, "2025-01-03");
}

#[test]
fn stock_lists_merge_in_order() {
    let listed = vec![stock("2330", "台積電", Market::Listed)];
    let otc = vec![stock("6488", "環球晶", Market::Otc)];
    let all = merge_stock_lists(Some(listed.clone()), Some(otc.clone()));
    assert_eq!(all.len(), 2);
    assert_eq!(all[0].code, "2330");
    assert_eq!(all[1].code, "6488");
    let only_otc = merge_stock_lists(None, Some(otc));
    assert_eq!(only_otc.len(), 1);
    assert_eq!(only_otc[0].code, "6488");
    assert_eq!(merge_stock_lists(Some(listed), None).len(), 1);
    assert!(merge_stock_lists(None, None).is_empty());
}

#[test]
fn roc_dates() {
    assert_eq!(parse_roc_date("114/01/01"), Some(Date { year: 2025, month: 1, day: 1 }));
    assert_eq!(parse_roc_date("113/02/29"), Some(Date { year: 2024, month: 2, day: 29 }));
    assert_eq!(parse_roc_date("114/02/29"), None);
    assert_eq!(parse_roc_date("114/13/01"), None);
    assert_eq!(parse_roc_date("114-01-01"), None);
    assert_eq!(parse_roc_date("114/1/1/1"), None);
    assert_eq!(parse_roc_date("x/01/01"), None);
}

#[test]
fn holiday_schedule() {
    let rows = vec![
        vec!["114/01/01".to_string(), "中華民國開國紀念日".to_string()],
        vec![],
        vec!["bad".to_string()],
        vec!["114/01/27".to_string()],
    ];
    let h = holidays_from_schedule("OK", &rows);
    assert_eq!(h, vec![Date { year: 2025, month: 1, day: 1 }, Date { year: 2025, month: 1, day: 27 }]);
    assert!(holidays_from_schedule("ERROR", &rows).is_empty());
    assert!(is_holiday(&h, Date { year: 2025, month: 1, day: 27 }));
    assert!(!is_holiday(&h, Date { year: 2025, month: 1, day: 28 }));
}

fn at(weekday: u32, day: u32, hour: u32, minute: u32) -> LocalTime {
    LocalTime { year: 2025, month: 1, day, weekday, hour, minute }
}

#[test]
fn trading_hours() {
    let holidays = vec![Date { year: 2025, month: 1, day: 1 }];
    assert!(market_open(at(3, 2, 9, 0), &holidays));
    assert!(market_open(at(3, 2, 13, 0), &holidays));
    assert!(!market_open(at(3, 2, 13, 1), &holidays));
    assert!(!market_open(at(3, 2, 8, 59), &holidays));
    assert!(!market_open(at(5, 4, 10, 0), &holidays));
    assert!(!market_open(at(6, 5, 10, 0), &holidays));
    assert!(!market_open(at(2, 1, 10, 0), &holidays));
}

#[test]
fn taipei_clock_reads() {
    let t = taipei_now().unwrap();
    assert!(t.weekday < 7 && t.hour < 24 && t.minute < 60);
    assert!((1..=12).contains(&t.month));
    assert!(t.year >= 2024);
}

#[test]
fn cron_expressions() {
    assert_eq!(interval_cron(30), "0 0/30 * * * *");
    assert_eq!(key_time_cron("09:30"), Some("0 30 1 * * *".to_string()));
    assert_eq!(key_time_cron("10:30"), Some("0 30 2 * * *".to_string()));
    assert_eq!(key_time_cron("12:00"), Some("0 00 4 * * *".to_string()));
    assert_eq!(key_time_cron("13:25"), Some("0 25 5 * * *".to_string()));
    assert_eq!(key_time_cron("13:30"), Some("0 30 5 * * *".to_string()));
    assert_eq!(key_time_cron("03:00"), Some("0 00 19 * * *".to_string()));
    assert_eq!(key_time_cron("0930"), None);
    assert_eq!(key_time_cron("1:2:3"), None);
    assert_eq!(key_time_cron("xx:30"), None);
    let ts = vec!["09:30".to_string(), "bad".to_string(), "13:25".to_string()];
    assert_eq!(
        key_time_crons(&ts),
        Some(vec!["0 30 1 * * *".to_string(), "0 25 5 * * *".to_string()])
    );
    let ts = vec!["07:00".to_string()];
    assert_eq!(key_time_crons(&ts), Some(vec!["0 00 23 * * *".to_string()]));
    let ts = vec!["09:30".to_string(), "xx:30".to_string(), "13:25".to_string()];
    assert_eq!(key_time_crons(&ts), None);
    assert_eq!(key_time_crons(&vec![]), Some(vec![]));
}
