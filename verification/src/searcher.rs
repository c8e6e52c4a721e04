//! The list of Taiwan stocks (listed on TWSE, traded over the counter on
//! TPEx) and the lookups on it: symbol resolution, names, search, and the
//! reading of the two sources the list is built from.

use vstd::prelude::*;
use crate::text::{
    contains_str, contains_text, ends_with_str, has_suffix, lit, same_text, to_chars, trim,
    trimmed, string_of, find_char, char_pos, lemma_char_pos, is_digit_char,
};

verus! {

/// The market a stock trades on.
#[derive(Debug, Clone, Copy, PartialEq, Eq, Structural)]
pub enum Market {
    /// Listed on TWSE (Yahoo symbol suffix `.TW`).
    Listed,
    /// Over the counter, TPEx (suffix `.TWO`).
    Otc,
}

/// A stock: its code (`"2330"`), its name and its market.
#[derive(Debug)]
pub struct Stock {
    pub code: String,
    pub name: String,
    pub market: Market,
}

/// What a `Stock` holds, as plain values.
pub struct StockView {
    pub code: Seq<char>,
    pub name: Seq<char>,
    pub market: Market,
}

impl DeepView for Stock {
    type V = StockView;

    open spec fn deep_view(&self) -> StockView {
        StockView { code: self.code@, name: self.name@, market: self.market }
    }
}

impl Clone for Stock {
    fn clone(&self) -> (r: Stock)
        ensures
            r.deep_view() == self.deep_view(),
    {
        Stock { code: self.code.clone(), name: self.name.clone(), market: self.market }
    }
}

pub open spec fn suffix_text(m: Market) -> Seq<char> {
    match m {
        Market::Listed => ".TW"@,
        Market::Otc => ".TWO"@,
    }
}

impl Market {
    /// The Yahoo Finance symbol suffix of the market.
    pub fn suffix(&self) -> (r: &'static str)
        ensures
            r@ == suffix_text(*self),
    {
        match self {
            Market::Listed => ".TW",
            Market::Otc => ".TWO",
        }
    }

    /// The variant's name, as `{:?}` writes it.
    pub fn debug_name(&self) -> (r: &'static str)
        ensures
            r@ == match *self {
                Market::Listed => "Listed"@,
                Market::Otc => "Otc"@,
            },
    {
        match self {
            Market::Listed => "Listed",
            Market::Otc => "Otc",
        }
    }
}

/// The stock code of a Yahoo symbol: the symbol without a final `.TWO`, or
/// else without a final `.TW`.
pub open spec fn code_of(symbol: Seq<char>) -> Seq<char> {
    if has_suffix(symbol, ".TWO"@) {
        symbol.take(symbol.len() - ".TWO"@.len())
    } else if has_suffix(symbol, ".TW"@) {
        symbol.take(symbol.len() - ".TW"@.len())
    } else {
        symbol
    }
}

/// The stock code of a Yahoo symbol (`"2330.TW"` gives `"2330"`).
pub fn code_from_symbol(symbol: &str) -> (r: &str)
    ensures
        r@ == code_of(symbol@),
{
    proof {
        reveal_strlit(".TWO");
        reveal_strlit(".TW");
    }
    let n = symbol.unicode_len();
    if ends_with_str(symbol, ".TWO") {
        symbol.substring_char(0, n - 4)
    } else if ends_with_str(symbol, ".TW") {
        symbol.substring_char(0, n - 3)
    } else {
        symbol
    }
}

// ---------------------------------------------------------------------
// Lookups in the stock list

/// The index of the first stock whose code is `code`, or `list.len()`.
pub open spec fn code_index(list: Seq<StockView>, code: Seq<char>) -> int
    decreases list.len(),
{
    if list.len() == 0 {
        0
    } else if list[0].code == code {
        0
    } else {
        1 + code_index(list.drop_first(), code)
    }
}

pub proof fn lemma_code_index(list: Seq<StockView>, code: Seq<char>)
    ensures
        0 <= code_index(list, code) <= list.len(),
        code_index(list, code) < list.len() ==> list[code_index(list, code)].code == code,
        forall|k: int| 0 <= k < code_index(list, code) ==> #[trigger] list[k].code != code,
    decreases list.len(),
{
    if list.len() > 0 && list[0].code != code {
        lemma_code_index(list.drop_first(), code);
        assert forall|k: int| 0 <= k < code_index(list, code) implies #[trigger] list[k].code != code by {
            if k > 0 {
                assert(list[k] == list.drop_first()[k - 1]);
            }
        }
    }
}

pub proof fn lemma_code_index_unique(list: Seq<StockView>, code: Seq<char>, i: int)
    requires
        0 <= i <= list.len(),
        i < list.len() ==> list[i].code == code,
        forall|k: int| 0 <= k < i ==> #[trigger] list[k].code != code,
    ensures
        code_index(list, code) == i,
    decreases list.len(),
{
    if list.len() > 0 && list[0].code != code {
        let t = list.drop_first();
        assert forall|k: int| 0 <= k < i - 1 implies #[trigger] t[k].code != code by {
            assert(t[k] == list[k + 1]);
        }
        lemma_code_index_unique(t, code, i - 1);
    }
}

/// The index of the first stock in `stocks` whose code is `code`, or `stocks.len()`.
pub fn find_code(stocks: &Vec<Stock>, code: &str) -> (r: usize)
    ensures
        r == code_index(stocks.deep_view(), code@),
{
    let mut i: usize = 0;
    while i < stocks.len()
        invariant
            i <= stocks.len(),
            forall|k: int| 0 <= k < i ==> #[trigger] stocks.deep_view()[k].code != code@,
        decreases stocks.len() - i,
    {
        if same_text(stocks[i].code.as_str(), code) {
            proof {
                lemma_code_index_unique(stocks.deep_view(), code@, i as int);
            }
            return i;
        }
        i = i + 1;
    }
    proof {
        lemma_code_index_unique(stocks.deep_view(), code@, i as int);
    }
    i
}

/// The Yahoo symbol of a code: the code with the suffix of the first listed
/// stock of that code, or with `.TW` where the list has none.
pub open spec fn resolved_symbol(list: Seq<StockView>, code: Seq<char>) -> Seq<char> {
    let k = code_index(list, code);
    if k < list.len() {
        code + suffix_text(list[k].market)
    } else {
        code + ".TW"@
    }
}

/// The Yahoo symbol of `code`, by the stock list (`.TW` by default).
pub fn resolve_symbol(stocks: &Vec<Stock>, code: &str) -> (r: String)
    ensures
        r@ == resolved_symbol(stocks.deep_view(), code@),
{
    let k = find_code(stocks, code);
    let mut r = lit(code);
    if k < stocks.len() {
        r.append(stocks[k].market.suffix());
    } else {
        r.append(".TW");
    }
    r
}

/// The name of the first stock of the code, if the list has one.
pub open spec fn name_of(list: Seq<StockView>, code: Seq<char>) -> Option<Seq<char>> {
    let k = code_index(list, code);
    if k < list.len() { Some(list[k].name) } else { None }
}

/// The name of the stock of `code`, if the list has it.
pub fn get_stock_name(stocks: &Vec<Stock>, code: &str) -> (r: Option<String>)
    ensures
        r.deep_view() == name_of(stocks.deep_view(), code@),
{
    let k = find_code(stocks, code);
    if k < stocks.len() {
        Some(stocks[k].name.clone())
    } else {
        None
    }
}

/// Whether the query occurs in the stock's code or name.
pub open spec fn stock_matches(q: Seq<char>) -> spec_fn(StockView) -> bool {
    |s: StockView| contains_text(s.code, q) || contains_text(s.name, q)
}

/// The search result: nothing for a blank query; otherwise the stocks whose
/// code or name contains the trimmed query, in list order, at most `limit`.
pub open spec fn search_result(list: Seq<StockView>, query: Seq<char>, limit: int) -> Seq<StockView> {
    let q = trimmed(query);
    if q.len() == 0 {
        seq![]
    } else {
        let found = list.filter(stock_matches(q));
        if found.len() <= limit { found } else { found.take(limit) }
    }
}

/// Searches the stock list by code or name (partial match).
pub fn search_stocks(stocks: &Vec<Stock>, query: &str, limit: usize) -> (r: Vec<Stock>)
    ensures
        r.deep_view() == search_result(stocks.deep_view(), query@, limit as int),
{
    let q = trim(query);
    let mut r: Vec<Stock> = Vec::new();
    if q.unicode_len() == 0 {
        assert(r.deep_view() =~= Seq::<StockView>::empty());
        return r;
    }
    let ghost pred = stock_matches(q@);
    let mut i: usize = 0;
    while i < stocks.len() && r.len() < limit
        invariant
            i <= stocks.len(),
            pred == stock_matches(q@),
            r.len() <= limit,
            r.deep_view() == stocks.deep_view().take(i as int).filter(pred),
        decreases stocks.len() - i,
    {
        let ghost all = stocks.deep_view();
        proof {
            assert(all.take(i + 1) =~= all.take(i as int).push(all[i as int]));
            all.take(i as int).lemma_filter_push(all[i as int], pred);
        }
        let s = &stocks[i];
        if contains_str(s.code.as_str(), q.as_str()) || contains_str(s.name.as_str(), q.as_str()) {
            let ghost before = r.deep_view();
            r.push(s.clone());
            assert(r.deep_view() =~= before.push(all[i as int]));
        }
        i = i + 1;
    }
    proof {
        let all = stocks.deep_view();
        let found = all.filter(pred);
        if i == stocks.len() {
            assert(all.take(i as int) =~= all);
        } else {
            // r is full: the first `limit` of `found` are exactly `r`
            lemma_filter_take_prefix(all, pred, i as int);
        }
    }
    r
}

/// The filter of a prefix is a prefix of the filter.
pub proof fn lemma_filter_take_prefix(s: Seq<StockView>, pred: spec_fn(StockView) -> bool, i: int)
    requires
        0 <= i <= s.len(),
    ensures
        s.filter(pred).len() >= s.take(i).filter(pred).len(),
        s.filter(pred).take(s.take(i).filter(pred).len() as int) == s.take(i).filter(pred),
    decreases s.len() - i,
{
    if i == s.len() {
        assert(s.take(i) =~= s);
        assert(s.filter(pred).take(s.filter(pred).len() as int) =~= s.filter(pred));
    } else {
        lemma_filter_take_prefix(s, pred, i + 1);
        assert(s.take(i + 1) =~= s.take(i).push(s[i]));
        s.take(i).lemma_filter_push(s[i], pred);
        let a = s.take(i).filter(pred);
        let b = s.take(i + 1).filter(pred);
        let f = s.filter(pred);
        assert(f.take(a.len() as int) =~= b.take(a.len() as int));
        assert(b.take(a.len() as int) =~= a);
    }
}

// ---------------------------------------------------------------------
// Reading the sources of the list

/// A listed stock from one entry of the TWSE list (its `Code` and `Name`
/// fields, where they are strings): both trimmed, both non-empty.
pub open spec fn listed_entry(code: Option<Seq<char>>, name: Option<Seq<char>>) -> Option<StockView> {
    match (code, name) {
        (Some(c), Some(n)) => {
            let c2 = trimmed(c);
            let n2 = trimmed(n);
            if c2.len() == 0 || n2.len() == 0 {
                None
            } else {
                Some(StockView { code: c2, name: n2, market: Market::Listed })
            }
        },
        _ => None,
    }
}

/// The listed stocks of the TWSE list, in order.
pub open spec fn listed_stocks(items: Seq<(Option<Seq<char>>, Option<Seq<char>>)>) -> Seq<StockView>
    decreases items.len(),
{
    if items.len() == 0 {
        seq![]
    } else {
        let rest = listed_stocks(items.drop_last());
        match listed_entry(items.last().0, items.last().1) {
            Some(s) => rest.push(s),
            None => rest,
        }
    }
}

/// Builds the listed stocks from the `(Code, Name)` fields of the entries of
/// the TWSE list (`None` where a field is missing or not a string).
pub fn listed_stocks_from(items: &Vec<(Option<String>, Option<String>)>) -> (r: Vec<Stock>)
    ensures
        r.deep_view() == listed_stocks(items.deep_view()),
{
    let mut r: Vec<Stock> = Vec::new();
    let mut i: usize = 0;
    while i < items.len()
        invariant
            i <= items.len(),
            r.deep_view() == listed_stocks(items.deep_view().take(i as int)),
        decreases items.len() - i,
    {
        let ghost all = items.deep_view();
        proof {
            assert(all.take(i + 1).drop_last() =~= all.take(i as int));
        }
        let (code, name) = &items[i];
        match (code, name) {
            (Some(c), Some(n)) => {
                let c2 = trim(c.as_str());
                let n2 = trim(n.as_str());
                if c2.unicode_len() != 0 && n2.unicode_len() != 0 {
                    let ghost before = r.deep_view();
                    r.push(Stock { code: c2, name: n2, market: Market::Listed });
                    assert(r.deep_view() =~= before.push(listed_entry(all[i as int].0, all[i as int].1).unwrap()));
                }
            },
            _ => {},
        }
        i = i + 1;
    }
    assert(items.deep_view().take(i as int) =~= items.deep_view());
    r
}

/// An over-the-counter stock from one `<td>` of the TPEx ISIN page: the
/// trimmed cell is split at its first ideographic space (U+3000) into code and
/// name, both trimmed; the code must be at most five ASCII digits and the
/// name non-empty.
pub open spec fn otc_entry(cell: Seq<char>) -> Option<StockView> {
    let t = trimmed(cell);
    let k = char_pos(t, '\u{3000}');
    if k < t.len() {
        let code = trimmed(t.take(k));
        let name = trimmed(t.skip(k + 1));
        if crate::numtext::all_digits(code) && code.len() <= 5 && name.len() > 0 {
            Some(StockView { code, name, market: Market::Otc })
        } else {
            None
        }
    } else {
        None
    }
}

/// Reads one cell of the TPEx ISIN page.
pub fn otc_stock_from_cell(cell: &str) -> (r: Option<Stock>)
    ensures
        r.deep_view() == otc_entry(cell@),
{
    let t = trim(cell);
    let v = to_chars(t.as_str());
    let k = find_char(&v, 0, '\u{3000}');
    proof {
        assert(v@.skip(0) =~= v@);
        lemma_char_pos(v@, '\u{3000}');
    }
    if k == v.len() {
        return None;
    }
    let left = string_of(&v, 0, k);
    let right = string_of(&v, k + 1, v.len());
    proof {
        assert(v@.subrange(0, k as int) =~= v@.take(k as int));
        assert(v@.subrange(k + 1, v@.len() as int) =~= v@.skip(k + 1));
    }
    let code = trim(left.as_str());
    let name = trim(right.as_str());
    let cv = to_chars(code.as_str());
    let mut all = true;
    let mut i: usize = 0;
    while i < cv.len()
        invariant
            i <= cv.len(),
            all == (forall|j: int| 0 <= j < i ==> crate::numtext::is_digit(#[trigger] cv@[j])),
        decreases cv.len() - i,
    {
        if !is_digit_char(cv[i]) {
            all = false;
        }
        i = i + 1;
    }
    if all && cv.len() <= 5 && name.unicode_len() > 0 {
        Some(Stock { code, name, market: Market::Otc })
    } else {
        None
    }
}

/// The over-the-counter stocks of the TPEx ISIN page's cells, in order.
pub open spec fn otc_stocks(cells: Seq<Seq<char>>) -> Seq<StockView>
    decreases cells.len(),
{
    if cells.len() == 0 {
        seq![]
    } else {
        let rest = otc_stocks(cells.drop_last());
        match otc_entry(cells.last()) {
            Some(s) => rest.push(s),
            None => rest,
        }
    }
}

/// Reads the over-the-counter stocks from the texts of the page's cells.
pub fn otc_stocks_from_cells(cells: &Vec<String>) -> (r: Vec<Stock>)
    ensures
        r.deep_view() == otc_stocks(cells.deep_view()),
{
    let mut r: Vec<Stock> = Vec::new();
    let mut i: usize = 0;
    while i < cells.len()
        invariant
            i <= cells.len(),
            r.deep_view() == otc_stocks(cells.deep_view().take(i as int)),
        decreases cells.len() - i,
    {
        let ghost all = cells.deep_view();
        proof {
            assert(all.take(i + 1).drop_last() =~= all.take(i as int));
        }
        match otc_stock_from_cell(cells[i].as_str()) {
            Some(s) => {
                let ghost before = r.deep_view();
                r.push(s);
                assert(r.deep_view() =~= before.push(otc_entry(all[i as int]).unwrap()));
            },
            None => {},
        }
        i = i + 1;
    }
    assert(cells.deep_view().take(i as int) =~= cells.deep_view());
    r
}

/// What `encoding_rs` makes of the bytes with the encoding that `label`
/// names (`Encoding::for_label`, then `Encoding::decode`: BOM sniffing,
/// malformed sequences replaced by U+FFFD); `None` where the label names
/// no encoding.
pub uninterp spec fn labelled_text(label: Seq<char>, bytes: Seq<u8>) -> Option<Seq<char>>;

/// The texts of the elements of an HTML document that a CSS selector
/// matches, in document order, as `scraper` parses the document and
/// selector and collects each element's text nodes; `None` where the
/// selector does not parse.
pub uninterp spec fn selected_texts(doc: Seq<char>, selector: Seq<char>) -> Option<Seq<Seq<char>>>;

/// Decodes the bytes with the `encoding_rs` encoding of `label`
/// (`Encoding::for_label`, then `Encoding::decode`); the contract claims
/// only that the result is the one these calls give for the label and the
/// bytes. The length bound keeps the decoders' buffer-size computation,
/// which panics on overflow and asks at most three bytes per byte and a
/// few more, away from `usize::MAX`.
#[verifier::external_body]
fn decode_labelled(label: &str, bytes: &[u8]) -> (r: Option<String>)
    requires
        bytes@.len() <= usize::MAX / 4,
    ensures
        r.deep_view() == labelled_text(label@, bytes@),
{
    let encoding = encoding_rs::Encoding::for_label(label.as_bytes())?;
    let (text, _, _) = encoding.decode(bytes);
    Some(text.into_owned())
}

/// Parses the document with `scraper::Html::parse_document` and the
/// selector with `scraper::Selector::parse`, and collects the text of each
/// element that the selector matches with `ElementRef::text`; the contract
/// claims only that the result is the one these calls give for the
/// document and the selector.
#[verifier::external_body]
fn html_selected_texts(doc: &str, selector: &str) -> (r: Option<Vec<String>>)
    ensures
        r.deep_view() == selected_texts(doc@, selector@),
{
    let selector = scraper::Selector::parse(selector).ok()?;
    let document = scraper::Html::parse_document(doc);
    Some(document.select(&selector).map(|el| el.text().collect::<String>()).collect())
}

/// The stocks of the TPEx ISIN page's bytes: the page decoded as Big5
/// (MS950), the texts of its `td` cells read as stocks (see `otc_stocks`);
/// none where the decoding or the selector cannot be had.
pub open spec fn otc_page_stocks(bytes: Seq<u8>) -> Seq<StockView> {
    match labelled_text("big5"@, bytes) {
        None => seq![],
        Some(text) => match selected_texts(text, "td"@) {
            None => seq![],
            Some(cells) => otc_stocks(cells),
        },
    }
}

/// The over-the-counter stocks of the TPEx ISIN page, given its raw bytes
/// (encoded in MS950).
pub fn otc_stocks_from_page(bytes: &[u8]) -> (r: Vec<Stock>)
    requires
        bytes@.len() <= usize::MAX / 4,
    ensures
        r.deep_view() == otc_page_stocks(bytes@),
{
    let text = match decode_labelled("big5", bytes) {
        Some(t) => t,
        None => return Vec::new(),
    };
    match html_selected_texts(text.as_str(), "td") {
        Some(cells) => otc_stocks_from_cells(&cells),
        None => Vec::new(),
    }
}

/// The time the stock list stays fresh: 24 hours.
pub const STOCK_LIST_TTL_SECS: u64 = 86400;

/// Whether the cached stock list must be fetched again: when it was never
/// fetched, or when more than 24 hours have passed (`elapsed` is the time
/// since the last fetch, in seconds and nanoseconds).
pub fn stock_list_expired(elapsed: Option<(u64, u32)>) -> (r: bool)
    ensures
        r == match elapsed {
            None => true,
            Some((secs, nanos)) => secs > 86400 || (secs == 86400 && nanos > 0),
        },
{
    match elapsed {
        None => true,
        Some((secs, nanos)) => secs > STOCK_LIST_TTL_SECS || (secs == STOCK_LIST_TTL_SECS && nanos > 0),
    }
}

/// A fetched list's stocks, none where the fetch failed.
pub open spec fn fetched_stocks(list: Option<Seq<StockView>>) -> Seq<StockView> {
    match list {
        Some(l) => l,
        None => seq![],
    }
}

/// The whole stock list: the listed stocks, then the over-the-counter ones;
/// a list that could not be fetched (`None`) adds nothing.
pub fn merge_stock_lists(listed: Option<Vec<Stock>>, otc: Option<Vec<Stock>>) -> (r: Vec<Stock>)
    ensures
        r.deep_view() == fetched_stocks(listed.deep_view()) + fetched_stocks(otc.deep_view()),
{
    let mut r: Vec<Stock> = match listed {
        Some(l) => l,
        None => Vec::new(),
    };
    let ghost first = r.deep_view();
    match otc {
        Some(mut o) => {
            let ghost second = o.deep_view();
            r.append(&mut o);
            assert(r.deep_view() =~= first + second);
        },
        None => {
            assert(r.deep_view() =~= first + Seq::<StockView>::empty());
        },
    }
    r
}

// ---------------------------------------------------------------------
// Laws of the lookups

/// The code of the symbol a code resolves to is that code again.
pub proof fn law_code_of_resolved_symbol(list: Seq<StockView>, code: Seq<char>)
    ensures
        code_of(resolved_symbol(list, code)) == code,
{
    reveal_strlit(".TW");
    reveal_strlit(".TWO");
    let k = code_index(list, code);
    let sym = resolved_symbol(list, code);
    if k < list.len() && list[k].market == Market::Otc {
        assert(sym == code + ".TWO"@);
        assert(sym.skip(sym.len() - 4) =~= ".TWO"@);
        assert(sym.take(sym.len() - 4) =~= code);
    } else {
        assert(sym == code + ".TW"@);
        assert(sym[sym.len() - 1] == 'W');
        if ".TWO"@.len() <= sym.len() {
            assert(sym.skip(sym.len() - 4)[3] == 'W');
            assert(".TWO"@[3] == 'O');
        }
        assert(sym.skip(sym.len() - 3) =~= ".TW"@);
        assert(sym.take(sym.len() - 3) =~= code);
    }
}

/// Every search result is a stock of the list whose code or name contains
/// the trimmed query; there are at most `limit` of them.
pub proof fn law_search_results_match(list: Seq<StockView>, query: Seq<char>, limit: int)
    requires
        limit >= 0,
    ensures
        search_result(list, query, limit).len() <= limit,
        forall|i: int| 0 <= i < search_result(list, query, limit).len() ==> {
            &&& list.contains(#[trigger] search_result(list, query, limit)[i])
            &&& stock_matches(trimmed(query))(search_result(list, query, limit)[i])
        },
{
    let q = trimmed(query);
    if q.len() > 0 {
        let pred = stock_matches(q);
        let found = list.filter(pred);
        let r = search_result(list, query, limit);
        assert forall|i: int| 0 <= i < r.len() implies {
            &&& list.contains(#[trigger] r[i])
            &&& pred(r[i])
        } by {
            assert(r[i] == found[i]);
            list.lemma_filter_pred(pred, i);
            assert(found.contains(found[i]));
            list.lemma_filter_contains_rev(pred, found[i]);
        }
    }
}


/// A code resolves by the first stock of the list with that code: `.TWO`
/// after it for an over-the-counter stock, `.TW` for a listed one; a code
/// that no stock has gets `.TW`. The name of a code is that stock's name,
/// and none where no stock has the code.
pub proof fn law_resolved_by_first_match(list: Seq<StockView>, code: Seq<char>, i: int)
    ensures
        (forall|j: int| 0 <= j < list.len() ==> #[trigger] list[j].code != code) ==> {
            &&& resolved_symbol(list, code) == code + ".TW"@
            &&& name_of(list, code) is None
        },
        (0 <= i < list.len() && list[i].code == code && forall|j: int| 0 <= j < i ==> #[trigger] list[j].code != code) ==> {
            &&& resolved_symbol(list, code) == code + (if list[i].market == Market::Otc { ".TWO"@ } else { ".TW"@ })
            &&& name_of(list, code) == Some(list[i].name)
        },
{
    lemma_code_index(list, code);
    let k = code_index(list, code);
    if 0 <= i < list.len() && list[i].code == code && forall|j: int| 0 <= j < i ==> #[trigger] list[j].code != code {
        if k < i {
            assert(list[k].code != code);
        }
        if i < k {
            assert(list[i].code != code);
        }
        assert(k == i);
    }
    if forall|j: int| 0 <= j < list.len() ==> #[trigger] list[j].code != code {
        if k < list.len() {
            assert(list[k].code != code);
        }
    }
}

/// Where no more stocks match than the limit, the search finds every stock
/// of the list whose code or name contains the trimmed (non-blank) query;
/// a blank query finds nothing.
pub proof fn law_search_finds_all_matches(list: Seq<StockView>, query: Seq<char>, limit: int, s: StockView)
    ensures
        trimmed(query).len() == 0 ==> search_result(list, query, limit).len() == 0,
        (trimmed(query).len() > 0 && list.filter(stock_matches(trimmed(query))).len() <= limit
            && list.contains(s) && stock_matches(trimmed(query))(s)) ==> search_result(list, query, limit).contains(s),
{
    let q = trimmed(query);
    if q.len() > 0 && list.contains(s) && stock_matches(q)(s) {
        let i = choose|i: int| 0 <= i < list.len() && list[i] == s;
        list.lemma_filter_contains(stock_matches(q), i);
    }
}

/// The listed stocks read from the TWSE list are all of the listed market,
/// with a code and a name that are not blank; those read from the TPEx page
/// are all over the counter, with a code of at most five digits and a name.
pub proof fn law_stock_list_entries(items: Seq<(Option<Seq<char>>, Option<Seq<char>>)>, cells: Seq<Seq<char>>)
    ensures
        forall|i: int| 0 <= i < listed_stocks(items).len() ==> {
            &&& (#[trigger] listed_stocks(items)[i]).market == Market::Listed
            &&& listed_stocks(items)[i].code.len() > 0
            &&& listed_stocks(items)[i].name.len() > 0
        },
        forall|i: int| 0 <= i < otc_stocks(cells).len() ==> {
            &&& (#[trigger] otc_stocks(cells)[i]).market == Market::Otc
            &&& otc_stocks(cells)[i].code.len() <= 5
            &&& crate::numtext::all_digits(otc_stocks(cells)[i].code)
            &&& otc_stocks(cells)[i].name.len() > 0
        },
    decreases items.len() + cells.len(),
{
    if items.len() > 0 {
        law_stock_list_entries(items.drop_last(), cells);
        let r = listed_stocks(items);
        let r0 = listed_stocks(items.drop_last());
        assert forall|i: int| 0 <= i < r.len() implies {
            &&& (#[trigger] r[i]).market == Market::Listed
            &&& r[i].code.len() > 0
            &&& r[i].name.len() > 0
        } by {
            if i < r0.len() {
                assert(r[i] == r0[i]);
            }
        }
    }
    if cells.len() > 0 {
        law_stock_list_entries(items, cells.drop_last());
        let r = otc_stocks(cells);
        let r0 = otc_stocks(cells.drop_last());
        assert forall|i: int| 0 <= i < r.len() implies {
            &&& (#[trigger] r[i]).market == Market::Otc
            &&& r[i].code.len() <= 5
            &&& crate::numtext::all_digits(r[i].code)
            &&& r[i].name.len() > 0
        } by {
            if i < r0.len() {
                assert(r[i] == r0[i]);
            }
        }
    }
}

} // verus!
