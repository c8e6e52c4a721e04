//! Each user's own data: the watched stocks, the push setting, and the alert
//! conditions per stock. Reading and writing `users/{chat_id}.json` is done
//! outside the library; here are the data, its updates and its file name.

use vstd::prelude::*;
use crate::config::{with_entry, without_entry, push_if_absent, remove_all_of, list_has};
use crate::text::{lit, same_text, has_prefix, starts_with_str};
use crate::numtext::Threshold;
use crate::assoc::{assoc_map, assoc_index, lemma_assoc_index, lemma_assoc_index_unique, lemma_assoc_update, lemma_assoc_push, lemma_assoc_filter, key_not};

verus! {

/// Whether the periodic push is on for the user.
#[derive(Debug, Clone, Copy)]
pub struct UserSchedule {
    pub interval_enabled: bool,
}

/// An alert condition: its kind (`"price_below"`, `"price_above"`,
/// `"change_pct_above"`, `"change_pct_below"`, `"volume_above"`) and its
/// threshold: an amount in hundredths (a price in cents, a percentage in
/// hundredths of a percent, a volume in hundredths of a lot), or an
/// infinity or not-a-number, as a float threshold can be.
#[derive(Debug)]
pub struct AlertCondition {
    pub kind: String,
    pub value: Threshold,
}

/// What an `AlertCondition` holds, as plain values.
pub struct AlertConditionView {
    pub kind: Seq<char>,
    pub value: Threshold,
}

impl DeepView for AlertCondition {
    type V = AlertConditionView;

    open spec fn deep_view(&self) -> AlertConditionView {
        AlertConditionView { kind: self.kind@, value: self.value }
    }
}

impl Clone for AlertCondition {
    fn clone(&self) -> (r: AlertCondition)
        ensures
            r.deep_view() == self.deep_view(),
    {
        AlertCondition { kind: self.kind.clone(), value: self.value }
    }
}

/// The alert conditions set on one stock symbol.
#[derive(Debug)]
pub struct AlertEntry {
    pub symbol: String,
    pub conditions: Vec<AlertCondition>,
}

impl DeepView for AlertEntry {
    type V = (Seq<char>, Seq<AlertConditionView>);

    open spec fn deep_view(&self) -> (Seq<char>, Seq<AlertConditionView>) {
        (self.symbol@, self.conditions.deep_view())
    }
}

/// A copy of a list of alert conditions.
pub fn clone_conditions(cs: &Vec<AlertCondition>) -> (r: Vec<AlertCondition>)
    ensures
        r.deep_view() == cs.deep_view(),
{
    let mut r: Vec<AlertCondition> = Vec::new();
    let mut i: usize = 0;
    while i < cs.len()
        invariant
            i <= cs.len(),
            r.deep_view() == cs.deep_view().take(i as int),
        decreases cs.len() - i,
    {
        let c = cs[i].clone();
        let ghost before = r.deep_view();
        r.push(c);
        assert(r.deep_view() =~= before.push(c.deep_view()));
        assert(cs.deep_view().take(i + 1) =~= cs.deep_view().take(i as int).push(cs.deep_view()[i as int]));
        i = i + 1;
    }
    assert(cs.deep_view().take(i as int) =~= cs.deep_view());
    r
}

impl Clone for AlertEntry {
    fn clone(&self) -> (r: AlertEntry)
        ensures
            r.deep_view() == self.deep_view(),
    {
        AlertEntry { symbol: self.symbol.clone(), conditions: clone_conditions(&self.conditions) }
    }
}

/// A user's data: watched symbols (`"2330.TW"`), the push setting, and the
/// alert conditions of each symbol.
#[derive(Debug)]
pub struct UserData {
    pub stocks: Vec<String>,
    pub schedule: UserSchedule,
    pub alerts: Vec<AlertEntry>,
}

impl UserData {
    /// The alert conditions by symbol.
    pub open spec fn alert_view(&self) -> Map<Seq<char>, Seq<AlertConditionView>> {
        assoc_map(self.alerts.deep_view())
    }

    /// A new user: no stocks, periodic push on, no alerts.
    pub fn new() -> (u: UserData)
        ensures
            u.stocks@.len() == 0,
            u.schedule.interval_enabled,
            u.alerts@.len() == 0,
            u.alert_view() == Map::<Seq<char>, Seq<AlertConditionView>>::empty(),
    {
        UserData { stocks: Vec::new(), schedule: UserSchedule { interval_enabled: true }, alerts: Vec::new() }
    }

    /// Whether the user watches `symbol`.
    pub fn has_stock(&self, symbol: &str) -> (r: bool)
        ensures
            r == self.stocks.deep_view().contains(symbol@),
    {
        list_has(&self.stocks, symbol)
    }

    /// Adds `symbol` to the watch list unless it is there; says whether it was added.
    pub fn add_stock(&mut self, symbol: &str) -> (added: bool)
        ensures
            added == !old(self).stocks.deep_view().contains(symbol@),
            final(self).stocks.deep_view() == with_entry(old(self).stocks.deep_view(), symbol@),
            final(self).schedule == old(self).schedule,
            final(self).alerts.deep_view() == old(self).alerts.deep_view(),
    {
        push_if_absent(&mut self.stocks, symbol)
    }

    /// Removes `symbol` from the watch list together with its alert
    /// conditions, when it is watched; says whether it was.
    pub fn remove_stock(&mut self, symbol: &str) -> (removed: bool)
        ensures
            removed == old(self).stocks.deep_view().contains(symbol@),
            removed ==> final(self).stocks.deep_view() == without_entry(old(self).stocks.deep_view(), symbol@),
            removed ==> final(self).alert_view() == old(self).alert_view().remove(symbol@),
            !removed ==> final(self).stocks.deep_view() == old(self).stocks.deep_view(),
            !removed ==> final(self).alerts.deep_view() == old(self).alerts.deep_view(),
            final(self).schedule == old(self).schedule,
    {
        if !self.has_stock(symbol) {
            return false;
        }
        remove_all_of(&mut self.stocks, symbol);
        let ghost pred = key_not::<Seq<AlertConditionView>>(symbol@);
        let ghost all = self.alerts.deep_view();
        let mut kept: Vec<AlertEntry> = Vec::new();
        let mut i: usize = 0;
        while i < self.alerts.len()
            invariant
                i <= self.alerts.len(),
                all == self.alerts.deep_view(),
                kept.deep_view() == all.take(i as int).filter(pred),
                pred == key_not::<Seq<AlertConditionView>>(symbol@),
            decreases self.alerts.len() - i,
        {
            proof {
                assert(all.take(i + 1) =~= all.take(i as int).push(all[i as int]));
                all.take(i as int).lemma_filter_push(all[i as int], pred);
            }
            if !same_text(self.alerts[i].symbol.as_str(), symbol) {
                let e = self.alerts[i].clone();
                let ghost before = kept.deep_view();
                kept.push(e);
                assert(kept.deep_view() =~= before.push(all[i as int]));
            }
            i = i + 1;
        }
        assert(all.take(i as int) =~= all);
        self.alerts = kept;
        proof {
            lemma_assoc_filter(all, symbol@);
        }
        true
    }

    /// The index of the first alert entry of `symbol`, or `alerts.len()`.
    fn find_entry(&self, symbol: &str) -> (r: usize)
        ensures
            r == assoc_index(self.alerts.deep_view(), symbol@),
    {
        let mut i: usize = 0;
        while i < self.alerts.len()
            invariant
                i <= self.alerts.len(),
                forall|k: int| 0 <= k < i ==> #[trigger] self.alerts.deep_view()[k].0 != symbol@,
            decreases self.alerts.len() - i,
        {
            if same_text(self.alerts[i].symbol.as_str(), symbol) {
                proof {
                    lemma_assoc_index_unique(self.alerts.deep_view(), symbol@, i as int);
                }
                return i;
            }
            i = i + 1;
        }
        proof {
            lemma_assoc_index_unique(self.alerts.deep_view(), symbol@, i as int);
        }
        i
    }

    /// The alert conditions set on `symbol` (none where it has none).
    pub fn alerts_for(&self, symbol: &str) -> (r: Vec<AlertCondition>)
        ensures
            r.deep_view() == if self.alert_view().contains_key(symbol@) {
                self.alert_view()[symbol@]
            } else {
                Seq::<AlertConditionView>::empty()
            },
    {
        let k = self.find_entry(symbol);
        proof {
            lemma_assoc_index(self.alerts.deep_view(), symbol@);
        }
        if k < self.alerts.len() {
            clone_conditions(&self.alerts[k].conditions)
        } else {
            let r: Vec<AlertCondition> = Vec::new();
            assert(r.deep_view() =~= Seq::<AlertConditionView>::empty());
            r
        }
    }

    /// Appends an alert condition to those of `symbol`.
    pub fn add_alert(&mut self, symbol: &str, cond: AlertCondition)
        ensures
            final(self).alert_view() == old(self).alert_view().insert(
                symbol@,
                if old(self).alert_view().contains_key(symbol@) {
                    old(self).alert_view()[symbol@].push(cond.deep_view())
                } else {
                    seq![cond.deep_view()]
                },
            ),
            final(self).stocks.deep_view() == old(self).stocks.deep_view(),
            final(self).schedule == old(self).schedule,
    {
        let k = self.find_entry(symbol);
        let ghost es = self.alerts.deep_view();
        proof {
            lemma_assoc_index(es, symbol@);
        }
        let ghost cv = cond.deep_view();
        if k < self.alerts.len() {
            let mut e = self.alerts.remove(k);
            let ghost before = e.conditions.deep_view();
            e.conditions.push(cond);
            assert(e.conditions.deep_view() =~= before.push(cv));
            self.alerts.insert(k, e);
            proof {
                assert(self.alerts.deep_view() =~= es.update(k as int, (es[k as int].0, es[k as int].1.push(cv))));
                lemma_assoc_update(es, k as int, es[k as int].1.push(cv));
            }
        } else {
            let mut cs: Vec<AlertCondition> = Vec::new();
            cs.push(cond);
            assert(cs.deep_view() =~= seq![cv]);
            self.alerts.push(AlertEntry { symbol: lit(symbol), conditions: cs });
            proof {
                assert(self.alerts.deep_view() =~= es.push((symbol@, seq![cv])));
                lemma_assoc_push(es, (symbol@, seq![cv]));
            }
        }
    }

    /// Turns the periodic push on or off.
    pub fn set_interval_enabled(&mut self, enabled: bool)
        ensures
            final(self).schedule.interval_enabled == enabled,
            final(self).stocks.deep_view() == old(self).stocks.deep_view(),
            final(self).alerts.deep_view() == old(self).alerts.deep_view(),
    {
        self.schedule.interval_enabled = enabled;
    }
}

impl Default for UserData {
    fn default() -> (u: UserData)
        ensures
            u.stocks@.len() == 0,
            u.schedule.interval_enabled,
            u.alerts@.len() == 0,
    {
        UserData::new()
    }
}

/// The file of a user's data: `users/{chat_id}.json`, as
/// `PathBuf::from("users").join(..)` builds it (a file name that begins with
/// `/` is an absolute path and replaces `users`).
pub open spec fn user_path_text(chat_id: Seq<char>) -> Seq<char> {
    let file = chat_id + ".json"@;
    if has_prefix(file, "/"@) { file } else { "users/"@ + file }
}

/// The path of a user's data file.
pub fn user_path(chat_id: &str) -> (r: String)
    ensures
        r@ == user_path_text(chat_id@),
{
    let mut file = lit(chat_id);
    file.append(".json");
    if starts_with_str(file.as_str(), "/") {
        file
    } else {
        let mut r = lit("users/");
        r.append(file.as_str());
        r
    }
}

// ---------------------------------------------------------------------
// Laws of a user's data

/// Removing a watched stock also removes its alert conditions, and leaves
/// every other symbol's conditions as they were.
pub proof fn law_remove_stock_drops_its_alerts(m: Map<Seq<char>, Seq<AlertConditionView>>, sym: Seq<char>, other: Seq<char>)
    requires
        other != sym,
    ensures
        !m.remove(sym).contains_key(sym),
        m.remove(sym).contains_key(other) == m.contains_key(other),
        m.contains_key(other) ==> m.remove(sym)[other] == m[other],
{
}

/// A condition added to a symbol is the last of that symbol's conditions,
/// after all those it had before.
pub proof fn law_added_alert_is_last(m: Map<Seq<char>, Seq<AlertConditionView>>, sym: Seq<char>, c: AlertConditionView)
    ensures
        ({
            let before = if m.contains_key(sym) { m[sym] } else { seq![] };
            let m2 = m.insert(sym, if m.contains_key(sym) { m[sym].push(c) } else { seq![c] });
            &&& m2[sym].len() == before.len() + 1
            &&& m2[sym].last() == c
            &&& m2[sym].take(before.len() as int) == before
        }),
{
    let before = if m.contains_key(sym) { m[sym] } else { seq![] };
    let m2 = m.insert(sym, if m.contains_key(sym) { m[sym].push(c) } else { seq![c] });
    assert(m2[sym].take(before.len() as int) =~= before);
}

} // verus!
