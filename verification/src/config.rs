//! The bot's settings: credentials, the administrators, the users allowed to
//! use the bot, and the push schedule. Reading and writing the settings file
//! is done outside the library; here are the access rules and their laws.

use vstd::prelude::*;

verus! {

/// Settings, as `config.json` holds them.
#[derive(Debug, Clone)]
pub struct Config {
    pub telegram_token: String,
    pub gemini_api_key: String,
    pub gemini_model: String,
    pub admin_ids: Vec<String>,
    pub allowed_users: Vec<String>,
    pub schedule: ScheduleConfig,
}

/// When the summaries are pushed: every `interval_minutes`, and at each of
/// `key_times` (`"HH:MM"`, Taiwan time).
#[derive(Debug, Clone)]
pub struct ScheduleConfig {
    pub interval_minutes: u32,
    pub key_times: Vec<String>,
}

/// `list` with `id` appended, unless it is already there.
pub open spec fn with_entry(list: Seq<Seq<char>>, id: Seq<char>) -> Seq<Seq<char>> {
    if list.contains(id) { list } else { list.push(id) }
}

/// Holds of every text but `id`.
pub open spec fn other_than(id: Seq<char>) -> spec_fn(Seq<char>) -> bool {
    |x: Seq<char>| x != id
}

/// `list` without any entry equal to `id`, the others kept in order.
pub open spec fn without_entry(list: Seq<Seq<char>>, id: Seq<char>) -> Seq<Seq<char>> {
    list.filter(other_than(id))
}

/// Whether `id` is one of `list`.
pub fn list_has(list: &Vec<String>, id: &str) -> (r: bool)
    ensures
        r == list.deep_view().contains(id@),
{
    let mut i: usize = 0;
    while i < list.len()
        invariant
            i <= list.len(),
            forall|k: int| 0 <= k < i ==> list.deep_view()[k] != id@,
        decreases list.len() - i,
    {
        if crate::text::same_text(list[i].as_str(), id) {
            assert(list.deep_view()[i as int] == id@);
            return true;
        }
        i = i + 1;
    }
    proof {
        if list.deep_view().contains(id@) {
            let k = choose|k: int| 0 <= k < list.deep_view().len() && list.deep_view()[k] == id@;
            assert(k < i);
        }
    }
    false
}

impl Config {
    pub fn is_admin(&self, chat_id: &str) -> (r: bool)
        ensures
            r == self.admin_ids.deep_view().contains(chat_id@),
    {
        list_has(&self.admin_ids, chat_id)
    }

    pub fn is_allowed(&self, chat_id: &str) -> (r: bool)
        ensures
            r == self.allowed_users.deep_view().contains(chat_id@),
    {
        list_has(&self.allowed_users, chat_id)
    }

    /// Adds `chat_id` to the allowed users, unless it is there already.
    pub fn add_user(&mut self, chat_id: &str)
        ensures
            final(self).allowed_users.deep_view() == with_entry(old(self).allowed_users.deep_view(), chat_id@),
            final(self).admin_ids == old(self).admin_ids,
            final(self).telegram_token == old(self).telegram_token,
            final(self).gemini_api_key == old(self).gemini_api_key,
            final(self).gemini_model == old(self).gemini_model,
            final(self).schedule == old(self).schedule,
    {
        push_if_absent(&mut self.allowed_users, chat_id);
    }

    /// Removes every entry equal to `chat_id` from the allowed users.
    pub fn remove_user(&mut self, chat_id: &str)
        ensures
            final(self).allowed_users.deep_view() == without_entry(old(self).allowed_users.deep_view(), chat_id@),
            final(self).admin_ids == old(self).admin_ids,
            final(self).telegram_token == old(self).telegram_token,
            final(self).gemini_api_key == old(self).gemini_api_key,
            final(self).gemini_model == old(self).gemini_model,
            final(self).schedule == old(self).schedule,
    {
        remove_all_of(&mut self.allowed_users, chat_id);
    }
}

/// Appends `id` to `list` unless it is there already; says whether it was appended.
pub fn push_if_absent(list: &mut Vec<String>, id: &str) -> (added: bool)
    ensures
        final(list).deep_view() == with_entry(old(list).deep_view(), id@),
        added == !old(list).deep_view().contains(id@),
{
    if !list_has(list, id) {
        let ghost before = list.deep_view();
        list.push(id.to_owned());
        assert(list.deep_view() =~= before.push(id@));
        true
    } else {
        false
    }
}

/// Removes every entry equal to `id` from `list`, keeping the others in order.
pub fn remove_all_of(list: &mut Vec<String>, id: &str)
    ensures
        final(list).deep_view() == without_entry(old(list).deep_view(), id@),
{
    let ghost pred = other_than(id@);
    let mut kept: Vec<String> = Vec::new();
    let mut i: usize = 0;
    while i < list.len()
        invariant
            i <= list.len(),
            kept.deep_view() == list.deep_view().take(i as int).filter(pred),
            pred == other_than(id@),
        decreases list.len() - i,
    {
        let ghost all = list.deep_view();
        proof {
            assert(all.take(i + 1) =~= all.take(i as int).push(all[i as int]));
            all.take(i as int).lemma_filter_push(all[i as int], pred);
        }
        if !crate::text::same_text(list[i].as_str(), id) {
            let ghost before = kept.deep_view();
            kept.push(list[i].clone());
            assert(kept.deep_view() =~= before.push(all[i as int]));
        }
        i = i + 1;
    }
    assert(list.deep_view().take(i as int) =~= list.deep_view());
    *list = kept;
}

// ---------------------------------------------------------------------
// Laws of the access list

/// Once added, a user is allowed.
pub proof fn law_added_user_is_allowed(list: Seq<Seq<char>>, id: Seq<char>)
    ensures
        with_entry(list, id).contains(id),
{
    if !list.contains(id) {
        assert(list.push(id)[list.len() as int] == id);
    }
}

/// Once removed, a user is no longer allowed.
pub proof fn law_removed_user_is_not_allowed(list: Seq<Seq<char>>, id: Seq<char>)
    ensures
        !without_entry(list, id).contains(id),
{
    let pred = other_than(id);
    if without_entry(list, id).contains(id) {
        let k = choose|k: int| 0 <= k < list.filter(pred).len() && list.filter(pred)[k] == id;
        list.lemma_filter_pred(pred, k);
    }
}

/// Adding or removing one user leaves every other user's standing as it was.
pub proof fn law_other_users_unaffected(list: Seq<Seq<char>>, id: Seq<char>, other: Seq<char>)
    requires
        other != id,
    ensures
        with_entry(list, id).contains(other) == list.contains(other),
        without_entry(list, id).contains(other) == list.contains(other),
{
    let pred = other_than(id);
    if list.contains(other) {
        let k = choose|k: int| 0 <= k < list.len() && list[k] == other;
        list.lemma_filter_contains(pred, k);
        if !list.contains(id) {
            assert(list.push(id)[k] == other);
        }
    }
    if without_entry(list, id).contains(other) {
        list.lemma_filter_contains_rev(pred, other);
    }
    if with_entry(list, id).contains(other) && !list.contains(id) {
        let k = choose|k: int| 0 <= k < list.push(id).len() && list.push(id)[k] == other;
        assert(k < list.len());
        assert(list[k] == other);
    }
}

/// Adding a user twice is the same as adding once.
pub proof fn law_add_user_idempotent(list: Seq<Seq<char>>, id: Seq<char>)
    ensures
        with_entry(with_entry(list, id), id) == with_entry(list, id),
{
    law_added_user_is_allowed(list, id);
}

/// Adding keeps the list free of repeated entries.
pub proof fn law_add_user_keeps_entries_distinct(list: Seq<Seq<char>>, id: Seq<char>)
    requires
        list.no_duplicates(),
    ensures
        with_entry(list, id).no_duplicates(),
{
    if !list.contains(id) {
        let l2 = list.push(id);
        assert forall|i: int, j: int| 0 <= i < l2.len() && 0 <= j < l2.len() && i != j implies l2[i] != l2[j] by {
            if i < list.len() && j < list.len() {
                assert(l2[i] == list[i] && l2[j] == list[j]);
            } else if i < list.len() {
                assert(l2[i] == list[i]);
            } else {
                assert(l2[j] == list[j]);
            }
        }
    }
}

/// Removing a user that was just added, and was not there before, gives back
/// the list as it was.
pub proof fn law_remove_undoes_add(list: Seq<Seq<char>>, id: Seq<char>)
    requires
        !list.contains(id),
    ensures
        without_entry(with_entry(list, id), id) == list,
{
    let pred = other_than(id);
    list.lemma_filter_push(id, pred);
    assert forall|i: int| 0 <= i < list.len() implies pred(#[trigger] list[i]) by {
        assert(list[i] != id);
    }
    lemma_filter_keeps_all(list, pred);
}

/// Filtering with a predicate that holds of every element changes nothing.
pub proof fn lemma_filter_keeps_all(s: Seq<Seq<char>>, pred: spec_fn(Seq<char>) -> bool)
    requires
        forall|i: int| 0 <= i < s.len() ==> pred(#[trigger] s[i]),
    ensures
        s.filter(pred) == s,
    decreases s.len(),
{
    reveal(Seq::filter);
    if s.len() > 0 {
        let t = s.drop_last();
        assert forall|i: int| 0 <= i < t.len() implies pred(#[trigger] t[i]) by {
            assert(t[i] == s[i]);
        }
        lemma_filter_keeps_all(t, pred);
        assert(pred(s[s.len() - 1]));
        assert(t.push(s.last()) =~= s);
    }
}

} // verus!
