//! The cron expressions of the push schedule (seconds, minutes, hours, day
//! of month, month, day of week). The scheduler evaluates them in UTC, so
//! the key times, written in Taiwan time (UTC+8), are moved back 8 hours.

use vstd::prelude::*;
use crate::numtext::{digits_of, push_digits, unsigned_int_value, in_range, parse_u32};
use crate::text::{lit, split_char, split_at_char};

verus! {

/// Every `n` minutes: `"0 0/{n} * * * *"`.
pub open spec fn interval_cron_text(n: u32) -> Seq<char> {
    "0 0/"@ + digits_of(n as nat) + " * * * *"@
}

pub fn interval_cron(interval_minutes: u32) -> (r: String)
    ensures
        r@ == interval_cron_text(interval_minutes),
{
    let mut r = lit("0 0/");
    push_digits(&mut r, interval_minutes as u64);
    r.append(" * * * *");
    r
}

/// The UTC hour of a Taiwan hour: 8 hours earlier, around the clock.
pub open spec fn utc_hour(hour_tw: int) -> int {
    (hour_tw + 24 - 8) % 24
}

/// Whether a key time is two parts around one `:`; the others are skipped.
pub open spec fn is_key_time(t: Seq<char>) -> bool {
    split_at_char(t, ':').len() == 2
}

/// The daily cron of a key time `"HH:MM"` (Taiwan time): `"0 {MM} {H} * * *"`
/// with `H` the UTC hour; `None` unless the text is two parts around one
/// `:` and the hour reads as an unsigned number.
pub open spec fn key_time_cron_text(t: Seq<char>) -> Option<Seq<char>> {
    let parts = split_at_char(t, ':');
    if parts.len() != 2 {
        None
    } else {
        match in_range(unsigned_int_value(parts[0]), 0, u32::MAX as int) {
            None => None,
            Some(h) => Some("0 "@ + parts[1] + " "@ + digits_of(utc_hour(h) as nat) + " * * *"@),
        }
    }
}

pub fn key_time_cron(time_str: &str) -> (r: Option<String>)
    ensures
        r.deep_view() == key_time_cron_text(time_str@),
{
    let parts = split_char(time_str, ':');
    if parts.len() != 2 {
        return None;
    }
    let hour_tw = match parse_u32(parts[0].as_str()) {
        Some(h) => h,
        None => return None,
    };
    let hour_utc: u64 = (hour_tw as u64 + 24 - 8) % 24;
    let mut r = lit("0 ");
    r.append(parts[1].as_str());
    r.append(" ");
    push_digits(&mut r, hour_utc);
    r.append(" * * *");
    Some(r)
}

/// The crons of the key times, in order: an entry that is not two parts
/// around one `:` is skipped, and one whose hour does not read fails the
/// whole list (`None`).
pub open spec fn key_time_crons_text(ts: Seq<Seq<char>>) -> Option<Seq<Seq<char>>>
    decreases ts.len(),
{
    if ts.len() == 0 {
        Some(seq![])
    } else {
        match key_time_crons_text(ts.drop_last()) {
            None => None,
            Some(rest) => if !is_key_time(ts.last()) {
                Some(rest)
            } else {
                match key_time_cron_text(ts.last()) {
                    Some(c) => Some(rest.push(c)),
                    None => None,
                }
            },
        }
    }
}

pub fn key_time_crons(key_times: &Vec<String>) -> (r: Option<Vec<String>>)
    ensures
        r.deep_view() == key_time_crons_text(key_times.deep_view()),
{
    let mut r: Vec<String> = Vec::new();
    let mut i: usize = 0;
    while i < key_times.len()
        invariant
            i <= key_times.len(),
            key_time_crons_text(key_times.deep_view().take(i as int)) == Some(r.deep_view()),
        decreases key_times.len() - i,
    {
        let ghost all = key_times.deep_view();
        proof {
            assert(all.take(i + 1).drop_last() =~= all.take(i as int));
            assert(all.take(i + 1).last() == all[i as int]);
        }
        let parts = split_char(key_times[i].as_str(), ':');
        if parts.len() == 2 {
            match key_time_cron(key_times[i].as_str()) {
                Some(c) => {
                    let ghost before = r.deep_view();
                    let ghost cv = c@;
                    r.push(c);
                    assert(r.deep_view() =~= before.push(cv));
                },
                None => {
                    proof {
                        lemma_crons_fail_on(all, i as int);
                    }
                    return None;
                },
            }
        }
        i = i + 1;
    }
    assert(key_times.deep_view().take(i as int) =~= key_times.deep_view());
    Some(r)
}

/// Once a prefix fails, every longer prefix fails.
proof fn lemma_crons_fail_on(ts: Seq<Seq<char>>, i: int)
    requires
        0 <= i < ts.len(),
        key_time_crons_text(ts.take(i + 1)) is None,
    ensures
        key_time_crons_text(ts) is None,
    decreases ts.len() - i,
{
    if i + 1 < ts.len() {
        assert(ts.take(i + 2).drop_last() =~= ts.take(i + 1));
        lemma_crons_fail_on(ts, i + 1);
    } else {
        assert(ts.take(i + 1) =~= ts);
    }
}

/// The key-time crons: the list is had exactly when every entry of two
/// parts around one `:` has an hour that reads, and it is then the cron of
/// each such entry, in order, the other entries adding none.
pub proof fn law_key_time_crons(ts: Seq<Seq<char>>)
    ensures
        (key_time_crons_text(ts) is Some) == (forall|i: int| 0 <= i < ts.len() && is_key_time(#[trigger] ts[i])
            ==> key_time_cron_text(ts[i]) is Some),
        key_time_crons_text(ts) is Some ==> key_time_crons_text(ts)->Some_0
            == ts.filter(|t: Seq<char>| is_key_time(t)).map_values(|t: Seq<char>| key_time_cron_text(t)->Some_0),
    decreases ts.len(),
{
    if ts.len() > 0 {
        let init = ts.drop_last();
        law_key_time_crons(init);
        assert forall|i: int| 0 <= i < init.len() implies init[i] == ts[i] by {}
        if (forall|i: int| 0 <= i < ts.len() && is_key_time(#[trigger] ts[i]) ==> key_time_cron_text(ts[i]) is Some) {
            assert(forall|i: int| 0 <= i < init.len() && is_key_time(#[trigger] init[i]) ==> key_time_cron_text(init[i]) is Some) by {
                assert forall|i: int| 0 <= i < init.len() && is_key_time(#[trigger] init[i]) implies key_time_cron_text(init[i]) is Some by {
                    assert(ts[i] == init[i]);
                }
            }
            assert(ts[ts.len() - 1] == ts.last());
        }
        reveal(Seq::filter);
        let f = |t: Seq<char>| is_key_time(t);
        let g = |t: Seq<char>| key_time_cron_text(t)->Some_0;
        if key_time_crons_text(ts) is Some {
            let rest = key_time_crons_text(init)->Some_0;
            assert(ts.drop_last() == init);
            if is_key_time(ts.last()) {
                assert(ts.filter(f) == init.filter(f).push(ts.last()));
                assert(ts.filter(f).map_values(g) =~= init.filter(f).map_values(g).push(g(ts.last())));
            } else {
                assert(ts.filter(f) == init.filter(f));
            }
        }
    } else {
        reveal(Seq::filter);
        assert(ts.filter(|t: Seq<char>| is_key_time(t)) =~= Seq::<Seq<char>>::empty());
    }
}

/// The UTC hour of a Taiwan hour is the Taiwan hour less 8 hours: adding
/// the 8 hours back gives the Taiwan hour, on the 24-hour clock.
pub proof fn law_utc_hour_is_taiwan_hour_minus_8(hour_tw: int)
    requires
        0 <= hour_tw < 24,
    ensures
        0 <= utc_hour(hour_tw) < 24,
        (utc_hour(hour_tw) + 8) % 24 == hour_tw,
{
}


/// A key time `"H:M"` whose hour reads as the number `h` runs daily at
/// second 0, minute `M` as written, and the UTC hour `(h + 16) % 24`: eight
/// hours before `h` on the 24-hour clock. Where the hour does not read,
/// there is no cron.
pub proof fn law_key_time_cron_hour(t: Seq<char>)
    requires
        split_at_char(t, ':').len() == 2,
    ensures
        ({
            let parts = split_at_char(t, ':');
            match unsigned_int_value(parts[0]) {
                Some(h) => if h <= u32::MAX {
                    key_time_cron_text(t) == Some("0 "@ + parts[1] + " "@ + digits_of(((h + 16) % 24) as nat) + " * * *"@)
                } else {
                    key_time_cron_text(t) is None
                },
                None => key_time_cron_text(t) is None,
            }
        }),
{
}

} // verus!
