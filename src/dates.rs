//! Calendar dates as day numbers, day intervals and next-charge prediction.
use vstd::prelude::*;
use chrono::Datelike;
use crate::frequency::{Frequency, period_of};

verus! {

/// Day number (January 1 of year 1 is day 1) of an ISO `YYYY-MM-DD` text, as chrono reads it.
pub uninterp spec fn day_number_of(s: Seq<char>) -> Option<i32>;

/// Relies on `chrono::NaiveDate::parse_from_str` with `%Y-%m-%d` and
/// `Datelike::num_days_from_ce`: the day number of a valid calendar date, nothing otherwise.
#[verifier::external_body]
pub(crate) fn day_number(s: &str) -> (r: Option<i32>)
    ensures
        r == day_number_of(s@),
{
    match chrono::NaiveDate::parse_from_str(s, "%Y-%m-%d") {
        Ok(d) => Some(d.num_days_from_ce()),
        Err(_) => None,
    }
}

/// ISO `YYYY-MM-DD` text of a day number, as chrono writes it, when the date is in its range.
pub uninterp spec fn date_text_of(n: i32) -> Option<Seq<char>>;

/// Relies on `chrono::NaiveDate::from_num_days_from_ce_opt` and its `%Y-%m-%d` formatting.
#[verifier::external_body]
pub(crate) fn date_of_day_number(n: i32) -> (r: Option<String>)
    ensures
        match r {
            Some(t) => date_text_of(n) == Some(t@),
            None => date_text_of(n) is None,
        },
{
    match chrono::NaiveDate::from_num_days_from_ce_opt(n) {
        Some(d) => Some(d.format("%Y-%m-%d").to_string()),
        None => None,
    }
}

/// The positive differences between consecutive day numbers that are both known.
pub open spec fn day_intervals_of(days: Seq<Option<i32>>) -> Seq<i64>
    decreases days.len(),
{
    if days.len() < 2 {
        Seq::empty()
    } else {
        let r = day_intervals_of(days.drop_last());
        match (days[days.len() - 2], days.last()) {
            (Some(a), Some(b)) => if b - a > 0 {
                r.push((b - a) as i64)
            } else {
                r
            },
            _ => r,
        }
    }
}

/// The positive day differences between consecutive dates that both parse.
pub open spec fn intervals_of(dates: Seq<Seq<char>>) -> Seq<i64> {
    day_intervals_of(dates.map_values(|d: Seq<char>| day_number_of(d)))
}

pub open spec fn texts_view(v: Seq<String>) -> Seq<Seq<char>> {
    v.map_values(|s: String| s@)
}

/// Differences between consecutive known day numbers, keeping the positive ones.
pub fn day_intervals(days: &Vec<Option<i32>>) -> (r: Vec<i64>)
    ensures
        r@ == day_intervals_of(days@),
        r@.len() <= days@.len(),
        forall|i: int| 0 <= i < r@.len() ==> r@[i] > 0,
{
    let mut r: Vec<i64> = Vec::new();
    if days.len() < 2 {
        return r;
    }
    let mut i: usize = 1;
    assert(days@.subrange(0, 1).len() < 2);
    while i < days.len()
        invariant
            1 <= i <= days@.len(),
            r@ == day_intervals_of(days@.subrange(0, i as int)),
            r@.len() < i,
            forall|k: int| 0 <= k < r@.len() ==> r@[k] > 0,
        decreases days@.len() - i,
    {
        let ghost pre = days@.subrange(0, i + 1);
        assert(pre.drop_last() =~= days@.subrange(0, i as int));
        assert(pre[pre.len() - 2] == days@[i - 1]);
        assert(pre.last() == days@[i as int]);
        match (days[i - 1], days[i]) {
            (Some(x), Some(y)) => {
                let diff = y as i64 - x as i64;
                if diff > 0 {
                    r.push(diff);
                }
            },
            _ => {},
        }
        i = i + 1;
    }
    assert(days@.subrange(0, i as int) =~= days@);
    r
}

/// Day intervals between consecutive dates; pairs where a date does not parse, or where the
/// later date is not after the earlier, give none.
pub fn calculate_intervals(dates: &Vec<String>) -> (r: Vec<i64>)
    ensures
        r@ == intervals_of(texts_view(dates@)),
        r@.len() <= dates@.len(),
        forall|i: int| 0 <= i < r@.len() ==> r@[i] > 0,
{
    let mut days: Vec<Option<i32>> = Vec::new();
    let mut i: usize = 0;
    while i < dates.len()
        invariant
            i <= dates@.len(),
            days@ == texts_view(dates@).subrange(0, i as int).map_values(
                |d: Seq<char>| day_number_of(d),
            ),
        decreases dates@.len() - i,
    {
        days.push(day_number(dates[i].as_str()));
        i = i + 1;
        assert(days@ =~= texts_view(dates@).subrange(0, i as int).map_values(
            |d: Seq<char>| day_number_of(d),
        ));
    }
    assert(texts_view(dates@).subrange(0, i as int) =~= texts_view(dates@));
    day_intervals(&days)
}

/// Next charge: the last date moved on by the frequency's fixed number of days.
pub open spec fn next_date_of(last: Seq<char>, f: Frequency) -> Option<Seq<char>> {
    match day_number_of(last) {
        Some(d) => if d + period_of(f) <= i32::MAX {
            date_text_of((d + period_of(f)) as i32)
        } else {
            None
        },
        None => None,
    }
}

/// Predicts the next charge date from the last one (7, 14, 30 or 365 days on).
pub fn predict_next_date(last_date: &str, f: Frequency) -> (r: Option<String>)
    ensures
        match r {
            Some(t) => next_date_of(last_date@, f) == Some(t@),
            None => next_date_of(last_date@, f) is None,
        },
{
    match day_number(last_date) {
        Some(d) => {
            let next = d as i64 + f.period_days();
            if next > 2147483647 {
                None
            } else {
                date_of_day_number(next as i32)
            }
        },
        None => None,
    }
}

} // verus!
