//! The summary cards: token totals over a day or since a date, and the sparklines of daily and
//! hourly token totals.

use crate::date::{days_between, hour_of, today_utc, Date, EPOCH_DAYS};
use crate::record::{
    all_wf, lemma_prefix_sum_le, lemma_sum_where_le_total, lemma_sum_where_step,
    lemma_total_le_sum, record_day, sum_where, tokens_sum, total, Record,
};
use vstd::prelude::*;

verus! {

/// Data for one summary card (today, this week, this month). The card's cost is a
/// floating-point amount and is kept by the caller.
#[derive(Debug)]
pub struct CardData {
    pub label: &'static str,
    pub tokens: u64,
    pub sparkline: Vec<u64>,
}

/// Sum of a list of counts.
pub open spec fn seq_sum(s: Seq<u64>) -> int
    decreases s.len(),
{
    if s.len() == 0 {
        0
    } else {
        seq_sum(s.drop_last()) + s.last()
    }
}

/// Records dated on the given day.
pub open spec fn on_day(day: int) -> spec_fn(Record) -> bool {
    |r: Record| record_day(r) == day
}

/// Records dated on or after the given day.
pub open spec fn since_day(day: int) -> spec_fn(Record) -> bool {
    |r: Record| record_day(r) >= day
}

/// Records that fall in slot `j` of a daily sparkline of `days` slots ending on `today`:
/// slot `days - 1` is today, slot `days - 2` yesterday, and so on.
pub open spec fn day_slot(today: int, days: int, j: int) -> spec_fn(Record) -> bool {
    |r: Record| today - record_day(r) == days - 1 - j
}

/// Records dated within the `days` days that end on `today` (today included).
pub open spec fn within_days(today: int, days: int) -> spec_fn(Record) -> bool {
    |r: Record| 0 <= today - record_day(r) < days
}

/// Records dated `today` whose UTC hour is `h`.
pub open spec fn hour_slot(today: int, h: int) -> spec_fn(Record) -> bool {
    |r: Record| record_day(r) == today && hour_of(r.timestamp.secs) == h
}

/// Replacing one count changes the sum by the difference.
pub proof fn lemma_seq_sum_update(s: Seq<u64>, k: int, v: u64)
    requires
        0 <= k < s.len(),
    ensures
        seq_sum(s.update(k, v)) == seq_sum(s) - s[k] + v,
    decreases s.len(),
{
    if k == s.len() - 1 {
        assert(s.update(k, v).drop_last() =~= s.drop_last());
    } else {
        assert(s.update(k, v).drop_last() =~= s.drop_last().update(k, v));
        lemma_seq_sum_update(s.drop_last(), k, v);
    }
}

/// A list of zeros sums to zero.
pub proof fn lemma_seq_sum_zeros(s: Seq<u64>)
    requires
        forall|i: int| 0 <= i < s.len() ==> s[i] == 0,
    ensures
        seq_sum(s) == 0,
    decreases s.len(),
{
    if s.len() > 0 {
        lemma_seq_sum_zeros(s.drop_last());
    }
}

/// A list of `n` zeros.
fn zeros(n: usize) -> (v: Vec<u64>)
    ensures
        v@.len() == n,
        forall|i: int| 0 <= i < n ==> v@[i] == 0,
{
    let mut v: Vec<u64> = Vec::new();
    let mut i: usize = 0;
    while i < n
        invariant
            i <= n,
            v@.len() == i,
            forall|k: int| 0 <= k < i ==> v@[k] == 0,
        decreases n - i,
    {
        v.push(0);
        i = i + 1;
    }
    v
}

/// Daily token totals for the `days` days that end on `today`, oldest first: slot `j` holds
/// the tokens of the records dated `days - 1 - j` days before `today`. The slots together hold
/// the tokens of every record dated within those days, and of no other.
pub fn daily_sparkline_on(records: &[Record], days: usize, today: Date) -> (data: Vec<u64>)
    requires
        today.wf(),
        all_wf(records@),
        tokens_sum(records@) <= u64::MAX,
    ensures
        data@.len() == days,
        forall|j: int|
            0 <= j < days ==> #[trigger] data@[j] == sum_where(
                records@,
                day_slot(today.days as int, days as int, j),
            ),
        seq_sum(data@) == sum_where(records@, within_days(today.days as int, days as int)),
{
    let mut data = zeros(days);
    proof {
        lemma_seq_sum_zeros(data@);
    }
    let ghost t = today.days as int;
    let ghost d = days as int;
    let mut i: usize = 0;
    while i < records.len()
        invariant
            i <= records.len(),
            today.wf(),
            all_wf(records@),
            tokens_sum(records@) <= u64::MAX,
            t == today.days,
            d == days,
            data@.len() == days,
            forall|j: int|
                0 <= j < days ==> #[trigger] data@[j] == sum_where(
                    records@.take(i as int),
                    day_slot(t, d, j),
                ),
            seq_sum(data@) == sum_where(records@.take(i as int), within_days(t, d)),
        decreases records.len() - i,
    {
        let rec = &records[i];
        assert(rec.timestamp.wf());
        let date = rec.timestamp.date();
        let offset = days_between(today, date);
        proof {
            lemma_sum_where_step(records@, i as int, within_days(t, d));
            assert forall|j: int| 0 <= j < days implies sum_where(
                records@.take(i + 1),
                day_slot(t, d, j),
            ) == sum_where(records@.take(i as int), day_slot(t, d, j)) + if day_slot(t, d, j)(
                records@[i as int],
            ) {
                total(records@[i as int])
            } else {
                0
            } by {
                lemma_sum_where_step(records@, i as int, day_slot(t, d, j));
            }
        }
        if offset >= 0 && (offset as u64) < (days as u64) {
            let idx = offset as usize;
            let k = days - 1 - idx;
            proof {
                lemma_total_le_sum(records@, i as int);
                lemma_sum_where_step(records@, i as int, day_slot(t, d, k as int));
                lemma_prefix_sum_le(records@, i + 1, day_slot(t, d, k as int));
                lemma_sum_where_le_total(records@, day_slot(t, d, k as int));
                lemma_seq_sum_update(data@, k as int, (data@[k as int] + total(
                    records@[i as int],
                )) as u64);
            }
            let v = data[k] + rec.total_tokens();
            data.set(k, v);
        }
        i = i + 1;
    }
    assert(records@.take(records.len() as int) =~= records@);
    data
}

/// Daily token totals for the `days` days that end on today's UTC date on the clock (see
/// `daily_sparkline_on`); `None` when the clock reads before the Unix epoch or past chrono's
/// last date.
pub fn build_daily_sparkline(records: &[Record], days: usize) -> (data: Option<Vec<u64>>)
    requires
        all_wf(records@),
        tokens_sum(records@) <= u64::MAX,
    ensures
        data matches Some(v) ==> v@.len() == days && exists|today: Date|
            today.wf() && today.days >= EPOCH_DAYS && forall|j: int|
                0 <= j < days ==> #[trigger] v@[j] == sum_where(
                    records@,
                    day_slot(today.days as int, days as int, j),
                ),
{
    match today_utc() {
        Some(today) => {
            let data = daily_sparkline_on(records, days, today);
            assert(today.wf() && today.days >= EPOCH_DAYS && forall|j: int|
                0 <= j < days ==> #[trigger] data@[j] == sum_where(
                    records@,
                    day_slot(today.days as int, days as int, j),
                ));
            Some(data)
        },
        None => None,
    }
}

/// Hourly token totals for `today`: slot `h` holds the tokens of the records dated `today`
/// whose UTC hour is `h`. The slots together hold the tokens of every record dated `today`.
pub fn hourly_sparkline_on(records: &[Record], today: Date) -> (data: Vec<u64>)
    requires
        today.wf(),
        all_wf(records@),
        tokens_sum(records@) <= u64::MAX,
    ensures
        data@.len() == 24,
        forall|h: int|
            0 <= h < 24 ==> #[trigger] data@[h] == sum_where(
                records@,
                hour_slot(today.days as int, h),
            ),
        seq_sum(data@) == sum_where(records@, on_day(today.days as int)),
{
    let mut data = zeros(24);
    proof {
        lemma_seq_sum_zeros(data@);
    }
    let ghost t = today.days as int;
    let mut i: usize = 0;
    while i < records.len()
        invariant
            i <= records.len(),
            today.wf(),
            all_wf(records@),
            tokens_sum(records@) <= u64::MAX,
            t == today.days,
            data@.len() == 24,
            forall|h: int|
                0 <= h < 24 ==> #[trigger] data@[h] == sum_where(
                    records@.take(i as int),
                    hour_slot(t, h),
                ),
            seq_sum(data@) == sum_where(records@.take(i as int), on_day(t)),
        decreases records.len() - i,
    {
        let rec = &records[i];
        assert(rec.timestamp.wf());
        let date = rec.timestamp.date();
        proof {
            lemma_sum_where_step(records@, i as int, on_day(t));
            assert forall|h: int| 0 <= h < 24 implies sum_where(
                records@.take(i + 1),
                hour_slot(t, h),
            ) == sum_where(records@.take(i as int), hour_slot(t, h)) + if hour_slot(t, h)(
                records@[i as int],
            ) {
                total(records@[i as int])
            } else {
                0
            } by {
                lemma_sum_where_step(records@, i as int, hour_slot(t, h));
            }
        }
        if date.days == today.days {
            let hour = rec.timestamp.hour();
            let k = hour as usize;
            proof {
                lemma_total_le_sum(records@, i as int);
                lemma_sum_where_step(records@, i as int, hour_slot(t, k as int));
                lemma_prefix_sum_le(records@, i + 1, hour_slot(t, k as int));
                lemma_sum_where_le_total(records@, hour_slot(t, k as int));
                lemma_seq_sum_update(data@, k as int, (data@[k as int] + total(
                    records@[i as int],
                )) as u64);
            }
            let v = data[k] + rec.total_tokens();
            data.set(k, v);
        }
        i = i + 1;
    }
    assert(records@.take(records.len() as int) =~= records@);
    data
}

/// Hourly token totals for today's UTC date on the clock (see `hourly_sparkline_on`); `None`
/// when the clock reads before the Unix epoch or past chrono's last date.
pub fn build_hourly_sparkline(records: &[Record]) -> (data: Option<Vec<u64>>)
    requires
        all_wf(records@),
        tokens_sum(records@) <= u64::MAX,
    ensures
        data matches Some(v) ==> v@.len() == 24 && exists|today: Date|
            today.wf() && today.days >= EPOCH_DAYS && forall|h: int|
                0 <= h < 24 ==> #[trigger] v@[h] == sum_where(records@, hour_slot(today.days as int, h)),
{
    match today_utc() {
        Some(today) => {
            let data = hourly_sparkline_on(records, today);
            assert(today.wf() && today.days >= EPOCH_DAYS && forall|h: int|
                0 <= h < 24 ==> #[trigger] data@[h] == sum_where(records@, hour_slot(today.days as int, h)));
            Some(data)
        },
        None => None,
    }
}

/// Token total of the records dated on `day`.
pub fn tokens_on_day(records: &[Record], day: Date) -> (n: u64)
    requires
        all_wf(records@),
        tokens_sum(records@) <= u64::MAX,
    ensures
        n == sum_where(records@, on_day(day.days as int)),
{
    let ghost p = on_day(day.days as int);
    let mut n: u64 = 0;
    let mut i: usize = 0;
    while i < records.len()
        invariant
            i <= records.len(),
            all_wf(records@),
            tokens_sum(records@) <= u64::MAX,
            p == on_day(day.days as int),
            n == sum_where(records@.take(i as int), p),
        decreases records.len() - i,
    {
        let rec = &records[i];
        assert(rec.timestamp.wf());
        let date = rec.timestamp.date();
        proof {
            lemma_sum_where_step(records@, i as int, p);
            lemma_prefix_sum_le(records@, i + 1, p);
            lemma_sum_where_le_total(records@, p);
            lemma_total_le_sum(records@, i as int);
        }
        if date.days == day.days {
            n = n + rec.total_tokens();
        }
        i = i + 1;
    }
    assert(records@.take(records.len() as int) =~= records@);
    n
}

/// Token total of the records dated on or after `start`.
pub fn tokens_since(records: &[Record], start: Date) -> (n: u64)
    requires
        all_wf(records@),
        tokens_sum(records@) <= u64::MAX,
    ensures
        n == sum_where(records@, since_day(start.days as int)),
{
    let ghost p = since_day(start.days as int);
    let mut n: u64 = 0;
    let mut i: usize = 0;
    while i < records.len()
        invariant
            i <= records.len(),
            all_wf(records@),
            tokens_sum(records@) <= u64::MAX,
            p == since_day(start.days as int),
            n == sum_where(records@.take(i as int), p),
        decreases records.len() - i,
    {
        let rec = &records[i];
        assert(rec.timestamp.wf());
        let date = rec.timestamp.date();
        proof {
            lemma_sum_where_step(records@, i as int, p);
            lemma_prefix_sum_le(records@, i + 1, p);
            lemma_sum_where_le_total(records@, p);
            lemma_total_le_sum(records@, i as int);
        }
        if date.days >= start.days {
            n = n + rec.total_tokens();
        }
        i = i + 1;
    }
    assert(records@.take(records.len() as int) =~= records@);
    n
}

} // verus!
