//! The history view: the records since a date split into periods (days, or weeks starting on
//! Monday), oldest first, each with its detail rows per model.

use crate::date::{add_days, next_day, weekday_from_monday, Date, MAX_DAYS, MIN_DAYS};
use crate::detail::{
    all_grouped, end_day, first_record_order, group_by_model, keys_distinct, range_of,
    row_matches, rows_input, rows_output, rows_sums, rows_total, ModelRow,
};
use crate::cards::since_day;
use crate::record::{
    all_wf, lemma_sum_where_le_total, record_day, sum_where, tokens_sum, total, Record,
};
use crate::scope::{week_start_in_range, Scope};
use vstd::arithmetic::div_mod::{
    lemma_div_is_ordered, lemma_fundamental_div_mod, lemma_fundamental_div_mod_converse,
};
use vstd::prelude::*;

verus! {

/// The first day of the period that holds day `day`: the day itself, or the Monday of its week.
pub open spec fn period_key(day: int, weekly: bool) -> int {
    if weekly {
        day - weekday_from_monday(day)
    } else {
        day
    }
}

/// Some record among the first `n` of `s`, dated from day `since` on, lies in the period
/// starting on day `k`.
pub open spec fn is_period_key(s: Seq<Record>, n: int, since: int, weekly: bool, k: int) -> bool {
    exists|t: int|
        0 <= t < n && record_day(#[trigger] s[t]) >= since && period_key(record_day(s[t]), weekly)
            == k
}

/// The day after the last day of the period starting on day `k`, when chrono can represent it.
pub open spec fn period_end(k: int, weekly: bool) -> Option<int> {
    let e = if weekly {
        k + 7
    } else {
        k + 1
    };
    if e <= MAX_DAYS {
        Some(e)
    } else {
        None
    }
}

/// The period starts, as day numbers, are strictly increasing.
pub open spec fn increasing(keys: Seq<Date>) -> bool {
    forall|a: int, b: int| 0 <= a < b < keys.len() ==> #[trigger] keys[a].days < #[trigger] keys[b].days
}

/// A later date's week never starts before an earlier date's.
pub proof fn lemma_monday_monotone(a: int, b: int)
    requires
        a <= b,
    ensures
        a - weekday_from_monday(a) <= b - weekday_from_monday(b),
{
    lemma_fundamental_div_mod(a - 1, 7);
    lemma_fundamental_div_mod(b - 1, 7);
    lemma_div_is_ordered(a - 1, b - 1, 7);
}

/// Every day lies in the period its key names: a day period is the day itself; a week period
/// starts on the Monday at most six days before the day; and the period ends after the day (its
/// end is the day after its last day, when chrono can represent that day).
pub proof fn law_day_in_its_period(day: int, weekly: bool)
    ensures
        !weekly ==> period_key(day, false) == day,
        weekly ==> weekday_from_monday(period_key(day, true)) == 0 && 0 <= day - period_key(
            day,
            true,
        ) < 7,
        period_end(period_key(day, weekly), weekly) matches Some(e) ==> day < e,
{
    lemma_monday_key(day);
}

/// A week period spans the seven days from its Monday: every day from a Monday `k` up to six
/// days later has the key `k`, and the period starting on `k` ends seven days after it.
pub proof fn law_week_span(k: int, day: int)
    requires
        weekday_from_monday(k) == 0,
        k <= day < k + 7,
    ensures
        period_key(day, true) == k,
        k + 7 <= MAX_DAYS ==> period_end(k, true) == Some(k + 7),
{
    lemma_fundamental_div_mod(k - 1, 7);
    lemma_fundamental_div_mod_converse(day - 1, 7, (k - 1) / 7, day - k);
}

/// The Monday of a day's week is a Monday at most six days before it.
proof fn lemma_monday_key(day: int)
    ensures
        0 <= weekday_from_monday(day) < 7,
        weekday_from_monday(day - weekday_from_monday(day)) == 0,
{
    lemma_fundamental_div_mod(day - 1, 7);
    lemma_fundamental_div_mod_converse(day - weekday_from_monday(day) - 1, 7, (day - 1) / 7, 0);
}

/// The first date of the period that holds the date `d`.
fn period_start_of(d: Date, weekly: bool) -> (k: Date)
    requires
        d.wf(),
        weekly ==> week_start_in_range(d),
    ensures
        k.days == period_key(d.days as int, weekly),
        k.wf(),
        k.days <= d.days,
{
    if weekly {
        Scope::Week.since_on(d)
    } else {
        d
    }
}

/// The smallest period start after day `after` among the records dated from `since` on; `None`
/// when there is none.
fn next_period_start(records: &[Record], since: Date, weekly: bool, after: i64) -> (r: Option<Date>)
    requires
        all_wf(records@),
        since.wf(),
        weekly ==> week_start_in_range(since),
    ensures
        r matches Some(k) ==> {
            &&& k.wf()
            &&& k.days > after
            &&& is_period_key(records@, records@.len() as int, since.days as int, weekly, k.days as int)
            &&& forall|t: int|
                0 <= t < records@.len() && record_day(#[trigger] records@[t]) >= since.days
                    && period_key(record_day(records@[t]), weekly) > after ==> period_key(
                    record_day(records@[t]),
                    weekly,
                ) >= k.days
        },
        r is None ==> forall|t: int|
            0 <= t < records@.len() && record_day(#[trigger] records@[t]) >= since.days
                ==> period_key(record_day(records@[t]), weekly) <= after,
{
    let mut best: Option<Date> = None;
    let mut i: usize = 0;
    while i < records.len()
        invariant
            i <= records@.len(),
            all_wf(records@),
            since.wf(),
            weekly ==> week_start_in_range(since),
            best matches Some(k) ==> {
                &&& k.wf()
                &&& k.days > after
                &&& is_period_key(records@, i as int, since.days as int, weekly, k.days as int)
                &&& forall|t: int|
                    0 <= t < i && record_day(#[trigger] records@[t]) >= since.days && period_key(
                        record_day(records@[t]),
                        weekly,
                    ) > after ==> period_key(record_day(records@[t]), weekly) >= k.days
            },
            best is None ==> forall|t: int|
                0 <= t < i && record_day(#[trigger] records@[t]) >= since.days ==> period_key(
                    record_day(records@[t]),
                    weekly,
                ) <= after,
        decreases records@.len() - i,
    {
        let r = &records[i];
        assert(r.timestamp.wf());
        let d = r.timestamp.date();
        if d.days >= since.days {
            proof {
                if weekly {
                    lemma_monday_monotone(since.days as int, d.days as int);
                }
            }
            let k = period_start_of(d, weekly);
            let better = (k.days as i64) > after && match best {
                Some(b) => k.days < b.days,
                None => true,
            };
            if better {
                best = Some(k);
                proof {
                    assert(record_day(records@[i as int]) >= since.days);
                }
            }
        }
        i = i + 1;
    }
    best
}

/// The first dates of the periods that hold the records dated from `since` on: each record's
/// day, or the Monday of its week when `weekly`, each once and in increasing order.
pub fn period_starts(records: &[Record], since: Date, weekly: bool) -> (keys: Vec<Date>)
    requires
        all_wf(records@),
        since.wf(),
        weekly ==> week_start_in_range(since),
    ensures
        increasing(keys@),
        forall|j: int|
            0 <= j < keys@.len() ==> (#[trigger] keys@[j]).wf() && is_period_key(
                records@,
                records@.len() as int,
                since.days as int,
                weekly,
                keys@[j].days as int,
            ),
        forall|t: int|
            0 <= t < records@.len() && record_day(#[trigger] records@[t]) >= since.days ==> exists|
                j: int,
            |
                0 <= j < keys@.len() && keys@[j].days == period_key(record_day(records@[t]), weekly),
{
    let mut keys: Vec<Date> = Vec::new();
    let mut after: i64 = MIN_DAYS as i64 - 1;
    let mut done = false;
    while !done
        invariant
            all_wf(records@),
            since.wf(),
            weekly ==> week_start_in_range(since),
            MIN_DAYS - 1 <= after <= MAX_DAYS,
            increasing(keys@),
            keys@.len() > 0 ==> keys@.last().days == after,
            forall|j: int|
                0 <= j < keys@.len() ==> (#[trigger] keys@[j]).wf() && is_period_key(
                    records@,
                    records@.len() as int,
                    since.days as int,
                    weekly,
                    keys@[j].days as int,
                ),
            forall|t: int|
                0 <= t < records@.len() && record_day(#[trigger] records@[t]) >= since.days
                    && period_key(record_day(records@[t]), weekly) <= after ==> exists|j: int|
                    0 <= j < keys@.len() && keys@[j].days == period_key(
                        record_day(records@[t]),
                        weekly,
                    ),
            done ==> forall|t: int|
                0 <= t < records@.len() && record_day(#[trigger] records@[t]) >= since.days
                    ==> period_key(record_day(records@[t]), weekly) <= after,
        decreases (if done {
            0
        } else {
            MAX_DAYS + 1 - after
        }),
    {
        match next_period_start(records, since, weekly, after) {
            Some(k) => {
                let ghost old_keys = keys@;
                let ghost old_after = after;
                keys.push(k);
                after = k.days as i64;
                proof {
                    assert forall|j: int| 0 <= j < keys@.len() implies (#[trigger] keys@[j]).wf()
                        && is_period_key(
                        records@,
                        records@.len() as int,
                        since.days as int,
                        weekly,
                        keys@[j].days as int,
                    ) by {
                        if j < old_keys.len() {
                            assert(keys@[j] == old_keys[j]);
                        }
                    }
                    assert forall|t: int|
                        0 <= t < records@.len() && record_day(#[trigger] records@[t]) >= since.days
                            && period_key(record_day(records@[t]), weekly) <= after implies exists|
                        j: int,
                    |
                        0 <= j < keys@.len() && keys@[j].days == period_key(
                            record_day(records@[t]),
                            weekly,
                        ) by {
                        if period_key(record_day(records@[t]), weekly) <= old_after {
                            let j = choose|j: int|
                                0 <= j < old_keys.len() && old_keys[j].days == period_key(
                                    record_day(records@[t]),
                                    weekly,
                                );
                            assert(keys@[j] == old_keys[j]);
                        } else {
                            assert(keys@[old_keys.len() as int].days == period_key(
                                record_day(records@[t]),
                                weekly,
                            ));
                        }
                    }
                }
            },
            None => {
                done = true;
            },
        }
    }
    keys
}

/// One period of the history: its first date, its detail rows per model, and the input, output
/// and total tokens of those rows.
#[derive(Debug)]
pub struct Period {
    pub start: Date,
    pub rows: Vec<ModelRow>,
    pub input_tokens: u64,
    pub output_tokens: u64,
    pub total_tokens: u64,
}

/// The first day a period counts from: its start, or `since` when the period starts earlier
/// (the first week of a window may begin before the window does).
pub open spec fn period_lo(k: int, since: int) -> int {
    if k >= since {
        k
    } else {
        since
    }
}

/// The records a period starting on day `k` counts: those dated from its start (and from
/// `since`) up to its end.
pub open spec fn period_range(k: int, since: int, weekly: bool) -> spec_fn(Record) -> bool {
    range_of(period_lo(k, since), period_end(k, weekly))
}

/// The rows are the detail rows of the records dated from day `lo` on and before `hi`.
pub open spec fn period_rows(rows: Seq<ModelRow>, s: Seq<Record>, lo: int, hi: Option<int>) -> bool {
    &&& forall|j: int| 0 <= j < rows.len() ==> row_matches(#[trigger] rows[j], s, lo, hi)
    &&& keys_distinct(rows)
    &&& first_record_order(rows)
    &&& all_grouped(rows, s, lo, hi)
    &&& rows_total(rows) == sum_where(s, range_of(lo, hi))
}

/// The period's totals are those of its rows.
pub open spec fn period_totals(p: Period) -> bool {
    &&& p.input_tokens == rows_input(p.rows@)
    &&& p.output_tokens == rows_output(p.rows@)
    &&& p.total_tokens == rows_total(p.rows@)
}

/// Sum of the periods' total tokens.
pub open spec fn periods_tokens(ps: Seq<Period>) -> int
    decreases ps.len(),
{
    if ps.len() == 0 {
        0
    } else {
        periods_tokens(ps.drop_last()) + ps.last().total_tokens
    }
}

/// Sum over the periods starting on `keys` of the tokens each counts among `s`.
pub open spec fn keys_sum(keys: Seq<Date>, s: Seq<Record>, since: int, weekly: bool) -> int
    decreases keys.len(),
{
    if keys.len() == 0 {
        0
    } else {
        keys_sum(keys.drop_last(), s, since, weekly) + sum_where(
            s,
            period_range(keys.last().days as int, since, weekly),
        )
    }
}

/// How many of the periods starting on `keys` count the record.
pub open spec fn key_hits(keys: Seq<Date>, x: Record, since: int, weekly: bool) -> int
    decreases keys.len(),
{
    if keys.len() == 0 {
        0
    } else {
        key_hits(keys.drop_last(), x, since, weekly) + if period_range(
            keys.last().days as int,
            since,
            weekly,
        )(x) {
            1int
        } else {
            0int
        }
    }
}

/// A period start is a start of its kind: any day for days, a Monday for weeks.
pub open spec fn key_ok(k: int, weekly: bool) -> bool {
    weekly ==> weekday_from_monday(k) == 0
}

/// Adding a record adds its tokens once for each period that counts it.
proof fn lemma_keys_sum_push(keys: Seq<Date>, s: Seq<Record>, x: Record, since: int, weekly: bool)
    ensures
        keys_sum(keys, s.push(x), since, weekly) == keys_sum(keys, s, since, weekly) + key_hits(
            keys,
            x,
            since,
            weekly,
        ) * total(x),
    decreases keys.len(),
{
    if keys.len() > 0 {
        let init = keys.drop_last();
        lemma_keys_sum_push(init, s, x, since, weekly);
        assert(s.push(x).drop_last() =~= s);
        let pr = period_range(keys.last().days as int, since, weekly);
        let h = key_hits(init, x, since, weekly);
        let b: int = if pr(x) {
            1
        } else {
            0
        };
        let t = total(x);
        assert((h + b) * t == h * t + b * t) by (nonlinear_arith);
        assert(b * t == if pr(x) {
            t
        } else {
            0
        }) by (nonlinear_arith)
            requires
                b == 0 || b == 1,
                b == 1 <==> pr(x),
        ;
    }
}

/// A period starting on a start of its kind counts exactly the records dated from `since` on
/// whose own period starts there.
proof fn lemma_in_period_range(k: int, x: Record, since: int, weekly: bool)
    requires
        key_ok(k, weekly),
        record_day(x) <= MAX_DAYS,
    ensures
        period_range(k, since, weekly)(x) <==> (record_day(x) >= since && period_key(
            record_day(x),
            weekly,
        ) == k),
{
    let d = record_day(x);
    law_day_in_its_period(d, weekly);
    if period_range(k, since, weekly)(x) {
        assert(d >= k);
        assert(d < k + if weekly {
            7int
        } else {
            1int
        });
        if weekly {
            law_week_span(k, d);
        }
    }
}

/// With strictly increasing starts of their kind, a record dated from `since` on is counted by
/// one period when its own period is among them, by none otherwise; a record before `since` by
/// none.
proof fn lemma_key_hits(keys: Seq<Date>, x: Record, since: int, weekly: bool)
    requires
        increasing(keys),
        forall|j: int| 0 <= j < keys.len() ==> key_ok(#[trigger] keys[j].days as int, weekly),
        record_day(x) <= MAX_DAYS,
    ensures
        key_hits(keys, x, since, weekly) == if record_day(x) >= since && exists|j: int|
            0 <= j < keys.len() && #[trigger] keys[j].days == period_key(record_day(x), weekly) {
            1int
        } else {
            0int
        },
    decreases keys.len(),
{
    if keys.len() > 0 {
        let init = keys.drop_last();
        let n = keys.len() - 1;
        assert forall|j: int| 0 <= j < init.len() implies key_ok(#[trigger] init[j].days as int, weekly) by {
            assert(init[j] == keys[j]);
        }
        assert(increasing(init)) by {
            assert forall|a: int, b: int| 0 <= a < b < init.len() implies #[trigger] init[a].days
                < #[trigger] init[b].days by {
                assert(init[a] == keys[a] && init[b] == keys[b]);
            }
        }
        lemma_key_hits(init, x, since, weekly);
        assert(key_ok(keys[n].days as int, weekly));
        lemma_in_period_range(keys[n].days as int, x, since, weekly);
        let kx = period_key(record_day(x), weekly);
        if keys[n].days == kx {
            assert forall|j: int| 0 <= j < init.len() implies #[trigger] init[j].days != kx by {
                assert(init[j] == keys[j]);
                assert(keys[j].days < keys[n].days);
            }
        } else {
            if exists|j: int| 0 <= j < keys.len() && #[trigger] keys[j].days == kx {
                let j = choose|j: int| 0 <= j < keys.len() && #[trigger] keys[j].days == kx;
                assert(init[j] == keys[j]);
            }
            if exists|j: int| 0 <= j < init.len() && #[trigger] init[j].days == kx {
                let j = choose|j: int| 0 <= j < init.len() && #[trigger] init[j].days == kx;
                assert(keys[j] == init[j]);
            }
        }
    }
}

/// When every record dated from `since` on has its period among strictly increasing starts of
/// their kind, the periods together count exactly the tokens of those records.
proof fn lemma_keys_sum_covers(keys: Seq<Date>, s: Seq<Record>, since: int, weekly: bool)
    requires
        increasing(keys),
        forall|j: int| 0 <= j < keys.len() ==> key_ok(#[trigger] keys[j].days as int, weekly),
        forall|t: int| 0 <= t < s.len() ==> record_day(#[trigger] s[t]) <= MAX_DAYS,
        forall|t: int|
            0 <= t < s.len() && record_day(#[trigger] s[t]) >= since ==> exists|j: int|
                0 <= j < keys.len() && keys[j].days == period_key(record_day(s[t]), weekly),
    ensures
        keys_sum(keys, s, since, weekly) == sum_where(s, since_day(since)),
    decreases s.len(),
{
    if s.len() == 0 {
        lemma_keys_sum_empty(keys, s, since, weekly);
    } else {
        let init = s.drop_last();
        let x = s.last();
        assert forall|t: int| 0 <= t < init.len() implies record_day(#[trigger] init[t]) <= MAX_DAYS by {
            assert(init[t] == s[t]);
        }
        assert forall|t: int|
            0 <= t < init.len() && record_day(#[trigger] init[t]) >= since implies exists|j: int|
                0 <= j < keys.len() && keys[j].days == period_key(record_day(init[t]), weekly) by {
            assert(init[t] == s[t]);
        }
        lemma_keys_sum_covers(keys, init, since, weekly);
        assert(s =~= init.push(x));
        lemma_keys_sum_push(keys, init, x, since, weekly);
        assert(s[s.len() - 1] == x);
        lemma_key_hits(keys, x, since, weekly);
        if record_day(x) >= since {
            let j = choose|j: int|
                0 <= j < keys.len() && keys[j].days == period_key(record_day(s[s.len() - 1]), weekly);
            assert(keys[j].days == period_key(record_day(x), weekly));
        }
        assert(init.push(x).drop_last() =~= init);
    }
}

/// Over no records every period counts nothing.
proof fn lemma_keys_sum_empty(keys: Seq<Date>, s: Seq<Record>, since: int, weekly: bool)
    requires
        s.len() == 0,
    ensures
        keys_sum(keys, s, since, weekly) == 0,
    decreases keys.len(),
{
    if keys.len() > 0 {
        lemma_keys_sum_empty(keys.drop_last(), s, since, weekly);
    }
}

/// The history of the window `scope` from `since` on: one period per day, or per week starting
/// on Monday for the month's window, oldest first, each with the detail rows of its records
/// dated from `since` on. Every record from `since` on is counted in the period of its day (or
/// of its week), and the periods' totals add up to the tokens of all records from `since` on.
pub fn history(records: &[Record], scope: Scope, since: Date) -> (periods: Vec<Period>)
    requires
        all_wf(records@),
        tokens_sum(records@) <= u64::MAX,
        since.wf(),
        scope is Month ==> week_start_in_range(since),
    ensures
        increasing(periods@.map_values(|p: Period| p.start)),
        forall|j: int|
            0 <= j < periods@.len() ==> {
                let p = #[trigger] periods@[j];
                &&& p.start.wf()
                &&& is_period_key(
                    records@,
                    records@.len() as int,
                    since.days as int,
                    scope is Month,
                    p.start.days as int,
                )
                &&& period_rows(
                    p.rows@,
                    records@,
                    period_lo(p.start.days as int, since.days as int),
                    period_end(p.start.days as int, scope is Month),
                )
                &&& period_totals(p)
            },
        forall|t: int|
            0 <= t < records@.len() && record_day(#[trigger] records@[t]) >= since.days ==> exists|
                j: int,
            |
                0 <= j < periods@.len() && periods@[j].start.days == period_key(
                    record_day(records@[t]),
                    scope is Month,
                ) && period_range(periods@[j].start.days as int, since.days as int, scope is Month)(
                    records@[t],
                ),
        periods_tokens(periods@) == sum_where(records@, since_day(since.days as int)),
{
    let weekly = match scope {
        Scope::Month => true,
        _ => false,
    };
    let keys = period_starts(records, since, weekly);
    let mut periods: Vec<Period> = Vec::new();
    let mut i: usize = 0;
    while i < keys.len()
        invariant
            i <= keys@.len(),
            weekly == scope is Month,
            all_wf(records@),
            tokens_sum(records@) <= u64::MAX,
            since.wf(),
            periods@.len() == i,
            forall|j: int| 0 <= j < i ==> (#[trigger] periods@[j]).start == keys@[j],
            forall|j: int|
                0 <= j < i ==> period_rows(
                    (#[trigger] periods@[j]).rows@,
                    records@,
                    period_lo(periods@[j].start.days as int, since.days as int),
                    period_end(periods@[j].start.days as int, weekly),
                ),
            forall|j: int| 0 <= j < i ==> period_totals(#[trigger] periods@[j]),
            forall|j: int| 0 <= j < keys@.len() ==> (#[trigger] keys@[j]).wf(),
            periods_tokens(periods@) == keys_sum(keys@.take(i as int), records@, since.days as int, weekly),
        decreases keys@.len() - i,
    {
        let k = keys[i];
        assert(k.wf());
        let until = if weekly {
            add_days(k, 7)
        } else {
            next_day(k)
        };
        assert(end_day(until) == period_end(k.days as int, weekly));
        let lo = if k.days >= since.days {
            k
        } else {
            since
        };
        let rows = group_by_model(records, lo, until);
        proof {
            lemma_sum_where_le_total(records@, range_of(lo.days as int, end_day(until)));
        }
        let (input_tokens, output_tokens, total_tokens) = rows_sums(rows.as_slice());
        let ghost old_periods = periods@;
        periods.push(Period { start: k, rows, input_tokens, output_tokens, total_tokens });
        proof {
            assert forall|j: int| 0 <= j < i + 1 implies period_totals(#[trigger] periods@[j]) by {
                if j < i {
                    assert(periods@[j] == old_periods[j]);
                }
            }
            assert forall|j: int| 0 <= j < i + 1 implies period_rows(
                (#[trigger] periods@[j]).rows@,
                records@,
                period_lo(periods@[j].start.days as int, since.days as int),
                period_end(periods@[j].start.days as int, weekly),
            ) by {
                if j < i {
                    assert(periods@[j] == old_periods[j]);
                }
            }
            assert(periods@.drop_last() =~= old_periods);
            assert(keys@.take(i + 1).drop_last() =~= keys@.take(i as int));
            assert(keys@.take(i + 1).last() == k);
        }
        i = i + 1;
    }
    proof {
        assert(periods@.map_values(|p: Period| p.start) =~= keys@);
        assert(keys@.take(keys@.len() as int) =~= keys@);
        assert forall|t: int|
            0 <= t < records@.len() && record_day(#[trigger] records@[t]) >= since.days implies exists|
            j: int,
        |
            0 <= j < periods@.len() && periods@[j].start.days == period_key(
                record_day(records@[t]),
                weekly,
            ) && period_range(periods@[j].start.days as int, since.days as int, weekly)(
                records@[t],
            ) by {
            let j = choose|j: int|
                0 <= j < keys@.len() && keys@[j].days == period_key(record_day(records@[t]), weekly);
            assert(periods@[j].start == keys@[j]);
            law_day_in_its_period(record_day(records@[t]), weekly);
        }
        assert forall|j: int| 0 <= j < keys@.len() implies key_ok(#[trigger] keys@[j].days as int, weekly) by {
            if weekly {
                let t = choose|t: int|
                    0 <= t < records@.len() && record_day(#[trigger] records@[t]) >= since.days
                        && period_key(record_day(records@[t]), weekly) == keys@[j].days;
                lemma_monday_key(record_day(records@[t]));
            }
        }
        assert forall|t: int| 0 <= t < records@.len() implies record_day(#[trigger] records@[t])
            <= MAX_DAYS by {
            assert(records@[t].timestamp.wf());
        }
        lemma_keys_sum_covers(keys@, records@, since.days as int, weekly);
    }
    periods
}

} // verus!
