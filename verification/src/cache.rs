//! The usage cache's decisions: the SQL text and parameters that select cached entries by date
//! and provider, the statement that prunes preserved entries, when file discovery is due again,
//! and which cached source files are to be preserved. Running the statements against the
//! database is done by the caller.

use crate::date::{
    date_text, iso_date_text, next_day, now_utc, parse_rfc3339, rfc3339_instant, Date, MAX_DAYS,
};
use crate::record::Record;
use crate::text::{
    count_char, count_in_parts, join, join_with, lemma_count_concat, lemma_count_join,
    lemma_count_parts_concat, texts,
};
use vstd::arithmetic::div_mod::lemma_fundamental_div_mod;
use vstd::prelude::*;

verus! {

/// The columns a cached entry is read from, in the order the reader expects them, as the
/// comma-separated list that a query selects.
pub open spec fn entry_columns_text() -> Seq<char> {
    "provider, timestamp, model, "@ + "input_tokens, output_tokens, "@ + "cache_read_tokens, "@
        + "cache_creation_tokens, "@ + "thinking_tokens, cost_usd, "@ + "message_id, request_id, "@
        + "session_id"@
}

/// The list of columns a cached entry is read from (see `entry_columns_text`).
pub fn entry_columns() -> (s: String)
    ensures
        s@ == entry_columns_text(),
{
    let mut s = "provider, timestamp, model, ".to_string();
    s.append("input_tokens, output_tokens, ");
    s.append("cache_read_tokens, ");
    s.append("cache_creation_tokens, ");
    s.append("thinking_tokens, cost_usd, ");
    s.append("message_id, request_id, ");
    s.append("session_id");
    s
}

/// A statement's SQL text and the text values bound to its `?` placeholders, in order.
#[derive(Debug)]
pub struct Query {
    pub sql: String,
    pub params: Vec<String>,
}

/// The `?` placeholders of `"provider IN (?,?,...)"` for `n` providers.
pub open spec fn question_marks(n: nat) -> Seq<Seq<char>> {
    Seq::new(n, |i: int| "?"@)
}

/// The conditions of the entry query, in order: a lower date bound, an upper date bound when the
/// day after `until` exists, and a provider list when one is given.
pub open spec fn filter_conditions(
    since: Option<Date>,
    until: Option<Date>,
    n_providers: nat,
) -> Seq<Seq<char>> {
    (if since is Some {
        seq!["timestamp >= ?"@]
    } else {
        Seq::empty()
    }) + (match until {
        Some(u) => if u.days < MAX_DAYS {
            seq!["timestamp < ?"@]
        } else {
            Seq::empty()
        },
        None => Seq::empty(),
    }) + (if n_providers > 0 {
        seq!["provider IN ("@ + join(question_marks(n_providers), ","@) + ")"@]
    } else {
        Seq::empty()
    })
}

/// The values bound to the entry query's placeholders: the first day, the day after the last
/// day, then the providers.
pub open spec fn filter_params(
    since: Option<Date>,
    until: Option<Date>,
    providers: Seq<Seq<char>>,
) -> Seq<Seq<char>> {
    (match since {
        Some(s) => seq![iso_date_text(s.days as int)],
        None => Seq::empty(),
    }) + (match until {
        Some(u) => if u.days < MAX_DAYS {
            seq![iso_date_text(u.days + 1)]
        } else {
            Seq::empty()
        },
        None => Seq::empty(),
    }) + providers
}

/// The `WHERE` part of the entry query: nothing without conditions, else the conditions joined
/// with `AND`.
pub open spec fn where_clause(conds: Seq<Seq<char>>) -> Seq<char> {
    if conds.len() == 0 {
        Seq::empty()
    } else {
        " WHERE "@ + join(conds, " AND "@)
    }
}

/// The SQL text of the entry query, ordered by timestamp.
pub open spec fn filtered_sql(conds: Seq<Seq<char>>) -> Seq<char> {
    "SELECT "@ + entry_columns_text() + " FROM usage_entries"@ + where_clause(conds) + " ORDER BY timestamp"@
}

/// The query that loads cached entries dated on or after `since`, before the day after `until`,
/// and from one of `providers` (no provider given: any provider). When `until` is chrono's last
/// date the upper bound is left out.
pub fn filtered_entries_query(
    since: Option<Date>,
    until: Option<Date>,
    providers: &Vec<String>,
) -> (q: Query)
    requires
        since matches Some(s) ==> s.wf(),
        until matches Some(u) ==> u.wf(),
    ensures
        q.sql@ == filtered_sql(filter_conditions(since, until, providers@.len())),
        texts(q.params@) == filter_params(since, until, texts(providers@)),
{
    let mut conditions: Vec<String> = Vec::new();
    let mut params: Vec<String> = Vec::new();
    if let Some(s) = since {
        conditions.push("timestamp >= ?".to_string());
        params.push(date_text(s));
    }
    if let Some(u) = until {
        if let Some(next) = next_day(u) {
            conditions.push("timestamp < ?".to_string());
            params.push(date_text(next));
        }
    }
    let ghost before_providers = texts(params@);
    if providers.len() > 0 {
        let mut placeholders: Vec<String> = Vec::new();
        let mut i: usize = 0;
        while i < providers.len()
            invariant
                i <= providers@.len(),
                texts(placeholders@) =~= question_marks(i as nat),
                texts(params@) =~= before_providers + texts(providers@).take(i as int),
            decreases providers@.len() - i,
        {
            let ghost old_marks = texts(placeholders@);
            let ghost old_params = texts(params@);
            placeholders.push("?".to_string());
            params.push(providers[i].clone());
            proof {
                assert(texts(placeholders@) =~= old_marks.push("?"@));
                assert(texts(params@) =~= old_params.push(providers@[i as int]@));
                assert(texts(providers@).take(i + 1) =~= texts(providers@).take(i as int).push(
                    providers@[i as int]@,
                ));
            }
            i = i + 1;
        }
        let mut cond = "provider IN (".to_string();
        let joined = join_with(&placeholders, ",");
        cond.append(joined.as_str());
        cond.append(")");
        conditions.push(cond);
        assert(texts(providers@).take(providers@.len() as int) =~= texts(providers@));
    }
    assert(texts(conditions@) =~= filter_conditions(since, until, providers@.len()));
    assert(texts(params@) =~= filter_params(since, until, texts(providers@)));
    let mut sql = "SELECT ".to_string();
    let cols = entry_columns();
    sql.append(cols.as_str());
    sql.append(" FROM usage_entries");
    if conditions.len() > 0 {
        sql.append(" WHERE ");
        let joined = join_with(&conditions, " AND ");
        sql.append(joined.as_str());
    }
    sql.append(" ORDER BY timestamp");
    Query { sql, params }
}

/// The query that loads every cached entry, ordered by timestamp.
pub fn all_entries_query() -> (q: Query)
    ensures
        q.sql@ == filtered_sql(Seq::empty()),
        q.params@.len() == 0,
{
    let mut sql = "SELECT ".to_string();
    let cols = entry_columns();
    sql.append(cols.as_str());
    sql.append(" FROM usage_entries");
    sql.append(" ORDER BY timestamp");
    Query { sql, params: Vec::new() }
}

/// The column list holds no placeholder.
proof fn lemma_columns_have_no_placeholder()
    ensures
        count_char(entry_columns_text(), '?') == 0,
{
    reveal_strlit("provider, timestamp, model, ");
    reveal_strlit("input_tokens, output_tokens, ");
    reveal_strlit("cache_read_tokens, ");
    reveal_strlit("cache_creation_tokens, ");
    reveal_strlit("thinking_tokens, cost_usd, ");
    reveal_strlit("message_id, request_id, ");
    reveal_strlit("session_id");
    reveal_with_fuel(count_char, 31);
    let p1 = "provider, timestamp, model, "@;
    let p2 = "input_tokens, output_tokens, "@;
    let p3 = "cache_read_tokens, "@;
    let p4 = "cache_creation_tokens, "@;
    let p5 = "thinking_tokens, cost_usd, "@;
    let p6 = "message_id, request_id, "@;
    let p7 = "session_id"@;
    assert(count_char(p1, '?') == 0);
    assert(count_char(p2, '?') == 0);
    assert(count_char(p3, '?') == 0);
    assert(count_char(p4, '?') == 0);
    assert(count_char(p5, '?') == 0);
    assert(count_char(p6, '?') == 0);
    assert(count_char(p7, '?') == 0);
    lemma_count_concat(p1, p2, '?');
    lemma_count_concat(p1 + p2, p3, '?');
    lemma_count_concat(p1 + p2 + p3, p4, '?');
    lemma_count_concat(p1 + p2 + p3 + p4, p5, '?');
    lemma_count_concat(p1 + p2 + p3 + p4 + p5, p6, '?');
    lemma_count_concat(p1 + p2 + p3 + p4 + p5 + p6, p7, '?');
}

/// `n` placeholders hold `n` question marks.
proof fn lemma_question_marks(n: nat)
    ensures
        count_in_parts(question_marks(n), '?') == n,
    decreases n,
{
    if n > 0 {
        reveal_strlit("?");
        reveal_with_fuel(count_char, 2);
        assert(question_marks(n).drop_last() =~= question_marks((n - 1) as nat));
        assert(count_char("?"@, '?') == 1);
        lemma_question_marks((n - 1) as nat);
    }
}

/// Without dates or providers the entry query has no conditions and binds nothing: it is the
/// query that loads every entry.
pub proof fn law_no_filter_loads_all(providers: Seq<Seq<char>>)
    requires
        providers.len() == 0,
    ensures
        filter_conditions(None, None, providers.len()) == Seq::<Seq<char>>::empty(),
        filter_params(None, None, providers) == Seq::<Seq<char>>::empty(),
{
    assert(filter_conditions(None, None, 0) =~= Seq::<Seq<char>>::empty());
    assert(filter_params(None, None, providers) =~= Seq::<Seq<char>>::empty());
}

/// The placeholders of the conditions number as many as the values bound to them.
proof fn lemma_condition_placeholders(since: Option<Date>, until: Option<Date>, n: nat)
    ensures
        count_in_parts(filter_conditions(since, until, n), '?') == (if since is Some {
            1int
        } else {
            0int
        }) + (if until matches Some(u) && u.days < MAX_DAYS {
            1int
        } else {
            0int
        }) + n,
{
    reveal_strlit("timestamp >= ?");
    reveal_strlit("timestamp < ?");
    reveal_strlit("provider IN (");
    reveal_strlit(")");
    reveal_strlit(",");
    reveal_with_fuel(count_char, 16);
    reveal_with_fuel(count_in_parts, 2);
    let a: Seq<Seq<char>> = if since is Some {
        seq!["timestamp >= ?"@]
    } else {
        Seq::empty()
    };
    let b: Seq<Seq<char>> = match until {
        Some(u) => if u.days < MAX_DAYS {
            seq!["timestamp < ?"@]
        } else {
            Seq::empty()
        },
        None => Seq::empty(),
    };
    let pc = "provider IN ("@ + join(question_marks(n), ","@) + ")"@;
    let c: Seq<Seq<char>> = if n > 0 {
        seq![pc]
    } else {
        Seq::empty()
    };
    assert(filter_conditions(since, until, n) == a + b + c);
    assert(count_char("timestamp >= ?"@, '?') == 1);
    assert(count_char("timestamp < ?"@, '?') == 1);
    assert(count_char("provider IN ("@, '?') == 0);
    assert(count_char(")"@, '?') == 0);
    assert(count_char(","@, '?') == 0);
    lemma_question_marks(n);
    lemma_count_join(question_marks(n), ","@, '?');
    lemma_count_concat("provider IN ("@, join(question_marks(n), ","@), '?');
    lemma_count_concat("provider IN ("@ + join(question_marks(n), ","@), ")"@, '?');
    assert(seq![pc].drop_last() =~= Seq::<Seq<char>>::empty());
    lemma_count_parts_concat(a, b, '?');
    lemma_count_parts_concat(a + b, c, '?');
}

/// The entry query has exactly one placeholder per value bound to it, whatever dates and
/// providers it is built from.
pub proof fn law_placeholders_match_params(
    since: Option<Date>,
    until: Option<Date>,
    providers: Seq<Seq<char>>,
)
    ensures
        count_char(filtered_sql(filter_conditions(since, until, providers.len())), '?')
            == filter_params(since, until, providers).len(),
{
    let conds = filter_conditions(since, until, providers.len());
    reveal_strlit("SELECT ");
    reveal_strlit(" FROM usage_entries");
    reveal_strlit(" WHERE ");
    reveal_strlit(" AND ");
    reveal_strlit(" ORDER BY timestamp");
    reveal_with_fuel(count_char, 20);
    assert(count_char("SELECT "@, '?') == 0);
    assert(count_char(" FROM usage_entries"@, '?') == 0);
    assert(count_char(" WHERE "@, '?') == 0);
    assert(count_char(" AND "@, '?') == 0);
    assert(count_char(" ORDER BY timestamp"@, '?') == 0);
    lemma_columns_have_no_placeholder();
    lemma_condition_placeholders(since, until, providers.len());
    lemma_count_join(conds, " AND "@, '?');
    lemma_count_concat(" WHERE "@, join(conds, " AND "@), '?');
    assert(count_char(Seq::<char>::empty(), '?') == 0);
    let w = where_clause(conds);
    lemma_count_concat("SELECT "@, entry_columns_text(), '?');
    lemma_count_concat("SELECT "@ + entry_columns_text(), " FROM usage_entries"@, '?');
    lemma_count_concat("SELECT "@ + entry_columns_text() + " FROM usage_entries"@, w, '?');
    lemma_count_concat(
        "SELECT "@ + entry_columns_text() + " FROM usage_entries"@ + w,
        " ORDER BY timestamp"@,
        '?',
    );
}

/// A cached entry read back from its columns (the order of `entry_columns_text`, cost left to
/// the caller): the stored RFC 3339 timestamp is parsed, and when it cannot be the entry is
/// dated now on the system clock; the stored token counts are taken as the unsigned values of
/// the same bits. `None` only when the timestamp cannot be parsed and the clock reads before
/// the Unix epoch or past chrono's last date.
pub fn entry_from_row(
    provider: String,
    timestamp_text: &str,
    model: Option<String>,
    input_tokens: i64,
    output_tokens: i64,
    cache_read_tokens: i64,
    cache_creation_tokens: i64,
    thinking_tokens: i64,
    message_id: Option<String>,
    request_id: Option<String>,
    session_id: Option<String>,
) -> (r: Option<Record>)
    ensures
        rfc3339_instant(timestamp_text@) is Some ==> r is Some,
        r matches Some(r) ==> {
            &&& rfc3339_instant(timestamp_text@) matches Some(t) ==> r.timestamp == t
            &&& r.timestamp.wf()
            &&& r.provider == provider
            &&& r.model == model
            &&& r.input_tokens == input_tokens as u64
            &&& r.output_tokens == output_tokens as u64
            &&& r.cache_read_tokens == cache_read_tokens as u64
            &&& r.cache_creation_tokens == cache_creation_tokens as u64
            &&& r.thinking_tokens == thinking_tokens as u64
            &&& r.message_id == message_id
            &&& r.request_id == request_id
            &&& r.session_id == session_id
        },
{
    let timestamp = match parse_rfc3339(timestamp_text) {
        Some(t) => t,
        None => match now_utc() {
            Some(t) => t,
            None => {
                return None;
            },
        },
    };
    Some(Record {
        timestamp,
        provider,
        model,
        input_tokens: input_tokens as u64,
        output_tokens: output_tokens as u64,
        cache_read_tokens: cache_read_tokens as u64,
        cache_creation_tokens: cache_creation_tokens as u64,
        thinking_tokens: thinking_tokens as u64,
        message_id,
        request_id,
        session_id,
    })
}

/// The statement that deletes the preserved entries dated before `before`, with its value.
pub fn prune_before_query(before: Date) -> (q: Query)
    requires
        before.wf(),
    ensures
        q.sql@ == "DELETE FROM usage_entries WHERE preserved = 1 AND timestamp < ?1"@,
        texts(q.params@) == seq![iso_date_text(before.days as int)],
{
    let sql = "DELETE FROM usage_entries WHERE preserved = 1 AND timestamp < ?1".to_string();
    let mut params: Vec<String> = Vec::new();
    params.push(date_text(before));
    assert(texts(params@) =~= seq![iso_date_text(before.days as int)]);
    Query { sql, params }
}

/// The value of a text of decimal digits.
pub open spec fn decimal_value(d: Seq<char>) -> int
    decreases d.len(),
{
    if d.len() == 0 {
        0
    } else {
        decimal_value(d.drop_last()) * 10 + (d.last() as int - '0' as int)
    }
}

/// Every character is an ASCII decimal digit.
pub open spec fn all_digits(d: Seq<char>) -> bool {
    forall|i: int| 0 <= i < d.len() ==> '0' <= #[trigger] d[i] <= '9'
}

/// What std's `str::parse::<u64>` gives: an optional `+` followed by one or more decimal digits
/// whose value fits in a `u64`; anything else is refused.
pub open spec fn u64_from_text(s: Seq<char>) -> Option<u64> {
    let d = if s.len() > 0 && s[0] == '+' {
        s.skip(1)
    } else {
        s
    };
    if d.len() > 0 && all_digits(d) && decimal_value(d) <= u64::MAX {
        Some(decimal_value(d) as u64)
    } else {
        None
    }
}

/// A decimal value never shrinks when digits are added at its end.
proof fn lemma_decimal_prefix_le(d: Seq<char>, k: int)
    requires
        all_digits(d),
        0 <= k <= d.len(),
    ensures
        0 <= decimal_value(d.take(k)) <= decimal_value(d),
    decreases d.len() - k,
{
    if k < d.len() {
        lemma_decimal_prefix_le(d, k + 1);
        assert(d.take(k + 1).drop_last() =~= d.take(k));
        assert('0' <= d[k] <= '9');
        lemma_decimal_nonneg(d.take(k));
    } else {
        assert(d.take(k) =~= d);
        lemma_decimal_nonneg(d);
    }
}

/// The value of digits is never negative.
proof fn lemma_decimal_nonneg(d: Seq<char>)
    requires
        all_digits(d),
    ensures
        decimal_value(d) >= 0,
    decreases d.len(),
{
    if d.len() > 0 {
        assert(all_digits(d.drop_last())) by {
            assert forall|i: int| 0 <= i < d.drop_last().len() implies '0' <= #[trigger] d.drop_last()[i] <= '9' by {
                assert(d.drop_last()[i] == d[i]);
            }
        }
        lemma_decimal_nonneg(d.drop_last());
        assert('0' <= d[d.len() - 1] <= '9');
    }
}

/// Reads a text as an unsigned number the way std's `str::parse::<u64>` does (see
/// `u64_from_text`): an optional `+` followed by one or more decimal digits whose value fits.
pub fn parse_u64(s: &str) -> (r: Option<u64>)
    ensures
        r == u64_from_text(s@),
{
    let n = s.unicode_len();
    let start: usize = if n > 0 && s.get_char(0) == '+' {
        1
    } else {
        0
    };
    let ghost d = if s@.len() > 0 && s@[0] == '+' {
        s@.skip(1)
    } else {
        s@
    };
    assert(d =~= s@.skip(start as int));
    if start == n {
        return None;
    }
    let mut v: u64 = 0;
    let mut i: usize = start;
    while i < n
        invariant
            start <= i <= n,
            n == s@.len(),
            d =~= s@.skip(start as int),
            d == (if s@.len() > 0 && s@[0] == '+' {
                s@.skip(1)
            } else {
                s@
            }),
            all_digits(d.take(i - start)),
            v == decimal_value(d.take(i - start)),
        decreases n - i,
    {
        let c = s.get_char(i);
        let ghost k: int = i - start;
        proof {
            assert(d[k] == c);
            assert(d.take(k + 1).drop_last() =~= d.take(k));
            assert(d.take(k + 1).last() == c);
        }
        if c < '0' || c > '9' {
            assert(!all_digits(d));
            return None;
        }
        let digit: u64 = (c as u32 - '0' as u32) as u64;
        assert(all_digits(d.take(k + 1))) by {
            assert forall|m: int| 0 <= m < k + 1 implies '0' <= #[trigger] d.take(k + 1)[m] <= '9' by {
                if m < k {
                    assert(d.take(k + 1)[m] == d.take(k)[m]);
                }
            }
        }
        if v > (u64::MAX - digit) / 10 {
            proof {
                if all_digits(d) {
                    lemma_decimal_prefix_le(d, k + 1);
                }
            }
            return None;
        }
        v = v * 10 + digit;
        i = i + 1;
    }
    assert(d.take(n - start) =~= d);
    Some(v)
}

/// The decimal digit character of a value below ten.
pub open spec fn digit_char(d: int) -> char {
    if d == 0 {
        '0'
    } else if d == 1 {
        '1'
    } else if d == 2 {
        '2'
    } else if d == 3 {
        '3'
    } else if d == 4 {
        '4'
    } else if d == 5 {
        '5'
    } else if d == 6 {
        '6'
    } else if d == 7 {
        '7'
    } else if d == 8 {
        '8'
    } else {
        '9'
    }
}

/// A digit character is an ASCII digit of the value.
proof fn lemma_digit_char(d: int)
    requires
        0 <= d < 10,
    ensures
        '0' <= digit_char(d) <= '9',
        digit_char(d) as int - '0' as int == d,
{
}

/// The decimal digits of a number, most significant first, without leading zeros.
pub open spec fn decimal_digits(n: nat) -> Seq<char>
    decreases n,
{
    if n < 10 {
        seq![digit_char(n as int)]
    } else {
        decimal_digits(n / 10).push(digit_char((n % 10) as int))
    }
}

/// The one-character text of a decimal digit.
fn digit_text(d: u64) -> (t: &'static str)
    requires
        d < 10,
    ensures
        t@ == seq![digit_char(d as int)],
{
    proof {
        reveal_strlit("0");
        reveal_strlit("1");
        reveal_strlit("2");
        reveal_strlit("3");
        reveal_strlit("4");
        reveal_strlit("5");
        reveal_strlit("6");
        reveal_strlit("7");
        reveal_strlit("8");
        reveal_strlit("9");
    }
    match d {
        0 => "0",
        1 => "1",
        2 => "2",
        3 => "3",
        4 => "4",
        5 => "5",
        6 => "6",
        7 => "7",
        8 => "8",
        _ => "9",
    }
}

/// Appends the decimal digits of `n` to `out`.
fn append_decimal(out: &mut String, n: u64)
    ensures
        final(out)@ == old(out)@ + decimal_digits(n as nat),
    decreases n,
{
    if n >= 10 {
        append_decimal(out, n / 10);
    }
    out.append(digit_text(n % 10));
    proof {
        if n >= 10 {
            assert(decimal_digits(n as nat) =~= decimal_digits((n / 10) as nat) + seq![digit_char((n % 10) as int)]);
        }
    }
}

/// The decimal text of a number, as std's `u64::to_string` writes it: its digits, most
/// significant first, with no sign and no leading zeros.
pub fn decimal_text(n: u64) -> (s: String)
    ensures
        s@ == decimal_digits(n as nat),
        u64_from_text(s@) == Some(n),
{
    let mut s = String::new();
    append_decimal(&mut s, n);
    assert(s@ =~= decimal_digits(n as nat));
    proof {
        lemma_decimal_round_trip(n as nat);
    }
    s
}

/// The digits of a number read back give the number.
pub proof fn lemma_decimal_round_trip(n: nat)
    requires
        n <= u64::MAX,
    ensures
        decimal_digits(n).len() > 0,
        all_digits(decimal_digits(n)),
        decimal_value(decimal_digits(n)) == n,
        decimal_digits(n)[0] != '+',
        u64_from_text(decimal_digits(n)) == Some(n as u64),
    decreases n,
{
    let ds = decimal_digits(n);
    lemma_digit_char((n % 10) as int);
    if n < 10 {
        assert(ds.drop_last() =~= Seq::<char>::empty());
        assert(n % 10 == n);
        assert(ds[0] == digit_char(n as int));
        assert(ds.last() == digit_char(n as int));
        assert(decimal_value(ds) == decimal_value(ds.drop_last()) * 10 + (ds.last() as int - '0' as int));
        assert forall|i: int| 0 <= i < ds.len() implies '0' <= #[trigger] ds[i] <= '9' by {}
    } else {
        lemma_decimal_round_trip(n / 10);
        let pre = decimal_digits(n / 10);
        assert(ds.drop_last() =~= pre);
        assert(ds[0] == pre[0]);
        assert forall|i: int| 0 <= i < ds.len() implies '0' <= #[trigger] ds[i] <= '9' by {
            if i < pre.len() {
                assert(ds[i] == pre[i]);
            }
        }
        lemma_fundamental_div_mod(n as int, 10);
        assert(ds.last() == digit_char((n % 10) as int));
        assert(decimal_value(ds) == decimal_value(pre) * 10 + (ds.last() as int - '0' as int));
        assert(decimal_value(ds) == n);
    }
}

/// Whether file discovery is due again: always when no discovery time is stored; otherwise when
/// more than `max_age_secs` seconds have passed since the stored time (a stored text that is not
/// a number counts as time 0, and a stored time later than `now_secs` as no time passed).
pub open spec fn discovery_due(stored: Option<Seq<char>>, now_secs: u64, max_age_secs: u64) -> bool {
    match stored {
        None => true,
        Some(v) => {
            let last: u64 = match u64_from_text(v) {
                Some(t) => t,
                None => 0,
            };
            now_secs.saturating_sub(last) > max_age_secs
        },
    }
}

/// Decides whether file discovery is due again, from the stored time of the last discovery
/// (`None` when none is stored), the current time and the largest age allowed, all in seconds
/// since the Unix epoch.
pub fn rediscovery_due(stored: Option<&str>, now_secs: u64, max_age_secs: u64) -> (due: bool)
    ensures
        due == discovery_due(
            match stored {
                Some(v) => Some(v@),
                None => None,
            },
            now_secs,
            max_age_secs,
        ),
{
    match stored {
        None => true,
        Some(v) => {
            let last = match parse_u64(v) {
                Some(t) => t,
                None => 0,
            };
            now_secs.saturating_sub(last) > max_age_secs
        },
    }
}

/// Once discovery is due it stays due as time goes on.
pub proof fn law_discovery_due_stays_due(
    stored: Option<Seq<char>>,
    now: u64,
    later: u64,
    max_age_secs: u64,
)
    requires
        now <= later,
        discovery_due(stored, now, max_age_secs),
    ensures
        discovery_due(stored, later, max_age_secs),
{
}

/// A discovery stored as happening at `now` or later is not due at `now`.
pub proof fn law_fresh_discovery_not_due(stored: Seq<char>, t: u64, now: u64, max_age_secs: u64)
    requires
        u64_from_text(stored) == Some(t),
        now <= t,
    ensures
        !discovery_due(Some(stored), now, max_age_secs),
{
}

/// A discovery time written as `decimal_text(t)` reads back as `t`: at any later time `now` it is
/// due exactly when more than `max_age_secs` seconds have passed since `t`, and with no stored
/// time it is always due.
pub proof fn law_stored_discovery_round_trip(t: u64, now: u64, max_age_secs: u64)
    requires
        t <= now,
    ensures
        discovery_due(Some(decimal_digits(t as nat)), now, max_age_secs) == (now - t > max_age_secs),
        discovery_due(None, now, max_age_secs),
{
    lemma_decimal_round_trip(t as nat);
}

/// The cached files, in their order, that are not among the discovered ones.
pub open spec fn absent_files(cached: Seq<Seq<char>>, discovered: Seq<Seq<char>>) -> Seq<Seq<char>>
    decreases cached.len(),
{
    if cached.len() == 0 {
        Seq::empty()
    } else {
        absent_files(cached.drop_last(), discovered) + if discovered.contains(cached.last()) {
            Seq::empty()
        } else {
            seq![cached.last()]
        }
    }
}

/// The files whose entries are to be marked preserved: none when no file was discovered at all;
/// otherwise the cached source files, in order, that are no longer among the discovered ones.
pub open spec fn files_to_preserve_spec(
    discovered: Seq<Seq<char>>,
    cached: Seq<Seq<char>>,
) -> Seq<Seq<char>> {
    if discovered.len() == 0 {
        Seq::empty()
    } else {
        absent_files(cached, discovered)
    }
}

/// Whether `s` is among the strings of `v`.
fn contains_text(v: &Vec<String>, s: &String) -> (r: bool)
    ensures
        r == texts(v@).contains(s@),
{
    let mut i: usize = 0;
    while i < v.len()
        invariant
            i <= v@.len(),
            forall|k: int| 0 <= k < i ==> v@[k]@ != s@,
        decreases v@.len() - i,
    {
        if v[i] == *s {
            assert(texts(v@)[i as int] == s@);
            return true;
        }
        i = i + 1;
    }
    proof {
        if texts(v@).contains(s@) {
            let k = choose|k: int| 0 <= k < texts(v@).len() && texts(v@)[k] == s@;
            assert(v@[k]@ == s@);
        }
    }
    false
}

/// Chooses the cached source files whose entries are to be marked preserved because their files
/// no longer exist: given the files found on disk now (`discovered`) and the distinct source
/// files of the not-yet-preserved cached entries (`cached`).
pub fn files_to_preserve(discovered: &Vec<String>, cached: &Vec<String>) -> (r: Vec<String>)
    ensures
        texts(r@) == files_to_preserve_spec(texts(discovered@), texts(cached@)),
{
    let mut r: Vec<String> = Vec::new();
    if discovered.len() == 0 {
        assert(texts(r@) =~= Seq::<Seq<char>>::empty());
        return r;
    }
    let ghost cs = texts(cached@);
    let ghost ds = texts(discovered@);
    let mut i: usize = 0;
    while i < cached.len()
        invariant
            i <= cached@.len(),
            cs == texts(cached@),
            ds == texts(discovered@),
            texts(r@) == absent_files(cs.take(i as int), ds),
        decreases cached@.len() - i,
    {
        proof {
            assert(cs.take(i + 1).drop_last() =~= cs.take(i as int));
            assert(cs.take(i + 1).last() == cached@[i as int]@);
        }
        let ghost before = texts(r@);
        if !contains_text(discovered, &cached[i]) {
            r.push(cached[i].clone());
            assert(texts(r@) =~= before + seq![cached@[i as int]@]);
        } else {
            assert(texts(r@) =~= before + Seq::<Seq<char>>::empty());
        }
        i = i + 1;
    }
    assert(cs.take(cached@.len() as int) =~= cs);
    r
}

/// A file is kept by `absent_files` exactly when it is cached and not discovered.
proof fn lemma_absent_files_members(cached: Seq<Seq<char>>, discovered: Seq<Seq<char>>, f: Seq<char>)
    ensures
        absent_files(cached, discovered).contains(f) <==> (cached.contains(f)
            && !discovered.contains(f)),
    decreases cached.len(),
{
    if cached.len() > 0 {
        let rest = cached.drop_last();
        lemma_absent_files_members(rest, discovered, f);
        let tail: Seq<Seq<char>> = if discovered.contains(cached.last()) {
            Seq::empty()
        } else {
            seq![cached.last()]
        };
        let a = absent_files(rest, discovered);
        assert(absent_files(cached, discovered) == a + tail);
        if (a + tail).contains(f) {
            let k = choose|k: int| 0 <= k < (a + tail).len() && (a + tail)[k] == f;
            if k < a.len() {
                assert(a[k] == f);
            } else {
                assert(tail[k - a.len()] == f);
            }
        }
        if cached.contains(f) && !discovered.contains(f) {
            let k = choose|k: int| 0 <= k < cached.len() && cached[k] == f;
            if k < rest.len() {
                assert(rest[k] == f);
                assert(a.contains(f));
                let j = choose|j: int| 0 <= j < a.len() && a[j] == f;
                assert((a + tail)[j] == f);
            } else {
                assert(tail[0] == f);
                assert((a + tail)[a.len() as int] == f);
            }
        }
        if a.contains(f) {
            let j = choose|j: int| 0 <= j < a.len() && a[j] == f;
            assert(rest.contains(f));
            let k = choose|k: int| 0 <= k < rest.len() && rest[k] == f;
            assert(cached[k] == f);
        }
    }
}

/// With no file discovered nothing is marked preserved; otherwise exactly the cached files that
/// were not discovered are.
pub proof fn law_preserve_exactly_missing(
    discovered: Seq<Seq<char>>,
    cached: Seq<Seq<char>>,
    f: Seq<char>,
)
    ensures
        discovered.len() == 0 ==> files_to_preserve_spec(discovered, cached).len() == 0,
        discovered.len() > 0 ==> (files_to_preserve_spec(discovered, cached).contains(f) <==> (
        cached.contains(f) && !discovered.contains(f))),
{
    lemma_absent_files_members(cached, discovered, f);
}

} // verus!
