//! The detail table's rows: the records of a date range grouped by model and provider, with
//! their token sums and request counts, and the positions of the records in each group (by
//! which the caller adds up the groups' costs).

use crate::date::Date;
use crate::record::{
    all_wf, lemma_sum_where_le_total, lemma_sum_where_step, lemma_total_le_sum, record_day,
    sum_where, tokens_sum, total, Record,
};
use vstd::prelude::*;

verus! {

/// One row of the detail table: a model and provider, the token sums and the number of their
/// records, and the positions of those records in the input, in increasing order.
#[derive(Debug)]
pub struct ModelRow {
    pub model: Option<String>,
    pub provider: String,
    pub input_tokens: u64,
    pub output_tokens: u64,
    pub cache_read_tokens: u64,
    pub cache_creation_tokens: u64,
    pub thinking_tokens: u64,
    pub total_tokens: u64,
    pub request_count: u64,
    pub members: Vec<usize>,
}

/// The text of an optional model name.
pub open spec fn model_text(m: Option<String>) -> Option<Seq<char>> {
    match m {
        Some(s) => Some(s@),
        None => None,
    }
}

/// A record dated from day `lo` on and, when `hi` is given, before day `hi`.
pub open spec fn in_range(r: Record, lo: int, hi: Option<int>) -> bool {
    &&& record_day(r) >= lo
    &&& match hi {
        Some(h) => record_day(r) < h,
        None => true,
    }
}

/// A record of the given model and provider.
pub open spec fn has_key(r: Record, model: Option<Seq<char>>, provider: Seq<char>) -> bool {
    model_text(r.model) == model && r.provider@ == provider
}

/// Records in the date range with the given model and provider.
pub open spec fn in_group(
    lo: int,
    hi: Option<int>,
    model: Option<Seq<char>>,
    provider: Seq<char>,
) -> spec_fn(Record) -> bool {
    |r: Record| in_range(r, lo, hi) && has_key(r, model, provider)
}

/// The group a row stands for.
pub open spec fn row_group(row: ModelRow, lo: int, hi: Option<int>) -> spec_fn(Record) -> bool {
    in_group(lo, hi, model_text(row.model), row.provider@)
}

/// Sum of `f` over the records that satisfy `p`.
pub open spec fn sum_of(s: Seq<Record>, f: spec_fn(Record) -> int, p: spec_fn(Record) -> bool) -> int
    decreases s.len(),
{
    if s.len() == 0 {
        0
    } else {
        sum_of(s.drop_last(), f, p) + if p(s.last()) {
            f(s.last())
        } else {
            0
        }
    }
}

/// Positions of the records that satisfy `p`, in increasing order.
pub open spec fn positions(s: Seq<Record>, p: spec_fn(Record) -> bool) -> Seq<usize>
    decreases s.len(),
{
    if s.len() == 0 {
        Seq::empty()
    } else if p(s.last()) {
        positions(s.drop_last(), p).push((s.len() - 1) as usize)
    } else {
        positions(s.drop_last(), p)
    }
}

/// Input tokens of a record.
pub open spec fn input_of() -> spec_fn(Record) -> int {
    |r: Record| r.input_tokens as int
}

/// Output tokens of a record.
pub open spec fn output_of() -> spec_fn(Record) -> int {
    |r: Record| r.output_tokens as int
}

/// Cache-read tokens of a record.
pub open spec fn cache_read_of() -> spec_fn(Record) -> int {
    |r: Record| r.cache_read_tokens as int
}

/// Cache-creation tokens of a record.
pub open spec fn cache_creation_of() -> spec_fn(Record) -> int {
    |r: Record| r.cache_creation_tokens as int
}

/// Thinking tokens of a record.
pub open spec fn thinking_of() -> spec_fn(Record) -> int {
    |r: Record| r.thinking_tokens as int
}

/// The row holds exactly the sums, count and positions of its group among `s`.
pub open spec fn row_matches(row: ModelRow, s: Seq<Record>, lo: int, hi: Option<int>) -> bool {
    let p = row_group(row, lo, hi);
    &&& row.input_tokens == sum_of(s, input_of(), p)
    &&& row.output_tokens == sum_of(s, output_of(), p)
    &&& row.cache_read_tokens == sum_of(s, cache_read_of(), p)
    &&& row.cache_creation_tokens == sum_of(s, cache_creation_of(), p)
    &&& row.thinking_tokens == sum_of(s, thinking_of(), p)
    &&& row.total_tokens == sum_where(s, p)
    &&& row.members@ == positions(s, p)
    &&& row.request_count == row.members@.len()
    &&& row.request_count >= 1
}

/// No two rows share a model and provider.
pub open spec fn keys_distinct(rows: Seq<ModelRow>) -> bool {
    forall|a: int, b: int|
        0 <= a < rows.len() && 0 <= b < rows.len() && a != b ==> !(model_text(rows[a].model)
            == model_text(rows[b].model) && rows[a].provider@ == rows[b].provider@)
}

/// Rows come in the order of their first records.
pub open spec fn first_record_order(rows: Seq<ModelRow>) -> bool {
    forall|a: int, b: int|
        0 <= a < b < rows.len() ==> #[trigger] rows[a].members@[0] < #[trigger] rows[b].members@[0]
}

/// Every record of `s` in the date range belongs to one of the rows' groups.
pub open spec fn all_grouped(rows: Seq<ModelRow>, s: Seq<Record>, lo: int, hi: Option<int>) -> bool {
    forall|k: int|
        0 <= k < s.len() && in_range(#[trigger] s[k], lo, hi) ==> exists|j: int|
            0 <= j < rows.len() && has_key(s[k], model_text(rows[j].model), rows[j].provider@)
}

/// Extending a prefix by one record adds its value when it qualifies.
proof fn lemma_sum_of_step(
    s: Seq<Record>,
    i: int,
    f: spec_fn(Record) -> int,
    p: spec_fn(Record) -> bool,
)
    requires
        0 <= i < s.len(),
    ensures
        sum_of(s.take(i + 1), f, p) == sum_of(s.take(i), f, p) + if p(s[i]) {
            f(s[i])
        } else {
            0
        },
        positions(s.take(i + 1), p) == if p(s[i]) {
            positions(s.take(i), p).push(i as usize)
        } else {
            positions(s.take(i), p)
        },
{
    assert(s.take(i + 1).drop_last() =~= s.take(i));
}

/// Extending a prefix by one record updates every sum of a group and its positions.
proof fn lemma_group_step(s: Seq<Record>, i: int, p: spec_fn(Record) -> bool)
    requires
        0 <= i < s.len(),
    ensures
        sum_of(s.take(i + 1), input_of(), p) == sum_of(s.take(i), input_of(), p) + if p(s[i]) {
            s[i].input_tokens as int
        } else {
            0
        },
        sum_of(s.take(i + 1), output_of(), p) == sum_of(s.take(i), output_of(), p) + if p(s[i]) {
            s[i].output_tokens as int
        } else {
            0
        },
        sum_of(s.take(i + 1), cache_read_of(), p) == sum_of(s.take(i), cache_read_of(), p) + if p(
            s[i],
        ) {
            s[i].cache_read_tokens as int
        } else {
            0
        },
        sum_of(s.take(i + 1), cache_creation_of(), p) == sum_of(s.take(i), cache_creation_of(), p)
            + if p(s[i]) {
            s[i].cache_creation_tokens as int
        } else {
            0
        },
        sum_of(s.take(i + 1), thinking_of(), p) == sum_of(s.take(i), thinking_of(), p) + if p(
            s[i],
        ) {
            s[i].thinking_tokens as int
        } else {
            0
        },
        sum_where(s.take(i + 1), p) == sum_where(s.take(i), p) + if p(s[i]) {
            total(s[i])
        } else {
            0
        },
        positions(s.take(i + 1), p) == if p(s[i]) {
            positions(s.take(i), p).push(i as usize)
        } else {
            positions(s.take(i), p)
        },
{
    lemma_sum_of_step(s, i, input_of(), p);
    lemma_sum_of_step(s, i, output_of(), p);
    lemma_sum_of_step(s, i, cache_read_of(), p);
    lemma_sum_of_step(s, i, cache_creation_of(), p);
    lemma_sum_of_step(s, i, thinking_of(), p);
    lemma_sum_where_step(s, i, p);
}

/// Every part sum of a group is at most the group's total.
proof fn lemma_group_parts_le(s: Seq<Record>, p: spec_fn(Record) -> bool)
    ensures
        0 <= sum_of(s, input_of(), p) <= sum_where(s, p),
        0 <= sum_of(s, output_of(), p) <= sum_where(s, p),
        0 <= sum_of(s, cache_read_of(), p) <= sum_where(s, p),
        0 <= sum_of(s, cache_creation_of(), p) <= sum_where(s, p),
        0 <= sum_of(s, thinking_of(), p) <= sum_where(s, p),
{
    lemma_sum_of_le(s, input_of(), p);
    lemma_sum_of_le(s, output_of(), p);
    lemma_sum_of_le(s, cache_read_of(), p);
    lemma_sum_of_le(s, cache_creation_of(), p);
    lemma_sum_of_le(s, thinking_of(), p);
}

/// A sum of a part of each record's total is at most the sum of the totals.
proof fn lemma_sum_of_le(s: Seq<Record>, f: spec_fn(Record) -> int, p: spec_fn(Record) -> bool)
    requires
        forall|r: Record| 0 <= #[trigger] f(r) <= total(r),
    ensures
        0 <= sum_of(s, f, p) <= sum_where(s, p),
    decreases s.len(),
{
    if s.len() > 0 {
        lemma_sum_of_le(s.drop_last(), f, p);
        let r = s.last();
        assert(0 <= f(r) <= total(r));
    }
}

/// When no record qualifies, the sums are zero and there are no positions.
proof fn lemma_none_qualify(s: Seq<Record>, f: spec_fn(Record) -> int, p: spec_fn(Record) -> bool)
    requires
        forall|k: int| 0 <= k < s.len() ==> !p(#[trigger] s[k]),
    ensures
        sum_of(s, f, p) == 0,
        sum_where(s, p) == 0,
        positions(s, p).len() == 0,
    decreases s.len(),
{
    if s.len() > 0 {
        assert(!p(s[s.len() - 1]));
        assert forall|k: int| 0 <= k < s.drop_last().len() implies !p(#[trigger] s.drop_last()[k]) by {
            assert(s.drop_last()[k] == s[k]);
        }
        lemma_none_qualify(s.drop_last(), f, p);
    }
}

/// Positions are below the length of the list.
proof fn lemma_positions_bounded(s: Seq<Record>, p: spec_fn(Record) -> bool)
    ensures
        forall|k: int| 0 <= k < positions(s, p).len() ==> #[trigger] positions(s, p)[k] < s.len(),
        positions(s, p).len() <= s.len(),
    decreases s.len(),
{
    if s.len() > 0 {
        lemma_positions_bounded(s.drop_last(), p);
    }
}

/// Whether the row stands for the record's model and provider.
fn row_has_key(row: &ModelRow, r: &Record) -> (b: bool)
    ensures
        b == has_key(*r, model_text(row.model), row.provider@),
{
    let same_model = match (&row.model, &r.model) {
        (Some(a), Some(b)) => *a == *b,
        (None, None) => true,
        _ => false,
    };
    same_model && row.provider == r.provider
}

/// Whether the record lies in the date range from day `lo` on, before day `hi` when given.
fn record_in_range(r: &Record, lo: i32, hi: Option<i32>) -> (b: bool)
    requires
        r.timestamp.wf(),
    ensures
        b == in_range(*r, lo as int, match hi {
            Some(h) => Some(h as int),
            None => None,
        }),
{
    let d = r.timestamp.date();
    d.days >= lo && match hi {
        Some(h) => d.days < h,
        None => true,
    }
}

/// Sum of the rows' total tokens.
pub open spec fn rows_total(rows: Seq<ModelRow>) -> int
    decreases rows.len(),
{
    if rows.len() == 0 {
        0
    } else {
        rows_total(rows.drop_last()) + rows.last().total_tokens
    }
}

/// Sum of the rows' input tokens.
pub open spec fn rows_input(rows: Seq<ModelRow>) -> int
    decreases rows.len(),
{
    if rows.len() == 0 {
        0
    } else {
        rows_input(rows.drop_last()) + rows.last().input_tokens
    }
}

/// Sum of the rows' output tokens.
pub open spec fn rows_output(rows: Seq<ModelRow>) -> int
    decreases rows.len(),
{
    if rows.len() == 0 {
        0
    } else {
        rows_output(rows.drop_last()) + rows.last().output_tokens
    }
}

/// Each row's input and output tokens are part of its total.
pub open spec fn parts_within_totals(rows: Seq<ModelRow>) -> bool {
    forall|j: int|
        0 <= j < rows.len() ==> #[trigger] rows[j].input_tokens + rows[j].output_tokens
            <= rows[j].total_tokens
}

/// A prefix of the rows holds no more tokens than all of them, and its inputs and outputs
/// together no more than its totals.
proof fn lemma_rows_prefix(rows: Seq<ModelRow>, k: int)
    requires
        0 <= k <= rows.len(),
        parts_within_totals(rows),
    ensures
        rows_total(rows.take(k)) <= rows_total(rows),
        rows_input(rows.take(k)) + rows_output(rows.take(k)) <= rows_total(rows.take(k)),
        rows_input(rows.take(k)) >= 0,
        rows_output(rows.take(k)) >= 0,
    decreases rows.len() - k,
{
    let pre = rows.take(k);
    assert(parts_within_totals(pre)) by {
        assert forall|j: int| 0 <= j < pre.len() implies #[trigger] pre[j].input_tokens
            + pre[j].output_tokens <= pre[j].total_tokens by {
            assert(pre[j] == rows[j]);
        }
    }
    lemma_rows_parts(pre);
    if k < rows.len() {
        lemma_rows_prefix(rows, k + 1);
        assert(rows.take(k + 1).drop_last() =~= pre);
        assert(rows.take(k + 1).last() == rows[k]);
    } else {
        assert(pre =~= rows);
    }
}

/// All the rows' inputs and outputs together are no more than their totals.
proof fn lemma_rows_parts(rows: Seq<ModelRow>)
    requires
        parts_within_totals(rows),
    ensures
        rows_input(rows) + rows_output(rows) <= rows_total(rows),
        rows_input(rows) >= 0,
        rows_output(rows) >= 0,
    decreases rows.len(),
{
    if rows.len() > 0 {
        let init = rows.drop_last();
        assert(parts_within_totals(init)) by {
            assert forall|j: int| 0 <= j < init.len() implies #[trigger] init[j].input_tokens
                + init[j].output_tokens <= init[j].total_tokens by {
                assert(init[j] == rows[j]);
            }
        }
        lemma_rows_parts(init);
        assert(rows[rows.len() - 1] == rows.last());
    }
}

/// The rows' input, output and total token sums.
pub fn rows_sums(rows: &[ModelRow]) -> (t: (u64, u64, u64))
    requires
        rows_total(rows@) <= u64::MAX,
        parts_within_totals(rows@),
    ensures
        t.0 == rows_input(rows@),
        t.1 == rows_output(rows@),
        t.2 == rows_total(rows@),
{
    let mut input: u64 = 0;
    let mut output: u64 = 0;
    let mut total: u64 = 0;
    let mut i: usize = 0;
    while i < rows.len()
        invariant
            i <= rows@.len(),
            rows_total(rows@) <= u64::MAX,
            parts_within_totals(rows@),
            input == rows_input(rows@.take(i as int)),
            output == rows_output(rows@.take(i as int)),
            total == rows_total(rows@.take(i as int)),
        decreases rows@.len() - i,
    {
        proof {
            lemma_rows_prefix(rows@, i + 1);
            assert(rows@.take(i + 1).drop_last() =~= rows@.take(i as int));
            assert(rows@.take(i + 1).last() == rows@[i as int]);
        }
        input = input + rows[i].input_tokens;
        output = output + rows[i].output_tokens;
        total = total + rows[i].total_tokens;
        i = i + 1;
    }
    assert(rows@.take(rows@.len() as int) =~= rows@);
    (input, output, total)
}

/// A group's inputs and outputs together are no more than its total.
proof fn lemma_in_out_le(s: Seq<Record>, p: spec_fn(Record) -> bool)
    ensures
        sum_of(s, input_of(), p) + sum_of(s, output_of(), p) <= sum_where(s, p),
    decreases s.len(),
{
    if s.len() > 0 {
        lemma_in_out_le(s.drop_last(), p);
    }
}

/// Records in the date range, whatever their model and provider.
pub open spec fn range_of(lo: int, hi: Option<int>) -> spec_fn(Record) -> bool {
    |r: Record| in_range(r, lo, hi)
}

/// Sum over the rows of the tokens of each row's group among `s`.
pub open spec fn group_sums(rows: Seq<ModelRow>, s: Seq<Record>, lo: int, hi: Option<int>) -> int
    decreases rows.len(),
{
    if rows.len() == 0 {
        0
    } else {
        group_sums(rows.drop_last(), s, lo, hi) + sum_where(s, row_group(rows.last(), lo, hi))
    }
}

/// How many of the rows' groups hold the record.
pub open spec fn hits(rows: Seq<ModelRow>, x: Record, lo: int, hi: Option<int>) -> int
    decreases rows.len(),
{
    if rows.len() == 0 {
        0
    } else {
        hits(rows.drop_last(), x, lo, hi) + if row_group(rows.last(), lo, hi)(x) {
            1int
        } else {
            0int
        }
    }
}

/// Rows whose totals match their groups add up to the sums of their groups.
proof fn lemma_rows_total(rows: Seq<ModelRow>, s: Seq<Record>, lo: int, hi: Option<int>)
    requires
        forall|j: int| 0 <= j < rows.len() ==> row_matches(#[trigger] rows[j], s, lo, hi),
    ensures
        rows_total(rows) == group_sums(rows, s, lo, hi),
    decreases rows.len(),
{
    if rows.len() > 0 {
        assert(row_matches(rows[rows.len() - 1], s, lo, hi));
        assert forall|j: int| 0 <= j < rows.drop_last().len() implies row_matches(
            #[trigger] rows.drop_last()[j],
            s,
            lo,
            hi,
        ) by {
            assert(rows.drop_last()[j] == rows[j]);
        }
        lemma_rows_total(rows.drop_last(), s, lo, hi);
    }
}

/// Adding a record to the list adds its total once for each group that holds it.
proof fn lemma_group_sums_push(rows: Seq<ModelRow>, s: Seq<Record>, x: Record, lo: int, hi: Option<int>)
    ensures
        group_sums(rows, s.push(x), lo, hi) == group_sums(rows, s, lo, hi) + hits(rows, x, lo, hi)
            * total(x),
    decreases rows.len(),
{
    if rows.len() > 0 {
        let init = rows.drop_last();
        lemma_group_sums_push(init, s, x, lo, hi);
        assert(s.push(x).drop_last() =~= s);
        let h = hits(init, x, lo, hi);
        let b: int = if row_group(rows.last(), lo, hi)(x) {
            1
        } else {
            0
        };
        let t = total(x);
        assert((h + b) * t == h * t + b * t) by (nonlinear_arith);
        assert(b * t == if row_group(rows.last(), lo, hi)(x) {
            t
        } else {
            0
        }) by (nonlinear_arith)
            requires
                b == 0 || b == 1,
                b == 1 <==> row_group(rows.last(), lo, hi)(x),
        ;
    }
}

/// No group holds a record when no row has its model and provider.
proof fn lemma_no_hits(rows: Seq<ModelRow>, x: Record, lo: int, hi: Option<int>)
    requires
        forall|j: int|
            0 <= j < rows.len() ==> !has_key(x, model_text(#[trigger] rows[j].model), rows[j].provider@),
    ensures
        hits(rows, x, lo, hi) == 0,
    decreases rows.len(),
{
    if rows.len() > 0 {
        assert forall|j: int| 0 <= j < rows.drop_last().len() implies !has_key(
            x,
            model_text(#[trigger] rows.drop_last()[j].model),
            rows.drop_last()[j].provider@,
        ) by {
            assert(rows.drop_last()[j] == rows[j]);
        }
        assert(!has_key(x, model_text(rows[rows.len() - 1].model), rows[rows.len() - 1].provider@));
        lemma_no_hits(rows.drop_last(), x, lo, hi);
    }
}

/// With distinct keys, a record in the range held by some row is held by exactly one; a record
/// outside the range by none.
proof fn lemma_hits(rows: Seq<ModelRow>, x: Record, lo: int, hi: Option<int>)
    requires
        keys_distinct(rows),
    ensures
        !in_range(x, lo, hi) ==> hits(rows, x, lo, hi) == 0,
        in_range(x, lo, hi) && (exists|j: int|
            0 <= j < rows.len() && has_key(x, model_text(rows[j].model), rows[j].provider@))
            ==> hits(rows, x, lo, hi) == 1,
    decreases rows.len(),
{
    if rows.len() > 0 {
        let init = rows.drop_last();
        let n = rows.len() - 1;
        assert(keys_distinct(init)) by {
            assert forall|a: int, b: int|
                0 <= a < init.len() && 0 <= b < init.len() && a != b implies !(model_text(
                init[a].model,
            ) == model_text(init[b].model) && init[a].provider@ == init[b].provider@) by {
                assert(init[a] == rows[a]);
                assert(init[b] == rows[b]);
            }
        }
        lemma_hits(init, x, lo, hi);
        if in_range(x, lo, hi) && (exists|j: int|
            0 <= j < rows.len() && has_key(x, model_text(rows[j].model), rows[j].provider@)) {
            let j = choose|j: int|
                0 <= j < rows.len() && has_key(x, model_text(rows[j].model), rows[j].provider@);
            if j == n {
                assert forall|k: int| 0 <= k < init.len() implies !has_key(
                    x,
                    model_text(#[trigger] init[k].model),
                    init[k].provider@,
                ) by {
                    assert(init[k] == rows[k]);
                }
                lemma_no_hits(init, x, lo, hi);
            } else {
                assert(init[j] == rows[j]);
                assert(!has_key(x, model_text(rows[n].model), rows[n].provider@));
            }
        }
    }
}

/// The rows' groups together hold exactly the tokens of the records in the range.
proof fn lemma_groups_cover(rows: Seq<ModelRow>, s: Seq<Record>, lo: int, hi: Option<int>)
    requires
        keys_distinct(rows),
        all_grouped(rows, s, lo, hi),
    ensures
        group_sums(rows, s, lo, hi) == sum_where(s, range_of(lo, hi)),
    decreases s.len(),
{
    if s.len() == 0 {
        lemma_group_sums_empty(rows, s, lo, hi);
    } else {
        let init = s.drop_last();
        let x = s.last();
        assert(all_grouped(rows, init, lo, hi)) by {
            assert forall|k: int| 0 <= k < init.len() && in_range(#[trigger] init[k], lo, hi) implies exists|
                j: int,
            |
                0 <= j < rows.len() && has_key(init[k], model_text(rows[j].model), rows[j].provider@) by {
                assert(init[k] == s[k]);
            }
        }
        lemma_groups_cover(rows, init, lo, hi);
        assert(s =~= init.push(x));
        lemma_group_sums_push(rows, init, x, lo, hi);
        lemma_hits(rows, x, lo, hi);
        assert(s[s.len() - 1] == x);
    }
}

/// Over no records every group sums to zero.
proof fn lemma_group_sums_empty(rows: Seq<ModelRow>, s: Seq<Record>, lo: int, hi: Option<int>)
    requires
        s.len() == 0,
    ensures
        group_sums(rows, s, lo, hi) == 0,
    decreases rows.len(),
{
    if rows.len() > 0 {
        lemma_group_sums_empty(rows.drop_last(), s, lo, hi);
    }
}

/// The optional range end as a day number.
pub open spec fn end_day(until: Option<Date>) -> Option<int> {
    match until {
        Some(u) => Some(u.days as int),
        None => None,
    }
}

/// A copy of an optional model name.
fn copy_model(m: &Option<String>) -> (c: Option<String>)
    ensures
        model_text(c) == model_text(*m),
{
    match m {
        Some(s) => Some(s.clone()),
        None => None,
    }
}

/// Groups the records dated from `since` on (and before `until`, when given) by model and
/// provider: one row per model and provider that occurs, each with the input, output and total
/// token sums, the number of its records and their positions. Rows come in the order their
/// first record comes.
pub fn group_by_model(records: &[Record], since: Date, until: Option<Date>) -> (rows: Vec<
    ModelRow,
>)
    requires
        all_wf(records@),
        tokens_sum(records@) <= u64::MAX,
    ensures
        forall|j: int|
            0 <= j < rows@.len() ==> row_matches(
                #[trigger] rows@[j],
                records@,
                since.days as int,
                end_day(until),
            ),
        keys_distinct(rows@),
        first_record_order(rows@),
        parts_within_totals(rows@),
        all_grouped(rows@, records@, since.days as int, end_day(until)),
        rows_total(rows@) == sum_where(records@, range_of(since.days as int, end_day(until))),
{
    let ghost lo = since.days as int;
    let ghost hi = end_day(until);
    let hi_days: Option<i32> = match until {
        Some(u) => Some(u.days),
        None => None,
    };
    let mut rows: Vec<ModelRow> = Vec::new();
    let mut i: usize = 0;
    while i < records.len()
        invariant
            i <= records@.len(),
            all_wf(records@),
            tokens_sum(records@) <= u64::MAX,
            lo == since.days,
            hi == end_day(until),
            hi_days == (match until {
                Some(u) => Some(u.days),
                None => None::<i32>,
            }),
            forall|j: int|
                0 <= j < rows@.len() ==> row_matches(
                    #[trigger] rows@[j],
                    records@.take(i as int),
                    lo,
                    hi,
                ),
            keys_distinct(rows@),
            first_record_order(rows@),
            forall|j: int| 0 <= j < rows@.len() ==> (#[trigger] rows@[j]).members@[0] < i,
            all_grouped(rows@, records@.take(i as int), lo, hi),
        decreases records@.len() - i,
    {
        let r = &records[i];
        assert(r.timestamp.wf());
        let ghost s = records@;
        let ghost pre = s.take(i as int);
        let ghost post = s.take(i + 1);
        proof {
            assert forall|k: int| 0 <= k < i implies #[trigger] post[k] == pre[k] by {}
            assert(post[i as int] == s[i as int]);
        }
        if record_in_range(r, since.days, hi_days) {
            let mut j: usize = 0;
            let mut found = false;
            while j < rows.len()
                invariant_except_break
                    j <= rows@.len(),
                    !found,
                    forall|k: int|
                        0 <= k < j ==> !has_key(
                            *r,
                            model_text(#[trigger] rows@[k].model),
                            rows@[k].provider@,
                        ),
                ensures
                    found ==> j < rows@.len() && has_key(
                        *r,
                        model_text(rows@[j as int].model),
                        rows@[j as int].provider@,
                    ),
                    !found ==> forall|k: int|
                        0 <= k < rows@.len() ==> !has_key(
                            *r,
                            model_text(#[trigger] rows@[k].model),
                            rows@[k].provider@,
                        ),
                decreases rows@.len() - j,
            {
                if row_has_key(&rows[j], r) {
                    found = true;
                    break;
                }
                j = j + 1;
            }
            if found {
                assert(has_key(*r, model_text(rows@[j as int].model), rows@[j as int].provider@));
                let ghost old_rows = rows@;
                let ghost pj = row_group(rows@[j as int], lo, hi);
                proof {
                    assert(pj(s[i as int]));
                    lemma_group_step(s, i as int, pj);
                    crate::record::lemma_prefix_sum_le(s, i + 1, pj);
                    lemma_sum_where_le_total(s, pj);
                    lemma_group_parts_le(post, pj);
                    lemma_positions_bounded(pre, pj);
                    assert(row_matches(rows@[j as int], pre, lo, hi));
                }
                let t = r.total_tokens();
                rows[j].input_tokens = rows[j].input_tokens + r.input_tokens;
                rows[j].output_tokens = rows[j].output_tokens + r.output_tokens;
                rows[j].cache_read_tokens = rows[j].cache_read_tokens + r.cache_read_tokens;
                rows[j].cache_creation_tokens = rows[j].cache_creation_tokens
                    + r.cache_creation_tokens;
                rows[j].thinking_tokens = rows[j].thinking_tokens + r.thinking_tokens;
                rows[j].total_tokens = rows[j].total_tokens + t;
                rows[j].request_count = rows[j].request_count + 1;
                rows[j].members.push(i);
                proof {
                    assert(rows@[j as int].members@[0] == old_rows[j as int].members@[0]);
                    assert forall|k: int| 0 <= k < rows@.len() implies (#[trigger] rows@[k]).members@[0]
                        == old_rows[k].members@[0] by {}
                    assert forall|k: int| 0 <= k < rows@.len() implies row_matches(
                        #[trigger] rows@[k],
                        post,
                        lo,
                        hi,
                    ) by {
                        if k != j {
                            assert(rows@[k] == old_rows[k]);
                            let pk = row_group(rows@[k], lo, hi);
                            assert(!pk(s[i as int]));
                            lemma_group_step(s, i as int, pk);
                        }
                    }
                    assert forall|k: int|
                        0 <= k < post.len() && in_range(#[trigger] post[k], lo, hi) implies exists|
                        m: int,
                    |
                        0 <= m < rows@.len() && has_key(
                            post[k],
                            model_text(rows@[m].model),
                            rows@[m].provider@,
                        ) by {
                        if k < i {
                            assert(in_range(pre[k], lo, hi));
                            let m = choose|m: int|
                                0 <= m < old_rows.len() && has_key(
                                    pre[k],
                                    model_text(old_rows[m].model),
                                    old_rows[m].provider@,
                                );
                            assert(rows@[m].model == old_rows[m].model);
                        } else {
                            assert(has_key(post[k], model_text(rows@[j as int].model), rows@[j as int].provider@));
                        }
                    }
                }
            } else {
                let ghost old_rows = rows@;
                let m = copy_model(&r.model);
                let row = ModelRow {
                    model: m,
                    provider: r.provider.clone(),
                    input_tokens: r.input_tokens,
                    output_tokens: r.output_tokens,
                    cache_read_tokens: r.cache_read_tokens,
                    cache_creation_tokens: r.cache_creation_tokens,
                    thinking_tokens: r.thinking_tokens,
                    total_tokens: 0,
                    request_count: 1,
                    members: Vec::new(),
                };
                let ghost pn = row_group(row, lo, hi);
                proof {
                    assert forall|k: int| 0 <= k < pre.len() implies !pn(#[trigger] pre[k]) by {
                        if pn(pre[k]) {
                            assert(in_range(pre[k], lo, hi));
                            let m = choose|m: int|
                                0 <= m < old_rows.len() && has_key(
                                    pre[k],
                                    model_text(old_rows[m].model),
                                    old_rows[m].provider@,
                                );
                            assert(has_key(*r, model_text(old_rows[m].model), old_rows[m].provider@));
                            assert(false);
                        }
                    }
                    lemma_none_qualify(pre, input_of(), pn);
                    lemma_none_qualify(pre, output_of(), pn);
                    lemma_none_qualify(pre, cache_read_of(), pn);
                    lemma_none_qualify(pre, cache_creation_of(), pn);
                    lemma_none_qualify(pre, thinking_of(), pn);
                    lemma_group_step(s, i as int, pn);
                    lemma_total_le_sum(s, i as int);
                    assert(pn(s[i as int]));
                }
                let t = r.total_tokens();
                let mut row = row;
                row.total_tokens = t;
                row.members.push(i);
                proof {
                    assert(row.members@ =~= positions(post, pn));
                }
                rows.push(row);
                proof {
                    assert(rows@[old_rows.len() as int].members@[0] == i);
                    assert forall|k: int| 0 <= k < old_rows.len() implies (#[trigger] rows@[k]) == old_rows[k] by {}
                    assert forall|k: int| 0 <= k < rows@.len() implies row_matches(
                        #[trigger] rows@[k],
                        post,
                        lo,
                        hi,
                    ) by {
                        if k < old_rows.len() {
                            assert(rows@[k] == old_rows[k]);
                            let pk = row_group(rows@[k], lo, hi);
                            assert(!pk(s[i as int]));
                            lemma_group_step(s, i as int, pk);
                        }
                    }
                    assert forall|k: int|
                        0 <= k < post.len() && in_range(#[trigger] post[k], lo, hi) implies exists|
                        m: int,
                    |
                        0 <= m < rows@.len() && has_key(
                            post[k],
                            model_text(rows@[m].model),
                            rows@[m].provider@,
                        ) by {
                        if k < i {
                            assert(in_range(pre[k], lo, hi));
                            let m = choose|m: int|
                                0 <= m < old_rows.len() && has_key(
                                    pre[k],
                                    model_text(old_rows[m].model),
                                    old_rows[m].provider@,
                                );
                            assert(rows@[m] == old_rows[m]);
                        } else {
                            let last = old_rows.len() as int;
                            assert(has_key(post[k], model_text(rows@[last].model), rows@[last].provider@));
                        }
                    }
                }
            }
        } else {
            proof {
                assert forall|k: int| 0 <= k < rows@.len() implies row_matches(
                    #[trigger] rows@[k],
                    post,
                    lo,
                    hi,
                ) by {
                    let pk = row_group(rows@[k], lo, hi);
                    assert(!pk(s[i as int]));
                    lemma_group_step(s, i as int, pk);
                }
                assert forall|k: int|
                    0 <= k < post.len() && in_range(#[trigger] post[k], lo, hi) implies exists|m: int|
                    0 <= m < rows@.len() && has_key(
                        post[k],
                        model_text(rows@[m].model),
                        rows@[m].provider@,
                    ) by {
                    assert(k < i);
                    assert(in_range(pre[k], lo, hi));
                }
            }
        }
        i = i + 1;
    }
    assert(records@.take(records@.len() as int) =~= records@);
    proof {
        assert forall|j: int| 0 <= j < rows@.len() implies #[trigger] rows@[j].input_tokens
            + rows@[j].output_tokens <= rows@[j].total_tokens by {
            assert(row_matches(rows@[j], records@, lo, hi));
            lemma_in_out_le(records@, row_group(rows@[j], lo, hi));
        }
        lemma_rows_total(rows@, records@, lo, hi);
        lemma_groups_cover(rows@, records@, lo, hi);
    }
    rows
}

} // verus!
