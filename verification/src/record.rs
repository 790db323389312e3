//! One usage record (one request, message or session of an AI coding tool) and the token
//! sums taken over lists of them.

use crate::date::{day_of, Timestamp};
use vstd::prelude::*;

verus! {

/// A single usage record. Its cost in dollars is a floating-point amount and is kept by the
/// caller beside the record, not here.
#[derive(Debug)]
pub struct Record {
    pub timestamp: Timestamp,
    pub provider: String,
    pub model: Option<String>,
    pub input_tokens: u64,
    pub output_tokens: u64,
    pub cache_read_tokens: u64,
    pub cache_creation_tokens: u64,
    pub thinking_tokens: u64,
    pub message_id: Option<String>,
    pub request_id: Option<String>,
    pub session_id: Option<String>,
}

/// All tokens of a record: input, output, cache reads, cache writes and thinking.
pub open spec fn total(r: Record) -> int {
    r.input_tokens + r.output_tokens + r.cache_read_tokens + r.cache_creation_tokens
        + r.thinking_tokens
}

/// The day number of a record's UTC date.
pub open spec fn record_day(r: Record) -> int {
    day_of(r.timestamp.secs)
}

/// Sum of the token totals of the records that satisfy `p`.
pub open spec fn sum_where(s: Seq<Record>, p: spec_fn(Record) -> bool) -> int
    decreases s.len(),
{
    if s.len() == 0 {
        0
    } else {
        sum_where(s.drop_last(), p) + if p(s.last()) {
            total(s.last())
        } else {
            0
        }
    }
}

/// Sum of the token totals of all records.
pub open spec fn tokens_sum(s: Seq<Record>) -> int {
    sum_where(s, |r: Record| true)
}

/// Every record's timestamp is one chrono can hold.
pub open spec fn all_wf(s: Seq<Record>) -> bool {
    forall|i: int| 0 <= i < s.len() ==> (#[trigger] s[i]).timestamp.wf()
}

/// The text of an optional string.
pub open spec fn opt_text(s: Option<String>) -> Option<Seq<char>> {
    match s {
        Some(t) => Some(t@),
        None => None,
    }
}

/// The key by which copies of one request are recognised: the message id and the request id
/// joined by `:` when both are known, else whichever is known, else none.
pub open spec fn dedup_key_text(message_id: Option<Seq<char>>, request_id: Option<Seq<char>>) -> Option<
    Seq<char>,
> {
    match (message_id, request_id) {
        (Some(m), Some(r)) => Some(m + ":"@ + r),
        (Some(m), None) => Some(m),
        (None, Some(r)) => Some(r),
        (None, None) => None,
    }
}

impl Record {
    /// The key by which copies of this request are recognised (see `dedup_key_text`).
    pub fn dedup_key(&self) -> (k: Option<String>)
        ensures
            opt_text(k) == dedup_key_text(opt_text(self.message_id), opt_text(self.request_id)),
    {
        match (&self.message_id, &self.request_id) {
            (Some(m), Some(r)) => {
                let mut k = m.clone();
                k.append(":");
                k.append(r.as_str());
                Some(k)
            },
            (Some(m), None) => Some(m.clone()),
            (None, Some(r)) => Some(r.clone()),
            (None, None) => None,
        }
    }

    /// The record's total token count.
    pub fn total_tokens(&self) -> (t: u64)
        requires
            total(*self) <= u64::MAX,
        ensures
            t == total(*self),
    {
        self.input_tokens + self.output_tokens + self.cache_read_tokens
            + self.cache_creation_tokens + self.thinking_tokens
    }
}

/// A sum over records is never negative.
pub proof fn lemma_sum_where_nonneg(s: Seq<Record>, p: spec_fn(Record) -> bool)
    ensures
        sum_where(s, p) >= 0,
    decreases s.len(),
{
    if s.len() > 0 {
        lemma_sum_where_nonneg(s.drop_last(), p);
    }
}

/// Summing over a weaker condition never gives less.
pub proof fn lemma_sum_where_mono(
    s: Seq<Record>,
    p: spec_fn(Record) -> bool,
    q: spec_fn(Record) -> bool,
)
    requires
        forall|r: Record| #[trigger] p(r) ==> q(r),
    ensures
        sum_where(s, p) <= sum_where(s, q),
    decreases s.len(),
{
    if s.len() > 0 {
        lemma_sum_where_mono(s.drop_last(), p, q);
    }
}

/// A sum over some of the records is at most the sum over all of them.
pub proof fn lemma_sum_where_le_total(s: Seq<Record>, p: spec_fn(Record) -> bool)
    ensures
        0 <= sum_where(s, p) <= tokens_sum(s),
{
    lemma_sum_where_nonneg(s, p);
    lemma_sum_where_mono(s, p, |r: Record| true);
}

/// Extending a prefix by one record adds that record's total when it qualifies.
pub proof fn lemma_sum_where_step(s: Seq<Record>, i: int, p: spec_fn(Record) -> bool)
    requires
        0 <= i < s.len(),
    ensures
        sum_where(s.take(i + 1), p) == sum_where(s.take(i), p) + if p(s[i]) {
            total(s[i])
        } else {
            0
        },
{
    assert(s.take(i + 1).drop_last() =~= s.take(i));
}

/// A record's own total is no more than the sum over a list containing it.
pub proof fn lemma_total_le_sum(s: Seq<Record>, i: int)
    requires
        0 <= i < s.len(),
    ensures
        total(s[i]) <= tokens_sum(s),
    decreases s.len(),
{
    if i == s.len() - 1 {
        lemma_sum_where_nonneg(s.drop_last(), |r: Record| true);
    } else {
        lemma_total_le_sum(s.drop_last(), i);
    }
}

/// Sum of the token totals of the records.
pub fn sum_tokens(records: &[Record]) -> (n: u64)
    requires
        tokens_sum(records@) <= u64::MAX,
    ensures
        n == tokens_sum(records@),
{
    let mut n: u64 = 0;
    let mut i: usize = 0;
    while i < records.len()
        invariant
            i <= records.len(),
            tokens_sum(records@) <= u64::MAX,
            n == tokens_sum(records@.take(i as int)),
        decreases records.len() - i,
    {
        proof {
            lemma_sum_where_step(records@, i as int, |r: Record| true);
            lemma_prefix_sum_le(records@, i as int + 1, |r: Record| true);
        }
        let t = records[i].total_tokens();
        n = n + t;
        i = i + 1;
    }
    assert(records@.take(records.len() as int) =~= records@);
    n
}

/// A sum over a prefix is at most the sum over the whole list.
pub proof fn lemma_prefix_sum_le(s: Seq<Record>, k: int, p: spec_fn(Record) -> bool)
    requires
        0 <= k <= s.len(),
    ensures
        sum_where(s.take(k), p) <= sum_where(s, p),
    decreases s.len() - k,
{
    if k < s.len() {
        lemma_sum_where_step(s, k, p);
        lemma_prefix_sum_le(s, k + 1, p);
        if p(s[k]) {
            assert(total(s[k]) >= 0);
        }
    } else {
        assert(s.take(k) =~= s);
    }
}

/// The instant `a` comes before the instant `b`.
pub open spec fn earlier(a: Timestamp, b: Timestamp) -> bool {
    a.secs < b.secs || (a.secs == b.secs && a.nanos < b.nanos)
}

/// Record `x` comes before record `y` in time order: it is earlier, or at the same instant and
/// before it in the list.
pub open spec fn precedes(s: Seq<Record>, x: int, y: int) -> bool {
    earlier(s[x].timestamp, s[y].timestamp) || (s[x].timestamp == s[y].timestamp && x < y)
}

/// `order` lists each position of the `n` records exactly once.
pub open spec fn is_permutation(order: Seq<usize>, n: int) -> bool {
    &&& order.len() == n
    &&& forall|a: int| 0 <= a < n ==> #[trigger] order[a] < n
    &&& forall|a: int, b: int| 0 <= a < b < n ==> #[trigger] order[a] != #[trigger] order[b]
}

/// `order` lists the records in time order, records at the same instant in their list order.
pub open spec fn in_time_order(s: Seq<Record>, order: Seq<usize>) -> bool {
    forall|a: int, b: int|
        0 <= a < b < order.len() ==> precedes(s, #[trigger] order[a] as int, #[trigger] order[b] as int)
}

/// The time order of records is transitive.
proof fn lemma_precedes_transitive(s: Seq<Record>, x: int, y: int, z: int)
    requires
        precedes(s, x, y),
        precedes(s, y, z),
    ensures
        precedes(s, x, z),
{
}

/// The positions of the records in time order, records at the same instant keeping their list
/// order (a stable sort by timestamp).
pub fn time_order(records: &[Record]) -> (order: Vec<usize>)
    ensures
        is_permutation(order@, records@.len() as int),
        in_time_order(records@, order@),
{
    let mut order: Vec<usize> = Vec::new();
    let mut i: usize = 0;
    while i < records.len()
        invariant
            i <= records@.len(),
            is_permutation(order@, i as int),
            in_time_order(records@, order@),
        decreases records@.len() - i,
    {
        let t = records[i].timestamp;
        let mut p: usize = 0;
        while p < order.len()
            invariant_except_break
                p <= order@.len(),
                forall|q: int| 0 <= q < p ==> precedes(records@, #[trigger] order@[q] as int, i as int),
            invariant
                p <= order@.len(),
                i < records@.len(),
                t == records@[i as int].timestamp,
                is_permutation(order@, i as int),
            ensures
                p <= order@.len(),
                forall|q: int| 0 <= q < p ==> precedes(records@, #[trigger] order@[q] as int, i as int),
                p < order@.len() ==> earlier(t, records@[order@[p as int] as int].timestamp),
            decreases order@.len() - p,
        {
            let u = records[order[p]].timestamp;
            if t.secs < u.secs || (t.secs == u.secs && t.nanos < u.nanos) {
                break;
            }
            assert(order@[p as int] < i);
            p = p + 1;
        }
        let ghost old_order = order@;
        proof {
            old_order.insert_ensures(p as int, i);
            assert forall|r: int| p <= r < old_order.len() implies precedes(
                records@,
                i as int,
                #[trigger] old_order[r] as int,
            ) by {
                if r > p {
                    assert(precedes(records@, old_order[p as int] as int, old_order[r] as int));
                    lemma_precedes_transitive(
                        records@,
                        i as int,
                        old_order[p as int] as int,
                        old_order[r] as int,
                    );
                }
            }
        }
        order.insert(p, i);
        proof {
            let o = order@;
            assert forall|a: int, b: int| 0 <= a < b < o.len() implies precedes(
                records@,
                #[trigger] o[a] as int,
                #[trigger] o[b] as int,
            ) by {
                if b < p {
                    assert(o[a] == old_order[a] && o[b] == old_order[b]);
                } else if b == p {
                    assert(o[a] == old_order[a]);
                } else if a < p {
                    assert(o[a] == old_order[a] && o[b] == old_order[b - 1]);
                } else if a == p {
                    assert(o[b] == old_order[b - 1]);
                } else {
                    assert(o[a] == old_order[a - 1] && o[b] == old_order[b - 1]);
                }
            }
            assert forall|a: int| 0 <= a < i + 1 implies #[trigger] o[a] < i + 1 by {
                if a < p {
                    assert(o[a] == old_order[a]);
                } else if a > p {
                    assert(o[a] == old_order[a - 1]);
                }
            }
            assert forall|a: int, b: int| 0 <= a < b < i + 1 implies #[trigger] o[a] != #[trigger] o[b] by {
                if b < p {
                    assert(o[a] == old_order[a] && o[b] == old_order[b]);
                } else if b == p {
                    assert(o[a] == old_order[a]);
                } else if a < p {
                    assert(o[a] == old_order[a] && o[b] == old_order[b - 1]);
                } else if a == p {
                    assert(o[b] == old_order[b - 1]);
                } else {
                    assert(o[a] == old_order[a - 1] && o[b] == old_order[b - 1]);
                }
            }
        }
        i = i + 1;
    }
    order
}

} // verus!
