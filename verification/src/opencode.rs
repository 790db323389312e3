//! The OpenCode source: where its message files live, which files it reads, and how the JSON
//! text of one stored message becomes a usage record. Walking the directory and reading the
//! files is done by the caller.

use crate::date::Timestamp;
use crate::record::{opt_text, Record};
use crate::scope::same_text;
use crate::text::texts;
use vstd::arithmetic::div_mod::lemma_fundamental_div_mod_converse;
use vstd::prelude::*;

verus! {

/// The directory, relative to the home directory, under which OpenCode stores one JSON file
/// per message.
pub const MESSAGE_DIR: &'static str = ".local/share/opencode/storage/message";

/// A relative path appended to a base path: the relative path alone when the base is empty,
/// the two joined by one `/` unless the base already ends with one (std's `Path::join` on Unix
/// for a relative second part).
pub open spec fn path_join(base: Seq<char>, rel: Seq<char>) -> Seq<char> {
    if base.len() == 0 {
        rel
    } else if base.last() == '/' {
        base + rel
    } else {
        base + "/"@ + rel
    }
}

/// The path lies somewhere below the directory `dir`: it starts with `dir` followed by a `/`.
pub open spec fn under_dir(dir: Seq<char>, p: Seq<char>) -> bool {
    &&& p.len() > dir.len()
    &&& p.take(dir.len() as int) == dir
    &&& p[dir.len() as int] == '/'
}

/// The path names a `.json` file: it ends with `.json` after a non-empty name.
pub open spec fn is_json_name(p: Seq<char>) -> bool {
    &&& p.len() > 5
    &&& p[p.len() - 6] != '/'
    &&& p.skip(p.len() - 5) == ".json"@
}

/// The files of `paths` that OpenCode's message store holds: the `.json` files below `dir`, in
/// the order given.
pub open spec fn message_files(dir: Seq<char>, paths: Seq<Seq<char>>) -> Seq<Seq<char>>
    decreases paths.len(),
{
    if paths.len() == 0 {
        Seq::empty()
    } else {
        let rest = message_files(dir, paths.drop_last());
        if under_dir(dir, paths.last()) && is_json_name(paths.last()) {
            rest.push(paths.last())
        } else {
            rest
        }
    }
}

/// The OpenCode usage source, reading the message files under the user's home directory.
pub struct OpenCodeSource {
    message_dir: String,
}

impl OpenCodeSource {
    /// The directory holding the message files this source reads.
    pub closed spec fn message_dir_text(&self) -> Seq<char> {
        self.message_dir@
    }

    /// The source for the user whose home directory is `home`: its messages are stored below
    /// `.local/share/opencode/storage/message` under it.
    pub fn new(home: &str) -> (s: OpenCodeSource)
        ensures
            s.message_dir_text() == path_join(home@, MESSAGE_DIR@),
    {
        let mut message_dir = home.to_string();
        let n = home.unicode_len();
        if n == 0 {
            message_dir.append(MESSAGE_DIR);
            assert(message_dir@ =~= MESSAGE_DIR@);
        } else if home.get_char(n - 1) == '/' {
            message_dir.append(MESSAGE_DIR);
        } else {
            message_dir.append("/");
            message_dir.append(MESSAGE_DIR);
        }
        OpenCodeSource { message_dir }
    }

    /// The source's name.
    pub fn name(&self) -> (r: &'static str)
        ensures
            r@ == "opencode"@,
    {
        "opencode"
    }

    /// The source's display name.
    pub fn display_name(&self) -> (r: &'static str)
        ensures
            r@ == "OpenCode"@,
    {
        "OpenCode"
    }

    /// The directory the source reads.
    pub fn data_dir(&self) -> (r: String)
        ensures
            r@ == self.message_dir_text(),
    {
        self.message_dir.clone()
    }

    /// The files to read among the files that exist (`existing`, as found by walking the
    /// directory): every `.json` file below the message directory, in the order given.
    pub fn discover_files(&self, existing: &[String]) -> (r: Vec<String>)
        ensures
            texts(r@) == message_files(self.message_dir_text(), texts(existing@)),
    {
        let mut r: Vec<String> = Vec::new();
        let mut i: usize = 0;
        while i < existing.len()
            invariant
                i <= existing@.len(),
                texts(r@) == message_files(self.message_dir_text(), texts(existing@).take(i as int)),
            decreases existing@.len() - i,
        {
            let p = &existing[i];
            assert(texts(existing@).take(i + 1).drop_last() =~= texts(existing@).take(i as int));
            let keep = is_below(self.message_dir.as_str(), p.as_str()) && ends_with_json(p.as_str());
            if keep {
                r.push(p.clone());
                assert(texts(r@) =~= message_files(
                    self.message_dir_text(),
                    texts(existing@).take(i as int),
                ).push(p@));
            }
            i = i + 1;
        }
        assert(texts(existing@).take(existing@.len() as int) =~= texts(existing@));
        r
    }
}

/// Whether `p` lies below the directory `dir` (see `under_dir`).
fn is_below(dir: &str, p: &str) -> (b: bool)
    ensures
        b == under_dir(dir@, p@),
{
    let n = dir.unicode_len();
    let m = p.unicode_len();
    if m <= n {
        return false;
    }
    let mut i: usize = 0;
    while i < n
        invariant
            n == dir@.len(),
            m == p@.len(),
            n < m,
            i <= n,
            forall|k: int| 0 <= k < i ==> p@[k] == dir@[k],
        decreases n - i,
    {
        if p.get_char(i) != dir.get_char(i) {
            assert(p@.take(n as int)[i as int] != dir@[i as int]);
            return false;
        }
        i = i + 1;
    }
    assert(p@.take(n as int) =~= dir@);
    p.get_char(n) == '/'
}

/// Whether `p` names a `.json` file (see `is_json_name`).
fn ends_with_json(p: &str) -> (b: bool)
    ensures
        b == is_json_name(p@),
{
    let m = p.unicode_len();
    if m <= 5 {
        return false;
    }
    let tail = p.substring_char(m - 5, m);
    proof {
        assert(tail@ =~= p@.skip(m - 5));
    }
    same_text(tail, ".json") && p.get_char(m - 6) != '/'
}

/// The seconds and nanoseconds of a creation time stored as a number: a magnitude of at least
/// 10^11 is read as milliseconds since the Unix epoch (split by Euclidean division), anything
/// smaller as seconds.
pub open spec fn numeric_instant(v: int) -> (int, int) {
    if v >= 100_000_000_000 || v <= -100_000_000_000 {
        (v / 1000, (v % 1000) * 1_000_000)
    } else {
        (v, 0)
    }
}

/// The instant of a creation time stored as seconds or milliseconds since the Unix epoch (see
/// `numeric_instant`); `None` when chrono cannot hold it.
pub fn timestamp_from_numeric(value: i64) -> (r: Option<Timestamp>)
    ensures
        r is Some <==> (Timestamp {
            secs: numeric_instant(value as int).0 as i64,
            nanos: numeric_instant(value as int).1 as u32,
        }).wf(),
        r matches Some(t) ==> t.secs == numeric_instant(value as int).0 && t.nanos
            == numeric_instant(value as int).1,
{
    if value >= 100_000_000_000 || value <= -100_000_000_000 {
        let (q, rem): (i64, u32) = if value >= 0 {
            ((value / 1000), (value % 1000) as u32)
        } else {
            let a: u64 = (-(value + 1)) as u64;
            let q: i64 = -((a / 1000) as i64) - 1;
            let rem: u32 = (999 - a % 1000) as u32;
            proof {
                assert(value == q * 1000 + rem);
            }
            (q, rem)
        };
        proof {
            lemma_fundamental_div_mod_converse(value as int, 1000, q as int, rem as int);
        }
        Timestamp::from_parts(q, rem * 1_000_000)
    } else {
        Timestamp::from_parts(value, 0)
    }
}

/// The usage record of one stored OpenCode message: only an assistant message with some tokens
/// and a creation time chrono can hold counts. Input and output tokens are taken as they are,
/// reasoning tokens as thinking tokens, cache reads and writes as cache read and creation
/// tokens; the message's id and its session's id are kept. Its cost is kept by the caller.
pub fn message_record(
    role: &str,
    message_id: Option<String>,
    session_id: Option<String>,
    model: Option<String>,
    created: i64,
    input_tokens: u64,
    output_tokens: u64,
    reasoning_tokens: u64,
    cache_read_tokens: u64,
    cache_write_tokens: u64,
) -> (r: Option<Record>)
    ensures
        r is Some <==> role@ == "assistant"@ && (input_tokens > 0 || output_tokens > 0
            || reasoning_tokens > 0 || cache_read_tokens > 0 || cache_write_tokens > 0) && (
        Timestamp {
            secs: numeric_instant(created as int).0 as i64,
            nanos: numeric_instant(created as int).1 as u32,
        }).wf(),
        r matches Some(r) ==> {
            &&& r.timestamp.secs == numeric_instant(created as int).0
            &&& r.timestamp.nanos == numeric_instant(created as int).1
            &&& r.provider@ == "opencode"@
            &&& r.model == model
            &&& r.input_tokens == input_tokens
            &&& r.output_tokens == output_tokens
            &&& r.cache_read_tokens == cache_read_tokens
            &&& r.cache_creation_tokens == cache_write_tokens
            &&& r.thinking_tokens == reasoning_tokens
            &&& r.message_id == message_id
            &&& r.request_id is None
            &&& r.session_id == session_id
        },
{
    if !same_text(role, "assistant") {
        return None;
    }
    if input_tokens == 0 && output_tokens == 0 && reasoning_tokens == 0 && cache_read_tokens == 0
        && cache_write_tokens == 0 {
        return None;
    }
    match timestamp_from_numeric(created) {
        Some(timestamp) => Some(
            Record {
                timestamp,
                provider: "opencode".to_string(),
                model,
                input_tokens,
                output_tokens,
                cache_read_tokens,
                cache_creation_tokens: cache_write_tokens,
                thinking_tokens: reasoning_tokens,
                message_id,
                request_id: None,
                session_id,
            },
        ),
        None => None,
    }
}

/// The unsigned integer that serde_json finds in a JSON text at a JSON Pointer (RFC 6901):
/// `None` when the text is not JSON, nothing is at the pointer, or what is there is not an
/// integer that fits a `u64`.
pub uninterp spec fn json_u64_at(text: Seq<char>, pointer: Seq<char>) -> Option<u64>;

/// The signed integer that serde_json finds in a JSON text at a JSON Pointer: `None` when the
/// text is not JSON, nothing is at the pointer, or what is there is not an integer that fits an
/// `i64`.
pub uninterp spec fn json_i64_at(text: Seq<char>, pointer: Seq<char>) -> Option<i64>;

/// The string that serde_json finds in a JSON text at a JSON Pointer: `None` when the text is not
/// JSON, nothing is at the pointer, or what is there is not a string.
pub uninterp spec fn json_str_at(text: Seq<char>, pointer: Seq<char>) -> Option<Seq<char>>;

/// serde_json's `from_str::<Value>`, then `Value::pointer`, then `Value::as_u64`. The result is
/// a function of the text and the pointer alone.
#[verifier::external_body]
pub(crate) fn json_u64_field(text: &str, pointer: &str) -> (r: Option<u64>)
    ensures
        r == json_u64_at(text@, pointer@),
{
    let v = serde_json::from_str::<serde_json::Value>(text).ok()?;
    v.pointer(pointer)?.as_u64()
}

/// serde_json's `from_str::<Value>`, then `Value::pointer`, then `Value::as_i64`. The result is
/// a function of the text and the pointer alone.
#[verifier::external_body]
pub(crate) fn json_i64_field(text: &str, pointer: &str) -> (r: Option<i64>)
    ensures
        r == json_i64_at(text@, pointer@),
{
    let v = serde_json::from_str::<serde_json::Value>(text).ok()?;
    v.pointer(pointer)?.as_i64()
}

/// serde_json's `from_str::<Value>`, then `Value::pointer`, then `Value::as_str`, copied into a
/// `String`. The result is a function of the text and the pointer alone.
#[verifier::external_body]
pub(crate) fn json_str_field(text: &str, pointer: &str) -> (r: Option<String>)
    ensures
        opt_text(r) == json_str_at(text@, pointer@),
{
    let v = serde_json::from_str::<serde_json::Value>(text).ok()?;
    Some(v.pointer(pointer)?.as_str()?.to_string())
}

/// A token count of a message: the integer at the pointer, or 0 when there is none.
pub open spec fn json_count(text: Seq<char>, pointer: Seq<char>) -> u64 {
    match json_u64_at(text, pointer) {
        Some(n) => n,
        None => 0,
    }
}

/// A token count read from the message text (see `json_count`).
fn count_at(text: &str, pointer: &str) -> (n: u64)
    ensures
        n == json_count(text@, pointer@),
{
    match json_u64_field(text, pointer) {
        Some(n) => n,
        None => 0,
    }
}

/// The message counts: it is an assistant message (its `role` is "assistant") with a creation
/// time (`time.created`) that chrono can hold, and some tokens (`tokens.input`, `tokens.output`,
/// `tokens.reasoning`, `tokens.cache.read`, `tokens.cache.write`, each 0 when missing).
pub open spec fn message_counts(text: Seq<char>) -> bool {
    &&& json_str_at(text, "/role"@) == Some("assistant"@)
    &&& json_i64_at(text, "/time/created"@) matches Some(c) && (Timestamp {
        secs: numeric_instant(c as int).0 as i64,
        nanos: numeric_instant(c as int).1 as u32,
    }).wf()
    &&& (json_count(text, "/tokens/input"@) > 0 || json_count(text, "/tokens/output"@) > 0
        || json_count(text, "/tokens/reasoning"@) > 0 || json_count(text, "/tokens/cache/read"@)
        > 0 || json_count(text, "/tokens/cache/write"@) > 0)
}

/// The usage record of the JSON text of one stored OpenCode message, by the rule of
/// `message_record`: the role, creation time, model (`modelID`), message id (`id`), session id
/// (`sessionID`) and token counts are read from the text, a missing count as 0. `None` when the
/// message does not count (see `message_counts`).
pub fn message_entry(text: &str) -> (r: Option<Record>)
    ensures
        r is Some <==> message_counts(text@),
        r matches Some(r) ==> {
            let c = json_i64_at(text@, "/time/created"@)->0 as int;
            &&& r.timestamp.secs == numeric_instant(c).0
            &&& r.timestamp.nanos == numeric_instant(c).1
            &&& r.provider@ == "opencode"@
            &&& opt_text(r.model) == json_str_at(text@, "/modelID"@)
            &&& r.input_tokens == json_count(text@, "/tokens/input"@)
            &&& r.output_tokens == json_count(text@, "/tokens/output"@)
            &&& r.thinking_tokens == json_count(text@, "/tokens/reasoning"@)
            &&& r.cache_read_tokens == json_count(text@, "/tokens/cache/read"@)
            &&& r.cache_creation_tokens == json_count(text@, "/tokens/cache/write"@)
            &&& opt_text(r.message_id) == json_str_at(text@, "/id"@)
            &&& r.request_id is None
            &&& opt_text(r.session_id) == json_str_at(text@, "/sessionID"@)
        },
{
    let role = match json_str_field(text, "/role") {
        Some(role) => role,
        None => {
            return None;
        },
    };
    let created = match json_i64_field(text, "/time/created") {
        Some(c) => c,
        None => {
            return None;
        },
    };
    message_record(
        role.as_str(),
        json_str_field(text, "/id"),
        json_str_field(text, "/sessionID"),
        json_str_field(text, "/modelID"),
        created,
        count_at(text, "/tokens/input"),
        count_at(text, "/tokens/output"),
        count_at(text, "/tokens/reasoning"),
        count_at(text, "/tokens/cache/read"),
        count_at(text, "/tokens/cache/write"),
    )
}

} // verus!
