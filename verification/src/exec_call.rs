//! What a `codex exec` call reported: its JSON event stream (thread, token
//! usage, quota and error details) and how the call's outcome is classified
//! and recorded.
use vstd::prelude::*;

use crate::summary::{indicates_quota_spec, text_indicates_quota, SummarizationError};
use crate::text::{chars_of, eq_str, string_from_chars};

verus! {

/// A JSON value as the event stream is read: numbers only by their value
/// as a `u64`, when they have one; object members in the map's order.
#[derive(Debug)]
pub enum JsonValue {
    Null,
    Bool(bool),
    Number(Option<u64>),
    String(String),
    Array(Vec<JsonValue>),
    Object(Vec<(String, JsonValue)>),
}

/// The member of an object named `key` (the first one).
pub open spec fn member(members: Seq<(String, JsonValue)>, key: Seq<char>) -> Option<JsonValue>
    decreases members.len(),
{
    if members.len() == 0 {
        None
    } else if members[0].0@ == key {
        Some(members[0].1)
    } else {
        member(members.drop_first(), key)
    }
}

/// `value.get(key)`: the member of an object.
pub open spec fn get(value: JsonValue, key: Seq<char>) -> Option<JsonValue> {
    match value {
        JsonValue::Object(m) => member(m@, key),
        _ => None,
    }
}

/// `value.as_str()`.
pub open spec fn as_text(value: Option<JsonValue>) -> Option<Seq<char>> {
    match value {
        Some(JsonValue::String(s)) => Some(s@),
        _ => None,
    }
}

fn member_exec<'a>(members: &'a Vec<(String, JsonValue)>, key: &str) -> (r: Option<&'a JsonValue>)
    ensures
        match member(members@, key@) {
            Some(v) => r matches Some(x) && *x == v,
            None => r is None,
        },
{
    let k = chars_of(key);
    let mut i: usize = 0;
    assert(members@.skip(0) =~= members@);
    while i < members.len()
        invariant
            i <= members@.len(),
            k@ == key@,
            member(members@, key@) == member(members@.skip(i as int), key@),
        decreases members.len() - i,
    {
        assert(members@.skip(i as int)[0] == members@[i as int]);
        assert(members@.skip(i as int).drop_first() =~= members@.skip(i + 1));
        if crate::text::chars_eq(chars_of(members[i].0.as_str()).as_slice(), k.as_slice()) {
            return Some(&members[i].1);
        }
        i = i + 1;
    }
    assert(members@.skip(i as int).len() == 0);
    None
}

fn get_exec<'a>(value: &'a JsonValue, key: &str) -> (r: Option<&'a JsonValue>)
    ensures
        match get(*value, key@) {
            Some(v) => r matches Some(x) && *x == v,
            None => r is None,
        },
{
    match value {
        JsonValue::Object(m) => member_exec(m, key),
        _ => None,
    }
}

fn text_of(value: Option<&JsonValue>) -> (r: Option<String>)
    ensures
        match as_text(
            match value {
                Some(v) => Some(*v),
                None => None,
            },
        ) {
            Some(t) => r matches Some(s) && s@ == t,
            None => r is None,
        },
{
    match value {
        Some(JsonValue::String(s)) => Some(s.as_str().to_owned()),
        _ => None,
    }
}

// ---------------------------------------------------------------------------
// Searching nested values
// ---------------------------------------------------------------------------
/// Any string, member name or nested value of `value` reports an exhausted
/// quota.
pub open spec fn json_indicates_quota_spec(value: JsonValue) -> bool
    decreases value,
{
    match value {
        JsonValue::String(s) => indicates_quota_spec(s@),
        JsonValue::Array(items) => exists|i: int|
            0 <= i < items@.len() && json_indicates_quota_spec(#[trigger] items@[i]),
        JsonValue::Object(members) => exists|i: int|
            #![trigger members@[i]]
            0 <= i < members@.len() && (indicates_quota_spec(members@[i].0@)
                || json_indicates_quota_spec(members@[i].1)),
        _ => false,
    }
}

pub fn json_indicates_quota(value: &JsonValue) -> (r: bool)
    ensures
        r == json_indicates_quota_spec(*value),
    decreases value,
{
    let mut found = false;
    match value {
        JsonValue::String(s) => {
            found = text_indicates_quota(s.as_str());
            assert(found == json_indicates_quota_spec(*value));
        },
        JsonValue::Array(items) => {
            let mut i: usize = 0;
            while i < items.len() && !found
                invariant
                    i <= items@.len(),
                    *value == JsonValue::Array(*items),
                    found ==> exists|j: int| 0 <= j < items@.len() && json_indicates_quota_spec(#[trigger] items@[j]),
                    !found ==> forall|j: int| 0 <= j < i ==> !json_indicates_quota_spec(#[trigger] items@[j]),
                decreases items.len() - i,
            {
                proof {
                    assert(decreases_to!(*value => (*value)->Array_0));
                    assert(decreases_to!((*value)->Array_0 => (*value)->Array_0@));
                    assert(decreases_to!((*value)->Array_0@ => (*value)->Array_0@[i as int]));
                }
                if json_indicates_quota(&items[i]) {
                    assert(json_indicates_quota_spec(items@[i as int]));
                    found = true;
                }
                i = i + 1;
            }
            assert(found == json_indicates_quota_spec(*value));
        },
        JsonValue::Object(members) => {
            let mut i: usize = 0;
            while i < members.len() && !found
                invariant
                    i <= members@.len(),
                    *value == JsonValue::Object(*members),
                    found ==> exists|j: int|
                        #![trigger members@[j]]
                        0 <= j < members@.len() && (indicates_quota_spec(members@[j].0@)
                            || json_indicates_quota_spec(members@[j].1)),
                    !found ==> forall|j: int|
                        #![trigger members@[j]]
                        0 <= j < i ==> !(indicates_quota_spec(members@[j].0@)
                            || json_indicates_quota_spec(members@[j].1)),
                decreases members.len() - i,
            {
                proof {
                    assert(decreases_to!(*value => (*value)->Object_0));
                    assert(decreases_to!((*value)->Object_0 => (*value)->Object_0@));
                    assert(decreases_to!((*value)->Object_0@ => (*value)->Object_0@[i as int]));
                    assert(decreases_to!((*value)->Object_0@[i as int] => (*value)->Object_0@[i as int].1));
                }
                let key_hit = text_indicates_quota(members[i].0.as_str());
                let hit = if key_hit {
                    true
                } else {
                    json_indicates_quota(&members[i].1)
                };
                assert(hit == (indicates_quota_spec(members@[i as int].0@) || json_indicates_quota_spec(
                    members@[i as int].1,
                )));
                if hit {
                    found = true;
                }
                i = i + 1;
            }
            assert(found == json_indicates_quota_spec(*value));
        },
        _ => {
            assert(!json_indicates_quota_spec(*value));
        },
    }
    found
}

/// The error code an error event carries: under `codexErrorInfo`,
/// `codex_error_info` or `code` (a string, or the first member name of an
/// object), else the first code found in the object's values in order.
pub open spec fn direct_code(members: Seq<(String, JsonValue)>) -> Option<Seq<char>> {
    match direct_code_for(members, "codexErrorInfo"@) {
        Some(c) => Some(c),
        None => match direct_code_for(members, "codex_error_info"@) {
            Some(c) => Some(c),
            None => direct_code_for(members, "code"@),
        },
    }
}

pub open spec fn direct_code_for(members: Seq<(String, JsonValue)>, key: Seq<char>) -> Option<Seq<char>> {
    match member(members, key) {
        Some(JsonValue::String(s)) => Some(s@),
        Some(JsonValue::Object(inner)) => if inner@.len() > 0 {
            Some(inner@[0].0@)
        } else {
            None
        },
        _ => None,
    }
}

/// The number of members of an object value.
pub open spec fn members_len(value: JsonValue) -> int {
    match value {
        JsonValue::Object(m) => m@.len() as int,
        _ => 0,
    }
}

pub open spec fn find_error_code_spec(value: JsonValue) -> Option<Seq<char>>
    decreases value, 1int, 0int,
{
    match value {
        JsonValue::Object(members) => match direct_code(members@) {
            Some(c) => Some(c),
            None => first_code_from(value, 0),
        },
        _ => None,
    }
}

/// The first code found in an object's member values from member `i` on.
pub open spec fn first_code_from(value: JsonValue, i: int) -> Option<Seq<char>>
    decreases value, 0int, members_len(value) - i,
{
    match value {
        JsonValue::Object(members) => if 0 <= i < members@.len() {
            match find_error_code_spec(members@[i].1) {
                Some(c) => Some(c),
                None => first_code_from(value, i + 1),
            }
        } else {
            None
        },
        _ => None,
    }
}

/// The first string member named by one of `names` (in that order), here
/// or, failing that, in the object's values in order.
pub open spec fn direct_named(members: Seq<(String, JsonValue)>, names: Seq<Seq<char>>) -> Option<Seq<char>>
    decreases names.len(),
{
    if names.len() == 0 {
        None
    } else {
        match as_text(member(members, names[0])) {
            Some(t) => Some(t),
            None => direct_named(members, names.drop_first()),
        }
    }
}

pub open spec fn find_named_spec(value: JsonValue, names: Seq<Seq<char>>) -> Option<Seq<char>>
    decreases value, 1int, 0int,
{
    match value {
        JsonValue::Object(members) => match direct_named(members@, names) {
            Some(t) => Some(t),
            None => first_named_from(value, names, 0),
        },
        _ => None,
    }
}

pub open spec fn first_named_from(value: JsonValue, names: Seq<Seq<char>>, i: int) -> Option<Seq<char>>
    decreases value, 0int, members_len(value) - i,
{
    match value {
        JsonValue::Object(members) => if 0 <= i < members@.len() {
            match find_named_spec(members@[i].1, names) {
                Some(t) => Some(t),
                None => first_named_from(value, names, i + 1),
            }
        } else {
            None
        },
        _ => None,
    }
}

// ---------------------------------------------------------------------------
// Finding codes and messages
// ---------------------------------------------------------------------------
pub open spec fn opt_view(o: Option<String>) -> Option<Seq<char>> {
    match o {
        Some(s) => Some(s@),
        None => None,
    }
}

fn direct_code_for_exec(members: &Vec<(String, JsonValue)>, key: &str) -> (r: Option<String>)
    ensures
        opt_view(r) == direct_code_for(members@, key@),
{
    match member_exec(members, key) {
        Some(JsonValue::String(s)) => Some(s.as_str().to_owned()),
        Some(JsonValue::Object(inner)) => if inner.len() > 0 {
            Some(inner[0].0.as_str().to_owned())
        } else {
            None
        },
        _ => None,
    }
}

fn direct_code_exec(members: &Vec<(String, JsonValue)>) -> (r: Option<String>)
    ensures
        opt_view(r) == direct_code(members@),
{
    match direct_code_for_exec(members, "codexErrorInfo") {
        Some(c) => Some(c),
        None => match direct_code_for_exec(members, "codex_error_info") {
            Some(c) => Some(c),
            None => direct_code_for_exec(members, "code"),
        },
    }
}

/// The error code of an error event (see `find_error_code_spec`).
pub fn find_error_code(value: &JsonValue) -> (r: Option<String>)
    ensures
        opt_view(r) == find_error_code_spec(*value),
    decreases value,
{
    match value {
        JsonValue::Object(members) => {
            match direct_code_exec(members) {
                Some(c) => {
                    return Some(c);
                },
                None => {},
            }
            let mut i: usize = 0;
            while i < members.len()
                invariant
                    i <= members@.len(),
                    *value == JsonValue::Object(*members),
                    direct_code(members@) is None,
                    first_code_from(*value, 0) == first_code_from(*value, i as int),
                decreases members.len() - i,
            {
                proof {
                    assert(decreases_to!(*value => (*value)->Object_0));
                    assert(decreases_to!((*value)->Object_0 => (*value)->Object_0@));
                    assert(decreases_to!((*value)->Object_0@ => (*value)->Object_0@[i as int]));
                    assert(decreases_to!((*value)->Object_0@[i as int] => (*value)->Object_0@[i as int].1));
                }
                match find_error_code(&members[i].1) {
                    Some(c) => {
                        return Some(c);
                    },
                    None => {},
                }
                i = i + 1;
            }
            None
        },
        _ => None,
    }
}

/// The names under which an error event's message is found.
pub open spec fn message_names() -> Seq<Seq<char>> {
    seq!["message"@, "detail"@]
}

fn direct_message_exec(members: &Vec<(String, JsonValue)>) -> (r: Option<String>)
    ensures
        opt_view(r) == direct_named(members@, message_names()),
{
    assert(message_names().drop_first() =~= seq!["detail"@]);
    assert(message_names().drop_first().drop_first() =~= Seq::<Seq<char>>::empty());
    proof {
        reveal_with_fuel(direct_named, 3);
    }
    match member_exec(members, "message") {
        Some(JsonValue::String(s)) => {
            return Some(s.as_str().to_owned());
        },
        _ => {},
    }
    match member_exec(members, "detail") {
        Some(JsonValue::String(s)) => Some(s.as_str().to_owned()),
        _ => None,
    }
}

/// The message of an error event: a `message` or `detail` string, here or
/// nested.
pub fn find_error_message(value: &JsonValue) -> (r: Option<String>)
    ensures
        opt_view(r) == find_named_spec(*value, message_names()),
    decreases value,
{
    match value {
        JsonValue::Object(members) => {
            match direct_message_exec(members) {
                Some(c) => {
                    return Some(c);
                },
                None => {},
            }
            let mut i: usize = 0;
            while i < members.len()
                invariant
                    i <= members@.len(),
                    *value == JsonValue::Object(*members),
                    direct_named(members@, message_names()) is None,
                    first_named_from(*value, message_names(), 0) == first_named_from(
                        *value,
                        message_names(),
                        i as int,
                    ),
                decreases members.len() - i,
            {
                proof {
                    assert(decreases_to!(*value => (*value)->Object_0));
                    assert(decreases_to!((*value)->Object_0 => (*value)->Object_0@));
                    assert(decreases_to!((*value)->Object_0@ => (*value)->Object_0@[i as int]));
                    assert(decreases_to!((*value)->Object_0@[i as int] => (*value)->Object_0@[i as int].1));
                }
                match find_error_message(&members[i].1) {
                    Some(c) => {
                        return Some(c);
                    },
                    None => {},
                }
                i = i + 1;
            }
            None
        },
        _ => None,
    }
}

// ---------------------------------------------------------------------------
// Token usage
// ---------------------------------------------------------------------------
/// The tokens one call used.
#[derive(Clone, Copy, Debug, PartialEq, Eq, Structural)]
pub struct CodexTokenUsage {
    pub input_tokens: i64,
    pub cached_input_tokens: i64,
    pub output_tokens: i64,
    pub reasoning_output_tokens: i64,
}

/// `value.as_u64()`.
pub open spec fn as_count(value: Option<JsonValue>) -> Option<u64> {
    match value {
        Some(JsonValue::Number(n)) => n,
        _ => None,
    }
}

/// A required token count: a non-negative integer that fits an `i64`.
pub open spec fn token_field_spec(usage: JsonValue, field: Seq<char>) -> Result<i64, Seq<char>> {
    match as_count(get(usage, field)) {
        None => Err("missing "@ + field),
        Some(n) => if n > i64::MAX {
            Err(field + " is too large"@)
        } else {
            Ok(n as i64)
        },
    }
}

/// An optional token count: zero when absent.
pub open spec fn optional_token_spec(usage: JsonValue, field: Seq<char>) -> Result<i64, Seq<char>> {
    if get(usage, field) is None {
        Ok(0)
    } else {
        token_field_spec(usage, field)
    }
}

/// The usage a `turn.completed` event reports.
pub open spec fn token_usage_spec(usage: JsonValue) -> Result<CodexTokenUsage, Seq<char>> {
    match token_field_spec(usage, "input_tokens"@) {
        Err(m) => Err(m),
        Ok(input) => match optional_token_spec(usage, "cached_input_tokens"@) {
            Err(m) => Err(m),
            Ok(cached) => match token_field_spec(usage, "output_tokens"@) {
                Err(m) => Err(m),
                Ok(output) => match optional_token_spec(usage, "reasoning_output_tokens"@) {
                    Err(m) => Err(m),
                    Ok(reasoning) => Ok(
                        CodexTokenUsage {
                            input_tokens: input,
                            cached_input_tokens: cached,
                            output_tokens: output,
                            reasoning_output_tokens: reasoning,
                        },
                    ),
                },
            },
        },
    }
}

fn concat_str(a: &str, b: &str) -> (r: String)
    ensures
        r@ == a@ + b@,
{
    let mut out: Vec<char> = Vec::new();
    crate::text::push_str(&mut out, a);
    crate::text::push_str(&mut out, b);
    string_from_chars(out.as_slice())
}

fn token_field(usage: &JsonValue, field: &str) -> (r: Result<i64, String>)
    ensures
        match token_field_spec(*usage, field@) {
            Ok(n) => r == Ok::<i64, String>(n),
            Err(m) => r matches Err(x) && x@ == m,
        },
{
    match get_exec(usage, field) {
        Some(JsonValue::Number(Some(n))) => if *n > 0x7fff_ffff_ffff_ffffu64 {
            Err(concat_str(field, " is too large"))
        } else {
            Ok(*n as i64)
        },
        _ => Err(concat_str("missing ", field)),
    }
}

fn optional_token_field(usage: &JsonValue, field: &str) -> (r: Result<i64, String>)
    ensures
        match optional_token_spec(*usage, field@) {
            Ok(n) => r == Ok::<i64, String>(n),
            Err(m) => r matches Err(x) && x@ == m,
        },
{
    match get_exec(usage, field) {
        None => Ok(0),
        Some(_) => token_field(usage, field),
    }
}

/// Reads the usage of a `turn.completed` event (see `token_usage_spec`).
pub fn parse_token_usage(usage: &JsonValue) -> (r: Result<CodexTokenUsage, SummarizationError>)
    ensures
        match token_usage_spec(*usage) {
            Ok(u) => r == Ok::<CodexTokenUsage, SummarizationError>(u),
            Err(m) => r matches Err(SummarizationError::InvalidEventStream(x)) && x@ == m,
        },
{
    let input = match token_field(usage, "input_tokens") {
        Ok(v) => v,
        Err(m) => return Err(SummarizationError::InvalidEventStream(m)),
    };
    let cached = match optional_token_field(usage, "cached_input_tokens") {
        Ok(v) => v,
        Err(m) => return Err(SummarizationError::InvalidEventStream(m)),
    };
    let output = match token_field(usage, "output_tokens") {
        Ok(v) => v,
        Err(m) => return Err(SummarizationError::InvalidEventStream(m)),
    };
    let reasoning = match optional_token_field(usage, "reasoning_output_tokens") {
        Ok(v) => v,
        Err(m) => return Err(SummarizationError::InvalidEventStream(m)),
    };
    Ok(
        CodexTokenUsage {
            input_tokens: input,
            cached_input_tokens: cached,
            output_tokens: output,
            reasoning_output_tokens: reasoning,
        },
    )
}

// ---------------------------------------------------------------------------
// The event stream
// ---------------------------------------------------------------------------
/// ASCII whitespace (`u8::is_ascii_whitespace`).
pub open spec fn ascii_space(b: u8) -> bool {
    b == 32 || b == 9 || b == 10 || b == 12 || b == 13
}

/// `b` without leading and trailing ASCII whitespace.
pub open spec fn trim_ascii_spec(b: Seq<u8>) -> Seq<u8>
    decreases b.len(),
{
    if b.len() > 0 && ascii_space(b[0]) {
        trim_ascii_spec(b.drop_first())
    } else if b.len() > 0 && ascii_space(b.last()) {
        trim_ascii_spec(b.drop_last())
    } else {
        b
    }
}

/// The pieces of a byte string between `\n` bytes.
pub open spec fn byte_pieces(b: Seq<u8>) -> Seq<Seq<u8>>
    decreases b.len(),
{
    if b.len() == 0 {
        seq![Seq::empty()]
    } else {
        let p = byte_pieces(b.drop_last());
        if b.last() == 10 {
            p.push(Seq::empty())
        } else {
            p.update(p.len() - 1, p.last().push(b.last()))
        }
    }
}

/// The event lines of a stream: its `\n`-separated pieces, trimmed, blank
/// ones dropped.
pub open spec fn event_lines_spec(b: Seq<u8>) -> Seq<Seq<u8>> {
    byte_pieces(b).map_values(|p: Seq<u8>| trim_ascii_spec(p)).filter(|p: Seq<u8>| p.len() > 0)
}

pub open spec fn byte_views(v: Seq<Vec<u8>>) -> Seq<Seq<u8>> {
    v.map_values(|x: Vec<u8>| x@)
}

fn trim_ascii_exec(b: &[u8]) -> (r: Vec<u8>)
    ensures
        r@ == trim_ascii_spec(b@),
{
    let mut lo: usize = 0;
    let mut hi: usize = b.len();
    assert(b@.subrange(0, b@.len() as int) =~= b@);
    while lo < hi && (b[lo] == 32 || b[lo] == 9 || b[lo] == 10 || b[lo] == 12 || b[lo] == 13)
        invariant
            lo <= hi == b@.len(),
            trim_ascii_spec(b@) == trim_ascii_spec(b@.subrange(lo as int, hi as int)),
        decreases hi - lo,
    {
        assert(b@.subrange(lo as int, hi as int).drop_first() =~= b@.subrange(lo + 1, hi as int));
        lo = lo + 1;
    }
    while lo < hi && (b[hi - 1] == 32 || b[hi - 1] == 9 || b[hi - 1] == 10 || b[hi - 1] == 12
        || b[hi - 1] == 13)
        invariant
            lo <= hi <= b@.len(),
            lo == hi || !ascii_space(b@[lo as int]),
            trim_ascii_spec(b@) == trim_ascii_spec(b@.subrange(lo as int, hi as int)),
        decreases hi - lo,
    {
        let ghost s = b@.subrange(lo as int, hi as int);
        assert(s[0] == b@[lo as int]);
        assert(s.drop_last() =~= b@.subrange(lo as int, hi - 1));
        hi = hi - 1;
    }
    let mut out: Vec<u8> = Vec::new();
    let mut i = lo;
    while i < hi
        invariant
            lo <= i <= hi <= b@.len(),
            out@ == b@.subrange(lo as int, i as int),
        decreases hi - i,
    {
        out.push(b[i]);
        assert(b@.subrange(lo as int, i + 1) =~= b@.subrange(lo as int, i as int).push(b@[i as int]));
        i = i + 1;
    }
    proof {
        let s = b@.subrange(lo as int, hi as int);
        if s.len() > 0 {
            assert(s[0] == b@[lo as int]);
            assert(s.last() == b@[hi - 1]);
        }
    }
    out
}

/// The event lines of a stream (see `event_lines_spec`).
pub fn event_lines(output: &[u8]) -> (r: Vec<Vec<u8>>)
    ensures
        byte_views(r@) == event_lines_spec(output@),
{
    let mut pieces: Vec<Vec<u8>> = Vec::new();
    let mut current: Vec<u8> = Vec::new();
    let mut i: usize = 0;
    assert(output@.take(0) =~= Seq::<u8>::empty());
    assert(byte_views(pieces@).push(current@) =~= byte_pieces(output@.take(0)));
    while i < output.len()
        invariant
            i <= output@.len(),
            byte_views(pieces@).push(current@) == byte_pieces(output@.take(i as int)),
        decreases output.len() - i,
    {
        let c = output[i];
        let ghost before = byte_views(pieces@).push(current@);
        assert(output@.take(i + 1).drop_last() =~= output@.take(i as int));
        if c == 10 {
            let done = current;
            pieces.push(done);
            current = Vec::new();
            assert(byte_views(pieces@).push(current@) =~= before.push(Seq::empty()));
        } else {
            current.push(c);
            assert(byte_views(pieces@).push(current@) =~= before.update(before.len() - 1, before.last().push(c)));
        }
        i = i + 1;
    }
    assert(output@.take(output@.len() as int) =~= output@);
    let ghost pre = byte_views(pieces@);
    let ghost cur = current@;
    pieces.push(current);
    assert(byte_views(pieces@) =~= pre.push(cur));
    let ghost all = byte_views(pieces@);
    let ghost trimmed = all.map_values(|p: Seq<u8>| trim_ascii_spec(p));
    let mut out: Vec<Vec<u8>> = Vec::new();
    let mut k: usize = 0;
    proof {
        reveal(Seq::filter);
    }
    assert(trimmed.take(0).filter(|p: Seq<u8>| p.len() > 0) =~= Seq::<Seq<u8>>::empty());
    while k < pieces.len()
        invariant
            k <= pieces@.len(),
            all == byte_views(pieces@),
            trimmed == all.map_values(|p: Seq<u8>| trim_ascii_spec(p)),
            byte_views(out@) == trimmed.take(k as int).filter(|p: Seq<u8>| p.len() > 0),
        decreases pieces.len() - k,
    {
        proof {
            assert(trimmed.take(k + 1) =~= trimmed.take(k as int).push(trimmed[k as int]));
            trimmed.take(k as int).lemma_filter_push(trimmed[k as int], |p: Seq<u8>| p.len() > 0);
        }
        let t = trim_ascii_exec(pieces[k].as_slice());
        assert(t@ == trimmed[k as int]);
        if t.len() > 0 {
            let ghost before = byte_views(out@);
            out.push(t);
            assert(byte_views(out@) =~= before.push(trimmed[k as int]));
        }
        k = k + 1;
    }
    assert(trimmed.take(trimmed.len() as int) =~= trimmed);
    out
}

/// What an event stream reported.
#[derive(Clone, Debug, PartialEq, Eq)]
pub struct CodexExecEvents {
    pub thread_id: Option<String>,
    pub usage: Option<CodexTokenUsage>,
    pub error_code: Option<String>,
    pub error_message: Option<String>,
    pub quota_limited: bool,
}

/// The value of an event report.
pub struct EventsView {
    pub thread_id: Option<Seq<char>>,
    pub usage: Option<CodexTokenUsage>,
    pub error_code: Option<Seq<char>>,
    pub error_message: Option<Seq<char>>,
    pub quota_limited: bool,
}

pub open spec fn events_view(e: CodexExecEvents) -> EventsView {
    EventsView {
        thread_id: opt_view(e.thread_id),
        usage: e.usage,
        error_code: opt_view(e.error_code),
        error_message: opt_view(e.error_message),
        quota_limited: e.quota_limited,
    }
}

pub open spec fn first_of(a: Option<Seq<char>>, b: Option<Seq<char>>) -> Option<Seq<char>> {
    match a {
        Some(x) => Some(x),
        None => b,
    }
}

/// What one event does to the report: `thread.started` records the
/// thread; `turn.completed` records the usage it carries; `turn.failed` and
/// `error` record a quota signal and the first error code and message. An
/// unreadable usage fails the stream with its message.
pub open spec fn event_step(e: EventsView, event: JsonValue) -> Result<EventsView, Seq<char>> {
    let kind = as_text(get(event, "type"@));
    if kind == Some("thread.started"@) {
        Ok(EventsView { thread_id: as_text(get(event, "thread_id"@)), ..e })
    } else if kind == Some("turn.completed"@) {
        match get(event, "usage"@) {
            None => Ok(e),
            Some(u) => match token_usage_spec(u) {
                Ok(usage) => Ok(EventsView { usage: Some(usage), ..e }),
                Err(m) => Err(m),
            },
        }
    } else if kind == Some("turn.failed"@) || kind == Some("error"@) {
        Ok(
            EventsView {
                quota_limited: e.quota_limited || json_indicates_quota_spec(event),
                error_code: first_of(e.error_code, find_error_code_spec(event)),
                error_message: first_of(e.error_message, find_named_spec(event, message_names())),
                ..e
            },
        )
    } else {
        Ok(e)
    }
}

pub open spec fn no_events() -> EventsView {
    EventsView { thread_id: None, usage: None, error_code: None, error_message: None, quota_limited: false }
}

/// The report of a stream's event lines, each already parsed as JSON (or
/// the parser's message): the first unparsable line fails the stream as
/// invalid JSON (`true`), an unreadable usage as an invalid stream
/// (`false`).
pub open spec fn events_after(lines: Seq<Result<JsonValue, String>>) -> Result<EventsView, (bool, Seq<char>)>
    decreases lines.len(),
{
    if lines.len() == 0 {
        Ok(no_events())
    } else {
        match events_after(lines.drop_last()) {
            Err(x) => Err(x),
            Ok(e) => match lines.last() {
                Err(m) => Err((true, m@)),
                Ok(v) => match event_step(e, v) {
                    Ok(e2) => Ok(e2),
                    Err(m) => Err((false, m)),
                },
            },
        }
    }
}

fn kind_is(event: &JsonValue, k: &str) -> (r: bool)
    ensures
        r == (as_text(get(*event, "type"@)) == Some(k@)),
{
    match get_exec(event, "type") {
        Some(JsonValue::String(s)) => eq_str(chars_of(s.as_str()).as_slice(), k),
        _ => false,
    }
}

/// Reads a stream's parsed event lines (see `events_after`).
pub fn parse_exec_events(lines: &Vec<Result<JsonValue, String>>) -> (r: Result<CodexExecEvents, SummarizationError>)
    ensures
        match events_after(lines@) {
            Ok(e) => r matches Ok(x) && events_view(x) == e,
            Err((true, m)) => r matches Err(SummarizationError::Json(x)) && x@ == m,
            Err((false, m)) => r matches Err(SummarizationError::InvalidEventStream(x)) && x@ == m,
        },
{
    let mut events = CodexExecEvents {
        thread_id: None,
        usage: None,
        error_code: None,
        error_message: None,
        quota_limited: false,
    };
    let mut i: usize = 0;
    assert(lines@.take(0) =~= Seq::<Result<JsonValue, String>>::empty());
    while i < lines.len()
        invariant
            i <= lines@.len(),
            events_after(lines@.take(i as int)) == Ok::<EventsView, (bool, Seq<char>)>(events_view(events)),
        decreases lines.len() - i,
    {
        assert(lines@.take(i + 1).drop_last() =~= lines@.take(i as int));
        assert(lines@.take(i + 1).last() == lines@[i as int]);
        let ghost before = events_view(events);
        match &lines[i] {
            Err(m) => {
                proof {
                    lemma_events_err_extends(lines@, i as int + 1);
                }
                return Err(SummarizationError::Json(m.as_str().to_owned()));
            },
            Ok(event) => {
                if kind_is(event, "thread.started") {
                    events.thread_id = text_of(get_exec(event, "thread_id"));
                } else if kind_is(event, "turn.completed") {
                    match get_exec(event, "usage") {
                        None => {},
                        Some(u) => match parse_token_usage(u) {
                            Ok(usage) => {
                                events.usage = Some(usage);
                            },
                            Err(e) => {
                                proof {
                                    lemma_events_err_extends(lines@, i as int + 1);
                                }
                                return Err(e);
                            },
                        },
                    }
                } else if kind_is(event, "turn.failed") || kind_is(event, "error") {
                    let quota = json_indicates_quota(event);
                    events.quota_limited = events.quota_limited || quota;
                    if events.error_code.is_none() {
                        events.error_code = find_error_code(event);
                    }
                    if events.error_message.is_none() {
                        events.error_message = find_error_message(event);
                    }
                }
                assert(event_step(before, *event) == Ok::<EventsView, Seq<char>>(events_view(events)));
            },
        }
        i = i + 1;
    }
    assert(lines@.take(lines@.len() as int) =~= lines@);
    Ok(events)
}

proof fn lemma_events_err_extends(lines: Seq<Result<JsonValue, String>>, k: int)
    requires
        0 <= k <= lines.len(),
        events_after(lines.take(k)) is Err,
    ensures
        events_after(lines) == events_after(lines.take(k)),
    decreases lines.len() - k,
{
    if k < lines.len() {
        assert(lines.take(k + 1).drop_last() =~= lines.take(k));
        lemma_events_err_extends(lines, k + 1);
    } else {
        assert(lines.take(k) =~= lines);
    }
}

// ---------------------------------------------------------------------------
// Messages
// ---------------------------------------------------------------------------
pub open spec fn signed_decimal(v: int) -> Seq<char> {
    if v < 0 {
        seq!['-'] + crate::trust::decimal_spec((-v) as nat)
    } else {
        crate::trust::decimal_spec(v as nat)
    }
}

fn decimal_u64(n: u64) -> (r: Vec<char>)
    ensures
        r@ == crate::trust::decimal_spec(n as nat),
    decreases n,
{
    let d: u32 = (n % 10) as u32;
    let c = crate::text::char_from_ascii(48 + d);
    if n < 10 {
        let mut v: Vec<char> = Vec::new();
        v.push(c);
        assert(v@ =~= crate::trust::decimal_spec(n as nat));
        v
    } else {
        let mut v = decimal_u64(n / 10);
        v.push(c);
        assert(v@ =~= crate::trust::decimal_spec(n as nat));
        v
    }
}

fn signed_decimal_i64(v: i64) -> (r: Vec<char>)
    ensures
        r@ == signed_decimal(v as int),
{
    if v < 0 {
        let magnitude: u64 = if v == i64::MIN {
            0x8000_0000_0000_0000u64
        } else {
            (-v) as u64
        };
        let mut out: Vec<char> = Vec::new();
        out.push('-');
        crate::text::push_all(&mut out, decimal_u64(magnitude).as_slice());
        out
    } else {
        decimal_u64(v as u64)
    }
}

/// The text of a summarisation failure.
pub open spec fn error_message_spec(e: SummarizationError) -> Seq<char> {
    match e {
        SummarizationError::RuntimeUnavailable(t) => "no executable Codex runtime was detected for capture target "@ + t@,
        SummarizationError::InvalidWslDistro(d) => "invalid WSL distribution: "@ + d@,
        SummarizationError::PromptTooLarge(n) => "prompt exceeds the 8000-character summary input limit: "@ + crate::trust::decimal_spec(n as nat),
        SummarizationError::CurationInputTooLarge(n) => "curation input exceeds the 65536-byte limit: "@ + crate::trust::decimal_spec(n as nat),
        SummarizationError::UnexpectedModel(m) => "summary job requested an unexpected model: "@ + m@,
        SummarizationError::Io(m) => "unable to access isolated summary workspace: "@ + m@,
        SummarizationError::MissingStdin => "summary process stdin was unavailable"@,
        SummarizationError::MissingStdout => "summary process stdout was unavailable"@,
        SummarizationError::MissingStderr => "summary process stderr was unavailable"@,
        SummarizationError::InvalidRuntimePath => "summary runtime path cannot be represented for the selected Codex installation"@,
        SummarizationError::Timeout => "Codex Spark timed out"@,
        SummarizationError::QuotaCircuitOpen { retry_at_us } => "Codex Spark quota circuit is open until "@ + signed_decimal(retry_at_us as int),
        SummarizationError::QuotaLimited { message, .. } => "Codex Spark usage limit exceeded: "@ + message@,
        SummarizationError::OutputTooLarge => "Codex Spark output exceeded the bounded buffer"@,
        SummarizationError::CommandFailed(c) => "Codex Spark exited unsuccessfully with code "@ + signed_decimal(c as int),
        SummarizationError::Json(m) => "Codex Spark returned invalid structured JSON: "@ + m@,
        SummarizationError::InvalidEventStream(m) => "Codex Spark returned an invalid JSON event stream: "@ + m@,
        SummarizationError::InvalidLines(m) => "Codex Spark returned invalid summary lines: "@ + m@,
        SummarizationError::InvalidPromptText(m) => "Codex Spark returned an invalid prompt summary: "@ + m@,
        SummarizationError::InvalidCurationOutput(m) => "Codex Spark returned an invalid work curation proposal: "@ + m@,
        SummarizationError::Join(m) => "summary output reader failed: "@ + m@,
        SummarizationError::Clock(m) => "system clock is before the Unix epoch: "@ + m@,
        SummarizationError::UsageStore(m) => "unable to access Codex usage telemetry: "@ + m@,
    }
}

fn with_text(prefix: &str, text: &str) -> (r: String)
    ensures
        r@ == prefix@ + text@,
{
    concat_str(prefix, text)
}

fn with_digits(prefix: &str, digits: Vec<char>) -> (r: String)
    ensures
        r@ == prefix@ + digits@,
{
    let mut out: Vec<char> = Vec::new();
    crate::text::push_str(&mut out, prefix);
    crate::text::push_all(&mut out, digits.as_slice());
    string_from_chars(out.as_slice())
}

/// The text of a summarisation failure (see `error_message_spec`).
pub fn error_message(e: &SummarizationError) -> (r: String)
    ensures
        r@ == error_message_spec(*e),
{
    match e {
        SummarizationError::RuntimeUnavailable(t) => with_text("no executable Codex runtime was detected for capture target ", t.as_str()),
        SummarizationError::InvalidWslDistro(d) => with_text("invalid WSL distribution: ", d.as_str()),
        SummarizationError::PromptTooLarge(n) => with_digits("prompt exceeds the 8000-character summary input limit: ", crate::trust::decimal_digits(*n)),
        SummarizationError::CurationInputTooLarge(n) => with_digits("curation input exceeds the 65536-byte limit: ", crate::trust::decimal_digits(*n)),
        SummarizationError::UnexpectedModel(m) => with_text("summary job requested an unexpected model: ", m.as_str()),
        SummarizationError::Io(m) => with_text("unable to access isolated summary workspace: ", m.as_str()),
        SummarizationError::MissingStdin => "summary process stdin was unavailable".to_owned(),
        SummarizationError::MissingStdout => "summary process stdout was unavailable".to_owned(),
        SummarizationError::MissingStderr => "summary process stderr was unavailable".to_owned(),
        SummarizationError::InvalidRuntimePath => "summary runtime path cannot be represented for the selected Codex installation".to_owned(),
        SummarizationError::Timeout => "Codex Spark timed out".to_owned(),
        SummarizationError::QuotaCircuitOpen { retry_at_us } => with_digits("Codex Spark quota circuit is open until ", signed_decimal_i64(*retry_at_us)),
        SummarizationError::QuotaLimited { message, .. } => with_text("Codex Spark usage limit exceeded: ", message.as_str()),
        SummarizationError::OutputTooLarge => "Codex Spark output exceeded the bounded buffer".to_owned(),
        SummarizationError::CommandFailed(c) => with_digits("Codex Spark exited unsuccessfully with code ", signed_decimal_i64(*c as i64)),
        SummarizationError::Json(m) => with_text("Codex Spark returned invalid structured JSON: ", m.as_str()),
        SummarizationError::InvalidEventStream(m) => with_text("Codex Spark returned an invalid JSON event stream: ", m.as_str()),
        SummarizationError::InvalidLines(m) => with_text("Codex Spark returned invalid summary lines: ", m.as_str()),
        SummarizationError::InvalidPromptText(m) => with_text("Codex Spark returned an invalid prompt summary: ", m.as_str()),
        SummarizationError::InvalidCurationOutput(m) => with_text("Codex Spark returned an invalid work curation proposal: ", m.as_str()),
        SummarizationError::Join(m) => with_text("summary output reader failed: ", m.as_str()),
        SummarizationError::Clock(m) => with_text("system clock is before the Unix epoch: ", m.as_str()),
        SummarizationError::UsageStore(m) => with_text("unable to access Codex usage telemetry: ", m.as_str()),
    }
}

// ---------------------------------------------------------------------------
// Classifying and recording a call
// ---------------------------------------------------------------------------
/// How long a usage-limited model is left alone.
pub const QUOTA_CIRCUIT_COOLDOWN_US: i64 = 3_600_000_000;

/// What follows a finished call: a failure, or reading its final output.
#[derive(Clone, Debug, PartialEq, Eq)]
pub enum CallOutcome {
    Fail(SummarizationError),
    ReadFinalOutput,
}

/// The message a usage-limit failure carries: the stream's error message
/// unless blank, else the trimmed standard error unless empty, else a fixed
/// text.
pub open spec fn quota_message(events_message: Option<Seq<char>>, stderr: Seq<char>) -> Seq<char> {
    match events_message {
        Some(m) => if crate::text::trim_spec(m).len() > 0 {
            m
        } else if stderr.len() > 0 {
            stderr
        } else {
            "Codex usage limit exceeded"@
        },
        None => if stderr.len() > 0 {
            stderr
        } else {
            "Codex usage limit exceeded"@
        },
    }
}

/// The report a stream gave, or none when it could not be read.
pub open spec fn reported(events: Result<CodexExecEvents, SummarizationError>) -> EventsView {
    match events {
        Ok(e) => events_view(e),
        Err(_) => no_events(),
    }
}

/// What a finished call leads to. A usage limit (reported by the stream,
/// or named in the output of a failed process) fails the call until the
/// cooldown passes; otherwise an overfull output buffer, a failed process
/// (code -1 when killed), then an unreadable stream fail it, in that order.
pub open spec fn classify_matches(
    events: Result<CodexExecEvents, SummarizationError>,
    success: bool,
    exit_code: Option<i32>,
    stdout_text: Seq<char>,
    stderr_text: Seq<char>,
    output_exceeded: bool,
    completed_at_us: i64,
    r: CallOutcome,
) -> bool {
    let ev = reported(events);
    let stderr = crate::text::trim_spec(stderr_text);
    let quota = ev.quota_limited || (!success && (indicates_quota_spec(stdout_text)
        || indicates_quota_spec(stderr)));
    if quota {
        r matches CallOutcome::Fail(SummarizationError::QuotaLimited { retry_at_us, message })
            && retry_at_us == crate::spool::saturating_i64(completed_at_us + 3_600_000_000)
            && message@ == quota_message(ev.error_message, stderr)
    } else if output_exceeded {
        r == CallOutcome::Fail(SummarizationError::OutputTooLarge)
    } else if !success {
        r == CallOutcome::Fail(
            SummarizationError::CommandFailed(
                match exit_code {
                    Some(c) => c,
                    None => -1i32,
                },
            ),
        )
    } else {
        match events {
            Err(e) => r == CallOutcome::Fail(e),
            Ok(_) => r == CallOutcome::ReadFinalOutput,
        }
    }
}

/// Classifies a finished call (see `classify_matches`); `output_exceeded`
/// tells whether standard output or error overflowed its buffer.
pub fn classify_call(
    events: &Result<CodexExecEvents, SummarizationError>,
    success: bool,
    exit_code: Option<i32>,
    stdout_text: &str,
    stderr_text: &str,
    output_exceeded: bool,
    completed_at_us: i64,
) -> (r: CallOutcome)
    ensures
        classify_matches(
            *events,
            success,
            exit_code,
            stdout_text@,
            stderr_text@,
            output_exceeded,
            completed_at_us,
            r,
        ),
{
    let stderr = crate::text::trim(chars_of(stderr_text).as_slice());
    let stderr_string = string_from_chars(stderr.as_slice());
    let (stream_quota, stream_message): (bool, Option<String>) = match events {
        Ok(e) => (e.quota_limited, match &e.error_message {
            Some(m) => Some(m.as_str().to_owned()),
            None => None,
        }),
        Err(_) => (false, None),
    };
    let quota = stream_quota || (!success && (text_indicates_quota(stdout_text)
        || text_indicates_quota(stderr_string.as_str())));
    if quota {
        let retry_at_us = crate::spool::saturating_add_i64(completed_at_us, QUOTA_CIRCUIT_COOLDOWN_US);
        let message: String = match stream_message {
            Some(m) => if crate::text::trim(chars_of(m.as_str()).as_slice()).len() > 0 {
                m
            } else if stderr.len() > 0 {
                stderr_string
            } else {
                "Codex usage limit exceeded".to_owned()
            },
            None => if stderr.len() > 0 {
                stderr_string
            } else {
                "Codex usage limit exceeded".to_owned()
            },
        };
        return CallOutcome::Fail(SummarizationError::QuotaLimited { retry_at_us, message });
    }
    if output_exceeded {
        return CallOutcome::Fail(SummarizationError::OutputTooLarge);
    }
    if !success {
        return CallOutcome::Fail(
            SummarizationError::CommandFailed(
                match exit_code {
                    Some(c) => c,
                    None => -1,
                },
            ),
        );
    }
    match events {
        Err(e) => CallOutcome::Fail(e.duplicate()),
        Ok(_) => CallOutcome::ReadFinalOutput,
    }
}

/// How a call ended, as recorded.
#[derive(Clone, Copy, Debug, PartialEq, Eq, Structural)]
pub enum CodexExecStatus {
    Succeeded,
    TimedOut,
    QuotaLimited,
    Failed,
}

/// What is recorded of a call besides its identity and timing.
#[derive(Clone, Debug, PartialEq, Eq)]
pub struct CallRecordFields {
    pub status: CodexExecStatus,
    pub quota_retry_at_us: Option<i64>,
    pub error_code: Option<String>,
    pub error_message: Option<String>,
}

/// The record of a call's result: its status; for a usage limit the
/// retry time and the stream's code (or `UsageLimitExceeded`); for another
/// failure its code; for a success without usage `usage_missing`. The
/// message is the failure's text, else the stream's message, else a note on
/// the missing usage.
pub open spec fn record_matches(result: Result<(), SummarizationError>, ev: EventsView, r: CallRecordFields) -> bool {
    &&& r.status == match result {
        Ok(_) => CodexExecStatus::Succeeded,
        Err(SummarizationError::Timeout) => CodexExecStatus::TimedOut,
        Err(SummarizationError::QuotaLimited { .. }) => CodexExecStatus::QuotaLimited,
        Err(_) => CodexExecStatus::Failed,
    }
    &&& r.quota_retry_at_us == match result {
        Err(SummarizationError::QuotaLimited { retry_at_us, .. }) => Some(retry_at_us),
        _ => None,
    }
    &&& opt_view(r.error_code) == match result {
        Err(SummarizationError::QuotaLimited { .. }) => first_of(ev.error_code, Some("UsageLimitExceeded"@)),
        Err(e) => Some(crate::summary::error_code_spec(e)),
        Ok(_) => if ev.usage is None {
            Some("usage_missing"@)
        } else {
            None
        },
    }
    &&& opt_view(r.error_message) == match result {
        Err(e) => Some(error_message_spec(e)),
        Ok(_) => match ev.error_message {
            Some(m) => Some(m),
            None => if ev.usage is None {
                Some("turn.completed did not include token usage"@)
            } else {
                None
            },
        },
    }
}

fn clone_opt(o: &Option<String>) -> (r: Option<String>)
    ensures
        opt_view(r) == opt_view(*o),
{
    match o {
        Some(s) => Some(s.as_str().to_owned()),
        None => None,
    }
}

/// What to record of a call (see `record_matches`).
pub fn call_record(result: &Result<(), SummarizationError>, events: &CodexExecEvents) -> (r: CallRecordFields)
    ensures
        record_matches(*result, events_view(*events), r),
{
    match result {
        Ok(()) => CallRecordFields {
            status: CodexExecStatus::Succeeded,
            quota_retry_at_us: None,
            error_code: if events.usage.is_none() {
                Some("usage_missing".to_owned())
            } else {
                None
            },
            error_message: match &events.error_message {
                Some(m) => Some(m.as_str().to_owned()),
                None => if events.usage.is_none() {
                    Some("turn.completed did not include token usage".to_owned())
                } else {
                    None
                },
            },
        },
        Err(e) => {
            let message = error_message(e);
            match e {
                SummarizationError::QuotaLimited { retry_at_us, .. } => CallRecordFields {
                    status: CodexExecStatus::QuotaLimited,
                    quota_retry_at_us: Some(*retry_at_us),
                    error_code: match &events.error_code {
                        Some(c) => Some(c.as_str().to_owned()),
                        None => Some("UsageLimitExceeded".to_owned()),
                    },
                    error_message: Some(message),
                },
                SummarizationError::Timeout => CallRecordFields {
                    status: CodexExecStatus::TimedOut,
                    quota_retry_at_us: None,
                    error_code: Some(e.error_code().to_owned()),
                    error_message: Some(message),
                },
                _ => CallRecordFields {
                    status: CodexExecStatus::Failed,
                    quota_retry_at_us: None,
                    error_code: Some(e.error_code().to_owned()),
                    error_message: Some(message),
                },
            }
        },
    }
}

/// What becomes of a failed summary: a quota failure is deferred to its
/// retry time; any other failure is recorded, with a retry time when it can
/// be retried.
#[derive(Clone, Copy, Debug, PartialEq, Eq, Structural)]
pub enum FailurePlan {
    Defer { retry_at_us: i64 },
    Fail { retry_at_us: Option<i64> },
}

/// The plan for a failed summary at `failed_at_us`, given the retry delay
/// of its attempt.
pub open spec fn failure_plan_spec(e: SummarizationError, failed_at_us: i64, delay_us: i64) -> FailurePlan {
    match e {
        SummarizationError::QuotaCircuitOpen { retry_at_us } => FailurePlan::Defer { retry_at_us },
        SummarizationError::QuotaLimited { retry_at_us, .. } => FailurePlan::Defer { retry_at_us },
        _ => FailurePlan::Fail {
            retry_at_us: if crate::summary::is_retryable_spec(e) && i64::MIN <= failed_at_us + delay_us
                <= i64::MAX {
                Some((failed_at_us + delay_us) as i64)
            } else {
                None
            },
        },
    }
}

fn failure_plan(e: &SummarizationError, failed_at_us: i64, delay_us: i64) -> (r: FailurePlan)
    ensures
        r == failure_plan_spec(*e, failed_at_us, delay_us),
{
    match e.quota_retry_at_us() {
        Some(retry_at_us) => FailurePlan::Defer { retry_at_us },
        None => FailurePlan::Fail {
            retry_at_us: if e.is_retryable() {
                failed_at_us.checked_add(delay_us)
            } else {
                None
            },
        },
    }
}

/// The plan for a failed result summary of the given attempt.
pub fn result_failure_plan(e: &SummarizationError, failed_at_us: i64, attempt: i64) -> (r: FailurePlan)
    ensures
        r == failure_plan_spec(*e, failed_at_us, crate::summary::retry_delay_spec(attempt)),
{
    failure_plan(e, failed_at_us, crate::summary::retry_delay_us(attempt))
}

/// The plan for a failed prompt summary.
pub fn prompt_failure_plan(e: &SummarizationError, failed_at_us: i64, attempt: i64) -> (r: FailurePlan)
    ensures
        r == failure_plan_spec(*e, failed_at_us, 10_000_000),
{
    failure_plan(e, failed_at_us, crate::summary::prompt_retry_delay_us(attempt))
}

} // verus!
