//! Automation plans for ECSS/PUS telecommands: plan validation, the
//! commander UDP line protocol, dynamic time tokens and the decisions of the
//! plan runner.
use vstd::prelude::*;
use std::time::{Duration, SystemTime, SystemTimeError};
use crate::text::{
    chars_of, concat, is_white, occurs_at, occurs_at_exec, signed_decimal, string_push,
    trimmed, trim, i64_to_string, u64_to_string, decimal, str_eq, contains_seq,
};
use crate::json::{JsonValue, JsonView, json_view, items_view, entries_view};
use crate::error::{YamcsTcError, tc_error_text};
use crate::yamcs_client::{
    YamcsClient, YamcsConfig, client_default_headers, config_problem, first_where, same_settings,
};
use std::collections::HashMap;

verus! {

broadcast use vstd::string::group_string_axioms;

// ---------------------------------------------------------------------------
// Errors
// ---------------------------------------------------------------------------

/// Errors of automation plans. Parse and I/O failures carry the text of the
/// underlying error.
#[derive(Debug)]
pub enum AutomationError {
    IoError(String),
    TomlError(String),
    JsonError(String),
    ConfigError(String),
    ExecutionError(String),
    NetworkError(String),
    ValidationError(String),
    VerificationError(String),
}

/// The text that the error displays.
pub open spec fn automation_error_text(e: AutomationError) -> Seq<char> {
    match e {
        AutomationError::IoError(m) => "io error: "@ + m@,
        AutomationError::TomlError(m) => "toml parse error: "@ + m@,
        AutomationError::JsonError(m) => "json parse error: "@ + m@,
        AutomationError::ConfigError(m) => "configuration error: "@ + m@,
        AutomationError::ExecutionError(m) => "execution error: "@ + m@,
        AutomationError::NetworkError(m) => "network error: "@ + m@,
        AutomationError::ValidationError(m) => "validation error: "@ + m@,
        AutomationError::VerificationError(m) => "verification error: "@ + m@,
    }
}

/// How a Yamcs error is carried over into an automation error: validation,
/// verification and configuration errors keep their kind and message, every
/// other error becomes a network error holding its displayed text.
pub open spec fn converted_tc_error(e: YamcsTcError, r: AutomationError) -> bool {
    match e {
        YamcsTcError::Validation(m) => r matches AutomationError::ValidationError(n) && n@ == m@,
        YamcsTcError::Verification(m) => r matches AutomationError::VerificationError(n) && n@ == m@,
        YamcsTcError::Config(m) => r matches AutomationError::ConfigError(n) && n@ == m@,
        _ => r matches AutomationError::NetworkError(n) && n@ == tc_error_text(e),
    }
}

impl AutomationError {
    /// The error's message, as `to_string()` gives it.
    pub fn message(&self) -> (r: String)
        ensures
            r@ == automation_error_text(*self),
    {
        match self {
            AutomationError::IoError(m) => concat("io error: ", m.as_str()),
            AutomationError::TomlError(m) => concat("toml parse error: ", m.as_str()),
            AutomationError::JsonError(m) => concat("json parse error: ", m.as_str()),
            AutomationError::ConfigError(m) => concat("configuration error: ", m.as_str()),
            AutomationError::ExecutionError(m) => concat("execution error: ", m.as_str()),
            AutomationError::NetworkError(m) => concat("network error: ", m.as_str()),
            AutomationError::ValidationError(m) => concat("validation error: ", m.as_str()),
            AutomationError::VerificationError(m) => concat("verification error: ", m.as_str()),
        }
    }

    /// The automation error that a Yamcs error becomes.
    pub fn from_tc_error(value: YamcsTcError) -> (r: AutomationError)
        ensures
            converted_tc_error(value, r),
    {
        match value {
            YamcsTcError::Validation(msg) => AutomationError::ValidationError(msg),
            YamcsTcError::Verification(msg) => AutomationError::VerificationError(msg),
            YamcsTcError::Config(msg) => AutomationError::ConfigError(msg),
            other => AutomationError::NetworkError(other.message()),
        }
    }
}

// ---------------------------------------------------------------------------
// Wall clock
// ---------------------------------------------------------------------------

#[verifier::external_type_specification]
#[verifier::external_body]
pub struct ExSystemTime(SystemTime);

/// `SystemTime::now()`. Nothing is stated of the result: it is the machine's clock.
#[verifier::external_body]
fn system_time_now() -> SystemTime {
    SystemTime::now()
}

#[verifier::external_type_specification]
#[verifier::external_body]
pub struct ExSystemTimeError(std::time::SystemTimeError);

/// `t.duration_since(UNIX_EPOCH)`: the time since the epoch, or an error
/// when `t` lies before it. Nothing is stated of the result: `t` is a clock
/// reading, opaque here.
#[verifier::external_body]
fn duration_since_epoch(t: &SystemTime) -> Result<Duration, SystemTimeError> {
    t.duration_since(std::time::UNIX_EPOCH)
}

/// `d.as_secs()`: the whole seconds of a duration. Nothing is stated of the
/// result: the duration is opaque here.
#[verifier::external_body]
fn duration_whole_secs(d: &Duration) -> u64 {
    d.as_secs()
}

/// `e.to_string()`: the displayed text of a clock error. Nothing is stated
/// of the text.
#[verifier::external_body]
fn time_error_text(e: &SystemTimeError) -> String {
    e.to_string()
}

/// What the library makes of a clock reading (whole seconds since the
/// epoch, or the clock's error text): the seconds as an `i64` (`as` cast),
/// or an execution error that carries the clock's text.
pub open spec fn time_from_reading(reading: Result<u64, String>, r: Result<i64, AutomationError>) -> bool {
    match (reading, r) {
        (Ok(s), Ok(n)) => n == crate::beacon::wrap_to_i64(s),
        (Err(e), Err(AutomationError::ExecutionError(m))) => m@ == "system time error: "@ + e@,
        _ => false,
    }
}

/// The result for a clock reading.
fn unix_time_from_reading(reading: Result<u64, String>) -> (r: Result<i64, AutomationError>)
    ensures
        time_from_reading(reading, r),
{
    match reading {
        Ok(secs) => Ok(crate::beacon::wrap_u64(secs)),
        Err(e) => {
            let m = concat("system time error: ", e.as_str());
            Err(AutomationError::ExecutionError(m))
        },
    }
}

/// The current UNIX time in seconds: the clock is read once, and its reading
/// becomes the result as `time_from_reading` says. Which reading comes back
/// is the clock's.
fn current_unix_time_secs() -> (r: Result<i64, AutomationError>)
    ensures
        exists|reading: Result<u64, String>| #[trigger] time_from_reading(reading, r),
        r matches Err(e) ==> e matches AutomationError::ExecutionError(m)
            && "system time error: "@.is_prefix_of(m@),
{
    let now = system_time_now();
    let reading = match duration_since_epoch(&now) {
        Ok(d) => Ok(duration_whole_secs(&d)),
        Err(e) => Err(time_error_text(&e)),
    };
    let ghost g = reading;
    let r = unix_time_from_reading(reading);
    let ghost gr = r;
    proof {
        assert(time_from_reading(g, gr));
        if let Err(AutomationError::ExecutionError(m)) = gr {
            if let Err(e) = g {
                assert("system time error: "@.is_prefix_of(m@)) by {
                    assert(m@.subrange(0, "system time error: "@.len() as int) =~= "system time error: "@);
                }
            }
        }
    }
    r
}

// ---------------------------------------------------------------------------
// Unquoted token replacement
// ---------------------------------------------------------------------------

/// The text produced from `s` when the scan is in the given quoting state:
/// outside a double-quoted string every occurrence of `token` is replaced by
/// `rep`; a `"` not preceded by an unescaped backslash opens or closes a string.
pub open spec fn replace_from(
    s: Seq<char>,
    token: Seq<char>,
    rep: Seq<char>,
    in_string: bool,
    escaped: bool,
) -> Seq<char>
    decreases s.len(),
{
    if s.len() == 0 {
        Seq::empty()
    } else if !in_string && token.len() > 0 && token.is_prefix_of(s) {
        rep + replace_from(s.skip(token.len() as int), token, rep, false, false)
    } else {
        let ch = s[0];
        let next_in = if ch == '"' && !escaped { !in_string } else { in_string };
        let next_escaped = ch == '\\' && !escaped;
        seq![ch] + replace_from(s.drop_first(), token, rep, next_in, next_escaped)
    }
}

/// `s` with every occurrence of `token` outside double-quoted strings replaced by `rep`.
pub open spec fn replace_unquoted(s: Seq<char>, token: Seq<char>, rep: Seq<char>) -> Seq<char> {
    replace_from(s, token, rep, false, false)
}

proof fn lemma_prefix_at(s: Seq<char>, t: Seq<char>, i: int)
    requires
        0 <= i <= s.len(),
    ensures
        t.is_prefix_of(s.skip(i)) == occurs_at(s, t, i),
{
    if occurs_at(s, t, i) {
        assert(s.skip(i).subrange(0, t.len() as int) =~= s.subrange(i, i + t.len()));
    }
    if t.is_prefix_of(s.skip(i)) {
        assert(s.skip(i).subrange(0, t.len() as int) =~= s.subrange(i, i + t.len()));
    }
}

/// `input` with every occurrence of `token` outside double-quoted strings
/// replaced by `replacement`.
pub fn replace_unquoted_token(input: &str, token: &str, replacement: &str) -> (r: String)
    requires
        token@.len() > 0,
    ensures
        r@ == replace_unquoted(input@, token@, replacement@),
{
    let s = chars_of(input);
    let t = chars_of(token);
    let mut out = String::new();
    let mut i: usize = 0;
    let mut in_string = false;
    let mut escaped = false;
    assert(s@.skip(0) =~= s@);
    while i < s.len()
        invariant
            s@ == input@,
            t@ == token@,
            t@.len() > 0,
            i <= s@.len(),
            out@ + replace_from(s@.skip(i as int), t@, replacement@, in_string, escaped)
                == replace_unquoted(input@, token@, replacement@),
        decreases s@.len() - i,
    {
        proof {
            lemma_prefix_at(s@, t@, i as int);
        }
        if !in_string && occurs_at_exec(s.as_slice(), t.as_slice(), i) {
            let ghost before = out@;
            out.append(replacement);
            proof {
                assert(s@.skip(i as int).skip(t@.len() as int) =~= s@.skip(i + t@.len()));
                assert(before + (replacement@ + replace_from(
                    s@.skip(i + t@.len()),
                    t@,
                    replacement@,
                    false,
                    false,
                )) =~= out@ + replace_from(s@.skip(i + t@.len()), t@, replacement@, false, false));
            }
            i = i + t.len();
            escaped = false;
        } else {
            let ch = s[i];
            let ghost before = out@;
            let ghost old_in = in_string;
            let ghost old_esc = escaped;
            if ch == '"' && !escaped {
                in_string = !in_string;
            }
            escaped = ch == '\\' && !escaped;
            string_push(&mut out, ch);
            proof {
                assert(s@.skip(i as int)[0] == ch);
                assert(s@.skip(i as int).drop_first() =~= s@.skip(i + 1));
                assert(before + (seq![ch] + replace_from(
                    s@.skip(i + 1),
                    t@,
                    replacement@,
                    in_string,
                    escaped,
                )) =~= out@ + replace_from(s@.skip(i + 1), t@, replacement@, in_string, escaped));
            }
            i = i + 1;
        }
    }
    assert(out@ + Seq::<char>::empty() =~= out@);
    out
}

/// Replacing a token by itself leaves any text unchanged.
pub proof fn law_replace_token_by_itself(s: Seq<char>, token: Seq<char>)
    requires
        token.len() > 0,
    ensures
        replace_unquoted(s, token, token) == s,
{
    lemma_replace_self(s, token, false, false);
}

proof fn lemma_replace_self(s: Seq<char>, token: Seq<char>, in_string: bool, escaped: bool)
    requires
        token.len() > 0,
    ensures
        replace_from(s, token, token, in_string, escaped) == s,
    decreases s.len(),
{
    if s.len() == 0 {
    } else if !in_string && token.is_prefix_of(s) {
        lemma_replace_self(s.skip(token.len() as int), token, false, false);
        assert(token + s.skip(token.len() as int) =~= s);
    } else {
        let ch = s[0];
        let next_in = if ch == '"' && !escaped { !in_string } else { in_string };
        lemma_replace_self(s.drop_first(), token, next_in, ch == '\\' && !escaped);
        assert(seq![ch] + s.drop_first() =~= s);
    }
}

/// Text in which the token does not occur is left unchanged.
pub proof fn law_replace_without_token(s: Seq<char>, token: Seq<char>, rep: Seq<char>)
    requires
        token.len() > 0,
        !contains_seq(s, token),
    ensures
        replace_unquoted(s, token, rep) == s,
{
    lemma_replace_absent(s, token, rep, false, false);
}

proof fn lemma_replace_absent(
    s: Seq<char>,
    token: Seq<char>,
    rep: Seq<char>,
    in_string: bool,
    escaped: bool,
)
    requires
        token.len() > 0,
        !contains_seq(s, token),
    ensures
        replace_from(s, token, rep, in_string, escaped) == s,
    decreases s.len(),
{
    if s.len() > 0 {
        assert(!token.is_prefix_of(s)) by {
            if token.is_prefix_of(s) {
                assert(occurs_at(s, token, 0));
            }
        }
        assert(!contains_seq(s.drop_first(), token)) by {
            if contains_seq(s.drop_first(), token) {
                let at = choose|at: int| occurs_at(s.drop_first(), token, at);
                assert(s.subrange(at + 1, at + 1 + token.len()) =~= s.drop_first().subrange(
                    at,
                    at + token.len(),
                ));
                assert(occurs_at(s, token, at + 1));
            }
        }
        let ch = s[0];
        let next_in = if ch == '"' && !escaped { !in_string } else { in_string };
        lemma_replace_absent(s.drop_first(), token, rep, next_in, ch == '\\' && !escaped);
        assert(seq![ch] + s.drop_first() =~= s);
    }
}

/// A double-quoted string (with no quote or backslash inside) is left as it
/// is, whatever it holds, provided the token does not itself begin with a quote.
pub proof fn law_quoted_text_kept(q: Seq<char>, token: Seq<char>, rep: Seq<char>)
    requires
        token.len() > 0,
        token[0] != '"',
        forall|i: int| 0 <= i < q.len() ==> q[i] != '"' && q[i] != '\\',
    ensures
        replace_unquoted(seq!['"'] + q + seq!['"'], token, rep) == seq!['"'] + q + seq!['"'],
{
    let s = seq!['"'] + q + seq!['"'];
    assert(!token.is_prefix_of(s)) by {
        if token.is_prefix_of(s) {
            assert(s.subrange(0, token.len() as int)[0] == token[0]);
        }
    }
    assert(s.drop_first() =~= q + seq!['"']);
    lemma_quoted_inner(q, token, rep);
    assert(seq!['"'] + (q + seq!['"']) =~= s);
}

/// An unquoted token at the start of the text is replaced, and the scan
/// goes on after it outside any string.
pub proof fn law_leading_token_replaced(s: Seq<char>, token: Seq<char>, rep: Seq<char>)
    requires
        token.len() > 0,
    ensures
        replace_unquoted(token + s, token, rep) == rep + replace_unquoted(s, token, rep),
{
    assert(token.is_prefix_of(token + s)) by {
        assert((token + s).subrange(0, token.len() as int) =~= token);
    }
    assert((token + s).skip(token.len() as int) =~= s);
}

proof fn lemma_quoted_then(q: Seq<char>, rest: Seq<char>, token: Seq<char>, rep: Seq<char>)
    requires
        token.len() > 0,
        forall|i: int| 0 <= i < q.len() ==> q[i] != '"' && q[i] != '\\',
    ensures
        replace_from(q + seq!['"'] + rest, token, rep, true, false) == q + seq!['"'] + replace_unquoted(rest, token, rep),
    decreases q.len(),
{
    let s = q + seq!['"'] + rest;
    if q.len() == 0 {
        assert(s =~= seq!['"'] + rest);
        assert(s.drop_first() =~= rest);
        assert(seq!['"'] + replace_unquoted(rest, token, rep) =~= q + seq!['"'] + replace_unquoted(rest, token, rep));
    } else {
        let tail = q.drop_first();
        assert forall|i: int| 0 <= i < tail.len() implies tail[i] != '"' && tail[i] != '\\' by {
            assert(tail[i] == q[i + 1]);
        }
        assert(s[0] == q[0]);
        assert(s.drop_first() =~= tail + seq!['"'] + rest);
        lemma_quoted_then(tail, rest, token, rep);
        assert(seq![q[0]] + (tail + seq!['"'] + replace_unquoted(rest, token, rep)) =~= q + seq!['"']
            + replace_unquoted(rest, token, rep));
    }
}

/// A double-quoted string (with no quote or backslash inside) is copied as
/// it is, and the text after it is treated as unquoted again, provided the
/// token does not begin with a quote.
pub proof fn law_quoted_string_then_unquoted(q: Seq<char>, rest: Seq<char>, token: Seq<char>, rep: Seq<char>)
    requires
        token.len() > 0,
        token[0] != '"',
        forall|i: int| 0 <= i < q.len() ==> q[i] != '"' && q[i] != '\\',
    ensures
        replace_unquoted(seq!['"'] + q + seq!['"'] + rest, token, rep)
            == seq!['"'] + q + seq!['"'] + replace_unquoted(rest, token, rep),
{
    let s = seq!['"'] + q + seq!['"'] + rest;
    assert(!token.is_prefix_of(s)) by {
        if token.is_prefix_of(s) {
            assert(s.subrange(0, token.len() as int)[0] == token[0]);
        }
    }
    assert(s.drop_first() =~= q + seq!['"'] + rest);
    lemma_quoted_then(q, rest, token, rep);
    assert(seq!['"'] + (q + seq!['"'] + replace_unquoted(rest, token, rep)) =~= seq!['"'] + q + seq!['"']
        + replace_unquoted(rest, token, rep));
}

proof fn lemma_quoted_inner(q: Seq<char>, token: Seq<char>, rep: Seq<char>)
    requires
        token.len() > 0,
        forall|i: int| 0 <= i < q.len() ==> q[i] != '"' && q[i] != '\\',
    ensures
        replace_from(q + seq!['"'], token, rep, true, false) == q + seq!['"'],
    decreases q.len(),
{
    let s = q + seq!['"'];
    if q.len() == 0 {
        assert(s =~= seq!['"']);
        assert(s.drop_first() =~= Seq::<char>::empty());
        assert(replace_from(s.drop_first(), token, rep, false, false) =~= Seq::<char>::empty());
        assert(seq!['"'] + Seq::<char>::empty() =~= s);
    } else {
        let rest = q.drop_first();
        assert(forall|i: int| 0 <= i < rest.len() ==> rest[i] == q[i + 1]);
        assert(s.drop_first() =~= rest + seq!['"']);
        assert(s[0] == q[0]);
        assert(q[0] != '"' && q[0] != '\\');
        lemma_quoted_inner(rest, token, rep);
        assert(replace_from(s, token, rep, true, false) == seq![q[0]] + replace_from(
            rest + seq!['"'],
            token,
            rep,
            true,
            false,
        ));
        assert(seq![q[0]] + (rest + seq!['"']) =~= s);
    }
}


// ---------------------------------------------------------------------------
// Dynamic time tokens
// ---------------------------------------------------------------------------

/// The token that stands for the current UNIX time in plans.
pub open spec fn time_token() -> Seq<char> {
    "get_current_time()"@
}

/// `json!(n)` for a signed integer, on views.
pub open spec fn int_view(n: i64) -> JsonView {
    if n < 0 {
        JsonView::NegInt(n)
    } else {
        JsonView::PosInt(n as u64)
    }
}

/// Whether a JSON string is the time token (surrounding whitespace allowed).
pub open spec fn is_time_token(s: Seq<char>) -> bool {
    trimmed(s) == time_token()
}

/// `v` with every string that is the time token replaced by the number `now`.
pub open spec fn resolved(v: JsonView, now: i64) -> JsonView
    decreases v,
{
    match v {
        JsonView::Str(s) => if is_time_token(s) {
            int_view(now)
        } else {
            v
        },
        JsonView::Array(a) => JsonView::Array(resolved_items(a, now)),
        JsonView::Object(es) => JsonView::Object(resolved_entries(es, now)),
        _ => v,
    }
}

pub open spec fn resolved_items(a: Seq<JsonView>, now: i64) -> Seq<JsonView>
    decreases a,
{
    if a.len() == 0 {
        Seq::empty()
    } else {
        resolved_items(a.drop_last(), now).push(resolved(a.last(), now))
    }
}

pub open spec fn resolved_entries(es: Seq<(Seq<char>, JsonView)>, now: i64) -> Seq<(Seq<char>, JsonView)>
    decreases es,
{
    if es.len() == 0 {
        Seq::empty()
    } else {
        resolved_entries(es.drop_last(), now).push((es.last().0, resolved(es.last().1, now)))
    }
}

/// Whether the time token occurs anywhere in `v`.
pub open spec fn has_time_token(v: JsonView) -> bool
    decreases v,
{
    match v {
        JsonView::Str(s) => is_time_token(s),
        JsonView::Array(a) => items_have_token(a),
        JsonView::Object(es) => entries_have_token(es),
        _ => false,
    }
}

pub open spec fn items_have_token(a: Seq<JsonView>) -> bool
    decreases a,
{
    if a.len() == 0 {
        false
    } else {
        items_have_token(a.drop_last()) || has_time_token(a.last())
    }
}

pub open spec fn entries_have_token(es: Seq<(Seq<char>, JsonView)>) -> bool
    decreases es,
{
    if es.len() == 0 {
        false
    } else {
        entries_have_token(es.drop_last()) || has_time_token(es.last().1)
    }
}

fn is_time_token_exec(s: &String) -> (r: bool)
    ensures
        r == is_time_token(s@),
{
    let t = trim(s.as_str());
    str_eq(t.as_str(), "get_current_time()")
}

proof fn lemma_push_drop<A>(s: Seq<A>, x: A)
    ensures
        s.push(x).drop_last() == s,
        s.push(x).last() == x,
        s.push(x).len() > 0,
{
    assert(s.push(x).drop_last() =~= s);
}

/// Whether the time token occurs anywhere in `value`.
pub fn contains_time_token(value: &JsonValue) -> (r: bool)
    ensures
        r == has_time_token(value@),
    decreases value,
{
    match value {
        JsonValue::Str(s) => is_time_token_exec(s),
        JsonValue::Array(a) => {
            let mut i: usize = 0;
            while i < a.len()
                invariant
                    *value == JsonValue::Array(*a),
                    i <= a@.len(),
                    items_have_token(items_view(a@.take(i as int))) == false,
                decreases a@.len() - i,
            {
                proof {
                    let ghost v: JsonValue = *value;
                    assert(decreases_to!(v => v->Array_0));
                    assert(decreases_to!(v->Array_0 => v->Array_0[i as int]));
                    assert(a@.take(i + 1) =~= a@.take(i as int).push(a@[i as int]));
                    assert(a@.take(i + 1).drop_last() =~= a@.take(i as int));
                    let ghost iv = items_view(a@.take(i as int));
                    lemma_push_drop(iv, json_view(a@[i as int]));
                }
                if contains_time_token(&a[i]) {
                    assert(a@ =~= a@.take(i + 1) + a@.skip(i + 1));
                    proof {
                        lemma_items_token_prefix(a@, (i + 1) as int);
                    }
                    return true;
                }
                i = i + 1;
            }
            assert(a@.take(a@.len() as int) =~= a@);
            false
        },
        JsonValue::Object(es) => {
            let mut i: usize = 0;
            while i < es.len()
                invariant
                    *value == JsonValue::Object(*es),
                    i <= es@.len(),
                    entries_have_token(entries_view(es@.take(i as int))) == false,
                decreases es@.len() - i,
            {
                proof {
                    let ghost v: JsonValue = *value;
                    assert(decreases_to!(v => v->Object_0));
                    assert(decreases_to!(v->Object_0 => v->Object_0[i as int]));
                    assert(decreases_to!(v->Object_0[i as int] => v->Object_0[i as int].1));
                    assert(es@.take(i + 1).drop_last() =~= es@.take(i as int));
                    let ghost ev = entries_view(es@.take(i as int));
                    lemma_push_drop(ev, (es@[i as int].0@, json_view(es@[i as int].1)));
                }
                if contains_time_token(&es[i].1) {
                    proof {
                        lemma_entries_token_prefix(es@, (i + 1) as int);
                    }
                    return true;
                }
                i = i + 1;
            }
            assert(es@.take(es@.len() as int) =~= es@);
            false
        },
        _ => false,
    }
}

proof fn lemma_items_token_prefix(a: Seq<JsonValue>, j: int)
    requires
        0 < j <= a.len(),
        has_time_token(json_view(a[j - 1])),
    ensures
        items_have_token(items_view(a)),
    decreases a.len(),
{
    lemma_push_drop(items_view(a.drop_last()), json_view(a.last()));
    if j < a.len() {
        assert(a.drop_last()[j - 1] == a[j - 1]);
        lemma_items_token_prefix(a.drop_last(), j);
    }
}

proof fn lemma_entries_token_prefix(es: Seq<(String, JsonValue)>, j: int)
    requires
        0 < j <= es.len(),
        has_time_token(json_view(es[j - 1].1)),
    ensures
        entries_have_token(entries_view(es)),
    decreases es.len(),
{
    lemma_push_drop(entries_view(es.drop_last()), (es.last().0@, json_view(es.last().1)));
    if j < es.len() {
        assert(es.drop_last()[j - 1] == es[j - 1]);
        lemma_entries_token_prefix(es.drop_last(), j);
    }
}

/// `value` with every time-token string replaced by the number `now`.
pub fn resolve_dynamic_value_at(value: &JsonValue, now: i64) -> (r: JsonValue)
    ensures
        r@ == resolved(value@, now),
    decreases value,
{
    match value {
        JsonValue::Str(s) => {
            if is_time_token_exec(s) {
                JsonValue::from_i64(now)
            } else {
                JsonValue::Str(crate::text::copy_string(s))
            }
        },
        JsonValue::Array(a) => {
            let mut out: Vec<JsonValue> = Vec::new();
            let mut i: usize = 0;
            while i < a.len()
                invariant
                    *value == JsonValue::Array(*a),
                    i <= a@.len(),
                    items_view(out@) == resolved_items(items_view(a@.take(i as int)), now),
                decreases a@.len() - i,
            {
                proof {
                    let ghost v: JsonValue = *value;
                    assert(decreases_to!(v => v->Array_0));
                    assert(decreases_to!(v->Array_0 => v->Array_0[i as int]));
                }
                let x = resolve_dynamic_value_at(&a[i], now);
                proof {
                    assert(a@.take(i + 1).drop_last() =~= a@.take(i as int));
                    let ghost iv = items_view(a@.take(i as int));
                    lemma_push_drop(iv, json_view(a@[i as int]));
                    lemma_push_drop(items_view(out@), json_view(x));
                    lemma_push_drop(out@, x);
                    lemma_push_drop(resolved_items(iv, now), resolved(json_view(a@[i as int]), now));
                }
                out.push(x);
                i = i + 1;
            }
            assert(a@.take(a@.len() as int) =~= a@);
            JsonValue::Array(out)
        },
        JsonValue::Object(es) => {
            let mut out: Vec<(String, JsonValue)> = Vec::new();
            let mut i: usize = 0;
            while i < es.len()
                invariant
                    *value == JsonValue::Object(*es),
                    i <= es@.len(),
                    entries_view(out@) == resolved_entries(entries_view(es@.take(i as int)), now),
                decreases es@.len() - i,
            {
                proof {
                    let ghost v: JsonValue = *value;
                    assert(decreases_to!(v => v->Object_0));
                    assert(decreases_to!(v->Object_0 => v->Object_0[i as int]));
                    assert(decreases_to!(v->Object_0[i as int] => v->Object_0[i as int].1));
                }
                let k = crate::text::copy_string(&es[i].0);
                let x = resolve_dynamic_value_at(&es[i].1, now);
                proof {
                    assert(es@.take(i + 1).drop_last() =~= es@.take(i as int));
                    let ghost ev = entries_view(es@.take(i as int));
                    let ghost e = (es@[i as int].0@, json_view(es@[i as int].1));
                    lemma_push_drop(ev, e);
                    lemma_push_drop(entries_view(out@), (k@, json_view(x)));
                    lemma_push_drop(out@, (k, x));
                    lemma_push_drop(resolved_entries(ev, now), (e.0, resolved(e.1, now)));
                }
                out.push((k, x));
                i = i + 1;
            }
            assert(es@.take(es@.len() as int) =~= es@);
            JsonValue::Object(out)
        },
        _ => value.deep_copy(),
    }
}

/// Resolution leaves a value in which the time token does not occur unchanged.
pub proof fn law_resolution_without_token(v: JsonView, now: i64)
    requires
        !has_time_token(v),
    ensures
        resolved(v, now) == v,
    decreases v,
{
    match v {
        JsonView::Array(a) => {
            assert(decreases_to!(v => v->Array_0));
            lemma_items_without_token(a, now);
        },
        JsonView::Object(es) => {
            assert(decreases_to!(v => v->Object_0));
            lemma_entries_without_token(es, now);
        },
        _ => {},
    }
}

proof fn lemma_items_without_token(a: Seq<JsonView>, now: i64)
    requires
        !items_have_token(a),
    ensures
        resolved_items(a, now) == a,
    decreases a,
{
    if a.len() > 0 {
        assert(decreases_to!(a => a.drop_last())) by {
            vstd::seq::axiom_seq_len_decreases(a, a.drop_last());
        }
        assert(decreases_to!(a => a[a.len() - 1]));
        lemma_items_without_token(a.drop_last(), now);
        law_resolution_without_token(a.last(), now);
        assert(a.drop_last().push(a.last()) =~= a);
    }
}

proof fn lemma_entries_without_token(es: Seq<(Seq<char>, JsonView)>, now: i64)
    requires
        !entries_have_token(es),
    ensures
        resolved_entries(es, now) == es,
    decreases es,
{
    if es.len() > 0 {
        assert(decreases_to!(es => es.drop_last())) by {
            vstd::seq::axiom_seq_len_decreases(es, es.drop_last());
        }
        assert(decreases_to!(es => es[es.len() - 1]));
        assert(decreases_to!(es[es.len() - 1] => es[es.len() - 1].1));
        lemma_entries_without_token(es.drop_last(), now);
        law_resolution_without_token(es.last().1, now);
        assert(es.drop_last().push((es.last().0, es.last().1)) =~= es);
    }
}

/// After resolution no time token is left.
pub proof fn law_resolution_leaves_no_token(v: JsonView, now: i64)
    ensures
        !has_time_token(resolved(v, now)),
    decreases v,
{
    match v {
        JsonView::Array(a) => {
            assert(decreases_to!(v => v->Array_0));
            lemma_items_no_token(a, now);
        },
        JsonView::Object(es) => {
            assert(decreases_to!(v => v->Object_0));
            lemma_entries_no_token(es, now);
        },
        _ => {},
    }
}

proof fn lemma_items_no_token(a: Seq<JsonView>, now: i64)
    ensures
        !items_have_token(resolved_items(a, now)),
    decreases a,
{
    if a.len() > 0 {
        assert(decreases_to!(a => a.drop_last())) by {
            vstd::seq::axiom_seq_len_decreases(a, a.drop_last());
        }
        assert(decreases_to!(a => a[a.len() - 1]));
        lemma_items_no_token(a.drop_last(), now);
        law_resolution_leaves_no_token(a.last(), now);
        lemma_push_drop(resolved_items(a.drop_last(), now), resolved(a.last(), now));
    }
}

proof fn lemma_entries_no_token(es: Seq<(Seq<char>, JsonView)>, now: i64)
    ensures
        !entries_have_token(resolved_entries(es, now)),
    decreases es,
{
    if es.len() > 0 {
        assert(decreases_to!(es => es.drop_last())) by {
            vstd::seq::axiom_seq_len_decreases(es, es.drop_last());
        }
        assert(decreases_to!(es => es[es.len() - 1]));
        assert(decreases_to!(es[es.len() - 1] => es[es.len() - 1].1));
        lemma_entries_no_token(es.drop_last(), now);
        law_resolution_leaves_no_token(es.last().1, now);
        lemma_push_drop(resolved_entries(es.drop_last(), now), (es.last().0, resolved(es.last().1, now)));
    }
}

/// Resolving twice gives what resolving once gives.
pub proof fn law_resolution_idempotent(v: JsonView, now: i64, later: i64)
    ensures
        resolved(resolved(v, now), later) == resolved(v, now),
{
    law_resolution_leaves_no_token(v, now);
    law_resolution_without_token(resolved(v, now), later);
}

/// `value` with every time-token string (surrounding whitespace allowed)
/// replaced by the current UNIX time. The clock is read only when a token
/// occurs; the result then holds one reading throughout.
pub fn resolve_dynamic_value(value: &JsonValue) -> (r: Result<JsonValue, AutomationError>)
    ensures
        match r {
            Ok(v) => exists|now: i64| v@ == #[trigger] resolved(value@, now),
            Err(e) => has_time_token(value@) && e is ExecutionError,
        },
        !has_time_token(value@) ==> (r matches Ok(v) && v@ == value@),
{
    if contains_time_token(value) {
        let now = current_unix_time_secs()?;
        Ok(resolve_dynamic_value_at(value, now))
    } else {
        let v = value.deep_copy();
        proof {
            law_resolution_without_token(value@, 0);
        }
        Ok(v)
    }
}

/// The TOML text with every unquoted time token replaced by the current UNIX time.
pub fn preprocess_toml_dynamic_tokens(toml_str: &str) -> (r: Result<String, AutomationError>)
    ensures
        match r {
            Ok(s) => exists|now: i64| s@ == replace_unquoted(toml_str@, time_token(), #[trigger] signed_decimal(now as int)),
            Err(e) => e matches AutomationError::ExecutionError(m) && "system time error: "@.is_prefix_of(m@),
        },
{
    let now = current_unix_time_secs()?;
    let now_text = i64_to_string(now);
    proof {
        reveal_strlit("get_current_time()");
    }
    Ok(replace_unquoted_token(toml_str, "get_current_time()", now_text.as_str()))
}

// ---------------------------------------------------------------------------
// Defaults and the commander UDP link
// ---------------------------------------------------------------------------

/// The arguments of a command that names none: an empty object.
pub fn default_args() -> (r: JsonValue)
    ensures
        r@ == JsonView::Object(Seq::empty()),
{
    JsonValue::empty_object()
}

pub fn default_commander_host() -> (r: String)
    ensures
        r@ == "127.0.0.1"@,
{
    String::from_str("127.0.0.1")
}

pub fn default_commander_port() -> (r: u16)
    ensures
        r == 8092,
{
    8092
}

pub fn default_commander_timeout_ms() -> (r: u64)
    ensures
        r == 600,
{
    600
}

/// Where commander commands are sent, and how long to wait for the answer.
#[derive(Debug)]
pub struct CommanderUdpConfig {
    pub host: String,
    pub port: u16,
    pub timeout_ms: u64,
}

impl Default for CommanderUdpConfig {
    fn default() -> (r: Self)
        ensures
            r.host@ == "127.0.0.1"@,
            r.port == 8092,
            r.timeout_ms == 600,
    {
        Self {
            host: default_commander_host(),
            port: default_commander_port(),
            timeout_ms: default_commander_timeout_ms(),
        }
    }
}

/// The commander command that a name stands for (surrounding whitespace
/// allowed, with or without the `COMMAND_` prefix).
pub open spec fn commander_canonical(name: Seq<char>) -> Option<Seq<char>> {
    let t = trimmed(name);
    if t == "HPC_SEND"@ || t == "COMMAND_HPC_SEND"@ {
        Some("HPC_SEND"@)
    } else if t == "FTP_LIST"@ || t == "COMMAND_FTP_LIST"@ {
        Some("FTP_LIST"@)
    } else if t == "FTP_DOWNLOAD"@ || t == "COMMAND_FTP_DOWNLOAD"@ {
        Some("FTP_DOWNLOAD"@)
    } else if t == "DELETE_FILE"@ || t == "COMMAND_DELETE_FILE"@ {
        Some("DELETE_FILE"@)
    } else if t == "DELETE_ALL"@ || t == "COMMAND_DELETE_ALL"@ {
        Some("DELETE_ALL"@)
    } else {
        None
    }
}

/// The canonical commander command that `name` stands for, if any.
pub fn normalize_commander_name(name: &str) -> (r: Option<&'static str>)
    ensures
        match r {
            Some(c) => commander_canonical(name@) == Some(c@),
            None => commander_canonical(name@) is None,
        },
{
    let t = trim(name);
    let t = t.as_str();
    if str_eq(t, "HPC_SEND") || str_eq(t, "COMMAND_HPC_SEND") {
        Some("HPC_SEND")
    } else if str_eq(t, "FTP_LIST") || str_eq(t, "COMMAND_FTP_LIST") {
        Some("FTP_LIST")
    } else if str_eq(t, "FTP_DOWNLOAD") || str_eq(t, "COMMAND_FTP_DOWNLOAD") {
        Some("FTP_DOWNLOAD")
    } else if str_eq(t, "DELETE_FILE") || str_eq(t, "COMMAND_DELETE_FILE") {
        Some("DELETE_FILE")
    } else if str_eq(t, "DELETE_ALL") || str_eq(t, "COMMAND_DELETE_ALL") {
        Some("DELETE_ALL")
    } else {
        None
    }
}

/// Whether `name` is a commander command (sent over UDP, not through Yamcs).
pub fn is_commander_command(name: &str) -> (r: bool)
    ensures
        r == commander_canonical(name@) is Some,
{
    normalize_commander_name(name).is_some()
}

// ---------------------------------------------------------------------------
// Command definitions
// ---------------------------------------------------------------------------

/// One step of an automation plan.
#[derive(Debug)]
pub struct CommandDefinition {
    pub name: String,
    pub args: JsonValue,
    pub delay_ms: u64,
    pub retry_count: u8,
    pub description: String,
    pub metadata: HashMap<String, String>,
    pub verify_packet_name: Option<String>,
    pub verify_packet_name_exact: bool,
    pub verify_timeout_ms: u64,
    pub verify_poll_interval_ms: u64,
    pub verify_packet_limit: usize,
    pub dry_run_first: bool,
}

/// The first problem of a plan step, if any.
pub open spec fn command_problem(c: CommandDefinition) -> Option<Seq<char>> {
    if trimmed(c.name@).len() == 0 {
        Some("command name cannot be empty"@)
    } else if !(c.args@ is Object) {
        Some("command args must be a JSON object"@)
    } else if c.verify_poll_interval_ms == 0 && c.verify_packet_name is Some {
        Some("verify_poll_interval_ms must be > 0 when packet verification is enabled"@)
    } else if c.verify_packet_limit == 0 && c.verify_packet_name is Some {
        Some("verify_packet_limit must be > 0 when packet verification is enabled"@)
    } else {
        None
    }
}

impl CommandDefinition {
    /// A step that sends `name` with no arguments, no delay and no retry, and
    /// that would verify (if asked to) for 5 s, polling every 500 ms over the
    /// last 10 packets.
    pub fn new(name: &str) -> (r: Self)
        ensures
            r.name@ == name@,
            r.args@ == JsonView::Object(Seq::empty()),
            r.delay_ms == 0,
            r.retry_count == 0,
            r.description@ == Seq::<char>::empty(),
            r.metadata@ == Map::<String, String>::empty(),
            r.verify_packet_name is None,
            !r.verify_packet_name_exact,
            r.verify_timeout_ms == 5_000,
            r.verify_poll_interval_ms == 500,
            r.verify_packet_limit == 10,
            !r.dry_run_first,
    {
        let d = String::new();
        Self {
            name: String::from_str(name),
            args: JsonValue::empty_object(),
            delay_ms: 0,
            retry_count: 0,
            description: d,
            metadata: HashMap::new(),
            verify_packet_name: None,
            verify_packet_name_exact: false,
            verify_timeout_ms: 5_000,
            verify_poll_interval_ms: 500,
            verify_packet_limit: 10,
            dry_run_first: false,
        }
    }

    pub fn with_args(self, args: JsonValue) -> (r: Self)
        ensures
            r == (CommandDefinition { args, ..self }),
    {
        CommandDefinition { args, ..self }
    }

    pub fn with_delay(self, delay_ms: u64) -> (r: Self)
        ensures
            r == (CommandDefinition { delay_ms, ..self }),
    {
        CommandDefinition { delay_ms, ..self }
    }

    pub fn with_retry(self, retry_count: u8) -> (r: Self)
        ensures
            r == (CommandDefinition { retry_count, ..self }),
    {
        CommandDefinition { retry_count, ..self }
    }

    pub fn with_description(self, description: &str) -> (r: Self)
        ensures
            r.description@ == description@,
            r == (CommandDefinition { description: r.description, ..self }),
    {
        CommandDefinition { description: String::from_str(description), ..self }
    }

    pub fn verify_packet(self, packet_name: &str) -> (r: Self)
        ensures
            r.verify_packet_name matches Some(p) && p@ == packet_name@,
            r == (CommandDefinition { verify_packet_name: r.verify_packet_name, ..self }),
    {
        CommandDefinition { verify_packet_name: Some(String::from_str(packet_name)), ..self }
    }

    pub fn verify_packet_exact(self, enabled: bool) -> (r: Self)
        ensures
            r == (CommandDefinition { verify_packet_name_exact: enabled, ..self }),
    {
        CommandDefinition { verify_packet_name_exact: enabled, ..self }
    }

    pub fn with_verify_timeout(self, timeout_ms: u64) -> (r: Self)
        ensures
            r == (CommandDefinition { verify_timeout_ms: timeout_ms, ..self }),
    {
        CommandDefinition { verify_timeout_ms: timeout_ms, ..self }
    }

    pub fn with_verify_poll_interval(self, poll_interval_ms: u64) -> (r: Self)
        ensures
            r == (CommandDefinition { verify_poll_interval_ms: poll_interval_ms, ..self }),
    {
        CommandDefinition { verify_poll_interval_ms: poll_interval_ms, ..self }
    }

    pub fn with_verify_packet_limit(self, limit: usize) -> (r: Self)
        ensures
            r == (CommandDefinition { verify_packet_limit: limit, ..self }),
    {
        CommandDefinition { verify_packet_limit: limit, ..self }
    }

    pub fn with_dry_run_first(self, enabled: bool) -> (r: Self)
        ensures
            r == (CommandDefinition { dry_run_first: enabled, ..self }),
    {
        CommandDefinition { dry_run_first: enabled, ..self }
    }

    /// `Ok` exactly when the step has no problem; otherwise a validation
    /// error naming the first one.
    pub fn validate(&self) -> (r: Result<(), AutomationError>)
        ensures
            match command_problem(*self) {
                None => r is Ok,
                Some(m) => r matches Err(AutomationError::ValidationError(x)) && x@ == m,
            },
    {
        if crate::text::is_blank(self.name.as_str()) {
            return Err(AutomationError::ValidationError(String::from_str("command name cannot be empty")));
        }
        if !self.args.is_object() {
            return Err(AutomationError::ValidationError(String::from_str("command args must be a JSON object")));
        }
        if self.verify_poll_interval_ms == 0 && self.verify_packet_name.is_some() {
            return Err(AutomationError::ValidationError(String::from_str(
                "verify_poll_interval_ms must be > 0 when packet verification is enabled",
            )));
        }
        if self.verify_packet_limit == 0 && self.verify_packet_name.is_some() {
            return Err(AutomationError::ValidationError(String::from_str(
                "verify_packet_limit must be > 0 when packet verification is enabled",
            )));
        }
        Ok(())
    }
}

// ---------------------------------------------------------------------------
// Plans
// ---------------------------------------------------------------------------

/// An automation plan.
#[derive(Debug)]
pub struct AutomationConfig {
    pub yamcs: Option<YamcsConfig>,
    pub commander_udp: CommanderUdpConfig,
    pub commands: Vec<CommandDefinition>,
    pub timeout_ms: u64,
    pub stop_on_error: bool,
    pub repeat_count: u8,
    pub dry_run_all_first: bool,
}

pub fn default_stop_on_error() -> (r: bool)
    ensures
        r,
{
    true
}

pub open spec fn is_commander(c: CommandDefinition) -> bool {
    commander_canonical(c.name@) is Some
}

pub open spec fn not_commander() -> spec_fn(CommandDefinition) -> bool {
    |c: CommandDefinition| !is_commander(c)
}

pub open spec fn has_problem() -> spec_fn(CommandDefinition) -> bool {
    |c: CommandDefinition| command_problem(c) is Some
}

/// What is wrong with a plan, first problem first.
pub enum PlanProblem {
    Config(Seq<char>),
    Validation(Seq<char>),
}

/// The first problem of a plan: no steps; Yamcs steps without a (valid)
/// Yamcs configuration; then the first step with a problem.
pub open spec fn plan_problem(c: AutomationConfig) -> Option<PlanProblem> {
    let cmds = c.commands@;
    if cmds.len() == 0 {
        Some(PlanProblem::Config("no commands defined in configuration"@))
    } else if first_where(cmds, not_commander()) is Some && c.yamcs is None {
        Some(PlanProblem::Config("yamcs configuration is required for non-commander commands"@))
    } else if first_where(cmds, not_commander()) is Some && config_problem(c.yamcs->0) is Some {
        Some(PlanProblem::Config("configuration error: "@ + config_problem(c.yamcs->0)->0))
    } else if let Some(i) = first_where(cmds, has_problem()) {
        Some(PlanProblem::Validation(command_problem(cmds[i])->0))
    } else {
        None
    }
}

proof fn lemma_first_where_witness<A>(s: Seq<A>, p: spec_fn(A) -> bool, i: int)
    requires
        0 <= i < s.len(),
        p(s[i]),
    ensures
        first_where(s, p) is Some,
{
    if first_where(s, p) is None {
        lemma_first_where_none(s, p, i);
    }
}

/// A plan with at least one step that is not a commander command needs a
/// Yamcs section: without one it is refused with that message, whatever
/// its other steps are.
pub proof fn law_yamcs_step_needs_yamcs(c: AutomationConfig, i: int)
    requires
        0 <= i < c.commands@.len(),
        commander_canonical(c.commands@[i].name@) is None,
        c.yamcs is None,
    ensures
        plan_problem(c) == Some(PlanProblem::Config("yamcs configuration is required for non-commander commands"@)),
{
    lemma_first_where_witness(c.commands@, not_commander(), i);
}

/// A plan with a step that is not a commander command and an invalid Yamcs
/// section is refused with the Yamcs section's problem.
pub proof fn law_yamcs_step_needs_valid_yamcs(c: AutomationConfig, i: int, y: YamcsConfig)
    requires
        0 <= i < c.commands@.len(),
        commander_canonical(c.commands@[i].name@) is None,
        c.yamcs == Some(y),
        config_problem(y) is Some,
    ensures
        plan_problem(c) == Some(PlanProblem::Config("configuration error: "@ + config_problem(y)->0)),
{
    lemma_first_where_witness(c.commands@, not_commander(), i);
}

/// A plan whose steps are all commander commands, each without a problem,
/// is valid with or without a Yamcs section, valid or not.
pub proof fn law_commander_plan_needs_no_yamcs(c: AutomationConfig)
    requires
        c.commands@.len() > 0,
        forall|i: int| 0 <= i < c.commands@.len() ==> commander_canonical(#[trigger] c.commands@[i].name@) is Some
            && command_problem(c.commands@[i]) is None,
    ensures
        plan_problem(c) is None,
{
    let cmds = c.commands@;
    if first_where(cmds, not_commander()) is Some {
        lemma_first_where_some(cmds, not_commander());
    }
    if first_where(cmds, has_problem()) is Some {
        lemma_first_where_some(cmds, has_problem());
    }
}

/// The sum of the steps' delays.
pub open spec fn delay_total(cmds: Seq<CommandDefinition>) -> int
    decreases cmds.len(),
{
    if cmds.len() == 0 {
        0
    } else {
        delay_total(cmds.drop_last()) + cmds.last().delay_ms
    }
}

proof fn lemma_first_where_step_local<A>(s: Seq<A>, p: spec_fn(A) -> bool, i: int)
    requires
        0 <= i < s.len(),
        first_where(s.take(i), p) is None,
    ensures
        first_where(s.take(i + 1), p) == (if p(s[i]) { Some(i) } else { None::<int> }),
{
    assert(s.take(i + 1).drop_last() =~= s.take(i));
}

proof fn lemma_first_where_extend_local<A>(s: Seq<A>, p: spec_fn(A) -> bool, j: int, k: int)
    requires
        0 <= j <= k <= s.len(),
        first_where(s.take(j), p) is Some,
    ensures
        first_where(s.take(k), p) == first_where(s.take(j), p),
    decreases k - j,
{
    if k > j {
        lemma_first_where_extend_local(s, p, j, k - 1);
        assert(s.take(k).drop_last() =~= s.take(k - 1));
    }
}

impl AutomationConfig {
    /// `Ok` exactly when the plan has no problem; otherwise the error of the
    /// first problem.
    pub fn validate(&self) -> (r: Result<(), AutomationError>)
        ensures
            match plan_problem(*self) {
                None => r is Ok,
                Some(PlanProblem::Config(m)) => r matches Err(AutomationError::ConfigError(x)) && x@ == m,
                Some(PlanProblem::Validation(m)) => r matches Err(AutomationError::ValidationError(x)) && x@ == m,
            },
    {
        if self.commands.len() == 0 {
            return Err(AutomationError::ConfigError(String::from_str("no commands defined in configuration")));
        }
        let ghost cmds = self.commands@;
        let mut has_non_commander = false;
        let mut i: usize = 0;
        while i < self.commands.len()
            invariant
                cmds == self.commands@,
                i <= cmds.len(),
                has_non_commander == first_where(cmds.take(i as int), not_commander()) is Some,
            decreases cmds.len() - i,
        {
            if !has_non_commander {
                proof {
                    lemma_first_where_step_local(cmds, not_commander(), i as int);
                }
            } else {
                proof {
                    lemma_first_where_extend_local(cmds, not_commander(), i as int, i + 1);
                }
            }
            if !is_commander_command(self.commands[i].name.as_str()) {
                has_non_commander = true;
            }
            i = i + 1;
        }
        assert(cmds.take(cmds.len() as int) =~= cmds);
        if has_non_commander {
            match &self.yamcs {
                None => {
                    return Err(AutomationError::ConfigError(String::from_str(
                        "yamcs configuration is required for non-commander commands",
                    )));
                },
                Some(y) => {
                    match y.validate() {
                        Ok(()) => {},
                        Err(e) => {
                            return Err(AutomationError::ConfigError(e.message()));
                        },
                    }
                },
            }
        }
        let mut i: usize = 0;
        while i < self.commands.len()
            invariant
                cmds == self.commands@,
                i <= cmds.len(),
                first_where(cmds.take(i as int), has_problem()) is None,
                cmds.len() > 0,
                !(first_where(cmds, not_commander()) is Some && (self.yamcs is None
                    || config_problem(self.yamcs->0) is Some)),
            decreases cmds.len() - i,
        {
            proof {
                lemma_first_where_step_local(cmds, has_problem(), i as int);
            }
            match self.commands[i].validate() {
                Ok(()) => {},
                Err(e) => {
                    proof {
                        lemma_first_where_extend_local(cmds, has_problem(), i + 1, cmds.len() as int);
                        assert(cmds.take(cmds.len() as int) =~= cmds);
                    }
                    return Err(e);
                },
            }
            i = i + 1;
        }
        assert(cmds.take(cmds.len() as int) =~= cmds);
        Ok(())
    }

    /// The sum of the steps' delays, in milliseconds.
    pub fn estimated_duration_ms(&self) -> (r: u64)
        requires
            delay_total(self.commands@) <= u64::MAX,
        ensures
            r == delay_total(self.commands@),
    {
        let mut total: u64 = 0;
        let mut i: usize = 0;
        while i < self.commands.len()
            invariant
                i <= self.commands@.len(),
                total == delay_total(self.commands@.take(i as int)),
                delay_total(self.commands@) <= u64::MAX,
            decreases self.commands@.len() - i,
        {
            proof {
                assert(self.commands@.take(i + 1).drop_last() =~= self.commands@.take(i as int));
                lemma_delay_prefix(self.commands@, i + 1);
            }
            total = total + self.commands[i].delay_ms;
            i = i + 1;
        }
        assert(self.commands@.take(self.commands@.len() as int) =~= self.commands@);
        total
    }

    /// Whether the sum of the steps' delays fits in a `u64`, so that
    /// [`AutomationConfig::estimated_duration_ms`] can compute it.
    pub fn estimated_duration_fits(&self) -> (r: bool)
        ensures
            r == (delay_total(self.commands@) <= u64::MAX),
    {
        let mut total: u64 = 0;
        let mut i: usize = 0;
        while i < self.commands.len()
            invariant
                i <= self.commands@.len(),
                total == delay_total(self.commands@.take(i as int)),
            decreases self.commands@.len() - i,
        {
            proof {
                assert(self.commands@.take(i + 1).drop_last() =~= self.commands@.take(i as int));
            }
            if total > u64::MAX - self.commands[i].delay_ms {
                proof {
                    lemma_delay_prefix(self.commands@, i + 1);
                }
                return false;
            }
            total = total + self.commands[i].delay_ms;
            i = i + 1;
        }
        assert(self.commands@.take(self.commands@.len() as int) =~= self.commands@);
        true
    }

    /// The number of steps.
    pub fn command_count(&self) -> (r: usize)
        ensures
            r == self.commands@.len(),
    {
        self.commands.len()
    }
}

proof fn lemma_delay_prefix(cmds: Seq<CommandDefinition>, j: int)
    requires
        0 <= j <= cmds.len(),
    ensures
        delay_total(cmds.take(j)) <= delay_total(cmds),
    decreases cmds.len(),
{
    if j < cmds.len() {
        lemma_delay_prefix(cmds.drop_last(), j);
        assert(cmds.drop_last().take(j) =~= cmds.take(j));
    } else {
        assert(cmds.take(j) =~= cmds);
    }
}

// ---------------------------------------------------------------------------
// Execution statistics and events
// ---------------------------------------------------------------------------

/// Counts and per-command times of a plan run. The times are kept as
/// `(name, milliseconds)` pairs, one per command name, in the order in which
/// the names first succeeded; recording a name again replaces its time, as
/// inserting into a map does.
#[derive(Debug)]
pub struct ExecutionStats {
    pub successful: usize,
    pub failed: usize,
    pub elapsed_ms: u64,
    pub command_times: Vec<(String, u64)>,
}

/// The recorded times, with names as character sequences.
pub open spec fn times_view(ts: Seq<(String, u64)>) -> Seq<(Seq<char>, u64)> {
    ts.map_values(|e: (String, u64)| (e.0@, e.1))
}

pub open spec fn timed_as(name: Seq<char>) -> spec_fn((Seq<char>, u64)) -> bool {
    |e: (Seq<char>, u64)| e.0 == name
}

/// The times after `name` took `ms`: its entry replaced when it has one,
/// else a new entry at the end.
pub open spec fn record_time(ts: Seq<(Seq<char>, u64)>, name: Seq<char>, ms: u64) -> Seq<(Seq<char>, u64)> {
    match first_where(ts, timed_as(name)) {
        Some(i) => ts.update(i, (name, ms)),
        None => ts.push((name, ms)),
    }
}

/// No name has two entries.
pub open spec fn names_distinct(ts: Seq<(Seq<char>, u64)>) -> bool {
    forall|a: int, b: int| 0 <= a < b < ts.len() ==> ts[a].0 != ts[b].0
}

proof fn lemma_first_where_none<A>(s: Seq<A>, p: spec_fn(A) -> bool, j: int)
    requires
        first_where(s, p) is None,
        0 <= j < s.len(),
    ensures
        !p(s[j]),
    decreases s.len(),
{
    if j < s.len() - 1 {
        lemma_first_where_none(s.drop_last(), p, j);
    }
}

proof fn lemma_first_where_some<A>(s: Seq<A>, p: spec_fn(A) -> bool)
    requires
        first_where(s, p) is Some,
    ensures
        0 <= first_where(s, p)->0 < s.len(),
        p(s[first_where(s, p)->0]),
    decreases s.len(),
{
    if s.len() > 0 && first_where(s.drop_last(), p) is Some {
        lemma_first_where_some(s.drop_last(), p);
    }
}

/// Recording a time keeps one entry per name.
pub proof fn law_record_keeps_names_distinct(ts: Seq<(Seq<char>, u64)>, name: Seq<char>, ms: u64)
    requires
        names_distinct(ts),
    ensures
        names_distinct(record_time(ts, name, ms)),
        exists|i: int| 0 <= i < record_time(ts, name, ms).len() && #[trigger] record_time(ts, name, ms)[i] == (name, ms),
{
    let p = timed_as(name);
    match first_where(ts, p) {
        Some(i) => {
            lemma_first_where_some(ts, p);
            assert(record_time(ts, name, ms)[i] == (name, ms));
        },
        None => {
            assert forall|j: int| 0 <= j < ts.len() implies ts[j].0 != name by {
                lemma_first_where_none(ts, p, j);
            }
            assert(record_time(ts, name, ms)[ts.len() as int] == (name, ms));
        },
    }
}

impl Default for ExecutionStats {
    fn default() -> (r: Self)
        ensures
            r.successful == 0,
            r.failed == 0,
            r.elapsed_ms == 0,
            r.command_times@ == Seq::<(String, u64)>::empty(),
    {
        ExecutionStats { successful: 0, failed: 0, elapsed_ms: 0, command_times: Vec::new() }
    }
}

impl ExecutionStats {
    /// Counts a success and records the command's time under its name.
    pub fn record_success(&mut self, name: String, elapsed_ms: u64)
        requires
            old(self).successful < usize::MAX,
        ensures
            final(self).successful == old(self).successful + 1,
            final(self).failed == old(self).failed,
            final(self).elapsed_ms == old(self).elapsed_ms,
            times_view(final(self).command_times@) == record_time(
                times_view(old(self).command_times@),
                name@,
                elapsed_ms,
            ),
    {
        self.successful = self.successful + 1;
        let ghost tv = times_view(self.command_times@);
        let ghost p = timed_as(name@);
        let mut i: usize = 0;
        assert(tv.take(0) =~= Seq::<(Seq<char>, u64)>::empty());
        while i < self.command_times.len()
            invariant
                i <= self.command_times@.len(),
                tv == times_view(self.command_times@),
                tv == times_view(old(self).command_times@),
                p == timed_as(name@),
                self.successful == old(self).successful + 1,
                self.failed == old(self).failed,
                self.elapsed_ms == old(self).elapsed_ms,
                first_where(tv.take(i as int), p) is None,
            decreases self.command_times@.len() - i,
        {
            proof {
                crate::yamcs_client::lemma_first_where_step(tv, p, i as int);
            }
            if crate::text::str_eq(self.command_times[i].0.as_str(), name.as_str()) {
                proof {
                    crate::yamcs_client::lemma_first_where_found(tv, p, i as int);
                }
                self.command_times.set(i, (name, elapsed_ms));
                proof {
                    assert(times_view(self.command_times@) =~= tv.update(i as int, (name@, elapsed_ms)));
                }
                return;
            }
            i = i + 1;
        }
        proof {
            assert(tv.take(tv.len() as int) =~= tv);
        }
        self.command_times.push((name, elapsed_ms));
        proof {
            assert(times_view(self.command_times@) =~= tv.push((name@, elapsed_ms)));
        }
    }

    /// Counts a failure.
    pub fn record_failure(&mut self)
        requires
            old(self).failed < usize::MAX,
        ensures
            final(self).failed == old(self).failed + 1,
            final(self).successful == old(self).successful,
            final(self).elapsed_ms == old(self).elapsed_ms,
            final(self).command_times@ == old(self).command_times@,
    {
        self.failed = self.failed + 1;
    }
}

/// Progress reported while a plan runs.
#[derive(Debug)]
pub enum ExecutionEvent {
    CommandStarted { index: usize, total: usize, name: String, description: String },
    CommandSucceeded { index: usize, total: usize, name: String, elapsed_ms: u64 },
    CommandFailed { index: usize, total: usize, name: String, error: String },
}

// ---------------------------------------------------------------------------
// The engine
// ---------------------------------------------------------------------------

/// A validated plan, with its Yamcs client when the plan configures Yamcs.
pub struct AutomationEngine {
    config: AutomationConfig,
    client: Option<YamcsClient>,
}

impl AutomationEngine {
    pub closed spec fn spec_config(&self) -> AutomationConfig {
        self.config
    }

    pub closed spec fn has_client(&self) -> bool {
        self.client is Some
    }

    /// The Yamcs client that the engine holds.
    pub closed spec fn spec_client(&self) -> Option<YamcsClient> {
        self.client
    }

    /// Validates the plan and builds its Yamcs client when it configures Yamcs.
    pub fn new(config: AutomationConfig) -> (r: Result<Self, AutomationError>)
        ensures
            match plan_problem(config) {
                Some(PlanProblem::Config(m)) => r matches Err(AutomationError::ConfigError(x)) && x@ == m,
                Some(PlanProblem::Validation(m)) => r matches Err(AutomationError::ValidationError(x)) && x@ == m,
                None => match config.yamcs {
                    Some(y) => match config_problem(y) {
                        Some(m) => r matches Err(AutomationError::ConfigError(x)) && x@ == m,
                        None => r is Ok || r matches Err(AutomationError::NetworkError(_)),
                    },
                    None => r is Ok,
                },
            },
            r matches Ok(e) ==> e.spec_config() == config && e.has_client() == config.yamcs is Some,
            r matches Ok(e) ==> (e.spec_client() matches Some(c) ==> config.yamcs is Some
                && same_settings(c.spec_config(), config.yamcs->0)
                && client_default_headers(c.spec_http()) == ("application/json"@, "application/json"@)),
    {
        config.validate()?;
        let client = match &config.yamcs {
            Some(y) => {
                let c = y.copy();
                match YamcsClient::new(c) {
                    Ok(c) => Some(c),
                    Err(e) => {
                        return Err(AutomationError::from_tc_error(e));
                    },
                }
            },
            None => None,
        };
        Ok(Self { config, client })
    }

    pub fn config(&self) -> (r: &AutomationConfig)
        ensures
            *r == self.spec_config(),
    {
        &self.config
    }

    /// The Yamcs client built from the plan's Yamcs section, if it has one.
    pub fn client(&self) -> (r: Option<&YamcsClient>)
        ensures
            r is Some == self.has_client(),
            r matches Some(c) ==> self.spec_client() == Some(*c),
    {
        self.client.as_ref()
    }

    /// Whether a step is dry-run before it is issued.
    pub fn dry_run_wanted(&self, cmd: &CommandDefinition) -> (r: bool)
        ensures
            r == (self.spec_config().dry_run_all_first || cmd.dry_run_first),
    {
        self.config.dry_run_all_first || cmd.dry_run_first
    }

    /// `host:port` of the commander.
    pub fn commander_target(&self) -> (r: String)
        ensures
            r@ == self.spec_config().commander_udp.host@ + ":"@ + decimal(self.spec_config().commander_udp.port as nat),
    {
        let mut t = concat(self.config.commander_udp.host.as_str(), ":");
        let p = u64_to_string(self.config.commander_udp.port as u64);
        t.append(p.as_str());
        t
    }

    /// How long to wait for the commander's answer: the configured time, at least 1 ms.
    pub fn commander_timeout_ms(&self) -> (r: u64)
        ensures
            r == (if self.spec_config().commander_udp.timeout_ms == 0 { 1 } else { self.spec_config().commander_udp.timeout_ms }),
    {
        if self.config.commander_udp.timeout_ms == 0 { 1 } else { self.config.commander_udp.timeout_ms }
    }
}

/// The error given when a Yamcs step runs without a Yamcs client.
pub fn client_missing_error() -> (r: AutomationError)
    ensures
        r matches AutomationError::ConfigError(m) && m@ == "yamcs client is not configured"@,
{
    AutomationError::ConfigError(String::from_str("yamcs client is not configured"))
}

/// The error given when the plan's time budget is spent.
pub fn timeout_error() -> (r: AutomationError)
    ensures
        r matches AutomationError::ExecutionError(m) && m@ == "execution timeout exceeded"@,
{
    AutomationError::ExecutionError(String::from_str("execution timeout exceeded"))
}

// ---------------------------------------------------------------------------
// Telemetry verification of a step
// ---------------------------------------------------------------------------

/// How a step's effect is checked in telemetry.
#[derive(Debug)]
pub struct VerifyPlan {
    pub packet: String,
    pub exact: bool,
    pub limit: usize,
    pub timeout_ms: u64,
    pub poll_ms: u64,
}

pub open spec fn at_least_one(n: int) -> int {
    if n == 0 { 1 } else { n }
}

/// The verification of a step, when it asks for one: its packet name and
/// match mode, with limit, timeout and poll interval each at least 1.
pub fn verification_plan(cmd: &CommandDefinition) -> (r: Option<VerifyPlan>)
    ensures
        match cmd.verify_packet_name {
            None => r is None,
            Some(p) => r matches Some(v) && v.packet@ == p@ && v.exact == cmd.verify_packet_name_exact
                && v.limit == at_least_one(cmd.verify_packet_limit as int)
                && v.timeout_ms == at_least_one(cmd.verify_timeout_ms as int)
                && v.poll_ms == at_least_one(cmd.verify_poll_interval_ms as int),
        },
{
    match &cmd.verify_packet_name {
        None => None,
        Some(p) => Some(VerifyPlan {
            packet: crate::text::copy_string(p),
            exact: cmd.verify_packet_name_exact,
            limit: if cmd.verify_packet_limit == 0 { 1 } else { cmd.verify_packet_limit },
            timeout_ms: if cmd.verify_timeout_ms == 0 { 1 } else { cmd.verify_timeout_ms },
            poll_ms: if cmd.verify_poll_interval_ms == 0 { 1 } else { cmd.verify_poll_interval_ms },
        }),
    }
}

/// The error of a step whose expected packet was not seen in time.
pub fn verification_failure(packet: &str, cmd: &CommandDefinition) -> (r: AutomationError)
    ensures
        r matches AutomationError::VerificationError(m) && m@ == "expected packet '"@ + packet@
            + "' was not observed within "@ + decimal(cmd.verify_timeout_ms as nat) + " ms"@,
{
    let mut m = concat("expected packet '", packet);
    m.append("' was not observed within ");
    let t = u64_to_string(cmd.verify_timeout_ms);
    m.append(t.as_str());
    m.append(" ms");
    AutomationError::VerificationError(m)
}

// ---------------------------------------------------------------------------
// The commander line protocol
// ---------------------------------------------------------------------------

/// A non-blank string argument, trimmed.
pub open spec fn arg_text(args: JsonView, key: Seq<char>) -> Option<Seq<char>> {
    match crate::json::json_str(crate::json::json_get(args, key)) {
        Some(s) => if trimmed(s).len() > 0 {
            Some(trimmed(s))
        } else {
            None
        },
        None => None,
    }
}

/// The argument `key`, else the argument `alt`.
pub open spec fn arg_either(args: JsonView, key: Seq<char>, alt: Seq<char>) -> Option<Seq<char>> {
    if arg_text(args, key) is Some {
        arg_text(args, key)
    } else {
        arg_text(args, alt)
    }
}

/// The line sent to the commander for a step, or the message of the
/// validation error when the step is not a commander command or lacks an
/// argument.
pub open spec fn commander_line(name: Seq<char>, args: JsonView) -> Result<Seq<char>, Seq<char>> {
    match commander_canonical(name) {
        None => Err("unsupported commander command: "@ + name),
        Some(c) => if c == "HPC_SEND"@ {
            Ok("HPC_SEND"@)
        } else if c == "FTP_LIST"@ {
            match arg_either(args, "path"@, "Arg0"@) {
                Some(p) => Ok("FTP_LIST "@ + p),
                None => Err("FTP_LIST requires args.path (or args.Arg0)"@),
            }
        } else if c == "FTP_DOWNLOAD"@ {
            match arg_either(args, "remote"@, "Arg0"@) {
                None => Err("FTP_DOWNLOAD requires args.remote (or args.Arg0)"@),
                Some(r) => match arg_either(args, "local"@, "Arg1"@) {
                    None => Err("FTP_DOWNLOAD requires args.local (or args.Arg1)"@),
                    Some(l) => Ok("FTP_DOWNLOAD "@ + r + " "@ + l),
                },
            }
        } else if c == "DELETE_FILE"@ {
            match arg_either(args, "path"@, "Arg0"@) {
                Some(p) => Ok("DELETE_FILE "@ + p),
                None => Err("DELETE_FILE requires args.path (or args.Arg0)"@),
            }
        } else {
            match arg_either(args, "prefix"@, "Arg0"@) {
                Some(p) => Ok("DELETE_ALL "@ + p),
                None => Err("DELETE_ALL requires args.prefix (or args.Arg0)"@),
            }
        },
    }
}

proof fn lemma_command_names_distinct()
    ensures
        "FTP_DOWNLOAD"@ != "HPC_SEND"@,
        "FTP_DOWNLOAD"@ != "FTP_LIST"@,
        "FTP_LIST"@ != "HPC_SEND"@,
        "DELETE_FILE"@ != "HPC_SEND"@,
        "DELETE_FILE"@ != "FTP_LIST"@,
        "DELETE_FILE"@ != "FTP_DOWNLOAD"@,
        "DELETE_ALL"@ != "HPC_SEND"@,
        "DELETE_ALL"@ != "FTP_LIST"@,
        "DELETE_ALL"@ != "FTP_DOWNLOAD"@,
        "DELETE_ALL"@ != "DELETE_FILE"@,
{
    reveal_strlit("HPC_SEND");
    reveal_strlit("FTP_LIST");
    reveal_strlit("FTP_DOWNLOAD");
    reveal_strlit("DELETE_FILE");
    reveal_strlit("DELETE_ALL");
    assert("FTP_DOWNLOAD"@.len() != "HPC_SEND"@.len());
    assert("FTP_DOWNLOAD"@.len() != "FTP_LIST"@.len());
    assert("FTP_LIST"@[0] != "HPC_SEND"@[0]);
    assert("DELETE_FILE"@.len() != "HPC_SEND"@.len());
    assert("DELETE_FILE"@.len() != "FTP_LIST"@.len());
    assert("DELETE_FILE"@.len() != "FTP_DOWNLOAD"@.len());
    assert("DELETE_ALL"@.len() != "HPC_SEND"@.len());
    assert("DELETE_ALL"@.len() != "FTP_LIST"@.len());
    assert("DELETE_ALL"@.len() != "FTP_DOWNLOAD"@.len());
    assert("DELETE_ALL"@.len() != "DELETE_FILE"@.len());
}

/// The text of the string member `key` of the step's arguments.
pub open spec fn member_text(args: JsonView, key: Seq<char>) -> Option<Seq<char>> {
    crate::json::json_str(crate::json::json_get(args, key))
}

/// The argument given under `key`, or, where `key` is absent, under `alt`.
pub open spec fn given_as(args: JsonView, key: Seq<char>, alt: Seq<char>, v: Seq<char>) -> bool {
    member_text(args, key) == Some(v) || (crate::json::json_get(args, key) is None && member_text(args, alt) == Some(v))
}

/// A download line names the remote path (`remote`, else `Arg0`) and then
/// the local path (`local`, else `Arg1`), each trimmed.
pub proof fn law_ftp_download_line(name: Seq<char>, args: JsonView, remote: Seq<char>, local: Seq<char>)
    requires
        commander_canonical(name) == Some("FTP_DOWNLOAD"@),
        given_as(args, "remote"@, "Arg0"@, remote),
        given_as(args, "local"@, "Arg1"@, local),
        trimmed(remote).len() > 0,
        trimmed(local).len() > 0,
    ensures
        commander_line(name, args) == Ok::<Seq<char>, Seq<char>>("FTP_DOWNLOAD "@ + trimmed(remote) + " "@ + trimmed(local)),
{
    lemma_command_names_distinct();
}

/// A download step without any remote path is refused naming `args.remote`
/// and `args.Arg0`; one with a remote path but no local path at all is
/// refused naming `args.local` and `args.Arg1`.
pub proof fn law_ftp_download_missing_paths(name: Seq<char>, args: JsonView, remote: Seq<char>)
    requires
        commander_canonical(name) == Some("FTP_DOWNLOAD"@),
    ensures
        crate::json::json_get(args, "remote"@) is None && crate::json::json_get(args, "Arg0"@) is None
            ==> commander_line(name, args) == Err::<Seq<char>, Seq<char>>("FTP_DOWNLOAD requires args.remote (or args.Arg0)"@),
        given_as(args, "remote"@, "Arg0"@, remote) && trimmed(remote).len() > 0
            && crate::json::json_get(args, "local"@) is None && crate::json::json_get(args, "Arg1"@) is None
            ==> commander_line(name, args) == Err::<Seq<char>, Seq<char>>("FTP_DOWNLOAD requires args.local (or args.Arg1)"@),
{
    lemma_command_names_distinct();
}

/// The one-argument commands send their name, a space and the trimmed
/// argument: `path` (else `Arg0`) for FTP_LIST and DELETE_FILE, `prefix`
/// (else `Arg0`) for DELETE_ALL.
pub proof fn law_one_argument_lines(name: Seq<char>, args: JsonView, v: Seq<char>)
    requires
        trimmed(v).len() > 0,
    ensures
        commander_canonical(name) == Some("FTP_LIST"@) && given_as(args, "path"@, "Arg0"@, v)
            ==> commander_line(name, args) == Ok::<Seq<char>, Seq<char>>("FTP_LIST "@ + trimmed(v)),
        commander_canonical(name) == Some("DELETE_FILE"@) && given_as(args, "path"@, "Arg0"@, v)
            ==> commander_line(name, args) == Ok::<Seq<char>, Seq<char>>("DELETE_FILE "@ + trimmed(v)),
        commander_canonical(name) == Some("DELETE_ALL"@) && given_as(args, "prefix"@, "Arg0"@, v)
            ==> commander_line(name, args) == Ok::<Seq<char>, Seq<char>>("DELETE_ALL "@ + trimmed(v)),
{
    lemma_command_names_distinct();
}

/// HPC_SEND takes no argument; a name that is no commander command is refused.
pub proof fn law_other_commander_lines(name: Seq<char>, args: JsonView)
    ensures
        commander_canonical(name) == Some("HPC_SEND"@) ==> commander_line(name, args) == Ok::<Seq<char>, Seq<char>>("HPC_SEND"@),
        commander_canonical(name) is None ==> commander_line(name, args)
            == Err::<Seq<char>, Seq<char>>("unsupported commander command: "@ + name),
{
    lemma_command_names_distinct();
}

/// Each commander command is known by its own name and by that name with
/// `COMMAND_` in front, with any whitespace around either.
pub proof fn law_commander_aliases(pad: Seq<char>, pad2: Seq<char>)
    requires
        forall|i: int| 0 <= i < pad.len() ==> is_white(#[trigger] pad[i]),
        forall|i: int| 0 <= i < pad2.len() ==> is_white(#[trigger] pad2[i]),
    ensures
        commander_canonical(pad + "HPC_SEND"@ + pad2) == Some("HPC_SEND"@),
        commander_canonical(pad + "COMMAND_HPC_SEND"@ + pad2) == Some("HPC_SEND"@),
        commander_canonical(pad + "FTP_LIST"@ + pad2) == Some("FTP_LIST"@),
        commander_canonical(pad + "COMMAND_FTP_LIST"@ + pad2) == Some("FTP_LIST"@),
        commander_canonical(pad + "FTP_DOWNLOAD"@ + pad2) == Some("FTP_DOWNLOAD"@),
        commander_canonical(pad + "COMMAND_FTP_DOWNLOAD"@ + pad2) == Some("FTP_DOWNLOAD"@),
        commander_canonical(pad + "DELETE_FILE"@ + pad2) == Some("DELETE_FILE"@),
        commander_canonical(pad + "COMMAND_DELETE_FILE"@ + pad2) == Some("DELETE_FILE"@),
        commander_canonical(pad + "DELETE_ALL"@ + pad2) == Some("DELETE_ALL"@),
        commander_canonical(pad + "COMMAND_DELETE_ALL"@ + pad2) == Some("DELETE_ALL"@),
{
    reveal_strlit("HPC_SEND");
    reveal_strlit("COMMAND_HPC_SEND");
    reveal_strlit("FTP_LIST");
    reveal_strlit("COMMAND_FTP_LIST");
    reveal_strlit("FTP_DOWNLOAD");
    reveal_strlit("COMMAND_FTP_DOWNLOAD");
    reveal_strlit("DELETE_FILE");
    reveal_strlit("COMMAND_DELETE_FILE");
    reveal_strlit("DELETE_ALL");
    reveal_strlit("COMMAND_DELETE_ALL");
    crate::text::law_trim_removes_padding(pad, "HPC_SEND"@, pad2);
    crate::text::law_trim_removes_padding(pad, "COMMAND_HPC_SEND"@, pad2);
    crate::text::law_trim_removes_padding(pad, "FTP_LIST"@, pad2);
    crate::text::law_trim_removes_padding(pad, "COMMAND_FTP_LIST"@, pad2);
    crate::text::law_trim_removes_padding(pad, "FTP_DOWNLOAD"@, pad2);
    crate::text::law_trim_removes_padding(pad, "COMMAND_FTP_DOWNLOAD"@, pad2);
    crate::text::law_trim_removes_padding(pad, "DELETE_FILE"@, pad2);
    crate::text::law_trim_removes_padding(pad, "COMMAND_DELETE_FILE"@, pad2);
    crate::text::law_trim_removes_padding(pad, "DELETE_ALL"@, pad2);
    crate::text::law_trim_removes_padding(pad, "COMMAND_DELETE_ALL"@, pad2);
    lemma_command_names_distinct();
    assert("COMMAND_HPC_SEND"@.len() != "FTP_LIST"@.len());
    assert("FTP_LIST"@.len() != "COMMAND_HPC_SEND"@.len());
    assert("COMMAND_FTP_LIST"@.len() != "HPC_SEND"@.len());
    assert("COMMAND_FTP_LIST"@ != "COMMAND_HPC_SEND"@) by { assert("COMMAND_FTP_LIST"@[8] != "COMMAND_HPC_SEND"@[8]); }
    assert("FTP_DOWNLOAD"@.len() != "COMMAND_HPC_SEND"@.len());
    assert("FTP_DOWNLOAD"@.len() != "COMMAND_FTP_LIST"@.len());
    assert("COMMAND_FTP_DOWNLOAD"@.len() != "HPC_SEND"@.len());
    assert("COMMAND_FTP_DOWNLOAD"@.len() != "COMMAND_HPC_SEND"@.len());
    assert("COMMAND_FTP_DOWNLOAD"@.len() != "FTP_LIST"@.len());
    assert("COMMAND_FTP_DOWNLOAD"@.len() != "COMMAND_FTP_LIST"@.len());
    assert("DELETE_FILE"@.len() != "COMMAND_HPC_SEND"@.len());
    assert("DELETE_FILE"@.len() != "COMMAND_FTP_LIST"@.len());
    assert("DELETE_FILE"@.len() != "COMMAND_FTP_DOWNLOAD"@.len());
    assert("COMMAND_DELETE_FILE"@.len() != "HPC_SEND"@.len());
    assert("COMMAND_DELETE_FILE"@.len() != "COMMAND_HPC_SEND"@.len());
    assert("COMMAND_DELETE_FILE"@.len() != "FTP_LIST"@.len());
    assert("COMMAND_DELETE_FILE"@.len() != "COMMAND_FTP_LIST"@.len());
    assert("COMMAND_DELETE_FILE"@.len() != "FTP_DOWNLOAD"@.len());
    assert("COMMAND_DELETE_FILE"@.len() != "COMMAND_FTP_DOWNLOAD"@.len());
    assert("DELETE_ALL"@.len() != "COMMAND_HPC_SEND"@.len());
    assert("DELETE_ALL"@.len() != "COMMAND_FTP_LIST"@.len());
    assert("DELETE_ALL"@.len() != "COMMAND_FTP_DOWNLOAD"@.len());
    assert("DELETE_ALL"@.len() != "COMMAND_DELETE_FILE"@.len());
    assert("COMMAND_DELETE_ALL"@.len() != "HPC_SEND"@.len());
    assert("COMMAND_DELETE_ALL"@ != "COMMAND_HPC_SEND"@) by { assert("COMMAND_DELETE_ALL"@[8] != "COMMAND_HPC_SEND"@[8]); }
    assert("COMMAND_DELETE_ALL"@.len() != "FTP_LIST"@.len());
    assert("COMMAND_DELETE_ALL"@ != "COMMAND_FTP_LIST"@) by { assert("COMMAND_DELETE_ALL"@[8] != "COMMAND_FTP_LIST"@[8]); }
    assert("COMMAND_DELETE_ALL"@.len() != "FTP_DOWNLOAD"@.len());
    assert("COMMAND_DELETE_ALL"@.len() != "COMMAND_FTP_DOWNLOAD"@.len());
    assert("COMMAND_DELETE_ALL"@.len() != "DELETE_FILE"@.len());
    assert("COMMAND_DELETE_ALL"@.len() != "COMMAND_DELETE_FILE"@.len());
}

fn arg_text_exec(args: &JsonValue, key: &str) -> (r: Option<String>)
    ensures
        match r {
            Some(s) => arg_text(args@, key@) == Some(s@),
            None => arg_text(args@, key@) is None,
        },
{
    match args.get(key) {
        Some(v) => match v.as_str() {
            Some(s) => {
                let t = trim(s.as_str());
                if crate::text::is_blank(s.as_str()) {
                    None
                } else {
                    Some(t)
                }
            },
            None => None,
        },
        None => None,
    }
}

fn arg_either_exec(args: &JsonValue, key: &str, alt: &str) -> (r: Option<String>)
    ensures
        match r {
            Some(s) => arg_either(args@, key@, alt@) == Some(s@),
            None => arg_either(args@, key@, alt@) is None,
        },
{
    match arg_text_exec(args, key) {
        Some(s) => Some(s),
        None => arg_text_exec(args, alt),
    }
}

impl AutomationEngine {
    /// The line sent to the commander for `cmd` with the (resolved) arguments `args`.
    pub fn build_commander_line(&self, cmd: &CommandDefinition, args: &JsonValue) -> (r: Result<String, AutomationError>)
        ensures
            match commander_line(cmd.name@, args@) {
                Ok(l) => r matches Ok(x) && x@ == l,
                Err(m) => r matches Err(AutomationError::ValidationError(x)) && x@ == m,
            },
    {
        let canonical = match normalize_commander_name(cmd.name.as_str()) {
            Some(c) => c,
            None => {
                return Err(AutomationError::ValidationError(concat(
                    "unsupported commander command: ",
                    cmd.name.as_str(),
                )));
            },
        };
        if str_eq(canonical, "HPC_SEND") {
            Ok(String::from_str("HPC_SEND"))
        } else if str_eq(canonical, "FTP_LIST") {
            match arg_either_exec(args, "path", "Arg0") {
                Some(p) => Ok(concat("FTP_LIST ", p.as_str())),
                None => Err(AutomationError::ValidationError(String::from_str(
                    "FTP_LIST requires args.path (or args.Arg0)",
                ))),
            }
        } else if str_eq(canonical, "FTP_DOWNLOAD") {
            let remote = match arg_either_exec(args, "remote", "Arg0") {
                Some(r) => r,
                None => {
                    return Err(AutomationError::ValidationError(String::from_str(
                        "FTP_DOWNLOAD requires args.remote (or args.Arg0)",
                    )));
                },
            };
            let local = match arg_either_exec(args, "local", "Arg1") {
                Some(l) => l,
                None => {
                    return Err(AutomationError::ValidationError(String::from_str(
                        "FTP_DOWNLOAD requires args.local (or args.Arg1)",
                    )));
                },
            };
            let mut line = concat("FTP_DOWNLOAD ", remote.as_str());
            line.append(" ");
            line.append(local.as_str());
            Ok(line)
        } else if str_eq(canonical, "DELETE_FILE") {
            match arg_either_exec(args, "path", "Arg0") {
                Some(p) => Ok(concat("DELETE_FILE ", p.as_str())),
                None => Err(AutomationError::ValidationError(String::from_str(
                    "DELETE_FILE requires args.path (or args.Arg0)",
                ))),
            }
        } else {
            match arg_either_exec(args, "prefix", "Arg0") {
                Some(p) => Ok(concat("DELETE_ALL ", p.as_str())),
                None => Err(AutomationError::ValidationError(String::from_str(
                    "DELETE_ALL requires args.prefix (or args.Arg0)",
                ))),
            }
        }
    }
}

/// The commander's answer to a line: a reply starting with `ERROR` is a
/// rejection, anything else an acceptance.
pub fn commander_reply_check(line: &str, reply: &str) -> (r: Result<(), AutomationError>)
    ensures
        "ERROR"@.is_prefix_of(reply@) ==> (r matches Err(AutomationError::ExecutionError(m))
            && m@ == "commander rejected '"@ + line@ + "': "@ + reply@),
        !"ERROR"@.is_prefix_of(reply@) ==> r is Ok,
{
    if crate::text::starts_with(reply, "ERROR") {
        let mut m = concat("commander rejected '", line);
        m.append("': ");
        m.append(reply);
        return Err(AutomationError::ExecutionError(m));
    }
    Ok(())
}

// ---------------------------------------------------------------------------
// Running a plan
// ---------------------------------------------------------------------------
//
// The runner of the application alternates between waiting, sending and
// reporting; every decision it takes comes from `RunState::step`. A run
// starts each step of the plan in order, the whole plan `repeat_count` times
// (once when the count is 0). Before a step its time budget is checked; the
// step is then attempted after its delay, and retried after 250 ms up to
// `retry_count` times. A failed step stops the run when `stop_on_error` is set.

/// Where a run stands.
#[derive(Debug, Clone, Copy, PartialEq, Eq, Structural)]
pub enum RunPhase {
    /// Not begun.
    Idle,
    /// A step was started; the time budget is to be checked.
    Checking,
    /// An attempt of the current step is under way.
    Running,
    /// The outcome of the current step is being reported.
    Reporting,
    /// The run is over.
    Done,
}

/// What the runner tells the state machine.
#[derive(Debug, Clone, Copy, PartialEq, Eq, Structural)]
pub enum RunEvent {
    /// The run begins.
    Begin,
    /// The time since the run began, in milliseconds, after a step was started.
    Checked(u64),
    /// An attempt of the current step ended, successfully or not.
    Attempted(bool),
    /// The outcome of the current step was reported.
    Reported,
}

/// What the runner is to do next.
#[derive(Debug, Clone, Copy, PartialEq, Eq, Structural)]
pub enum RunAction {
    /// Report step `cmd` as started, as number `index` of `total`; then check the time.
    Start { index: usize, total: usize, cmd: usize },
    /// The time budget is spent: the run fails with [`timeout_error`].
    TimedOut,
    /// Wait `delay_ms` (when not 0), then attempt step `cmd`.
    Attempt { cmd: usize, delay_ms: u64 },
    /// Wait `pause_ms`, then attempt step `cmd` again.
    Retry { cmd: usize, pause_ms: u64 },
    /// Report step `cmd` (number `index` of `total`) as done.
    Succeeded { index: usize, total: usize, cmd: usize },
    /// Report step `cmd` (number `index` of `total`) as failed with its last
    /// error; when `stop`, the run fails with that error.
    Failed { index: usize, total: usize, cmd: usize, stop: bool },
    /// The run is complete.
    Finish,
}

/// The state of a run: its phase, the number of steps started, the attempts
/// made at the current step, and the steps that succeeded and failed.
#[derive(Debug, Clone, Copy, PartialEq, Eq, Structural)]
pub struct RunState {
    pub phase: RunPhase,
    pub started: usize,
    pub attempts: u16,
    pub successful: usize,
    pub failed: usize,
}

/// How many times the plan is gone through.
pub open spec fn plan_repeats(c: AutomationConfig) -> int {
    if c.repeat_count == 0 { 1 } else { c.repeat_count as int }
}

/// The number of steps a complete run starts.
pub open spec fn plan_total(c: AutomationConfig) -> int {
    plan_repeats(c) * c.commands@.len()
}

/// The step started as number `index` (counted from 1).
pub open spec fn step_of(c: AutomationConfig, index: int) -> int {
    (index - 1) % (c.commands@.len() as int)
}

/// The pause between attempts of a step.
pub open spec fn retry_pause_ms() -> u64 {
    250
}

/// A run whose counts are consistent with its phase.
pub open spec fn run_wf(c: AutomationConfig, s: RunState) -> bool {
    let n = c.commands@.len();
    &&& s.started <= plan_total(c)
    &&& match s.phase {
        RunPhase::Idle => s.started == 0 && s.successful == 0 && s.failed == 0,
        RunPhase::Checking => 1 <= s.started && s.successful + s.failed + 1 == s.started,
        RunPhase::Running => 1 <= s.started && s.successful + s.failed + 1 == s.started
            && n > 0 && 1 <= s.attempts <= c.commands@[step_of(c, s.started as int)].retry_count + 1,
        RunPhase::Reporting => 1 <= s.started && s.successful + s.failed == s.started,
        RunPhase::Done => s.successful + s.failed <= s.started,
    }
}

/// Whether the machine expects `e` in state `s`.
pub open spec fn accepts(s: RunState, e: RunEvent) -> bool {
    match (s.phase, e) {
        (RunPhase::Idle, RunEvent::Begin) => true,
        (RunPhase::Checking, RunEvent::Checked(_)) => true,
        (RunPhase::Running, RunEvent::Attempted(_)) => true,
        (RunPhase::Reporting, RunEvent::Reported) => true,
        _ => false,
    }
}

/// The transition of a run: the next state and the action that goes with it.
pub open spec fn run_step(c: AutomationConfig, s: RunState, e: RunEvent) -> (RunState, RunAction) {
    let total = plan_total(c);
    match e {
        RunEvent::Begin => if total == 0 {
            (RunState { phase: RunPhase::Done, ..s }, RunAction::Finish)
        } else {
            (RunState { phase: RunPhase::Checking, started: 1, ..s },
             RunAction::Start { index: 1, total: total as usize, cmd: 0 })
        },
        RunEvent::Checked(elapsed) => if c.timeout_ms > 0 && elapsed > c.timeout_ms {
            (RunState { phase: RunPhase::Done, ..s }, RunAction::TimedOut)
        } else {
            let k = step_of(c, s.started as int);
            (RunState { phase: RunPhase::Running, attempts: 1, ..s },
             RunAction::Attempt { cmd: k as usize, delay_ms: c.commands@[k].delay_ms })
        },
        RunEvent::Attempted(ok) => {
            let k = step_of(c, s.started as int);
            if ok {
                (RunState { phase: RunPhase::Reporting, successful: (s.successful + 1) as usize, ..s },
                 RunAction::Succeeded { index: s.started, total: total as usize, cmd: k as usize })
            } else if s.attempts <= c.commands@[k].retry_count {
                (RunState { attempts: (s.attempts + 1) as u16, ..s },
                 RunAction::Retry { cmd: k as usize, pause_ms: retry_pause_ms() })
            } else {
                (RunState {
                    phase: if c.stop_on_error { RunPhase::Done } else { RunPhase::Reporting },
                    failed: (s.failed + 1) as usize,
                    ..s
                 },
                 RunAction::Failed { index: s.started, total: total as usize, cmd: k as usize, stop: c.stop_on_error })
            }
        },
        RunEvent::Reported => if s.started == total {
            (RunState { phase: RunPhase::Done, ..s }, RunAction::Finish)
        } else {
            (RunState { phase: RunPhase::Checking, started: (s.started + 1) as usize, ..s },
             RunAction::Start {
                index: (s.started + 1) as usize,
                total: total as usize,
                cmd: step_of(c, s.started + 1) as usize,
             })
        },
    }
}

proof fn lemma_step_bounds(c: AutomationConfig, index: int)
    requires
        c.commands@.len() > 0,
        index >= 1,
    ensures
        0 <= step_of(c, index) < c.commands@.len(),
{
}

proof fn lemma_total_bounds(c: AutomationConfig)
    ensures
        plan_total(c) >= c.commands@.len(),
        plan_total(c) <= 255 * c.commands@.len(),
        plan_total(c) == 0 <==> c.commands@.len() == 0,
{
    let n = c.commands@.len() as int;
    let r = plan_repeats(c);
    assert(1 <= r <= 255);
    assert(r * n >= n) by (nonlinear_arith)
        requires
            1 <= r,
            n >= 0,
    ;
    assert(r * n <= 255 * n) by (nonlinear_arith)
        requires
            r <= 255,
            n >= 0,
    ;
}

impl RunState {
    /// A run that has not begun.
    pub fn new() -> (r: RunState)
        ensures
            r == (RunState { phase: RunPhase::Idle, started: 0, attempts: 0, successful: 0, failed: 0 }),
    {
        RunState { phase: RunPhase::Idle, started: 0, attempts: 0, successful: 0, failed: 0 }
    }

    /// Moves the run on by one event and says what to do next.
    pub fn step(&mut self, c: &AutomationConfig, e: RunEvent) -> (r: RunAction)
        requires
            run_wf(*c, *old(self)),
            accepts(*old(self), e),
            plan_total(*c) <= usize::MAX,
        ensures
            (*final(self), r) == run_step(*c, *old(self), e),
            run_wf(*c, *final(self)),
    {
        proof {
            lemma_total_bounds(*c);
        }
        let n = c.commands.len();
        let repeats: usize = if c.repeat_count == 0 { 1 } else { c.repeat_count as usize };
        let total: usize = repeats * n;
        match e {
            RunEvent::Begin => {
                if total == 0 {
                    self.phase = RunPhase::Done;
                    RunAction::Finish
                } else {
                    self.phase = RunPhase::Checking;
                    self.started = 1;
                    RunAction::Start { index: 1, total, cmd: 0 }
                }
            },
            RunEvent::Checked(elapsed) => {
                if c.timeout_ms > 0 && elapsed > c.timeout_ms {
                    self.phase = RunPhase::Done;
                    RunAction::TimedOut
                } else {
                    proof {
                        lemma_step_bounds(*c, self.started as int);
                    }
                    let k = (self.started - 1) % n;
                    self.phase = RunPhase::Running;
                    self.attempts = 1;
                    RunAction::Attempt { cmd: k, delay_ms: c.commands[k].delay_ms }
                }
            },
            RunEvent::Attempted(ok) => {
                proof {
                    lemma_step_bounds(*c, self.started as int);
                }
                let k = (self.started - 1) % n;
                if ok {
                    self.phase = RunPhase::Reporting;
                    self.successful = self.successful + 1;
                    RunAction::Succeeded { index: self.started, total, cmd: k }
                } else if self.attempts <= c.commands[k].retry_count as u16 {
                    self.attempts = self.attempts + 1;
                    RunAction::Retry { cmd: k, pause_ms: 250 }
                } else {
                    self.phase = if c.stop_on_error { RunPhase::Done } else { RunPhase::Reporting };
                    self.failed = self.failed + 1;
                    RunAction::Failed { index: self.started, total, cmd: k, stop: c.stop_on_error }
                }
            },
            RunEvent::Reported => {
                if self.started == total {
                    self.phase = RunPhase::Done;
                    RunAction::Finish
                } else {
                    self.started = self.started + 1;
                    self.phase = RunPhase::Checking;
                    proof {
                        lemma_step_bounds(*c, self.started as int);
                    }
                    let k = (self.started - 1) % n;
                    RunAction::Start { index: self.started, total, cmd: k }
                }
            },
        }
    }
}

/// A step is attempted at most `retry_count + 1` times: once its attempts
/// reach that number, a failed attempt ends the step instead of retrying it.
pub proof fn law_attempts_bounded(c: AutomationConfig, s: RunState)
    requires
        run_wf(c, s),
        s.phase == RunPhase::Running,
        s.attempts == c.commands@[step_of(c, s.started as int)].retry_count + 1,
    ensures
        run_step(c, s, RunEvent::Attempted(false)).1 is Failed,
{
}

/// A run that finishes normally has reported every step of the plan, each
/// as succeeded or failed.
pub proof fn law_finish_accounts_every_step(c: AutomationConfig, s: RunState, e: RunEvent)
    requires
        run_wf(c, s),
        accepts(s, e),
        run_step(c, s, e).1 == RunAction::Finish,
    ensures
        run_step(c, s, e).0.successful + run_step(c, s, e).0.failed == plan_total(c),
{
}

/// Steps are started in plan order: the step started as number `index` is
/// step `(index - 1) mod n` of the plan.
pub proof fn law_steps_in_plan_order(c: AutomationConfig, s: RunState, e: RunEvent)
    requires
        run_wf(c, s),
        accepts(s, e),
        run_step(c, s, e).1 is Start,
        plan_total(c) <= usize::MAX,
    ensures
        run_step(c, s, e).1 matches RunAction::Start { index, total, cmd }
            && cmd == step_of(c, index as int) && index == run_step(c, s, e).0.started
            && total == plan_total(c),
{
    lemma_total_bounds(c);
    match e {
        RunEvent::Begin => {
            let n = c.commands@.len() as int;
            assert(n > 0);
            assert(0int % n == 0) by (nonlinear_arith)
                requires
                    n > 0,
            ;
            assert(step_of(c, 1) == 0);
        },
        RunEvent::Reported => {
            assert(s.started < plan_total(c));
            lemma_step_bounds(c, s.started + 1);
            assert((s.started + 1) as usize as int == s.started + 1);
        },
        _ => {},
    }
}

/// A failed attempt is retried, after 250 ms, as long as the step has made
/// at most `retry_count` attempts; the step fails only after its
/// `retry_count + 1`-th failed attempt. Each retry counts one attempt more.
pub proof fn law_retries_follow_retry_count(c: AutomationConfig, s: RunState)
    requires
        run_wf(c, s),
        s.phase == RunPhase::Running,
    ensures
        ({
            let k = (s.started - 1) % (c.commands@.len() as int);
            let rc = c.commands@[k].retry_count as int;
            let (next, act) = run_step(c, s, RunEvent::Attempted(false));
            &&& (act is Retry) <==> s.attempts <= rc
            &&& (act is Failed) <==> s.attempts == rc + 1
            &&& act is Retry ==> act == (RunAction::Retry { cmd: k as usize, pause_ms: 250 })
                && next.attempts == s.attempts + 1 && next.phase == RunPhase::Running
                && next.started == s.started
        }),
{
}

/// The first attempt of a step comes after its time check, with the
/// step's own delay, and counts as attempt 1.
pub proof fn law_first_attempt(c: AutomationConfig, s: RunState, elapsed: u64)
    requires
        run_wf(c, s),
        s.phase == RunPhase::Checking,
        !(c.timeout_ms > 0 && elapsed > c.timeout_ms),
        c.commands@.len() > 0,
    ensures
        ({
            let k = (s.started - 1) % (c.commands@.len() as int);
            let (next, act) = run_step(c, s, RunEvent::Checked(elapsed));
            &&& act == (RunAction::Attempt { cmd: k as usize, delay_ms: c.commands@[k].delay_ms })
            &&& next.attempts == 1 && next.phase == RunPhase::Running
        }),
{
}

/// With `stop_on_error`, a failed step ends the run; without it, the run goes on.
pub proof fn law_stop_on_error(c: AutomationConfig, s: RunState)
    requires
        run_wf(c, s),
        s.phase == RunPhase::Running,
        run_step(c, s, RunEvent::Attempted(false)).1 is Failed,
    ensures
        c.stop_on_error ==> run_step(c, s, RunEvent::Attempted(false)).0.phase == RunPhase::Done,
        !c.stop_on_error ==> run_step(c, s, RunEvent::Attempted(false)).0.phase == RunPhase::Reporting,
{
}

// ---------------------------------------------------------------------------
// TOML plans
// ---------------------------------------------------------------------------

#[verifier::external_type_specification]
#[verifier::external_body]
pub struct ExTomlValue(toml::Value);

/// What `toml::from_str::<toml::Value>` gives for a text: the value read,
/// or the displayed text of its error. It is a function of the text alone.
pub uninterp spec fn toml_document(text: Seq<char>) -> Result<toml::Value, Seq<char>>;

/// What `serde_json::to_string` gives for a TOML value: the JSON text, or
/// the displayed text of its error. It is a function of the value alone.
pub uninterp spec fn toml_value_json(value: toml::Value) -> Result<Seq<char>, Seq<char>>;

/// `toml::from_str::<toml::Value>(text)`, with a failure given as the
/// error's displayed text. Stated: the outcome is `toml_document` of the
/// text; what that is on a given text is the toml crate's.
#[verifier::external_body]
fn parse_toml_document(text: &str) -> (r: Result<toml::Value, String>)
    ensures
        match r {
            Ok(v) => toml_document(text@) == Ok::<toml::Value, Seq<char>>(v),
            Err(m) => toml_document(text@) == Err::<toml::Value, Seq<char>>(m@),
        },
{
    toml::from_str::<toml::Value>(text).map_err(|e| e.to_string())
}

/// `serde_json::to_string(value)` of a TOML value, with a failure given as
/// the error's displayed text. Stated: the outcome is `toml_value_json` of
/// the value; what that is on a given value is serde_json's.
#[verifier::external_body]
fn toml_value_json_text(value: &toml::Value) -> (r: Result<String, String>)
    ensures
        match r {
            Ok(j) => toml_value_json(*value) == Ok::<Seq<char>, Seq<char>>(j@),
            Err(m) => toml_value_json(*value) == Err::<Seq<char>, Seq<char>>(m@),
        },
{
    serde_json::to_string(value).map_err(|e| e.to_string())
}

/// What reading a TOML text and rendering it as JSON comes to: a TOML error
/// with the toml crate's message, a JSON error with serde_json's message, or
/// the JSON text.
pub open spec fn toml_json_outcome(text: Seq<char>, r: Result<String, AutomationError>) -> bool {
    match toml_document(text) {
        Err(m) => r matches Err(AutomationError::TomlError(x)) && x@ == m,
        Ok(v) => match toml_value_json(v) {
            Ok(j) => r matches Ok(out) && out@ == j,
            Err(m) => r matches Err(AutomationError::JsonError(x)) && x@ == m,
        },
    }
}

/// The JSON text of a TOML text: the document that the toml crate reads
/// from it, rendered by serde_json.
pub fn toml_text_json(text: &str) -> (r: Result<String, AutomationError>)
    ensures
        toml_json_outcome(text@, r),
{
    let value = match parse_toml_document(text) {
        Ok(v) => v,
        Err(m) => {
            return Err(AutomationError::TomlError(m));
        },
    };
    match toml_value_json_text(&value) {
        Ok(j) => Ok(j),
        Err(m) => Err(AutomationError::JsonError(m)),
    }
}

/// The JSON text of a TOML plan, after its unquoted time tokens are replaced
/// by the current UNIX time; the application reads the plan from that text.
/// Either the clock fails, or the result is [`toml_text_json`] of the plan
/// with the tokens replaced by the clock's reading.
pub fn toml_plan_json_text(toml_str: &str) -> (r: Result<String, AutomationError>)
    ensures
        match r {
            Err(AutomationError::ExecutionError(m)) => "system time error: "@.is_prefix_of(m@),
            _ => exists|now: i64| toml_json_outcome(
                replace_unquoted(toml_str@, time_token(), #[trigger] signed_decimal(now as int)),
                r,
            ),
        },
{
    let text = preprocess_toml_dynamic_tokens(toml_str)?;
    let r = toml_text_json(text.as_str());
    proof {
        let now = choose|now: i64| text@ == replace_unquoted(toml_str@, time_token(), #[trigger] signed_decimal(now as int));
        assert(toml_json_outcome(replace_unquoted(toml_str@, time_token(), signed_decimal(now as int)), r));
    }
    r
}
} // verus!
