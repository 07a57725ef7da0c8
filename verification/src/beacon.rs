//! Calendar arithmetic for BEACON telemetry timestamps, and the views of the
//! BEACON dashboard.
use vstd::prelude::*;
use crate::json::{entries_get, json_get, json_str, json_u64, JsonValue, JsonView};
use crate::text::{
    after_last, chars_of, copy_string, find_char_from, find_from, last_segment, parse_i64, parsed_i64,
    slice_range, str_eq, string_of, strip_end, trim_end_char, trim_end_str,
    strip_end_seq, lex_lt, str_lt, lemma_lex_lt_total,
    lemma_lex_lt_transitive,
};

verus! {

/// The views of the BEACON dashboard.
#[derive(Debug, Clone, Copy, PartialEq, Eq, Structural)]
pub enum DashboardView {
    Overview,
    Charts,
    Gauges,
    Table,
}

/// Integer division rounding toward zero (`/` on Rust integers), for `b > 0`.
pub open spec fn tdiv(a: int, b: int) -> int {
    if a >= 0 {
        a / b
    } else {
        -((-a) / b)
    }
}

pub open spec fn in_i64(x: int) -> bool {
    i64::MIN <= x <= i64::MAX
}

/// The shifted month (March = 3 … February = 14) and year of the computation.
pub open spec fn shifted(year: int, month: int) -> (int, int) {
    if month < 3 {
        (month + 12, year - 1)
    } else {
        (month, year)
    }
}

/// The day count of the proleptic Gregorian date `year-month-day`: a
/// count of days since 1970-01-01 (day 0), negative before it: the day
/// number of the shifted calendar less that of 1970-01-01 (719469).
pub open spec fn days_from_civil(year: int, month: int, day: int) -> int {
    let (m, y) = shifted(year, month);
    365 * y + tdiv(y, 4) - tdiv(y, 100) + tdiv(y, 400) + tdiv(153 * m - 457, 5) + day - 719469
}

/// Every intermediate value of the computation fits in an `i64`.
pub open spec fn days_fit(year: int, month: int, day: int) -> bool {
    let (m, y) = shifted(year, month);
    &&& in_i64(m) && in_i64(y)
    &&& in_i64(365 * y)
    &&& in_i64(365 * y + tdiv(y, 4))
    &&& in_i64(365 * y + tdiv(y, 4) - tdiv(y, 100))
    &&& in_i64(365 * y + tdiv(y, 4) - tdiv(y, 100) + tdiv(y, 400))
    &&& in_i64(153 * m) && in_i64(153 * m - 457)
    &&& in_i64(365 * y + tdiv(y, 4) - tdiv(y, 100) + tdiv(y, 400) + tdiv(153 * m - 457, 5))
    &&& in_i64(365 * y + tdiv(y, 4) - tdiv(y, 100) + tdiv(y, 400) + tdiv(153 * m - 457, 5) + day)
    &&& in_i64(days_from_civil(year, month, day))
}

/// The days since 1970-01-01 of a calendar date, `days_from_civil` (always `Some`).
pub fn days_since_epoch(year: i64, month: i64, day: i64) -> (r: Option<i64>)
    requires
        days_fit(year as int, month as int, day as int),
    ensures
        r == Some(days_from_civil(year as int, month as int, day as int) as i64),
{
    let m = if month < 3 { month + 12 } else { month };
    let y = if month < 3 { year - 1 } else { year };
    let q4 = y / 4;
    let q100 = y / 100;
    let q400 = y / 400;
    assert(q4 as int == tdiv(y as int, 4));
    assert(q100 as int == tdiv(y as int, 100));
    assert(q400 as int == tdiv(y as int, 400));
    let a = 365 * y;
    let b = a + q4;
    let c = b - q100;
    let d = c + q400;
    let e = 153 * m;
    let f = e - 457;
    let q5 = f / 5;
    assert(q5 as int == tdiv(f as int, 5));
    let g = d + q5;
    let jdn = g + day;
    Some(jdn - 719469)
}

/// 1970-01-01 is day 0, so whole seconds are UNIX time: 1970-01-02T03:04:05
/// is second 97445.
pub proof fn law_epoch_is_day_zero()
    ensures
        days_from_civil(1970, 1, 1) == 0,
        total_seconds(1970, 1, 2, 3, 4, 5) == 97445,
        days_from_civil(2000, 1, 1) == 10957,
{
}

/// A leap year of the Gregorian calendar.
pub open spec fn is_leap(year: int) -> bool {
    (year % 4 == 0 && year % 100 != 0) || year % 400 == 0
}

/// The number of days of a month of the Gregorian calendar.
pub open spec fn month_length(year: int, month: int) -> int {
    if month == 2 {
        if is_leap(year) { 29 } else { 28 }
    } else if month == 4 || month == 6 || month == 9 || month == 11 {
        30
    } else {
        31
    }
}

proof fn lemma_quotient_step(y: int, d: int)
    requires
        y >= 1,
        d > 0,
    ensures
        y / d - (y - 1) / d == if y % d == 0 { 1int } else { 0int },
{
    let a = y / d;
    let b = (y - 1) / d;
    let ra = y % d;
    let rb = (y - 1) % d;
    vstd::arithmetic::div_mod::lemma_fundamental_div_mod(y, d);
    vstd::arithmetic::div_mod::lemma_fundamental_div_mod(y - 1, d);
    assert(0 <= ra < d && 0 <= rb < d);
    assert(d * (a - b) == rb + 1 - ra) by (nonlinear_arith)
        requires
            y == d * a + ra,
            y - 1 == d * b + rb,
    ;
    if a - b >= 2 {
        assert(d * (a - b) >= 2 * d) by (nonlinear_arith)
            requires
                a - b >= 2,
                d > 0,
        ;
    }
    if a - b <= -1 {
        assert(d * (a - b) <= -d) by (nonlinear_arith)
            requires
                a - b <= -1,
                d > 0,
        ;
    }
    if a - b == 1 {
        assert(d * (a - b) == d);
    }
    if a - b == 0 {
        assert(d * (a - b) == 0);
    }
}

proof fn lemma_divides_chain(y: int)
    ensures
        y % 400 == 0 ==> y % 100 == 0,
        y % 100 == 0 ==> y % 4 == 0,
{
    if y % 400 == 0 {
        vstd::arithmetic::div_mod::lemma_fundamental_div_mod(y, 400);
        let q = y / 400;
        assert(y == 100 * (4 * q)) by (nonlinear_arith)
            requires
                y == 400 * q + 0,
        ;
        vstd::arithmetic::div_mod::lemma_mod_multiples_basic(4 * q, 100);
    }
    if y % 100 == 0 {
        vstd::arithmetic::div_mod::lemma_fundamental_div_mod(y, 100);
        let q = y / 100;
        assert(y == 4 * (25 * q)) by (nonlinear_arith)
            requires
                y == 100 * q + 0,
        ;
        vstd::arithmetic::div_mod::lemma_mod_multiples_basic(25 * q, 4);
    }
}

/// The day count goes up by one from the last day of a month to the first
/// day of the next, across the end of February in leap and common years
/// and across the end of the year, for the years from 1 on.
pub proof fn law_month_boundaries(year: int, month: int)
    requires
        year >= 1,
        1 <= month <= 12,
    ensures
        month < 12 ==> days_from_civil(year, month + 1, 1) == days_from_civil(year, month, month_length(year, month)) + 1,
        month == 12 ==> days_from_civil(year + 1, 1, 1) == days_from_civil(year, 12, 31) + 1,
{
    if month == 2 {
        lemma_quotient_step(year, 4);
        lemma_quotient_step(year, 100);
        lemma_quotient_step(year, 400);
        lemma_divides_chain(year);
        assert(tdiv(year, 4) == year / 4);
        assert(tdiv(year - 1, 4) == (year - 1) / 4);
        assert(tdiv(year, 100) == year / 100);
        assert(tdiv(year - 1, 100) == (year - 1) / 100);
        assert(tdiv(year, 400) == year / 400);
        assert(tdiv(year - 1, 400) == (year - 1) / 400);
    }
}

/// The day after a day of the same month is counted one day later.
pub proof fn law_next_day(year: int, month: int, day: int)
    ensures
        days_from_civil(year, month, day + 1) == days_from_civil(year, month, day) + 1,
{
}


// ---------------------------------------------------------------------------
// Parameter values of a BEACON packet
// ---------------------------------------------------------------------------

/// A parameter value extracted from a BEACON packet. A floating-point value
/// is kept as the JSON number it arrived as; the dashboard plots it as `f64`.
#[derive(Debug)]
pub enum BeaconValue {
    Float(JsonValue),
    Int(i64),
    Bool(bool),
    StringVal(String),
}

pub enum BeaconValueView {
    Float(JsonView),
    Int(i64),
    Bool(bool),
    StringVal(Seq<char>),
}

impl View for BeaconValue {
    type V = BeaconValueView;

    open spec fn view(&self) -> BeaconValueView {
        match self {
            BeaconValue::Float(j) => BeaconValueView::Float(j@),
            BeaconValue::Int(i) => BeaconValueView::Int(*i),
            BeaconValue::Bool(b) => BeaconValueView::Bool(*b),
            BeaconValue::StringVal(s) => BeaconValueView::StringVal(s@),
        }
    }
}

/// `v.as_f64()`: any JSON number.
pub open spec fn json_number(v: Option<JsonView>) -> Option<JsonView> {
    match v {
        Some(JsonView::PosInt(n)) => Some(JsonView::PosInt(n)),
        Some(JsonView::NegInt(n)) => Some(JsonView::NegInt(n)),
        Some(JsonView::Float(t)) => Some(JsonView::Float(t)),
        _ => None,
    }
}

/// `v.as_i64()`: an integer that fits in an `i64`.
pub open spec fn json_i64(v: Option<JsonView>) -> Option<i64> {
    match v {
        Some(JsonView::PosInt(n)) => if n <= i64::MAX { Some(n as i64) } else { None },
        Some(JsonView::NegInt(n)) => Some(n),
        _ => None,
    }
}

/// `v.as_bool()`.
pub open spec fn json_bool(v: Option<JsonView>) -> Option<bool> {
    match v {
        Some(JsonView::Bool(b)) => Some(b),
        _ => None,
    }
}

/// `a.or_else(|| b)`.
pub open spec fn first_present(a: Option<JsonView>, b: Option<JsonView>) -> Option<JsonView> {
    if a is Some { a } else { b }
}

/// `u64 as i64`: the value taken modulo 2^64 into the `i64` range.
pub open spec fn wrap_to_i64(n: u64) -> i64 {
    if n <= i64::MAX { n as i64 } else { (n - 0x1_0000_0000_0000_0000int) as i64 }
}

pub open spec fn float_of(v: Option<JsonView>) -> Option<BeaconValueView> {
    match json_number(v) {
        Some(x) => Some(BeaconValueView::Float(x)),
        None => None,
    }
}

pub open spec fn int_of(v: Option<i64>) -> Option<BeaconValueView> {
    match v {
        Some(x) => Some(BeaconValueView::Int(x)),
        None => None,
    }
}

pub open spec fn text_of(v: Option<JsonView>) -> Option<BeaconValueView> {
    match json_str(v) {
        Some(x) => Some(BeaconValueView::StringVal(x)),
        None => None,
    }
}

/// The value that an engineering-value object `eng` gives, chosen by its
/// `type` member; with another type, the first of `floatValue`,
/// `sint64Value` and `stringValue` that holds a value of its kind.
pub open spec fn eng_value(eng: JsonView) -> Option<BeaconValueView> {
    let t = match json_str(json_get(eng, "type"@)) {
        Some(t) => t,
        None => Seq::empty(),
    };
    if t == "FLOAT"@ {
        float_of(json_get(eng, "floatValue"@))
    } else if t == "DOUBLE"@ {
        float_of(json_get(eng, "doubleValue"@))
    } else if t == "UINT32"@ || t == "UINT64"@ {
        match json_u64(first_present(json_get(eng, "uint64Value"@), json_get(eng, "uint32Value"@))) {
            Some(n) => Some(BeaconValueView::Int(wrap_to_i64(n))),
            None => None,
        }
    } else if t == "SINT32"@ || t == "SINT64"@ {
        int_of(json_i64(first_present(json_get(eng, "sint64Value"@), json_get(eng, "sint32Value"@))))
    } else if t == "BOOLEAN"@ {
        match json_bool(json_get(eng, "booleanValue"@)) {
            Some(b) => Some(BeaconValueView::Bool(b)),
            None => None,
        }
    } else if t == "STRING"@ || t == "ENUMERATED"@ {
        text_of(json_get(eng, "stringValue"@))
    } else if float_of(json_get(eng, "floatValue"@)) is Some {
        float_of(json_get(eng, "floatValue"@))
    } else if json_i64(json_get(eng, "sint64Value"@)) is Some {
        int_of(json_i64(json_get(eng, "sint64Value"@)))
    } else {
        text_of(json_get(eng, "stringValue"@))
    }
}

/// Each engineering type is read from its own member: FLOAT from
/// `floatValue`, DOUBLE from `doubleValue`, UINT32 from `uint32Value` (when
/// `uint64Value` is absent), SINT64 from `sint64Value`, BOOLEAN from
/// `booleanValue` and ENUMERATED from `stringValue`; a value of the wrong
/// JSON kind gives nothing.
pub proof fn law_eng_value_members(eng: JsonView, t: Seq<char>, x: JsonView, n: u64, m: i64, b: bool, v: Seq<char>)
    requires
        json_get(eng, "type"@) == Some(JsonView::Str(t)),
    ensures
        t == "FLOAT"@ && json_get(eng, "floatValue"@) == Some(x) && (x is PosInt || x is NegInt || x is Float)
            ==> eng_value(eng) == Some(BeaconValueView::Float(x)),
        t == "DOUBLE"@ && json_get(eng, "doubleValue"@) == Some(x) && (x is PosInt || x is NegInt || x is Float)
            ==> eng_value(eng) == Some(BeaconValueView::Float(x)),
        t == "UINT32"@ && json_get(eng, "uint64Value"@) is None && json_get(eng, "uint32Value"@) == Some(
            JsonView::PosInt(n),
        ) && n <= i64::MAX ==> eng_value(eng) == Some(BeaconValueView::Int(n as i64)),
        t == "SINT64"@ && json_get(eng, "sint64Value"@) == Some(JsonView::NegInt(m))
            ==> eng_value(eng) == Some(BeaconValueView::Int(m)),
        t == "BOOLEAN"@ && json_get(eng, "booleanValue"@) == Some(JsonView::Bool(b))
            ==> eng_value(eng) == Some(BeaconValueView::Bool(b)),
        t == "ENUMERATED"@ && json_get(eng, "stringValue"@) == Some(JsonView::Str(v))
            ==> eng_value(eng) == Some(BeaconValueView::StringVal(v)),
        t == "BOOLEAN"@ && json_get(eng, "booleanValue"@) == Some(x) && !(x is Bool) ==> eng_value(eng) is None,
{
    reveal_strlit("FLOAT");
    reveal_strlit("DOUBLE");
    reveal_strlit("UINT32");
    reveal_strlit("UINT64");
    reveal_strlit("SINT32");
    reveal_strlit("SINT64");
    reveal_strlit("BOOLEAN");
    reveal_strlit("STRING");
    reveal_strlit("ENUMERATED");
    assert("FLOAT"@.len() != "DOUBLE"@.len());
    assert("UINT32"@ != "FLOAT"@ && "UINT32"@ != "DOUBLE"@) by {
        assert("UINT32"@[0] != "FLOAT"@[0] && "UINT32"@.len() == "DOUBLE"@.len() && "UINT32"@[0] != "DOUBLE"@[0]);
    }
    assert("SINT64"@[0] != "FLOAT"@[0] && "SINT64"@[0] != "DOUBLE"@[0] && "SINT64"@[0] != "UINT32"@[0]
        && "SINT64"@[0] != "UINT64"@[0]);
    assert("BOOLEAN"@[0] != "FLOAT"@[0] && "BOOLEAN"@[0] != "DOUBLE"@[0] && "BOOLEAN"@[0] != "UINT32"@[0]
        && "BOOLEAN"@[0] != "UINT64"@[0] && "BOOLEAN"@[0] != "SINT32"@[0] && "BOOLEAN"@[0] != "SINT64"@[0]);
    assert("ENUMERATED"@[0] != "FLOAT"@[0] && "ENUMERATED"@[0] != "DOUBLE"@[0] && "ENUMERATED"@[0] != "UINT32"@[0]
        && "ENUMERATED"@[0] != "UINT64"@[0] && "ENUMERATED"@[0] != "SINT32"@[0] && "ENUMERATED"@[0] != "SINT64"@[0]
        && "ENUMERATED"@[0] != "BOOLEAN"@[0] && "ENUMERATED"@[0] != "STRING"@[0]);
    assert("FLOAT"@[0] != "UINT64"@[0] && "FLOAT"@[0] != "SINT32"@[0] && "DOUBLE"@[0] != "UINT64"@[0]
        && "DOUBLE"@[0] != "SINT32"@[0] && "FLOAT"@[0] != "UINT32"@[0]);
}

fn number_value(v: Option<&JsonValue>) -> (r: Option<BeaconValue>)
    ensures
        match r {
            Some(x) => float_of(match v { Some(j) => Some(j@), None => None }) == Some(x@),
            None => float_of(match v { Some(j) => Some(j@), None => None }) is None,
        },
{
    match v {
        Some(j) => match j {
            JsonValue::PosInt(n) => Some(BeaconValue::Float(JsonValue::PosInt(*n))),
            JsonValue::NegInt(n) => Some(BeaconValue::Float(JsonValue::NegInt(*n))),
            JsonValue::Float(t) => Some(BeaconValue::Float(JsonValue::Float(copy_string(t)))),
            _ => None,
        },
        None => None,
    }
}

fn text_value(v: Option<&JsonValue>) -> (r: Option<BeaconValue>)
    ensures
        match r {
            Some(x) => text_of(match v { Some(j) => Some(j@), None => None }) == Some(x@),
            None => text_of(match v { Some(j) => Some(j@), None => None }) is None,
        },
{
    match v {
        Some(JsonValue::Str(t)) => Some(BeaconValue::StringVal(copy_string(t))),
        _ => None,
    }
}

fn signed_value(v: Option<&JsonValue>) -> (r: Option<i64>)
    ensures
        r == json_i64(match v { Some(j) => Some(j@), None => None }),
{
    match v {
        Some(j) => j.as_i64(),
        None => None,
    }
}

/// `n as i64`.
pub(crate) fn wrap_u64(n: u64) -> (r: i64)
    ensures
        r == wrap_to_i64(n),
{
    if n <= 0x7fff_ffff_ffff_ffffu64 {
        n as i64
    } else {
        let k: u64 = n - 0x8000_0000_0000_0000u64;
        let r: i64 = (k as i64) - 0x7fff_ffff_ffff_ffffi64 - 1;
        r
    }
}

/// The value of a parameter's engineering-value object (`engValue`).
pub fn extract_eng_value(eng: &JsonValue) -> (r: Option<BeaconValue>)
    ensures
        match r {
            Some(x) => eng_value(eng@) == Some(x@),
            None => eng_value(eng@) is None,
        },
{
    let t: &str = match eng.get("type") {
        Some(JsonValue::Str(t)) => t.as_str(),
        _ => "",
    };
    proof {
        reveal_strlit("");
        assert(t@ == match json_str(json_get(eng@, "type"@)) {
            Some(t) => t,
            None => Seq::<char>::empty(),
        });
    }
    if str_eq(t, "FLOAT") {
        number_value(eng.get("floatValue"))
    } else if str_eq(t, "DOUBLE") {
        number_value(eng.get("doubleValue"))
    } else if str_eq(t, "UINT32") || str_eq(t, "UINT64") {
        let v = match eng.get("uint64Value") {
            Some(j) => Some(j),
            None => eng.get("uint32Value"),
        };
        match v {
            Some(JsonValue::PosInt(n)) => Some(BeaconValue::Int(wrap_u64(*n))),
            _ => None,
        }
    } else if str_eq(t, "SINT32") || str_eq(t, "SINT64") {
        let v = match eng.get("sint64Value") {
            Some(j) => Some(j),
            None => eng.get("sint32Value"),
        };
        match signed_value(v) {
            Some(n) => Some(BeaconValue::Int(n)),
            None => None,
        }
    } else if str_eq(t, "BOOLEAN") {
        match eng.get("booleanValue") {
            Some(JsonValue::Bool(b)) => Some(BeaconValue::Bool(*b)),
            _ => None,
        }
    } else if str_eq(t, "STRING") || str_eq(t, "ENUMERATED") {
        text_value(eng.get("stringValue"))
    } else {
        match number_value(eng.get("floatValue")) {
            Some(x) => Some(x),
            None => match signed_value(eng.get("sint64Value")) {
                Some(n) => Some(BeaconValue::Int(n)),
                None => text_value(eng.get("stringValue")),
            },
        }
    }
}

/// `v.get(key)` on an optional value (`and_then(|x| x.get(key))`).
pub open spec fn opt_get(v: Option<JsonView>, key: Seq<char>) -> Option<JsonView> {
    match v {
        Some(x) => json_get(x, key),
        None => None,
    }
}

/// The field a parameter object gives: the last `/`-separated segment of
/// its `id.name`, and the value of its `engValue`.
pub open spec fn param_field(p: JsonView) -> Option<(Seq<char>, BeaconValueView)> {
    match json_str(opt_get(json_get(p, "id"@), "name"@)) {
        Some(name) => match json_get(p, "engValue"@) {
            Some(eng) => match eng_value(eng) {
                Some(v) => Some((after_last(name, '/'), v)),
                None => None,
            },
            None => None,
        },
        None => None,
    }
}

/// The fields of a list of parameter objects, in order, skipping those
/// that give none.
pub open spec fn fields_of(ps: Seq<JsonView>) -> Seq<(Seq<char>, BeaconValueView)>
    decreases ps.len(),
{
    if ps.len() == 0 {
        Seq::empty()
    } else {
        match param_field(ps.last()) {
            Some(f) => fields_of(ps.drop_last()).push(f),
            None => fields_of(ps.drop_last()),
        }
    }
}

pub open spec fn field_view(f: (String, BeaconValue)) -> (Seq<char>, BeaconValueView) {
    (f.0@, f.1@)
}

pub open spec fn fields_view(fs: Seq<(String, BeaconValue)>) -> Seq<(Seq<char>, BeaconValueView)> {
    fs.map_values(|f: (String, BeaconValue)| field_view(f))
}

/// The field of one parameter object, if it has a name and a value.
pub fn param_field_of(p: &JsonValue) -> (r: Option<(String, BeaconValue)>)
    ensures
        match r {
            Some(f) => param_field(p@) == Some(field_view(f)),
            None => param_field(p@) is None,
        },
{
    let name = match p.get("id") {
        Some(id) => match id.get("name") {
            Some(JsonValue::Str(n)) => n,
            _ => return None,
        },
        None => return None,
    };
    let eng = match p.get("engValue") {
        Some(e) => e,
        None => return None,
    };
    match extract_eng_value(eng) {
        Some(v) => {
            let chars = chars_of(name.as_str());
            let seg = last_segment(chars.as_slice(), '/');
            Some((string_of(seg.as_slice()), v))
        },
        None => None,
    }
}

/// The fields of the parameter objects of `ps`, in order.
pub fn fields_of_params(ps: &Vec<JsonValue>) -> (r: Vec<(String, BeaconValue)>)
    ensures
        fields_view(r@) == fields_of(crate::json::items_view(ps@)),
{
    let mut out: Vec<(String, BeaconValue)> = Vec::new();
    let mut i: usize = 0;
    proof {
        assert(ps@.take(0) =~= Seq::<JsonValue>::empty());
        assert(fields_view(out@) =~= Seq::empty());
    }
    while i < ps.len()
        invariant
            i <= ps@.len(),
            fields_view(out@) == fields_of(crate::json::items_view(ps@.take(i as int))),
        decreases ps@.len() - i,
    {
        proof {
            assert(ps@.take(i + 1) =~= ps@.take(i as int).push(ps@[i as int]));
            crate::json::lemma_items_view_push(ps@.take(i as int), ps@[i as int]);
            let ghost iv = crate::json::items_view(ps@.take(i + 1));
            assert(iv.drop_last() =~= crate::json::items_view(ps@.take(i as int)));
        }
        match param_field_of(&ps[i]) {
            Some(f) => {
                let ghost before = out@;
                out.push(f);
                proof {
                    assert(fields_view(out@) =~= fields_view(before).push(field_view(f)));
                }
            },
            None => {},
        }
        i = i + 1;
    }
    proof {
        assert(ps@.take(ps@.len() as int) =~= ps@);
    }
    out
}

/// What one BEACON packet gives the dashboard: its generation time text and
/// its fields in packet order (a later field of a name replaces an earlier
/// one).
#[derive(Debug)]
pub struct BeaconExtract {
    pub generation_time: String,
    pub fields: Vec<(String, BeaconValue)>,
}

/// The extract of one packet object: `None` when it has no `parameter`
/// array, or when it yields no field and no generation time.
pub open spec fn extract_of(json: JsonView) -> Option<(Seq<char>, Seq<(Seq<char>, BeaconValueView)>)> {
    let g = match json_str(json_get(json, "generationTime"@)) {
        Some(g) => g,
        None => Seq::empty(),
    };
    match json_get(json, "parameter"@) {
        Some(JsonView::Array(ps)) => {
            let fs = fields_of(ps);
            if fs.len() == 0 && g.len() == 0 {
                None
            } else {
                Some((g, fs))
            }
        },
        _ => None,
    }
}

pub open spec fn extract_view(e: BeaconExtract) -> (Seq<char>, Seq<(Seq<char>, BeaconValueView)>) {
    (e.generation_time@, fields_view(e.fields@))
}

/// Reads one packet object of a Yamcs answer.
pub fn parse_extract_response(json: &JsonValue) -> (r: Option<BeaconExtract>)
    ensures
        match r {
            Some(e) => extract_of(json@) == Some(extract_view(e)),
            None => extract_of(json@) is None,
        },
{
    let generation_time = match json.get("generationTime") {
        Some(JsonValue::Str(g)) => copy_string(g),
        _ => String::new(),
    };
    let params = match json.get("parameter") {
        Some(JsonValue::Array(ps)) => ps,
        _ => return None,
    };
    let fields = fields_of_params(params);
    proof {
        assert(generation_time@ == match json_str(json_get(json@, "generationTime"@)) {
            Some(g) => g,
            None => Seq::<char>::empty(),
        });
    }
    if fields.len() == 0 && generation_time.as_str().is_empty() {
        return None;
    }
    Some(BeaconExtract { generation_time, fields })
}

pub open spec fn extracts_of(ps: Seq<JsonView>) -> Seq<(Seq<char>, Seq<(Seq<char>, BeaconValueView)>)>
    decreases ps.len(),
{
    if ps.len() == 0 {
        Seq::empty()
    } else {
        match extract_of(ps.last()) {
            Some(e) => extracts_of(ps.drop_last()).push(e),
            None => extracts_of(ps.drop_last()),
        }
    }
}

/// The snapshots of a poll answer: the extract of the answer itself, if
/// any, then those of the objects of its `packet` array, in order.
pub open spec fn poll_extracts(json: JsonView) -> Seq<(Seq<char>, Seq<(Seq<char>, BeaconValueView)>)> {
    let head = match extract_of(json) {
        Some(e) => seq![e],
        None => Seq::empty(),
    };
    match json_get(json, "packet"@) {
        Some(JsonView::Array(ps)) => head + extracts_of(ps),
        _ => head,
    }
}

pub open spec fn extracts_view(es: Seq<BeaconExtract>) -> Seq<(Seq<char>, Seq<(Seq<char>, BeaconValueView)>)> {
    es.map_values(|e: BeaconExtract| extract_view(e))
}

/// Reads every packet of a poll answer.
pub fn parse_beacon_poll_response(json: &JsonValue) -> (r: Vec<BeaconExtract>)
    ensures
        extracts_view(r@) == poll_extracts(json@),
{
    let mut out: Vec<BeaconExtract> = Vec::new();
    match parse_extract_response(json) {
        Some(e) => out.push(e),
        None => {},
    }
    proof {
        let head = match extract_of(json@) {
            Some(e) => seq![e],
            None => Seq::empty(),
        };
        assert(extracts_view(out@) =~= head);
    }
    match json.get("packet") {
        Some(JsonValue::Array(ps)) => {
            let ghost head = extracts_view(out@);
            let mut i: usize = 0;
            proof {
                assert(ps@.take(0) =~= Seq::<JsonValue>::empty());
                assert(head + extracts_of(crate::json::items_view(ps@.take(0))) =~= head);
            }
            while i < ps.len()
                invariant
                    i <= ps@.len(),
                    extracts_view(out@) == head + extracts_of(crate::json::items_view(ps@.take(i as int))),
                decreases ps@.len() - i,
            {
                proof {
                    assert(ps@.take(i + 1) =~= ps@.take(i as int).push(ps@[i as int]));
                    crate::json::lemma_items_view_push(ps@.take(i as int), ps@[i as int]);
                    let ghost iv = crate::json::items_view(ps@.take(i + 1));
                    assert(iv.drop_last() =~= crate::json::items_view(ps@.take(i as int)));
                }
                match parse_extract_response(&ps[i]) {
                    Some(e) => {
                        let ghost before = out@;
                        out.push(e);
                        proof {
                            assert(extracts_view(out@) =~= extracts_view(before).push(extract_view(e)));
                        }
                    },
                    None => {},
                }
                i = i + 1;
            }
            proof {
                assert(ps@.take(ps@.len() as int) =~= ps@);
            }
        },
        _ => {},
    }
    out
}

// ---------------------------------------------------------------------------
// ISO-8601 generation times
// ---------------------------------------------------------------------------

/// The parts of a generation time `YYYY-MM-DDThh:mm:ss[.frac][Z]`: five
/// integers and the text of the seconds, which the dashboard reads as a
/// floating-point number.
#[derive(Debug)]
pub struct IsoTimestamp {
    pub year: i64,
    pub month: i64,
    pub day: i64,
    pub hour: i64,
    pub minute: i64,
    pub seconds: String,
}

/// The text without trailing `Z`s and then without trailing `+00:00`s.
pub open spec fn iso_core(s: Seq<char>) -> Seq<char> {
    strip_end_seq(strip_end(s, 'Z'), "+00:00"@)
}

/// The first three fields of `date.split('-')`, when there are three.
pub open spec fn date_fields(date: Seq<char>) -> Option<(Seq<char>, Seq<char>, Seq<char>)> {
    match find_from(date, '-', 0) {
        Some(i1) => match find_from(date, '-', i1 + 1) {
            Some(i2) => {
                let i3 = match find_from(date, '-', i2 + 1) {
                    Some(i3) => i3,
                    None => date.len() as int,
                };
                Some((date.take(i1), date.subrange(i1 + 1, i2), date.subrange(i2 + 1, i3)))
            },
            None => None,
        },
        None => None,
    }
}

/// The three fields of `time.splitn(3, ':')`, when there are three.
pub open spec fn time_fields(time: Seq<char>) -> Option<(Seq<char>, Seq<char>, Seq<char>)> {
    match find_from(time, ':', 0) {
        Some(j1) => match find_from(time, ':', j1 + 1) {
            Some(j2) => Some((time.take(j1), time.subrange(j1 + 1, j2), time.skip(j2 + 1))),
            None => None,
        },
        None => None,
    }
}

/// The parts of a generation time: the date before the first `T` and the
/// time after it, each split into its fields, whose integers must parse.
pub open spec fn iso_parts(s: Seq<char>) -> Option<(i64, i64, i64, i64, i64, Seq<char>)> {
    let c = iso_core(s);
    match find_from(c, 'T', 0) {
        Some(t) => match (date_fields(c.take(t)), time_fields(c.skip(t + 1))) {
            (Some((ys, ms, ds)), Some((hs, mis, secs))) => match (
                parsed_i64(ys),
                parsed_i64(ms),
                parsed_i64(ds),
                parsed_i64(hs),
                parsed_i64(mis),
            ) {
                (Some(y), Some(m), Some(d), Some(h), Some(mi)) => Some((y, m, d, h, mi, secs)),
                _ => None,
            },
            _ => None,
        },
        None => None,
    }
}

pub open spec fn iso_view(t: IsoTimestamp) -> (i64, i64, i64, i64, i64, Seq<char>) {
    (t.year, t.month, t.day, t.hour, t.minute, t.seconds@)
}

/// The three fields of a date, as `date_fields` gives them.
fn split_date(date: &[char]) -> (r: Option<(Vec<char>, Vec<char>, Vec<char>)>)
    ensures
        match r {
            Some((a, b, c)) => date_fields(date@) == Some((a@, b@, c@)),
            None => date_fields(date@) is None,
        },
{
    let n: usize = date.len();
    let i1 = match find_char_from(date, '-', 0) {
        Some(i) => i,
        None => return None,
    };
    let i2 = match find_char_from(date, '-', i1 + 1) {
        Some(i) => i,
        None => return None,
    };
    let i3 = match find_char_from(date, '-', i2 + 1) {
        Some(i) => i,
        None => date.len(),
    };
    Some((slice_range(date, 0, i1), slice_range(date, i1 + 1, i2), slice_range(date, i2 + 1, i3)))
}

/// The three fields of a time, as `time_fields` gives them.
fn split_time(time: &[char]) -> (r: Option<(Vec<char>, Vec<char>, Vec<char>)>)
    ensures
        match r {
            Some((a, b, c)) => time_fields(time@) == Some((a@, b@, c@)),
            None => time_fields(time@) is None,
        },
{
    let n: usize = time.len();
    let j1 = match find_char_from(time, ':', 0) {
        Some(i) => i,
        None => return None,
    };
    let j2 = match find_char_from(time, ':', j1 + 1) {
        Some(i) => i,
        None => return None,
    };
    Some((slice_range(time, 0, j1), slice_range(time, j1 + 1, j2), slice_range(time, j2 + 1, time.len())))
}

/// Splits a generation time into its parts (the integer half of
/// `iso8601_to_unix_s`).
pub fn iso8601_parts(s: &str) -> (r: Option<IsoTimestamp>)
    ensures
        match r {
            Some(t) => iso_parts(s@) == Some(iso_view(t)),
            None => iso_parts(s@) is None,
        },
{
    let no_z = trim_end_char(s, 'Z');
    let zs = chars_of(no_z.as_str());
    let suffix = chars_of("+00:00");
    let c = trim_end_str(zs.as_slice(), suffix.as_slice());
    let n: usize = c.len();
    let t = match find_char_from(c.as_slice(), 'T', 0) {
        Some(t) => t,
        None => return None,
    };
    let date = slice_range(c.as_slice(), 0, t);
    assert(t < n);
    let time = slice_range(c.as_slice(), t + 1, n);
    assert(time@ =~= c@.skip(t + 1));
    let (ys, ms, ds) = match split_date(date.as_slice()) {
        Some(f) => f,
        None => return None,
    };
    let (hs, mis, secs) = match split_time(time.as_slice()) {
        Some(f) => f,
        None => return None,
    };
    let year = match parse_i64(ys.as_slice()) {
        Some(v) => v,
        None => return None,
    };
    let month = match parse_i64(ms.as_slice()) {
        Some(v) => v,
        None => return None,
    };
    let day = match parse_i64(ds.as_slice()) {
        Some(v) => v,
        None => return None,
    };
    let hour = match parse_i64(hs.as_slice()) {
        Some(v) => v,
        None => return None,
    };
    let minute = match parse_i64(mis.as_slice()) {
        Some(v) => v,
        None => return None,
    };
    Some(IsoTimestamp { year, month, day, hour, minute, seconds: string_of(secs.as_slice()) })
}

/// The whole seconds of a timestamp: its day count times 86400 plus the
/// seconds of the day.
pub open spec fn total_seconds(year: int, month: int, day: int, hour: int, minute: int, sec: int) -> int {
    days_from_civil(year, month, day) * 86400 + hour * 3600 + minute * 60 + sec
}

/// Every intermediate value of `total_seconds` fits in an `i64`.
pub open spec fn seconds_fit(year: int, month: int, day: int, hour: int, minute: int, sec: int) -> bool {
    let d = days_from_civil(year, month, day);
    &&& days_fit(year, month, day)
    &&& in_i64(d * 86400) && in_i64(hour * 3600) && in_i64(minute * 60)
    &&& in_i64(d * 86400 + hour * 3600)
    &&& in_i64(d * 86400 + hour * 3600 + minute * 60)
    &&& in_i64(total_seconds(year, month, day, hour, minute, sec))
}

fn fits_i64(x: i128) -> (r: bool)
    ensures
        r == in_i64(x as int),
{
    -0x8000_0000_0000_0000i128 <= x && x <= 0x7fff_ffff_ffff_ffffi128
}

/// Whether `whole_seconds` can compute the timestamp in `i64` arithmetic.
pub fn seconds_in_range(year: i64, month: i64, day: i64, hour: i64, minute: i64, sec: i64) -> (r: bool)
    ensures
        r == seconds_fit(year as int, month as int, day as int, hour as int, minute as int, sec as int),
{
    let m: i128 = if month < 3 { month as i128 + 12 } else { month as i128 };
    let y: i128 = if month < 3 { year as i128 - 1 } else { year as i128 };
    if !fits_i64(m) || !fits_i64(y) {
        return false;
    }
    let q4: i128 = y / 4;
    let q100: i128 = y / 100;
    let q400: i128 = y / 400;
    assert(q4 as int == tdiv(y as int, 4));
    assert(q100 as int == tdiv(y as int, 100));
    assert(q400 as int == tdiv(y as int, 400));
    let a: i128 = 365 * y;
    let b: i128 = a + q4;
    let c: i128 = b - q100;
    let d: i128 = c + q400;
    let e: i128 = 153 * m;
    if !fits_i64(a) || !fits_i64(b) || !fits_i64(c) || !fits_i64(d) || !fits_i64(e) {
        return false;
    }
    let f: i128 = e - 457;
    if !fits_i64(f) {
        return false;
    }
    let q5: i128 = f / 5;
    assert(q5 as int == tdiv(f as int, 5));
    let g: i128 = d + q5;
    let jdn: i128 = g + day as i128;
    let days: i128 = jdn - 719469;
    if !fits_i64(g) || !fits_i64(jdn) || !fits_i64(days) {
        return false;
    }
    let ds: i128 = days * 86400;
    let hs: i128 = hour as i128 * 3600;
    let ms: i128 = minute as i128 * 60;
    if !fits_i64(ds) || !fits_i64(hs) || !fits_i64(ms) {
        return false;
    }
    let t1: i128 = ds + hs;
    let t2: i128 = t1 + ms;
    let t3: i128 = t2 + sec as i128;
    fits_i64(t1) && fits_i64(t2) && fits_i64(t3)
}

/// `days * 86400 + hour * 3600 + minute * 60 + sec` for the day count of
/// the date: the whole seconds of a timestamp.
pub fn whole_seconds(year: i64, month: i64, day: i64, hour: i64, minute: i64, sec: i64) -> (r: i64)
    requires
        seconds_fit(year as int, month as int, day as int, hour as int, minute as int, sec as int),
    ensures
        r == total_seconds(year as int, month as int, day as int, hour as int, minute as int, sec as int),
{
    let days = match days_since_epoch(year, month, day) {
        Some(d) => d,
        None => 0,
    };
    days * 86400 + hour * 3600 + minute * 60 + sec
}

// ---------------------------------------------------------------------------
// Field names
// ---------------------------------------------------------------------------

/// Each name comes strictly before the next: sorted, with no repeats.
pub open spec fn strictly_sorted(s: Seq<String>) -> bool {
    forall|i: int, j: int| 0 <= i < j < s.len() ==> lex_lt(s[i]@, s[j]@)
}

pub open spec fn has_name(s: Seq<String>, x: Seq<char>) -> bool {
    exists|i: int| 0 <= i < s.len() && s[i]@ == x
}

/// The distinct names of `names`, sorted (`collect` into a set, then `sort`).
pub fn sorted_unique_names(names: &Vec<String>) -> (r: Vec<String>)
    ensures
        strictly_sorted(r@),
        forall|x: Seq<char>| has_name(r@, x) <==> has_name(names@, x),
{
    let mut out: Vec<String> = Vec::new();
    let mut i: usize = 0;
    while i < names.len()
        invariant
            i <= names@.len(),
            strictly_sorted(out@),
            forall|x: Seq<char>| has_name(out@, x) <==> has_name(names@.take(i as int), x),
        decreases names@.len() - i,
    {
        let n = &names[i];
        let mut p: usize = 0;
        while p < out.len() && str_lt(out[p].as_str(), n.as_str())
            invariant
                p <= out@.len(),
                forall|k: int| 0 <= k < p ==> lex_lt(#[trigger] out@[k]@, n@),
            decreases out@.len() - p,
        {
            p = p + 1;
        }
        let ghost before = out@;
        proof {
            assert forall|x: Seq<char>| has_name(names@.take(i + 1), x) <==> (has_name(
                names@.take(i as int),
                x,
            ) || x == n@) by {
                if has_name(names@.take(i + 1), x) {
                    let k = choose|k: int| 0 <= k < i + 1 && (#[trigger] names@.take(i + 1)[k])@ == x;
                    if k < i {
                        assert(names@.take(i as int)[k]@ == x);
                    }
                }
                if has_name(names@.take(i as int), x) {
                    let k = choose|k: int| 0 <= k < i && (#[trigger] names@.take(i as int)[k])@ == x;
                    assert(names@.take(i + 1)[k]@ == x);
                }
                if x == n@ {
                    assert(names@.take(i + 1)[i as int]@ == x);
                }
            }
        }
        if p < out.len() && crate::text::str_eq(out[p].as_str(), n.as_str()) {
            proof {
                assert forall|x: Seq<char>| has_name(out@, x) <==> has_name(names@.take(i + 1), x) by {
                    if x == n@ {
                        assert(out@[p as int]@ == x);
                    }
                }
            }
        } else {
            proof {
                if p < out@.len() {
                    lemma_lex_lt_total(out@[p as int]@, n@);
                    assert forall|k: int| p < k < out@.len() implies lex_lt(n@, #[trigger] out@[k]@) by {
                        lemma_lex_lt_transitive(n@, out@[p as int]@, out@[k]@);
                    }
                }
            }
            out.insert(p, copy_string(n));
            proof {
                assert(out@ == before.insert(p as int, out@[p as int]));
                assert forall|a: int, b: int| 0 <= a < b < out@.len() implies lex_lt(
                    out@[a]@,
                    out@[b]@,
                ) by {
                    if b < p {
                        assert(out@[a] == before[a]);
                        assert(out@[b] == before[b]);
                    } else if a < p && b == p {
                        assert(out@[a] == before[a]);
                    } else if a < p && b > p {
                        assert(out@[a] == before[a]);
                        assert(out@[b] == before[b - 1]);
                        lemma_lex_lt_transitive(out@[a]@, n@, out@[b]@);
                    } else if a == p {
                        assert(out@[b] == before[b - 1]);
                    } else {
                        assert(out@[a] == before[a - 1]);
                        assert(out@[b] == before[b - 1]);
                    }
                }
                assert forall|x: Seq<char>| has_name(out@, x) <==> has_name(names@.take(i + 1), x) by {
                    if has_name(out@, x) {
                        let k = choose|k: int| 0 <= k < out@.len() && (#[trigger] out@[k])@ == x;
                        if k < p {
                            assert(before[k]@ == x);
                        } else if k > p {
                            assert(before[k - 1]@ == x);
                        }
                    }
                    if has_name(before, x) {
                        let k = choose|k: int| 0 <= k < before.len() && (#[trigger] before[k])@ == x;
                        if k < p {
                            assert(out@[k]@ == x);
                        } else {
                            assert(out@[k + 1]@ == x);
                        }
                    }
                    if x == n@ {
                        assert(out@[p as int]@ == x);
                    }
                }
            }
        }
        i = i + 1;
    }
    proof {
        assert(names@.take(names@.len() as int) =~= names@);
    }
    out
}

// ---------------------------------------------------------------------------
// The dashboard's history and field groups
// ---------------------------------------------------------------------------

/// What adding a snapshot does to the history.
#[derive(Debug, Clone, Copy, PartialEq, Eq, Structural)]
pub enum HistoryStep {
    /// A snapshot with the same generation time is held: nothing changes.
    Duplicate,
    /// The snapshot is added.
    Append,
    /// The history is full: the oldest snapshot leaves, then the snapshot is added.
    ReplaceOldest,
}

/// The step for a snapshot with generation time `generation_time`, given
/// the generation times held and the capacity.
pub open spec fn history_step_spec(held: Seq<Seq<char>>, generation_time: Seq<char>, capacity: nat) -> HistoryStep {
    if held.contains(generation_time) {
        HistoryStep::Duplicate
    } else if held.len() >= capacity {
        HistoryStep::ReplaceOldest
    } else {
        HistoryStep::Append
    }
}

pub open spec fn strings_view(v: Seq<String>) -> Seq<Seq<char>> {
    v.map_values(|s: String| s@)
}

/// How `BeaconHistory::push` treats a new snapshot.
pub fn history_step(held: &Vec<String>, generation_time: &str, capacity: usize) -> (r: HistoryStep)
    ensures
        r == history_step_spec(strings_view(held@), generation_time@, capacity as nat),
{
    let mut i: usize = 0;
    while i < held.len()
        invariant
            i <= held@.len(),
            forall|j: int| 0 <= j < i ==> held@[j]@ != generation_time@,
        decreases held@.len() - i,
    {
        if str_eq(held[i].as_str(), generation_time) {
            assert(strings_view(held@)[i as int] == generation_time@);
            return HistoryStep::Duplicate;
        }
        i = i + 1;
    }
    assert(!strings_view(held@).contains(generation_time@)) by {
        if strings_view(held@).contains(generation_time@) {
            let j = choose|j: int| 0 <= j < held@.len() && strings_view(held@)[j] == generation_time@;
            assert(held@[j]@ == generation_time@);
        }
    }
    if held.len() >= capacity {
        HistoryStep::ReplaceOldest
    } else {
        HistoryStep::Append
    }
}

/// The generation times held after a snapshot with `generation_time` is
/// added (before the history is reordered by time).
pub open spec fn held_after(held: Seq<Seq<char>>, generation_time: Seq<char>, capacity: nat) -> Seq<Seq<char>> {
    match history_step_spec(held, generation_time, capacity) {
        HistoryStep::Duplicate => held,
        HistoryStep::ReplaceOldest => held.drop_first().push(generation_time),
        HistoryStep::Append => held.push(generation_time),
    }
}

pub open spec fn times_distinct(held: Seq<Seq<char>>) -> bool {
    forall|a: int, b: int| 0 <= a < b < held.len() ==> held[a] != held[b]
}

/// A history within its capacity, with distinct generation times, stays so
/// after a snapshot is added, and then holds the snapshot's time.
pub proof fn law_history_bounded_and_distinct(held: Seq<Seq<char>>, generation_time: Seq<char>, capacity: nat)
    requires
        capacity > 0,
        held.len() <= capacity,
        times_distinct(held),
    ensures
        held_after(held, generation_time, capacity).len() <= capacity,
        times_distinct(held_after(held, generation_time, capacity)),
        held_after(held, generation_time, capacity).contains(generation_time),
{
    let after = held_after(held, generation_time, capacity);
    match history_step_spec(held, generation_time, capacity) {
        HistoryStep::Duplicate => {},
        HistoryStep::ReplaceOldest => {
            assert(after.last() == generation_time);
            assert forall|a: int, b: int| 0 <= a < b < after.len() implies after[a] != after[b] by {
                if b == after.len() - 1 {
                    assert(after[a] == held[a + 1]);
                } else {
                    assert(after[a] == held[a + 1] && after[b] == held[b + 1]);
                }
            }
        },
        HistoryStep::Append => {
            assert(after.last() == generation_time);
            assert forall|a: int, b: int| 0 <= a < b < after.len() implies after[a] != after[b] by {
                if b == after.len() - 1 {
                    assert(after[a] == held[a]);
                }
            }
        },
    }
}

/// The kind of a field's latest value, by which the dashboard groups it.
#[derive(Debug, Clone, Copy, PartialEq, Eq, Structural)]
pub enum FieldKind {
    Numeric,
    Flag,
    Text,
}

/// The fields among the first `n` that are selected and whose latest value
/// is of kind `want`, each with its position among all fields.
pub open spec fn fields_in_group(
    names: Seq<Seq<char>>,
    selected: Seq<bool>,
    kinds: Seq<Option<FieldKind>>,
    want: FieldKind,
    n: int,
) -> Seq<(nat, Seq<char>)>
    decreases n,
{
    if n <= 0 {
        Seq::empty()
    } else if selected[n - 1] && kinds[n - 1] == Some(want) {
        fields_in_group(names, selected, kinds, want, n - 1).push(((n - 1) as nat, names[n - 1]))
    } else {
        fields_in_group(names, selected, kinds, want, n - 1)
    }
}

pub open spec fn group_view(g: Seq<(usize, String)>) -> Seq<(nat, Seq<char>)> {
    g.map_values(|e: (usize, String)| (e.0 as nat, e.1@))
}

/// The dashboard's field groups: the selected fields whose latest value is
/// numeric, a flag, or text, in field order, each with its position (which
/// picks its colour). `kinds[i]` is the kind of the latest value of
/// `names[i]`, `None` when no snapshot holds it.
pub fn classify_fields(
    names: &Vec<String>,
    selected: &Vec<bool>,
    kinds: &Vec<Option<FieldKind>>,
) -> (r: (Vec<(usize, String)>, Vec<(usize, String)>, Vec<(usize, String)>))
    requires
        selected@.len() == names@.len(),
        kinds@.len() == names@.len(),
    ensures
        group_view(r.0@) == fields_in_group(strings_view(names@), selected@, kinds@, FieldKind::Numeric, names@.len() as int),
        group_view(r.1@) == fields_in_group(strings_view(names@), selected@, kinds@, FieldKind::Flag, names@.len() as int),
        group_view(r.2@) == fields_in_group(strings_view(names@), selected@, kinds@, FieldKind::Text, names@.len() as int),
{
    let ghost nv = strings_view(names@);
    let mut numeric: Vec<(usize, String)> = Vec::new();
    let mut flags: Vec<(usize, String)> = Vec::new();
    let mut texts: Vec<(usize, String)> = Vec::new();
    let mut i: usize = 0;
    assert(group_view(numeric@) =~= Seq::<(nat, Seq<char>)>::empty());
    while i < names.len()
        invariant
            i <= names@.len(),
            selected@.len() == names@.len(),
            kinds@.len() == names@.len(),
            nv == strings_view(names@),
            group_view(numeric@) == fields_in_group(nv, selected@, kinds@, FieldKind::Numeric, i as int),
            group_view(flags@) == fields_in_group(nv, selected@, kinds@, FieldKind::Flag, i as int),
            group_view(texts@) == fields_in_group(nv, selected@, kinds@, FieldKind::Text, i as int),
        decreases names@.len() - i,
    {
        if selected[i] {
            match kinds[i] {
                Some(FieldKind::Numeric) => {
                    let ghost before = numeric@;
                    numeric.push((i, copy_string(&names[i])));
                    assert(group_view(numeric@) =~= group_view(before).push((i as nat, nv[i as int])));
                },
                Some(FieldKind::Flag) => {
                    let ghost before = flags@;
                    flags.push((i, copy_string(&names[i])));
                    assert(group_view(flags@) =~= group_view(before).push((i as nat, nv[i as int])));
                },
                Some(FieldKind::Text) => {
                    let ghost before = texts@;
                    texts.push((i, copy_string(&names[i])));
                    assert(group_view(texts@) =~= group_view(before).push((i as nat, nv[i as int])));
                },
                None => {},
            }
        }
        i = i + 1;
    }
    (numeric, flags, texts)
}

} // verus!
