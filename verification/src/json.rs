//! A JSON document model. Command arguments, Yamcs MDB answers and archive
//! listings are JSON; the library reads and builds them through this type.
//! Numbers are held as serde_json holds them: non-negative integers as
//! `PosInt`, negative integers as `NegInt`, and any other number by its
//! decimal text.
use vstd::prelude::*;
use crate::text::{copy_string, str_eq};

verus! {

broadcast use vstd::string::group_string_axioms;

#[derive(Debug)]
pub enum JsonValue {
    Null,
    Bool(bool),
    PosInt(u64),
    NegInt(i64),
    Float(String),
    Str(String),
    Array(Vec<JsonValue>),
    Object(Vec<(String, JsonValue)>),
}

/// The mathematical content of a `JsonValue`: strings as character sequences.
pub enum JsonView {
    Null,
    Bool(bool),
    PosInt(u64),
    NegInt(i64),
    Float(Seq<char>),
    Str(Seq<char>),
    Array(Seq<JsonView>),
    Object(Seq<(Seq<char>, JsonView)>),
}

pub open spec fn json_view(v: JsonValue) -> JsonView
    decreases v,
{
    match v {
        JsonValue::Null => JsonView::Null,
        JsonValue::Bool(b) => JsonView::Bool(b),
        JsonValue::PosInt(n) => JsonView::PosInt(n),
        JsonValue::NegInt(n) => JsonView::NegInt(n),
        JsonValue::Float(s) => JsonView::Float(s@),
        JsonValue::Str(s) => JsonView::Str(s@),
        JsonValue::Array(a) => JsonView::Array(items_view(a@)),
        JsonValue::Object(es) => JsonView::Object(entries_view(es@)),
    }
}

pub open spec fn items_view(s: Seq<JsonValue>) -> Seq<JsonView>
    decreases s,
{
    if s.len() == 0 {
        Seq::empty()
    } else {
        items_view(s.drop_last()).push(json_view(s.last()))
    }
}

pub open spec fn entries_view(s: Seq<(String, JsonValue)>) -> Seq<(Seq<char>, JsonView)>
    decreases s,
{
    if s.len() == 0 {
        Seq::empty()
    } else {
        entries_view(s.drop_last()).push((s.last().0@, json_view(s.last().1)))
    }
}

impl View for JsonValue {
    type V = JsonView;

    open spec fn view(&self) -> JsonView {
        json_view(*self)
    }
}

/// The value stored under `key` in an object's entries (the last one wins,
/// as repeated insertion into a map leaves it).
pub open spec fn entries_get(es: Seq<(Seq<char>, JsonView)>, key: Seq<char>) -> Option<JsonView>
    decreases es.len(),
{
    if es.len() == 0 {
        None
    } else if es.last().0 == key {
        Some(es.last().1)
    } else {
        entries_get(es.drop_last(), key)
    }
}

/// `value.get(key)`: the member `key` of an object, `None` for anything else.
pub open spec fn json_get(v: JsonView, key: Seq<char>) -> Option<JsonView> {
    match v {
        JsonView::Object(es) => entries_get(es, key),
        _ => None,
    }
}

/// `value.as_str()` on the view.
pub open spec fn json_str(v: Option<JsonView>) -> Option<Seq<char>> {
    match v {
        Some(JsonView::Str(s)) => Some(s),
        _ => None,
    }
}

/// `value.as_u64()` on the view.
pub open spec fn json_u64(v: Option<JsonView>) -> Option<u64> {
    match v {
        Some(JsonView::PosInt(n)) => Some(n),
        _ => None,
    }
}

/// The views of a list grow by the view of what is pushed.
pub proof fn lemma_items_view_push(s: Seq<JsonValue>, x: JsonValue)
    ensures
        items_view(s.push(x)) == items_view(s).push(json_view(x)),
{
    assert(s.push(x).drop_last() =~= s);
}

proof fn lemma_entries_view_push(s: Seq<(String, JsonValue)>, x: (String, JsonValue))
    ensures
        entries_view(s.push(x)) == entries_view(s).push((x.0@, json_view(x.1))),
{
    assert(s.push(x).drop_last() =~= s);
}

pub proof fn lemma_items_view_len(s: Seq<JsonValue>)
    ensures
        items_view(s).len() == s.len(),
    decreases s.len(),
{
    if s.len() > 0 {
        lemma_items_view_len(s.drop_last());
    }
}

pub proof fn lemma_items_view_index(s: Seq<JsonValue>, i: int)
    requires
        0 <= i < s.len(),
    ensures
        items_view(s).len() == s.len(),
        items_view(s)[i] == json_view(s[i]),
    decreases s.len(),
{
    lemma_items_view_len(s);
    if i < s.len() - 1 {
        lemma_items_view_index(s.drop_last(), i);
    }
}

pub proof fn lemma_entries_view_len(s: Seq<(String, JsonValue)>)
    ensures
        entries_view(s).len() == s.len(),
    decreases s.len(),
{
    if s.len() > 0 {
        lemma_entries_view_len(s.drop_last());
    }
}

pub proof fn lemma_entries_view_index(s: Seq<(String, JsonValue)>, i: int)
    requires
        0 <= i < s.len(),
    ensures
        entries_view(s).len() == s.len(),
        entries_view(s)[i] == (s[i].0@, json_view(s[i].1)),
    decreases s.len(),
{
    lemma_entries_view_len(s);
    if i < s.len() - 1 {
        lemma_entries_view_index(s.drop_last(), i);
    }
}

impl JsonValue {
    /// `json!(n)` for an unsigned integer.
    pub fn from_u64(n: u64) -> (r: JsonValue)
        ensures
            r@ == JsonView::PosInt(n),
    {
        JsonValue::PosInt(n)
    }

    /// `json!(n)` for a signed integer: negative values are `NegInt`,
    /// the others `PosInt`.
    pub fn from_i64(n: i64) -> (r: JsonValue)
        ensures
            r@ == (if n < 0 { JsonView::NegInt(n) } else { JsonView::PosInt(n as u64) }),
    {
        if n < 0 {
            JsonValue::NegInt(n)
        } else {
            JsonValue::PosInt(n as u64)
        }
    }

    /// `json!(s)` for a string.
    pub fn from_str(s: &str) -> (r: JsonValue)
        ensures
            r@ == JsonView::Str(s@),
    {
        JsonValue::Str(String::from_str(s))
    }

    /// `json!({})`.
    pub fn empty_object() -> (r: JsonValue)
        ensures
            r@ == JsonView::Object(Seq::empty()),
    {
        JsonValue::Object(Vec::new())
    }

    pub fn is_object(&self) -> (r: bool)
        ensures
            r == (self@ is Object),
    {
        match self {
            JsonValue::Object(_) => true,
            _ => false,
        }
    }

    pub fn is_array(&self) -> (r: bool)
        ensures
            r == (self@ is Array),
    {
        match self {
            JsonValue::Array(_) => true,
            _ => false,
        }
    }

    pub fn is_number(&self) -> (r: bool)
        ensures
            r == (self@ is PosInt || self@ is NegInt || self@ is Float),
    {
        match self {
            JsonValue::PosInt(_) | JsonValue::NegInt(_) | JsonValue::Float(_) => true,
            _ => false,
        }
    }

    /// `value.as_u64()`.
    pub fn as_u64(&self) -> (r: Option<u64>)
        ensures
            r == json_u64(Some(self@)),
    {
        match self {
            JsonValue::PosInt(n) => Some(*n),
            _ => None,
        }
    }

    /// `value.as_i64()`.
    pub fn as_i64(&self) -> (r: Option<i64>)
        ensures
            r == (match self@ {
                JsonView::PosInt(n) => if n <= i64::MAX { Some(n as i64) } else { None },
                JsonView::NegInt(n) => Some(n),
                _ => None,
            }),
    {
        match self {
            JsonValue::PosInt(n) => if *n <= 0x7fff_ffff_ffff_ffffu64 { Some(*n as i64) } else { None },
            JsonValue::NegInt(n) => Some(*n),
            _ => None,
        }
    }

    /// `value.as_str()`.
    pub fn as_str(&self) -> (r: Option<&String>)
        ensures
            match r {
                Some(s) => self@ == JsonView::Str(s@),
                None => !(self@ is Str),
            },
    {
        match self {
            JsonValue::Str(s) => Some(s),
            _ => None,
        }
    }

    /// `value.as_array()`.
    pub fn as_array(&self) -> (r: Option<&Vec<JsonValue>>)
        ensures
            match r {
                Some(a) => *self == JsonValue::Array(*a),
                None => !(self@ is Array),
            },
    {
        match self {
            JsonValue::Array(a) => Some(a),
            _ => None,
        }
    }

    /// `value.get(key)`: the member named `key` of an object.
    pub fn get(&self, key: &str) -> (r: Option<&JsonValue>)
        ensures
            match r {
                Some(v) => json_get(self@, key@) == Some(v@),
                None => json_get(self@, key@) is None,
            },
    {
        match self {
            JsonValue::Object(es) => {
                let mut i: usize = es.len();
                assert(es@.take(es@.len() as int) =~= es@);
                while i > 0
                    invariant
                        i <= es@.len(),
                        json_get(self@, key@) == entries_get(entries_view(es@.take(i as int)), key@),
                    decreases i,
                {
                    proof {
                        lemma_entries_view_push(es@.take(i - 1), es@[i - 1]);
                        assert(es@.take(i as int) =~= es@.take(i - 1).push(es@[i - 1]));
                        let ghost ev = entries_view(es@.take(i - 1));
                        assert(ev.push((es@[i - 1].0@, json_view(es@[i - 1].1))).drop_last() =~= ev);
                    }
                    if str_eq(es[i - 1].0.as_str(), key) {
                        return Some(&es[i - 1].1);
                    }
                    i = i - 1;
                }
                None
            },
            _ => None,
        }
    }
    /// A copy of this value, equal to it in every member.
    pub fn deep_copy(&self) -> (r: JsonValue)
        ensures
            r@ == self@,
        decreases self,
    {
        match self {
            JsonValue::Null => JsonValue::Null,
            JsonValue::Bool(b) => JsonValue::Bool(*b),
            JsonValue::PosInt(n) => JsonValue::PosInt(*n),
            JsonValue::NegInt(n) => JsonValue::NegInt(*n),
            JsonValue::Float(s) => JsonValue::Float(copy_string(s)),
            JsonValue::Str(s) => JsonValue::Str(copy_string(s)),
            JsonValue::Array(a) => {
                let mut out: Vec<JsonValue> = Vec::new();
                let mut i: usize = 0;
                while i < a.len()
                    invariant
                        *self == JsonValue::Array(*a),
                        i <= a@.len(),
                        items_view(out@) == items_view(a@.take(i as int)),
                    decreases a@.len() - i,
                {
                    proof {
                        let ghost v: JsonValue = *self;
                        let ghost av: Vec<JsonValue> = *a;
                        assert(v == JsonValue::Array(av));
                        assert(decreases_to!(v => v->Array_0));
                        assert(decreases_to!(av => av[i as int]));
                    }
                    let x = a[i].deep_copy();
                    proof {
                        lemma_items_view_push(out@, x);
                        assert(a@.take(i + 1) =~= a@.take(i as int).push(a@[i as int]));
                        lemma_items_view_push(a@.take(i as int), a@[i as int]);
                    }
                    out.push(x);
                    i = i + 1;
                }
                assert(a@.take(a@.len() as int) =~= a@);
                JsonValue::Array(out)
            },
            JsonValue::Object(es) => {
                let mut out: Vec<(String, JsonValue)> = Vec::new();
                let mut i: usize = 0;
                while i < es.len()
                    invariant
                        *self == JsonValue::Object(*es),
                        i <= es@.len(),
                        entries_view(out@) == entries_view(es@.take(i as int)),
                    decreases es@.len() - i,
                {
                    proof {
                        let ghost v: JsonValue = *self;
                        let ghost ev: Vec<(String, JsonValue)> = *es;
                        assert(v == JsonValue::Object(ev));
                        assert(decreases_to!(v => v->Object_0));
                        assert(decreases_to!(ev => ev[i as int]));
                        assert(decreases_to!(ev[i as int] => ev[i as int].1));
                    }
                    let k = copy_string(&es[i].0);
                    let x = es[i].1.deep_copy();
                    proof {
                        lemma_entries_view_push(out@, (k, x));
                        assert(es@.take(i + 1) =~= es@.take(i as int).push(es@[i as int]));
                        lemma_entries_view_push(es@.take(i as int), es@[i as int]);
                    }
                    out.push((k, x));
                    i = i + 1;
                }
                assert(es@.take(es@.len() as int) =~= es@);
                JsonValue::Object(out)
            },
        }
    }
}


/// The member `(key, value)`.
pub fn member(key: &str, value: JsonValue) -> (r: (String, JsonValue))
    ensures
        r.0@ == key@,
        r.1@ == value@,
{
    (String::from_str(key), value)
}

/// `json!({ k1: v1 })`.
pub fn object1(k1: &str, v1: JsonValue) -> (r: JsonValue)
    ensures
        r@ == JsonView::Object(seq![(k1@, v1@)]),
{
    let mut es: Vec<(String, JsonValue)> = Vec::new();
    let m = member(k1, v1);
    proof {
        lemma_entries_view_push(es@, m);
    }
    es.push(m);
    assert(entries_view(es@) =~= seq![(k1@, v1@)]);
    JsonValue::Object(es)
}

/// `json!({ k1: v1, k2: v2 })`.
pub fn object2(k1: &str, v1: JsonValue, k2: &str, v2: JsonValue) -> (r: JsonValue)
    ensures
        r@ == JsonView::Object(seq![(k1@, v1@), (k2@, v2@)]),
{
    let mut es: Vec<(String, JsonValue)> = Vec::new();
    let m1 = member(k1, v1);
    proof {
        lemma_entries_view_push(es@, m1);
    }
    es.push(m1);
    let m2 = member(k2, v2);
    proof {
        lemma_entries_view_push(es@, m2);
    }
    es.push(m2);
    assert(entries_view(es@) =~= seq![(k1@, v1@), (k2@, v2@)]);
    JsonValue::Object(es)
}

/// `json!({ k1: v1, k2: v2, k3: v3 })`.
pub fn object3(k1: &str, v1: JsonValue, k2: &str, v2: JsonValue, k3: &str, v3: JsonValue) -> (r: JsonValue)
    ensures
        r@ == JsonView::Object(seq![(k1@, v1@), (k2@, v2@), (k3@, v3@)]),
{
    let mut es: Vec<(String, JsonValue)> = Vec::new();
    let m1 = member(k1, v1);
    proof {
        lemma_entries_view_push(es@, m1);
    }
    es.push(m1);
    let m2 = member(k2, v2);
    proof {
        lemma_entries_view_push(es@, m2);
    }
    es.push(m2);
    let m3 = member(k3, v3);
    proof {
        lemma_entries_view_push(es@, m3);
    }
    es.push(m3);
    assert(entries_view(es@) =~= seq![(k1@, v1@), (k2@, v2@), (k3@, v3@)]);
    JsonValue::Object(es)
}

/// Appends `x` to a list of values, keeping track of the list's view.
pub fn push_item(items: &mut Vec<JsonValue>, x: JsonValue)
    ensures
        items_view(final(items)@) == items_view(old(items)@).push(x@),
        final(items)@.len() == old(items)@.len() + 1,
{
    proof {
        lemma_items_view_push(items@, x);
    }
    items.push(x);
}
} // verus!
