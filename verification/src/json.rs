//! JSON values, and their text form as serde_json reads and writes it.
use vstd::prelude::*;

use crate::order;
use crate::text;

verus! {

// ---- what serde_json holds ------------------------------------------------------------

/// A JSON number of serde_json: an integer or a finite float.
#[verifier::external_type_specification]
#[verifier::external_body]
pub struct ExNumber(serde_json::Number);

/// A JSON value of serde_json.
#[verifier::external_type_specification]
#[verifier::external_body]
pub struct ExValue(serde_json::Value);

/// The object type of serde_json.
#[verifier::external_type_specification]
#[verifier::external_body]
#[verifier::reject_recursive_types(K)]
#[verifier::reject_recursive_types(V)]
pub struct ExMap<K, V>(serde_json::Map<K, V>);

/// The contents of a `serde_json::Value`.
pub uninterp spec fn value_holds(v: serde_json::Value) -> JsonV;

/// The contents of a `serde_json::Map`.
pub uninterp spec fn map_holds(m: serde_json::Map<String, serde_json::Value>) -> Map<
    Seq<char>,
    JsonV,
>;

/// What `serde_json::from_str::<serde_json::Value>` returns for a text: the value, or the
/// text of the error.
pub uninterp spec fn parsed(s: Seq<char>) -> Result<JsonV, Seq<char>>;

/// What `serde_json::Value::to_string` returns for a value.
pub uninterp spec fn printed(v: JsonV) -> Seq<char>;

/// What `serde_json::Number::as_u64` returns.
pub uninterp spec fn number_u64(n: serde_json::Number) -> Option<u64>;

/// What `serde_json::Number::as_i64` returns.
pub uninterp spec fn number_i64(n: serde_json::Number) -> Option<i64>;

/// What `serde_json::Number::from(i64)` returns.
pub uninterp spec fn sint(n: i64) -> serde_json::Number;

/// What reading a text as a decimal number and `serde_json::Number::from_f64` come to.
pub uninterp spec fn decimal_number(s: Seq<char>) -> Option<Option<serde_json::Number>>;

/// What `serde_json::Number::from(u64)` returns.
pub uninterp spec fn uint(n: u64) -> serde_json::Number;

// ---- values ---------------------------------------------------------------------------

/// A JSON value. Of object members with equal keys, the last one counts.
#[derive(Debug, PartialEq)]
pub enum Json {
    Null,
    Bool(bool),
    Number(serde_json::Number),
    Text(String),
    Array(Vec<Json>),
    Object(Vec<(String, Json)>),
}

/// What a JSON value is.
pub enum JsonV {
    Null,
    Bool(bool),
    Number(serde_json::Number),
    Text(Seq<char>),
    Array(Seq<JsonV>),
    Object(Map<Seq<char>, JsonV>),
}

pub open spec fn json_view(j: Json) -> JsonV
    decreases j, 0nat,
{
    match j {
        Json::Null => JsonV::Null,
        Json::Bool(b) => JsonV::Bool(b),
        Json::Number(n) => JsonV::Number(n),
        Json::Text(s) => JsonV::Text(s@),
        Json::Array(v) => JsonV::Array(
            Seq::new(
                v@.len(),
                |i: int|
                    if 0 <= i < v@.len() {
                        json_view(v@[i])
                    } else {
                        JsonV::Null
                    },
            ),
        ),
        Json::Object(v) => JsonV::Object(members(v@)),
    }
}

/// The members of an object.
pub open spec fn members(v: Seq<(String, Json)>) -> Map<Seq<char>, JsonV>
    decreases v, v.len(),
{
    if v.len() == 0 {
        Map::empty()
    } else {
        members(v.drop_last()).insert(v.last().0@, json_view(v.last().1))
    }
}

pub open spec fn no_members() -> Map<Seq<char>, JsonV> {
    Map::empty()
}

pub open spec fn views(v: Seq<Json>) -> Seq<JsonV> {
    v.map_values(|j: Json| json_view(j))
}

/// One level of a `serde_json::Value`.
pub enum Parts {
    Null,
    Bool(bool),
    Number(serde_json::Number),
    Text(String),
    Array(Vec<serde_json::Value>),
    Object(serde_json::Map<String, serde_json::Value>),
}

pub open spec fn parts_view(p: Parts) -> JsonV {
    match p {
        Parts::Null => JsonV::Null,
        Parts::Bool(b) => JsonV::Bool(b),
        Parts::Number(n) => JsonV::Number(n),
        Parts::Text(s) => JsonV::Text(s@),
        Parts::Array(v) => JsonV::Array(v@.map_values(|x: serde_json::Value| value_holds(x))),
        Parts::Object(m) => JsonV::Object(map_holds(m)),
    }
}

// ---- calls into serde_json --------------------------------------------------------------

/// `serde_json::from_str::<serde_json::Value>`, with the error as its text. What it returns
/// is a function of the text.
#[verifier::external_body]
fn from_text(s: &str) -> (r: Result<serde_json::Value, String>)
    ensures
        match r {
            Ok(v) => parsed(s@) == Ok::<JsonV, Seq<char>>(value_holds(v)),
            Err(e) => parsed(s@) == Err::<JsonV, Seq<char>>(e@),
        },
{
    match serde_json::from_str::<serde_json::Value>(s) {
        Ok(v) => Ok(v),
        Err(e) => Err(e.to_string()),
    }
}

/// An object whose members are texts, booleans or null.
pub open spec fn is_flat(v: JsonV) -> bool {
    match v {
        JsonV::Object(m) => forall|k: Seq<char>| #[trigger]
            m.contains_key(k) ==> m[k] is Null || m[k] is Bool || m[k] is Text,
        _ => false,
    }
}

/// The text reads as this value.
pub open spec fn reads_as(s: Seq<char>, v: JsonV) -> bool {
    parsed(s) == Ok::<JsonV, Seq<char>>(v)
}

/// `serde_json::Value::to_string`: the compact text of a value, a function of its contents. Of an
/// object whose members are texts, booleans or null, `serde_json::from_str` reads it back.
#[verifier::external_body]
fn to_text(v: &serde_json::Value) -> (r: String)
    ensures
        r@ == printed(value_holds(*v)),
        is_flat(value_holds(*v)) ==> reads_as(r@, value_holds(*v)),
{
    v.to_string()
}

/// Tells the variants of a `serde_json::Value` apart.
#[verifier::external_body]
fn take_apart(v: serde_json::Value) -> (p: Parts)
    ensures
        parts_view(p) == value_holds(v),
{
    match v {
        serde_json::Value::Null => Parts::Null,
        serde_json::Value::Bool(b) => Parts::Bool(b),
        serde_json::Value::Number(n) => Parts::Number(n),
        serde_json::Value::String(s) => Parts::Text(s),
        serde_json::Value::Array(a) => Parts::Array(a),
        serde_json::Value::Object(m) => Parts::Object(m),
    }
}

/// Builds a `serde_json::Value` of the given variant.
#[verifier::external_body]
fn put_together(p: Parts) -> (v: serde_json::Value)
    ensures
        value_holds(v) == parts_view(p),
{
    match p {
        Parts::Null => serde_json::Value::Null,
        Parts::Bool(b) => serde_json::Value::Bool(b),
        Parts::Number(n) => serde_json::Value::Number(n),
        Parts::Text(s) => serde_json::Value::String(s),
        Parts::Array(a) => serde_json::Value::Array(a),
        Parts::Object(m) => serde_json::Value::Object(m),
    }
}

/// `serde_json::Map::into_iter`: every member once, in the order of the keys.
#[verifier::external_body]
fn map_entries(m: serde_json::Map<String, serde_json::Value>) -> (r: Vec<
    (String, serde_json::Value),
>)
    ensures
        forall|i: int|
            0 <= i < r@.len() ==> map_holds(m).contains_key((#[trigger] r@[i]).0@)
                && map_holds(m)[r@[i].0@] == value_holds(r@[i].1),
        forall|k: Seq<char>| #[trigger]
            map_holds(m).contains_key(k) ==> exists|i: int|
                0 <= i < r@.len() && (#[trigger] r@[i]).0@ == k,
        forall|i: int, j: int|
            0 <= i < j < r@.len() ==> order::lex_lt((#[trigger] r@[i]).0@, (#[trigger] r@[j]).0@),
{
    m.into_iter().collect()
}

/// `serde_json::Map::new`: an object without members.
#[verifier::external_body]
fn map_new() -> (m: serde_json::Map<String, serde_json::Value>)
    ensures
        map_holds(m) == no_members(),
{
    serde_json::Map::new()
}

/// `serde_json::Map::insert`: sets one member, replacing one with the same key.
#[verifier::external_body]
fn map_insert(m: &mut serde_json::Map<String, serde_json::Value>, k: String, v: serde_json::Value)
    ensures
        map_holds(*final(m)) == map_holds(*old(m)).insert(k@, value_holds(v)),
{
    m.insert(k, v);
}

/// `serde_json::Number::as_u64`.
#[verifier::external_body]
fn as_u64(n: &serde_json::Number) -> (r: Option<u64>)
    ensures
        r == number_u64(*n),
{
    n.as_u64()
}

/// `serde_json::Number::as_i64`.
#[verifier::external_body]
fn as_i64(n: &serde_json::Number) -> (r: Option<i64>)
    ensures
        r == number_i64(*n),
{
    n.as_i64()
}

/// `serde_json::Number::from(u64)`: an integer, which `as_u64` gives back, and `as_i64`
/// too where it fits.
#[verifier::external_body]
fn number_from(n: u64) -> (r: serde_json::Number)
    ensures
        r == uint(n),
        number_u64(r) == Some(n),
        number_i64(r) == (if n <= i64::MAX {
            Some(n as i64)
        } else {
            None
        }),
{
    serde_json::Number::from(n)
}

/// `serde_json::Number::from(i64)`: an integer, which `as_i64` gives back; where it is not
/// negative it is the same number as that of the `u64`.
#[verifier::external_body]
fn number_from_signed(n: i64) -> (r: serde_json::Number)
    ensures
        r == sint(n),
        number_i64(r) == Some(n),
        number_u64(r) == (if n >= 0 {
            Some(n as u64)
        } else {
            None
        }),
        n >= 0 ==> r == uint(n as u64),
{
    serde_json::Number::from(n)
}

/// `str::parse` at the type that `serde_json::Number::from_f64` takes, then that function:
/// none where the text is no number, and no JSON number where it is not finite. What comes
/// out is a function of the text.
#[verifier::external_body]
fn number_from_decimal(s: &str) -> (r: Option<Option<serde_json::Number>>)
    ensures
        r == decimal_number(s@),
{
    s.parse().ok().map(serde_json::Number::from_f64)
}

/// `serde_json::Number::clone`: the same number.
#[verifier::external_body]
fn number_copy(n: &serde_json::Number) -> (r: serde_json::Number)
    ensures
        r == *n,
{
    n.clone()
}

// ---- reading and writing values -----------------------------------------------------------

/// The last member with key `k` decides.
proof fn lemma_members(v: Seq<(String, Json)>, i: int)
    requires
        0 <= i < v.len(),
        forall|j: int| i < j < v.len() ==> (#[trigger] v[j]).0@ != v[i].0@,
    ensures
        members(v).contains_key(v[i].0@),
        members(v)[v[i].0@] == json_view(v[i].1),
    decreases v.len(),
{
    if i < v.len() - 1 {
        lemma_members(v.drop_last(), i);
        assert(v[v.len() - 1].0@ != v[i].0@);
    }
}

proof fn lemma_no_member(v: Seq<(String, Json)>, k: Seq<char>)
    requires
        forall|j: int| 0 <= j < v.len() ==> (#[trigger] v[j]).0@ != k,
    ensures
        !members(v).contains_key(k),
    decreases v.len(),
{
    if v.len() > 0 {
        assert(v[v.len() - 1].0@ != k);
        lemma_no_member(v.drop_last(), k);
    }
}

proof fn lemma_has_member(v: Seq<(String, Json)>, i: int)
    requires
        0 <= i < v.len(),
    ensures
        members(v).contains_key(v[i].0@),
    decreases v.len(),
{
    if i < v.len() - 1 {
        lemma_has_member(v.drop_last(), i);
    }
}

/// Members that agree with a map on every key of either make that map.
proof fn lemma_members_are(v: Seq<(String, Json)>, m: Map<Seq<char>, JsonV>)
    requires
        forall|i: int|
            0 <= i < v.len() ==> m.contains_key((#[trigger] v[i]).0@) && m[v[i].0@] == json_view(
                v[i].1,
            ),
        forall|k: Seq<char>| #[trigger]
            m.contains_key(k) ==> exists|i: int| 0 <= i < v.len() && (#[trigger] v[i]).0@ == k,
        forall|i: int, j: int|
            0 <= i < j < v.len() ==> (#[trigger] v[i]).0@ != (#[trigger] v[j]).0@,
    ensures
        members(v) == m,
{
    assert forall|k: Seq<char>| #[trigger] members(v).contains_key(k) == m.contains_key(k)
        && (m.contains_key(k) ==> members(v)[k] == m[k]) by {
        if m.contains_key(k) {
            let i = choose|i: int| 0 <= i < v.len() && (#[trigger] v[i]).0@ == k;
            lemma_members(v, i);
        } else {
            lemma_no_member(v, k);
        }
    }
    assert(members(v) =~= m);
}

fn read_value(v: serde_json::Value) -> (j: Json)
    ensures
        j@ == value_holds(v),
    decreases value_holds(v),
{
    broadcast use vstd::map::axiom_map_index_decreases_finite;

    let ghost whole = value_holds(v);
    match take_apart(v) {
        Parts::Null => Json::Null,
        Parts::Bool(b) => Json::Bool(b),
        Parts::Number(n) => Json::Number(n),
        Parts::Text(s) => Json::Text(s),
        Parts::Array(items) => {
            let ghost contents = value_holds(v)->Array_0;
            let mut rest = items;
            let mut out: Vec<Json> = Vec::new();
            while rest.len() > 0
                invariant
                    whole == value_holds(v),
                    whole is Array,
                    contents == whole->Array_0,
                    out@.len() + rest@.len() == contents.len(),
                    forall|i: int| 0 <= i < out@.len() ==> (#[trigger] out@[i])@ == contents[i],
                    forall|i: int|
                        0 <= i < rest@.len() ==> value_holds(#[trigger] rest@[i]) == contents[
                        out@.len() + i],
                decreases rest.len(),
            {
                let item = rest.remove(0);
                proof {
                    assert(value_holds(item) == contents[out@.len() as int]);
                }
                out.push(read_value(item));
            }
            let j = Json::Array(out);
            proof {
                assert(j@->Array_0 =~= contents);
            }
            j
        },
        Parts::Object(m) => {
            let ghost contents = map_holds(m);
            let mut rest = map_entries(m);
            let ghost all = rest@;
            proof {
                let keys = all.map_values(|e: (String, serde_json::Value)| e.0@);
                vstd::seq_lib::seq_to_set_is_finite(keys);
                assert forall|k: Seq<char>| #[trigger]
                    contents.contains_key(k) implies keys.to_set().contains(k) by {
                    let i = choose|i: int| 0 <= i < all.len() && (#[trigger] all[i]).0@ == k;
                    assert(keys[i] == k);
                }
                vstd::set_lib::lemma_len_subset(contents.dom(), keys.to_set());
            }
            let mut out: Vec<(String, Json)> = Vec::new();
            while rest.len() > 0
                invariant
                    whole == value_holds(v),
                    whole is Object,
                    contents == whole->Object_0,
                    contents.dom().finite(),
                    out@.len() + rest@.len() == all.len(),
                    forall|i: int|
                        0 <= i < all.len() ==> contents.contains_key((#[trigger] all[i]).0@)
                            && contents[all[i].0@] == value_holds(all[i].1),
                    forall|i: int|
                        0 <= i < out@.len() ==> (#[trigger] out@[i]).0@ == all[i].0@
                            && out@[i].1@ == value_holds(all[i].1),
                    forall|i: int|
                        0 <= i < rest@.len() ==> #[trigger] rest@[i] == all[out@.len() + i],
                decreases rest.len(),
            {
                let entry = rest.remove(0);
                proof {
                    assert(entry == all[out@.len() as int]);
                }
                out.push((entry.0, read_value(entry.1)));
            }
            proof {
                assert forall|i: int, j: int| 0 <= i < j < out@.len() implies (
                #[trigger] out@[i]).0@ != (#[trigger] out@[j]).0@ by {
                    assert(order::lex_lt(all[i].0@, all[j].0@));
                    order::lemma_lex_irreflexive(all[i].0@);
                }
                assert forall|k: Seq<char>| #[trigger] contents.contains_key(k) implies exists|
                    i: int,
                | 0 <= i < out@.len() && (#[trigger] out@[i]).0@ == k by {
                    let i = choose|i: int| 0 <= i < all.len() && (#[trigger] all[i]).0@ == k;
                    assert(out@[i].0@ == k);
                }
                lemma_members_are(out@, contents);
            }
            Json::Object(out)
        },
    }
}

fn write_value(j: &Json) -> (v: serde_json::Value)
    ensures
        value_holds(v) == j@,
    decreases j,
{
    match j {
        Json::Null => put_together(Parts::Null),
        Json::Bool(b) => put_together(Parts::Bool(*b)),
        Json::Number(n) => put_together(Parts::Number(number_copy(n))),
        Json::Text(s) => put_together(Parts::Text(text::copy(s.as_str()))),
        Json::Array(items) => {
            let mut out: Vec<serde_json::Value> = Vec::new();
            let mut i: usize = 0;
            while i < items.len()
                invariant
                    j == Json::Array(*items),
                    i == out@.len(),
                    i <= items@.len(),
                    forall|k: int|
                        0 <= k < i ==> value_holds(#[trigger] out@[k]) == json_view(items@[k]),
                decreases items.len() - i,
            {
                proof {
                    assert(decreases_to!(j => j->Array_0));
                    assert(decreases_to!(j->Array_0 => items@));
                    assert(decreases_to!(items@ => items@[i as int]));
                }
                let item = write_value(&items[i]);
                out.push(item);
                i = i + 1;
            }
            proof {
                assert(out@.map_values(|x: serde_json::Value| value_holds(x)) =~= j@->Array_0);
            }
            put_together(Parts::Array(out))
        },
        Json::Object(entries) => {
            let mut out = map_new();
            let mut i: usize = 0;
            proof {
                assert(entries@.take(0) =~= Seq::<(String, Json)>::empty());
            }
            while i < entries.len()
                invariant
                    j == Json::Object(*entries),
                    i <= entries@.len(),
                    map_holds(out) == members(entries@.take(i as int)),
                decreases entries.len() - i,
            {
                proof {
                    assert(decreases_to!(j => j->Object_0));
                    assert(decreases_to!(j->Object_0 => entries@));
                    assert(decreases_to!(entries@ => entries@[i as int]));
                    assert(decreases_to!(entries@[i as int] => entries@[i as int].1));
                }
                let item = write_value(&entries[i].1);
                proof {
                    assert(entries@.take(i as int + 1).drop_last() =~= entries@.take(i as int));
                }
                map_insert(&mut out, text::copy(entries[i].0.as_str()), item);
                i = i + 1;
            }
            proof {
                assert(entries@.take(i as int) =~= entries@);
            }
            put_together(Parts::Object(out))
        },
    }
}

/// Reads a JSON text; the error is the parser's message.
pub fn parse(s: &str) -> (r: Result<Json, String>)
    ensures
        match r {
            Ok(j) => parsed(s@) == Ok::<JsonV, Seq<char>>(j@),
            Err(e) => parsed(s@) == Err::<JsonV, Seq<char>>(e@),
        },
{
    match from_text(s) {
        Ok(v) => Ok(read_value(v)),
        Err(e) => Err(e),
    }
}

/// Writes a value as compact JSON text. What is written of a flat object reads back.
pub fn print(j: &Json) -> (r: String)
    ensures
        r@ == printed(j@),
        is_flat(j@) ==> reads_as(r@, j@),
{
    to_text(&write_value(j))
}

impl View for Json {
    type V = JsonV;

    open spec fn view(&self) -> JsonV {
        json_view(*self)
    }
}

impl JsonV {
    /// The member `k` of an object.
    pub open spec fn get(self, k: Seq<char>) -> Option<JsonV> {
        match self {
            JsonV::Object(m) => if m.contains_key(k) {
                Some(m[k])
            } else {
                None
            },
            _ => None,
        }
    }

    pub open spec fn text(self) -> Option<Seq<char>> {
        match self {
            JsonV::Text(s) => Some(s),
            _ => None,
        }
    }

    pub open spec fn items(self) -> Option<Seq<JsonV>> {
        match self {
            JsonV::Array(v) => Some(v),
            _ => None,
        }
    }

    pub open spec fn bool(self) -> Option<bool> {
        match self {
            JsonV::Bool(b) => Some(b),
            _ => None,
        }
    }

    pub open spec fn uint(self) -> Option<u64> {
        match self {
            JsonV::Number(n) => number_u64(n),
            _ => None,
        }
    }

    pub open spec fn sint(self) -> Option<i64> {
        match self {
            JsonV::Number(n) => number_i64(n),
            _ => None,
        }
    }

    /// The text of member `k`.
    pub open spec fn get_text(self, k: Seq<char>) -> Option<Seq<char>> {
        match self.get(k) {
            Some(v) => v.text(),
            None => None,
        }
    }

    /// The items of member `k`.
    pub open spec fn get_items(self, k: Seq<char>) -> Option<Seq<JsonV>> {
        match self.get(k) {
            Some(v) => v.items(),
            None => None,
        }
    }

    pub open spec fn get_uint(self, k: Seq<char>) -> Option<u64> {
        match self.get(k) {
            Some(v) => v.uint(),
            None => None,
        }
    }

    pub open spec fn get_sint(self, k: Seq<char>) -> Option<i64> {
        match self.get(k) {
            Some(v) => v.sint(),
            None => None,
        }
    }

    pub open spec fn get_bool(self, k: Seq<char>) -> Option<bool> {
        match self.get(k) {
            Some(v) => v.bool(),
            None => None,
        }
    }
}

impl Json {
    pub fn get(&self, k: &str) -> (r: Option<&Json>)
        ensures
            match r {
                Some(j) => self@.get(k@) == Some(j@),
                None => self@.get(k@) is None,
            },
    {
        match self {
            Json::Object(entries) => {
                let mut i: usize = entries.len();
                while i > 0
                    invariant
                        *self == Json::Object(*entries),
                        i <= entries@.len(),
                        forall|j: int| i <= j < entries@.len() ==> (#[trigger] entries@[j]).0@ != k@,
                    decreases i,
                {
                    i = i - 1;
                    if text::str_eq(entries[i].0.as_str(), k) {
                        proof {
                            lemma_members(entries@, i as int);
                        }
                        return Some(&entries[i].1);
                    }
                }
                proof {
                    lemma_no_member(entries@, k@);
                }
                None
            },
            _ => None,
        }
    }

    pub fn as_str(&self) -> (r: Option<&str>)
        ensures
            match r {
                Some(s) => self@.text() == Some(s@),
                None => self@.text() is None,
            },
    {
        match self {
            Json::Text(s) => Some(s.as_str()),
            _ => None,
        }
    }

    pub fn as_array(&self) -> (r: Option<&Vec<Json>>)
        ensures
            match r {
                Some(v) => self@.items() == Some(views(v@)),
                None => self@.items() is None,
            },
    {
        match self {
            Json::Array(v) => {
                proof {
                    assert(self@->Array_0 =~= views(v@));
                }
                Some(v)
            },
            _ => None,
        }
    }

    pub fn as_bool(&self) -> (r: Option<bool>)
        ensures
            r == self@.bool(),
    {
        match self {
            Json::Bool(b) => Some(*b),
            _ => None,
        }
    }

    pub fn as_u64(&self) -> (r: Option<u64>)
        ensures
            r == self@.uint(),
    {
        match self {
            Json::Number(n) => as_u64(n),
            _ => None,
        }
    }

    pub fn as_i64(&self) -> (r: Option<i64>)
        ensures
            r == self@.sint(),
    {
        match self {
            Json::Number(n) => as_i64(n),
            _ => None,
        }
    }

    pub fn is_null(&self) -> (r: bool)
        ensures
            r == (self@ is Null),
    {
        match self {
            Json::Null => true,
            _ => false,
        }
    }

    pub fn is_object(&self) -> (r: bool)
        ensures
            r == (self@ is Object),
    {
        match self {
            Json::Object(_) => true,
            _ => false,
        }
    }

    pub fn get_str(&self, k: &str) -> (r: Option<&str>)
        ensures
            match r {
                Some(s) => self@.get_text(k@) == Some(s@),
                None => self@.get_text(k@) is None,
            },
    {
        match self.get(k) {
            Some(v) => v.as_str(),
            None => None,
        }
    }

    pub fn get_array(&self, k: &str) -> (r: Option<&Vec<Json>>)
        ensures
            match r {
                Some(v) => self@.get_items(k@) == Some(views(v@)),
                None => self@.get_items(k@) is None,
            },
    {
        match self.get(k) {
            Some(v) => v.as_array(),
            None => None,
        }
    }

    pub fn get_u64(&self, k: &str) -> (r: Option<u64>)
        ensures
            r == self@.get_uint(k@),
    {
        match self.get(k) {
            Some(v) => v.as_u64(),
            None => None,
        }
    }

    pub fn get_i64(&self, k: &str) -> (r: Option<i64>)
        ensures
            r == self@.get_sint(k@),
    {
        match self.get(k) {
            Some(v) => v.as_i64(),
            None => None,
        }
    }

    pub fn get_bool(&self, k: &str) -> (r: Option<bool>)
        ensures
            r == self@.get_bool(k@),
    {
        match self.get(k) {
            Some(v) => v.as_bool(),
            None => None,
        }
    }

    /// The keys of an object's members, at least once each; empty for any other value.
    pub fn keys(&self) -> (r: Vec<String>)
        ensures
            forall|i: int|
                0 <= i < r@.len() ==> self@ is Object && self@->Object_0.contains_key(
                    (#[trigger] r@[i])@,
                ),
            forall|k: Seq<char>|
                self@ is Object && #[trigger] self@->Object_0.contains_key(k) ==> exists|i: int|
                    0 <= i < r@.len() && (#[trigger] r@[i])@ == k,
    {
        let mut out: Vec<String> = Vec::new();
        if let Json::Object(entries) = self {
            let mut i: usize = 0;
            while i < entries.len()
                invariant
                    i == out@.len(),
                    i <= entries@.len(),
                    forall|j: int| 0 <= j < i ==> (#[trigger] out@[j])@ == entries@[j].0@,
                decreases entries.len() - i,
            {
                out.push(text::copy(entries[i].0.as_str()));
                i = i + 1;
            }
            proof {
                assert forall|j: int| 0 <= j < out@.len() implies members(entries@).contains_key(
                    (#[trigger] out@[j])@,
                ) by {
                    lemma_has_member(entries@, j);
                }
                assert forall|k: Seq<char>| #[trigger]
                    members(entries@).contains_key(k) implies exists|j: int|
                    0 <= j < out@.len() && (#[trigger] out@[j])@ == k by {
                    if forall|j: int| 0 <= j < entries@.len() ==> (#[trigger] entries@[j]).0@ != k {
                        lemma_no_member(entries@, k);
                    }
                    let j = choose|j: int|
                        0 <= j < entries@.len() && (#[trigger] entries@[j]).0@ == k;
                    assert(out@[j]@ == k);
                }
                assert(self@->Object_0 == members(entries@));
            }
        }
        out
    }

    /// The same value again.
    pub fn copy(&self) -> (r: Json)
        ensures
            r@ == self@,
        decreases self,
    {
        match self {
            Json::Null => Json::Null,
            Json::Bool(b) => Json::Bool(*b),
            Json::Number(n) => Json::Number(number_copy(n)),
            Json::Text(s) => Json::Text(text::copy(s.as_str())),
            Json::Array(items) => {
                let mut out: Vec<Json> = Vec::new();
                let mut i: usize = 0;
                while i < items.len()
                    invariant
                        self == Json::Array(*items),
                        i == out@.len(),
                        i <= items@.len(),
                        forall|k: int|
                            0 <= k < i ==> (#[trigger] out@[k])@ == json_view(items@[k]),
                    decreases items.len() - i,
                {
                    proof {
                        assert(decreases_to!(self => self->Array_0));
                        assert(decreases_to!(self->Array_0 => items@));
                        assert(decreases_to!(items@ => items@[i as int]));
                    }
                    let item = items[i].copy();
                    out.push(item);
                    i = i + 1;
                }
                let r = Json::Array(out);
                proof {
                    assert(r@->Array_0 =~= self@->Array_0);
                }
                r
            },
            Json::Object(entries) => {
                let mut out: Vec<(String, Json)> = Vec::new();
                let mut i: usize = 0;
                proof {
                    assert(entries@.take(0) =~= Seq::<(String, Json)>::empty());
                }
                while i < entries.len()
                    invariant
                        self == Json::Object(*entries),
                        i <= entries@.len(),
                        members(out@) == members(entries@.take(i as int)),
                    decreases entries.len() - i,
                {
                    proof {
                        assert(decreases_to!(self => self->Object_0));
                        assert(decreases_to!(self->Object_0 => entries@));
                        assert(decreases_to!(entries@ => entries@[i as int]));
                        assert(decreases_to!(entries@[i as int] => entries@[i as int].1));
                    }
                    let item = entries[i].1.copy();
                    let ghost before = out@;
                    out.push((text::copy(entries[i].0.as_str()), item));
                    proof {
                        assert(out@.drop_last() =~= before);
                        assert(entries@.take(i as int + 1).drop_last() =~= entries@.take(
                            i as int,
                        ));
                    }
                    i = i + 1;
                }
                proof {
                    assert(entries@.take(i as int) =~= entries@);
                }
                Json::Object(out)
            },
        }
    }

    /// A text value.
    pub fn string(s: &str) -> (r: Json)
        ensures
            r@ == JsonV::Text(s@),
    {
        Json::Text(text::copy(s))
    }

    /// A whole number.
    pub fn uint(n: u64) -> (r: Json)
        ensures
            r@ == JsonV::Number(uint(n)),
            r@.uint() == Some(n),
    {
        Json::Number(number_from(n))
    }

    /// A whole number, perhaps negative.
    pub fn sint(n: i64) -> (r: Json)
        ensures
            r@ == JsonV::Number(sint(n)),
            r@.sint() == Some(n),
            n >= 0 ==> r@ == JsonV::Number(uint(n as u64)),
    {
        Json::Number(number_from_signed(n))
    }

    /// A text read as a decimal number: none where it is no number, null where it is not
    /// finite.
    pub fn decimal(s: &str) -> (r: Option<Json>)
        ensures
            match r {
                Some(j) => decimal_number(s@) is Some && j@ == (match decimal_number(s@)->Some_0 {
                    Some(n) => JsonV::Number(n),
                    None => JsonV::Null,
                }),
                None => decimal_number(s@) is None,
            },
    {
        match number_from_decimal(s) {
            Some(Some(n)) => Some(Json::Number(n)),
            Some(None) => Some(Json::Null),
            None => None,
        }
    }

    /// An object without members.
    pub fn object() -> (r: Json)
        ensures
            r@ == JsonV::Object(Map::empty()),
    {
        let none: Vec<(String, Json)> = Vec::new();
        proof {
            assert(members(none@) =~= Map::empty());
        }
        Json::Object(none)
    }

    /// The object with one member set.
    pub fn with(self, k: &str, v: Json) -> (r: Json)
        requires
            self@ is Object,
        ensures
            r@ == JsonV::Object(self@->Object_0.insert(k@, v@)),
    {
        match self {
            Json::Object(entries) => {
                let mut out = entries;
                out.push((text::copy(k), v));
                proof {
                    assert(out@.drop_last() =~= entries@);
                    assert(members(out@) == members(entries@).insert(k@, v@));
                }
                Json::Object(out)
            },
            _ => self,
        }
    }

    /// The object with one text member set.
    pub fn with_str(self, k: &str, v: &str) -> (r: Json)
        requires
            self@ is Object,
        ensures
            r@ == JsonV::Object(self@->Object_0.insert(k@, JsonV::Text(v@))),
    {
        self.with(k, Json::string(v))
    }

    /// The object without member `k`.
    pub fn without(self, k: &str) -> (r: Json)
        requires
            self@ is Object,
        ensures
            r@ == JsonV::Object(self@->Object_0.remove(k@)),
    {
        match self {
            Json::Object(entries) => {
                let mut rest = entries;
                let ghost all = rest@;
                let mut out: Vec<(String, Json)> = Vec::new();
                proof {
                    assert(all.take(0) =~= Seq::<(String, Json)>::empty());
                    assert(members(out@) =~= members(all.take(0)).remove(k@));
                    assert(all.skip(0) =~= all);
                }
                let ghost mut i: int = 0;
                while rest.len() > 0
                    invariant
                        0 <= i <= all.len(),
                        rest@ == all.skip(i),
                        members(out@) == members(all.take(i)).remove(k@),
                    decreases rest.len(),
                {
                    let entry = rest.remove(0);
                    let ghost before = out@;
                    proof {
                        assert(entry == all[i]);
                        assert(all.take(i + 1).drop_last() =~= all.take(i));
                        assert(rest@ =~= all.skip(i + 1));
                        i = i + 1;
                    }
                    if text::str_eq(entry.0.as_str(), k) {
                        proof {
                            assert(members(out@) =~= members(all.take(i)).remove(k@));
                        }
                    } else {
                        out.push(entry);
                        proof {
                            assert(out@.drop_last() =~= before);
                            assert(members(out@) =~= members(all.take(i)).remove(k@));
                        }
                    }
                }
                proof {
                    assert(all.take(i) =~= all);
                }
                Json::Object(out)
            },
            _ => self,
        }
    }
}

/// The members of a value are those that were put in: the last put in under a key is the one that
/// is found, and no other key is touched. A member is read only as what it is.
pub proof fn law_members(m: Map<Seq<char>, JsonV>, k: Seq<char>, other: Seq<char>, v: JsonV)
    ensures
        JsonV::Object(m.insert(k, v)).get(k) == Some(v),
        other != k ==> JsonV::Object(m.insert(k, v)).get(other) == JsonV::Object(m).get(other),
        JsonV::Object(m.remove(k)).get(k) is None,
        JsonV::Object(no_members()).get(k) is None,
        !(v is Object) ==> v.get(k) is None,
        v.get(k) matches Some(JsonV::Text(s)) ==> v.get_text(k) == Some(s) && v.get_items(k) is None
            && v.get_bool(k) is None && v.get_uint(k) is None && v.get_sint(k) is None,
        v.get(k) matches Some(JsonV::Array(s)) ==> v.get_items(k) == Some(s) && v.get_text(k) is None,
        v.get(k) matches Some(JsonV::Bool(b)) ==> v.get_bool(k) == Some(b) && v.get_text(k) is None,
        v.get(k) matches Some(JsonV::Number(n)) ==> v.get_uint(k) == number_u64(n) && v.get_sint(k)
            == number_i64(n) && v.get_text(k) is None,
        v.get(k) is None ==> v.get_text(k) is None && v.get_items(k) is None && v.get_bool(k)
            is None && v.get_uint(k) is None && v.get_sint(k) is None,
{
}

/// The members of a list of pairs are the last of each key.
pub proof fn law_pairs(v: Seq<(String, Json)>, k: String, j: Json, other: Seq<char>)
    ensures
        JsonV::Object(members(v.push((k, j)))).get(k@) == Some(j@),
        other != k@ ==> JsonV::Object(members(v.push((k, j)))).get(other) == JsonV::Object(
            members(v),
        ).get(other),
        members(Seq::empty()) == Map::<Seq<char>, JsonV>::empty(),
{
    assert(v.push((k, j)).drop_last() =~= v);
}

} // verus!
