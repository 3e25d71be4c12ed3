//! Reading the tool calls that Gemma 4 writes.
//!
//! A call is `<|tool_call>call:name{args}<tool_call|>`. The arguments look like JSON but are
//! not: keys are bare, and texts stand between `<|"|>` marks, with nothing escaped.
use vstd::prelude::*;

use crate::decimal;
use crate::json;
use crate::json::Json;
use crate::json::JsonV;
use crate::text;

verus! {

// ---- the grammar -----------------------------------------------------------------------------

/// The mark around a raw text.
pub open spec fn quote() -> Seq<char> {
    seq!['<', '|', '"', '|', '>']
}

/// The first position from `i` on that holds no whitespace.
pub open spec fn skip_ws(s: Seq<char>, i: int) -> int
    decreases s.len() - i,
{
    if 0 <= i < s.len() && text::is_space(s[i]) {
        skip_ws(s, i + 1)
    } else {
        i
    }
}

pub open spec fn is_at(s: Seq<char>, i: int, c: char) -> bool {
    0 <= i < s.len() && s[i] == c
}

pub open spec fn starts_text(s: Seq<char>, i: int) -> bool {
    text::occurs_at(s, quote(), i) || is_at(s, i, '"')
}

pub open spec fn unescaped(c: char) -> char {
    if c == 'n' {
        '\n'
    } else if c == 't' {
        '\t'
    } else if c == 'r' {
        '\r'
    } else {
        c
    }
}

/// The text between double quotes, from `i` on, and where it ends.
pub open spec fn quoted(s: Seq<char>, i: int, escaped: bool) -> Option<(Seq<char>, int)>
    decreases s.len() - i,
{
    if i < 0 || i >= s.len() {
        None
    } else if escaped {
        match quoted(s, i + 1, false) {
            Some((t, j)) => Some((seq![unescaped(s[i])] + t, j)),
            None => None,
        }
    } else if s[i] == '\\' {
        quoted(s, i + 1, true)
    } else if s[i] == '"' {
        Some((Seq::empty(), i + 1))
    } else {
        match quoted(s, i + 1, false) {
            Some((t, j)) => Some((seq![s[i]] + t, j)),
            None => None,
        }
    }
}

/// A text that begins at `i`, and where it ends.
pub open spec fn text_at(s: Seq<char>, i: int) -> Option<(Seq<char>, int)> {
    if text::occurs_at(s, quote(), i) {
        match text::find_from(s, quote(), i + 5) {
            Some(j) => Some((s.subrange(i + 5, j), j + 5)),
            None => None,
        }
    } else if is_at(s, i, '"') {
        quoted(s, i + 1, false)
    } else {
        None
    }
}

/// A key that begins at `i`: a text, or what stands before the colon.
pub open spec fn key_at(s: Seq<char>, i: int) -> Option<(Seq<char>, int)> {
    if starts_text(s, i) {
        text_at(s, i)
    } else {
        match text::find_from(s, ":"@, i) {
            None => None,
            Some(j) => {
                let k = text::trim(s.subrange(i, j));
                if k.len() == 0 {
                    None
                } else {
                    Some((k, j))
                }
            },
        }
    }
}

pub open spec fn ends_scalar(c: char) -> bool {
    c == ',' || c == '}' || c == ']'
}

/// Where a bare value that begins at `i` ends.
pub open spec fn scalar_end(s: Seq<char>, i: int) -> int
    decreases s.len() - i,
{
    if i < 0 || i >= s.len() || ends_scalar(s[i]) {
        i
    } else {
        scalar_end(s, i + 1)
    }
}

/// What a bare value means: a constant, a number, or else a text.
pub open spec fn scalar(raw: Seq<char>, number: Option<Option<serde_json::Number>>) -> JsonV {
    if raw == "true"@ {
        JsonV::Bool(true)
    } else if raw == "false"@ {
        JsonV::Bool(false)
    } else if raw == "null"@ {
        JsonV::Null
    } else {
        match decimal::int_value(raw) {
            Some(n) => JsonV::Number(
                if n >= 0 {
                    json::uint(n as u64)
                } else {
                    json::sint(n as i64)
                },
            ),
            None => match number {
                Some(Some(n)) => JsonV::Number(n),
                Some(None) => JsonV::Null,
                None => JsonV::Text(raw),
            },
        }
    }
}

/// A value that begins at `i`, and where it ends.
pub open spec fn value_at(s: Seq<char>, i: int) -> Option<(JsonV, int)>
    decreases s.len() - i, 1nat,
{
    if starts_text(s, i) {
        match text_at(s, i) {
            Some((t, j)) => Some((JsonV::Text(t), j)),
            None => None,
        }
    } else if is_at(s, i, '{') {
        match members_at(s, i + 1, Map::empty()) {
            Some((m, j)) => Some((JsonV::Object(m), j)),
            None => None,
        }
    } else if is_at(s, i, '[') {
        match items_at(s, i + 1, Seq::empty()) {
            Some((v, j)) => Some((JsonV::Array(v), j)),
            None => None,
        }
    } else {
        let end = scalar_end(s, i);
        let raw = text::trim(s.subrange(i, end));
        Some((scalar(raw, json::decimal_number(raw)), end))
    }
}

/// The members from `i` on, added to `m`, and where they end. Members that break off are
/// kept as far as they go.
pub open spec fn members_at(s: Seq<char>, i: int, m: Map<Seq<char>, JsonV>) -> Option<
    (Map<Seq<char>, JsonV>, int),
>
    decreases s.len() - i, 2nat,
{
    let a = skip_ws(s, i);
    if is_at(s, a, '}') {
        Some((m, a + 1))
    } else {
        match key_at(s, a) {
            None => None,
            Some((k, b)) => {
                let c = skip_ws(s, b);
                if !is_at(s, c, ':') {
                    None
                } else {
                    let d = skip_ws(s, c + 1);
                    if !(i < d <= s.len()) {
                        None
                    } else {
                        match value_at(s, d) {
                            None => None,
                            Some((v, e)) => {
                                let more = m.insert(k, v);
                                let f = skip_ws(s, e);
                                if is_at(s, f, ',') && i < f {
                                    members_at(s, f + 1, more)
                                } else if is_at(s, f, '}') {
                                    Some((more, f + 1))
                                } else {
                                    Some((more, f))
                                }
                            },
                        }
                    }
                }
            },
        }
    }
}

/// The items from `i` on, added to `v`, and where they end. Items that break off are kept as
/// far as they go.
pub open spec fn items_at(s: Seq<char>, i: int, v: Seq<JsonV>) -> Option<(Seq<JsonV>, int)>
    decreases s.len() - i, 2nat,
{
    let a = skip_ws(s, i);
    if is_at(s, a, ']') {
        Some((v, a + 1))
    } else if !(i <= a <= s.len()) {
        None
    } else {
        match value_at(s, a) {
            None => None,
            Some((x, e)) => {
                let f = skip_ws(s, e);
                if is_at(s, f, ',') && i <= f {
                    items_at(s, f + 1, v.push(x))
                } else if is_at(s, f, ']') {
                    Some((v.push(x), f + 1))
                } else {
                    Some((v.push(x), f))
                }
            },
        }
    }
}

/// The body without the word that introduces a call.
pub open spec fn call_text(body: Seq<char>) -> Seq<char> {
    if text::starts_with(body, "call:"@) {
        body.skip(5)
    } else {
        body
    }
}

/// The call that a body holds: its name and its arguments.
pub open spec fn call_in(body: Seq<char>) -> Option<(Seq<char>, JsonV)> {
    let t = call_text(body);
    match text::find(t, "{"@) {
        None => None,
        Some(b) => {
            let name = text::trim(t.take(b));
            if name.len() == 0 {
                None
            } else {
                match members_at(t, b + 1, Map::empty()) {
                    Some((m, _)) => Some((name, JsonV::Object(m))),
                    None => None,
                }
            }
        },
    }
}

/// The calls of a text, in order. A call without an end marker takes the rest.
pub open spec fn calls_in(s: Seq<char>) -> Seq<(Seq<char>, JsonV)>
    decreases s.len(),
{
    match text::find(s, "<|tool_call>"@) {
        None => seq![],
        Some(p) => {
            let after = s.skip(p + 12);
            let (body, next) = match text::find(after, "<tool_call|>"@) {
                Some(e) => (after.take(e), after.skip(e + 12)),
                None => (after, Seq::empty()),
            };
            let rest = if 0 < next.len() < s.len() {
                calls_in(next)
            } else {
                seq![]
            };
            match call_in(text::trim(body)) {
                Some(c) => seq![c] + rest,
                None => rest,
            }
        },
    }
}

// ---- progress ----------------------------------------------------------------------------------

proof fn lemma_skip_ws(s: Seq<char>, i: int)
    requires
        0 <= i <= s.len(),
    ensures
        i <= skip_ws(s, i) <= s.len(),
    decreases s.len() - i,
{
    if i < s.len() && text::is_space(s[i]) {
        lemma_skip_ws(s, i + 1);
    }
}

proof fn lemma_quoted(s: Seq<char>, i: int, escaped: bool)
    requires
        0 <= i <= s.len(),
    ensures
        quoted(s, i, escaped) matches Some(r) ==> i < r.1 <= s.len(),
    decreases s.len() - i,
{
    if i < s.len() {
        lemma_quoted(s, i + 1, false);
        lemma_quoted(s, i + 1, true);
    }
}

proof fn lemma_text_at(s: Seq<char>, i: int)
    requires
        0 <= i <= s.len(),
    ensures
        text_at(s, i) matches Some(r) ==> i < r.1 <= s.len(),
{
    if text::occurs_at(s, quote(), i) {
        text::lemma_find_from(s, quote(), i + 5);
    } else if is_at(s, i, '"') {
        lemma_quoted(s, i + 1, false);
    }
}

proof fn lemma_key_at(s: Seq<char>, i: int)
    requires
        0 <= i <= s.len(),
    ensures
        key_at(s, i) matches Some(r) ==> i <= r.1 <= s.len(),
{
    lemma_text_at(s, i);
    text::lemma_find_from(s, ":"@, i);
}

proof fn lemma_scalar_end(s: Seq<char>, i: int)
    requires
        0 <= i <= s.len(),
    ensures
        i <= scalar_end(s, i) <= s.len(),
    decreases s.len() - i,
{
    if i < s.len() && !ends_scalar(s[i]) {
        lemma_scalar_end(s, i + 1);
    }
}

// ---- reading --------------------------------------------------------------------------------------

fn ws(v: &Vec<char>, i: usize) -> (r: usize)
    requires
        i <= v@.len(),
    ensures
        r == skip_ws(v@, i as int),
        i <= r <= v@.len(),
{
    let mut k: usize = i;
    while k < v.len() && text::is_whitespace(v[k])
        invariant
            i <= k <= v@.len(),
            skip_ws(v@, i as int) == skip_ws(v@, k as int),
        decreases v.len() - k,
    {
        k = k + 1;
    }
    k
}

fn at(v: &Vec<char>, i: usize, c: char) -> (r: bool)
    ensures
        r == is_at(v@, i as int, c),
{
    i < v.len() && v[i] == c
}

fn quote_chars() -> (r: Vec<char>)
    ensures
        r@ == quote(),
{
    let mut q: Vec<char> = Vec::new();
    q.push('<');
    q.push('|');
    q.push('"');
    q.push('|');
    q.push('>');
    proof {
        assert(q@ =~= quote());
    }
    q
}

fn quoted_text(v: &Vec<char>, i: usize) -> (r: Option<(String, usize)>)
    requires
        i <= v@.len(),
    ensures
        match r {
            Some((t, j)) => quoted(v@, i as int, false) == Some((t@, j as int)) && i < j <= v@.len(),
            None => quoted(v@, i as int, false) is None,
        },
{
    let mut out = String::new();
    let mut escaped = false;
    let mut k: usize = i;
    proof {
        lemma_quoted(v@, i as int, false);
    }
    let ghost whole = quoted(v@, i as int, false);
    proof {
        if let Some((t, j)) = whole {
            assert(out@ + t =~= t);
        }
    }
    while k < v.len()
        invariant
            i <= k <= v@.len(),
            whole == quoted(v@, i as int, false),
            match quoted(v@, k as int, escaped) {
                Some((t, j)) => whole == Some((out@ + t, j)),
                None => whole is None,
            },
        decreases v.len() - k,
    {
        let c = v[k];
        let ghost before = out@;
        let ghost now = escaped;
        if escaped {
            out.push(
                if c == 'n' {
                    '\n'
                } else if c == 't' {
                    '\t'
                } else if c == 'r' {
                    '\r'
                } else {
                    c
                },
            );
            escaped = false;
        } else if c == '\\' {
            escaped = true;
        } else if c == '"' {
            proof {
                assert(out@ + Seq::<char>::empty() =~= out@);
            }
            return Some((out, k + 1));
        } else {
            out.push(c);
        }
        proof {
            if let Some((t, j)) = quoted(v@, k + 1, escaped) {
                if now {
                    assert(before + (seq![unescaped(c)] + t) =~= out@ + t);
                } else if c != '\\' {
                    assert(before + (seq![c] + t) =~= out@ + t);
                }
            }
        }
        k = k + 1;
    }
    None
}

fn read_text(v: &Vec<char>, i: usize) -> (r: Option<(String, usize)>)
    requires
        i <= v@.len(),
    ensures
        match r {
            Some((t, j)) => text_at(v@, i as int) == Some((t@, j as int)) && i < j <= v@.len(),
            None => text_at(v@, i as int) is None,
        },
{
    let total = v.len();
    let q = quote_chars();
    proof {
        lemma_text_at(v@, i as int);
    }
    if text::matches_at(v, &q, i) {
        return match text::find_chars(v, &q, i + 5) {
            Some(j) => Some((text::substring(v, i + 5, j), j + 5)),
            None => None,
        };
    }
    if at(v, i, '"') {
        return quoted_text(v, i + 1);
    }
    None
}

fn starts_with_text(v: &Vec<char>, i: usize) -> (r: bool)
    ensures
        r == starts_text(v@, i as int),
{
    text::matches_at(v, &quote_chars(), i) || at(v, i, '"')
}

fn read_key(v: &Vec<char>, i: usize) -> (r: Option<(String, usize)>)
    requires
        i <= v@.len(),
    ensures
        match r {
            Some((k, j)) => key_at(v@, i as int) == Some((k@, j as int)) && i <= j <= v@.len(),
            None => key_at(v@, i as int) is None,
        },
{
    proof {
        lemma_key_at(v@, i as int);
    }
    if starts_with_text(v, i) {
        return read_text(v, i);
    }
    let colon = text::to_chars(":");
    match text::find_chars(v, &colon, i) {
        None => None,
        Some(j) => {
            let k = text::str_trim(text::substring(v, i, j).as_str());
            if k.as_str().is_empty() {
                None
            } else {
                Some((k, j))
            }
        },
    }
}

/// What a bare value means, given what it is as a decimal number.
pub fn read_scalar(raw: &str, number: Option<Json>) -> (r: Json)
    ensures
        forall|n: Option<Option<serde_json::Number>>| #[trigger]
            is_number(number, n) ==> r@ == scalar(raw@, n),
{
    if text::str_eq(raw, "true") {
        return Json::Bool(true);
    }
    if text::str_eq(raw, "false") {
        return Json::Bool(false);
    }
    if text::str_eq(raw, "null") {
        return Json::Null;
    }
    match decimal::parse_int(&text::to_chars(raw)) {
        Some(n) => Json::sint(n),
        None => match number {
            Some(j) => j,
            None => Json::string(raw),
        },
    }
}

/// A JSON value is what reading a decimal number gave.
pub open spec fn is_number(j: Option<Json>, n: Option<Option<serde_json::Number>>) -> bool {
    match n {
        None => j is None,
        Some(None) => j matches Some(v) && v@ == JsonV::Null,
        Some(Some(x)) => j matches Some(v) && v@ == JsonV::Number(x),
    }
}

fn read_value(v: &Vec<char>, i: usize) -> (r: Option<(Json, usize)>)
    requires
        i <= v@.len(),
    ensures
        match r {
            Some((x, j)) => value_at(v@, i as int) == Some((x@, j as int)) && i <= j <= v@.len(),
            None => value_at(v@, i as int) is None,
        },
    decreases v@.len() - i, 1nat,
{
    let total = v.len();
    if starts_with_text(v, i) {
        return match read_text(v, i) {
            Some((t, j)) => Some((Json::Text(t), j)),
            None => None,
        };
    }
    if at(v, i, '{') {
        return match read_members(v, i + 1) {
            Some((m, j)) => Some((m, j)),
            None => None,
        };
    }
    if at(v, i, '[') {
        return match read_items(v, i + 1) {
            Some((list, j)) => {
                let x = Json::Array(list);
                proof {
                    assert(x@->Array_0 =~= json::views(list@));
                }
                Some((x, j))
            },
            None => None,
        };
    }
    let mut end: usize = i;
    while end < v.len() && !(v[end] == ',' || v[end] == '}' || v[end] == ']')
        invariant
            i <= end <= v@.len(),
            scalar_end(v@, i as int) == scalar_end(v@, end as int),
        decreases v.len() - end,
    {
        end = end + 1;
    }
    let raw = text::str_trim(text::substring(v, i, end).as_str());
    let number = Json::decimal(raw.as_str());
    proof {
        assert(is_number(number, json::decimal_number(raw@)));
    }
    Some((read_scalar(raw.as_str(), number), end))
}

fn read_members(v: &Vec<char>, start: usize) -> (r: Option<(Json, usize)>)
    requires
        start <= v@.len(),
    ensures
        match r {
            Some((x, j)) => x@ is Object && members_at(v@, start as int, Map::empty()) == Some(
                (x@->Object_0, j as int),
            ) && start <= j <= v@.len(),
            None => members_at(v@, start as int, Map::empty()) is None,
        },
    decreases v@.len() - start, 2nat,
{
    let total = v.len();
    let mut m = Json::object();
    let mut i: usize = start;
    loop
        invariant
            total == v@.len(),
            start <= i <= total,
            m@ is Object,
            members_at(v@, start as int, Map::empty()) == members_at(v@, i as int, m@->Object_0),
        decreases total - i,
    {
        let a = ws(v, i);
        if at(v, a, '}') {
            return Some((m, a + 1));
        }
        let (k, b) = match read_key(v, a) {
            Some(p) => p,
            None => {
                return None;
            },
        };
        let c = ws(v, b);
        if !at(v, c, ':') {
            return None;
        }
        let d = ws(v, c + 1);
        let (x, e) = match read_value(v, d) {
            Some(p) => p,
            None => {
                return None;
            },
        };
        m = m.with(k.as_str(), x);
        let f = ws(v, e);
        if at(v, f, ',') {
            i = f + 1;
            continue;
        }
        if at(v, f, '}') {
            return Some((m, f + 1));
        }
        return Some((m, f));
    }
}

fn read_items(v: &Vec<char>, start: usize) -> (r: Option<(Vec<Json>, usize)>)
    requires
        start <= v@.len(),
    ensures
        match r {
            Some((x, j)) => items_at(v@, start as int, Seq::empty()) == Some(
                (json::views(x@), j as int),
            ) && start <= j <= v@.len(),
            None => items_at(v@, start as int, Seq::empty()) is None,
        },
    decreases v@.len() - start, 2nat,
{
    let total = v.len();
    let mut list: Vec<Json> = Vec::new();
    let mut i: usize = start;
    proof {
        assert(json::views(list@) =~= Seq::<JsonV>::empty());
    }
    loop
        invariant
            total == v@.len(),
            start <= i <= total,
            items_at(v@, start as int, Seq::empty()) == items_at(
                v@,
                i as int,
                json::views(list@),
            ),
        decreases total - i,
    {
        let a = ws(v, i);
        if at(v, a, ']') {
            return Some((list, a + 1));
        }
        let (x, e) = match read_value(v, a) {
            Some(p) => p,
            None => {
                return None;
            },
        };
        let ghost before = list@;
        let ghost added = x@;
        list.push(x);
        proof {
            assert(json::views(list@) =~= json::views(before).push(added));
        }
        let f = ws(v, e);
        if at(v, f, ',') {
            i = f + 1;
            continue;
        }
        if at(v, f, ']') {
            return Some((list, f + 1));
        }
        return Some((list, f));
    }
}

fn parse_gemma4_call(body: &str) -> (r: Option<(String, Json)>)
    ensures
        match r {
            Some((n, x)) => call_in(body@) == Some((n@, x@)),
            None => call_in(body@) is None,
        },
{
    let all = text::to_chars(body);
    proof {
        reveal_strlit("call:");
        reveal_strlit("{");
    }
    let t = if text::str_starts_with(body, "call:") {
        text::to_chars(text::substring(&all, 5, all.len()).as_str())
    } else {
        all
    };
    proof {
        assert(t@ =~= call_text(body@));
    }
    let total = t.len();
    let open = text::to_chars("{");
    let b = match text::find_chars(&t, &open, 0) {
        Some(b) => b,
        None => {
            return None;
        },
    };
    let head = text::substring(&t, 0, b);
    proof {
        assert(head@ =~= t@.take(b as int));
    }
    let name = text::str_trim(head.as_str());
    if name.as_str().is_empty() {
        return None;
    }
    match read_members(&t, b + 1) {
        Some((m, _)) => Some((name, m)),
        None => None,
    }
}

pub open spec fn call_views(v: Seq<(String, Json)>) -> Seq<(Seq<char>, JsonV)> {
    v.map_values(|c: (String, Json)| (c.0@, c.1@))
}

/// Reads the tool calls of a text, each with its name and its arguments.
pub fn parse_gemma4_tool_calls(s: &str) -> (r: Vec<(String, Json)>)
    ensures
        call_views(r@) == calls_in(s@),
{
    let open = text::to_chars("<|tool_call>");
    let close = text::to_chars("<tool_call|>");
    proof {
        reveal_strlit("<|tool_call>");
        reveal_strlit("<tool_call|>");
    }
    let mut rest = text::to_chars(s);
    let mut out: Vec<(String, Json)> = Vec::new();
    proof {
        assert(call_views(out@) + calls_in(s@) =~= calls_in(s@));
    }
    loop
        invariant
            open@ == "<|tool_call>"@,
            close@ == "<tool_call|>"@,
            open@.len() == 12,
            close@.len() == 12,
            call_views(out@) + calls_in(rest@) == calls_in(s@),
        decreases rest@.len(),
    {
        let total = rest.len();
        let p = match text::find_chars(&rest, &open, 0) {
            Some(p) => p,
            None => {
                proof {
                    assert(call_views(out@) + Seq::<(Seq<char>, JsonV)>::empty()
                        =~= call_views(out@));
                }
                return out;
            },
        };
        let after = text::to_chars(text::substring(&rest, p + 12, total).as_str());
        proof {
            assert(after@ =~= rest@.skip(p + 12));
        }
        let wide = after.len();
        let found = text::find_chars(&after, &close, 0);
        let (body, next) = match found {
            Some(e) => (text::substring(&after, 0, e), text::substring(&after, e + 12, wide)),
            None => (text::from_chars(&after), String::new()),
        };
        proof {
            match found {
                Some(e) => {
                    assert(body@ =~= after@.take(e as int));
                    assert(next@ =~= after@.skip(e + 12));
                },
                None => {
                    assert(body@ =~= after@);
                    assert(next@ =~= Seq::<char>::empty());
                },
            }
        }
        let ghost before = call_views(out@);
        let ghost tail = if 0 < next@.len() < rest@.len() {
            calls_in(next@)
        } else {
            Seq::<(Seq<char>, JsonV)>::empty()
        };
        if let Some(c) = parse_gemma4_call(text::str_trim(body.as_str()).as_str()) {
            let ghost seen = (c.0@, c.1@);
            out.push(c);
            proof {
                assert(call_views(out@) =~= before.push(seen));
                assert(before + (seq![seen] + tail) =~= call_views(out@) + tail);
            }
        }
        if next.as_str().is_empty() {
            proof {
                assert(call_views(out@) + Seq::<(Seq<char>, JsonV)>::empty() =~= call_views(out@));
            }
            return out;
        }
        rest = text::to_chars(next.as_str());
    }
}

// ---- laws -----------------------------------------------------------------------------------------

/// A name that can be written bare as a key.
pub open spec fn bare_key(k: Seq<char>) -> bool {
    &&& k.len() > 0
    &&& !k.contains(':')
    &&& text::trim(k) == k
    &&& !text::is_space(k[0])
    &&& k[0] != '<'
    &&& k[0] != '"'
    &&& k[0] != '}'
}

/// One argument, with a raw text for its value, and the end of the arguments.
pub open spec fn raw_argument(key: Seq<char>, t: Seq<char>) -> Seq<char> {
    key + seq![':'] + quote() + t + quote() + seq!['}']
}

proof fn lemma_char_at(s: Seq<char>, piece: Seq<char>, i: int, k: int)
    requires
        text::occurs_at(s, piece, i),
        0 <= k < piece.len(),
    ensures
        s[i + k] == piece[k],
{
    assert(s.subrange(i, i + piece.len())[k] == s[i + k]);
}

proof fn lemma_raw_argument(s: Seq<char>, i: int, key: Seq<char>, t: Seq<char>)
    requires
        bare_key(key),
        !text::contains(t, quote()),
        text::occurs_at(s, raw_argument(key, t), i),
    ensures
        members_at(s, i, Map::empty()) == Some(
            (
                Map::<Seq<char>, JsonV>::empty().insert(key, JsonV::Text(t)),
                i + raw_argument(key, t).len(),
            ),
        ),
{
    let piece = raw_argument(key, t);
    let n = key.len() as int;
    assert forall|k: int| 0 <= k < piece.len() implies s[i + k] == #[trigger] piece[k] by {
        lemma_char_at(s, piece, i, k);
    }
    // The key ends at the first colon.
    reveal_strlit(":");
    assert(s[i] == piece[0]);
    assert(piece[0] == key[0]);
    assert(skip_ws(s, i) == i);
    assert(!text::occurs_at(s, quote(), i)) by {
        if text::occurs_at(s, quote(), i) {
            assert(s.subrange(i, i + 5)[0] == s[i]);
        }
    }
    assert(piece[n] == ':');
    assert(s[i + n] == ':');
    assert(s.subrange(i + n, i + n + 1) =~= ":"@);
    assert forall|j: int| i <= j < i + n implies !text::occurs_at(s, ":"@, j) by {
        assert(piece[j - i] == key[j - i]);
        assert(s[i + (j - i)] == piece[j - i]);
        if text::occurs_at(s, ":"@, j) {
            assert(s.subrange(j, j + 1)[0] == s[j]);
            assert(":"@[0] == ':');
            assert(key.contains(key[j - i]));
        }
    }
    text::lemma_find_is(s, ":"@, i, i + n);
    assert(s.subrange(i, i + n) =~= key) by {
        assert forall|k: int| 0 <= k < n implies s.subrange(i, i + n)[k] == key[k] by {
            assert(s[i + k] == piece[k]);
        }
    }
    assert(key_at(s, i) == Some((key, i + n)));
    assert(skip_ws(s, i + n) == i + n);
    // The text follows, up to the next mark.
    let d = i + n + 1;
    assert(piece[n + 1] == '<');
    assert(s[i + (n + 1)] == '<');
    assert(skip_ws(s, d) == d);
    assert(text::occurs_at(s, quote(), d)) by {
        assert(s.subrange(d, d + 5) =~= quote()) by {
            assert forall|k: int| 0 <= k < 5 implies s.subrange(d, d + 5)[k] == quote()[k] by {
                assert(piece[n + 1 + k] == quote()[k]);
                assert(s[i + (n + 1 + k)] == piece[n + 1 + k]);
            }
        }
    }
    let from = d + 5;
    let end = from + t.len();
    assert(text::occurs_at(s, quote(), end)) by {
        assert(s.subrange(end, end + 5) =~= quote()) by {
            assert forall|k: int| 0 <= k < 5 implies s.subrange(end, end + 5)[k] == quote()[k] by {
                let w = n + 6 + t.len() + k;
                assert(piece[w] == quote()[k]);
                assert(s[i + w] == piece[w]);
            }
        }
    }
    assert forall|j: int| from <= j < end implies !text::occurs_at(s, quote(), j) by {
        if text::occurs_at(s, quote(), j) {
            if j + 5 <= end {
                assert(t.subrange(j - from, j - from + 5) =~= quote()) by {
                    assert forall|k: int| 0 <= k < 5 implies t.subrange(
                        j - from,
                        j - from + 5,
                    )[k] == quote()[k] by {
                        let w = n + 6 + (j - from) + k;
                        assert(piece[w] == t[j - from + k]);
                        assert(s[i + w] == piece[w]);
                        assert(s.subrange(j, j + 5)[k] == s[j + k]);
                    }
                }
                assert(text::occurs_at(t, quote(), j - from));
            } else {
                let k = end - j;
                assert(s.subrange(j, j + 5)[k] == s[end]);
                assert(s.subrange(end, end + 5)[0] == s[end]);
                assert(quote()[k] == '<');
            }
        }
    }
    text::lemma_find_is(s, quote(), from, end);
    assert(s.subrange(from, end) =~= t) by {
        assert forall|k: int| 0 <= k < t.len() implies s.subrange(from, end)[k] == t[k] by {
            let w = n + 6 + k;
            assert(piece[w] == t[k]);
            assert(s[i + w] == piece[w]);
        }
    }
    assert(text_at(s, d) == Some((t, end + 5)));
    assert(value_at(s, d) == Some((JsonV::Text(t), end + 5)));
    // The closing brace ends the arguments.
    let f = end + 5;
    assert(piece[n + 11 + t.len()] == '}');
    assert(s[i + (n + 11 + t.len())] == '}');
    assert(skip_ws(s, f) == f);
}

/// File contents survive a call intact: whatever text stands between the marks, with its
/// quotes, braces and line ends, is the text of the argument, unless it holds the mark itself.
pub proof fn law_raw_text_survives(name: Seq<char>, key: Seq<char>, t: Seq<char>)
    requires
        name.len() > 0,
        !name.contains('{'),
        text::trim(name) == name,
        bare_key(key),
        !text::contains(t, quote()),
    ensures
        call_in("call:"@ + name + seq!['{'] + raw_argument(key, t)) == Some(
            (
                name,
                JsonV::Object(Map::<Seq<char>, JsonV>::empty().insert(key, JsonV::Text(t))),
            ),
        ),
{
    reveal_strlit("call:");
    reveal_strlit("{");
    let arg = raw_argument(key, t);
    let body = "call:"@ + name + seq!['{'] + arg;
    let rest = name + seq!['{'] + arg;
    assert(body =~= "call:"@ + rest);
    assert(body.subrange(0, 5) =~= "call:"@);
    assert(body.skip(5) =~= rest);
    assert(call_text(body) == rest);
    let b = name.len() as int;
    assert(rest.subrange(b, b + 1) =~= "{"@);
    assert forall|j: int| 0 <= j < b implies !text::occurs_at(rest, "{"@, j) by {
        if text::occurs_at(rest, "{"@, j) {
            assert(rest.subrange(j, j + 1)[0] == name[j]);
            assert("{"@[0] == '{');
            assert(name.contains(name[j]));
        }
    }
    text::lemma_find_is(rest, "{"@, 0, b);
    assert(rest.take(b) =~= name);
    assert(rest.subrange(b + 1, b + 1 + arg.len()) =~= arg);
    assert(text::occurs_at(rest, arg, b + 1));
    lemma_raw_argument(rest, b + 1, key, t);
}

/// An argument: a raw text between marks, a text in double quotes, a bare word, or a list or a group
/// of arguments.
pub enum Argument {
    Raw(Seq<char>),
    Quoted(Seq<char>),
    Bare(Seq<char>),
    Items(Seq<Argument>),
    Group(Seq<(Seq<char>, Argument)>),
}

/// A character as it is written between double quotes.
pub open spec fn escape(c: char) -> Seq<char> {
    if c == '"' {
        seq!['\\', '"']
    } else if c == '\\' {
        seq!['\\', '\\']
    } else if c == '\n' {
        seq!['\\', 'n']
    } else if c == '\t' {
        seq!['\\', 't']
    } else if c == '\r' {
        seq!['\\', 'r']
    } else {
        seq![c]
    }
}

pub open spec fn escaped_text(t: Seq<char>) -> Seq<char>
    decreases t.len(),
{
    if t.len() == 0 {
        Seq::empty()
    } else {
        escape(t[0]) + escaped_text(t.drop_first())
    }
}

pub open spec fn argument_text(a: Argument) -> Seq<char>
    decreases a,
{
    match a {
        Argument::Raw(t) => quote() + t + quote(),
        Argument::Quoted(t) => seq!['"'] + escaped_text(t) + seq!['"'],
        Argument::Bare(w) => w,
        Argument::Items(v) => seq!['['] + items_text(v),
        Argument::Group(v) => seq!['{'] + arguments_text(v),
    }
}

/// Arguments as a call writes them, with the brace that ends them.
pub open spec fn arguments_text(list: Seq<(Seq<char>, Argument)>) -> Seq<char>
    decreases list,
{
    if list.len() == 0 {
        seq!['}']
    } else {
        list[0].0 + seq![':'] + argument_text(list[0].1) + (if list.len() == 1 {
            seq!['}']
        } else {
            seq![','] + arguments_text(list.subrange(1, list.len() as int))
        })
    }
}

/// Items as a call writes them, with the bracket that ends them.
pub open spec fn items_text(list: Seq<Argument>) -> Seq<char>
    decreases list,
{
    if list.len() == 0 {
        seq![']']
    } else {
        argument_text(list[0]) + (if list.len() == 1 {
            seq![']']
        } else {
            seq![','] + items_text(list.subrange(1, list.len() as int))
        })
    }
}

/// The argument can be told from what stands around it: a raw text does not hold the mark, and a
/// bare word begins nothing else and holds nothing that ends it.
pub open spec fn argument_ok(a: Argument) -> bool
    decreases a,
{
    match a {
        Argument::Raw(t) => !text::contains(t, quote()),
        Argument::Quoted(_) => true,
        Argument::Bare(w) => {
            &&& w.len() > 0
            &&& text::trim(w) == w
            &&& !text::is_space(w[0])
            &&& !text::is_space(w.last())
            &&& w[0] != '<' && w[0] != '"' && w[0] != '{' && w[0] != '['
            &&& forall|i: int|
                0 <= i < w.len() ==> #[trigger] w[i] != ',' && w[i] != '}' && w[i] != ']'
        },
        Argument::Items(v) => items_ok(v),
        Argument::Group(v) => arguments_ok(v),
    }
}

pub open spec fn arguments_ok(list: Seq<(Seq<char>, Argument)>) -> bool
    decreases list,
{
    list.len() > 0 ==> bare_key(list[0].0) && argument_ok(list[0].1) && arguments_ok(
        list.subrange(1, list.len() as int),
    )
}

pub open spec fn items_ok(list: Seq<Argument>) -> bool
    decreases list,
{
    list.len() > 0 ==> argument_ok(list[0]) && items_ok(list.subrange(1, list.len() as int))
}

pub open spec fn argument_value(a: Argument) -> JsonV
    decreases a,
{
    match a {
        Argument::Raw(t) => JsonV::Text(t),
        Argument::Quoted(t) => JsonV::Text(t),
        Argument::Bare(w) => scalar(w, json::decimal_number(w)),
        Argument::Items(v) => JsonV::Array(with_items(Seq::empty(), v)),
        Argument::Group(v) => JsonV::Object(with_arguments(Map::empty(), v)),
    }
}

/// The members that the arguments add, one after the other.
pub open spec fn with_arguments(
    m: Map<Seq<char>, JsonV>,
    list: Seq<(Seq<char>, Argument)>,
) -> Map<Seq<char>, JsonV>
    decreases list,
{
    if list.len() == 0 {
        m
    } else {
        with_arguments(
            m.insert(list[0].0, argument_value(list[0].1)),
            list.subrange(1, list.len() as int),
        )
    }
}

/// The items that the arguments add, one after the other.
pub open spec fn with_items(v: Seq<JsonV>, list: Seq<Argument>) -> Seq<JsonV>
    decreases list,
{
    if list.len() == 0 {
        v
    } else {
        with_items(v.push(argument_value(list[0])), list.subrange(1, list.len() as int))
    }
}

proof fn lemma_key(s: Seq<char>, i: int, key: Seq<char>, tail: Seq<char>)
    requires
        bare_key(key),
        text::occurs_at(s, key + seq![':'] + tail, i),
    ensures
        skip_ws(s, i) == i,
        !is_at(s, i, '}'),
        key_at(s, i) == Some((key, i + key.len())),
        is_at(s, i + key.len(), ':'),
        skip_ws(s, i + key.len()) == i + key.len(),
{
    let piece = key + seq![':'] + tail;
    let n = key.len() as int;
    reveal_strlit(":");
    assert forall|k: int| 0 <= k < piece.len() implies s[i + k] == #[trigger] piece[k] by {
        lemma_char_at(s, piece, i, k);
    }
    assert(s[i] == piece[0]);
    assert(piece[0] == key[0]);
    assert(!text::occurs_at(s, quote(), i)) by {
        if text::occurs_at(s, quote(), i) {
            assert(s.subrange(i, i + 5)[0] == s[i]);
        }
    }
    assert(piece[n] == ':');
    assert(s[i + n] == ':');
    assert(s.subrange(i + n, i + n + 1) =~= ":"@);
    assert forall|j: int| i <= j < i + n implies !text::occurs_at(s, ":"@, j) by {
        assert(piece[j - i] == key[j - i]);
        assert(s[i + (j - i)] == piece[j - i]);
        if text::occurs_at(s, ":"@, j) {
            assert(s.subrange(j, j + 1)[0] == s[j]);
            assert(":"@[0] == ':');
            assert(key.contains(key[j - i]));
        }
    }
    text::lemma_find_is(s, ":"@, i, i + n);
    assert(s.subrange(i, i + n) =~= key) by {
        assert forall|k: int| 0 <= k < n implies s.subrange(i, i + n)[k] == key[k] by {
            assert(s[i + k] == piece[k]);
        }
    }
}

proof fn lemma_raw(s: Seq<char>, d: int, t: Seq<char>, tail: Seq<char>)
    requires
        !text::contains(t, quote()),
        text::occurs_at(s, quote() + t + quote() + tail, d),
    ensures
        skip_ws(s, d) == d,
        value_at(s, d) == Some((JsonV::Text(t), d + 10 + t.len())),
{
    let piece = quote() + t + quote() + tail;
    assert forall|k: int| 0 <= k < piece.len() implies s[d + k] == #[trigger] piece[k] by {
        lemma_char_at(s, piece, d, k);
    }
    assert(piece[0] == '<');
    assert(s[d + 0] == '<');
    assert(text::occurs_at(s, quote(), d)) by {
        assert forall|k: int| 0 <= k < 5 implies s.subrange(d, d + 5)[k] == quote()[k] by {
            assert(piece[k] == quote()[k]);
            assert(s[d + k] == piece[k]);
        }
        assert(s.subrange(d, d + 5) =~= quote());
    }
    let from = d + 5;
    let end = from + t.len();
    assert(text::occurs_at(s, quote(), end)) by {
        assert forall|k: int| 0 <= k < 5 implies s.subrange(end, end + 5)[k] == quote()[k] by {
            let w = 5 + t.len() + k;
            assert(piece[w] == quote()[k]);
            assert(s[d + w] == piece[w]);
        }
        assert(s.subrange(end, end + 5) =~= quote());
    }
    assert forall|j: int| from <= j < end implies !text::occurs_at(s, quote(), j) by {
        if text::occurs_at(s, quote(), j) {
            if j + 5 <= end {
                assert(t.subrange(j - from, j - from + 5) =~= quote()) by {
                    assert forall|k: int| 0 <= k < 5 implies t.subrange(
                        j - from,
                        j - from + 5,
                    )[k] == quote()[k] by {
                        let w = 5 + (j - from) + k;
                        assert(piece[w] == t[j - from + k]);
                        assert(s[d + w] == piece[w]);
                        assert(s.subrange(j, j + 5)[k] == s[j + k]);
                    }
                }
                assert(text::occurs_at(t, quote(), j - from));
            } else {
                let k = end - j;
                assert(s.subrange(j, j + 5)[k] == s[end]);
                assert(s.subrange(end, end + 5)[0] == s[end]);
                assert(quote()[k] == '<');
            }
        }
    }
    text::lemma_find_is(s, quote(), from, end);
    assert(s.subrange(from, end) =~= t) by {
        assert forall|k: int| 0 <= k < t.len() implies s.subrange(from, end)[k] == t[k] by {
            let w = 5 + k;
            assert(piece[w] == t[k]);
            assert(s[d + w] == piece[w]);
        }
    }
}

proof fn lemma_scalar_word(s: Seq<char>, i: int, w: Seq<char>, c: char)
    requires
        0 <= i,
        i + w.len() < s.len(),
        s[i + w.len()] == c,
        ends_scalar(c),
        forall|k: int| 0 <= k < w.len() ==> s[i + k] == #[trigger] w[k],
        forall|k: int| 0 <= k < w.len() ==> #[trigger] w[k] != ',' && w[k] != '}' && w[k] != ']',
    ensures
        scalar_end(s, i) == i + w.len(),
    decreases w.len(),
{
    if w.len() > 0 {
        assert(s[i + 0] == w[0]);
        let rest = w.drop_first();
        assert forall|k: int| 0 <= k < rest.len() implies s[i + 1 + k] == #[trigger] rest[k] && rest[k]
            != ',' && rest[k] != '}' && rest[k] != ']' by {
            assert(rest[k] == w[k + 1]);
            assert(s[i + (k + 1)] == w[k + 1]);
        }
        lemma_scalar_word(s, i + 1, rest, c);
    }
}

proof fn lemma_bare(s: Seq<char>, d: int, w: Seq<char>, tail: Seq<char>)
    requires
        argument_ok(Argument::Bare(w)),
        tail.len() > 0,
        tail[0] == ',' || tail[0] == '}' || tail[0] == ']',
        text::occurs_at(s, w + tail, d),
    ensures
        skip_ws(s, d) == d,
        value_at(s, d) == Some((scalar(w, json::decimal_number(w)), d + w.len())),
{
    let piece = w + tail;
    assert forall|k: int| 0 <= k < piece.len() implies s[d + k] == #[trigger] piece[k] by {
        lemma_char_at(s, piece, d, k);
    }
    assert forall|k: int| 0 <= k < w.len() implies s[d + k] == #[trigger] w[k] by {
        assert(piece[k] == w[k]);
    }
    assert(piece[w.len() as int] == tail[0]);
    assert(s[d + w.len()] == tail[0]);
    assert(s[d + 0] == w[0]);
    assert(!text::occurs_at(s, quote(), d)) by {
        if text::occurs_at(s, quote(), d) {
            assert(s.subrange(d, d + 5)[0] == s[d]);
        }
    }
    lemma_scalar_word(s, d, w, tail[0]);
    assert(s.subrange(d, d + w.len()) =~= w);
}

proof fn lemma_quoted_back(s: Seq<char>, i: int, t: Seq<char>, tail: Seq<char>)
    requires
        text::occurs_at(s, escaped_text(t) + seq!['"'] + tail, i),
    ensures
        quoted(s, i, false) == Some((t, i + escaped_text(t).len() + 1)),
    decreases t.len(),
{
    let piece = escaped_text(t) + seq!['"'] + tail;
    assert forall|k: int| 0 <= k < piece.len() implies s[i + k] == #[trigger] piece[k] by {
        lemma_char_at(s, piece, i, k);
    }
    if t.len() == 0 {
        assert(piece[0] == '"');
        assert(s[i + 0] == '"');
        assert(t =~= Seq::<char>::empty());
    } else {
        let e = escape(t[0]);
        let rest = t.drop_first();
        let n = e.len() as int;
        let next = escaped_text(rest) + seq!['"'] + tail;
        assert(piece =~= e + next);
        assert(s.subrange(i + n, i + n + next.len()) =~= next) by {
            assert forall|k: int| 0 <= k < next.len() implies s.subrange(
                i + n,
                i + n + next.len(),
            )[k] == next[k] by {
                assert(piece[n + k] == next[k]);
                assert(s[i + (n + k)] == piece[n + k]);
            }
        }
        lemma_quoted_back(s, i + n, rest, tail);
        assert(seq![t[0]] + rest =~= t);
        assert(piece[0] == e[0]);
        assert(s[i + 0] == e[0]);
        if n == 2 {
            assert(piece[1] == e[1]);
            assert(s[i + 1] == e[1]);
            assert(quoted(s, i, false) == quoted(s, i + 1, true));
            assert(unescaped(e[1]) == t[0]);
        }
    }
}

proof fn lemma_first_char(a: Argument)
    requires
        argument_ok(a),
    ensures
        argument_text(a).len() > 0,
        !text::is_space(argument_text(a)[0]),
        argument_text(a)[0] != ']',
{
    match a {
        Argument::Raw(t) => {
            assert(argument_text(a)[0] == '<');
        },
        Argument::Bare(w) => {
            assert(w[0] != ']');
        },
        _ => {},
    }
}

proof fn lemma_value(s: Seq<char>, d: int, a: Argument, tail: Seq<char>)
    requires
        argument_ok(a),
        tail.len() > 0,
        tail[0] == ',' || tail[0] == '}' || tail[0] == ']',
        text::occurs_at(s, argument_text(a) + tail, d),
    ensures
        skip_ws(s, d) == d,
        value_at(s, d) == Some((argument_value(a), d + argument_text(a).len())),
    decreases a,
{
    let at = argument_text(a);
    lemma_first_char(a);
    lemma_char_at(s, at + tail, d, 0);
    assert((at + tail)[0] == at[0]);
    assert(s[d] == at[0]);
    match a {
        Argument::Raw(t) => {
            assert(at + tail =~= quote() + t + quote() + tail);
            lemma_raw(s, d, t, tail);
        },
        Argument::Bare(w) => {
            lemma_bare(s, d, w, tail);
        },
        Argument::Quoted(t) => {
            let inner = escaped_text(t) + seq!['"'] + tail;
            assert(at + tail =~= seq!['"'] + inner);
            lemma_not_raw(s, d);
            lemma_rest(s, d, at + tail, 1, inner);
            lemma_quoted_back(s, d + 1, t, tail);
        },
        Argument::Items(v) => {
            let inner = items_text(v);
            assert(at + tail =~= seq!['['] + inner + tail);
            lemma_not_raw(s, d);
            lemma_rest(s, d, at + tail, 1, inner);
            lemma_items(s, d + 1, v, Seq::empty());
        },
        Argument::Group(v) => {
            let inner = arguments_text(v);
            assert(at + tail =~= seq!['{'] + inner + tail);
            lemma_not_raw(s, d);
            lemma_rest(s, d, at + tail, 1, inner);
            lemma_arguments(s, d + 1, v, Map::empty());
        },
    }
}

proof fn lemma_not_raw(s: Seq<char>, d: int)
    requires
        0 <= d < s.len(),
        s[d] != '<',
    ensures
        !text::occurs_at(s, quote(), d),
{
    if text::occurs_at(s, quote(), d) {
        assert(s.subrange(d, d + 5)[0] == s[d]);
        assert(quote()[0] == '<');
    }
}

/// What stands in a text that stands in another, from `n` on, stands there `n` further on.
proof fn lemma_rest(s: Seq<char>, i: int, whole: Seq<char>, n: int, inner: Seq<char>)
    requires
        text::occurs_at(s, whole, i),
        0 <= n,
        n + inner.len() <= whole.len(),
        whole.subrange(n, n + inner.len()) =~= inner,
    ensures
        text::occurs_at(s, inner, i + n),
{
    assert(s.subrange(i + n, i + n + inner.len()) =~= inner) by {
        assert forall|k: int| 0 <= k < inner.len() implies s.subrange(
            i + n,
            i + n + inner.len(),
        )[k] == inner[k] by {
            lemma_char_at(s, whole, i, n + k);
            assert(whole.subrange(n, n + inner.len())[k] == whole[n + k]);
        }
    }
}

proof fn lemma_items(s: Seq<char>, i: int, list: Seq<Argument>, v: Seq<JsonV>)
    requires
        text::occurs_at(s, items_text(list), i),
        items_ok(list),
    ensures
        items_at(s, i, v) == Some((with_items(v, list), i + items_text(list).len())),
    decreases list,
{
    let whole = items_text(list);
    lemma_char_at(s, whole, i, 0);
    if list.len() == 0 {
        assert(skip_ws(s, i) == i);
    } else {
        let a = list[0];
        let rest = list.subrange(1, list.len() as int);
        let at = argument_text(a);
        let tail = if list.len() == 1 {
            seq![']']
        } else {
            seq![','] + items_text(rest)
        };
        assert(whole =~= at + tail);
        lemma_first_char(a);
        assert(whole[0] == at[0]);
        lemma_value(s, i, a, tail);
        let f = i + at.len();
        lemma_char_at(s, whole, i, at.len() as int);
        assert(whole[at.len() as int] == tail[0]);
        assert(s[f] == tail[0]);
        assert(skip_ws(s, f) == f);
        let more = v.push(argument_value(a));
        if list.len() == 1 {
            assert(with_items(more, rest) == more);
        } else {
            lemma_rest(s, i, whole, at.len() as int + 1, items_text(rest));
            lemma_items(s, f + 1, rest, more);
        }
    }
}

proof fn lemma_arguments(
    s: Seq<char>,
    i: int,
    list: Seq<(Seq<char>, Argument)>,
    m: Map<Seq<char>, JsonV>,
)
    requires
        text::occurs_at(s, arguments_text(list), i),
        arguments_ok(list),
    ensures
        members_at(s, i, m) == Some((with_arguments(m, list), i + arguments_text(list).len())),
    decreases list,
{
    let whole = arguments_text(list);
    if list.len() == 0 {
        lemma_char_at(s, whole, i, 0);
        assert(skip_ws(s, i) == i);
    } else {
        let (key, a) = list[0];
        let rest = list.subrange(1, list.len() as int);
        let at = argument_text(a);
        let tail = if list.len() == 1 {
            seq!['}']
        } else {
            seq![','] + arguments_text(rest)
        };
        let n = key.len() as int;
        assert(whole =~= key + seq![':'] + (at + tail));
        lemma_key(s, i, key, at + tail);
        let d = i + n + 1;
        lemma_rest(s, i, whole, n + 1, at + tail);
        lemma_value(s, d, list[0].1, tail);
        let f = d + at.len();
        lemma_char_at(s, at + tail, d, at.len() as int);
        assert((at + tail)[at.len() as int] == tail[0]);
        assert(s[f] == tail[0]);
        assert(skip_ws(s, f) == f);
        let more = m.insert(key, argument_value(a));
        if list.len() == 1 {
            assert(with_arguments(more, rest) == more);
        } else {
            lemma_rest(s, d, at + tail, at.len() as int + 1, arguments_text(rest));
            lemma_arguments(s, f + 1, rest, more);
        }
    }
}

/// The arguments of a call are read as they are written: each under its key, a raw text as it
/// stands between its marks, a text in double quotes without its escapes, a bare word as what it
/// means, and lists and groups of these in order, however many and however deep.
pub proof fn law_arguments_are_read(name: Seq<char>, list: Seq<(Seq<char>, Argument)>)
    requires
        name.len() > 0,
        !name.contains('{'),
        text::trim(name) == name,
        arguments_ok(list),
    ensures
        call_in("call:"@ + name + seq!['{'] + arguments_text(list)) == Some(
            (name, JsonV::Object(with_arguments(Map::empty(), list))),
        ),
{
    reveal_strlit("call:");
    reveal_strlit("{");
    let arg = arguments_text(list);
    let body = "call:"@ + name + seq!['{'] + arg;
    let rest = name + seq!['{'] + arg;
    assert(body =~= "call:"@ + rest);
    assert(body.subrange(0, 5) =~= "call:"@);
    assert(body.skip(5) =~= rest);
    assert(call_text(body) == rest);
    let b = name.len() as int;
    assert(rest.subrange(b, b + 1) =~= "{"@);
    assert forall|j: int| 0 <= j < b implies !text::occurs_at(rest, "{"@, j) by {
        if text::occurs_at(rest, "{"@, j) {
            assert(rest.subrange(j, j + 1)[0] == name[j]);
            assert("{"@[0] == '{');
            assert(name.contains(name[j]));
        }
    }
    text::lemma_find_is(rest, "{"@, 0, b);
    assert(rest.take(b) =~= name);
    assert(rest.subrange(b + 1, b + 1 + arg.len()) =~= arg);
    assert(text::occurs_at(rest, arg, b + 1));
    lemma_arguments(rest, b + 1, list, Map::empty());
}

/// What a bare word means: a constant, an integer, a decimal number, or else itself.
pub proof fn law_bare_words(n: nat, w: Seq<char>, number: Option<Option<serde_json::Number>>)
    ensures
        scalar("true"@, number) == JsonV::Bool(true),
        scalar("false"@, number) == JsonV::Bool(false),
        scalar("null"@, number) == JsonV::Null,
        n <= i64::MAX ==> scalar(decimal::dec(n), number) == JsonV::Number(json::uint(n as u64)),
        0 < n <= i64::MAX ==> scalar(seq!['-'] + decimal::dec(n), number) == JsonV::Number(
            json::sint((-n) as i64),
        ),
        w != "true"@ && w != "false"@ && w != "null"@ && decimal::int_value(w) is None ==> scalar(
            w,
            number,
        ) == (match number {
            Some(Some(x)) => JsonV::Number(x),
            Some(None) => JsonV::Null,
            None => JsonV::Text(w),
        }),
{
    reveal_strlit("true");
    reveal_strlit("false");
    reveal_strlit("null");
    assert("true"@[0] == 't' && "false"@[0] == 'f' && "null"@[0] == 'n');
    decimal::law_written_numbers_read_back(n);
    let d = decimal::dec(n);
    assert(d.len() > 0);
    assert(decimal::is_digit(d[0]));
    assert(decimal::int_value(d) == (if n <= i64::MAX {
        Some(n as int)
    } else {
        None
    }));
    let m = seq!['-'] + d;
    assert(m.skip(1) =~= d);
    assert(m[0] == '-');
    if 0 < n <= i64::MAX {
        assert(decimal::int_value(m) == Some(-(n as int)));
    }
}

/// The calls of a text come one after the other: up to the first opener there is none, a call goes
/// up to its end marker, and the rest has its own.
pub proof fn law_calls_follow(before: Seq<char>, body: Seq<char>, after: Seq<char>)
    ensures
        !text::contains(before, "<|tool_call>"@) ==> calls_in(before) == Seq::<
            (Seq<char>, JsonV),
        >::empty(),
        (forall|j: int|
            0 <= j < before.len() ==> !#[trigger] text::occurs_at(
                before + "<|tool_call>"@ + body + "<tool_call|>"@ + after,
                "<|tool_call>"@,
                j,
            )) && (forall|j: int|
            0 <= j < body.len() ==> !#[trigger] text::occurs_at(
                body + "<tool_call|>"@ + after,
                "<tool_call|>"@,
                j,
            )) ==> calls_in(before + "<|tool_call>"@ + body + "<tool_call|>"@ + after) == (
        match call_in(text::trim(body)) {
            Some(c) => seq![c] + calls_in(after),
            None => calls_in(after),
        }),
{
    reveal_strlit("<|tool_call>");
    reveal_strlit("<tool_call|>");
    text::lemma_contains_find(before, "<|tool_call>"@);
    let s = before + "<|tool_call>"@ + body + "<tool_call|>"@ + after;
    let rest = body + "<tool_call|>"@ + after;
    let p = before.len() as int;
    if (forall|j: int|
        0 <= j < before.len() ==> !#[trigger] text::occurs_at(s, "<|tool_call>"@, j)) && (forall|
        j: int,
    |
        0 <= j < body.len() ==> !#[trigger] text::occurs_at(rest, "<tool_call|>"@, j)) {
        assert(s.subrange(p, p + 12) =~= "<|tool_call>"@);
        text::lemma_find_is(s, "<|tool_call>"@, 0, p);
        assert(s.skip(p + 12) =~= rest);
        let e = body.len() as int;
        assert(rest.subrange(e, e + 12) =~= "<tool_call|>"@);
        text::lemma_find_is(rest, "<tool_call|>"@, 0, e);
        assert(rest.take(e) =~= body);
        assert(rest.skip(e + 12) =~= after);
        if after.len() == 0 {
            text::lemma_contains_find(after, "<|tool_call>"@);
            assert(calls_in(after) =~= Seq::<(Seq<char>, JsonV)>::empty());
        }
    }
}

} // verus!
