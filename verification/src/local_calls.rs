//! Reading tool calls out of a local model's raw output.
//!
//! The model is taught to write `<tool_call>` around JSON. Where it ignores the tags, a
//! fenced block with the right JSON counts too.
use vstd::prelude::*;

use crate::json;
use crate::json::Json;
use crate::json::JsonV;
use crate::text;

verus! {

/// The bodies between the tags, trimmed. One without an end tag takes the rest.
pub open spec fn tagged(s: Seq<char>) -> Seq<Seq<char>>
    decreases s.len(),
{
    match text::find(s, "<tool_call>"@) {
        None => seq![],
        Some(p) => {
            let after = s.skip(p + 11);
            let (body, next) = match text::find(after, "</tool_call>"@) {
                Some(e) => (after.take(e), after.skip(e + 12)),
                None => (after, Seq::empty()),
            };
            seq![text::trim(body)] + if 0 < next.len() < s.len() {
                tagged(next)
            } else {
                seq![]
            }
        },
    }
}

/// The pieces between fences.
pub open spec fn split_fences(s: Seq<char>) -> Seq<Seq<char>>
    decreases s.len(),
{
    match text::find(s, "```"@) {
        None => seq![s],
        Some(p) => if 0 <= p && p + 3 <= s.len() {
            seq![s.take(p)] + split_fences(s.skip(p + 3))
        } else {
            seq![s]
        },
    }
}

/// What a fenced block holds, without the word that names its language.
pub open spec fn fence_body(block: Seq<char>) -> Seq<char> {
    text::trim(
        if text::starts_with(block, "json"@) {
            block.skip(4)
        } else {
            block
        },
    )
}

/// The block looks like a tool call.
pub open spec fn looks_like_call(body: Seq<char>) -> bool {
    text::starts_with(body, "{"@) && text::contains(body, "\"name\""@)
}

/// The bodies of the blocks among the pieces; every second piece is one, beginning with the
/// one at `i`.
pub open spec fn fenced(pieces: Seq<Seq<char>>, i: int) -> Seq<Seq<char>>
    decreases pieces.len() - i + 1,
{
    if i < 0 || i >= pieces.len() {
        seq![]
    } else {
        let body = fence_body(pieces[i]);
        let rest = fenced(pieces, i + 2);
        if looks_like_call(body) {
            seq![body] + rest
        } else {
            rest
        }
    }
}

/// The texts that may be tool calls.
pub open spec fn blocks(s: Seq<char>) -> Seq<Seq<char>> {
    if tagged(s).len() > 0 {
        tagged(s)
    } else {
        fenced(split_fences(s), 1)
    }
}

pub struct LocalToolCall {
    pub name: String,
    pub args: Json,
}

pub struct LocalCallV {
    pub name: Seq<char>,
    pub args: JsonV,
}

impl View for LocalToolCall {
    type V = LocalCallV;

    open spec fn view(&self) -> LocalCallV {
        LocalCallV { name: self.name@, args: self.args@ }
    }
}

pub open spec fn call_views(v: Seq<LocalToolCall>) -> Seq<LocalCallV> {
    v.map_values(|c: LocalToolCall| c@)
}

pub open spec fn empty_object() -> JsonV {
    JsonV::Object(json::no_members())
}

/// The arguments as the model gave them, under either name.
pub open spec fn given_args(v: JsonV) -> JsonV {
    match v.get("arguments"@) {
        Some(a) => a,
        None => match v.get("parameters"@) {
            Some(a) => a,
            None => empty_object(),
        },
    }
}

/// The call that a value describes; arguments written as a text are read once more.
pub open spec fn call_of(v: JsonV) -> Option<LocalCallV> {
    match v.get_text("name"@) {
        None => None,
        Some(name) => Some(
            LocalCallV {
                name,
                args: match given_args(v) {
                    JsonV::Text(s) => match json::parsed(s) {
                        Ok(a) => a,
                        Err(_) => empty_object(),
                    },
                    other => other,
                },
            },
        ),
    }
}

pub open spec fn call_in(block: Seq<char>) -> Option<LocalCallV> {
    match json::parsed(block) {
        Ok(v) => call_of(v),
        Err(_) => None,
    }
}

pub open spec fn calls_in(list: Seq<Seq<char>>) -> Seq<LocalCallV>
    decreases list.len(),
{
    if list.len() == 0 {
        seq![]
    } else {
        match call_in(list.last()) {
            Some(c) => calls_in(list.drop_last()).push(c),
            None => calls_in(list.drop_last()),
        }
    }
}

fn tagged_blocks(s: &str) -> (r: Vec<String>)
    ensures
        text::texts(r@) == tagged(s@),
{
    let open = text::to_chars("<tool_call>");
    let close = text::to_chars("</tool_call>");
    proof {
        reveal_strlit("<tool_call>");
        reveal_strlit("</tool_call>");
    }
    let mut rest = text::to_chars(s);
    let mut out: Vec<String> = Vec::new();
    proof {
        assert(text::texts(out@) + tagged(s@) =~= tagged(s@));
    }
    loop
        invariant
            open@ == "<tool_call>"@,
            close@ == "</tool_call>"@,
            open@.len() == 11,
            close@.len() == 12,
            text::texts(out@) + tagged(rest@) == tagged(s@),
        decreases rest@.len(),
    {
        let total = rest.len();
        let p = match text::find_chars(&rest, &open, 0) {
            Some(p) => p,
            None => {
                proof {
                    assert(text::texts(out@) + Seq::<Seq<char>>::empty() =~= text::texts(out@));
                }
                return out;
            },
        };
        let after = text::to_chars(text::substring(&rest, p + 11, total).as_str());
        proof {
            assert(after@ =~= rest@.skip(p + 11));
        }
        let wide = after.len();
        let found = text::find_chars(&after, &close, 0);
        let (body, next) = match found {
            Some(e) => (text::substring(&after, 0, e), text::substring(&after, e + 12, wide)),
            None => (text::from_chars(&after), String::new()),
        };
        proof {
            match found {
                Some(e) => {
                    assert(body@ =~= after@.take(e as int));
                    assert(next@ =~= after@.skip(e + 12));
                },
                None => {
                    assert(body@ =~= after@);
                    assert(next@ =~= Seq::<char>::empty());
                },
            }
        }
        let ghost before = text::texts(out@);
        let block = text::str_trim(body.as_str());
        let ghost seen = block@;
        out.push(block);
        proof {
            let tail = if 0 < next@.len() < rest@.len() {
                tagged(next@)
            } else {
                Seq::<Seq<char>>::empty()
            };
            assert(text::texts(out@) =~= before.push(seen));
            assert(before + (seq![seen] + tail) =~= text::texts(out@) + tail);
        }
        if next.as_str().is_empty() {
            proof {
                assert(text::texts(out@) + Seq::<Seq<char>>::empty() =~= text::texts(out@));
            }
            return out;
        }
        rest = text::to_chars(next.as_str());
    }
}

fn fence_pieces(s: &str) -> (r: Vec<String>)
    ensures
        text::texts(r@) == split_fences(s@),
{
    let fence = text::to_chars("```");
    proof {
        reveal_strlit("```");
    }
    let mut rest = text::to_chars(s);
    let mut out: Vec<String> = Vec::new();
    proof {
        assert(text::texts(out@) + split_fences(s@) =~= split_fences(s@));
    }
    loop
        invariant
            fence@ == "```"@,
            fence@.len() == 3,
            text::texts(out@) + split_fences(rest@) == split_fences(s@),
        decreases rest@.len(),
    {
        let total = rest.len();
        let ghost before = text::texts(out@);
        match text::find_chars(&rest, &fence, 0) {
            None => {
                let last = text::from_chars(&rest);
                let ghost seen = last@;
                out.push(last);
                proof {
                    assert(text::texts(out@) =~= before + seq![seen]);
                }
                return out;
            },
            Some(p) => {
                let piece = text::substring(&rest, 0, p);
                let ghost seen = piece@;
                let next = text::to_chars(text::substring(&rest, p + 3, total).as_str());
                out.push(piece);
                proof {
                    assert(seen =~= rest@.take(p as int));
                    assert(next@ =~= rest@.skip(p + 3));
                    assert(text::texts(out@) =~= before.push(seen));
                    assert(before + (seq![seen] + split_fences(next@)) =~= text::texts(out@)
                        + split_fences(next@));
                }
                rest = next;
            },
        }
    }
}

/// The texts that may be tool calls: what stands between the tags, or else fenced blocks.
pub fn extract_tool_blocks(s: &str) -> (r: Vec<String>)
    ensures
        text::texts(r@) == blocks(s@),
{
    let tags = tagged_blocks(s);
    proof {
        assert(text::texts(tags@).len() == tags@.len());
    }
    if tags.len() > 0 {
        return tags;
    }
    let pieces = fence_pieces(s);
    let ghost all = text::texts(pieces@);
    let total = pieces.len();
    let mut out: Vec<String> = Vec::new();
    let mut i: usize = 1;
    proof {
        reveal_strlit("json");
        assert(text::texts(out@) + fenced(all, 1) =~= fenced(all, 1));
    }
    while i < total
        invariant
            all == text::texts(pieces@),
            total == pieces@.len(),
            "json"@.len() == 4,
            tagged(s@).len() == 0,
            all == split_fences(s@),
            text::texts(out@) + fenced(all, i as int) == fenced(all, 1),
        decreases total - i,
    {
        let block = pieces[i].as_str();
        let inner = if text::str_starts_with(block, "json") {
            let v = text::to_chars(block);
            let t = text::substring(&v, 4, v.len());
            proof {
                assert(t@ =~= block@.skip(4));
            }
            t
        } else {
            text::copy(block)
        };
        let body = text::str_trim(inner.as_str());
        let ghost before = text::texts(out@);
        let ghost seen = body@;
        proof {
            assert(all[i as int] == block@);
            assert(seen == fence_body(all[i as int]));
        }
        if text::str_starts_with(body.as_str(), "{") && text::str_contains(
            body.as_str(),
            "\"name\"",
        ) {
            out.push(body);
            proof {
                assert(text::texts(out@) =~= before.push(seen));
                assert(before + (seq![seen] + fenced(all, i + 2)) =~= text::texts(out@) + fenced(
                    all,
                    i + 2,
                ));
            }
        }
        if total - i <= 2 {
            proof {
                assert(fenced(all, i + 2) =~= Seq::<Seq<char>>::empty());
                assert(text::texts(out@) + Seq::<Seq<char>>::empty() =~= text::texts(out@));
            }
            return out;
        }
        i = i + 2;
    }
    proof {
        assert(text::texts(out@) + Seq::<Seq<char>>::empty() =~= text::texts(out@));
    }
    out
}

/// The call that a value describes.
pub fn read_call(v: &Json) -> (r: Option<LocalToolCall>)
    ensures
        match r {
            Some(c) => call_of(v@) == Some(c@),
            None => call_of(v@) is None,
        },
{
    let name = match v.get_str("name") {
        Some(s) => text::copy(s),
        None => {
            return None;
        },
    };
    let given = match v.get("arguments") {
        Some(a) => a.copy(),
        None => match v.get("parameters") {
            Some(a) => a.copy(),
            None => Json::object(),
        },
    };
    let args = match given {
        Json::Text(s) => match json::parse(s.as_str()) {
            Ok(a) => a,
            Err(_) => Json::object(),
        },
        other => other,
    };
    Some(LocalToolCall { name, args })
}

/// Reads the tool calls of a text; a block that holds no call is passed over.
pub fn parse_local_tool_calls(s: &str) -> (r: Vec<LocalToolCall>)
    ensures
        call_views(r@) == calls_in(blocks(s@)),
{
    let list = extract_tool_blocks(s);
    let ghost all = text::texts(list@);
    let mut out: Vec<LocalToolCall> = Vec::new();
    let mut i: usize = 0;
    proof {
        assert(all.take(0) =~= Seq::<Seq<char>>::empty());
        assert(call_views(out@) =~= calls_in(all.take(0)));
    }
    while i < list.len()
        invariant
            all == text::texts(list@),
            i <= list@.len(),
            call_views(out@) == calls_in(all.take(i as int)),
        decreases list.len() - i,
    {
        proof {
            assert(all.take(i as int + 1).drop_last() =~= all.take(i as int));
            assert(all.take(i as int + 1).last() == list@[i as int]@);
        }
        let ghost before = out@;
        if let Ok(v) = json::parse(list[i].as_str()) {
            if let Some(c) = read_call(&v) {
                let ghost seen = c@;
                out.push(c);
                proof {
                    assert(call_views(out@) =~= call_views(before).push(seen));
                }
            }
        }
        i = i + 1;
    }
    proof {
        assert(all.take(i as int) =~= all);
    }
    out
}

// ---- laws ---------------------------------------------------------------------------------------

/// Prose without a tag and without a fence holds no call.
pub proof fn law_prose_has_no_calls(s: Seq<char>)
    requires
        !text::contains(s, "<tool_call>"@),
        !text::contains(s, "```"@),
    ensures
        calls_in(blocks(s)) == Seq::<LocalCallV>::empty(),
{
    text::lemma_contains_find(s, "<tool_call>"@);
    text::lemma_contains_find(s, "```"@);
    assert(split_fences(s) =~= seq![s]);
    assert(fenced(split_fences(s), 1) =~= Seq::<Seq<char>>::empty());
}

/// Calls between tags come one after the other: up to the first tag there is none, a call goes up to
/// its end tag, trimmed, and the rest has its own. Where there is a tag, fences do not count.
pub proof fn law_tagged_calls_follow(before: Seq<char>, body: Seq<char>, after: Seq<char>)
    requires
        forall|j: int|
            0 <= j < before.len() ==> !#[trigger] text::occurs_at(
                before + "<tool_call>"@ + body + "</tool_call>"@ + after,
                "<tool_call>"@,
                j,
            ),
        forall|j: int|
            0 <= j < body.len() ==> !#[trigger] text::occurs_at(
                body + "</tool_call>"@ + after,
                "</tool_call>"@,
                j,
            ),
    ensures
        tagged(before + "<tool_call>"@ + body + "</tool_call>"@ + after) == seq![text::trim(body)]
            + tagged(after),
        blocks(before + "<tool_call>"@ + body + "</tool_call>"@ + after) == seq![text::trim(body)]
            + tagged(after),
{
    reveal_strlit("<tool_call>");
    reveal_strlit("</tool_call>");
    let s = before + "<tool_call>"@ + body + "</tool_call>"@ + after;
    let rest = body + "</tool_call>"@ + after;
    let p = before.len() as int;
    assert(s.subrange(p, p + 11) =~= "<tool_call>"@);
    text::lemma_find_is(s, "<tool_call>"@, 0, p);
    assert(s.skip(p + 11) =~= rest);
    let e = body.len() as int;
    assert(rest.subrange(e, e + 12) =~= "</tool_call>"@);
    text::lemma_find_is(rest, "</tool_call>"@, 0, e);
    assert(rest.take(e) =~= body);
    assert(rest.skip(e + 12) =~= after);
    if after.len() == 0 {
        text::lemma_contains_find(after, "<tool_call>"@);
        assert(tagged(after) =~= Seq::<Seq<char>>::empty());
    }
}

/// A call whose end tag is missing, because generation stopped there, takes the rest.
pub proof fn law_open_calls_take_the_rest(before: Seq<char>, body: Seq<char>)
    requires
        forall|j: int|
            0 <= j < before.len() ==> !#[trigger] text::occurs_at(
                before + "<tool_call>"@ + body,
                "<tool_call>"@,
                j,
            ),
        !text::contains(body, "</tool_call>"@),
    ensures
        blocks(before + "<tool_call>"@ + body) == seq![text::trim(body)],
{
    reveal_strlit("<tool_call>");
    let s = before + "<tool_call>"@ + body;
    let p = before.len() as int;
    assert(s.subrange(p, p + 11) =~= "<tool_call>"@);
    text::lemma_find_is(s, "<tool_call>"@, 0, p);
    assert(s.skip(p + 11) =~= body);
    text::lemma_contains_find(body, "</tool_call>"@);
    assert(tagged(s) =~= seq![text::trim(body)]);
}

/// Without a tag, a fenced block counts when it looks like a call; what stands before the first
/// fence and behind the second does not.
pub proof fn law_a_fenced_call_counts(before: Seq<char>, block: Seq<char>, after: Seq<char>)
    requires
        !text::contains(before + "```"@ + block + "```"@ + after, "<tool_call>"@),
        forall|j: int|
            0 <= j < before.len() ==> !#[trigger] text::occurs_at(
                before + "```"@ + block + "```"@ + after,
                "```"@,
                j,
            ),
        forall|j: int|
            0 <= j < block.len() ==> !#[trigger] text::occurs_at(
                block + "```"@ + after,
                "```"@,
                j,
            ),
        !text::contains(after, "```"@),
    ensures
        ({
            let body = text::trim(
                if text::starts_with(block, "json"@) {
                    block.skip(4)
                } else {
                    block
                },
            );
            let counts = text::starts_with(body, "{"@) && text::contains(body, "\"name\""@);
            blocks(before + "```"@ + block + "```"@ + after) == (if counts {
                seq![body]
            } else {
                Seq::<Seq<char>>::empty()
            })
        }),
{
    reveal_strlit("```");
    let s = before + "```"@ + block + "```"@ + after;
    let rest = block + "```"@ + after;
    text::lemma_contains_find(s, "<tool_call>"@);
    let p = before.len() as int;
    assert(s.subrange(p, p + 3) =~= "```"@);
    text::lemma_find_is(s, "```"@, 0, p);
    assert(s.skip(p + 3) =~= rest);
    let e = block.len() as int;
    assert(rest.subrange(e, e + 3) =~= "```"@);
    text::lemma_find_is(rest, "```"@, 0, e);
    assert(rest.skip(e + 3) =~= after);
    text::lemma_contains_find(after, "```"@);
    assert(split_fences(after) =~= seq![after]);
    assert(rest.take(e) =~= block);
    assert(split_fences(rest) =~= seq![block, after]);
    assert(s.take(p) =~= before);
    assert(split_fences(s) =~= seq![before, block, after]);
    let pieces = split_fences(s);
    assert(fenced(pieces, 3) =~= Seq::<Seq<char>>::empty());
    assert(tagged(s) =~= Seq::<Seq<char>>::empty());
    let body = fence_body(block);
    if looks_like_call(body) {
        assert(seq![body] + Seq::<Seq<char>>::empty() =~= seq![body]);
        assert(fenced(pieces, 1) =~= seq![body]);
    } else {
        assert(fenced(pieces, 1) =~= Seq::<Seq<char>>::empty());
    }
}

/// The calls are those of the blocks that hold one, in order: a block is one when it reads as an
/// object with a name, and its arguments are those given, under either name and written as a text
/// or not, or none.
pub proof fn law_blocks_are_calls(list: Seq<Seq<char>>, block: Seq<char>, v: JsonV)
    requires
        json::parsed(block) == Ok::<JsonV, Seq<char>>(v),
    ensures
        v.get_text("name"@) is None ==> calls_in(list.push(block)) == calls_in(list),
        v.get_text("name"@) matches Some(name) ==> ({
            let given = match v.get("arguments"@) {
                Some(a) => Some(a),
                None => v.get("parameters"@),
            };
            let args = match given {
                Some(JsonV::Text(s)) => match json::parsed(s) {
                    Ok(a) => a,
                    Err(_) => JsonV::Object(Map::empty()),
                },
                Some(a) => a,
                None => JsonV::Object(Map::empty()),
            };
            calls_in(list.push(block)) == calls_in(list).push(LocalCallV { name, args })
        }),
        forall|bad: Seq<char>| #[trigger]
            json::parsed(bad) is Err ==> calls_in(list.push(bad)) == calls_in(list),
        calls_in(Seq::<Seq<char>>::empty()) == Seq::<LocalCallV>::empty(),
{
    assert(list.push(block).drop_last() =~= list);
    assert forall|bad: Seq<char>| #[trigger] json::parsed(bad) is Err implies calls_in(
        list.push(bad),
    ) == calls_in(list) by {
        assert(list.push(bad).drop_last() =~= list);
    }
}

} // verus!
