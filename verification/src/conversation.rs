//! The messages of a conversation: how large they are, and how they are made smaller.
//!
//! A message is a JSON object with a `role`, a `content`, and for an assistant perhaps the
//! `tool_calls` that the `tool` messages after it answer.
use vstd::prelude::*;

use crate::decimal;
use crate::json;
use crate::json::Json;
use crate::json::JsonV;
use crate::text;

verus! {

/// How many of the latest messages compaction keeps.
pub const KEEP_RECENT: usize = 8;

// ---- size ------------------------------------------------------------------------------

/// The text of the call's arguments.
pub open spec fn call_arguments(call: JsonV) -> Option<Seq<char>> {
    match call.get("function"@) {
        Some(f) => f.get_text("arguments"@),
        None => None,
    }
}

pub open spec fn argument_bytes(calls: Seq<JsonV>) -> nat
    decreases calls.len(),
{
    if calls.len() == 0 {
        0
    } else {
        argument_bytes(calls.drop_last()) + match call_arguments(calls.last()) {
            Some(s) => text::byte_len(s),
            None => 0,
        }
    }
}

/// What a message counts for: the bytes of its content and of its calls' arguments, and
/// some overhead.
pub open spec fn message_size(m: JsonV) -> nat {
    (match m.get_text("content"@) {
        Some(s) => text::byte_len(s),
        None => 0,
    }) + (match m.get_items("tool_calls"@) {
        Some(calls) => argument_bytes(calls),
        None => 0,
    }) + 20
}

/// The estimated tokens of a conversation: a quarter of each message's size.
pub open spec fn tokens(conv: Seq<JsonV>) -> nat
    decreases conv.len(),
{
    if conv.len() == 0 {
        0
    } else {
        tokens(conv.drop_last()) + message_size(conv.last()) / 4
    }
}

/// The number, or the largest one that fits.
pub open spec fn capped(n: nat) -> nat {
    if n > usize::MAX {
        usize::MAX as nat
    } else {
        n
    }
}

fn arguments_of(call: &Json) -> (r: Option<&str>)
    ensures
        match r {
            Some(s) => call_arguments(call@) == Some(s@),
            None => call_arguments(call@) is None,
        },
{
    match call.get("function") {
        Some(f) => f.get_str("arguments"),
        None => None,
    }
}

fn size_of_arguments(calls: &Vec<Json>) -> (n: u128)
    ensures
        n == argument_bytes(json::views(calls@)),
        n <= calls@.len() * usize::MAX,
{
    let mut n: u128 = 0;
    let mut i: usize = 0;
    let ghost v = json::views(calls@);
    proof {
        assert(v.take(0) =~= Seq::<JsonV>::empty());
    }
    while i < calls.len()
        invariant
            v == json::views(calls@),
            i <= calls@.len(),
            n == argument_bytes(v.take(i as int)),
            n <= i * usize::MAX,
        decreases calls.len() - i,
    {
        proof {
            assert(v.take(i as int + 1).drop_last() =~= v.take(i as int));
            assert(v.take(i as int + 1).last() == calls@[i as int]@);
            assert(i * usize::MAX + usize::MAX == (i + 1) * usize::MAX) by (nonlinear_arith);
            assert((i + 1) * usize::MAX <= usize::MAX * usize::MAX) by (nonlinear_arith)
                requires
                    i + 1 <= usize::MAX,
            ;
            assert(usize::MAX * usize::MAX <= u128::MAX) by (nonlinear_arith)
                requires
                    usize::MAX <= 0xffff_ffff_ffff_ffff,
            ;
        }
        if let Some(s) = arguments_of(&calls[i]) {
            n = n + text::str_bytes(s) as u128;
        }
        i = i + 1;
    }
    proof {
        assert(v.take(i as int) =~= v);
    }
    n
}

fn size_of(m: &Json) -> (n: u128)
    ensures
        n == message_size(m@),
        n < u128::MAX,
{
    let mut n: u128 = 20;
    if let Some(s) = m.get_str("content") {
        n = n + text::str_bytes(s) as u128;
    }
    if let Some(calls) = m.get_array("tool_calls") {
        let count = calls.len();
        proof {
            assert(count == calls@.len());
            assert(calls@.len() * usize::MAX <= 0xffff_ffff_ffff_ffff * 0xffff_ffff_ffff_ffff)
                by (nonlinear_arith)
                requires
                    calls@.len() <= usize::MAX,
                    usize::MAX <= 0xffff_ffff_ffff_ffff,
            ;
        }
        n = n + size_of_arguments(calls);
    }
    n
}

/// Estimates the tokens of a conversation.
pub fn estimate_conversation_tokens(conversation: &Vec<Json>) -> (n: usize)
    ensures
        n == capped(tokens(json::views(conversation@))),
{
    let mut n: usize = 0;
    let mut i: usize = 0;
    let ghost v = json::views(conversation@);
    proof {
        assert(v.take(0) =~= Seq::<JsonV>::empty());
    }
    while i < conversation.len()
        invariant
            v == json::views(conversation@),
            i <= conversation@.len(),
            n == capped(tokens(v.take(i as int))),
        decreases conversation.len() - i,
    {
        proof {
            assert(v.take(i as int + 1).drop_last() =~= v.take(i as int));
            assert(v.take(i as int + 1).last() == conversation@[i as int]@);
        }
        let more: u128 = size_of(&conversation[i]) / 4;
        let sum: u128 = n as u128 + more;
        n = if sum > usize::MAX as u128 {
            usize::MAX
        } else {
            sum as usize
        };
        i = i + 1;
    }
    proof {
        assert(v.take(i as int) =~= v);
    }
    n
}

// ---- compaction --------------------------------------------------------------------------

pub open spec fn is_tool(m: JsonV) -> bool {
    m.get_text("role"@) == Some("tool"@)
}

/// The message with its content replaced.
pub open spec fn with_content(m: JsonV, content: Seq<char>) -> JsonV {
    match m {
        JsonV::Object(o) => JsonV::Object(o.insert("content"@, JsonV::Text(content))),
        _ => m,
    }
}

/// The first and the last thirty lines of a long text.
pub open spec fn shortened(s: Seq<char>) -> Seq<char> {
    let l = text::lines(s);
    text::join(l.take(30), "\n"@) + "\n\n[... "@ + decimal::dec((l.len() - 60) as nat)
        + " lines omitted ...]\n\n"@ + text::join(l.skip(l.len() - 30), "\n"@)
}

/// A large tool result of many lines is cut to its head and its tail.
pub open spec fn truncated(m: JsonV) -> JsonV {
    match m.get_text("content"@) {
        Some(c) => if is_tool(m) && c.len() > 2000 && text::lines(c).len() > 60 {
            with_content(m, shortened(c))
        } else {
            m
        },
        None => m,
    }
}

/// A tool result of some size is replaced by a note.
pub open spec fn stubbed(m: JsonV) -> JsonV {
    match m.get_text("content"@) {
        Some(c) => if is_tool(m) && text::byte_len(c) > 200 {
            with_content(m, "[compacted]"@)
        } else {
            m
        },
        None => m,
    }
}

pub open spec fn truncate_all(conv: Seq<JsonV>) -> Seq<JsonV> {
    conv.map_values(|m: JsonV| truncated(m))
}

/// All but the latest messages have their tool results stubbed.
pub open spec fn stub_old(conv: Seq<JsonV>) -> Seq<JsonV> {
    Seq::new(
        conv.len(),
        |i: int|
            if i < conv.len() - KEEP_RECENT {
                stubbed(conv[i])
            } else {
                conv[i]
            },
    )
}

/// The last index at or before `k`, but not below 1, that does not hold a tool message.
pub open spec fn turn_start(conv: Seq<JsonV>, k: int) -> int
    decreases k,
{
    if k <= 1 || !is_tool(conv[k]) {
        k
    } else {
        turn_start(conv, k - 1)
    }
}

pub open spec fn role_of(m: JsonV) -> Seq<char> {
    match m.get_text("role"@) {
        Some(r) => r,
        None => "?"@,
    }
}

/// The beginning of a message's content.
pub open spec fn preview_of(m: JsonV) -> Seq<char> {
    match m.get_text("content"@) {
        Some(c) => if c.len() > 150 {
            c.take(150)
        } else {
            c
        },
        None => seq![],
    }
}

/// One line for each message that is no tool result and has content.
pub open spec fn summary_lines(conv: Seq<JsonV>) -> Seq<Seq<char>>
    decreases conv.len(),
{
    if conv.len() == 0 {
        seq![]
    } else {
        let m = conv.last();
        let before = summary_lines(conv.drop_last());
        if role_of(m) == "tool"@ || preview_of(m).len() == 0 {
            before
        } else {
            before.push("["@ + role_of(m) + "] "@ + preview_of(m) + "..."@)
        }
    }
}

/// The message that stands in for the dropped ones.
pub open spec fn summary_message(dropped: Seq<JsonV>) -> JsonV {
    JsonV::Object(
        Map::<Seq<char>, JsonV>::empty().insert("role"@, JsonV::Text("system"@)).insert(
            "content"@,
            JsonV::Text(
                "[Context compacted — "@ + decimal::dec(dropped.len()) + " earlier messages summarized]\n"@
                    + text::join(summary_lines(dropped), "\n"@),
            ),
        ),
    )
}

/// The messages between the first one and a recent turn are dropped for a summary.
pub open spec fn drop_old(conv: Seq<JsonV>) -> Seq<JsonV> {
    let k = turn_start(conv, conv.len() - KEEP_RECENT);
    if k <= 1 || conv.len() - k < 4 {
        conv
    } else {
        conv.take(1).push(summary_message(conv.subrange(1, k))) + conv.skip(k)
    }
}

/// A conversation made smaller, step by step, until it is below the target.
pub open spec fn compacted(conv: Seq<JsonV>, target: nat) -> Seq<JsonV> {
    if tokens(conv) < target || conv.len() < KEEP_RECENT {
        conv
    } else if tokens(truncate_all(conv)) < target {
        truncate_all(conv)
    } else if tokens(stub_old(truncate_all(conv))) < target {
        stub_old(truncate_all(conv))
    } else {
        drop_old(stub_old(truncate_all(conv)))
    }
}

fn has_tool_role(m: &Json) -> (r: bool)
    ensures
        r == is_tool(m@),
{
    match m.get_str("role") {
        Some(s) => text::str_eq(s, "tool"),
        None => false,
    }
}

fn shorten(l: &Vec<String>) -> (r: String)
    requires
        l@.len() > 60,
    ensures
        r@ == text::join(text::texts(l@).take(30), "\n"@) + "\n\n[... "@ + decimal::dec(
            (l@.len() - 60) as nat,
        ) + " lines omitted ...]\n\n"@ + text::join(text::texts(l@).skip(l@.len() - 30), "\n"@),
{
    let mut s = text::join_range(l, 0, 30, "\n");
    s.append("\n\n[... ");
    s.append(decimal::dec_usize(l.len() - 60).as_str());
    s.append(" lines omitted ...]\n\n");
    let tail = text::join_range(l, l.len() - 30, l.len(), "\n");
    s.append(tail.as_str());
    proof {
        let t = text::texts(l@);
        assert(t.subrange(0, 30) =~= t.take(30));
        assert(t.subrange(t.len() - 30, t.len() as int) =~= t.skip(t.len() - 30));
    }
    s
}

fn truncate_result(m: Json) -> (r: Json)
    ensures
        r@ == truncated(m@),
{
    if !has_tool_role(&m) {
        return m;
    }
    let cut: Option<String> = match m.get_str("content") {
        Some(c) => {
            let l = text::str_lines(c);
            if c.unicode_len() > 2000 && l.len() > 60 {
                Some(shorten(&l))
            } else {
                None
            }
        },
        None => None,
    };
    match cut {
        Some(s) => m.with_str("content", s.as_str()),
        None => m,
    }
}

fn stub_result(m: Json) -> (r: Json)
    ensures
        r@ == stubbed(m@),
{
    if !has_tool_role(&m) {
        return m;
    }
    let large = match m.get_str("content") {
        Some(c) => text::str_bytes(c) > 200,
        None => false,
    };
    if large {
        m.with_str("content", "[compacted]")
    } else {
        m
    }
}

fn truncate_results(conversation: Vec<Json>) -> (r: Vec<Json>)
    ensures
        json::views(r@) == truncate_all(json::views(conversation@)),
{
    let ghost all = json::views(conversation@);
    let mut rest = conversation;
    let mut out: Vec<Json> = Vec::new();
    while rest.len() > 0
        invariant
            out@.len() + rest@.len() == all.len(),
            forall|i: int| 0 <= i < out@.len() ==> (#[trigger] out@[i])@ == truncated(all[i]),
            forall|i: int| 0 <= i < rest@.len() ==> (#[trigger] rest@[i])@ == all[out@.len() + i],
        decreases rest.len(),
    {
        let m = rest.remove(0);
        proof {
            assert(m@ == all[out@.len() as int]);
        }
        out.push(truncate_result(m));
    }
    proof {
        assert(json::views(out@) =~= truncate_all(all));
    }
    out
}

fn stub_results(conversation: Vec<Json>) -> (r: Vec<Json>)
    requires
        conversation@.len() >= KEEP_RECENT,
    ensures
        json::views(r@) == stub_old(json::views(conversation@)),
{
    let ghost all = json::views(conversation@);
    let recent = conversation.len() - KEEP_RECENT;
    let mut rest = conversation;
    let mut out: Vec<Json> = Vec::new();
    while rest.len() > 0
        invariant
            recent == all.len() - KEEP_RECENT,
            out@.len() + rest@.len() == all.len(),
            forall|i: int| 0 <= i < out@.len() ==> (#[trigger] out@[i])@ == stub_old(all)[i],
            forall|i: int| 0 <= i < rest@.len() ==> (#[trigger] rest@[i])@ == all[out@.len() + i],
        decreases rest.len(),
    {
        let m = rest.remove(0);
        proof {
            assert(m@ == all[out@.len() as int]);
        }
        if out.len() < recent {
            out.push(stub_result(m));
        } else {
            out.push(m);
        }
    }
    proof {
        assert(json::views(out@) =~= stub_old(all));
    }
    out
}

fn summarize(conversation: &Vec<Json>, end: usize) -> (r: Json)
    requires
        1 <= end <= conversation@.len(),
    ensures
        r@ == summary_message(json::views(conversation@).subrange(1, end as int)),
{
    let ghost all = json::views(conversation@);
    let mut parts: Vec<String> = Vec::new();
    let mut i: usize = 1;
    proof {
        assert(all.subrange(1, 1) =~= Seq::<JsonV>::empty());
        assert(text::texts(parts@) =~= summary_lines(all.subrange(1, 1)));
    }
    while i < end
        invariant
            all == json::views(conversation@),
            1 <= i <= end <= conversation@.len(),
            text::texts(parts@) == summary_lines(all.subrange(1, i as int)),
        decreases end - i,
    {
        let ghost before = parts@;
        proof {
            assert(all.subrange(1, i as int + 1).drop_last() =~= all.subrange(1, i as int));
            assert(all.subrange(1, i as int + 1).last() == conversation@[i as int]@);
        }
        let m = &conversation[i];
        let role = match m.get_str("role") {
            Some(r) => r,
            None => "?",
        };
        let content = match m.get_str("content") {
            Some(c) => c,
            None => "",
        };
        let c = text::to_chars(content);
        let n: usize = if c.len() > 150 {
            150
        } else {
            c.len()
        };
        proof {
            reveal_strlit("");
            assert(c@.subrange(0, n as int) =~= preview_of(m@));
        }
        if !text::str_eq(role, "tool") && n > 0 {
            let mut line = text::copy("[");
            line.append(role);
            line.append("] ");
            let preview = text::substring(&c, 0, n);
            line.append(preview.as_str());
            line.append("...");
            parts.push(line);
            proof {
                assert(text::texts(parts@) =~= text::texts(before).push(line@));
            }
        }
        i = i + 1;
    }
    let mut s = text::copy("[Context compacted — ");
    s.append(decimal::dec_usize(end - 1).as_str());
    s.append(" earlier messages summarized]\n");
    let body = text::join_strings(&parts, "\n");
    s.append(body.as_str());
    Json::object().with_str("role", "system").with_str("content", s.as_str())
}

fn drop_turns(conversation: Vec<Json>) -> (r: Vec<Json>)
    requires
        conversation@.len() >= KEEP_RECENT,
    ensures
        json::views(r@) == drop_old(json::views(conversation@)),
{
    let ghost all = json::views(conversation@);
    let total = conversation.len();
    let mut end: usize = total - KEEP_RECENT;
    while end > 1 && has_tool_role(&conversation[end])
        invariant
            all == json::views(conversation@),
            end <= total,
            end < total,
            total == conversation@.len(),
            turn_start(all, total - KEEP_RECENT) == turn_start(all, end as int),
        decreases end,
    {
        end = end - 1;
    }
    if end <= 1 || total - end < 4 {
        return conversation;
    }
    let summary = summarize(&conversation, end);
    let mut rest = conversation;
    let mut tail = rest.split_off(end);
    rest.truncate(1);
    rest.push(summary);
    let ghost head = rest@;
    let ghost kept = tail@;
    rest.append(&mut tail);
    proof {
        assert(rest@ =~= head + kept);
        assert(json::views(rest@) =~= drop_old(all));
    }
    rest
}

/// Makes a conversation smaller until it is estimated below the target: first by cutting
/// large tool results, then by stubbing old ones, then by dropping old turns.
pub fn compact_conversation(conversation: &mut Vec<Json>, target_tokens: usize)
    ensures
        json::views(final(conversation)@) == compacted(
            json::views(old(conversation)@),
            target_tokens as nat,
        ),
{
    if estimate_conversation_tokens(conversation) < target_tokens || conversation.len()
        < KEEP_RECENT {
        return;
    }
    let ghost all = json::views(conversation@);
    let mut work: Vec<Json> = Vec::new();
    std::mem::swap(&mut work, conversation);
    let cut = truncate_results(work);
    proof {
        assert(cut@.len() == json::views(cut@).len());
    }
    if estimate_conversation_tokens(&cut) < target_tokens {
        *conversation = cut;
        return;
    }
    let stubs = stub_results(cut);
    proof {
        assert(stubs@.len() == json::views(stubs@).len());
    }
    if estimate_conversation_tokens(&stubs) < target_tokens {
        *conversation = stubs;
        return;
    }
    *conversation = drop_turns(stubs);
}

// ---- laws --------------------------------------------------------------------------------

/// The assistant message declares a call with this id.
pub open spec fn declares(m: JsonV, id: Option<Seq<char>>) -> bool {
    match m.get_items("tool_calls"@) {
        Some(calls) => exists|i: int|
            0 <= i < calls.len() && (#[trigger] calls[i]).get_text("id"@) == id,
        None => false,
    }
}

/// The nearest message at or before `i` that is no tool message; -1 if there is none.
pub open spec fn owner(conv: Seq<JsonV>, i: int) -> int
    decreases i + 1,
{
    if i < 0 {
        -1
    } else if !is_tool(conv[i]) {
        i
    } else {
        owner(conv, i - 1)
    }
}

/// Every tool message answers a call that the message before its run of tool messages
/// declares.
pub open spec fn paired(conv: Seq<JsonV>) -> bool {
    forall|i: int|
        0 <= i < conv.len() && is_tool(#[trigger] conv[i]) ==> owner(conv, i) >= 0 && declares(
            conv[owner(conv, i)],
            conv[i].get_text("tool_call_id"@),
        )
}

/// Two messages agree on all but their content.
spec fn alike(a: JsonV, b: JsonV) -> bool {
    &&& is_tool(a) == is_tool(b)
    &&& a.get_items("tool_calls"@) == b.get_items("tool_calls"@)
    &&& a.get_text("tool_call_id"@) == b.get_text("tool_call_id"@)
}

proof fn lemma_with_content(m: JsonV, c: Seq<char>)
    ensures
        alike(m, with_content(m, c)),
{
    reveal_strlit("content");
    reveal_strlit("role");
    reveal_strlit("tool_calls");
    reveal_strlit("tool_call_id");
    assert("content"@.len() != "role"@.len());
    assert("content"@.len() != "tool_calls"@.len());
    assert("content"@.len() != "tool_call_id"@.len());
}

proof fn lemma_alike_steps(m: JsonV)
    ensures
        alike(m, truncated(m)),
        alike(m, stubbed(m)),
{
    match m.get_text("content"@) {
        Some(c) => {
            lemma_with_content(m, shortened(c));
            lemma_with_content(m, "[compacted]"@);
        },
        None => {},
    }
}

proof fn lemma_owner(conv: Seq<JsonV>, i: int)
    requires
        -1 <= i < conv.len(),
    ensures
        -1 <= owner(conv, i) <= i,
        owner(conv, i) >= 0 ==> !is_tool(conv[owner(conv, i)]),
        forall|j: int| owner(conv, i) < j <= i ==> is_tool(#[trigger] conv[j]),
    decreases i + 1,
{
    if i >= 0 && is_tool(conv[i]) {
        lemma_owner(conv, i - 1);
    }
}

proof fn lemma_owner_is(conv: Seq<JsonV>, i: int, o: int)
    requires
        0 <= o <= i < conv.len(),
        !is_tool(conv[o]),
        forall|j: int| o < j <= i ==> is_tool(#[trigger] conv[j]),
    ensures
        owner(conv, i) == o,
    decreases i,
{
    if o < i {
        assert(is_tool(conv[i]));
        lemma_owner_is(conv, i - 1, o);
    }
}

/// A conversation whose messages differ in content alone is paired when the other one is.
proof fn lemma_paired_alike(a: Seq<JsonV>, b: Seq<JsonV>)
    requires
        a.len() == b.len(),
        forall|i: int| 0 <= i < a.len() ==> alike(#[trigger] a[i], b[i]),
        paired(a),
    ensures
        paired(b),
{
    assert forall|i: int| 0 <= i < b.len() && is_tool(#[trigger] b[i]) implies owner(b, i) >= 0
        && declares(b[owner(b, i)], b[i].get_text("tool_call_id"@)) by {
        assert(alike(a[i], b[i]));
        lemma_owner(a, i);
        let o = owner(a, i);
        assert(alike(a[o], b[o]));
        assert forall|j: int| o < j <= i implies is_tool(#[trigger] b[j]) by {
            assert(alike(a[j], b[j]));
            assert(is_tool(a[j]));
        }
        lemma_owner_is(b, i, o);
    }
}

proof fn lemma_turn_start(conv: Seq<JsonV>, k: int)
    requires
        k < conv.len(),
    ensures
        turn_start(conv, k) <= k,
        turn_start(conv, k) > 1 ==> !is_tool(conv[turn_start(conv, k)]),
        k >= 1 ==> turn_start(conv, k) >= 1,
    decreases k,
{
    if k > 1 && is_tool(conv[k]) {
        lemma_turn_start(conv, k - 1);
    }
}

proof fn lemma_summary_is_no_tool(dropped: Seq<JsonV>)
    ensures
        !is_tool(summary_message(dropped)),
{
    reveal_strlit("system");
    reveal_strlit("tool");
    reveal_strlit("content");
    reveal_strlit("role");
    assert("content"@.len() != "role"@.len());
    assert("system"@.len() != "tool"@.len());
}

proof fn lemma_drop_paired(conv: Seq<JsonV>)
    requires
        conv.len() >= KEEP_RECENT,
        paired(conv),
    ensures
        paired(drop_old(conv)),
{
    let k = turn_start(conv, conv.len() - KEEP_RECENT);
    lemma_turn_start(conv, conv.len() - KEEP_RECENT);
    if !(k <= 1 || conv.len() - k < 4) {
        let r = drop_old(conv);
        let summary = summary_message(conv.subrange(1, k));
        lemma_summary_is_no_tool(conv.subrange(1, k));
        assert(r[0] == conv[0]);
        assert(r[1] == summary);
        assert forall|i: int| 0 <= i < r.len() && is_tool(#[trigger] r[i]) implies owner(r, i) >= 0
            && declares(r[owner(r, i)], r[i].get_text("tool_call_id"@)) by {
            if i == 0 {
                assert(is_tool(conv[0]));
                assert(owner(conv, 0) == owner(conv, -1));
            } else {
                let d = k - 2;
                assert(r[i] == conv[i + d]);
                lemma_owner(conv, i + d);
                let o = owner(conv, i + d);
                assert(!is_tool(conv[k]));
                assert(o >= k);
                assert(r[o - d] == conv[o]);
                assert forall|j: int| o - d < j <= i implies is_tool(#[trigger] r[j]) by {
                    assert(r[j] == conv[j + d]);
                }
                lemma_owner_is(r, i, o - d);
            }
        }
    }
}

/// Compaction orphans no tool message: where every tool message follows the assistant
/// message that declares its call, that still holds afterwards.
pub proof fn law_compaction_keeps_pairs(conv: Seq<JsonV>, target: nat)
    requires
        paired(conv),
    ensures
        paired(compacted(conv, target)),
{
    let a = truncate_all(conv);
    assert forall|i: int| 0 <= i < conv.len() implies alike(#[trigger] conv[i], a[i]) by {
        lemma_alike_steps(conv[i]);
    }
    lemma_paired_alike(conv, a);
    let b = stub_old(a);
    assert forall|i: int| 0 <= i < a.len() implies alike(#[trigger] a[i], b[i]) by {
        lemma_alike_steps(a[i]);
    }
    lemma_paired_alike(a, b);
    if conv.len() >= KEEP_RECENT {
        lemma_drop_paired(b);
    }
}

/// Compaction keeps the first message, as long as it is no tool result.
pub proof fn law_compaction_keeps_first(conv: Seq<JsonV>, target: nat)
    requires
        conv.len() > 0,
        !is_tool(conv[0]),
    ensures
        compacted(conv, target).len() > 0,
        compacted(conv, target)[0] == conv[0],
{
    let b = stub_old(truncate_all(conv));
    if conv.len() >= KEEP_RECENT {
        lemma_turn_start(b, b.len() - KEEP_RECENT);
    }
}

/// Compaction leaves the latest messages in place; at most their tool results are cut. It
/// never makes a conversation longer.
pub proof fn law_compaction_keeps_recent(conv: Seq<JsonV>, target: nat, i: int)
    requires
        0 <= i < KEEP_RECENT,
        i < conv.len(),
    ensures
        i < compacted(conv, target).len() <= conv.len(),
        ({
            let m = compacted(conv, target)[compacted(conv, target).len() - 1 - i];
            let was = conv[conv.len() - 1 - i];
            m == was || m == truncated(was)
        }),
{
    let b = stub_old(truncate_all(conv));
    if conv.len() >= KEEP_RECENT {
        lemma_turn_start(b, b.len() - KEEP_RECENT);
    }
}

/// A dropped message that the summary speaks of: no tool result, and with something in it.
pub open spec fn told_of(m: JsonV) -> bool {
    m.get_text("role"@) != Some("tool"@) && (m.get_text("content"@) matches Some(c) && c.len() > 0)
}

/// What the summary says of a message: its role, and the first 150 characters of its content.
pub open spec fn told_as(m: JsonV) -> Seq<char> {
    let role = match m.get_text("role"@) {
        Some(r) => r,
        None => "?"@,
    };
    let c = m.get_text("content"@)->Some_0;
    "["@ + role + "] "@ + (if c.len() > 150 {
        c.take(150)
    } else {
        c
    }) + "..."@
}

proof fn lemma_summary_lines(dropped: Seq<JsonV>)
    ensures
        summary_lines(dropped) == dropped.filter(|m: JsonV| told_of(m)).map_values(
            |m: JsonV| told_as(m),
        ),
    decreases dropped.len(),
{
    let p = |m: JsonV| told_of(m);
    let f = |m: JsonV| told_as(m);
    if dropped.len() == 0 {
        reveal(Seq::filter);
        assert(dropped.filter(p).map_values(f) =~= Seq::<Seq<char>>::empty());
    } else {
        let front = dropped.drop_last();
        let m = dropped.last();
        lemma_summary_lines(front);
        assert(dropped =~= front.push(m));
        front.lemma_filter_push(m, p);
        reveal_strlit("?");
        reveal_strlit("tool");
        assert("?"@.len() != "tool"@.len());
        if told_of(m) {
            assert(front.filter(p).push(m).map_values(f) =~= front.filter(p).map_values(f).push(
                told_as(m),
            ));
        }
    }
}

/// The summary that stands in for dropped messages says how many they were, and then has a line
/// for each of them that is no tool result and has content, in their order, and no other line.
pub proof fn law_summary_tells_of_every_message(dropped: Seq<JsonV>, i: int)
    ensures
        ({
            let lines = dropped.filter(|m: JsonV| told_of(m)).map_values(|m: JsonV| told_as(m));
            let said = summary_message(dropped).get_text("content"@);
            &&& summary_message(dropped).get_text("role"@) == Some("system"@)
            &&& said == Some(
                "[Context compacted — "@ + decimal::dec(dropped.len())
                    + " earlier messages summarized]\n"@ + text::join(lines, "\n"@),
            )
            &&& 0 <= i < dropped.len() && told_of(dropped[i]) ==> text::contains(
                said->Some_0,
                told_as(dropped[i]),
            )
        }),
{
    reveal_strlit("content");
    reveal_strlit("role");
    assert("content"@.len() != "role"@.len());
    lemma_summary_lines(dropped);
    let p = |m: JsonV| told_of(m);
    let f = |m: JsonV| told_as(m);
    let lines = dropped.filter(p).map_values(f);
    let head = "[Context compacted — "@ + decimal::dec(dropped.len())
        + " earlier messages summarized]\n"@;
    let body = text::join(lines, "\n"@);
    if 0 <= i < dropped.len() && told_of(dropped[i]) {
        dropped.lemma_filter_contains(p, i);
        let k = choose|k: int| 0 <= k < dropped.filter(p).len() && dropped.filter(p)[k] == dropped[i];
        assert(lines[k] == told_as(dropped[i]));
        text::law_join_keeps(lines, "\n"@, k);
        let at = choose|at: int| text::occurs_at(body, lines[k], at);
        let said = head + body;
        let n = head.len() + at;
        assert(said.subrange(n, n + lines[k].len()) =~= body.subrange(at, at + lines[k].len()));
        assert(text::occurs_at(said, lines[k], n));
    }
}

/// The summary tells of its messages in their order.
pub proof fn law_summary_is_in_order(a: Seq<JsonV>, b: Seq<JsonV>)
    ensures
        summary_lines(a + b) == summary_lines(a) + summary_lines(b),
{
    let p = |m: JsonV| told_of(m);
    let f = |m: JsonV| told_as(m);
    lemma_summary_lines(a + b);
    lemma_summary_lines(a);
    lemma_summary_lines(b);
    Seq::filter_distributes_over_add(a, b, p);
    assert((a.filter(p) + b.filter(p)).map_values(f) =~= a.filter(p).map_values(f) + b.filter(
        p,
    ).map_values(f));
}

/// Only the content of a message differs.
pub open spec fn same_but_content(a: JsonV, b: JsonV) -> bool {
    forall|k: Seq<char>| k != "content"@ ==> #[trigger] a.get(k) == b.get(k)
}

/// A large tool result of many lines is cut to its first and its last thirty lines, with a note
/// of how many are left out; nothing else about the message changes, and no other message
/// changes at all.
pub proof fn law_large_results_are_cut(m: JsonV)
    ensures
        same_but_content(m, truncated(m)),
        ({
            let large = m.get_text("role"@) == Some("tool"@) && (m.get_text("content"@) matches Some(c)
                && c.len() > 2000 && text::lines(c).len() > 60);
            &&& !large ==> truncated(m) == m
            &&& large ==> ({
                let l = text::lines(m.get_text("content"@)->Some_0);
                truncated(m).get_text("content"@) == Some(
                    text::join(l.subrange(0, 30), "\n"@) + "\n\n[... "@ + decimal::dec(
                        (l.len() - 30 - 30) as nat,
                    ) + " lines omitted ...]\n\n"@ + text::join(
                        l.subrange(l.len() - 30, l.len() as int),
                        "\n"@,
                    ),
                )
            })
        }),
{
    if let Some(c) = m.get_text("content"@) {
        let l = text::lines(c);
        if l.len() > 60 {
            assert(l.take(30) =~= l.subrange(0, 30));
            assert(l.skip(l.len() - 30) =~= l.subrange(l.len() - 30, l.len() as int));
        }
    }
}

/// An old tool result of more than 200 bytes is replaced by a stub; nothing else about the
/// message changes, and no other message changes at all.
pub proof fn law_old_results_are_stubbed(m: JsonV)
    ensures
        same_but_content(m, stubbed(m)),
        ({
            let large = m.get_text("role"@) == Some("tool"@) && (m.get_text("content"@) matches Some(c)
                && text::byte_len(c) > 200);
            &&& !large ==> stubbed(m) == m
            &&& large ==> stubbed(m).get_text("content"@) == Some("[compacted]"@)
        }),
{
}

/// The size of a conversation is that of its messages: for each a quarter of the bytes of its
/// content and of its calls' arguments, with twenty more.
pub proof fn law_tokens(a: Seq<JsonV>, b: Seq<JsonV>, m: JsonV)
    ensures
        tokens(a + b) == tokens(a) + tokens(b),
        tokens(seq![m]) == ((match m.get_text("content"@) {
            Some(c) => text::byte_len(c),
            None => 0,
        }) + (match m.get_items("tool_calls"@) {
            Some(calls) => argument_bytes(calls),
            None => 0,
        }) + 20) / 4,
        argument_bytes(a + b) == argument_bytes(a) + argument_bytes(b),
        argument_bytes(seq![m]) == (match m.get("function"@) {
            Some(f) => match f.get_text("arguments"@) {
                Some(s) => text::byte_len(s),
                None => 0,
            },
            None => 0,
        }),
    decreases b.len(),
{
    assert(seq![m].drop_last() =~= Seq::<JsonV>::empty());
    assert(tokens(Seq::<JsonV>::empty()) == 0);
    assert(argument_bytes(Seq::<JsonV>::empty()) == 0);
    if b.len() == 0 {
        assert(a + b =~= a);
    } else {
        law_tokens(a, b.drop_last(), m);
        assert((a + b).drop_last() =~= a + b.drop_last());
        assert((a + b).last() == b.last());
    }
}

/// Compaction goes only as far as it has to: a conversation below the target, or of fewer than
/// eight messages, stays as it is; cutting comes before stubbing, and stubbing before dropping.
/// Stubbing spares the latest eight messages. Dropping keeps the first message and all from some
/// turn on, at the latest the eighth from the end, that does not begin with a tool result, and
/// puts one summary in place of the others.
pub proof fn law_compaction_goes_no_further_than_it_must(conv: Seq<JsonV>, target: nat)
    ensures
        ({
            let r = compacted(conv, target);
            let n = conv.len();
            let cut = conv.map_values(|m: JsonV| truncated(m));
            let stub = Seq::new(
                n,
                |i: int|
                    if i + 8 < n {
                        stubbed(cut[i])
                    } else {
                        cut[i]
                    },
            );
            &&& tokens(conv) < target || n < 8 ==> r == conv
            &&& tokens(conv) >= target && n >= 8 && tokens(cut) < target ==> r == cut
            &&& tokens(conv) >= target && n >= 8 && tokens(cut) >= target && tokens(stub) < target
                ==> r == stub
            &&& tokens(conv) >= target && n >= 8 && tokens(cut) >= target && tokens(stub) >= target
                ==> r == stub || exists|k: int|
                1 < k <= n - 8 && !is_tool(stub[k]) && (forall|j: int|
                    k < j <= n - 8 ==> is_tool(#[trigger] stub[j])) && r == seq![
                    stub[0],
                    summary_message(stub.subrange(1, k)),
                ] + #[trigger] stub.skip(k)
            &&& tokens(conv) >= target && n >= 8 && tokens(cut) >= target && tokens(stub) >= target
                ==> forall|k: int|
                1 < k <= n - 8 && !is_tool(stub[k]) && (forall|j: int|
                    k < j <= n - 8 ==> is_tool(#[trigger] stub[j])) ==> r == seq![
                    stub[0],
                    summary_message(stub.subrange(1, k)),
                ] + #[trigger] stub.skip(k)
        }),
{
    let n = conv.len();
    let cut = conv.map_values(|m: JsonV| truncated(m));
    let stub = Seq::new(
        n,
        |i: int|
            if i + 8 < n {
                stubbed(cut[i])
            } else {
                cut[i]
            },
    );
    assert(stub_old(truncate_all(conv)) =~= stub);
    if n >= 8 {
        let k = turn_start(stub, n - KEEP_RECENT);
        lemma_turn_start(stub, n - KEEP_RECENT);
        lemma_turn_run(stub, n - KEEP_RECENT);
        assert forall|q: int|
            1 < q <= n - 8 && !is_tool(stub[q]) && (forall|j: int|
                q < j <= n - 8 ==> is_tool(#[trigger] stub[j])) implies k == q by {
            if k < q {
                assert(is_tool(stub[q]));
            } else if q < k {
                assert(is_tool(stub[k]));
            }
        }
        if k > 1 {
            assert(stub.take(1).push(summary_message(stub.subrange(1, k))) + stub.skip(k) =~= seq![
                stub[0],
                summary_message(stub.subrange(1, k)),
            ] + stub.skip(k));
        }
    }
}

proof fn lemma_turn_run(conv: Seq<JsonV>, k: int)
    requires
        k < conv.len(),
    ensures
        forall|j: int| turn_start(conv, k) < j <= k ==> is_tool(#[trigger] conv[j]),
    decreases k,
{
    if k > 1 && is_tool(conv[k]) {
        lemma_turn_run(conv, k - 1);
    }
}

} // verus!
