//! How a local model's family frames its turns, where it must stop, and how it writes its
//! tool calls and its reasoning.
use vstd::prelude::*;

use crate::filter;
use crate::filter::Markers;
use crate::text;

verus! {

#[derive(Clone, Copy, PartialEq, Eq, Debug, Structural)]
pub enum Dialect {
    /// Turns as `<|turn>role … <turn|>`, tool calls as `<|tool_call>call:name{k:v}<tool_call|>`,
    /// and a channel for reasoning.
    Gemma4,
    /// Turns as `<start_of_turn>role … <end_of_turn>`, without a system role.
    Gemma,
    /// Turns as `<|im_start|>role … <|im_end|>`.
    ChatMl,
}

/// The dialect of an architecture, by its name in lower case.
pub open spec fn dialect_of(arch: Seq<char>) -> Dialect {
    if text::starts_with(arch, "gemma4"@) || text::starts_with(arch, "gemma-4"@) {
        Dialect::Gemma4
    } else if text::contains(arch, "gemma"@) {
        Dialect::Gemma
    } else {
        Dialect::ChatMl
    }
}

pub open spec fn stops(d: Dialect) -> Seq<Seq<char>> {
    match d {
        Dialect::Gemma4 => seq!["</tool_call>"@, "<tool_call|>"@, "<turn|>"@],
        Dialect::Gemma => seq!["</tool_call>"@, "<end_of_turn>"@],
        Dialect::ChatMl => seq!["</tool_call>"@, "<|im_end|>"@],
    }
}

pub open spec fn openers(d: Dialect) -> Seq<Seq<char>> {
    match d {
        Dialect::Gemma4 => seq!["<tool_call>"@, "<|tool_call>"@],
        _ => seq!["<tool_call>"@],
    }
}

pub open spec fn spans(d: Dialect) -> Seq<(Seq<char>, Seq<char>)> {
    match d {
        Dialect::Gemma4 => seq![("<|channel>"@, "<channel|>"@), ("<think>"@, "</think>"@)],
        _ => seq![("<think>"@, "</think>"@)],
    }
}

/// The markers that a stream filter for this dialect looks for.
pub open spec fn markers(d: Dialect) -> Markers {
    Markers { openers: openers(d), spans: spans(d) }
}

/// The text from `from` on without its hidden spans; an open span hides the rest.
pub open spec fn without_spans(m: Markers, s: Seq<char>, from: int) -> Seq<char>
    decreases s.len() - from,
{
    match filter::next_marker(m, s, from) {
        None => s.skip(from),
        Some(p) => {
            let span = m.spans[filter::span_at(m, s, p, 0)];
            match text::find_from(s, span.1, p + span.0.len()) {
                None => s.subrange(from, p),
                Some(j) => if from < j + span.1.len() <= s.len() {
                    s.subrange(from, p) + without_spans(m, s, j + span.1.len())
                } else {
                    s.subrange(from, p)
                },
            }
        },
    }
}

/// The spans alone.
pub open spec fn span_markers(d: Dialect) -> Markers {
    Markers { openers: Seq::empty(), spans: spans(d) }
}

pub open spec fn shown_text(d: Dialect, s: Seq<char>) -> Seq<char> {
    without_spans(span_markers(d), s, 0)
}

pub open spec fn tool_response(d: Dialect, name: Seq<char>, result: Seq<char>) -> Seq<char> {
    match d {
        Dialect::Gemma4 => "<|tool_response>response:"@ + name + "{value:<|\"|>"@ + result
            + "<|\"|>}<tool_response|>"@,
        _ => "<tool_response>\n"@ + result + "\n</tool_response>"@,
    }
}

impl Dialect {
    /// The dialect of an architecture name that is in lower case.
    pub fn for_lowercase(arch: &str) -> (r: Self)
        ensures
            r == dialect_of(arch@),
    {
        if text::str_starts_with(arch, "gemma4") || text::str_starts_with(arch, "gemma-4") {
            Dialect::Gemma4
        } else if text::str_contains(arch, "gemma") {
            Dialect::Gemma
        } else {
            Dialect::ChatMl
        }
    }

    /// The dialect of an architecture, whatever the case of its name.
    pub fn for_arch(arch: &str) -> (r: Self)
        ensures
            r == dialect_of(text::lowercase(arch@)),
    {
        Dialect::for_lowercase(text::to_lowercase(arch).as_str())
    }

    /// The texts that end generation: the close of a tool call, or of a turn.
    pub fn stop_sequences(&self) -> (r: Vec<String>)
        ensures
            text::texts(r@) == stops(*self),
    {
        let mut v: Vec<String> = Vec::new();
        v.push(text::copy("</tool_call>"));
        match self {
            Dialect::Gemma4 => {
                v.push(text::copy("<tool_call|>"));
                v.push(text::copy("<turn|>"));
            },
            Dialect::Gemma => {
                v.push(text::copy("<end_of_turn>"));
            },
            Dialect::ChatMl => {
                v.push(text::copy("<|im_end|>"));
            },
        }
        proof {
            assert(text::texts(v@) =~= stops(*self));
        }
        v
    }

    /// The markers that open a tool call.
    pub fn tool_call_openers(&self) -> (r: Vec<&'static str>)
        ensures
            filter::marker_texts(r@) == openers(*self),
    {
        let mut v: Vec<&'static str> = Vec::new();
        v.push("<tool_call>");
        match self {
            Dialect::Gemma4 => {
                v.push("<|tool_call>");
            },
            _ => {},
        }
        proof {
            assert(filter::marker_texts(v@) =~= openers(*self));
        }
        v
    }

    /// The markers around internal reasoning; prose goes on after the close.
    pub fn hidden_spans(&self) -> (r: Vec<(&'static str, &'static str)>)
        ensures
            filter::span_texts(r@) == spans(*self),
    {
        let mut v: Vec<(&'static str, &'static str)> = Vec::new();
        match self {
            Dialect::Gemma4 => {
                v.push(("<|channel>", "<channel|>"));
            },
            _ => {},
        }
        v.push(("<think>", "</think>"));
        proof {
            assert(filter::span_texts(v@) =~= spans(*self));
        }
        v
    }

    /// Drops the hidden reasoning from a text that enters the history.
    pub fn strip_hidden(&self, s: &str) -> (r: String)
        ensures
            r@ == shown_text(*self, s@),
    {
        let list = self.hidden_spans();
        let ghost m = span_markers(*self);
        let v = text::to_chars(s);
        let total = v.len();
        let mut out = String::new();
        let mut from: usize = 0;
        proof {
            lemma_markers(*self);
            assert(out@ + without_spans(m, s@, 0) =~= without_spans(m, s@, 0));
        }
        loop
            invariant
                m == span_markers(*self),
                filter::span_texts(list@) == m.spans,
                forall|k: int|
                    0 <= k < m.spans.len() ==> (#[trigger] m.spans[k]).0.len() > 0
                        && m.spans[k].1.len() > 0,
                v@ == s@,
                total == v@.len(),
                from <= total,
                out@ + without_spans(m, s@, from as int) == without_spans(m, s@, 0),
            decreases total - from,
        {
            let found = next_span(&list, &v, from);
            proof {
                assert(filter::marker_texts(Seq::empty()) =~= Seq::<Seq<char>>::empty());
            }
            match found {
                None => {
                    let rest = text::substring(&v, from, total);
                    proof {
                        assert(rest@ =~= s@.skip(from as int));
                    }
                    out.append(rest.as_str());
                    return out;
                },
                Some(hit) => {
                    let p = hit.0;
                    let k = hit.1;
                    let part = text::substring(&v, from, p);
                    let open = text::to_chars(list[k].0);
                    let close = text::to_chars(list[k].1);
                    proof {
                        assert(m.spans[k as int] == (open@, close@));
                    }
                    let ghost before = out@;
                    out.append(part.as_str());
                    match text::find_chars(&v, &close, p + open.len()) {
                        None => {
                            return out;
                        },
                        Some(j) => {
                            proof {
                                let rest = without_spans(m, s@, j + close@.len());
                                assert(before + (part@ + rest) =~= out@ + rest);
                            }
                            from = j + close.len();
                        },
                    }
                },
            }
        }
    }

    /// Writes a conversation as a prompt. The token that begins a text is left to the
    /// tokenizer.
    pub fn render(&self, messages: &[(String, String)]) -> (r: String)
        ensures
            r@ == prompt_of(*self, turns(messages@)),
    {
        match self {
            Dialect::Gemma4 => render_gemma4(messages),
            Dialect::Gemma => render_gemma(messages),
            Dialect::ChatMl => render_chatml(messages),
        }
    }

    /// Wraps the result of a tool the way the model was taught to read it.
    pub fn format_tool_response(&self, name: &str, result: &str) -> (r: String)
        ensures
            r@ == tool_response(*self, name@, result@),
    {
        match self {
            Dialect::Gemma4 => {
                let mut s = text::copy("<|tool_response>response:");
                s.append(name);
                s.append("{value:<|\"|>");
                s.append(result);
                s.append("<|\"|>}<tool_response|>");
                s
            },
            _ => {
                let mut s = text::copy("<tool_response>\n");
                s.append(result);
                s.append("\n</tool_response>");
                s
            },
        }
    }
}

/// The first span opener from `from` on, and which span it opens.
fn next_span(list: &Vec<(&'static str, &'static str)>, v: &Vec<char>, from: usize) -> (r: Option<
    (usize, usize),
>)
    requires
        from <= v@.len(),
    ensures
        ({
            let m = Markers { openers: Seq::empty(), spans: filter::span_texts(list@) };
            match r {
                Some((p, k)) => filter::next_marker(m, v@, from as int) == Some(p as int) && k
                    == filter::span_at(m, v@, p as int, 0) && k < list@.len() && from <= p && p
                    + m.spans[k as int].0.len() <= v@.len(),
                None => filter::next_marker(m, v@, from as int) is None,
            }
        }),
{
    let ghost m = Markers { openers: Seq::empty(), spans: filter::span_texts(list@) };
    let total = v.len();
    let mut p: usize = from;
    loop
        invariant
            m == (Markers { openers: Seq::empty(), spans: filter::span_texts(list@) }),
            total == v@.len(),
            from <= p <= total,
            filter::next_marker(m, v@, from as int) == filter::next_marker(m, v@, p as int),
        decreases total - p,
    {
        let mut k: usize = 0;
        while k < list.len()
            invariant
                m == (Markers { openers: Seq::empty(), spans: filter::span_texts(list@) }),
                k <= list@.len(),
                total == v@.len(),
                from <= p <= total,
                filter::next_marker(m, v@, from as int) == filter::next_marker(m, v@, p as int),
                filter::span_at(m, v@, p as int, 0) == filter::span_at(m, v@, p as int, k as int),
                forall|j: int| 0 <= j < k ==> !#[trigger] filter::opens_at(m, v@, j, p as int),
            decreases list.len() - k,
        {
            let open = text::to_chars(list[k].0);
            proof {
                assert(m.spans[k as int].0 == open@);
            }
            if text::matches_at(v, &open, p) {
                proof {
                    assert(filter::opens_at(m, v@, k as int, p as int));
                    assert(filter::marker_at(m, v@, p as int));
                }
                return Some((p, k));
            }
            k = k + 1;
        }
        proof {
            assert(!filter::marker_at(m, v@, p as int));
        }
        if p == total {
            proof {
                assert(filter::next_marker(m, v@, total + 1) is None);
            }
            return None;
        }
        p = p + 1;
    }
}

// ---- prompts -----------------------------------------------------------------------------------

/// A turn: its role and its text.
pub open spec fn turns(v: Seq<(String, String)>) -> Seq<(Seq<char>, Seq<char>)> {
    v.map_values(|p: (String, String)| (p.0@, p.1@))
}

pub open spec fn chatml_turns(t: Seq<(Seq<char>, Seq<char>)>) -> Seq<char>
    decreases t.len(),
{
    if t.len() == 0 {
        seq![]
    } else {
        let before = chatml_turns(t.drop_last());
        let (role, content) = t.last();
        if text::is_blank(content) {
            before
        } else {
            before + "<|im_start|>"@ + role + "\n"@ + content + "<|im_end|>\n"@
        }
    }
}

/// The model's own turns are called `model`, all others `user`.
pub open spec fn gemma_role(role: Seq<char>) -> Seq<char> {
    if role == "assistant"@ {
        "model"@
    } else {
        "user"@
    }
}

pub open spec fn gemma_turns(t: Seq<(Seq<char>, Seq<char>)>) -> Seq<char>
    decreases t.len(),
{
    if t.len() == 0 {
        seq![]
    } else {
        let before = gemma_turns(t.drop_last());
        let (role, content) = t.last();
        if text::is_blank(content) {
            before
        } else {
            before + "<start_of_turn>"@ + gemma_role(role) + "\n"@ + content + "<end_of_turn>\n"@
        }
    }
}

pub open spec fn gemma4_turns(t: Seq<(Seq<char>, Seq<char>)>) -> Seq<char>
    decreases t.len(),
{
    if t.len() == 0 {
        seq![]
    } else {
        let before = gemma4_turns(t.drop_last());
        let (role, content) = t.last();
        if text::is_blank(content) {
            before
        } else {
            before + "<|turn>"@ + gemma_role(role) + "\n"@ + text::trim(content) + "<turn|>\n"@
        }
    }
}

/// The texts of all system turns.
pub open spec fn system_texts(t: Seq<(Seq<char>, Seq<char>)>) -> Seq<Seq<char>>
    decreases t.len(),
{
    if t.len() == 0 {
        seq![]
    } else if t.last().0 == "system"@ {
        system_texts(t.drop_last()).push(t.last().1)
    } else {
        system_texts(t.drop_last())
    }
}

pub open spec fn system_text(t: Seq<(Seq<char>, Seq<char>)>) -> Seq<char> {
    text::join(system_texts(t), "\n\n"@)
}

/// A user turn is among the turns.
pub open spec fn has_user(t: Seq<(Seq<char>, Seq<char>)>) -> bool {
    exists|i: int| 0 <= i < t.len() && (#[trigger] t[i]).0 == "user"@
}

/// The turns that are no system turns, with `system` put before the text of the first user
/// turn, unless it is empty.
pub open spec fn injected(t: Seq<(Seq<char>, Seq<char>)>, system: Seq<char>) -> Seq<
    (Seq<char>, Seq<char>),
>
    decreases t.len(),
{
    if t.len() == 0 {
        seq![]
    } else {
        let before = injected(t.drop_last(), system);
        let (role, content) = t.last();
        if role == "system"@ {
            before
        } else if system.len() > 0 && role == "user"@ && !has_user(t.drop_last()) {
            before.push(("user"@, system + "\n\n"@ + content))
        } else {
            before.push((role, content))
        }
    }
}

/// All system turns folded into the first user turn, which is made where there is none.
pub open spec fn folded(t: Seq<(Seq<char>, Seq<char>)>) -> Seq<(Seq<char>, Seq<char>)> {
    let system = system_text(t);
    let rest = injected(t, system);
    if system.len() > 0 && !has_user(t) {
        seq![("user"@, system)] + rest
    } else {
        rest
    }
}

/// The first turn is a system turn with something in it.
pub open spec fn opens_with_system(t: Seq<(Seq<char>, Seq<char>)>) -> bool {
    t.len() > 0 && t[0].0 == "system"@ && !text::is_blank(t[0].1)
}

/// A conversation as a prompt, up to the header of the model's turn.
pub open spec fn prompt_of(d: Dialect, t: Seq<(Seq<char>, Seq<char>)>) -> Seq<char> {
    match d {
        Dialect::ChatMl => chatml_turns(t) + "<|im_start|>assistant\n"@,
        Dialect::Gemma => gemma_turns(folded(t)) + "<start_of_turn>model\n"@,
        Dialect::Gemma4 => if opens_with_system(t) {
            "<|turn>system\n"@ + text::trim(t[0].1) + "<turn|>\n"@ + gemma4_turns(t.skip(1))
                + "<|turn>model\n"@
        } else {
            gemma4_turns(t) + "<|turn>model\n"@
        },
    }
}

/// The ChatML turns of two conversations, one after the other, are those of the first and then
/// those of the second, so a prompt that grows keeps its beginning.
pub proof fn law_chatml_turns_follow(
    a: Seq<(Seq<char>, Seq<char>)>,
    b: Seq<(Seq<char>, Seq<char>)>,
)
    ensures
        chatml_turns(a + b) == chatml_turns(a) + chatml_turns(b),
        prompt_of(Dialect::ChatMl, a) == chatml_turns(a) + "<|im_start|>assistant\n"@,
        prompt_of(Dialect::ChatMl, a + b) == chatml_turns(a) + prompt_of(Dialect::ChatMl, b),
    decreases b.len(),
{
    if b.len() == 0 {
        assert(a + b =~= a);
        assert(chatml_turns(a) + chatml_turns(b) =~= chatml_turns(a));
    } else {
        law_chatml_turns_follow(a, b.drop_last());
        assert((a + b).drop_last() =~= a + b.drop_last());
        assert((a + b).last() == b.last());
        assert(chatml_turns(a + b) =~= chatml_turns(a) + chatml_turns(b));
    }
    assert(prompt_of(Dialect::ChatMl, a + b) =~= chatml_turns(a) + prompt_of(Dialect::ChatMl, b));
}

/// A single turn of ChatML: nothing where it is blank, else its role and its text as they are.
pub proof fn law_chatml_turn(role: Seq<char>, content: Seq<char>)
    ensures
        prompt_of(Dialect::ChatMl, seq![(role, content)]) == (if text::is_blank(content) {
            "<|im_start|>assistant\n"@
        } else {
            "<|im_start|>"@ + role + "\n"@ + content + "<|im_end|>\n"@ + "<|im_start|>assistant\n"@
        }),
{
    let t = seq![(role, content)];
    assert(t.drop_last() =~= Seq::<(Seq<char>, Seq<char>)>::empty());
    assert(chatml_turns(t.drop_last()) =~= Seq::<char>::empty());
    if text::is_blank(content) {
        assert(prompt_of(Dialect::ChatMl, t) =~= "<|im_start|>assistant\n"@);
    } else {
        assert(prompt_of(Dialect::ChatMl, t) =~= "<|im_start|>"@ + role + "\n"@ + content
            + "<|im_end|>\n"@ + "<|im_start|>assistant\n"@);
    }
}

fn render_chatml(messages: &[(String, String)]) -> (r: String)
    ensures
        r@ == prompt_of(Dialect::ChatMl, turns(messages@)),
{
    let ghost t = turns(messages@);
    let mut s = String::new();
    let mut i: usize = 0;
    proof {
        assert(t.take(0) =~= Seq::<(Seq<char>, Seq<char>)>::empty());
        assert(s@ =~= chatml_turns(t.take(0)));
    }
    while i < messages.len()
        invariant
            t == turns(messages@),
            i <= messages@.len(),
            s@ == chatml_turns(t.take(i as int)),
        decreases messages.len() - i,
    {
        proof {
            assert(t.take(i as int + 1).drop_last() =~= t.take(i as int));
            assert(t.take(i as int + 1).last() == (messages@[i as int].0@, messages@[i as int].1@));
        }
        let content = messages[i].1.as_str();
        if !text::str_is_blank(content) {
            s.append("<|im_start|>");
            s.append(messages[i].0.as_str());
            s.append("\n");
            s.append(content);
            s.append("<|im_end|>\n");
        }
        i = i + 1;
    }
    proof {
        assert(t.take(i as int) =~= t);
    }
    s.append("<|im_start|>assistant\n");
    s
}

fn model_or_user(role: &str) -> (r: &'static str)
    ensures
        r@ == gemma_role(role@),
{
    if text::str_eq(role, "assistant") {
        "model"
    } else {
        "user"
    }
}

fn render_gemma(messages: &[(String, String)]) -> (r: String)
    ensures
        r@ == prompt_of(Dialect::Gemma, turns(messages@)),
{
    let list = fold_system_into_user(messages);
    let ghost t = turns(list@);
    let mut s = String::new();
    let mut i: usize = 0;
    proof {
        assert(t.take(0) =~= Seq::<(Seq<char>, Seq<char>)>::empty());
        assert(s@ =~= gemma_turns(t.take(0)));
    }
    while i < list.len()
        invariant
            t == turns(list@),
            i <= list@.len(),
            s@ == gemma_turns(t.take(i as int)),
        decreases list.len() - i,
    {
        proof {
            assert(t.take(i as int + 1).drop_last() =~= t.take(i as int));
            assert(t.take(i as int + 1).last() == (list@[i as int].0@, list@[i as int].1@));
        }
        let content = list[i].1.as_str();
        if !text::str_is_blank(content) {
            s.append("<start_of_turn>");
            s.append(model_or_user(list[i].0.as_str()));
            s.append("\n");
            s.append(content);
            s.append("<end_of_turn>\n");
        }
        i = i + 1;
    }
    proof {
        assert(t.take(i as int) =~= t);
    }
    s.append("<start_of_turn>model\n");
    s
}

fn render_gemma4(messages: &[(String, String)]) -> (r: String)
    ensures
        r@ == prompt_of(Dialect::Gemma4, turns(messages@)),
{
    let ghost t = turns(messages@);
    let mut s = String::new();
    let mut i: usize = 0;
    if messages.len() > 0 && text::str_eq(messages[0].0.as_str(), "system") && !text::str_is_blank(
        messages[0].1.as_str(),
    ) {
        s.append("<|turn>system\n");
        s.append(text::str_trim(messages[0].1.as_str()).as_str());
        s.append("<turn|>\n");
        i = 1;
    }
    let ghost first = i as int;
    let ghost head = s@;
    let ghost u = t.skip(first);
    proof {
        assert(opens_with_system(t) == (first == 1));
        assert(first == 0 ==> head =~= Seq::<char>::empty());
        assert(first == 1 ==> head =~= "<|turn>system\n"@ + text::trim(t[0].1) + "<turn|>\n"@);
        assert(u.take(0) =~= Seq::<(Seq<char>, Seq<char>)>::empty());
        assert(s@ =~= head + gemma4_turns(u.take(0)));
    }
    while i < messages.len()
        invariant
            t == turns(messages@),
            0 <= first <= i <= messages@.len(),
            u == t.skip(first),
            s@ == head + gemma4_turns(u.take(i - first)),
        decreases messages.len() - i,
    {
        proof {
            assert(u.take(i - first + 1).drop_last() =~= u.take(i - first));
            assert(u.take(i - first + 1).last() == (
                messages@[i as int].0@,
                messages@[i as int].1@,
            ));
        }
        let content = messages[i].1.as_str();
        let ghost before = gemma4_turns(u.take(i - first));
        if !text::str_is_blank(content) {
            s.append("<|turn>");
            s.append(model_or_user(messages[i].0.as_str()));
            s.append("\n");
            s.append(text::str_trim(content).as_str());
            s.append("<turn|>\n");
            proof {
                assert(s@ =~= head + (before + "<|turn>"@ + gemma_role(messages@[i as int].0@)
                    + "\n"@ + text::trim(content@) + "<turn|>\n"@));
            }
        }
        i = i + 1;
    }
    proof {
        assert(u.take(i - first) =~= u);
        assert(t.skip(0) =~= t);
    }
    s.append("<|turn>model\n");
    proof {
        assert(s@ =~= prompt_of(Dialect::Gemma4, t));
    }
    s
}

/// Folds all system turns into the first user turn, for templates without a system role.
pub fn fold_system_into_user(messages: &[(String, String)]) -> (r: Vec<(String, String)>)
    ensures
        turns(r@) == folded(turns(messages@)),
{
    let ghost t = turns(messages@);
    let mut parts: Vec<String> = Vec::new();
    let mut i: usize = 0;
    proof {
        assert(t.take(0) =~= Seq::<(Seq<char>, Seq<char>)>::empty());
        assert(text::texts(parts@) =~= system_texts(t.take(0)));
    }
    while i < messages.len()
        invariant
            t == turns(messages@),
            i <= messages@.len(),
            text::texts(parts@) == system_texts(t.take(i as int)),
        decreases messages.len() - i,
    {
        proof {
            assert(t.take(i as int + 1).drop_last() =~= t.take(i as int));
            assert(t.take(i as int + 1).last() == (messages@[i as int].0@, messages@[i as int].1@));
        }
        let ghost before = parts@;
        if text::str_eq(messages[i].0.as_str(), "system") {
            parts.push(text::copy(messages[i].1.as_str()));
            proof {
                assert(text::texts(parts@) =~= text::texts(before).push(messages@[i as int].1@));
            }
        }
        i = i + 1;
    }
    proof {
        assert(t.take(i as int) =~= t);
    }
    let system = text::join_strings(&parts, "\n\n");
    let mut out: Vec<(String, String)> = Vec::new();
    let mut seen = false;
    let mut j: usize = 0;
    proof {
        assert(turns(out@) =~= injected(t.take(0), system@));
        assert(!has_user(t.take(0)));
    }
    while j < messages.len()
        invariant
            t == turns(messages@),
            j <= messages@.len(),
            system@ == system_text(t),
            seen == has_user(t.take(j as int)),
            turns(out@) == injected(t.take(j as int), system@),
        decreases messages.len() - j,
    {
        let ghost sofar = t.take(j as int);
        let ghost next = t.take(j as int + 1);
        proof {
            assert(next.drop_last() =~= sofar);
            assert(next.last() == (messages@[j as int].0@, messages@[j as int].1@));
            if has_user(sofar) {
                let a = choose|a: int| 0 <= a < sofar.len() && (#[trigger] sofar[a]).0 == "user"@;
                assert(next[a].0 == "user"@);
            }
            if next.last().0 == "user"@ {
                assert(next[j as int].0 == "user"@);
            }
            if has_user(next) && next.last().0 != "user"@ {
                let a = choose|a: int| 0 <= a < next.len() && (#[trigger] next[a]).0 == "user"@;
                assert(sofar[a].0 == "user"@);
            }
        }
        let role = messages[j].0.as_str();
        let content = messages[j].1.as_str();
        let is_user = text::str_eq(role, "user");
        let ghost before = out@;
        if !text::str_eq(role, "system") {
            if !system.as_str().is_empty() && is_user && !seen {
                let mut s = text::copy(system.as_str());
                s.append("\n\n");
                s.append(content);
                out.push((text::copy("user"), s));
                proof {
                    assert(turns(out@) =~= turns(before).push(
                        ("user"@, system@ + "\n\n"@ + content@),
                    ));
                }
            } else {
                out.push((text::copy(role), text::copy(content)));
                proof {
                    assert(turns(out@) =~= turns(before).push((role@, content@)));
                }
            }
        }
        if is_user {
            seen = true;
        }
        j = j + 1;
    }
    proof {
        assert(t.take(j as int) =~= t);
    }
    if !system.as_str().is_empty() && !seen {
        let ghost before = out@;
        out.insert(0, (text::copy("user"), system));
        proof {
            assert(turns(out@) =~= seq![("user"@, system_text(t))] + turns(before));
        }
    }
    out
}

// ---- laws ------------------------------------------------------------------------------------------

proof fn lemma_markers(d: Dialect)
    ensures
        forall|k: int|
            0 <= k < spans(d).len() ==> (#[trigger] spans(d)[k]).0.len() > 0
                && spans(d)[k].1.len() > 0,
        filter::spans_progress(markers(d)),
{
    reveal_strlit("<|channel>");
    reveal_strlit("<channel|>");
    reveal_strlit("<think>");
    reveal_strlit("</think>");
}

/// A text cannot occur in another one that has its first character at the beginning alone,
/// and then differs from it.
proof fn lemma_apart(a: Seq<char>, b: Seq<char>, k: int, d: int)
    requires
        a.len() > 0,
        b.len() > 0,
        a[0] == '<',
        forall|i: int| 0 < i < b.len() ==> b[i] != '<',
        0 <= d < a.len(),
        d < b.len() ==> a[d] != b[d],
    ensures
        !text::occurs_at(b, a, k),
{
    if text::occurs_at(b, a, k) {
        assert(b.subrange(k, k + a.len())[0] == b[k]);
        assert(k == 0);
        assert(b.subrange(0, a.len() as int)[d] == b[d]);
    }
}

/// In every dialect, no marker that starts something occurs within another one: so what a
/// stream filter shows does not depend on how the text is cut into pieces.
pub proof fn law_markers_are_independent(d: Dialect)
    ensures
        filter::independent(markers(d)),
        filter::spans_progress(markers(d)),
{
    lemma_markers(d);
    reveal_strlit("<tool_call>");
    reveal_strlit("<|tool_call>");
    reveal_strlit("<|channel>");
    reveal_strlit("<think>");
    let all = filter::starters(markers(d));
    let tool = "<tool_call>"@;
    let native = "<|tool_call>"@;
    let channel = "<|channel>"@;
    let think = "<think>"@;
    match d {
        Dialect::Gemma4 => {
            assert(all =~= seq![tool, native, channel, think]);
        },
        _ => {
            assert(all =~= seq![tool, think]);
        },
    }
    assert forall|i: int, j: int, k: int|
        0 <= i < all.len() && 0 <= j < all.len() && #[trigger] text::occurs_at(
            all[j],
            all[i],
            k,
        ) implies all[i] == all[j] by {
        let a = all[i];
        let b = all[j];
        if a != b {
            if (a == tool || a == think) && (b == native || b == channel) {
                lemma_apart(a, b, k, 1);
            } else if (a == native || a == channel) && (b == tool || b == think) {
                lemma_apart(a, b, k, 1);
            } else if a == tool && b == think {
                lemma_apart(a, b, k, 2);
            } else if a == think && b == tool {
                lemma_apart(a, b, k, 2);
            } else if a == native && b == channel {
                lemma_apart(a, b, k, 2);
            } else {
                lemma_apart(a, b, k, 2);
            }
        }
    }
}

proof fn lemma_same_spans(m: Markers, sm: Markers, s: Seq<char>, p: int, k: int)
    requires
        m.spans == sm.spans,
    ensures
        filter::span_at(m, s, p, k) == filter::span_at(sm, s, p, k),
    decreases m.spans.len() - k,
{
    assert(filter::opens_at(m, s, k, p) == filter::opens_at(sm, s, k, p));
    if k < m.spans.len() && !filter::opens_at(m, s, k, p) {
        lemma_same_spans(m, sm, s, p, k + 1);
    }
}

proof fn lemma_same_marker(m: Markers, sm: Markers, s: Seq<char>, from: int)
    requires
        m.spans == sm.spans,
        sm.openers.len() == 0,
        forall|p: int| !#[trigger] filter::tool_at(m, s, p),
    ensures
        filter::next_marker(m, s, from) == filter::next_marker(sm, s, from),
        filter::next_marker(m, s, from) matches Some(p) ==> from <= p <= s.len()
            && filter::marker_at(sm, s, p),
    decreases s.len() - from + 1,
{
    if 0 <= from <= s.len() {
        assert(!filter::tool_at(m, s, from));
        assert(!filter::tool_at(sm, s, from));
        if exists|k: int| #[trigger] filter::opens_at(m, s, k, from) {
            let k = choose|k: int| #[trigger] filter::opens_at(m, s, k, from);
            assert(filter::opens_at(sm, s, k, from));
        } else if exists|k: int| #[trigger] filter::opens_at(sm, s, k, from) {
            let k = choose|k: int| #[trigger] filter::opens_at(sm, s, k, from);
            assert(filter::opens_at(m, s, k, from));
        }
        assert(filter::marker_at(m, s, from) == filter::marker_at(sm, s, from));
        if !filter::marker_at(m, s, from) {
            lemma_same_marker(m, sm, s, from + 1);
        }
    }
}

proof fn lemma_first_span(m: Markers, s: Seq<char>, p: int, from: int, k: int)
    requires
        0 <= from <= k,
        filter::opens_at(m, s, k, p),
    ensures
        from <= filter::span_at(m, s, p, from) <= k,
        filter::opens_at(m, s, filter::span_at(m, s, p, from), p),
    decreases k - from,
{
    if !filter::opens_at(m, s, from, p) {
        lemma_first_span(m, s, p, from + 1, k);
    }
}

proof fn lemma_drain_strips(m: Markers, sm: Markers, s: Seq<char>, from: int)
    requires
        m.spans == sm.spans,
        sm.openers.len() == 0,
        0 <= from <= s.len(),
        forall|p: int| !#[trigger] filter::tool_at(m, s, p),
        filter::partial_start(m, s, 0) == s.len(),
        forall|k: int| 0 <= k < m.spans.len() ==> (#[trigger] m.spans[k]).1.len() > 0,
    ensures
        filter::drain(m, s, from).1 + filter::flush(m, filter::drain(m, s, from).0)
            == without_spans(sm, s, from),
    decreases s.len() - from,
{
    lemma_same_marker(m, sm, s, from);
    match filter::next_marker(m, s, from) {
        None => {
            let n = text::chars_within(
                s,
                if text::byte_len(s) < filter::holdback(m) {
                    0
                } else {
                    (text::byte_len(s) - filter::holdback(m)) as nat
                },
            ) as int;
            text::lemma_chars_within(
                s,
                if text::byte_len(s) < filter::holdback(m) {
                    0
                } else {
                    (text::byte_len(s) - filter::holdback(m)) as nat
                },
            );
            let e = filter::safe_end(m, s, from);
            assert(from <= e <= s.len());
            assert(s.subrange(from, e) + s.subrange(e, s.len() as int) =~= s.skip(from));
            assert(s.subrange(e, e) =~= Seq::<char>::empty());
            if e == s.len() {
                assert(s.subrange(from, e) + Seq::<char>::empty() =~= s.skip(from));
            }
        },
        Some(p) => {
            assert(!filter::tool_at(m, s, p));
            assert(!filter::tool_at(sm, s, p));
            lemma_same_spans(m, sm, s, p, 0);
            let k = choose|k: int| #[trigger] filter::opens_at(sm, s, k, p);
            lemma_first_span(sm, s, p, 0, k);
            let span = m.spans[filter::span_at(m, s, p, 0)];
            let body = p + span.0.len();
            text::lemma_find_from(s, span.1, body);
            match text::find_from(s, span.1, body) {
                None => {
                    assert(s.subrange(from, p) + Seq::<char>::empty() =~= s.subrange(from, p));
                },
                Some(j) => {
                    let next = j + span.1.len();
                    lemma_drain_strips(m, sm, s, next);
                    let rest = filter::drain(m, s, next);
                    assert((s.subrange(from, p) + rest.1) + filter::flush(m, rest.0)
                        =~= s.subrange(from, p) + (rest.1 + filter::flush(m, rest.0)));
                },
            }
        },
    }
}

/// The chat shows what the history keeps: of a text without a tool call that does not end in
/// the beginning of a marker, the stream filter shows what is left when the reasoning is
/// dropped.
pub proof fn law_chat_shows_what_history_keeps(d: Dialect, s: Seq<char>)
    requires
        forall|p: int| !#[trigger] filter::tool_at(markers(d), s, p),
        filter::partial_start(markers(d), s, 0) == s.len(),
    ensures
        filter::visible(markers(d), s) == shown_text(d, s),
{
    lemma_markers(d);
    lemma_drain_strips(markers(d), span_markers(d), s, 0);
}

/// The result of a tool reaches the model whole, between the markers that its family was taught,
/// and results that differ make messages that differ.
pub proof fn law_results_reach_the_model(
    d: Dialect,
    name: Seq<char>,
    result: Seq<char>,
    other: Seq<char>,
)
    ensures
        ({
            let open = match d {
                Dialect::Gemma4 => "<|tool_response>response:"@ + name + "{value:<|\"|>"@,
                _ => "<tool_response>\n"@,
            };
            let close = match d {
                Dialect::Gemma4 => "<|\"|>}<tool_response|>"@,
                _ => "\n</tool_response>"@,
            };
            tool_response(d, name, result) == open + result + close
        }),
        text::contains(tool_response(d, name, result), result),
        tool_response(d, name, result) == tool_response(d, name, other) ==> result == other,
{
    let open = match d {
        Dialect::Gemma4 => "<|tool_response>response:"@ + name + "{value:<|\"|>"@,
        _ => "<tool_response>\n"@,
    };
    let close = match d {
        Dialect::Gemma4 => "<|\"|>}<tool_response|>"@,
        _ => "\n</tool_response>"@,
    };
    let a = tool_response(d, name, result);
    let b = tool_response(d, name, other);
    assert(a =~= open + result + close);
    assert(b =~= open + other + close);
    let n = open.len() as int;
    assert(a.subrange(n, n + result.len()) =~= result);
    assert(text::occurs_at(a, result, n));
    if a == b {
        assert(a.len() == b.len());
        assert(b.subrange(n, n + other.len()) =~= other);
    }
}

/// The family of a model goes by its architecture: a name that begins with `gemma4` or `gemma-4`
/// is Gemma 4, any other name with `gemma` in it is Gemma, and all others speak ChatML.
pub proof fn law_families(arch: Seq<char>)
    ensures
        dialect_of(arch) == Dialect::Gemma4 <==> (text::starts_with(arch, "gemma4"@)
            || text::starts_with(arch, "gemma-4"@)),
        dialect_of(arch) == Dialect::ChatMl <==> !text::contains(arch, "gemma"@),
{
    reveal_strlit("gemma4");
    reveal_strlit("gemma-4");
    reveal_strlit("gemma");
    if text::starts_with(arch, "gemma4"@) {
        assert(arch.subrange(0, 5) =~= "gemma4"@.subrange(0, 5)) by {
            assert(arch.take(6) =~= "gemma4"@ || arch.subrange(0, 6) =~= "gemma4"@);
            assert forall|i: int| 0 <= i < 5 implies arch.subrange(0, 5)[i] == "gemma4"@[i] by {
                assert(arch.subrange(0, 6)[i] == arch[i]);
            }
        }
        assert("gemma4"@.subrange(0, 5) =~= "gemma"@);
        assert(text::occurs_at(arch, "gemma"@, 0));
    }
    if text::starts_with(arch, "gemma-4"@) {
        assert(arch.subrange(0, 5) =~= "gemma-4"@.subrange(0, 5)) by {
            assert forall|i: int| 0 <= i < 5 implies arch.subrange(0, 5)[i] == "gemma-4"@[i] by {
                assert(arch.subrange(0, 7)[i] == arch[i]);
            }
        }
        assert("gemma-4"@.subrange(0, 5) =~= "gemma"@);
        assert(text::occurs_at(arch, "gemma"@, 0));
    }
}

/// Generation stops where the model ends its turn or a tool call: the last text that stops it is
/// the one that ends every turn of the prompt.
pub proof fn law_stops_end_turns(d: Dialect, content: Seq<char>)
    requires
        !text::is_blank(content),
    ensures
        stops(d).contains("</tool_call>"@),
        d == Dialect::Gemma4 ==> stops(d).contains("<tool_call|>"@),
        stops(d).len() == (if d == Dialect::Gemma4 {
            3nat
        } else {
            2nat
        }),
        text::contains(prompt_of(d, seq![("user"@, content)]), stops(d).last()),
{
    let t = seq![("user"@, content)];
    assert(stops(d)[0] == "</tool_call>"@);
    if d == Dialect::Gemma4 {
        assert(stops(d)[1] == "<tool_call|>"@);
    }
    assert(t.drop_last() =~= Seq::<(Seq<char>, Seq<char>)>::empty());
    let p = prompt_of(d, t);
    let end = stops(d).last();
    match d {
        Dialect::ChatMl => {
            reveal_strlit("<|im_end|>\n");
            reveal_strlit("<|im_end|>");
            let head = chatml_turns(t.drop_last()) + "<|im_start|>"@ + "user"@ + "\n"@ + content;
            assert(chatml_turns(t) == head + "<|im_end|>\n"@);
            assert(p == chatml_turns(t) + "<|im_start|>assistant\n"@);
            let n = head.len() as int;
            assert("<|im_end|>\n"@.subrange(0, 10) =~= "<|im_end|>"@);
            assert forall|i: int| 0 <= i < 10 implies p.subrange(n, n + 10)[i] == "<|im_end|>"@[i] by {
                assert(p[n + i] == "<|im_end|>\n"@[i]);
                assert("<|im_end|>\n"@.subrange(0, 10)[i] == "<|im_end|>\n"@[i]);
            }
            assert(p.subrange(n, n + 10) =~= "<|im_end|>"@);
            assert(text::occurs_at(p, end, n));
        },
        Dialect::Gemma => {
            reveal_strlit("<end_of_turn>\n");
            reveal_strlit("<end_of_turn>");
            lemma_fold_user(content);
            let head = gemma_turns(t.drop_last()) + "<start_of_turn>"@ + gemma_role("user"@) + "\n"@
                + content;
            assert(gemma_turns(t) == head + "<end_of_turn>\n"@);
            let n = head.len() as int;
            assert forall|i: int| 0 <= i < 13 implies p.subrange(n, n + 13)[i]
                == "<end_of_turn>"@[i] by {
                assert(p[n + i] == "<end_of_turn>\n"@[i]);
                assert("<end_of_turn>\n"@.subrange(0, 13) =~= "<end_of_turn>"@);
                assert("<end_of_turn>\n"@.subrange(0, 13)[i] == "<end_of_turn>\n"@[i]);
            }
            assert(p.subrange(n, n + 13) =~= "<end_of_turn>"@);
            assert(text::occurs_at(p, end, n));
        },
        Dialect::Gemma4 => {
            reveal_strlit("<turn|>\n");
            reveal_strlit("<turn|>");
            reveal_strlit("user");
            reveal_strlit("system");
            assert("user"@.len() != "system"@.len());
            let head = gemma4_turns(t.drop_last()) + "<|turn>"@ + gemma_role("user"@) + "\n"@
                + text::trim(content);
            assert(gemma4_turns(t) == head + "<turn|>\n"@);
            let n = head.len() as int;
            assert forall|i: int| 0 <= i < 7 implies p.subrange(n, n + 7)[i] == "<turn|>"@[i] by {
                assert(p[n + i] == "<turn|>\n"@[i]);
                assert("<turn|>\n"@.subrange(0, 7) =~= "<turn|>"@);
                assert("<turn|>\n"@.subrange(0, 7)[i] == "<turn|>\n"@[i]);
            }
            assert(p.subrange(n, n + 7) =~= "<turn|>"@);
            assert(text::occurs_at(p, end, n));
        },
    }
}

proof fn lemma_fold_user(content: Seq<char>)
    ensures
        folded(seq![("user"@, content)]) == seq![("user"@, content)],
{
    reveal_strlit("user");
    reveal_strlit("system");
    assert("user"@.len() != "system"@.len());
    let t = seq![("user"@, content)];
    let none = Seq::<(Seq<char>, Seq<char>)>::empty();
    assert(t.drop_last() =~= none);
    assert(system_texts(none) =~= Seq::<Seq<char>>::empty());
    assert(system_texts(t) =~= Seq::<Seq<char>>::empty());
    assert(system_text(t) =~= Seq::<char>::empty());
    assert(injected(none, system_text(t)) =~= none);
    assert(injected(t, system_text(t)) =~= t);
}

/// What folding makes of a conversation: all system turns, one after the other, come before the
/// text of the first user turn, or are a user turn of their own where there is none; every other
/// turn stays as it is, in order.
pub proof fn law_system_turns_are_folded(t: Seq<(Seq<char>, Seq<char>)>, first: int)
    ensures
        ({
            let system = text::join(
                t.filter(|p: (Seq<char>, Seq<char>)| p.0 == "system"@).map_values(
                    |p: (Seq<char>, Seq<char>)| p.1,
                ),
                "\n\n"@,
            );
            let rest = t.filter(|p: (Seq<char>, Seq<char>)| p.0 != "system"@);
            &&& system.len() == 0 ==> folded(t) == rest
            &&& system.len() > 0 && (forall|i: int|
                0 <= i < rest.len() ==> (#[trigger] rest[i]).0 != "user"@) ==> folded(t) == seq![
                ("user"@, system),
            ] + rest
            &&& system.len() > 0 && 0 <= first < rest.len() && rest[first].0 == "user"@ && (forall|
                i: int,
            |
                0 <= i < first ==> (#[trigger] rest[i]).0 != "user"@) ==> folded(t) == rest.update(
                first,
                ("user"@, system + "\n\n"@ + rest[first].1),
            )
        }),
{
    lemma_fold(t, system_text(t));
    lemma_system_texts(t);
    let rest = t.filter(|p: (Seq<char>, Seq<char>)| p.0 != "system"@);
    let system = system_text(t);
    if system.len() > 0 {
        if first_user(rest) < rest.len() {
            if 0 <= first < rest.len() && rest[first].0 == "user"@ && (forall|i: int|
                0 <= i < first ==> (#[trigger] rest[i]).0 != "user"@) {
                lemma_first_user(rest);
                let k = first_user(rest);
                if k < first {
                    assert(rest[k].0 != "user"@);
                } else if first < k {
                    assert(rest[first].0 != "user"@);
                }
            }
        }
        lemma_first_user(rest);
    }
}

/// The place of the first user turn, or the end.
spec fn first_user(t: Seq<(Seq<char>, Seq<char>)>) -> int
    decreases t.len(),
{
    if t.len() == 0 {
        0
    } else if first_user(t.drop_last()) < t.len() - 1 || t.last().0 == "user"@ {
        first_user(t.drop_last())
    } else {
        t.len() as int
    }
}

proof fn lemma_first_user(t: Seq<(Seq<char>, Seq<char>)>)
    ensures
        0 <= first_user(t) <= t.len(),
        first_user(t) < t.len() ==> t[first_user(t)].0 == "user"@,
        forall|i: int| 0 <= i < first_user(t) ==> (#[trigger] t[i]).0 != "user"@,
        has_user(t) == (first_user(t) < t.len()),
    decreases t.len(),
{
    if t.len() > 0 {
        let front = t.drop_last();
        lemma_first_user(front);
        let k = first_user(t);
        assert forall|i: int| 0 <= i < k implies (#[trigger] t[i]).0 != "user"@ by {
            if i < front.len() {
                assert(front[i] == t[i]);
            }
        }
        if k < t.len() {
            assert(t[k].0 == "user"@);
        }
    }
}

proof fn lemma_system_texts(t: Seq<(Seq<char>, Seq<char>)>)
    ensures
        system_texts(t) == t.filter(|p: (Seq<char>, Seq<char>)| p.0 == "system"@).map_values(
            |p: (Seq<char>, Seq<char>)| p.1,
        ),
    decreases t.len(),
{
    let sys = |p: (Seq<char>, Seq<char>)| p.0 == "system"@;
    let txt = |p: (Seq<char>, Seq<char>)| p.1;
    if t.len() == 0 {
        reveal(Seq::filter);
        assert(t.filter(sys).map_values(txt) =~= Seq::<Seq<char>>::empty());
    } else {
        let front = t.drop_last();
        lemma_system_texts(front);
        assert(t =~= front.push(t.last()));
        front.lemma_filter_push(t.last(), sys);
        assert(front.filter(sys).push(t.last()).map_values(txt) =~= front.filter(sys).map_values(
            txt,
        ).push(t.last().1));
    }
}

proof fn lemma_fold(t: Seq<(Seq<char>, Seq<char>)>, system: Seq<char>)
    ensures
        ({
            let rest = t.filter(|p: (Seq<char>, Seq<char>)| p.0 != "system"@);
            &&& has_user(t) == has_user(rest)
            &&& system.len() == 0 || !has_user(t) ==> injected(t, system) == rest
            &&& system.len() > 0 && has_user(t) ==> injected(t, system) == rest.update(
                first_user(rest),
                ("user"@, system + "\n\n"@ + rest[first_user(rest)].1),
            )
        }),
    decreases t.len(),
{
    let other = |p: (Seq<char>, Seq<char>)| p.0 != "system"@;
    let rest = t.filter(other);
    reveal_strlit("user");
    reveal_strlit("system");
    assert("user"@.len() != "system"@.len());
    if t.len() == 0 {
        reveal(Seq::filter);
        assert(injected(t, system) =~= rest);
    } else {
        let front = t.drop_last();
        let p = t.last();
        lemma_fold(front, system);
        assert(t =~= front.push(p));
        front.lemma_filter_push(p, other);
        let kept = front.filter(other);
        lemma_first_user(t);
        lemma_first_user(front);
        lemma_first_user(kept);
        lemma_first_user(rest);
        if other(p) {
            assert(rest == kept.push(p));
            assert(rest.drop_last() =~= kept);
            if has_user(front) {
                let i = choose|i: int| 0 <= i < front.len() && (#[trigger] front[i]).0 == "user"@;
                assert(t[i].0 == "user"@);
                assert(first_user(rest) == first_user(kept));
                if system.len() > 0 {
                    assert(injected(t, system) =~= rest.update(
                        first_user(rest),
                        ("user"@, system + "\n\n"@ + rest[first_user(rest)].1),
                    ));
                } else {
                    assert(injected(t, system) =~= rest);
                }
            } else if p.0 == "user"@ {
                assert(t[t.len() - 1].0 == "user"@);
                assert(rest[rest.len() - 1].0 == "user"@);
                assert(first_user(rest) == kept.len());
                if system.len() > 0 {
                    assert(injected(t, system) =~= rest.update(
                        first_user(rest),
                        ("user"@, system + "\n\n"@ + rest[first_user(rest)].1),
                    ));
                } else {
                    assert(injected(t, system) =~= rest);
                }
            } else {
                assert(!has_user(t)) by {
                    if has_user(t) {
                        let i = choose|i: int| 0 <= i < t.len() && (#[trigger] t[i]).0 == "user"@;
                        assert(front[i].0 == "user"@);
                    }
                }
                assert(injected(t, system) =~= rest);
            }
        } else {
            assert(rest == kept);
            if has_user(front) {
                let i = choose|i: int| 0 <= i < front.len() && (#[trigger] front[i]).0 == "user"@;
                assert(t[i].0 == "user"@);
            } else if has_user(t) {
                let i = choose|i: int| 0 <= i < t.len() && (#[trigger] t[i]).0 == "user"@;
                assert(front[i].0 == "user"@);
            }
        }
    }
}

/// The turns of a Gemma prompt, one after the other: blank ones are left out, the assistant is
/// called `model` and everyone else `user`, and the prompt ends with the header of the model's
/// turn.
pub proof fn law_gemma_turns_follow(
    a: Seq<(Seq<char>, Seq<char>)>,
    role: Seq<char>,
    content: Seq<char>,
)
    ensures
        prompt_of(Dialect::Gemma, a) == gemma_turns(folded(a)) + "<start_of_turn>model\n"@,
        gemma_turns(Seq::<(Seq<char>, Seq<char>)>::empty()) == Seq::<char>::empty(),
        text::is_blank(content) ==> gemma_turns(a.push((role, content))) == gemma_turns(a)
            && gemma4_turns(a.push((role, content))) == gemma4_turns(a),
        !text::is_blank(content) && role == "assistant"@ ==> gemma_turns(a.push((role, content)))
            == gemma_turns(a) + "<start_of_turn>"@ + "model"@ + "\n"@ + content + "<end_of_turn>\n"@
            && gemma4_turns(a.push((role, content))) == gemma4_turns(a) + "<|turn>"@ + "model"@
            + "\n"@ + text::trim(content) + "<turn|>\n"@,
        !text::is_blank(content) && role != "assistant"@ ==> gemma_turns(a.push((role, content)))
            == gemma_turns(a) + "<start_of_turn>"@ + "user"@ + "\n"@ + content + "<end_of_turn>\n"@
            && gemma4_turns(a.push((role, content))) == gemma4_turns(a) + "<|turn>"@ + "user"@
            + "\n"@ + text::trim(content) + "<turn|>\n"@,
{
    assert(a.push((role, content)).drop_last() =~= a);
}

/// A Gemma 4 prompt keeps a system turn that stands first as one, and ends with the header of the
/// model's turn.
pub proof fn law_gemma4_system_turn(system: Seq<char>, rest: Seq<(Seq<char>, Seq<char>)>)
    ensures
        !text::is_blank(system) ==> prompt_of(Dialect::Gemma4, seq![("system"@, system)] + rest)
            == "<|turn>system\n"@ + text::trim(system) + "<turn|>\n"@ + gemma4_turns(rest)
            + "<|turn>model\n"@,
        rest.len() == 0 || rest[0].0 != "system"@ ==> prompt_of(Dialect::Gemma4, rest)
            == gemma4_turns(rest) + "<|turn>model\n"@,
{
    let t = seq![("system"@, system)] + rest;
    assert(t[0] == ("system"@, system));
    assert(t.skip(1) =~= rest);
}

proof fn lemma_no_span(d: Dialect, s: Seq<char>, p: int)
    ensures
        filter::marker_at(span_markers(d), s, p) == (exists|k: int|
            0 <= k < spans(d).len() && text::occurs_at(s, (#[trigger] spans(d)[k]).0, p)),
{
    let m = span_markers(d);
    assert(!filter::tool_at(m, s, p));
    if exists|k: int| #[trigger] filter::opens_at(m, s, k, p) {
        let k = choose|k: int| #[trigger] filter::opens_at(m, s, k, p);
        assert(text::occurs_at(s, spans(d)[k].0, p));
    }
    if exists|k: int| 0 <= k < spans(d).len() && text::occurs_at(s, (#[trigger] spans(d)[k]).0, p) {
        let k = choose|k: int|
            0 <= k < spans(d).len() && text::occurs_at(s, (#[trigger] spans(d)[k]).0, p);
        assert(filter::opens_at(m, s, k, p));
    }
}

proof fn lemma_no_marker_from(m: Markers, s: Seq<char>, from: int)
    requires
        forall|p: int| from <= p <= s.len() ==> !#[trigger] filter::marker_at(m, s, p),
    ensures
        filter::next_marker(m, s, from) is None,
    decreases s.len() - from + 1,
{
    if 0 <= from <= s.len() {
        assert(!filter::marker_at(m, s, from));
        lemma_no_marker_from(m, s, from + 1);
    }
}

proof fn lemma_marker_from(m: Markers, s: Seq<char>, from: int, p: int)
    requires
        0 <= from <= p <= s.len(),
        filter::marker_at(m, s, p),
        forall|q: int| from <= q < p ==> !#[trigger] filter::marker_at(m, s, q),
    ensures
        filter::next_marker(m, s, from) == Some(p),
    decreases p - from,
{
    if from < p {
        assert(!filter::marker_at(m, s, from));
        lemma_marker_from(m, s, from + 1, p);
    }
}

proof fn lemma_occurs_shift(s: Seq<char>, t: Seq<char>, a: int, p: int)
    requires
        0 <= a <= s.len(),
        0 <= p,
    ensures
        text::occurs_at(s.skip(a), t, p) == text::occurs_at(s, t, p + a),
{
    if p + a + t.len() <= s.len() {
        assert(s.skip(a).subrange(p, p + t.len()) =~= s.subrange(p + a, p + a + t.len()));
    }
}

proof fn lemma_marker_shift(m: Markers, s: Seq<char>, a: int, p: int)
    requires
        0 <= a <= s.len(),
        0 <= p,
        m.openers.len() == 0,
    ensures
        filter::marker_at(m, s.skip(a), p) == filter::marker_at(m, s, p + a),
{
    let t = s.skip(a);
    assert(!filter::tool_at(m, t, p) && !filter::tool_at(m, s, p + a));
    assert forall|k: int| #[trigger] filter::opens_at(m, t, k, p) == filter::opens_at(
        m,
        s,
        k,
        p + a,
    ) by {
        if 0 <= k < m.spans.len() {
            lemma_occurs_shift(s, m.spans[k].0, a, p);
        }
    }
    if exists|k: int| #[trigger] filter::opens_at(m, s, k, p + a) {
        let k = choose|k: int| #[trigger] filter::opens_at(m, s, k, p + a);
        assert(filter::opens_at(m, t, k, p));
    }
}

proof fn lemma_next_shift(m: Markers, s: Seq<char>, a: int, from: int)
    requires
        0 <= a <= s.len(),
        0 <= from <= s.len() - a + 1,
        m.openers.len() == 0,
    ensures
        filter::next_marker(m, s, from + a) == (match filter::next_marker(m, s.skip(a), from) {
            Some(p) => Some(p + a),
            None => None,
        }),
        filter::next_marker(m, s.skip(a), from) matches Some(p) ==> from <= p <= s.len() - a
            && filter::marker_at(m, s.skip(a), p),
    decreases s.len() - a - from + 1,
{
    if from <= s.len() - a {
        lemma_marker_shift(m, s, a, from);
        if !filter::marker_at(m, s.skip(a), from) {
            lemma_next_shift(m, s, a, from + 1);
        }
    }
}

proof fn lemma_span_shift(m: Markers, s: Seq<char>, a: int, p: int, k: int)
    requires
        0 <= a <= s.len(),
        0 <= p,
        0 <= k,
    ensures
        filter::span_at(m, s.skip(a), p, k) == filter::span_at(m, s, p + a, k),
    decreases m.spans.len() - k,
{
    if k < m.spans.len() {
        lemma_occurs_shift(s, m.spans[k].0, a, p);
        lemma_span_shift(m, s, a, p, k + 1);
    }
}

proof fn lemma_find_shift(s: Seq<char>, t: Seq<char>, a: int, from: int)
    requires
        0 <= a <= s.len(),
        0 <= from,
    ensures
        text::find_from(s, t, from + a) == (match text::find_from(s.skip(a), t, from) {
            Some(i) => Some(i + a),
            None => None,
        }),
    decreases s.len() - a - from + 1,
{
    if from + a + t.len() <= s.len() {
        lemma_occurs_shift(s, t, a, from);
        lemma_find_shift(s, t, a, from + 1);
    }
}

proof fn lemma_spans_shift(m: Markers, s: Seq<char>, a: int, from: int)
    requires
        0 <= a <= s.len(),
        0 <= from <= s.len() - a,
        m.openers.len() == 0,
    ensures
        without_spans(m, s.skip(a), from) == without_spans(m, s, from + a),
    decreases s.len() - a - from,
{
    let t = s.skip(a);
    lemma_next_shift(m, s, a, from);
    match filter::next_marker(m, t, from) {
        None => {
            assert(t.skip(from) =~= s.skip(from + a));
        },
        Some(p) => {
            lemma_span_shift(m, s, a, p, 0);
            let span = m.spans[filter::span_at(m, t, p, 0)];
            lemma_find_shift(s, span.1, a, p + span.0.len());
            assert(t.subrange(from, p) =~= s.subrange(from + a, p + a));
            match text::find_from(t, span.1, p + span.0.len()) {
                Some(j) if from < j + span.1.len() <= t.len() => {
                    lemma_spans_shift(m, s, a, j + span.1.len());
                },
                _ => {},
            }
        },
    }
}

/// Reasoning begins in the text at `p`, as span `k`, and nowhere before; of spans that begin
/// there, it is the first.
pub open spec fn reasons_from(d: Dialect, s: Seq<char>, p: int, k: int) -> bool {
    &&& 0 <= k < spans(d).len()
    &&& text::occurs_at(s, spans(d)[k].0, p)
    &&& forall|j: int| 0 <= j < k ==> !text::occurs_at(s, (#[trigger] spans(d)[j]).0, p)
    &&& forall|q: int| 0 <= q < p ==> !#[trigger] reasoning_at(d, s, q)
}

pub open spec fn reasoning_at(d: Dialect, s: Seq<char>, q: int) -> bool {
    exists|j: int| 0 <= j < spans(d).len() && text::occurs_at(s, (#[trigger] spans(d)[j]).0, q)
}

/// Hidden reasoning is dropped with its markers, and nothing else: what is before it and what
/// follows its close stays; reasoning that is not closed hides the rest; and a text without any
/// stays whole.
pub proof fn law_reasoning_is_dropped(d: Dialect, s: Seq<char>, p: int, k: int)
    ensures
        (forall|q: int| 0 <= q <= s.len() ==> !#[trigger] reasoning_at(d, s, q)) ==> shown_text(d, s)
            == s,
        reasons_from(d, s, p, k) ==> (match text::find_from(
            s,
            spans(d)[k].1,
            p + spans(d)[k].0.len(),
        ) {
            Some(j) => shown_text(d, s) == s.take(p) + shown_text(
                d,
                s.skip(j + spans(d)[k].1.len()),
            ),
            None => shown_text(d, s) == s.take(p),
        }),
{
    let m = span_markers(d);
    lemma_markers(d);
    assert forall|q: int| #[trigger] filter::marker_at(m, s, q) == reasoning_at(d, s, q) by {
        lemma_no_span(d, s, q);
    }
    if forall|q: int| 0 <= q <= s.len() ==> !#[trigger] reasoning_at(d, s, q) {
        assert forall|q: int| 0 <= q <= s.len() implies !#[trigger] filter::marker_at(m, s, q) by {
            assert(!reasoning_at(d, s, q));
        }
        lemma_no_marker_from(m, s, 0);
        assert(s.skip(0) =~= s);
    }
    if reasons_from(d, s, p, k) {
        assert(reasoning_at(d, s, p)) by {
            assert(text::occurs_at(s, spans(d)[k].0, p));
        }
        assert forall|q: int| 0 <= q < p implies !#[trigger] filter::marker_at(m, s, q) by {
            assert(!reasoning_at(d, s, q));
        }
        assert(filter::marker_at(m, s, p));
        lemma_marker_from(m, s, 0, p);
        lemma_span_is(m, s, p, 0, k);
        let span = spans(d)[k];
        assert(s.subrange(0, p) =~= s.take(p));
        text::lemma_find_from(s, span.1, p + span.0.len());
        match text::find_from(s, span.1, p + span.0.len()) {
            Some(j) => {
                let a = j + span.1.len();
                lemma_spans_shift(m, s, a, 0);
            },
            None => {},
        }
    }
}

proof fn lemma_span_is(m: Markers, s: Seq<char>, p: int, from: int, k: int)
    requires
        0 <= from <= k < m.spans.len(),
        text::occurs_at(s, m.spans[k].0, p),
        forall|j: int| from <= j < k ==> !text::occurs_at(s, (#[trigger] m.spans[j]).0, p),
    ensures
        filter::span_at(m, s, p, from) == k,
    decreases k - from,
{
    if from < k {
        assert(!text::occurs_at(s, m.spans[from].0, p));
        lemma_span_is(m, s, p, from + 1, k);
    }
}

/// What a dialect hides is its reasoning: between `<think>` and `</think>`, and for Gemma 4 also
/// between the markers of its channel; a tool call begins with `<tool_call>`, and for Gemma 4 also
/// with its own marker.
pub proof fn law_markers(d: Dialect)
    ensures
        spans(d).contains(("<think>"@, "</think>"@)),
        spans(d).contains(("<|channel>"@, "<channel|>"@)) <==> d == Dialect::Gemma4,
        openers(d).contains("<tool_call>"@),
        openers(d).contains("<|tool_call>"@) <==> d == Dialect::Gemma4,
        spans(d).len() == openers(d).len() == (if d == Dialect::Gemma4 {
            2nat
        } else {
            1nat
        }),
{
    reveal_strlit("<tool_call>");
    reveal_strlit("<|tool_call>");
    reveal_strlit("<|channel>");
    reveal_strlit("<think>");
    assert("<tool_call>"@.len() != "<|tool_call>"@.len());
    assert("<think>"@.len() != "<|channel>"@.len());
    if d == Dialect::Gemma4 {
        assert(spans(d)[0] == ("<|channel>"@, "<channel|>"@));
        assert(spans(d)[1] == ("<think>"@, "</think>"@));
        assert(openers(d)[1] == "<|tool_call>"@);
    } else {
        assert(spans(d)[0] == ("<think>"@, "</think>"@));
    }
    assert(openers(d)[0] == "<tool_call>"@);
}

} // verus!
