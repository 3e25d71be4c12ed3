//! Reading a streamed reply: lines of server-sent events that carry pieces of text and of
//! tool calls.
use vstd::prelude::*;

use crate::json;
use crate::json::Json;
use crate::json::JsonV;
use crate::text;

verus! {

/// A tool call as far as it has arrived.
pub struct CallPart {
    pub id: String,
    pub name: String,
    pub args: String,
}

pub struct PartV {
    pub id: Seq<char>,
    pub name: Seq<char>,
    pub args: Seq<char>,
}

impl View for CallPart {
    type V = PartV;

    open spec fn view(&self) -> PartV {
        PartV { id: self.id@, name: self.name@, args: self.args@ }
    }
}

/// What the user is shown while the reply arrives.
pub enum StreamEvent {
    /// A piece of the assistant's text.
    Text(String),
    /// A tool call has begun.
    ToolStart { name: String, index: usize },
}

pub enum EventV {
    Text(Seq<char>),
    ToolStart { name: Seq<char>, index: usize },
}

impl View for StreamEvent {
    type V = EventV;

    open spec fn view(&self) -> EventV {
        match *self {
            StreamEvent::Text(s) => EventV::Text(s@),
            StreamEvent::ToolStart { name, index } => EventV::ToolStart { name: name@, index },
        }
    }
}

pub open spec fn events_view(v: Seq<StreamEvent>) -> Seq<EventV> {
    v.map_values(|e: StreamEvent| e@)
}

/// A reply as far as it has arrived.
pub struct StreamState {
    /// Text whose line has not ended yet.
    pub buffer: String,
    pub content: String,
    /// The tool calls, by the index that the server gave each, in order.
    pub calls: Vec<(usize, CallPart)>,
    pub finish_reason: String,
    pub prompt_tokens: u64,
    pub completion_tokens: u64,
}

pub struct StreamV {
    pub buffer: Seq<char>,
    pub content: Seq<char>,
    pub calls: Seq<(usize, PartV)>,
    pub finish_reason: Seq<char>,
    pub prompt_tokens: u64,
    pub completion_tokens: u64,
}

pub open spec fn calls_view(v: Seq<(usize, CallPart)>) -> Seq<(usize, PartV)> {
    v.map_values(|c: (usize, CallPart)| (c.0, c.1@))
}

impl View for StreamState {
    type V = StreamV;

    open spec fn view(&self) -> StreamV {
        StreamV {
            buffer: self.buffer@,
            content: self.content@,
            calls: calls_view(self.calls@),
            finish_reason: self.finish_reason@,
            prompt_tokens: self.prompt_tokens,
            completion_tokens: self.completion_tokens,
        }
    }
}

// ---- tool calls -----------------------------------------------------------------------------

/// Each index stands before the next larger one, and none stands twice.
pub open spec fn in_order(calls: Seq<(usize, PartV)>) -> bool {
    forall|i: int, j: int|
        0 <= i < j < calls.len() ==> (#[trigger] calls[i]).0 < (#[trigger] calls[j]).0
}

/// The first position from `k` on whose index is not below `index`.
pub open spec fn slot_of(calls: Seq<(usize, PartV)>, index: usize, k: int) -> int
    decreases calls.len() - k,
{
    if k >= calls.len() || calls[k].0 >= index {
        k
    } else {
        slot_of(calls, index, k + 1)
    }
}

/// The calls with one, new and empty, under `index`, unless there is one already.
pub open spec fn with_slot(calls: Seq<(usize, PartV)>, index: usize) -> Seq<(usize, PartV)> {
    let k = slot_of(calls, index, 0);
    if k < calls.len() && calls[k].0 == index {
        calls
    } else {
        calls.insert(
            k,
            (index, PartV { id: Seq::empty(), name: Seq::empty(), args: Seq::empty() }),
        )
    }
}

/// The index of a piece of a tool call.
pub open spec fn piece_index(tc: JsonV) -> usize {
    match tc.get_uint("index"@) {
        Some(n) => n as usize,
        None => 0,
    }
}

/// The call with a piece added: its id and name are set, its arguments go on.
pub open spec fn part_with(p: PartV, tc: JsonV) -> PartV {
    let f = match tc.get("function"@) {
        Some(f) => f,
        None => JsonV::Null,
    };
    PartV {
        id: match tc.get_text("id"@) {
            Some(s) => s,
            None => p.id,
        },
        name: match f.get_text("name"@) {
            Some(s) => s,
            None => p.name,
        },
        args: match f.get_text("arguments"@) {
            Some(s) => p.args + s,
            None => p.args,
        },
    }
}

/// What a piece of a tool call makes known.
pub open spec fn piece_events(tc: JsonV) -> Seq<EventV> {
    match tc.get("function"@) {
        Some(f) => match f.get_text("name"@) {
            Some(s) => seq![EventV::ToolStart { name: s, index: piece_index(tc) }],
            None => seq![],
        },
        None => seq![],
    }
}

pub open spec fn calls_with(calls: Seq<(usize, PartV)>, tc: JsonV) -> Seq<(usize, PartV)> {
    let index = piece_index(tc);
    let k = slot_of(calls, index, 0);
    let open = with_slot(calls, index);
    open.update(k, (index, part_with(open[k].1, tc)))
}

pub open spec fn calls_with_all(calls: Seq<(usize, PartV)>, pieces: Seq<JsonV>) -> Seq<
    (usize, PartV),
>
    decreases pieces.len(),
{
    if pieces.len() == 0 {
        calls
    } else {
        calls_with(calls_with_all(calls, pieces.drop_last()), pieces.last())
    }
}

pub open spec fn all_piece_events(pieces: Seq<JsonV>) -> Seq<EventV>
    decreases pieces.len(),
{
    if pieces.len() == 0 {
        seq![]
    } else {
        all_piece_events(pieces.drop_last()) + piece_events(pieces.last())
    }
}

proof fn lemma_slot_of(calls: Seq<(usize, PartV)>, index: usize, k: int)
    requires
        0 <= k <= calls.len(),
    ensures
        k <= slot_of(calls, index, k) <= calls.len(),
        forall|i: int| k <= i < slot_of(calls, index, k) ==> (#[trigger] calls[i]).0 < index,
        slot_of(calls, index, k) < calls.len() ==> calls[slot_of(calls, index, k)].0 >= index,
    decreases calls.len() - k,
{
    if k < calls.len() && calls[k].0 < index {
        lemma_slot_of(calls, index, k + 1);
    }
}

/// A piece keeps the calls in order.
proof fn lemma_calls_with(calls: Seq<(usize, PartV)>, tc: JsonV)
    requires
        in_order(calls),
    ensures
        in_order(calls_with(calls, tc)),
        calls_with(calls, tc).len() >= 1,
{
    let index = piece_index(tc);
    lemma_slot_of(calls, index, 0);
    let k = slot_of(calls, index, 0);
    let out = calls_with(calls, tc);
    assert forall|i: int, j: int| 0 <= i < j < out.len() implies (#[trigger] out[i]).0 < (
    #[trigger] out[j]).0 by {
        if k < calls.len() && calls[k].0 == index {
            assert(calls[i].0 < calls[j].0);
        } else {
            let a = if i < k {
                i
            } else {
                i - 1
            };
            let b = if j < k {
                j
            } else {
                j - 1
            };
            if i != k && j != k {
                assert(calls[a].0 < calls[b].0);
            } else if i == k {
                assert(calls[k].0 > index);
                if k < b {
                    assert(calls[k].0 < calls[b].0);
                }
            }
        }
    }
}

proof fn lemma_calls_with_all(calls: Seq<(usize, PartV)>, pieces: Seq<JsonV>)
    requires
        in_order(calls),
    ensures
        in_order(calls_with_all(calls, pieces)),
    decreases pieces.len(),
{
    if pieces.len() > 0 {
        lemma_calls_with_all(calls, pieces.drop_last());
        lemma_calls_with(calls_with_all(calls, pieces.drop_last()), pieces.last());
    }
}

fn add_piece(calls: &mut Vec<(usize, CallPart)>, events: &mut Vec<StreamEvent>, tc: &Json)
    ensures
        calls_view(final(calls)@) == calls_with(calls_view(old(calls)@), tc@),
        events_view(final(events)@) == events_view(old(events)@) + piece_events(tc@),
{
    let ghost before = calls_view(calls@);
    let ghost seen = events_view(events@);
    let index: usize = match tc.get_u64("index") {
        Some(n) => n as usize,
        None => 0,
    };
    let mut k: usize = 0;
    while k < calls.len() && calls[k].0 < index
        invariant
            before == calls_view(calls@),
            k <= calls@.len(),
            slot_of(before, index, 0) == slot_of(before, index, k as int),
        decreases calls.len() - k,
    {
        k = k + 1;
    }
    let known = k < calls.len() && calls[k].0 == index;
    let mut part = if known {
        let entry = calls.remove(k);
        entry.1
    } else {
        let p = CallPart { id: String::new(), name: String::new(), args: String::new() };
        proof {
            assert(p.id@ =~= Seq::<char>::empty());
            assert(p.name@ =~= Seq::<char>::empty());
            assert(p.args@ =~= Seq::<char>::empty());
        }
        p
    };
    let ghost was = part@;
    if let Some(id) = tc.get_str("id") {
        part.id = text::copy(id);
    }
    if let Some(f) = tc.get("function") {
        if let Some(name) = f.get_str("name") {
            part.name = text::copy(name);
            let ghost held = events@;
            events.push(StreamEvent::ToolStart { name: text::copy(name), index });
            proof {
                assert(events_view(events@) =~= seen + piece_events(tc@));
            }
        }
        if let Some(args) = f.get_str("arguments") {
            part.args.append(args);
        }
    }
    proof {
        assert(part@ == part_with(was, tc@));
        assert(events_view(events@) =~= seen + piece_events(tc@));
    }
    calls.insert(k, (index, part));
    proof {
        assert(calls_view(calls@) =~= calls_with(before, tc@));
    }
}

// ---- events -----------------------------------------------------------------------------------

/// The first choice of an event.
pub open spec fn first_choice(v: JsonV) -> Option<JsonV> {
    match v.get_items("choices"@) {
        Some(items) => if items.len() > 0 {
            Some(items[0])
        } else {
            None
        },
        None => None,
    }
}

pub open spec fn usage_of(v: JsonV, k: Seq<char>) -> Option<u64> {
    match v.get("usage"@) {
        Some(u) => u.get_uint(k),
        None => None,
    }
}

pub open spec fn or_u64(n: Option<u64>, other: u64) -> u64 {
    match n {
        Some(v) => v,
        None => other,
    }
}

/// What a choice adds to the reply.
pub open spec fn delta_of(choice: Option<JsonV>) -> Option<JsonV> {
    match choice {
        Some(c) => c.get("delta"@),
        None => None,
    }
}

pub open spec fn delta_text(delta: Option<JsonV>) -> Option<Seq<char>> {
    match delta {
        Some(d) => d.get_text("content"@),
        None => None,
    }
}

pub open spec fn delta_calls(delta: Option<JsonV>) -> Seq<JsonV> {
    match delta {
        Some(d) => match d.get_items("tool_calls"@) {
            Some(items) => items,
            None => seq![],
        },
        None => seq![],
    }
}

/// The reply after one event.
pub open spec fn applied(st: StreamV, v: JsonV) -> StreamV {
    let choice = first_choice(v);
    let delta = delta_of(choice);
    StreamV {
        prompt_tokens: or_u64(usage_of(v, "prompt_tokens"@), st.prompt_tokens),
        completion_tokens: or_u64(usage_of(v, "completion_tokens"@), st.completion_tokens),
        finish_reason: match choice {
            Some(c) => match c.get_text("finish_reason"@) {
                Some(s) => s,
                None => st.finish_reason,
            },
            None => st.finish_reason,
        },
        content: match delta_text(delta) {
            Some(s) => st.content + s,
            None => st.content,
        },
        calls: calls_with_all(st.calls, delta_calls(delta)),
        buffer: st.buffer,
    }
}

/// What one event shows.
pub open spec fn shown_by(v: JsonV) -> Seq<EventV> {
    let delta = delta_of(first_choice(v));
    (match delta_text(delta) {
        Some(s) => seq![EventV::Text(s)],
        None => Seq::<EventV>::empty(),
    }) + all_piece_events(delta_calls(delta))
}

/// The reply after all lines that have ended, up to an end marker, and what they show.
pub open spec fn drained(st: StreamV) -> (StreamV, Seq<EventV>)
    decreases st.buffer.len(),
{
    let k = text::until(st.buffer, '\n') as int;
    if k >= st.buffer.len() {
        (st, Seq::empty())
    } else {
        let line = text::trim(st.buffer.take(k));
        let rest = StreamV { buffer: st.buffer.skip(k + 1), ..st };
        if !text::starts_with(line, "data: "@) {
            drained(rest)
        } else if line.skip(6) == "[DONE]"@ {
            (rest, Seq::empty())
        } else {
            match json::parsed(line.skip(6)) {
                Ok(v) => {
                    let more = drained(applied(rest, v));
                    (more.0, shown_by(v) + more.1)
                },
                Err(_) => drained(rest),
            }
        }
    }
}

/// The reply after a chunk of text arrived.
pub open spec fn fed(st: StreamV, chunk: Seq<char>) -> (StreamV, Seq<EventV>) {
    drained(StreamV { buffer: st.buffer + chunk, ..st })
}

/// One of the lines that have ended is the end marker.
pub open spec fn meets_end(st: StreamV) -> bool
    decreases st.buffer.len(),
{
    let k = text::until(st.buffer, '\n') as int;
    if k >= st.buffer.len() {
        false
    } else {
        let line = text::trim(st.buffer.take(k));
        let rest = StreamV { buffer: st.buffer.skip(k + 1), ..st };
        (text::starts_with(line, "data: "@) && line.skip(6) == "[DONE]"@) || meets_end(rest)
    }
}

/// The end marker depends on the buffer alone.
proof fn lemma_meets_end(a: StreamV, b: StreamV)
    requires
        a.buffer == b.buffer,
    ensures
        meets_end(a) == meets_end(b),
    decreases a.buffer.len(),
{
    let k = text::until(a.buffer, '\n') as int;
    if k < a.buffer.len() {
        lemma_meets_end(
            StreamV { buffer: a.buffer.skip(k + 1), ..a },
            StreamV { buffer: b.buffer.skip(k + 1), ..b },
        );
    }
}

proof fn lemma_until_longer(a: Seq<char>, b: Seq<char>)
    requires
        text::until(a, '\n') < a.len(),
    ensures
        text::until(a + b, '\n') == text::until(a, '\n'),
    decreases a.len(),
{
    if a[0] != '\n' {
        assert((a + b).drop_first() =~= a.drop_first() + b);
        lemma_until_longer(a.drop_first(), b);
    }
}

/// How a stream is cut into chunks does not matter: up to the end marker, taking two chunks
/// one after the other is taking them as one.
pub proof fn law_chunks(st: StreamV, a: Seq<char>, b: Seq<char>)
    requires
        !meets_end(StreamV { buffer: st.buffer + a, ..st }),
    ensures
        fed(fed(st, a).0, b).0 == fed(st, a + b).0,
        fed(st, a).1 + fed(fed(st, a).0, b).1 == fed(st, a + b).1,
{
    let s = StreamV { buffer: st.buffer + a, ..st };
    lemma_drained_longer(s, b);
    assert((st.buffer + a) + b =~= st.buffer + (a + b));
}

proof fn lemma_drained_longer(s: StreamV, b: Seq<char>)
    requires
        !meets_end(s),
    ensures
        ({
            let (mid, shown) = drained(s);
            let all = drained(StreamV { buffer: s.buffer + b, ..s });
            let more = drained(StreamV { buffer: mid.buffer + b, ..mid });
            more.0 == all.0 && shown + more.1 == all.1
        }),
    decreases s.buffer.len(),
{
    let k = text::until(s.buffer, '\n') as int;
    let longer = StreamV { buffer: s.buffer + b, ..s };
    if k >= s.buffer.len() {
        assert(Seq::<EventV>::empty() + drained(longer).1 =~= drained(longer).1);
    } else {
        lemma_until_longer(s.buffer, b);
        let line = text::trim(s.buffer.take(k));
        let rest = StreamV { buffer: s.buffer.skip(k + 1), ..s };
        assert((s.buffer + b).take(k) =~= s.buffer.take(k));
        assert((s.buffer + b).skip(k + 1) =~= s.buffer.skip(k + 1) + b);
        let after = if !text::starts_with(line, "data: "@) {
            rest
        } else {
            match json::parsed(line.skip(6)) {
                Ok(v) => applied(rest, v),
                Err(_) => rest,
            }
        };
        lemma_meets_end(rest, after);
        lemma_drained_longer(after, b);
        let (mid, shown) = drained(after);
        let more = drained(StreamV { buffer: mid.buffer + b, ..mid });
        let after_longer = StreamV { buffer: after.buffer + b, ..after };
        if text::starts_with(line, "data: "@) {
            if let Ok(v) = json::parsed(line.skip(6)) {
                assert(after_longer == applied(StreamV { buffer: rest.buffer + b, ..rest }, v));
                assert((shown_by(v) + shown) + more.1 =~= shown_by(v) + (shown + more.1));
            }
        }
    }
}

impl StreamState {
    /// Every reply keeps its calls in order.
    pub open spec fn wf(&self) -> bool {
        in_order(self@.calls)
    }

    pub fn new() -> (r: Self)
        ensures
            r.wf(),
            r@ == (StreamV {
                buffer: Seq::empty(),
                content: Seq::empty(),
                calls: Seq::empty(),
                finish_reason: Seq::empty(),
                prompt_tokens: 0,
                completion_tokens: 0,
            }),
    {
        let r = StreamState {
            buffer: String::new(),
            content: String::new(),
            calls: Vec::new(),
            finish_reason: String::new(),
            prompt_tokens: 0,
            completion_tokens: 0,
        };
        proof {
            assert(r@.buffer =~= Seq::<char>::empty());
            assert(r@.content =~= Seq::<char>::empty());
            assert(r@.calls =~= Seq::<(usize, PartV)>::empty());
            assert(r@.finish_reason =~= Seq::<char>::empty());
        }
        r
    }

    /// Takes one event.
    pub fn apply(&mut self, v: &Json) -> (r: Vec<StreamEvent>)
        requires
            old(self).wf(),
        ensures
            final(self).wf(),
            final(self)@ == applied(old(self)@, v@),
            events_view(r@) == shown_by(v@),
    {
        let ghost before = self@;
        let mut events: Vec<StreamEvent> = Vec::new();
        if let Some(u) = v.get("usage") {
            if let Some(n) = u.get_u64("prompt_tokens") {
                self.prompt_tokens = n;
            }
            if let Some(n) = u.get_u64("completion_tokens") {
                self.completion_tokens = n;
            }
        }
        let ghost mut delta_seen: Option<JsonV> = None;
        let ghost mut shown: Seq<EventV> = Seq::empty();
        proof {
            assert(events_view(events@) =~= shown);
        }
        if let Some(items) = v.get_array("choices") {
            if items.len() > 0 {
                let choice = &items[0];
                proof {
                    assert(first_choice(v@) == Some(choice@));
                }
                if let Some(s) = choice.get_str("finish_reason") {
                    self.finish_reason = text::copy(s);
                }
                if let Some(delta) = choice.get("delta") {
                    proof {
                        delta_seen = Some(delta@);
                    }
                    if let Some(s) = delta.get_str("content") {
                        self.content.append(s);
                        events.push(StreamEvent::Text(text::copy(s)));
                        proof {
                            shown = seq![EventV::Text(s@)];
                            assert(events_view(events@) =~= shown);
                        }
                    }
                    if let Some(pieces) = delta.get_array("tool_calls") {
                        let ghost all = json::views(pieces@);
                        let ghost start = calls_view(self.calls@);
                        let ghost kept = self@;
                        let mut i: usize = 0;
                        proof {
                            assert(all.take(0) =~= Seq::<JsonV>::empty());
                            assert(events_view(events@) =~= shown + all_piece_events(all.take(0)));
                        }
                        while i < pieces.len()
                            invariant
                                all == json::views(pieces@),
                                i <= pieces@.len(),
                                calls_view(self.calls@) == calls_with_all(
                                    start,
                                    all.take(i as int),
                                ),
                                events_view(events@) == shown + all_piece_events(
                                    all.take(i as int),
                                ),
                                self@ == (StreamV { calls: calls_view(self.calls@), ..kept }),
                            decreases pieces.len() - i,
                        {
                            proof {
                                assert(all.take(i as int + 1).drop_last() =~= all.take(i as int));
                                assert(all.take(i as int + 1).last() == pieces@[i as int]@);
                            }
                            add_piece(&mut self.calls, &mut events, &pieces[i]);
                            proof {
                                assert(events_view(events@) =~= shown + all_piece_events(
                                    all.take(i as int + 1),
                                ));
                            }
                            i = i + 1;
                        }
                        proof {
                            assert(all.take(i as int) =~= all);
                        }
                    } else {
                        proof {
                            assert(events_view(events@) =~= shown + all_piece_events(Seq::empty()));
                        }
                    }
                }
            }
        }
        proof {
            assert(delta_seen == delta_of(first_choice(v@)));
            assert(events_view(events@) =~= shown_by(v@));
            assert(self@.calls =~= calls_with_all(before.calls, delta_calls(delta_seen)));
            lemma_calls_with_all(before.calls, delta_calls(delta_seen));
            assert(self@ == applied(before, v@));
        }
        events
    }

    /// Takes a chunk of the stream, and returns what its complete lines show.
    pub fn feed(&mut self, chunk: &str) -> (r: Vec<StreamEvent>)
        requires
            old(self).wf(),
        ensures
            final(self).wf(),
            final(self)@ == fed(old(self)@, chunk@).0,
            events_view(r@) == fed(old(self)@, chunk@).1,
    {
        self.buffer.append(chunk);
        let ghost whole = self@;
        let mut events: Vec<StreamEvent> = Vec::new();
        proof {
            assert(events_view(events@) + drained(whole).1 =~= drained(whole).1);
        }
        loop
            invariant_except_break
                drained(self@).0 == drained(whole).0,
                events_view(events@) + drained(self@).1 == drained(whole).1,
            invariant
                self.wf(),
            ensures
                self@ == drained(whole).0,
                events_view(events@) == drained(whole).1,
            decreases self@.buffer.len(),
        {
            let v = text::to_chars(self.buffer.as_str());
            let k = text::until_char(&v, '\n', 0);
            proof {
                assert(v@.skip(0) =~= v@);
            }
            if k >= v.len() {
                proof {
                    assert(events_view(events@) + Seq::<EventV>::empty() =~= events_view(events@));
                }
                break;
            }
            let ghost st = self@;
            let line = text::str_trim(text::substring(&v, 0, k).as_str());
            self.buffer = text::substring(&v, k + 1, v.len());
            let ghost rest = StreamV { buffer: st.buffer.skip(k + 1), ..st };
            proof {
                assert(v@.subrange(0, k as int) =~= st.buffer.take(k as int));
                assert(self.buffer@ =~= st.buffer.skip(k + 1));
                assert(self@ == rest);
            }
            if !text::str_starts_with(line.as_str(), "data: ") {
                continue;
            }
            let l = text::to_chars(line.as_str());
            proof {
                reveal_strlit("data: ");
            }
            let data = text::substring(&l, 6, l.len());
            proof {
                assert(data@ =~= line@.skip(6));
            }
            if text::str_eq(data.as_str(), "[DONE]") {
                proof {
                    assert(events_view(events@) + Seq::<EventV>::empty() =~= events_view(events@));
                }
                break;
            }
            if let Ok(j) = json::parse(data.as_str()) {
                let ghost held = events@;
                let mut more = self.apply(&j);
                let ghost added = more@;
                events.append(&mut more);
                proof {
                    assert(events@ =~= held + added);
                    assert(events_view(events@) =~= events_view(held) + events_view(added));
                    assert(events_view(held) + (shown_by(j@) + drained(self@).1)
                        =~= events_view(events@) + drained(self@).1);
                }
            }
        }
        events
    }
}

// ---- laws ---------------------------------------------------------------------------------------

/// The index under which a piece of a tool call belongs: zero where it names none.
pub open spec fn belongs_to(tc: JsonV) -> usize {
    match tc.get_uint("index"@) {
        Some(n) => n as usize,
        None => 0,
    }
}

pub open spec fn name_told(tc: JsonV) -> Option<Seq<char>> {
    match tc.get("function"@) {
        Some(f) => f.get_text("name"@),
        None => None,
    }
}

pub open spec fn arguments_told(tc: JsonV) -> Seq<char> {
    match tc.get("function"@) {
        Some(f) => match f.get_text("arguments"@) {
            Some(s) => s,
            None => Seq::empty(),
        },
        None => Seq::empty(),
    }
}

/// The pieces that belong to the call under an index.
pub open spec fn pieces_of(pieces: Seq<JsonV>, index: usize) -> Seq<JsonV> {
    pieces.filter(|tc: JsonV| belongs_to(tc) == index)
}

/// `r` is the last value that was told, or nothing where none was.
pub open spec fn last_told(told: Seq<Option<Seq<char>>>, r: Seq<char>) -> bool {
    ||| exists|i: int|
        0 <= i < told.len() && #[trigger] told[i] == Some(r) && forall|j: int|
            i < j < told.len() ==> #[trigger] told[j] is None
    ||| r.len() == 0 && forall|j: int| 0 <= j < told.len() ==> #[trigger] told[j] is None
}

/// The call is what its pieces tell of it: its arguments are theirs, one after the other, and
/// its id and its name are the last ones that were told.
pub open spec fn told_by(mine: Seq<JsonV>, p: PartV) -> bool {
    &&& p.args == mine.map_values(|tc: JsonV| arguments_told(tc)).flatten()
    &&& last_told(mine.map_values(|tc: JsonV| tc.get_text("id"@)), p.id)
    &&& last_told(mine.map_values(|tc: JsonV| name_told(tc)), p.name)
}

/// The calls are those that the pieces tell of, each index once, in order.
pub open spec fn calls_told(pieces: Seq<JsonV>, calls: Seq<(usize, PartV)>) -> bool {
    &&& in_order(calls)
    &&& forall|k: int|
        0 <= k < calls.len() ==> pieces_of(pieces, (#[trigger] calls[k]).0).len() > 0 && told_by(
            pieces_of(pieces, calls[k].0),
            calls[k].1,
        )
    &&& forall|i: int|
        0 <= i < pieces.len() ==> exists|k: int|
            0 <= k < calls.len() && (#[trigger] calls[k]).0 == belongs_to(#[trigger] pieces[i])
}

proof fn lemma_told_push(told: Seq<Option<Seq<char>>>, r: Seq<char>, more: Option<Seq<char>>)
    requires
        last_told(told, r),
    ensures
        last_told(
            told.push(more),
            match more {
                Some(s) => s,
                None => r,
            },
        ),
{
    let all = told.push(more);
    match more {
        Some(s) => {
            assert(all[told.len() as int] == Some(s));
        },
        None => {
            if exists|i: int|
                0 <= i < told.len() && #[trigger] told[i] == Some(r) && forall|j: int|
                    i < j < told.len() ==> #[trigger] told[j] is None {
                let i = choose|i: int|
                    0 <= i < told.len() && #[trigger] told[i] == Some(r) && forall|j: int|
                        i < j < told.len() ==> #[trigger] told[j] is None;
                assert(all[i] == Some(r));
                assert forall|j: int| i < j < all.len() implies #[trigger] all[j] is None by {
                    if j < told.len() {
                        assert(told[j] is None);
                    }
                }
            } else {
                assert forall|j: int| 0 <= j < all.len() implies #[trigger] all[j] is None by {
                    if j < told.len() {
                        assert(told[j] is None);
                    }
                }
            }
        },
    }
}

proof fn lemma_told_by_push(mine: Seq<JsonV>, p: PartV, tc: JsonV)
    requires
        told_by(mine, p),
    ensures
        told_by(mine.push(tc), part_with(p, tc)),
{
    let all = mine.push(tc);
    let fa = |tc: JsonV| arguments_told(tc);
    let fi = |tc: JsonV| tc.get_text("id"@);
    let fname = |tc: JsonV| name_told(tc);
    assert(all.map_values(fa) =~= mine.map_values(fa).push(arguments_told(tc)));
    mine.map_values(fa).lemma_flatten_push(arguments_told(tc));
    assert(all.map_values(fi) =~= mine.map_values(fi).push(tc.get_text("id"@)));
    lemma_told_push(mine.map_values(fi), p.id, tc.get_text("id"@));
    assert(all.map_values(fname) =~= mine.map_values(fname).push(name_told(tc)));
    lemma_told_push(mine.map_values(fname), p.name, name_told(tc));
    assert(part_with(p, tc).args =~= p.args + arguments_told(tc));
}

proof fn lemma_told_by_none(p: PartV)
    requires
        p.id.len() == 0,
        p.name.len() == 0,
        p.args.len() == 0,
    ensures
        told_by(Seq::empty(), p),
{
    let none = Seq::<JsonV>::empty();
    assert(none.map_values(|tc: JsonV| arguments_told(tc)) =~= Seq::<Seq<char>>::empty());
    assert(p.args =~= Seq::<char>::empty());
}

/// The tool calls of a reply are what their pieces tell, however the pieces of different calls
/// are mixed: the arguments of a call are the texts of exactly the pieces with its index, one
/// after the other, and its id and name are the last ones among them.
pub proof fn law_calls_are_told(pieces: Seq<JsonV>)
    ensures
        calls_told(pieces, calls_with_all(Seq::empty(), pieces)),
    decreases pieces.len(),
{
    let none = Seq::<(usize, PartV)>::empty();
    if pieces.len() > 0 {
        let front = pieces.drop_last();
        let tc = pieces.last();
        law_calls_are_told(front);
        let calls = calls_with_all(none, front);
        let out = calls_with(calls, tc);
        let index = belongs_to(tc);
        lemma_calls_with(calls, tc);
        lemma_slot_of(calls, index, 0);
        let slot = slot_of(calls, index, 0);
        assert(pieces =~= front.push(tc));
        let known = slot < calls.len() && calls[slot].0 == index;
        assert(out[slot].0 == index);
        assert forall|k: int| 0 <= k < out.len() implies pieces_of(pieces, (#[trigger] out[k]).0).len()
            > 0 && told_by(pieces_of(pieces, out[k].0), out[k].1) by {
            let at = out[k].0;
            front.lemma_filter_push(tc, |tc: JsonV| belongs_to(tc) == at);
            if k == slot {
                let mine = pieces_of(front, index);
                if known {
                    assert(told_by(mine, calls[slot].1));
                    lemma_told_by_push(mine, calls[slot].1, tc);
                } else {
                    if mine.len() > 0 {
                        front.lemma_filter_pred(|tc: JsonV| belongs_to(tc) == index, 0);
                        front.lemma_filter_contains_rev(
                            |tc: JsonV| belongs_to(tc) == index,
                            mine[0],
                        );
                        let i = choose|i: int| 0 <= i < front.len() && front[i] == mine[0];
                        assert(belongs_to(front[i]) == index);
                        let j = choose|j: int|
                            0 <= j < calls.len() && (#[trigger] calls[j]).0 == belongs_to(front[i]);
                        if slot < calls.len() {
                            if j > slot {
                                assert(calls[slot].0 < calls[j].0);
                            }
                        }
                        assert(false);
                    }
                    assert(mine =~= Seq::<JsonV>::empty());
                    let empty = PartV {
                        id: Seq::empty(),
                        name: Seq::empty(),
                        args: Seq::empty(),
                    };
                    lemma_told_by_none(empty);
                    lemma_told_by_push(mine, empty, tc);
                }
            } else {
                let was = if known || k < slot {
                    k
                } else {
                    k - 1
                };
                assert(out[k] == calls[was]);
                assert(at != index) by {
                    if k < slot {
                        assert(out[k].0 < out[slot].0);
                    } else {
                        assert(out[slot].0 < out[k].0);
                    }
                }
            }
        }
        assert forall|i: int| 0 <= i < pieces.len() implies exists|k: int|
            0 <= k < out.len() && (#[trigger] out[k]).0 == belongs_to(#[trigger] pieces[i]) by {
            if i == front.len() {
                assert(out[slot].0 == belongs_to(pieces[i]));
            } else {
                assert(pieces[i] == front[i]);
                let k = choose|k: int|
                    0 <= k < calls.len() && (#[trigger] calls[k]).0 == belongs_to(front[i]);
                let now = if known || k < slot {
                    k
                } else {
                    k + 1
                };
                assert(out[now].0 == calls[k].0);
            }
        }
    }
}

/// What an event adds to the reply.
pub open spec fn delta_in(v: JsonV) -> Option<JsonV> {
    match v.get_items("choices"@) {
        Some(items) => if items.len() > 0 {
            items[0].get("delta"@)
        } else {
            None
        },
        None => None,
    }
}

pub open spec fn text_in(v: JsonV) -> Seq<char> {
    match delta_in(v) {
        Some(d) => match d.get_text("content"@) {
            Some(s) => s,
            None => Seq::empty(),
        },
        None => Seq::empty(),
    }
}

pub open spec fn pieces_in(v: JsonV) -> Seq<JsonV> {
    match delta_in(v) {
        Some(d) => match d.get_items("tool_calls"@) {
            Some(items) => items,
            None => Seq::empty(),
        },
        None => Seq::empty(),
    }
}

pub open spec fn reason_in(v: JsonV) -> Option<Seq<char>> {
    match v.get_items("choices"@) {
        Some(items) => if items.len() > 0 {
            items[0].get_text("finish_reason"@)
        } else {
            None
        },
        None => None,
    }
}

pub open spec fn count_in(v: JsonV, k: Seq<char>) -> Option<u64> {
    match v.get("usage"@) {
        Some(u) => u.get_uint(k),
        None => None,
    }
}

/// `n` is the last number that was told, or zero where none was.
pub open spec fn last_count(told: Seq<Option<u64>>, n: u64) -> bool {
    ||| exists|i: int|
        0 <= i < told.len() && #[trigger] told[i] == Some(n) && forall|j: int|
            i < j < told.len() ==> #[trigger] told[j] is None
    ||| n == 0 && forall|j: int| 0 <= j < told.len() ==> #[trigger] told[j] is None
}

proof fn lemma_count_push(told: Seq<Option<u64>>, n: u64, more: Option<u64>)
    requires
        last_count(told, n),
    ensures
        last_count(
            told.push(more),
            match more {
                Some(m) => m,
                None => n,
            },
        ),
{
    let all = told.push(more);
    match more {
        Some(s) => {
            assert(all[told.len() as int] == Some(s));
        },
        None => {
            if exists|i: int|
                0 <= i < told.len() && #[trigger] told[i] == Some(n) && forall|j: int|
                    i < j < told.len() ==> #[trigger] told[j] is None {
                let i = choose|i: int|
                    0 <= i < told.len() && #[trigger] told[i] == Some(n) && forall|j: int|
                        i < j < told.len() ==> #[trigger] told[j] is None;
                assert(all[i] == Some(n));
                assert forall|j: int| i < j < all.len() implies #[trigger] all[j] is None by {
                    if j < told.len() {
                        assert(told[j] is None);
                    }
                }
            } else {
                assert forall|j: int| 0 <= j < all.len() implies #[trigger] all[j] is None by {
                    if j < told.len() {
                        assert(told[j] is None);
                    }
                }
            }
        },
    }
}

/// The reply after some events, from its beginning.
pub open spec fn after_events(events: Seq<JsonV>) -> StreamV
    decreases events.len(),
{
    if events.len() == 0 {
        StreamV {
            buffer: Seq::empty(),
            content: Seq::empty(),
            calls: Seq::empty(),
            finish_reason: Seq::empty(),
            prompt_tokens: 0,
            completion_tokens: 0,
        }
    } else {
        applied(after_events(events.drop_last()), events.last())
    }
}

proof fn lemma_pieces_add(calls: Seq<(usize, PartV)>, a: Seq<JsonV>, b: Seq<JsonV>)
    ensures
        calls_with_all(calls, a + b) == calls_with_all(calls_with_all(calls, a), b),
    decreases b.len(),
{
    if b.len() == 0 {
        assert(a + b =~= a);
    } else {
        assert((a + b).drop_last() =~= a + b.drop_last());
        lemma_pieces_add(calls, a, b.drop_last());
    }
}

/// A reply is what its events tell: its text is theirs, one after the other, its tool calls are
/// those that all their pieces tell of, and its reason to finish and its counts are the last ones
/// that were told.
pub proof fn law_reply_is_told(events: Seq<JsonV>)
    ensures
        ({
            let r = after_events(events);
            &&& r.content == events.map_values(|v: JsonV| text_in(v)).flatten()
            &&& calls_told(events.map_values(|v: JsonV| pieces_in(v)).flatten(), r.calls)
            &&& last_told(events.map_values(|v: JsonV| reason_in(v)), r.finish_reason)
            &&& last_count(
                events.map_values(|v: JsonV| count_in(v, "prompt_tokens"@)),
                r.prompt_tokens,
            )
            &&& last_count(
                events.map_values(|v: JsonV| count_in(v, "completion_tokens"@)),
                r.completion_tokens,
            )
        }),
{
    lemma_reply(events);
    law_calls_are_told(events.map_values(|v: JsonV| pieces_in(v)).flatten());
}

proof fn lemma_reply(events: Seq<JsonV>)
    ensures
        ({
            let r = after_events(events);
            &&& r.content == events.map_values(|v: JsonV| text_in(v)).flatten()
            &&& r.calls == calls_with_all(
                Seq::empty(),
                events.map_values(|v: JsonV| pieces_in(v)).flatten(),
            )
            &&& last_told(events.map_values(|v: JsonV| reason_in(v)), r.finish_reason)
            &&& last_count(
                events.map_values(|v: JsonV| count_in(v, "prompt_tokens"@)),
                r.prompt_tokens,
            )
            &&& last_count(
                events.map_values(|v: JsonV| count_in(v, "completion_tokens"@)),
                r.completion_tokens,
            )
        }),
    decreases events.len(),
{
    let ft = |v: JsonV| text_in(v);
    let fp = |v: JsonV| pieces_in(v);
    let fr = |v: JsonV| reason_in(v);
    let fa = |v: JsonV| count_in(v, "prompt_tokens"@);
    let fb = |v: JsonV| count_in(v, "completion_tokens"@);
    if events.len() == 0 {
        assert(events.map_values(ft) =~= Seq::<Seq<char>>::empty());
        assert(events.map_values(fp) =~= Seq::<Seq<JsonV>>::empty());
    } else {
        let front = events.drop_last();
        let v = events.last();
        lemma_reply(front);
        let was = after_events(front);
        assert(events.map_values(ft) =~= front.map_values(ft).push(text_in(v)));
        front.map_values(ft).lemma_flatten_push(text_in(v));
        assert(applied(was, v).content =~= was.content + text_in(v));
        assert(events.map_values(fp) =~= front.map_values(fp).push(pieces_in(v)));
        front.map_values(fp).lemma_flatten_push(pieces_in(v));
        assert(delta_calls(delta_of(first_choice(v))) =~= pieces_in(v));
        lemma_pieces_add(Seq::empty(), front.map_values(fp).flatten(), pieces_in(v));
        assert(events.map_values(fr) =~= front.map_values(fr).push(reason_in(v)));
        lemma_told_push(front.map_values(fr), was.finish_reason, reason_in(v));
        assert(events.map_values(fa) =~= front.map_values(fa).push(fa(v)));
        lemma_count_push(front.map_values(fa), was.prompt_tokens, fa(v));
        assert(events.map_values(fb) =~= front.map_values(fb).push(fb(v)));
        lemma_count_push(front.map_values(fb), was.completion_tokens, fb(v));
    }
}

/// What the user is shown of an event: its text, and then the name of each call that a piece
/// names, under its index.
pub proof fn law_event_is_shown(v: JsonV)
    ensures
        ({
            let named = pieces_in(v).filter(|tc: JsonV| name_told(tc) is Some);
            let starts = named.map_values(
                |tc: JsonV|
                    EventV::ToolStart { name: name_told(tc)->Some_0, index: belongs_to(tc) },
            );
            let says = delta_in(v) matches Some(d) && d.get_text("content"@) is Some;
            shown_by(v) == (if says {
                seq![EventV::Text(text_in(v))] + starts
            } else {
                starts
            })
        }),
{
    let d = delta_of(first_choice(v));
    assert(delta_calls(d) =~= pieces_in(v));
    lemma_shown(pieces_in(v));
    let starts = all_piece_events(pieces_in(v));
    assert(Seq::<EventV>::empty() + starts =~= starts);
}

proof fn lemma_shown(pieces: Seq<JsonV>)
    ensures
        all_piece_events(pieces) == pieces.filter(|tc: JsonV| name_told(tc) is Some).map_values(
            |tc: JsonV| EventV::ToolStart { name: name_told(tc)->Some_0, index: belongs_to(tc) },
        ),
    decreases pieces.len(),
{
    let f = |tc: JsonV| EventV::ToolStart { name: name_told(tc)->Some_0, index: belongs_to(tc) };
    let named = |tc: JsonV| name_told(tc) is Some;
    if pieces.len() == 0 {
        reveal(Seq::filter);
        assert(pieces.filter(named).map_values(f) =~= Seq::<EventV>::empty());
    } else {
        let front = pieces.drop_last();
        let tc = pieces.last();
        lemma_shown(front);
        assert(pieces =~= front.push(tc));
        front.lemma_filter_push(tc, named);
        if named(tc) {
            assert(front.filter(named).push(tc).map_values(f) =~= front.filter(named).map_values(
                f,
            ).push(f(tc)));
            assert(all_piece_events(pieces) =~= all_piece_events(front).push(f(tc)));
        } else {
            assert(all_piece_events(pieces) =~= all_piece_events(front));
        }
    }
}

/// A line without a line end in it.
pub open spec fn one_line(s: Seq<char>) -> bool {
    forall|i: int| 0 <= i < s.len() ==> #[trigger] s[i] != '\n'
}

proof fn lemma_until_end(s: Seq<char>, rest: Seq<char>)
    requires
        one_line(s),
    ensures
        text::until(s + seq!['\n'] + rest, '\n') == s.len(),
        text::until(s, '\n') == s.len(),
    decreases s.len(),
{
    let all = s + seq!['\n'] + rest;
    if s.len() == 0 {
        assert(all[0] == '\n');
    } else {
        assert(all[0] == s[0]);
        assert(s[0] != '\n');
        let tail = s.drop_first();
        assert forall|i: int| 0 <= i < tail.len() implies #[trigger] tail[i] != '\n' by {
            assert(s[i + 1] != '\n');
        }
        lemma_until_end(tail, rest);
        assert(all.drop_first() =~= tail + seq!['\n'] + rest);
    }
}

/// A line of the stream: one that carries an event, behind `data: `, is taken as that event and
/// shows what the event shows; one that carries none changes nothing; and what is not a whole line
/// yet is kept until it is.
pub proof fn law_lines(st: StreamV, line: Seq<char>)
    requires
        st.buffer.len() == 0,
        one_line(line),
    ensures
        fed(st, line) == (StreamV { buffer: line, ..st }, Seq::<EventV>::empty()),
        forall|payload: Seq<char>, v: JsonV|
            text::trim(line) == "data: "@ + payload && payload != "[DONE]"@ && #[trigger] json::parsed(
                payload,
            ) == Ok::<JsonV, Seq<char>>(v) ==> fed(st, line.push('\n')) == (
                #[trigger] applied(st, v),
                shown_by(v),
            ),
        text::trim(line) == "data: "@ + "[DONE]"@ || !text::starts_with(text::trim(line), "data: "@)
            ==> fed(st, line.push('\n')) == (st, Seq::<EventV>::empty()),
        forall|payload: Seq<char>|
            text::trim(line) == "data: "@ + payload && #[trigger] json::parsed(payload) is Err
                ==> fed(st, line.push('\n')) == (st, Seq::<EventV>::empty()),
{
    lemma_until_end(line, Seq::empty());
    assert(st.buffer + line =~= line);
    let full = line.push('\n');
    assert(full =~= line + seq!['\n'] + Seq::<char>::empty());
    assert(st.buffer + full =~= full);
    let k = line.len() as int;
    assert(full.take(k) =~= line);
    assert(full.skip(k + 1) =~= Seq::<char>::empty());
    assert(st.buffer =~= Seq::<char>::empty());
    let rest = StreamV { buffer: full.skip(k + 1), ..st };
    assert(rest == st);
    assert(drained(st) == (st, Seq::<EventV>::empty()));
    reveal_strlit("data: ");
    let t = text::trim(line);
    assert forall|payload: Seq<char>| t == "data: "@ + payload implies text::starts_with(
        t,
        "data: "@,
    ) && #[trigger] t.skip(6) == payload by {
        assert(("data: "@ + payload).skip(6) =~= payload);
        assert(("data: "@ + payload).subrange(0, 6) =~= "data: "@);
    }
    assert forall|payload: Seq<char>, v: JsonV|
        t == "data: "@ + payload && payload != "[DONE]"@ && #[trigger] json::parsed(payload) == Ok::<
            JsonV,
            Seq<char>,
        >(v) implies fed(st, full) == (#[trigger] applied(st, v), shown_by(v)) by {
        assert(t.skip(6) == payload);
        let a = applied(rest, v);
        assert(drained(a) == (a, Seq::<EventV>::empty()));
        assert(shown_by(v) + Seq::<EventV>::empty() =~= shown_by(v));
    }
    assert forall|payload: Seq<char>|
        t == "data: "@ + payload && #[trigger] json::parsed(payload) is Err implies fed(st, full)
        == (st, Seq::<EventV>::empty()) by {
        assert(t.skip(6) == payload);
    }
    if t == "data: "@ + "[DONE]"@ {
        assert(t.skip(6) == "[DONE]"@);
    }
}

/// Lines are read one after the other, however many arrive at once: a line that carries an event
/// shows that event and the rest goes on from there; one that carries none, or that cannot be read,
/// is passed over and the rest goes on; behind the end marker nothing more is read.
pub proof fn law_lines_follow(
    st: StreamV,
    line: Seq<char>,
    rest: Seq<char>,
    payload: Seq<char>,
    v: JsonV,
)
    requires
        st.buffer.len() == 0,
        one_line(line),
    ensures
        text::trim(line) == "data: "@ + payload && payload != "[DONE]"@ && json::parsed(payload)
            == Ok::<JsonV, Seq<char>>(v) ==> ({
            let more = fed(applied(st, v), rest);
            &&& fed(st, line + seq!['\n'] + rest).0 == more.0
            &&& fed(st, line + seq!['\n'] + rest).1 == shown_by(v) + more.1
        }),
        text::trim(line) == "data: "@ + payload && payload != "[DONE]"@ && json::parsed(payload)
            is Err ==> fed(st, line + seq!['\n'] + rest) == fed(st, rest),
        !text::starts_with(text::trim(line), "data: "@) ==> fed(st, line + seq!['\n'] + rest)
            == fed(st, rest),
        text::trim(line) == "data: "@ + "[DONE]"@ ==> fed(st, line + seq!['\n'] + rest) == (
            StreamV { buffer: rest, ..st },
            Seq::<EventV>::empty(),
        ),
{
    lemma_until_end(line, rest);
    let full = line + seq!['\n'] + rest;
    let k = line.len() as int;
    assert(st.buffer + full =~= full);
    assert(st.buffer + rest =~= rest);
    assert(full.take(k) =~= line);
    assert(full.skip(k + 1) =~= rest);
    reveal_strlit("data: ");
    let t = text::trim(line);
    if t == "data: "@ + payload {
        assert(t.skip(6) =~= payload);
        assert(t.subrange(0, 6) =~= "data: "@);
    }
    if t == "data: "@ + "[DONE]"@ {
        assert(t.skip(6) =~= "[DONE]"@);
        assert(t.subrange(0, 6) =~= "data: "@);
    }
    let next = StreamV { buffer: rest, ..st };
    let a = applied(st, v);
    assert(a.buffer + rest =~= rest);
    assert(applied(next, v) == (StreamV { buffer: a.buffer + rest, ..a }));
}

} // verus!
