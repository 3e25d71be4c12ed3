//! The agent's loop for a local model: each round generates, reads the tool calls out of the
//! text, runs them and feeds the results back in the model's own format.
use vstd::prelude::*;

use crate::calls;
use crate::dialect;
use crate::dialect::Dialect;
use crate::gemma4;
use crate::json;
use crate::json::Json;
use crate::json::JsonV;
use crate::local_calls;
use crate::local_calls::LocalCallV;
use crate::local_calls::LocalToolCall;
use crate::mode::AgentMode;
use crate::text;
use crate::tools;
use crate::workspace;

verus! {

/// The most rounds that one message may take.
pub const MAX_LOCAL_ROUNDS: usize = 16;

// ---- opening -----------------------------------------------------------------------------------

/// The texts of the parts of a message.
pub open spec fn part_texts(parts: Seq<JsonV>) -> Seq<Seq<char>>
    decreases parts.len(),
{
    if parts.len() == 0 {
        seq![]
    } else {
        match parts.last().get_text("text"@) {
            Some(s) => part_texts(parts.drop_last()).push(s),
            None => part_texts(parts.drop_last()),
        }
    }
}

/// The content of a message as one text.
pub open spec fn flat_content(m: JsonV) -> Option<Seq<char>> {
    match m.get("content"@) {
        Some(JsonV::Text(s)) => Some(s),
        Some(JsonV::Array(parts)) => Some(text::join(part_texts(parts), "\n"@)),
        _ => None,
    }
}

/// A role that every template knows.
pub open spec fn known_role(role: Seq<char>) -> Seq<char> {
    if role == "system"@ || role == "user"@ || role == "assistant"@ {
        role
    } else {
        "user"@
    }
}

/// A message as a role and a text; one without either is left out.
pub open spec fn flat(m: JsonV) -> Option<(Seq<char>, Seq<char>)> {
    match m.get_text("role"@) {
        None => None,
        Some(r) => match flat_content(m) {
            None => None,
            Some(c) => Some((known_role(r), c)),
        },
    }
}

pub open spec fn flattened(conv: Seq<JsonV>) -> Seq<(Seq<char>, Seq<char>)>
    decreases conv.len(),
{
    if conv.len() == 0 {
        seq![]
    } else {
        match flat(conv.last()) {
            Some(p) => flattened(conv.drop_last()).push(p),
            None => flattened(conv.drop_last()),
        }
    }
}

/// The turns with the tool protocol taught in the system turn, which is made where the first
/// turn is not one.
pub open spec fn taught(t: Seq<(Seq<char>, Seq<char>)>, how: Seq<char>) -> Seq<
    (Seq<char>, Seq<char>),
> {
    if t.len() > 0 && t[0].0 == "system"@ {
        t.update(0, (t[0].0, t[0].1 + "\n\n"@ + how))
    } else {
        seq![("system"@, how)] + t
    }
}

fn join_parts(parts: &Vec<Json>) -> (r: String)
    ensures
        r@ == text::join(part_texts(json::views(parts@)), "\n"@),
{
    let ghost all = json::views(parts@);
    let mut out: Vec<String> = Vec::new();
    let mut i: usize = 0;
    proof {
        assert(all.take(0) =~= Seq::<JsonV>::empty());
        assert(text::texts(out@) =~= part_texts(all.take(0)));
    }
    while i < parts.len()
        invariant
            all == json::views(parts@),
            i <= parts@.len(),
            text::texts(out@) == part_texts(all.take(i as int)),
        decreases parts.len() - i,
    {
        proof {
            assert(all.take(i as int + 1).drop_last() =~= all.take(i as int));
            assert(all.take(i as int + 1).last() == parts@[i as int]@);
        }
        let ghost before = out@;
        if let Some(s) = parts[i].get_str("text") {
            out.push(text::copy(s));
            proof {
                assert(text::texts(out@) =~= text::texts(before).push(s@));
            }
        }
        i = i + 1;
    }
    proof {
        assert(all.take(i as int) =~= all);
    }
    text::join_strings(&out, "\n")
}

fn flatten_one(m: &Json) -> (r: Option<(String, String)>)
    ensures
        match r {
            Some((a, b)) => flat(m@) == Some((a@, b@)),
            None => flat(m@) is None,
        },
{
    let role = match m.get_str("role") {
        Some(s) => s,
        None => {
            return None;
        },
    };
    let content = match m.get("content") {
        Some(c) => match c {
            Json::Text(s) => text::copy(s.as_str()),
            Json::Array(parts) => {
                proof {
                    assert(c@->Array_0 =~= json::views(parts@));
                }
                join_parts(parts)
            },
            _ => {
                return None;
            },
        },
        None => {
            return None;
        },
    };
    let known = if text::str_eq(role, "system") || text::str_eq(role, "user") || text::str_eq(
        role,
        "assistant",
    ) {
        text::copy(role)
    } else {
        text::copy("user")
    };
    Some((known, content))
}

/// Turns a conversation into turns of a role and a text.
pub fn flatten_messages(conversation: &Vec<Json>) -> (r: Vec<(String, String)>)
    ensures
        dialect::turns(r@) == flattened(json::views(conversation@)),
{
    let ghost all = json::views(conversation@);
    let mut out: Vec<(String, String)> = Vec::new();
    let mut i: usize = 0;
    proof {
        assert(all.take(0) =~= Seq::<JsonV>::empty());
        assert(dialect::turns(out@) =~= flattened(all.take(0)));
    }
    while i < conversation.len()
        invariant
            all == json::views(conversation@),
            i <= conversation@.len(),
            dialect::turns(out@) == flattened(all.take(i as int)),
        decreases conversation.len() - i,
    {
        proof {
            assert(all.take(i as int + 1).drop_last() =~= all.take(i as int));
            assert(all.take(i as int + 1).last() == conversation@[i as int]@);
        }
        let ghost before = out@;
        if let Some(p) = flatten_one(&conversation[i]) {
            let ghost seen = (p.0@, p.1@);
            out.push(p);
            proof {
                assert(dialect::turns(out@) =~= dialect::turns(before).push(seen));
            }
        }
        i = i + 1;
    }
    proof {
        assert(all.take(i as int) =~= all);
    }
    out
}

/// Teaches the tool protocol in the system turn.
pub fn teach_tools(messages: Vec<(String, String)>, mode: AgentMode) -> (r: Vec<(String, String)>)
    ensures
        dialect::turns(r@) == taught(dialect::turns(messages@), tools::instructions(mode)),
{
    let how = tools::local_tool_instructions(mode);
    let ghost t = dialect::turns(messages@);
    let mut out = messages;
    if out.len() > 0 && text::str_eq(out[0].0.as_str(), "system") {
        let mut s = text::copy(out[0].1.as_str());
        s.append("\n\n");
        s.append(how.as_str());
        let first = (text::copy(out[0].0.as_str()), s);
        out.set(0, first);
        proof {
            assert(dialect::turns(out@) =~= taught(t, how@));
        }
    } else {
        out.insert(0, (text::copy("system"), how));
        proof {
            assert(dialect::turns(out@) =~= taught(t, tools::instructions(mode)));
        }
    }
    out
}

// ---- states, events, actions -------------------------------------------------------------------------

pub enum LocalPhase {
    /// A round is about to begin.
    Starting,
    /// The model is generating.
    Generating,
    /// Call `next` is about to be taken.
    Taking { calls: Vec<LocalToolCall>, next: usize },
    /// The user is asked about the command of call `next`.
    Asking { calls: Vec<LocalToolCall>, next: usize, id: String },
    /// Call `next` is running.
    Running { calls: Vec<LocalToolCall>, next: usize, id: String },
    Over,
}

pub enum LocalPhaseV {
    Starting,
    Generating,
    Taking { calls: Seq<LocalCallV>, next: int },
    Asking { calls: Seq<LocalCallV>, next: int, id: Seq<char> },
    Running { calls: Seq<LocalCallV>, next: int, id: Seq<char> },
    Over,
}

impl View for LocalPhase {
    type V = LocalPhaseV;

    open spec fn view(&self) -> LocalPhaseV {
        match *self {
            LocalPhase::Starting => LocalPhaseV::Starting,
            LocalPhase::Generating => LocalPhaseV::Generating,
            LocalPhase::Taking { calls, next } => LocalPhaseV::Taking {
                calls: local_calls::call_views(calls@),
                next: next as int,
            },
            LocalPhase::Asking { calls, next, id } => LocalPhaseV::Asking {
                calls: local_calls::call_views(calls@),
                next: next as int,
                id: id@,
            },
            LocalPhase::Running { calls, next, id } => LocalPhaseV::Running {
                calls: local_calls::call_views(calls@),
                next: next as int,
                id: id@,
            },
            LocalPhase::Over => LocalPhaseV::Over,
        }
    }
}

/// The local loop of one message.
pub struct LocalTurn {
    pub dialect: Dialect,
    pub messages: Vec<(String, String)>,
    pub round: usize,
    pub phase: LocalPhase,
}

pub struct LocalV {
    pub dialect: Dialect,
    pub messages: Seq<(Seq<char>, Seq<char>)>,
    pub round: nat,
    pub phase: LocalPhaseV,
}

impl View for LocalTurn {
    type V = LocalV;

    open spec fn view(&self) -> LocalV {
        LocalV {
            dialect: self.dialect,
            messages: dialect::turns(self.messages@),
            round: self.round as nat,
            phase: self.phase@,
        }
    }
}

/// The calls that a text holds in the model's own format.
pub open spec fn native_in(d: Dialect, s: Seq<char>) -> Seq<LocalCallV> {
    if d == Dialect::Gemma4 {
        gemma4::calls_in(s).map_values(
            |c: (Seq<char>, JsonV)| LocalCallV { name: c.0, args: c.1 },
        )
    } else {
        seq![]
    }
}

/// Reads the calls that a text holds in the model's own format; only Gemma 4 has one.
pub fn native_calls(d: Dialect, text: &str) -> (r: Vec<LocalToolCall>)
    ensures
        local_calls::call_views(r@) == native_in(d, text@),
{
    let mut out: Vec<LocalToolCall> = Vec::new();
    if d != Dialect::Gemma4 {
        proof {
            assert(local_calls::call_views(out@) =~= native_in(d, text@));
        }
        return out;
    }
    let mut rest = gemma4::parse_gemma4_tool_calls(text);
    let ghost all = rest@;
    while rest.len() > 0
        invariant
            out@.len() + rest@.len() == all.len(),
            gemma4::call_views(all) == gemma4::calls_in(text@),
            forall|i: int|
                0 <= i < out@.len() ==> (#[trigger] out@[i])@ == (LocalCallV {
                    name: all[i].0@,
                    args: all[i].1@,
                }),
            forall|i: int| 0 <= i < rest@.len() ==> #[trigger] rest@[i] == all[out@.len() + i],
        decreases rest.len(),
    {
        let call = rest.remove(0);
        proof {
            assert(call == all[out@.len() as int]);
        }
        out.push(LocalToolCall { name: call.0, args: call.1 });
    }
    proof {
        assert forall|i: int| 0 <= i < out@.len() implies local_calls::call_views(out@)[i]
            == native_in(d, text@)[i] by {
            assert(gemma4::call_views(all)[i] == (all[i].0@, all[i].1@));
            assert(out@[i]@.name == all[i].0@);
        }
        assert(gemma4::call_views(all).len() == all.len());
        assert(local_calls::call_views(out@) =~= native_in(d, text@));
    }
    out
}

/// What the model generated in a round.
pub struct Generated {
    pub text: String,
    /// The calls that were read in the model's own format.
    pub calls: Vec<LocalToolCall>,
    pub prompt_tokens: usize,
    pub completion_tokens: usize,
}

pub struct GeneratedV {
    pub text: Seq<char>,
    pub calls: Seq<LocalCallV>,
    pub prompt_tokens: nat,
    pub completion_tokens: nat,
}

impl View for Generated {
    type V = GeneratedV;

    open spec fn view(&self) -> GeneratedV {
        GeneratedV {
            text: self.text@,
            calls: local_calls::call_views(self.calls@),
            prompt_tokens: self.prompt_tokens as nat,
            completion_tokens: self.completion_tokens as nat,
        }
    }
}

pub enum LocalEvent {
    /// A round begins, unless the user has stopped the agent.
    Begin { cancelled: bool },
    /// The model has generated, or the engine failed.
    Generated(Result<Generated, String>),
    /// The next call may be taken, under this id.
    Take { id: String },
    /// The user's answer; none when the user has stopped the agent.
    Answer(Option<bool>),
    /// The result of the call; none when the user has stopped the agent.
    Result(Option<String>),
}

pub enum LocalEventV {
    Begin { cancelled: bool },
    Generated(Result<GeneratedV, Seq<char>>),
    Take { id: Seq<char> },
    Answer(Option<bool>),
    Result(Option<Seq<char>>),
}

impl View for LocalEvent {
    type V = LocalEventV;

    open spec fn view(&self) -> LocalEventV {
        match *self {
            LocalEvent::Begin { cancelled } => LocalEventV::Begin { cancelled },
            LocalEvent::Generated(r) => LocalEventV::Generated(
                match r {
                    Ok(g) => Ok(g@),
                    Err(e) => Err(e@),
                },
            ),
            LocalEvent::Take { id } => LocalEventV::Take { id: id@ },
            LocalEvent::Answer(b) => LocalEventV::Answer(b),
            LocalEvent::Result(r) => LocalEventV::Result(
                match r {
                    Some(s) => Some(s@),
                    None => None,
                },
            ),
        }
    }
}

pub enum LocalAction {
    Status(String),
    Stream(String),
    /// Have the model generate from the messages.
    Generate,
    Usage { prompt: usize, completion: usize, estimated: usize },
    ShowCall { id: String, name: String, arguments: String },
    ShowResult { id: String, result: String },
    Ask { command: String, id: String },
    FileChanged { path: String },
    Execute,
}

pub enum LocalActionV {
    Status(Seq<char>),
    Stream(Seq<char>),
    Generate,
    Usage { prompt: nat, completion: nat, estimated: nat },
    ShowCall { id: Seq<char>, name: Seq<char>, arguments: Seq<char> },
    ShowResult { id: Seq<char>, result: Seq<char> },
    Ask { command: Seq<char>, id: Seq<char> },
    FileChanged { path: Seq<char> },
    Execute,
}

impl View for LocalAction {
    type V = LocalActionV;

    open spec fn view(&self) -> LocalActionV {
        match *self {
            LocalAction::Status(s) => LocalActionV::Status(s@),
            LocalAction::Stream(s) => LocalActionV::Stream(s@),
            LocalAction::Generate => LocalActionV::Generate,
            LocalAction::Usage { prompt, completion, estimated } => LocalActionV::Usage {
                prompt: prompt as nat,
                completion: completion as nat,
                estimated: estimated as nat,
            },
            LocalAction::ShowCall { id, name, arguments } => LocalActionV::ShowCall {
                id: id@,
                name: name@,
                arguments: arguments@,
            },
            LocalAction::ShowResult { id, result } => LocalActionV::ShowResult {
                id: id@,
                result: result@,
            },
            LocalAction::Ask { command, id } => LocalActionV::Ask { command: command@, id: id@ },
            LocalAction::FileChanged { path } => LocalActionV::FileChanged { path: path@ },
            LocalAction::Execute => LocalActionV::Execute,
        }
    }
}

pub open spec fn actions_view(v: Seq<LocalAction>) -> Seq<LocalActionV> {
    v.map_values(|a: LocalAction| a@)
}

// ---- steps -----------------------------------------------------------------------------------------

pub struct LocalMoved {
    pub state: LocalV,
    pub actions: Seq<LocalActionV>,
}

pub open spec fn in_phase(st: LocalV, phase: LocalPhaseV) -> LocalV {
    LocalV { phase, ..st }
}

pub open spec fn say_v(s: Seq<char>) -> LocalActionV {
    LocalActionV::Stream(s)
}

/// The loop is over, with something said last.
pub open spec fn over(st: LocalV, before: Seq<LocalActionV>, last: Seq<char>) -> LocalMoved {
    LocalMoved {
        state: in_phase(st, LocalPhaseV::Over),
        actions: before + seq![say_v(last), say_v("[DONE]"@)],
    }
}

pub open spec fn stopped(st: LocalV) -> LocalMoved {
    over(st, Seq::empty(), "\n*[Stopped by user]*\n"@)
}

pub open spec fn begun(st: LocalV, cancelled: bool) -> LocalMoved {
    if cancelled {
        stopped(st)
    } else {
        LocalMoved {
            state: in_phase(st, LocalPhaseV::Generating),
            actions: seq![LocalActionV::Status("Thinking..."@), LocalActionV::Generate],
        }
    }
}

/// The calls of a round: those in the model's own format, else those in the taught one.
pub open spec fn calls_of(g: GeneratedV) -> Seq<LocalCallV> {
    if g.calls.len() > 0 {
        g.calls
    } else {
        local_calls::calls_in(local_calls::blocks(g.text))
    }
}

pub open spec fn generated(st: LocalV, r: Result<GeneratedV, Seq<char>>) -> LocalMoved {
    let quiet = seq![LocalActionV::Status(""@)];
    match r {
        Err(e) => over(st, quiet, engine_failure(e)),
        Ok(g) => {
            let shown = quiet.push(
                LocalActionV::Usage {
                    prompt: g.prompt_tokens,
                    completion: g.completion_tokens,
                    estimated: g.prompt_tokens + g.completion_tokens,
                },
            );
            if calls_of(g).len() == 0 {
                LocalMoved {
                    state: in_phase(st, LocalPhaseV::Over),
                    actions: shown.push(say_v("[DONE]"@)),
                }
            } else {
                LocalMoved {
                    state: LocalV {
                        messages: st.messages.push(
                            ("assistant"@, dialect::shown_text(st.dialect, g.text)),
                        ),
                        phase: LocalPhaseV::Taking { calls: calls_of(g), next: 0 },
                        ..st
                    },
                    actions: shown,
                }
            }
        },
    }
}

pub open spec fn taken(st: LocalV, list: Seq<LocalCallV>, next: int, id: Seq<char>) -> LocalMoved {
    let c = list[next];
    let shown = seq![
        LocalActionV::Status(tools::status_label(c.name)),
        LocalActionV::ShowCall { id, name: c.name, arguments: json::printed(c.args) },
    ];
    if c.name == "run_command"@ {
        LocalMoved {
            state: in_phase(st, LocalPhaseV::Asking { calls: list, next, id }),
            actions: shown.push(
                LocalActionV::Ask {
                    command: match c.args.get_text("command"@) {
                        Some(s) => s,
                        None => Seq::empty(),
                    },
                    id,
                },
            ),
        }
    } else {
        LocalMoved {
            state: in_phase(st, LocalPhaseV::Running { calls: list, next, id }),
            actions: shown.push(LocalActionV::Execute),
        }
    }
}

/// On to call `next`, or to the next round when there is none; too many rounds end the loop.
pub open spec fn on_to(st: LocalV, list: Seq<LocalCallV>, next: int) -> LocalMoved {
    if next < list.len() {
        LocalMoved {
            state: in_phase(st, LocalPhaseV::Taking { calls: list, next }),
            actions: Seq::empty(),
        }
    } else if st.round + 1 < MAX_LOCAL_ROUNDS {
        LocalMoved {
            state: LocalV { round: st.round + 1, phase: LocalPhaseV::Starting, ..st },
            actions: Seq::empty(),
        }
    } else {
        over(
            st,
            Seq::empty(),
            "\n\n*[Stopped after 16 tool rounds — the local model may be looping. Try a more specific request.]*\n"@,
        )
    }
}

pub open spec fn changed_file(c: LocalCallV) -> Option<Seq<char>> {
    if c.name == "write_file"@ || c.name == "edit_file"@ {
        c.args.get_text("path"@)
    } else {
        None
    }
}

pub open spec fn finished(
    st: LocalV,
    list: Seq<LocalCallV>,
    next: int,
    id: Seq<char>,
    result: Seq<char>,
) -> LocalMoved {
    let c = list[next];
    let told = LocalV {
        messages: st.messages.push(
            (
                "user"@,
                dialect::tool_response(st.dialect, c.name, calls::capped_local(result)),
            ),
        ),
        ..st
    };
    let m = on_to(told, list, next + 1);
    LocalMoved {
        state: m.state,
        actions: (match changed_file(c) {
            Some(f) => seq![LocalActionV::FileChanged { path: f }],
            None => Seq::<LocalActionV>::empty(),
        }) + seq![LocalActionV::ShowResult { id, result }] + m.actions,
    }
}

/// The loop after an event.
pub open spec fn stepped(st: LocalV, ev: LocalEventV) -> LocalMoved {
    match (st.phase, ev) {
        (LocalPhaseV::Starting, LocalEventV::Begin { cancelled }) => begun(st, cancelled),
        (LocalPhaseV::Generating, LocalEventV::Generated(r)) => generated(st, r),
        (LocalPhaseV::Taking { calls, next }, LocalEventV::Take { id }) => taken(
            st,
            calls,
            next,
            id,
        ),
        (LocalPhaseV::Asking { calls, next, id }, LocalEventV::Answer(a)) => match a {
            None => stopped(st),
            Some(true) => LocalMoved {
                state: in_phase(st, LocalPhaseV::Running { calls, next, id }),
                actions: seq![LocalActionV::Execute],
            },
            Some(false) => finished(st, calls, next, id, "Command blocked by user."@),
        },
        (LocalPhaseV::Running { calls, next, id }, LocalEventV::Result(r)) => match r {
            None => stopped(st),
            Some(s) => finished(st, calls, next, id, s),
        },
        _ => LocalMoved { state: st, actions: Seq::empty() },
    }
}

/// The event is one that the loop is waiting for, and its tokens can be counted.
pub open spec fn awaited(st: LocalV, ev: LocalEventV) -> bool {
    match (st.phase, ev) {
        (LocalPhaseV::Starting, LocalEventV::Begin { .. }) => true,
        (LocalPhaseV::Generating, LocalEventV::Generated(r)) => r matches Ok(g)
            ==> g.prompt_tokens + g.completion_tokens <= usize::MAX,
        (LocalPhaseV::Taking { .. }, LocalEventV::Take { .. }) => true,
        (LocalPhaseV::Asking { .. }, LocalEventV::Answer(_)) => true,
        (LocalPhaseV::Running { .. }, LocalEventV::Result(_)) => true,
        _ => false,
    }
}

/// What holds of every local loop.
pub open spec fn local_ok(st: LocalV) -> bool {
    &&& st.round < MAX_LOCAL_ROUNDS
    &&& match st.phase {
        LocalPhaseV::Taking { calls, next } => 0 <= next < calls.len(),
        LocalPhaseV::Asking { calls, next, .. } => 0 <= next < calls.len(),
        LocalPhaseV::Running { calls, next, .. } => 0 <= next < calls.len(),
        _ => true,
    }
}

// ---- the executable loop ------------------------------------------------------------------------------

fn push_action(v: &mut Vec<LocalAction>, a: LocalAction)
    ensures
        actions_view(final(v)@) == actions_view(old(v)@).push(a@),
{
    let ghost before = v@;
    v.push(a);
    proof {
        assert(actions_view(v@) =~= actions_view(before).push(a@));
    }
}

fn no_actions() -> (r: Vec<LocalAction>)
    ensures
        actions_view(r@) == Seq::<LocalActionV>::empty(),
{
    let r: Vec<LocalAction> = Vec::new();
    proof {
        assert(actions_view(r@) =~= Seq::<LocalActionV>::empty());
    }
    r
}

fn say(s: &str) -> (r: LocalAction)
    ensures
        r@ == say_v(s@),
{
    LocalAction::Stream(text::copy(s))
}

/// What is said when the project folder cannot be used.
pub open spec fn no_folder(workspace: Seq<char>) -> Seq<char> {
    "**No project folder is open.** The configured folder `"@ + workspace
        + "` doesn't exist, so I can't read, write, or run commands.\n\nOpen a folder (File → Open Folder) and ask me again."@
}

/// Says so, and ends the message, when the project folder cannot be used.
pub fn check_folder(workspace_dir: &str, is_dir: bool) -> (r: Option<Vec<LocalAction>>)
    ensures
        match r {
            Some(v) => !workspace::usable(workspace_dir@, is_dir) && actions_view(v@) == seq![
                say_v(no_folder(workspace_dir@)),
                say_v("[DONE]"@),
            ],
            None => workspace::usable(workspace_dir@, is_dir),
        },
{
    if workspace::workspace_is_valid(workspace_dir, is_dir) {
        return None;
    }
    let mut s = text::copy("**No project folder is open.** The configured folder `");
    s.append(workspace_dir);
    s.append(
        "` doesn't exist, so I can't read, write, or run commands.\n\nOpen a folder (File → Open Folder) and ask me again.",
    );
    let mut actions = no_actions();
    push_action(&mut actions, LocalAction::Stream(s));
    push_action(&mut actions, say("[DONE]"));
    proof {
        assert(actions_view(actions@) =~= seq![
            say_v(no_folder(workspace_dir@)),
            say_v("[DONE]"@),
        ]);
    }
    Some(actions)
}

pub open spec fn engine_failure(e: Seq<char>) -> Seq<char> {
    "\n\n[local engine error: "@ + e + "]"@
}

fn engine_error(e: &str) -> (r: String)
    ensures
        r@ == engine_failure(e@),
{
    let mut s = text::copy("\n\n[local engine error: ");
    s.append(e);
    s.append("]");
    s
}

/// What is said when the model cannot be loaded.
pub fn load_failed(e: &str) -> (r: Vec<LocalAction>)
    ensures
        actions_view(r@) == seq![say_v(engine_failure(e@)), say_v("[DONE]"@)],
{
    let mut actions = no_actions();
    push_action(&mut actions, LocalAction::Stream(engine_error(e)));
    push_action(&mut actions, say("[DONE]"));
    proof {
        assert(actions_view(actions@) =~= seq![say_v(engine_failure(e@)), say_v("[DONE]"@)]);
    }
    actions
}

impl LocalTurn {
    pub open spec fn wf(&self) -> bool {
        local_ok(self@)
    }

    /// The loop of a message for a model of this dialect.
    pub fn new(dialect: Dialect, conversation: &Vec<Json>, mode: AgentMode) -> (r: Self)
        ensures
            r.wf(),
            r@ == (LocalV {
                dialect,
                messages: taught(
                    flattened(json::views(conversation@)),
                    tools::instructions(mode),
                ),
                round: 0,
                phase: LocalPhaseV::Starting,
            }),
    {
        let messages = teach_tools(flatten_messages(conversation), mode);
        LocalTurn { dialect, messages, round: 0, phase: LocalPhase::Starting }
    }

    fn end(&mut self, actions: &mut Vec<LocalAction>, last: &str)
        requires
            old(self).round < MAX_LOCAL_ROUNDS,
        ensures
            final(self).wf(),
            final(self)@ == over(old(self)@, actions_view(old(actions)@), last@).state,
            actions_view(final(actions)@) == over(
                old(self)@,
                actions_view(old(actions)@),
                last@,
            ).actions,
    {
        let ghost before = actions_view(actions@);
        push_action(actions, say(last));
        push_action(actions, say("[DONE]"));
        proof {
            assert(actions_view(actions@) =~= before + seq![say_v(last@), say_v("[DONE]"@)]);
        }
        self.phase = LocalPhase::Over;
    }

    fn add_turn(&mut self, role: &str, content: &str)
        ensures
            final(self)@ == (LocalV {
                messages: old(self)@.messages.push((role@, content@)),
                ..old(self)@
            }),
            final(self).round == old(self).round,
            final(self).phase == old(self).phase,
    {
        let ghost before = self.messages@;
        self.messages.push((text::copy(role), text::copy(content)));
        proof {
            assert(dialect::turns(self.messages@) =~= dialect::turns(before).push(
                (role@, content@),
            ));
        }
    }

    fn take_generated(&mut self, r: Result<Generated, String>) -> (actions: Vec<LocalAction>)
        requires
            old(self).round < MAX_LOCAL_ROUNDS,
            r matches Ok(g) ==> g.prompt_tokens + g.completion_tokens <= usize::MAX,
        ensures
            final(self).wf(),
            ({
                let res = match r {
                    Ok(g) => Ok(g@),
                    Err(e) => Err(e@),
                };
                &&& final(self)@ == generated(old(self)@, res).state
                &&& actions_view(actions@) == generated(old(self)@, res).actions
            }),
    {
        let mut actions = no_actions();
        push_action(&mut actions, LocalAction::Status(text::copy("")));
        proof {
            assert(actions_view(actions@) =~= seq![LocalActionV::Status(""@)]);
        }
        match r {
            Err(e) => {
                let s = engine_error(e.as_str());
                self.end(&mut actions, s.as_str());
                actions
            },
            Ok(g) => {
                push_action(
                    &mut actions,
                    LocalAction::Usage {
                        prompt: g.prompt_tokens,
                        completion: g.completion_tokens,
                        estimated: g.prompt_tokens + g.completion_tokens,
                    },
                );
                let ghost gv = g@;
                let list = if g.calls.len() > 0 {
                    g.calls
                } else {
                    local_calls::parse_local_tool_calls(g.text.as_str())
                };
                proof {
                    assert(local_calls::call_views(list@) == calls_of(gv));
                    assert(local_calls::call_views(list@).len() == list@.len());
                }
                if list.len() == 0 {
                    push_action(&mut actions, say("[DONE]"));
                    self.phase = LocalPhase::Over;
                    return actions;
                }
                let shown = self.dialect.strip_hidden(g.text.as_str());
                self.add_turn("assistant", shown.as_str());
                self.phase = LocalPhase::Taking { calls: list, next: 0 };
                actions
            },
        }
    }

    fn take_call(&mut self, list: Vec<LocalToolCall>, next: usize, id: String) -> (actions: Vec<
        LocalAction,
    >)
        requires
            old(self).round < MAX_LOCAL_ROUNDS,
            next < list@.len(),
        ensures
            final(self).wf(),
            final(self)@ == taken(
                old(self)@,
                local_calls::call_views(list@),
                next as int,
                id@,
            ).state,
            actions_view(actions@) == taken(
                old(self)@,
                local_calls::call_views(list@),
                next as int,
                id@,
            ).actions,
    {
        let ghost st = self@;
        let ghost views = local_calls::call_views(list@);
        let ghost idv = id@;
        let mut actions = no_actions();
        let c = &list[next];
        proof {
            assert(views[next as int] == c@);
        }
        push_action(
            &mut actions,
            LocalAction::Status(text::copy(tools::tool_status_label(c.name.as_str()))),
        );
        push_action(
            &mut actions,
            LocalAction::ShowCall {
                id: text::copy(id.as_str()),
                name: text::copy(c.name.as_str()),
                arguments: json::print(&c.args),
            },
        );
        if text::str_eq(c.name.as_str(), "run_command") {
            let command = match c.args.get_str("command") {
                Some(s) => text::copy(s),
                None => {
                    let s = String::new();
                    proof {
                        assert(s@ =~= Seq::<char>::empty());
                    }
                    s
                },
            };
            push_action(&mut actions, LocalAction::Ask { command, id: text::copy(id.as_str()) });
            self.phase = LocalPhase::Asking { calls: list, next, id };
        } else {
            push_action(&mut actions, LocalAction::Execute);
            self.phase = LocalPhase::Running { calls: list, next, id };
        }
        proof {
            assert(actions_view(actions@) =~= taken(st, views, next as int, idv).actions);
        }
        actions
    }

    fn take_on(&mut self, actions: &mut Vec<LocalAction>, list: Vec<LocalToolCall>, next: usize)
        requires
            old(self).round < MAX_LOCAL_ROUNDS,
        ensures
            final(self).wf(),
            final(self)@ == on_to(
                old(self)@,
                local_calls::call_views(list@),
                next as int,
            ).state,
            actions_view(final(actions)@) == actions_view(old(actions)@) + on_to(
                old(self)@,
                local_calls::call_views(list@),
                next as int,
            ).actions,
    {
        let ghost before = actions_view(actions@);
        if next < list.len() {
            self.phase = LocalPhase::Taking { calls: list, next };
            proof {
                assert(before + Seq::<LocalActionV>::empty() =~= before);
            }
        } else if self.round + 1 < MAX_LOCAL_ROUNDS {
            self.round = self.round + 1;
            self.phase = LocalPhase::Starting;
            proof {
                assert(before + Seq::<LocalActionV>::empty() =~= before);
            }
        } else {
            let ghost st = self@;
            self.end(
                actions,
                "\n\n*[Stopped after 16 tool rounds — the local model may be looping. Try a more specific request.]*\n",
            );
            proof {
                assert(actions_view(actions@) =~= before + on_to(
                    st,
                    local_calls::call_views(list@),
                    next as int,
                ).actions);
            }
        }
    }

    fn finish_call(&mut self, list: Vec<LocalToolCall>, next: usize, id: String, result: &str) -> (
    actions: Vec<LocalAction>)
        requires
            old(self).round < MAX_LOCAL_ROUNDS,
            next < list@.len(),
        ensures
            final(self).wf(),
            final(self)@ == finished(
                old(self)@,
                local_calls::call_views(list@),
                next as int,
                id@,
                result@,
            ).state,
            actions_view(actions@) == finished(
                old(self)@,
                local_calls::call_views(list@),
                next as int,
                id@,
                result@,
            ).actions,
    {
        let ghost views = local_calls::call_views(list@);
        let ghost idv = id@;
        let total = list.len();
        let mut actions = no_actions();
        let c = &list[next];
        proof {
            assert(views[next as int] == c@);
            assert(next < total);
        }
        if text::str_eq(c.name.as_str(), "write_file") || text::str_eq(
            c.name.as_str(),
            "edit_file",
        ) {
            if let Some(path) = c.args.get_str("path") {
                push_action(&mut actions, LocalAction::FileChanged { path: text::copy(path) });
            }
        }
        push_action(&mut actions, LocalAction::ShowResult { id, result: text::copy(result) });
        proof {
            let head = match changed_file(views[next as int]) {
                Some(f) => seq![LocalActionV::FileChanged { path: f }],
                None => Seq::<LocalActionV>::empty(),
            };
            assert(actions_view(actions@) =~= head + seq![
                LocalActionV::ShowResult { id: idv, result: result@ },
            ]);
        }
        let capped = calls::cap_local_result(result);
        let back = self.dialect.format_tool_response(c.name.as_str(), capped.as_str());
        self.add_turn("user", back.as_str());
        self.take_on(&mut actions, list, next + 1);
        actions
    }

    /// Takes an event that the loop is waiting for, and returns what is to be done.
    pub fn step(&mut self, ev: LocalEvent) -> (r: Vec<LocalAction>)
        requires
            old(self).wf(),
            awaited(old(self)@, ev@),
        ensures
            final(self).wf(),
            final(self)@ == stepped(old(self)@, ev@).state,
            actions_view(r@) == stepped(old(self)@, ev@).actions,
    {
        let ghost st = self@;
        let mut phase = LocalPhase::Over;
        std::mem::swap(&mut phase, &mut self.phase);
        let mut actions = no_actions();
        match phase {
            LocalPhase::Starting => {
                if let LocalEvent::Begin { cancelled } = ev {
                    if cancelled {
                        self.end(&mut actions, "\n*[Stopped by user]*\n");
                        proof {
                            assert(actions_view(actions@) =~= stopped(st).actions);
                        }
                    } else {
                        push_action(
                            &mut actions,
                            LocalAction::Status(text::copy("Thinking...")),
                        );
                        push_action(&mut actions, LocalAction::Generate);
                        self.phase = LocalPhase::Generating;
                        proof {
                            assert(actions_view(actions@) =~= begun(st, false).actions);
                        }
                    }
                }
                actions
            },
            LocalPhase::Generating => {
                if let LocalEvent::Generated(r) = ev {
                    return self.take_generated(r);
                }
                actions
            },
            LocalPhase::Taking { calls, next } => {
                if let LocalEvent::Take { id } = ev {
                    return self.take_call(calls, next, id);
                }
                actions
            },
            LocalPhase::Asking { calls, next, id } => {
                if let LocalEvent::Answer(answer) = ev {
                    match answer {
                        None => {
                            self.end(&mut actions, "\n*[Stopped by user]*\n");
                            proof {
                                assert(actions_view(actions@) =~= stopped(st).actions);
                            }
                        },
                        Some(yes) => {
                            if !yes {
                                return self.finish_call(
                                    calls,
                                    next,
                                    id,
                                    "Command blocked by user.",
                                );
                            }
                            push_action(&mut actions, LocalAction::Execute);
                            self.phase = LocalPhase::Running { calls, next, id };
                            proof {
                                assert(actions_view(actions@) =~= seq![LocalActionV::Execute]);
                            }
                        },
                    }
                }
                actions
            },
            LocalPhase::Running { calls, next, id } => {
                if let LocalEvent::Result(r) = ev {
                    match r {
                        None => {
                            self.end(&mut actions, "\n*[Stopped by user]*\n");
                            proof {
                                assert(actions_view(actions@) =~= stopped(st).actions);
                            }
                        },
                        Some(s) => {
                            return self.finish_call(calls, next, id, s.as_str());
                        },
                    }
                }
                actions
            },
            LocalPhase::Over => actions,
        }
    }
}

// ---- laws ------------------------------------------------------------------------------------------------

/// A command runs only after the user has agreed to it.
pub proof fn law_commands_need_consent(st: LocalV, ev: LocalEventV)
    requires
        local_ok(st),
        awaited(st, ev),
        stepped(st, ev).actions.contains(LocalActionV::Execute),
    ensures
        ({
            let p = stepped(st, ev).state.phase;
            &&& p is Running
            &&& p matches LocalPhaseV::Running { calls, next, .. } ==> (calls[next].name
                == "run_command"@ ==> ev == LocalEventV::Answer(Some(true)))
        }),
{
    let m = stepped(st, ev);
    let i = choose|i: int| 0 <= i < m.actions.len() && m.actions[i] == LocalActionV::Execute;
    assert(m.actions[i] is Execute);
    match (st.phase, ev) {
        (LocalPhaseV::Asking { calls, next, id }, LocalEventV::Answer(_)) => {
            lemma_finished_runs_nothing(st, calls, next, id, "Command blocked by user."@, i);
        },
        (LocalPhaseV::Running { calls, next, id }, LocalEventV::Result(r)) => {
            if let Some(s) = r {
                lemma_finished_runs_nothing(st, calls, next, id, s, i);
            }
        },
        _ => {},
    }
}

proof fn lemma_finished_runs_nothing(
    st: LocalV,
    list: Seq<LocalCallV>,
    next: int,
    id: Seq<char>,
    result: Seq<char>,
    i: int,
)
    ensures
        0 <= i < finished(st, list, next, id, result).actions.len() ==> !(finished(
            st,
            list,
            next,
            id,
            result,
        ).actions[i] is Execute),
{
    let c = list[next];
    let told = LocalV {
        messages: st.messages.push(
            (
                "user"@,
                dialect::tool_response(st.dialect, c.name, calls::capped_local(result)),
            ),
        ),
        ..st
    };
    let tail = on_to(told, list, next + 1).actions;
    let head = match changed_file(c) {
        Some(f) => seq![LocalActionV::FileChanged { path: f }],
        None => Seq::<LocalActionV>::empty(),
    };
    let all = finished(st, list, next, id, result).actions;
    assert(all == head + seq![LocalActionV::ShowResult { id, result }] + tail);
    if head.len() + 1 <= i < all.len() {
        assert(all[i] == tail[i - head.len() - 1]);
    }
}

/// A message takes at most the rounds that are allowed.
pub proof fn law_rounds_are_limited(st: LocalV, ev: LocalEventV)
    requires
        local_ok(st),
        awaited(st, ev),
    ensures
        st.round <= stepped(st, ev).state.round <= st.round + 1,
        stepped(st, ev).state.round < MAX_LOCAL_ROUNDS,
{
}

/// A call that is done has its result put behind all messages, as the user's turn, shown under the
/// call's id, and the file that it changed is told of; then the next call is taken, in order, and
/// behind the last one the next round begins.
pub proof fn law_results_reach_the_model(
    st: LocalV,
    list: Seq<LocalCallV>,
    next: int,
    id: Seq<char>,
    result: Seq<char>,
)
    requires
        st.phase == (LocalPhaseV::Running { calls: list, next, id }),
        0 <= next < list.len(),
        text::byte_len(result) <= 4000,
    ensures
        ({
            let m = stepped(st, LocalEventV::Result(Some(result)));
            let c = list[next];
            let n = st.messages.len() as int;
            &&& m.state.dialect == st.dialect
            &&& m.state.messages.len() == n + 1
            &&& m.state.messages.take(n) == st.messages
            &&& m.state.messages[n].0 == "user"@
            &&& m.state.messages[n].1 == dialect::tool_response(st.dialect, c.name, result)
            &&& m.actions.contains(LocalActionV::ShowResult { id, result })
            &&& forall|path: Seq<char>| #[trigger]
                m.actions.contains(LocalActionV::FileChanged { path }) <==> (c.name
                    == "write_file"@ || c.name == "edit_file"@) && c.args.get_text("path"@) == Some(
                    path,
                )
            &&& next + 1 < list.len() ==> m.state.round == st.round && m.state.phase == (
            LocalPhaseV::Taking { calls: list, next: next + 1 })
            &&& next + 1 == list.len() && st.round < 15 ==> m.state.round == st.round + 1
                && m.state.phase == LocalPhaseV::Starting
            &&& next + 1 == list.len() && st.round >= 15 ==> m.state.phase == LocalPhaseV::Over
                && m.actions.last() == LocalActionV::Stream("[DONE]"@)
        }),
{
    let c = list[next];
    let ev = LocalEventV::Result(Some(result));
    let m = stepped(st, ev);
    assert(m == finished(st, list, next, id, result));
    let told = LocalV {
        messages: st.messages.push(
            (
                "user"@,
                dialect::tool_response(st.dialect, c.name, calls::capped_local(result)),
            ),
        ),
        ..st
    };
    let head = match changed_file(c) {
        Some(f) => seq![LocalActionV::FileChanged { path: f }],
        None => Seq::<LocalActionV>::empty(),
    };
    let tail = on_to(told, list, next + 1).actions;
    assert(m.actions == head + seq![LocalActionV::ShowResult { id, result }] + tail);
    assert(m.actions[head.len() as int] == (LocalActionV::ShowResult { id, result }));
    assert(m.state.messages.take(st.messages.len() as int) =~= st.messages);
    assert forall|path: Seq<char>| #[trigger]
        m.actions.contains(LocalActionV::FileChanged { path }) <==> (c.name == "write_file"@
            || c.name == "edit_file"@) && c.args.get_text("path"@) == Some(path) by {
        if (c.name == "write_file"@ || c.name == "edit_file"@) && c.args.get_text("path"@) == Some(
            path,
        ) {
            assert(m.actions[0] == (LocalActionV::FileChanged { path }));
        }
        if m.actions.contains(LocalActionV::FileChanged { path }) {
            let k = choose|k: int|
                0 <= k < m.actions.len() && m.actions[k] == (LocalActionV::FileChanged { path });
            if k > head.len() {
                assert(m.actions[k] == tail[k - head.len() - 1]);
                assert(tail[k - head.len() - 1] is Stream);
            }
        }
    }
    if next + 1 == list.len() && st.round >= 15 {
        assert(tail.len() == 2);
        assert(m.actions.last() == tail[1]);
    }
}

/// A blocked command is answered like any other call, with the words that it was blocked.
pub proof fn law_blocked_commands_are_answered(
    st: LocalV,
    list: Seq<LocalCallV>,
    next: int,
    id: Seq<char>,
)
    requires
        st.phase == (LocalPhaseV::Asking { calls: list, next, id }),
        0 <= next < list.len(),
    ensures
        stepped(st, LocalEventV::Answer(Some(false))) == stepped(
            LocalV { phase: LocalPhaseV::Running { calls: list, next, id }, ..st },
            LocalEventV::Result(Some("Command blocked by user."@)),
        ),
        stepped(st, LocalEventV::Answer(Some(true))).state == (LocalV {
            phase: LocalPhaseV::Running { calls: list, next, id },
            ..st
        }),
        stepped(st, LocalEventV::Answer(Some(true))).actions == seq![LocalActionV::Execute],
{
    let run = LocalV { phase: LocalPhaseV::Running { calls: list, next, id }, ..st };
    let c = list[next];
    let said = "Command blocked by user."@;
    let pair = (
        "user"@,
        dialect::tool_response(st.dialect, c.name, calls::capped_local(said)),
    );
    let a = LocalV { messages: st.messages.push(pair), ..st };
    let b = LocalV { messages: run.messages.push(pair), ..run };
    let x = on_to(a, list, next + 1);
    let y = on_to(b, list, next + 1);
    assert(x.state == y.state && x.actions == y.actions);
    assert(finished(st, list, next, id, said).state == finished(run, list, next, id, said).state);
    assert(finished(st, list, next, id, said).actions == finished(
        run,
        list,
        next,
        id,
        said,
    ).actions);
}

/// A stop by the user ends the loop and is said, wherever it comes, and nothing else changes.
pub proof fn law_stopping_stops(st: LocalV, ev: LocalEventV)
    requires
        st.phase is Starting && ev == (LocalEventV::Begin { cancelled: true }) || st.phase is Asking
            && ev == LocalEventV::Answer(None) || st.phase is Running && ev == LocalEventV::Result(
            None,
        ),
    ensures
        stepped(st, ev).state == (LocalV { phase: LocalPhaseV::Over, ..st }),
        stepped(st, ev).actions == seq![
            LocalActionV::Stream("\n*[Stopped by user]*\n"@),
            LocalActionV::Stream("[DONE]"@),
        ],
{
    assert(stepped(st, ev).actions =~= seq![
        LocalActionV::Stream("\n*[Stopped by user]*\n"@),
        LocalActionV::Stream("[DONE]"@),
    ]);
}

/// A reply with calls is put behind all messages and its calls are taken from the first; one
/// without ends the message. Either way its tokens are told. The model's own format goes first.
pub proof fn law_replies(st: LocalV, g: GeneratedV)
    requires
        st.phase is Generating,
    ensures
        ({
            let m = stepped(st, LocalEventV::Generated(Ok(g)));
            let found = if g.calls.len() > 0 {
                g.calls
            } else {
                local_calls::calls_in(local_calls::blocks(g.text))
            };
            &&& m.actions[0] == LocalActionV::Status(Seq::<char>::empty())
            &&& m.actions[1] == (LocalActionV::Usage {
                prompt: g.prompt_tokens,
                completion: g.completion_tokens,
                estimated: g.prompt_tokens + g.completion_tokens,
            })
            &&& m.state.round == st.round && m.state.dialect == st.dialect
            &&& found.len() > 0 ==> m.actions.len() == 2 && m.state.phase == (LocalPhaseV::Taking {
                calls: found,
                next: 0,
            }) && m.state.messages == st.messages.push(
                ("assistant"@, dialect::shown_text(st.dialect, g.text)),
            )
            &&& found.len() == 0 ==> m.state.phase == LocalPhaseV::Over && m.state.messages
                == st.messages && m.actions.len() == 3 && m.actions[2] == LocalActionV::Stream(
                "[DONE]"@,
            )
        }),
{
    reveal_strlit("");
    assert(""@ =~= Seq::<char>::empty());
}

/// A failure of the engine is told whole and ends the loop.
pub proof fn law_engine_failures_are_told(st: LocalV, e: Seq<char>)
    requires
        st.phase is Generating,
    ensures
        ({
            let m = stepped(st, LocalEventV::Generated(Err(e)));
            &&& m.state == (LocalV { phase: LocalPhaseV::Over, ..st })
            &&& m.actions.len() == 3
            &&& m.actions[1] == LocalActionV::Stream("\n\n[local engine error: "@ + e + "]"@)
            &&& m.actions[2] == LocalActionV::Stream("[DONE]"@)
        }),
{
}

/// A call that is taken is shown whole, under its id; a command is asked about with its words, and
/// anything else runs.
pub proof fn law_calls_are_shown(st: LocalV, list: Seq<LocalCallV>, next: int, id: Seq<char>)
    requires
        st.phase == (LocalPhaseV::Taking { calls: list, next }),
        0 <= next < list.len(),
    ensures
        ({
            let m = stepped(st, LocalEventV::Take { id });
            let c = list[next];
            &&& m.state.messages == st.messages && m.state.round == st.round
            &&& m.actions.len() == 3
            &&& m.actions[0] == LocalActionV::Status(tools::status_label(c.name))
            &&& m.actions[1] == (LocalActionV::ShowCall {
                id,
                name: c.name,
                arguments: json::printed(c.args),
            })
            &&& c.name == "run_command"@ ==> m.state.phase == (LocalPhaseV::Asking {
                calls: list,
                next,
                id,
            }) && (c.args.get_text("command"@) matches Some(s) ==> m.actions[2] == (
            LocalActionV::Ask { command: s, id }))
            &&& c.name != "run_command"@ ==> m.state.phase == (LocalPhaseV::Running {
                calls: list,
                next,
                id,
            }) && m.actions[2] == LocalActionV::Execute
        }),
{
}

proof fn lemma_flattened_push(conv: Seq<JsonV>, m: JsonV)
    ensures
        flattened(conv.push(m)) == (match flat(m) {
            Some(p) => flattened(conv).push(p),
            None => flattened(conv),
        }),
{
    assert(conv.push(m).drop_last() =~= conv);
}

/// Flattening goes message by message: two conversations behind each other are flattened to their
/// turns behind each other.
pub proof fn law_flattening_is_in_order(a: Seq<JsonV>, b: Seq<JsonV>)
    ensures
        flattened(a + b) == flattened(a) + flattened(b),
    decreases b.len(),
{
    if b.len() == 0 {
        assert(a + b =~= a);
        assert(flattened(a) + flattened(b) =~= flattened(a));
    } else {
        law_flattening_is_in_order(a, b.drop_last());
        assert((a + b).drop_last() =~= a + b.drop_last());
        assert((a + b).last() == b.last());
        assert(flattened(a + b) =~= flattened(a) + flattened(b));
    }
}

proof fn lemma_part_texts_push(parts: Seq<JsonV>, p: JsonV)
    ensures
        part_texts(parts.push(p)) == (match p.get_text("text"@) {
            Some(s) => part_texts(parts).push(s),
            None => part_texts(parts),
        }),
{
    assert(parts.push(p).drop_last() =~= parts);
}

/// A message with a role and a text becomes one turn of that role, word for word; a role that no
/// template knows becomes the user's; parts give their texts, a line each; a message without a role
/// or a content gives no turn.
pub proof fn law_messages_are_flattened(m: JsonV, s: Seq<char>, a: JsonV, b: JsonV)
    ensures
        m.get_text("role"@) is None ==> flattened(seq![m]) == Seq::<(Seq<char>, Seq<char>)>::empty(),
        m.get("content"@) is None ==> flattened(seq![m]) == Seq::<(Seq<char>, Seq<char>)>::empty(),
        m.get_text("role"@) is Some && m.get("content"@) == Some(JsonV::Text(s)) ==> ({
            let t = flattened(seq![m]);
            let r = m.get_text("role"@)->0;
            &&& t.len() == 1
            &&& t[0].1 == s
            &&& r == "system"@ || r == "assistant"@ ==> t[0].0 == r
            &&& r != "system"@ && r != "assistant"@ ==> t[0].0 == "user"@
        }),
        m.get_text("role"@) is Some && m.get("content"@) == Some(JsonV::Array(seq![a, b])) && (
        a.get_text("text"@) is Some) && b.get_text("text"@) is Some ==> flattened(seq![m])[0].1
            == a.get_text("text"@)->0 + "\n"@ + b.get_text("text"@)->0,
        m.get_text("role"@) is Some && m.get("content"@) == Some(JsonV::Array(seq![a, b])) && (
        a.get_text("text"@) is None) && b.get_text("text"@) is Some ==> flattened(seq![m])[0].1
            == b.get_text("text"@)->0,
{
    let none = Seq::<JsonV>::empty();
    assert(none.push(m) =~= seq![m]);
    lemma_flattened_push(none, m);
    assert(flattened(none) =~= Seq::<(Seq<char>, Seq<char>)>::empty());
    assert(none.push(a).push(b) =~= seq![a, b]);
    lemma_part_texts_push(none, a);
    lemma_part_texts_push(none.push(a), b);
    assert(part_texts(none) =~= Seq::<Seq<char>>::empty());
    if a.get_text("text"@) is Some && b.get_text("text"@) is Some {
        let x = a.get_text("text"@)->0;
        let y = b.get_text("text"@)->0;
        assert(part_texts(seq![a, b]) =~= seq![x, y]);
        assert(seq![x, y].drop_last() =~= seq![x]);
        assert(seq![x].drop_last() =~= Seq::<Seq<char>>::empty());
        assert(seq![x, y].drop_first() =~= seq![y]);
        assert(text::join(seq![y], "\n"@) =~= y);
        assert(text::join(seq![x], "\n"@) =~= x);
        assert(text::join(seq![x, y], "\n"@) =~= x + "\n"@ + y);
    }
    if a.get_text("text"@) is None && b.get_text("text"@) is Some {
        let y = b.get_text("text"@)->0;
        assert(part_texts(seq![a, b]) =~= seq![y]);
        assert(text::join(seq![y], "\n"@) =~= y);
    }
}

/// Teaching the tools loses no turn: every turn stays, word for word, behind a system turn that
/// ends with the lesson and begins with what the system turn said before.
pub proof fn law_teaching_keeps_the_turns(t: Seq<(Seq<char>, Seq<char>)>, how: Seq<char>)
    ensures
        ({
            let r = taught(t, how);
            &&& r[0].0 == "system"@
            &&& t.len() > 0 && t[0].0 == "system"@ ==> r.len() == t.len() && r.skip(1) == t.skip(1)
                && r[0].1 == t[0].1 + "\n\n"@ + how
            &&& t.len() == 0 || t[0].0 != "system"@ ==> r.skip(1) == t && r[0].1 == how
        }),
{
    let r = taught(t, how);
    if t.len() > 0 && t[0].0 == "system"@ {
        assert(r.skip(1) =~= t.skip(1));
    } else {
        assert(r.skip(1) =~= t);
    }
}

/// Calls in the model's own format are read only of the one model that has one, in order.
pub proof fn law_own_calls(d: Dialect, s: Seq<char>)
    ensures
        d != Dialect::Gemma4 ==> native_in(d, s).len() == 0,
        d == Dialect::Gemma4 ==> native_in(d, s).len() == gemma4::calls_in(s).len(),
        d == Dialect::Gemma4 ==> forall|i: int|
            0 <= i < gemma4::calls_in(s).len() ==> (#[trigger] native_in(d, s)[i]).name
                == gemma4::calls_in(s)[i].0 && native_in(d, s)[i].args == gemma4::calls_in(s)[i].1,
{
}

/// A project folder that cannot be used is named.
pub proof fn law_missing_folder_is_named(workspace: Seq<char>)
    ensures
        exists|after: Seq<char>|
            no_folder(workspace) == #[trigger] (
            "**No project folder is open.** The configured folder `"@ + workspace + "`"@ + after),
{
    let tail = "` doesn't exist, so I can't read, write, or run commands.\n\nOpen a folder (File → Open Folder) and ask me again."@;
    reveal_strlit("` doesn't exist, so I can't read, write, or run commands.\n\nOpen a folder (File → Open Folder) and ask me again.");
    reveal_strlit("`");
    assert("`"@ + tail.skip(1) =~= tail);
    assert(no_folder(workspace) =~= "**No project folder is open.** The configured folder `"@
        + workspace + "`"@ + tail.skip(1));
}

/// A round begins by telling the user and having the model generate; where the rounds are used up
/// behind the last call, the user is told why the loop is over. Nothing else is shown.
pub proof fn law_rounds_are_told(
    st: LocalV,
    list: Seq<LocalCallV>,
    next: int,
    id: Seq<char>,
    result: Seq<char>,
)
    ensures
        st.phase is Starting ==> ({
            let m = stepped(st, LocalEventV::Begin { cancelled: false });
            &&& m.state == (LocalV { phase: LocalPhaseV::Generating, ..st })
            &&& m.actions == seq![
                LocalActionV::Status("Thinking..."@),
                LocalActionV::Generate,
            ]
        }),
        st.phase == (LocalPhaseV::Running { calls: list, next, id }) && 0 <= next < list.len() ==> ({
            let m = stepped(st, LocalEventV::Result(Some(result)));
            let n = m.actions.len() as int;
            let k: int = if (list[next].name == "write_file"@ || list[next].name == "edit_file"@)
                && list[next].args.get_text("path"@) is Some {
                1
            } else {
                0
            };
            &&& m.actions[k] == (LocalActionV::ShowResult { id, result })
            &&& next + 1 < list.len() || st.round < 15 ==> n == k + 1
            &&& next + 1 == list.len() && st.round >= 15 ==> n == k + 3 && m.actions[k + 1]
                == LocalActionV::Stream(
                "\n\n*[Stopped after 16 tool rounds — the local model may be looping. Try a more specific request.]*\n"@,
            )
        }),
{
}

} // verus!
