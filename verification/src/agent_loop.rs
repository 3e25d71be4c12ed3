//! The agent's loop: a turn sends the conversation, reads the reply, runs the tool calls in
//! it and goes on, until the reply has none.
//!
//! The loop decides; sending, running tools and asking the user are done outside. Each
//! `LoopEvent` says what came of that, and the `LoopAction`s say what is to be done next.
use vstd::prelude::*;

use crate::calls;
use crate::calls::PreparedCall;
use crate::calls::PreparedV;
use crate::conversation;
use crate::json;
use crate::json::Json;
use crate::json::JsonV;
use crate::messages;
use crate::reply;
use crate::stream;
use crate::stream::StreamEvent;
use crate::stream::StreamState;
use crate::stream::StreamV;
use crate::text;
use crate::tools;

verus! {

/// The most turns that one message may take.
pub const MAX_TURNS: usize = 200;

/// The estimate above which a conversation is compacted before it is sent.
pub const COMPACT_ABOVE: usize = 100000;

/// The estimate that compaction aims for.
pub const COMPACT_TARGET: usize = 40000;

/// The estimate that compaction aims for when the server refused the conversation.
pub const OVERFLOW_TARGET: usize = 20000;

// ---- states ----------------------------------------------------------------------------------

/// What the loop is waiting for.
pub enum Phase {
    /// A turn is about to begin.
    Starting,
    /// The request is out.
    Sent { vision: bool },
    /// The request is out again, after a compaction.
    Retried,
    /// The reply is arriving.
    Streaming { vision: bool, reply: StreamState },
    /// The first `count` calls are running side by side.
    Batch { calls: Vec<PreparedCall>, count: usize },
    /// Call `next` is about to be taken.
    Taking { calls: Vec<PreparedCall>, next: usize },
    /// The user is asked about the command of call `next`.
    Asking { calls: Vec<PreparedCall>, next: usize },
    /// Call `next` is running.
    Running { calls: Vec<PreparedCall>, next: usize },
    /// The loop is over.
    Over(Result<(), String>),
}

pub enum PhaseV {
    Starting,
    Sent { vision: bool },
    Retried,
    Streaming { vision: bool, reply: StreamV },
    Batch { calls: Seq<PreparedV>, count: int },
    Taking { calls: Seq<PreparedV>, next: int },
    Asking { calls: Seq<PreparedV>, next: int },
    Running { calls: Seq<PreparedV>, next: int },
    Over(Result<(), Seq<char>>),
}

impl View for Phase {
    type V = PhaseV;

    open spec fn view(&self) -> PhaseV {
        match *self {
            Phase::Starting => PhaseV::Starting,
            Phase::Sent { vision } => PhaseV::Sent { vision },
            Phase::Retried => PhaseV::Retried,
            Phase::Streaming { vision, reply } => PhaseV::Streaming { vision, reply: reply@ },
            Phase::Batch { calls, count } => PhaseV::Batch {
                calls: calls::prepared_views(calls@),
                count: count as int,
            },
            Phase::Taking { calls, next } => PhaseV::Taking {
                calls: calls::prepared_views(calls@),
                next: next as int,
            },
            Phase::Asking { calls, next } => PhaseV::Asking {
                calls: calls::prepared_views(calls@),
                next: next as int,
            },
            Phase::Running { calls, next } => PhaseV::Running {
                calls: calls::prepared_views(calls@),
                next: next as int,
            },
            Phase::Over(r) => PhaseV::Over(
                match r {
                    Ok(_) => Ok(()),
                    Err(e) => Err(e@),
                },
            ),
        }
    }
}

/// The loop of one message.
pub struct AgentLoop {
    pub model: String,
    pub provider: String,
    /// A model that can see images, to suggest where another cannot.
    pub sighted: String,
    pub tools: Vec<Json>,
    pub conversation: Vec<Json>,
    pub turn: usize,
    pub phase: Phase,
}

pub struct LoopV {
    pub model: Seq<char>,
    pub provider: Seq<char>,
    pub sighted: Seq<char>,
    pub tools: Seq<JsonV>,
    pub conversation: Seq<JsonV>,
    pub turn: nat,
    pub phase: PhaseV,
}

impl View for AgentLoop {
    type V = LoopV;

    open spec fn view(&self) -> LoopV {
        LoopV {
            model: self.model@,
            provider: self.provider@,
            sighted: self.sighted@,
            tools: json::views(self.tools@),
            conversation: json::views(self.conversation@),
            turn: self.turn as nat,
            phase: self.phase@,
        }
    }
}

// ---- events and actions --------------------------------------------------------------------------

/// What came of the work outside.
pub enum LoopEvent {
    /// A turn begins. The file tree and the project file are handed in where they are due.
    Begin { cancelled: bool, snapshot: Option<String>, clif: Option<String> },
    /// The request could not be sent.
    SendFailed(String),
    /// The server refused the request.
    Rejected { status: u16, shown: String, body: String },
    /// The server takes the request.
    Accepted,
    /// A chunk of the reply arrived, or could not be read.
    Chunk { cancelled: bool, text: Result<String, String> },
    /// The reply is complete.
    StreamEnd,
    /// The calls that ran side by side are done.
    Results(Vec<String>),
    /// The next call may be taken, unless the user has stopped the agent.
    Go { cancelled: bool },
    /// The user's answer; none when the user has stopped the agent.
    Answer(Option<bool>),
    /// The result of the running call; none when the user has stopped the agent.
    Result(Option<String>),
}

pub enum LoopEventV {
    Begin { cancelled: bool, snapshot: Option<Seq<char>>, clif: Option<Seq<char>> },
    SendFailed(Seq<char>),
    Rejected { status: u16, shown: Seq<char>, body: Seq<char> },
    Accepted,
    Chunk { cancelled: bool, text: Result<Seq<char>, Seq<char>> },
    StreamEnd,
    Results(Seq<Seq<char>>),
    Go { cancelled: bool },
    Answer(Option<bool>),
    Result(Option<Seq<char>>),
}

pub open spec fn opt_string(s: Option<String>) -> Option<Seq<char>> {
    match s {
        Some(t) => Some(t@),
        None => None,
    }
}

impl View for LoopEvent {
    type V = LoopEventV;

    open spec fn view(&self) -> LoopEventV {
        match *self {
            LoopEvent::Begin { cancelled, snapshot, clif } => LoopEventV::Begin {
                cancelled,
                snapshot: opt_string(snapshot),
                clif: opt_string(clif),
            },
            LoopEvent::SendFailed(e) => LoopEventV::SendFailed(e@),
            LoopEvent::Rejected { status, shown, body } => LoopEventV::Rejected {
                status,
                shown: shown@,
                body: body@,
            },
            LoopEvent::Accepted => LoopEventV::Accepted,
            LoopEvent::Chunk { cancelled, text } => LoopEventV::Chunk {
                cancelled,
                text: match text {
                    Ok(s) => Ok(s@),
                    Err(e) => Err(e@),
                },
            },
            LoopEvent::StreamEnd => LoopEventV::StreamEnd,
            LoopEvent::Results(v) => LoopEventV::Results(text::texts(v@)),
            LoopEvent::Go { cancelled } => LoopEventV::Go { cancelled },
            LoopEvent::Answer(b) => LoopEventV::Answer(b),
            LoopEvent::Result(r) => LoopEventV::Result(opt_string(r)),
        }
    }
}

/// What is to be done outside.
pub enum LoopAction {
    /// Tell the user what is going on.
    Status(String),
    /// Show the user a piece of the reply; `[DONE]` ends it.
    Stream(String),
    ToolStart { name: String, index: usize },
    /// Show a call, or its result.
    ShowCall { id: String, name: String, arguments: String },
    ShowResult { id: String, result: String },
    /// The conversation was made smaller.
    Compacted { reason: String, before: usize, after: usize, threshold: usize },
    /// The tokens that the turn took.
    Usage { prompt: u64, completion: u64, estimated: usize },
    /// Ask the user whether a command may run.
    Ask { command: String, id: String },
    /// A file, named as in the call, was changed.
    FileChanged { path: String },
    /// Send the request.
    Send(Json),
    /// Run the calls of the batch side by side.
    RunBatch,
    /// Run the call.
    Execute,
}

pub enum ActionV {
    Status(Seq<char>),
    Stream(Seq<char>),
    ToolStart { name: Seq<char>, index: usize },
    ShowCall { id: Seq<char>, name: Seq<char>, arguments: Seq<char> },
    ShowResult { id: Seq<char>, result: Seq<char> },
    Compacted { reason: Seq<char>, before: nat, after: nat, threshold: nat },
    Usage { prompt: u64, completion: u64, estimated: nat },
    Ask { command: Seq<char>, id: Seq<char> },
    FileChanged { path: Seq<char> },
    Send(JsonV),
    RunBatch,
    Execute,
}

impl View for LoopAction {
    type V = ActionV;

    open spec fn view(&self) -> ActionV {
        match *self {
            LoopAction::Status(s) => ActionV::Status(s@),
            LoopAction::Stream(s) => ActionV::Stream(s@),
            LoopAction::ToolStart { name, index } => ActionV::ToolStart { name: name@, index },
            LoopAction::ShowCall { id, name, arguments } => ActionV::ShowCall {
                id: id@,
                name: name@,
                arguments: arguments@,
            },
            LoopAction::ShowResult { id, result } => ActionV::ShowResult {
                id: id@,
                result: result@,
            },
            LoopAction::Compacted { reason, before, after, threshold } => ActionV::Compacted {
                reason: reason@,
                before: before as nat,
                after: after as nat,
                threshold: threshold as nat,
            },
            LoopAction::Usage { prompt, completion, estimated } => ActionV::Usage {
                prompt,
                completion,
                estimated: estimated as nat,
            },
            LoopAction::Ask { command, id } => ActionV::Ask { command: command@, id: id@ },
            LoopAction::FileChanged { path } => ActionV::FileChanged { path: path@ },
            LoopAction::Send(j) => ActionV::Send(j@),
            LoopAction::RunBatch => ActionV::RunBatch,
            LoopAction::Execute => ActionV::Execute,
        }
    }
}

pub open spec fn actions_view(v: Seq<LoopAction>) -> Seq<ActionV> {
    v.map_values(|a: LoopAction| a@)
}

// ---- steps -------------------------------------------------------------------------------------------

/// A state and the actions that lead to it.
pub struct Moved {
    pub state: LoopV,
    pub actions: Seq<ActionV>,
}

pub open spec fn moved(state: LoopV, actions: Seq<ActionV>) -> Moved {
    Moved { state, actions }
}

pub open spec fn in_phase(st: LoopV, phase: PhaseV) -> LoopV {
    LoopV { phase, ..st }
}

pub open spec fn ended(st: LoopV) -> LoopV {
    in_phase(st, PhaseV::Over(Ok(())))
}

pub open spec fn failed(st: LoopV, e: Seq<char>) -> LoopV {
    in_phase(st, PhaseV::Over(Err(e)))
}

pub open spec fn done_mark() -> ActionV {
    ActionV::Stream("[DONE]"@)
}

pub open spec fn with_message(st: LoopV, m: JsonV) -> LoopV {
    LoopV { conversation: st.conversation.push(m), ..st }
}

/// A file tree is due in this turn.
pub open spec fn wants_snapshot(turn: nat) -> bool {
    turn > 0 && turn % 50 == 0
}

/// The project file is due in this turn.
pub open spec fn wants_clif(turn: nat) -> bool {
    turn > 0 && turn % 100 == 0
}

/// The conversation with what is due at the beginning of a turn.
pub open spec fn refreshed(st: LoopV, snapshot: Option<Seq<char>>, clif: Option<Seq<char>>) -> LoopV {
    let a = match snapshot {
        Some(s) => if wants_snapshot(st.turn) && s.len() > 0 {
            with_message(
                st,
                messages::text_message_v(
                    "system"@,
                    "[Workspace refreshed — current file tree]\n"@ + s,
                ),
            )
        } else {
            st
        },
        None => st,
    };
    match clif {
        Some(s) => if wants_clif(st.turn) {
            with_message(
                a,
                messages::text_message_v(
                    "system"@,
                    "[CLIF.md refreshed — current project context]\n"@ + s
                        + "\n\nIf you have made structural changes to the project during this session (new files, renamed modules, changed dependencies), update .clif/CLIF.md to reflect them using write_file."@,
                ),
            )
        } else {
            a
        },
        None => a,
    }
}

/// The conversation made smaller, and the note about it.
pub open spec fn shrunk(st: LoopV, reason: Seq<char>, target: nat, threshold: nat) -> Moved {
    let after = conversation::compacted(st.conversation, target);
    moved(
        LoopV { conversation: after, ..st },
        seq![
            ActionV::Compacted {
                reason,
                before: conversation::capped(conversation::tokens(st.conversation)),
                after: conversation::capped(conversation::tokens(after)),
                threshold,
            },
        ],
    )
}

pub open spec fn begun(
    st: LoopV,
    cancelled: bool,
    snapshot: Option<Seq<char>>,
    clif: Option<Seq<char>>,
) -> Moved {
    let fresh = refreshed(st, snapshot, clif);
    let small = if conversation::tokens(fresh.conversation) > COMPACT_ABOVE {
        shrunk(fresh, "auto"@, COMPACT_TARGET as nat, COMPACT_ABOVE as nat)
    } else {
        moved(fresh, Seq::empty())
    };
    if cancelled {
        moved(ended(small.state), small.actions)
    } else {
        let vision = st.turn == 0 && messages::has_vision(small.state.conversation);
        moved(
            in_phase(small.state, PhaseV::Sent { vision }),
            small.actions + seq![
                ActionV::Status(
                    if st.turn == 0 {
                        "Thinking..."@
                    } else {
                        "Planning next step..."@
                    },
                ),
                ActionV::Send(
                    messages::request_v(
                        st.model,
                        small.state.conversation,
                        st.tools,
                        vision,
                        st.provider,
                    ),
                ),
            ],
        )
    }
}

pub open spec fn rejected(st: LoopV, status: u16, shown: Seq<char>, body: Seq<char>) -> Moved {
    if messages::overflow(status, body) {
        let small = shrunk(st, "overflow"@, OVERFLOW_TARGET as nat, 0);
        moved(
            in_phase(small.state, PhaseV::Retried),
            small.actions.push(
                ActionV::Send(
                    messages::retry_v(
                        st.model,
                        small.state.conversation,
                        st.tools,
                        st.provider,
                    ),
                ),
            ),
        )
    } else {
        moved(failed(st, "API error "@ + shown + ": "@ + body), Seq::empty())
    }
}

pub open spec fn shown_event(e: stream::EventV) -> ActionV {
    match e {
        stream::EventV::Text(s) => ActionV::Stream(s),
        stream::EventV::ToolStart { name, index } => ActionV::ToolStart { name, index },
    }
}

pub open spec fn shown_events(v: Seq<stream::EventV>) -> Seq<ActionV> {
    v.map_values(|e: stream::EventV| shown_event(e))
}

/// The turn after this one, or the pause when there were enough.
pub open spec fn next_turn(st: LoopV) -> Moved {
    if st.turn + 1 < MAX_TURNS {
        moved(LoopV { turn: st.turn + 1, phase: PhaseV::Starting, ..st }, Seq::empty())
    } else {
        moved(
            ended(st),
            seq![ActionV::Stream("\n\n*Paused — send a message to continue.*"@), done_mark()],
        )
    }
}

/// The text speaks of using a tool.
pub open spec fn narrates(s: Seq<char>) -> bool {
    text::contains(s, "Let me read"@) || text::contains(s, "Let me edit"@) || text::contains(
        s,
        "Let me search"@,
    ) || text::contains(s, "Let me write"@) || text::contains(s, "Let me run"@) || text::contains(
        s,
        "Let me find"@,
    ) || text::contains(s, "I'll read"@) || text::contains(s, "I'll edit"@) || text::contains(
        s,
        "I'll search"@,
    )
}

pub open spec fn prepared_all(calls: Seq<(usize, stream::PartV)>) -> Seq<PreparedV> {
    calls.map_values(|c: (usize, stream::PartV)| calls::prepared(c.1))
}

pub open spec fn shown_call(p: PreparedV) -> ActionV {
    ActionV::ShowCall { id: p.id, name: p.name, arguments: p.args_str }
}

pub open spec fn shown_calls(v: Seq<PreparedV>) -> Seq<ActionV> {
    v.map_values(|p: PreparedV| shown_call(p))
}

pub open spec fn usage_actions(st: LoopV, r: StreamV) -> Seq<ActionV> {
    if r.prompt_tokens > 0 || r.completion_tokens > 0 {
        seq![
            ActionV::Usage {
                prompt: r.prompt_tokens,
                completion: r.completion_tokens,
                estimated: conversation::capped(conversation::tokens(st.conversation)),
            },
        ]
    } else {
        seq![]
    }
}

/// What is said when a model answers nothing to an image.
pub open spec fn vision_hint(sighted: Seq<char>) -> Seq<char> {
    "⚠️ The model returned an empty response. This usually means it doesn't support vision/images. Try switching to **GPT-4o**, **"@
        + sighted + "**, or **Gemini 1.5 Pro** which support image input."@
}

/// What a complete reply leads to.
pub open spec fn replied(st: LoopV, vision: bool, r: StreamV) -> Moved {
    let usage = usage_actions(st, r);
    if r.content.len() == 0 && r.calls.len() == 0 {
        moved(
            ended(st),
            usage + seq![
                ActionV::Stream(
                    if vision {
                        vision_hint(st.sighted)
                    } else {
                        "⚠️ The model returned an empty response. Try rephrasing your message or switching models."@
                    },
                ),
                done_mark(),
            ],
        )
    } else if r.calls.len() == 0 || r.finish_reason != "tool_calls"@ {
        if narrates(r.content) && st.turn < MAX_TURNS - 1 {
            let told = with_message(
                with_message(st, messages::text_message_v("assistant"@, r.content)),
                messages::text_message_v(
                    "system"@,
                    "You described using tools but did not actually call them. Do not narrate — call the tool functions directly."@,
                ),
            );
            moved(next_turn(told).state, usage + next_turn(told).actions)
        } else {
            moved(ended(st), usage.push(done_mark()))
        }
    } else {
        let told = with_message(st, calls::assistant_v(r.content, r.calls));
        let list = prepared_all(r.calls);
        let n = calls::batch_len(list, 0) as int;
        if n > 1 {
            moved(
                in_phase(told, PhaseV::Batch { calls: list, count: n }),
                usage + seq![ActionV::Status("Reading files..."@)] + shown_calls(list.take(n))
                    + seq![ActionV::RunBatch],
            )
        } else {
            moved(in_phase(told, PhaseV::Taking { calls: list, next: 0 }), usage)
        }
    }
}

/// On to call `next`, or to the next turn when there is none.
pub open spec fn on_to(st: LoopV, list: Seq<PreparedV>, next: int) -> Moved {
    if next < list.len() {
        moved(in_phase(st, PhaseV::Taking { calls: list, next }), Seq::empty())
    } else {
        next_turn(st)
    }
}

/// The conversation with the capped results of the first calls.
pub open spec fn with_results(conv: Seq<JsonV>, list: Seq<PreparedV>, results: Seq<Seq<char>>) -> Seq<
    JsonV,
>
    decreases results.len(),
{
    if results.len() == 0 {
        conv
    } else {
        with_results(conv, list, results.drop_last()).push(
            messages::tool_message_v(
                list[results.len() - 1].id,
                calls::capped_result(results.last()),
            ),
        )
    }
}

pub open spec fn shown_results(list: Seq<PreparedV>, results: Seq<Seq<char>>) -> Seq<ActionV> {
    Seq::new(
        results.len(),
        |i: int| ActionV::ShowResult { id: list[i].id, result: results[i] },
    )
}

pub open spec fn batch_done(st: LoopV, list: Seq<PreparedV>, results: Seq<Seq<char>>) -> Moved {
    let told = LoopV { conversation: with_results(st.conversation, list, results), ..st };
    let m = on_to(told, list, results.len() as int);
    moved(m.state, shown_results(list, results) + m.actions)
}

pub open spec fn stopped(st: LoopV) -> Moved {
    moved(ended(st), seq![ActionV::Stream("\n*[Stopped by user]*\n"@), done_mark()])
}

/// The call is answered without being run.
pub open spec fn refused(st: LoopV, list: Seq<PreparedV>, next: int, e: Seq<char>) -> Moved {
    let p = list[next];
    let answer = reply::error_reply("INVALID_TOOL_ARGUMENTS"@, e, true);
    let m = on_to(with_message(st, messages::tool_message_v(p.id, answer)), list, next + 1);
    moved(
        m.state,
        seq![shown_call(p), ActionV::ShowResult { id: p.id, result: answer }] + m.actions,
    )
}

pub open spec fn text_arg(args: JsonV, k: Seq<char>, other: Seq<char>) -> Seq<char> {
    match args.get_text(k) {
        Some(s) => s,
        None => other,
    }
}

/// What is done with call `next`.
pub open spec fn taken(st: LoopV, list: Seq<PreparedV>, next: int) -> Moved {
    let p = list[next];
    match p.args {
        Err(e) => refused(st, list, next, e),
        Ok(args) => match tools::check_args(p.name, args) {
            Some(e) => refused(st, list, next, e),
            None => if p.name == "submit"@ {
                moved(
                    ended(st),
                    seq![
                        ActionV::Stream(text_arg(args, "summary"@, "Task complete."@)),
                        done_mark(),
                    ],
                )
            } else {
                let shown = seq![ActionV::Status(tools::status_label(p.name)), shown_call(p)];
                if p.name == "run_command"@ {
                    moved(
                        in_phase(st, PhaseV::Asking { calls: list, next }),
                        shown.push(
                            ActionV::Ask {
                                command: text_arg(args, "command"@, Seq::empty()),
                                id: p.id,
                            },
                        ),
                    )
                } else {
                    moved(
                        in_phase(st, PhaseV::Running { calls: list, next }),
                        shown.push(ActionV::Execute),
                    )
                }
            },
        },
    }
}

/// The file that a call has changed.
pub open spec fn changed_file(p: PreparedV) -> Option<Seq<char>> {
    match p.args {
        Ok(args) => if p.name == "write_file"@ || p.name == "edit_file"@ {
            args.get_text("path"@)
        } else {
            None
        },
        Err(_) => None,
    }
}

/// The result of call `next` enters the conversation.
pub open spec fn finished(st: LoopV, list: Seq<PreparedV>, next: int, result: Seq<char>) -> Moved {
    let p = list[next];
    let told = with_message(st, messages::tool_message_v(p.id, calls::capped_result(result)));
    let m = on_to(told, list, next + 1);
    moved(
        m.state,
        (match changed_file(p) {
            Some(f) => seq![ActionV::FileChanged { path: f }],
            None => Seq::<ActionV>::empty(),
        }) + seq![ActionV::ShowResult { id: p.id, result }] + m.actions,
    )
}

/// The loop after an event.
pub open spec fn stepped(st: LoopV, ev: LoopEventV) -> Moved {
    match (st.phase, ev) {
        (PhaseV::Starting, LoopEventV::Begin { cancelled, snapshot, clif }) => begun(
            st,
            cancelled,
            snapshot,
            clif,
        ),
        (PhaseV::Sent { .. }, LoopEventV::SendFailed(e)) => moved(
            failed(st, "Request failed: "@ + e),
            Seq::empty(),
        ),
        (PhaseV::Sent { .. }, LoopEventV::Rejected { status, shown, body }) => rejected(
            st,
            status,
            shown,
            body,
        ),
        (PhaseV::Sent { vision }, LoopEventV::Accepted) => moved(
            in_phase(st, PhaseV::Streaming { vision, reply: empty_reply() }),
            Seq::empty(),
        ),
        (PhaseV::Retried, LoopEventV::SendFailed(e)) => moved(
            failed(st, "Retry failed: "@ + e),
            Seq::empty(),
        ),
        (PhaseV::Retried, LoopEventV::Rejected { body, .. }) => moved(
            failed(st, "API error after compaction: "@ + body),
            Seq::empty(),
        ),
        (PhaseV::Retried, LoopEventV::Accepted) => moved(
            ended(st),
            seq![
                ActionV::Stream("\n*[Compacted. Send another message to continue.]*\n"@),
                done_mark(),
            ],
        ),
        (PhaseV::Streaming { vision, reply }, LoopEventV::Chunk { cancelled, text }) => if cancelled {
            moved(ended(st), Seq::empty())
        } else {
            match text {
                Ok(s) => {
                    let f = stream::fed(reply, s);
                    moved(
                        in_phase(st, PhaseV::Streaming { vision, reply: f.0 }),
                        shown_events(f.1),
                    )
                },
                Err(e) => moved(failed(st, "Stream read error: "@ + e), Seq::empty()),
            }
        },
        (PhaseV::Streaming { vision, reply }, LoopEventV::StreamEnd) => replied(
            st,
            vision,
            reply,
        ),
        (PhaseV::Batch { calls, .. }, LoopEventV::Results(v)) => batch_done(st, calls, v),
        (PhaseV::Taking { calls, next }, LoopEventV::Go { cancelled }) => if cancelled {
            stopped(st)
        } else {
            taken(st, calls, next)
        },
        (PhaseV::Asking { calls, next }, LoopEventV::Answer(answer)) => match answer {
            None => stopped(st),
            Some(true) => moved(
                in_phase(st, PhaseV::Running { calls, next }),
                seq![ActionV::Execute],
            ),
            Some(false) => finished(st, calls, next, "Command blocked by user."@),
        },
        (PhaseV::Running { calls, next }, LoopEventV::Result(r)) => match r {
            None => stopped(st),
            Some(s) => finished(st, calls, next, s),
        },
        _ => moved(st, Seq::empty()),
    }
}

pub open spec fn empty_reply() -> StreamV {
    StreamV {
        buffer: Seq::empty(),
        content: Seq::empty(),
        calls: Seq::empty(),
        finish_reason: Seq::empty(),
        prompt_tokens: 0,
        completion_tokens: 0,
    }
}

/// The event is one that the loop is waiting for, and its results can be capped.
pub open spec fn awaited(st: LoopV, ev: LoopEventV) -> bool {
    match (st.phase, ev) {
        (PhaseV::Starting, LoopEventV::Begin { .. }) => true,
        (PhaseV::Sent { .. }, LoopEventV::SendFailed(_)) => true,
        (PhaseV::Sent { .. }, LoopEventV::Rejected { .. }) => true,
        (PhaseV::Sent { .. }, LoopEventV::Accepted) => true,
        (PhaseV::Retried, LoopEventV::SendFailed(_)) => true,
        (PhaseV::Retried, LoopEventV::Rejected { .. }) => true,
        (PhaseV::Retried, LoopEventV::Accepted) => true,
        (PhaseV::Streaming { .. }, LoopEventV::Chunk { .. }) => true,
        (PhaseV::Streaming { .. }, LoopEventV::StreamEnd) => true,
        (PhaseV::Batch { count, .. }, LoopEventV::Results(v)) => v.len() == count && forall|i: int|
            0 <= i < v.len() ==> calls::result_fits(#[trigger] v[i]),
        (PhaseV::Taking { .. }, LoopEventV::Go { .. }) => true,
        (PhaseV::Asking { .. }, LoopEventV::Answer(_)) => true,
        (PhaseV::Running { .. }, LoopEventV::Result(r)) => r matches Some(s) ==> calls::result_fits(
            s,
        ),
        _ => false,
    }
}

/// What holds of every loop that is not over.
pub open spec fn loop_ok(st: LoopV) -> bool {
    &&& !(st.phase is Over) ==> st.turn < MAX_TURNS
    &&& match st.phase {
        PhaseV::Batch { calls, count } => 0 < count <= calls.len(),
        PhaseV::Taking { calls, next } => 0 <= next < calls.len(),
        PhaseV::Asking { calls, next } => 0 <= next < calls.len(),
        PhaseV::Running { calls, next } => 0 <= next < calls.len(),
        PhaseV::Streaming { reply, .. } => stream::in_order(reply.calls),
        _ => true,
    }
}

// ---- the executable loop ----------------------------------------------------------------------------

fn push_action(v: &mut Vec<LoopAction>, a: LoopAction)
    ensures
        actions_view(final(v)@) == actions_view(old(v)@).push(a@),
{
    let ghost before = v@;
    v.push(a);
    proof {
        assert(actions_view(v@) =~= actions_view(before).push(a@));
    }
}

fn no_actions() -> (r: Vec<LoopAction>)
    ensures
        actions_view(r@) == Seq::<ActionV>::empty(),
{
    let r: Vec<LoopAction> = Vec::new();
    proof {
        assert(actions_view(r@) =~= Seq::<ActionV>::empty());
    }
    r
}

fn say(s: &str) -> (r: LoopAction)
    ensures
        r@ == ActionV::Stream(s@),
{
    LoopAction::Stream(text::copy(s))
}

fn append_actions(v: &mut Vec<LoopAction>, more: Vec<LoopAction>)
    ensures
        actions_view(final(v)@) == actions_view(old(v)@) + actions_view(more@),
{
    let ghost before = v@;
    let ghost added = more@;
    let mut rest = more;
    v.append(&mut rest);
    proof {
        assert(v@ =~= before + added);
        assert(actions_view(v@) =~= actions_view(before) + actions_view(added));
    }
}

fn show_call(p: &PreparedCall) -> (r: LoopAction)
    ensures
        r@ == shown_call(p@),
{
    LoopAction::ShowCall {
        id: text::copy(p.id.as_str()),
        name: text::copy(p.name.as_str()),
        arguments: text::copy(p.args_str.as_str()),
    }
}

fn stream_actions(events: Vec<StreamEvent>) -> (r: Vec<LoopAction>)
    ensures
        actions_view(r@) == shown_events(stream::events_view(events@)),
{
    let ghost all = stream::events_view(events@);
    let mut rest = events;
    let mut out: Vec<LoopAction> = Vec::new();
    while rest.len() > 0
        invariant
            out@.len() + rest@.len() == all.len(),
            forall|i: int| 0 <= i < out@.len() ==> (#[trigger] out@[i])@ == shown_event(all[i]),
            forall|i: int| 0 <= i < rest@.len() ==> (#[trigger] rest@[i])@ == all[out@.len() + i],
        decreases rest.len(),
    {
        let e = rest.remove(0);
        proof {
            assert(e@ == all[out@.len() as int]);
        }
        out.push(
            match e {
                StreamEvent::Text(s) => LoopAction::Stream(s),
                StreamEvent::ToolStart { name, index } => LoopAction::ToolStart { name, index },
            },
        );
    }
    proof {
        assert(actions_view(out@) =~= shown_events(all));
    }
    out
}

fn is_narrating(s: &str) -> (r: bool)
    ensures
        r == narrates(s@),
{
    text::str_contains(s, "Let me read") || text::str_contains(s, "Let me edit")
        || text::str_contains(s, "Let me search") || text::str_contains(s, "Let me write")
        || text::str_contains(s, "Let me run") || text::str_contains(s, "Let me find")
        || text::str_contains(s, "I'll read") || text::str_contains(s, "I'll edit")
        || text::str_contains(s, "I'll search")
}

fn prepare_calls(parts: &Vec<(usize, stream::CallPart)>) -> (r: Vec<PreparedCall>)
    ensures
        calls::prepared_views(r@) == prepared_all(stream::calls_view(parts@)),
        r@.len() == parts@.len(),
{
    let ghost all = stream::calls_view(parts@);
    let mut out: Vec<PreparedCall> = Vec::new();
    let mut i: usize = 0;
    while i < parts.len()
        invariant
            all == stream::calls_view(parts@),
            i == out@.len(),
            i <= parts@.len(),
            forall|j: int| 0 <= j < i ==> (#[trigger] out@[j])@ == calls::prepared(all[j].1),
        decreases parts.len() - i,
    {
        out.push(calls::prepare_call(&parts[i].1));
        i = i + 1;
    }
    proof {
        assert(calls::prepared_views(out@) =~= prepared_all(all));
    }
    out
}

impl AgentLoop {
    pub open spec fn wf(&self) -> bool {
        loop_ok(self@)
    }

    /// The loop of a message whose conversation was put together. `sighted` names a model that
    /// can see images.
    pub fn new(model: &str, provider: &str, sighted: &str, conversation: Vec<Json>) -> (r: Self)
        ensures
            r.wf(),
            r@ == (LoopV {
                model: model@,
                provider: provider@,
                sighted: sighted@,
                tools: if provider@ == "openai"@ {
                    tools::definitions()
                } else {
                    tools::definitions().map_values(|t: JsonV| tools::stripped(t))
                },
                conversation: json::views(conversation@),
                turn: 0,
                phase: PhaseV::Starting,
            }),
    {
        let raw = tools::tool_definitions();
        let offered = if text::str_eq(provider, "openai") {
            raw
        } else {
            tools::strip_openai_fields(raw)
        };
        AgentLoop {
            model: text::copy(model),
            provider: text::copy(provider),
            sighted: text::copy(sighted),
            tools: offered,
            conversation,
            turn: 0,
            phase: Phase::Starting,
        }
    }

    /// The file tree is due at the beginning of this turn.
    pub fn needs_snapshot(&self) -> (r: bool)
        ensures
            r == wants_snapshot(self@.turn),
    {
        self.turn > 0 && self.turn % 50 == 0
    }

    /// The project file is due at the beginning of this turn.
    pub fn needs_clif(&self) -> (r: bool)
        ensures
            r == wants_clif(self@.turn),
    {
        self.turn > 0 && self.turn % 100 == 0
    }

    fn add_message(&mut self, m: Json)
        ensures
            final(self)@ == with_message(old(self)@, m@),
            final(self).phase == old(self).phase,
            final(self).turn == old(self).turn,
            final(self).conversation@.len() == old(self).conversation@.len() + 1,
    {
        let ghost before = self.conversation@;
        self.conversation.push(m);
        proof {
            assert(json::views(self.conversation@) =~= json::views(before).push(m@));
        }
    }

    fn shrink(&mut self, reason: &str, target: usize, threshold: usize) -> (r: Vec<LoopAction>)
        ensures
            final(self)@ == shrunk(old(self)@, reason@, target as nat, threshold as nat).state,
            final(self).phase == old(self).phase,
            final(self).turn == old(self).turn,
            actions_view(r@) == shrunk(
                old(self)@,
                reason@,
                target as nat,
                threshold as nat,
            ).actions,
    {
        let before = conversation::estimate_conversation_tokens(&self.conversation);
        conversation::compact_conversation(&mut self.conversation, target);
        let after = conversation::estimate_conversation_tokens(&self.conversation);
        let mut r: Vec<LoopAction> = Vec::new();
        let a = LoopAction::Compacted { reason: text::copy(reason), before, after, threshold };
        let ghost seen = a@;
        r.push(a);
        proof {
            assert(actions_view(r@) =~= seq![seen]);
        }
        r
    }

    fn refresh(&mut self, snapshot: &Option<String>, clif: &Option<String>)
        ensures
            final(self)@ == refreshed(old(self)@, opt_string(*snapshot), opt_string(*clif)),
            final(self).phase == old(self).phase,
            final(self).turn == old(self).turn,
    {
        if let Some(s) = snapshot {
            if self.needs_snapshot() && !s.as_str().is_empty() {
                let m = messages::text_message(
                    "system",
                    text::cat("[Workspace refreshed — current file tree]\n", s.as_str()).as_str(),
                );
                self.add_message(m);
            }
        }
        if let Some(s) = clif {
            if self.needs_clif() {
                let mut t = text::copy("[CLIF.md refreshed — current project context]\n");
                t.append(s.as_str());
                t.append("\n\nIf you have made structural changes to the project during this session (new files, renamed modules, changed dependencies), update .clif/CLIF.md to reflect them using write_file.");
                let m = messages::text_message("system", t.as_str());
                self.add_message(m);
            }
        }
    }

    fn begin(&mut self, cancelled: bool, snapshot: Option<String>, clif: Option<String>) -> (r: Vec<
        LoopAction,
    >)
        requires
            old(self).wf(),
            old(self)@.phase is Starting,
        ensures
            final(self).wf(),
            final(self)@ == begun(
                old(self)@,
                cancelled,
                opt_string(snapshot),
                opt_string(clif),
            ).state,
            actions_view(r@) == begun(
                old(self)@,
                cancelled,
                opt_string(snapshot),
                opt_string(clif),
            ).actions,
    {
        let ghost start = self@;
        self.refresh(&snapshot, &clif);
        let mut actions = if conversation::estimate_conversation_tokens(&self.conversation)
            > COMPACT_ABOVE {
            self.shrink("auto", COMPACT_TARGET, COMPACT_ABOVE)
        } else {
            no_actions()
        };
        if cancelled {
            self.phase = Phase::Over(Ok(()));
            return actions;
        }
        let vision = self.turn == 0 && messages::conversation_has_vision(&self.conversation);
        let status = if self.turn == 0 {
            "Thinking..."
        } else {
            "Planning next step..."
        };
        push_action(&mut actions, LoopAction::Status(text::copy(status)));
        let body = messages::request_body(
            self.model.as_str(),
            &self.conversation,
            &self.tools,
            vision,
            self.provider.as_str(),
        );
        push_action(&mut actions, LoopAction::Send(body));
        self.phase = Phase::Sent { vision };
        proof {
            let want = begun(start, cancelled, opt_string(snapshot), opt_string(clif));
            assert(actions_view(actions@) =~= want.actions);
        }
        actions
    }

    fn reject(&mut self, status: u16, shown: &str, body: &str) -> (r: Vec<LoopAction>)
        requires
            old(self).wf(),
            old(self)@.phase is Sent,
        ensures
            final(self).wf(),
            final(self)@ == rejected(old(self)@, status, shown@, body@).state,
            actions_view(r@) == rejected(old(self)@, status, shown@, body@).actions,
    {
        if messages::is_overflow(status, body) {
            let mut actions = self.shrink("overflow", OVERFLOW_TARGET, 0);
            let again = messages::retry_body(
                self.model.as_str(),
                &self.conversation,
                &self.tools,
                self.provider.as_str(),
            );
            push_action(&mut actions, LoopAction::Send(again));
            self.phase = Phase::Retried;
            actions
        } else {
            let mut e = text::copy("API error ");
            e.append(shown);
            e.append(": ");
            e.append(body);
            self.phase = Phase::Over(Err(e));
            no_actions()
        }
    }

    fn go_on(&mut self) -> (r: Vec<LoopAction>)
        requires
            old(self).turn < MAX_TURNS,
        ensures
            final(self).wf(),
            final(self)@ == next_turn(old(self)@).state,
            actions_view(r@) == next_turn(old(self)@).actions,
    {
        let mut actions = no_actions();
        if self.turn + 1 < MAX_TURNS {
            self.turn = self.turn + 1;
            self.phase = Phase::Starting;
        } else {
            push_action(&mut actions, say("\n\n*Paused — send a message to continue.*"));
            push_action(&mut actions, say("[DONE]"));
            self.phase = Phase::Over(Ok(()));
            proof {
                assert(actions_view(actions@) =~= next_turn(old(self)@).actions);
            }
        }
        actions
    }

    fn take_on(&mut self, list: Vec<PreparedCall>, next: usize) -> (r: Vec<LoopAction>)
        requires
            old(self).turn < MAX_TURNS,
        ensures
            final(self).wf(),
            final(self)@ == on_to(
                old(self)@,
                calls::prepared_views(list@),
                next as int,
            ).state,
            actions_view(r@) == on_to(
                old(self)@,
                calls::prepared_views(list@),
                next as int,
            ).actions,
    {
        if next < list.len() {
            self.phase = Phase::Taking { calls: list, next };
            no_actions()
        } else {
            self.go_on()
        }
    }

    fn stop(&mut self) -> (r: Vec<LoopAction>)
        ensures
            final(self).wf(),
            final(self)@ == stopped(old(self)@).state,
            actions_view(r@) == stopped(old(self)@).actions,
    {
        let mut actions = no_actions();
        push_action(&mut actions, say("\n*[Stopped by user]*\n"));
        push_action(&mut actions, say("[DONE]"));
        self.phase = Phase::Over(Ok(()));
        proof {
            assert(actions_view(actions@) =~= stopped(old(self)@).actions);
        }
        actions
    }

    fn take_reply(&mut self, vision: bool, reply: &StreamState) -> (r: Vec<LoopAction>)
        requires
            old(self).turn < MAX_TURNS,
            reply.wf(),
        ensures
            final(self).wf(),
            final(self)@ == replied(old(self)@, vision, reply@).state,
            actions_view(r@) == replied(old(self)@, vision, reply@).actions,
    {
        let ghost st = self@;
        let mut actions = no_actions();
        if reply.prompt_tokens > 0 || reply.completion_tokens > 0 {
            let estimated = conversation::estimate_conversation_tokens(&self.conversation);
            push_action(
                &mut actions,
                LoopAction::Usage {
                    prompt: reply.prompt_tokens,
                    completion: reply.completion_tokens,
                    estimated,
                },
            );
        }
        proof {
            assert(actions_view(actions@) =~= usage_actions(st, reply@));
            assert(reply@.calls.len() == reply.calls@.len());
        }
        let ghost usage = usage_actions(st, reply@);
        if reply.content.as_str().is_empty() && reply.calls.len() == 0 {
            let hint = if vision {
                let mut s = text::copy(
                    "⚠️ The model returned an empty response. This usually means it doesn't support vision/images. Try switching to **GPT-4o**, **",
                );
                s.append(self.sighted.as_str());
                s.append("**, or **Gemini 1.5 Pro** which support image input.");
                s
            } else {
                text::copy(
                    "⚠️ The model returned an empty response. Try rephrasing your message or switching models.",
                )
            };
            push_action(&mut actions, say(hint.as_str()));
            push_action(&mut actions, say("[DONE]"));
            self.phase = Phase::Over(Ok(()));
            proof {
                assert(actions_view(actions@) =~= replied(st, vision, reply@).actions);
            }
            return actions;
        }
        if reply.calls.len() == 0 || !text::str_eq(reply.finish_reason.as_str(), "tool_calls") {
            if is_narrating(reply.content.as_str()) && self.turn < MAX_TURNS - 1 {
                let said = messages::text_message("assistant", reply.content.as_str());
                self.add_message(said);
                let note = messages::text_message(
                    "system",
                    "You described using tools but did not actually call them. Do not narrate — call the tool functions directly.",
                );
                self.add_message(note);
                let more = self.go_on();
                append_actions(&mut actions, more);
                return actions;
            }
            push_action(&mut actions, say("[DONE]"));
            self.phase = Phase::Over(Ok(()));
            return actions;
        }
        let said = calls::assistant_message(reply.content.as_str(), &reply.calls);
        self.add_message(said);
        let list = prepare_calls(&reply.calls);
        let n = calls::readonly_prefix(&list);
        if n > 1 {
            push_action(&mut actions, LoopAction::Status(text::copy("Reading files...")));
            let ghost views = calls::prepared_views(list@);
            let ghost head = actions_view(actions@);
            let mut i: usize = 0;
            proof {
                assert(head =~= head + shown_calls(views.take(0)));
            }
            while i < n
                invariant
                    views == calls::prepared_views(list@),
                    i <= n <= list@.len(),
                    actions_view(actions@) == head + shown_calls(views.take(i as int)),
                decreases n - i,
            {
                push_action(&mut actions, show_call(&list[i]));
                proof {
                    assert(shown_calls(views.take(i as int + 1)) =~= shown_calls(
                        views.take(i as int),
                    ).push(shown_call(views[i as int])));
                    assert(actions_view(actions@) =~= head + shown_calls(views.take(i as int + 1)));
                }
                i = i + 1;
            }
            push_action(&mut actions, LoopAction::RunBatch);
            proof {
                assert(actions_view(actions@) =~= usage + seq![
                    ActionV::Status("Reading files..."@),
                ] + shown_calls(views.take(n as int)) + seq![ActionV::RunBatch]);
            }
            self.phase = Phase::Batch { calls: list, count: n };
        } else {
            self.phase = Phase::Taking { calls: list, next: 0 };
        }
        actions
    }

    fn take_results(&mut self, list: Vec<PreparedCall>, results: &Vec<String>) -> (r: Vec<LoopAction>)
        requires
            old(self).turn < MAX_TURNS,
            results@.len() <= list@.len(),
            forall|i: int|
                0 <= i < results@.len() ==> calls::result_fits((#[trigger] results@[i])@),
        ensures
            final(self).wf(),
            final(self)@ == batch_done(
                old(self)@,
                calls::prepared_views(list@),
                text::texts(results@),
            ).state,
            actions_view(r@) == batch_done(
                old(self)@,
                calls::prepared_views(list@),
                text::texts(results@),
            ).actions,
    {
        let ghost st = self@;
        let ghost views = calls::prepared_views(list@);
        let ghost all = text::texts(results@);
        let mut actions = no_actions();
        let mut i: usize = 0;
        proof {
            assert(all.take(0) =~= Seq::<Seq<char>>::empty());
            assert(shown_results(views, all.take(0)) =~= Seq::<ActionV>::empty());
        }
        while i < results.len()
            invariant
                views == calls::prepared_views(list@),
                all == text::texts(results@),
                i <= results@.len() <= list@.len(),
                forall|i: int|
                    0 <= i < results@.len() ==> calls::result_fits((#[trigger] results@[i])@),
                self@ == (LoopV {
                    conversation: with_results(st.conversation, views, all.take(i as int)),
                    ..st
                }),
                self.turn == st.turn,
                actions_view(actions@) == shown_results(views, all.take(i as int)),
            decreases results.len() - i,
        {
            proof {
                assert(all.take(i as int + 1).drop_last() =~= all.take(i as int));
                assert(all.take(i as int + 1).last() == results@[i as int]@);
                assert(views[i as int] == list@[i as int]@);
            }
            push_action(
                &mut actions,
                LoopAction::ShowResult {
                    id: text::copy(list[i].id.as_str()),
                    result: text::copy(results[i].as_str()),
                },
            );
            let m = messages::tool_message(
                list[i].id.as_str(),
                calls::cap_result(results[i].as_str()).as_str(),
            );
            self.add_message(m);
            proof {
                assert(shown_results(views, all.take(i as int + 1)) =~= shown_results(
                    views,
                    all.take(i as int),
                ).push(
                    ActionV::ShowResult { id: views[i as int].id, result: all[i as int] },
                ));
            }
            i = i + 1;
        }
        proof {
            assert(all.take(i as int) =~= all);
        }
        let more = self.take_on(list, i);
        append_actions(&mut actions, more);
        actions
    }

    fn refuse(&mut self, list: Vec<PreparedCall>, next: usize, e: &str) -> (r: Vec<LoopAction>)
        requires
            old(self).turn < MAX_TURNS,
            next < list@.len(),
        ensures
            final(self).wf(),
            final(self)@ == refused(
                old(self)@,
                calls::prepared_views(list@),
                next as int,
                e@,
            ).state,
            actions_view(r@) == refused(
                old(self)@,
                calls::prepared_views(list@),
                next as int,
                e@,
            ).actions,
    {
        let ghost st = self@;
        let ghost views = calls::prepared_views(list@);
        let total = list.len();
        let answer = reply::tool_error("INVALID_TOOL_ARGUMENTS", e, true);
        let mut actions = no_actions();
        push_action(&mut actions, show_call(&list[next]));
        let m = messages::tool_message(list[next].id.as_str(), answer.as_str());
        push_action(
            &mut actions,
            LoopAction::ShowResult { id: text::copy(list[next].id.as_str()), result: answer },
        );
        self.add_message(m);
        let ghost shown = actions_view(actions@);
        let more = self.take_on(list, next + 1);
        append_actions(&mut actions, more);
        proof {
            let p = views[next as int];
            let text = reply::error_reply("INVALID_TOOL_ARGUMENTS"@, e@, true);
            assert(shown =~= seq![
                shown_call(p),
                ActionV::ShowResult { id: p.id, result: text },
            ]);
        }
        actions
    }

    fn take_call(&mut self, list: Vec<PreparedCall>, next: usize) -> (r: Vec<LoopAction>)
        requires
            old(self).turn < MAX_TURNS,
            next < list@.len(),
        ensures
            final(self).wf(),
            final(self)@ == taken(
                old(self)@,
                calls::prepared_views(list@),
                next as int,
            ).state,
            actions_view(r@) == taken(
                old(self)@,
                calls::prepared_views(list@),
                next as int,
            ).actions,
    {
        let ghost st = self@;
        let ghost views = calls::prepared_views(list@);
        let wrong: Option<String> = match &list[next].args {
            Err(e) => Some(text::copy(e.as_str())),
            Ok(args) => match tools::validate_tool_args(list[next].name.as_str(), args) {
                Ok(_) => None,
                Err(e) => Some(e),
            },
        };
        proof {
            assert(views[next as int] == list@[next as int]@);
        }
        if let Some(e) = wrong {
            return self.refuse(list, next, e.as_str());
        }
        let mut actions = no_actions();
        let p = &list[next];
        if text::str_eq(p.name.as_str(), "submit") {
            let summary = match &p.args {
                Ok(args) => match args.get_str("summary") {
                    Some(s) => text::copy(s),
                    None => text::copy("Task complete."),
                },
                Err(_) => text::copy("Task complete."),
            };
            push_action(&mut actions, LoopAction::Stream(summary));
            push_action(&mut actions, say("[DONE]"));
            self.phase = Phase::Over(Ok(()));
            proof {
                assert(actions_view(actions@) =~= taken(st, views, next as int).actions);
            }
            return actions;
        }
        push_action(
            &mut actions,
            LoopAction::Status(text::copy(tools::tool_status_label(p.name.as_str()))),
        );
        push_action(&mut actions, show_call(p));
        if text::str_eq(p.name.as_str(), "run_command") {
            let command = match &p.args {
                Ok(args) => match args.get_str("command") {
                    Some(s) => text::copy(s),
                    None => String::new(),
                },
                Err(_) => String::new(),
            };
            let id = text::copy(p.id.as_str());
            proof {
                assert(p@.args is Ok);
                assert(command@ =~= text_arg(p@.args->Ok_0, "command"@, Seq::empty()));
            }
            push_action(&mut actions, LoopAction::Ask { command, id });
            self.phase = Phase::Asking { calls: list, next };
        } else {
            push_action(&mut actions, LoopAction::Execute);
            self.phase = Phase::Running { calls: list, next };
        }
        proof {
            assert(actions_view(actions@) =~= taken(st, views, next as int).actions);
        }
        actions
    }

    fn finish_call(&mut self, list: Vec<PreparedCall>, next: usize, result: &str) -> (r: Vec<
        LoopAction,
    >)
        requires
            old(self).turn < MAX_TURNS,
            next < list@.len(),
            calls::result_fits(result@),
        ensures
            final(self).wf(),
            final(self)@ == finished(
                old(self)@,
                calls::prepared_views(list@),
                next as int,
                result@,
            ).state,
            actions_view(r@) == finished(
                old(self)@,
                calls::prepared_views(list@),
                next as int,
                result@,
            ).actions,
    {
        let ghost st = self@;
        let ghost views = calls::prepared_views(list@);
        let total = list.len();
        let mut actions = no_actions();
        let p = &list[next];
        proof {
            assert(views[next as int] == p@);
        }
        if text::str_eq(p.name.as_str(), "write_file") || text::str_eq(
            p.name.as_str(),
            "edit_file",
        ) {
            if let Ok(args) = &p.args {
                if let Some(path) = args.get_str("path") {
                    push_action(&mut actions, LoopAction::FileChanged { path: text::copy(path) });
                }
            }
        }
        push_action(
            &mut actions,
            LoopAction::ShowResult {
                id: text::copy(p.id.as_str()),
                result: text::copy(result),
            },
        );
        let m = messages::tool_message(p.id.as_str(), calls::cap_result(result).as_str());
        self.add_message(m);
        let ghost shown = actions_view(actions@);
        let more = self.take_on(list, next + 1);
        append_actions(&mut actions, more);
        proof {
            let p = views[next as int];
            let head = match changed_file(p) {
                Some(f) => seq![ActionV::FileChanged { path: f }],
                None => Seq::<ActionV>::empty(),
            };
            assert(shown =~= head + seq![ActionV::ShowResult { id: p.id, result: result@ }]);
        }
        actions
    }

    /// Takes an event that the loop is waiting for, and returns what is to be done.
    pub fn step(&mut self, ev: LoopEvent) -> (r: Vec<LoopAction>)
        requires
            old(self).wf(),
            awaited(old(self)@, ev@),
        ensures
            final(self).wf(),
            final(self)@ == stepped(old(self)@, ev@).state,
            actions_view(r@) == stepped(old(self)@, ev@).actions,
    {
        let ghost st = self@;
        let mut phase = Phase::Over(Ok(()));
        std::mem::swap(&mut phase, &mut self.phase);
        match phase {
            Phase::Starting => {
                self.phase = Phase::Starting;
                if let LoopEvent::Begin { cancelled, snapshot, clif } = ev {
                    return self.begin(cancelled, snapshot, clif);
                }
                no_actions()
            },
            Phase::Sent { vision } => {
                self.phase = Phase::Sent { vision };
                match ev {
                    LoopEvent::SendFailed(e) => {
                        self.phase = Phase::Over(Err(text::cat("Request failed: ", e.as_str())));
                        no_actions()
                    },
                    LoopEvent::Rejected { status, shown, body } => self.reject(
                        status,
                        shown.as_str(),
                        body.as_str(),
                    ),
                    _ => {
                        self.phase = Phase::Streaming { vision, reply: StreamState::new() };
                        no_actions()
                    },
                }
            },
            Phase::Retried => {
                match ev {
                    LoopEvent::SendFailed(e) => {
                        self.phase = Phase::Over(Err(text::cat("Retry failed: ", e.as_str())));
                        no_actions()
                    },
                    LoopEvent::Rejected { status, shown, body } => {
                        self.phase = Phase::Over(
                            Err(text::cat("API error after compaction: ", body.as_str())),
                        );
                        no_actions()
                    },
                    _ => {
                        let mut actions = no_actions();
                        push_action(
                            &mut actions,
                            say("\n*[Compacted. Send another message to continue.]*\n"),
                        );
                        push_action(&mut actions, say("[DONE]"));
                        self.phase = Phase::Over(Ok(()));
                        proof {
                            assert(actions_view(actions@) =~= stepped(st, ev@).actions);
                        }
                        actions
                    },
                }
            },
            Phase::Streaming { vision, reply } => {
                match ev {
                    LoopEvent::Chunk { cancelled, text: chunk } => {
                        if cancelled {
                            self.phase = Phase::Over(Ok(()));
                            return no_actions();
                        }
                        match chunk {
                            Ok(s) => {
                                let mut growing = reply;
                                let events = growing.feed(s.as_str());
                                self.phase = Phase::Streaming { vision, reply: growing };
                                stream_actions(events)
                            },
                            Err(e) => {
                                self.phase = Phase::Over(
                                    Err(text::cat("Stream read error: ", e.as_str())),
                                );
                                no_actions()
                            },
                        }
                    },
                    _ => self.take_reply(vision, &reply),
                }
            },
            Phase::Batch { calls, count } => {
                if let LoopEvent::Results(v) = ev {
                    proof {
                        assert(text::texts(v@).len() == v@.len());
                        assert forall|i: int| 0 <= i < v@.len() implies calls::result_fits(
                            (#[trigger] v@[i])@,
                        ) by {
                            assert(text::texts(v@)[i] == v@[i]@);
                        }
                        assert(calls::prepared_views(calls@).len() == calls@.len());
                    }
                    return self.take_results(calls, &v);
                }
                no_actions()
            },
            Phase::Taking { calls, next } => {
                if let LoopEvent::Go { cancelled } = ev {
                    if cancelled {
                        return self.stop();
                    }
                    return self.take_call(calls, next);
                }
                no_actions()
            },
            Phase::Asking { calls, next } => {
                if let LoopEvent::Answer(answer) = ev {
                    return match answer {
                        None => self.stop(),
                        Some(yes) => {
                            if yes {
                                let mut actions = no_actions();
                                push_action(&mut actions, LoopAction::Execute);
                                self.phase = Phase::Running { calls, next };
                                proof {
                                    assert(actions_view(actions@) =~= seq![ActionV::Execute]);
                                }
                                actions
                            } else {
                                proof {
                                    lemma_blocked_fits();
                                }
                                self.finish_call(calls, next, "Command blocked by user.")
                            }
                        },
                    };
                }
                no_actions()
            },
            Phase::Running { calls, next } => {
                if let LoopEvent::Result(r) = ev {
                    return match r {
                        None => self.stop(),
                        Some(s) => self.finish_call(calls, next, s.as_str()),
                    };
                }
                no_actions()
            },
            Phase::Over(r) => no_actions(),
        }
    }
}

proof fn lemma_blocked_fits()
    ensures
        calls::result_fits("Command blocked by user."@),
{
    reveal_strlit("Command blocked by user.");
    text::lemma_byte_len_bounds("Command blocked by user."@);
}

} // verus!
