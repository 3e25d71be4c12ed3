//! The pass that has a model look over a project and write its `.clif/CLIF.md`.
use vstd::prelude::*;

use crate::calls;
use crate::json;
use crate::json::Json;
use crate::json::JsonV;
use crate::messages;
use crate::reply;
use crate::text;
use crate::tools;

verus! {

/// The most requests that one pass may take.
pub const MAX_INIT_TURNS: usize = 15;

/// The bytes of a command that a progress line shows.
pub const COMMAND_SHOWN: usize = 40;

// ---- texts -------------------------------------------------------------------------------------

pub open spec fn prompt(workspace: Seq<char>) -> Seq<char> {
    "You are a senior engineer performing a codebase analysis for ClifPad. Your ONLY job is to analyze the project at '"@
        + workspace
        + "' and write a concise, useful CLIF.md file that will help an AI coding agent understand this project quickly.\n\nUse list_files to explore the structure, read key files (README, package.json, Cargo.toml, pyproject.toml, go.mod, main entry points, config files), and search for patterns.\n\nThen write .clif/CLIF.md with exactly these sections:\n# Project Overview\n(1-2 sentences: what this project does)\n\n# Tech Stack\n(bullet list: languages, frameworks, key dependencies with versions)\n\n# Architecture\n(bullet list: key directories and what they do)\n\n# Key Files\n(bullet list: most important files to know about)\n\n# Build & Run\n(exact commands to install, dev, build, test)\n\n# Conventions\n(coding style, naming conventions, patterns used)\n\n# Important Notes\n(gotchas, environment requirements, things not to break)\n\nBe concise — target 300-500 words total. Focus on what an AI agent needs to understand before making changes. When done, call submit with a summary."@
}

/// The system prompt of the pass.
pub fn init_prompt(workspace_dir: &str) -> (r: String)
    ensures
        r@ == prompt(workspace_dir@),
{
    let mut s = text::copy(
        "You are a senior engineer performing a codebase analysis for ClifPad. Your ONLY job is to analyze the project at '",
    );
    s.append(workspace_dir);
    s.append(
        "' and write a concise, useful CLIF.md file that will help an AI coding agent understand this project quickly.\n\nUse list_files to explore the structure, read key files (README, package.json, Cargo.toml, pyproject.toml, go.mod, main entry points, config files), and search for patterns.\n\nThen write .clif/CLIF.md with exactly these sections:\n# Project Overview\n(1-2 sentences: what this project does)\n\n# Tech Stack\n(bullet list: languages, frameworks, key dependencies with versions)\n\n# Architecture\n(bullet list: key directories and what they do)\n\n# Key Files\n(bullet list: most important files to know about)\n\n# Build & Run\n(exact commands to install, dev, build, test)\n\n# Conventions\n(coding style, naming conventions, patterns used)\n\n# Important Notes\n(gotchas, environment requirements, things not to break)\n\nBe concise — target 300-500 words total. Focus on what an AI agent needs to understand before making changes. When done, call submit with a summary.",
    );
    s
}

pub open spec fn or_else(t: Option<Seq<char>>, other: Seq<char>) -> Seq<char> {
    match t {
        Some(s) => s,
        None => other,
    }
}

/// The command of a progress line ends where a character does.
pub open spec fn label_fits(name: Seq<char>, args: JsonV) -> bool {
    name == "run_command"@ ==> {
        let c = or_else(args.get_text("command"@), "..."@);
        text::byte_len(c) <= COMMAND_SHOWN || text::is_boundary(c, COMMAND_SHOWN as nat)
    }
}

/// What a progress line says of a call. `file_name` is the last part of the path, if it has one.
pub open spec fn label(name: Seq<char>, args: JsonV, file_name: Option<Seq<char>>) -> Seq<char> {
    if name == "list_files"@ {
        "Exploring "@ + or_else(args.get_text("path"@), "."@)
    } else if name == "read_file"@ {
        "Reading "@ + or_else(file_name, or_else(args.get_text("path"@), "a file"@))
    } else if name == "search"@ {
        "Searching for \""@ + or_else(args.get_text("query"@), "..."@) + "\""@
    } else if name == "write_file"@ {
        "Writing .clif/CLIF.md"@
    } else if name == "run_command"@ {
        let c = or_else(args.get_text("command"@), "..."@);
        "Running: "@ + c.take(text::chars_within(c, COMMAND_SHOWN as nat) as int)
    } else if name == "submit"@ {
        "Finalizing context file..."@
    } else {
        name + "..."@
    }
}

fn text_or<'a>(args: &'a Json, key: &str, other: &'a str) -> (r: &'a str)
    ensures
        r@ == or_else(args@.get_text(key@), other@),
{
    match args.get_str(key) {
        Some(s) => s,
        None => other,
    }
}

/// The progress line of the call can be written.
pub fn can_label(name: &str, args: &Json) -> (r: bool)
    ensures
        r == label_fits(name@, args@),
{
    if !text::str_eq(name, "run_command") {
        return true;
    }
    let c = text_or(args, "command", "...");
    text::str_bytes(c) <= COMMAND_SHOWN || text::split_bytes(c, COMMAND_SHOWN).is_some()
}

/// A progress line for people to read.
pub fn progress_label(name: &str, args: &Json, file_name: Option<&str>) -> (r: String)
    requires
        label_fits(name@, args@),
    ensures
        r@ == label(
            name@,
            args@,
            match file_name {
                Some(s) => Some(s@),
                None => None,
            },
        ),
{
    if text::str_eq(name, "list_files") {
        text::cat("Exploring ", text_or(args, "path", "."))
    } else if text::str_eq(name, "read_file") {
        match file_name {
            Some(s) => text::cat("Reading ", s),
            None => text::cat("Reading ", text_or(args, "path", "a file")),
        }
    } else if text::str_eq(name, "search") {
        let mut s = text::cat("Searching for \"", text_or(args, "query", "..."));
        s.append("\"");
        s
    } else if text::str_eq(name, "write_file") {
        text::copy("Writing .clif/CLIF.md")
    } else if text::str_eq(name, "run_command") {
        let v = text::to_chars(text_or(args, "command", "..."));
        let k = text::count_within(&v, COMMAND_SHOWN);
        let shown = text::substring(&v, 0, k);
        proof {
            assert(v@.subrange(0, k as int) =~= v@.take(k as int));
        }
        text::cat("Running: ", shown.as_str())
    } else if text::str_eq(name, "submit") {
        text::copy("Finalizing context file...")
    } else {
        text::cat(name, "...")
    }
}

// ---- the reply -----------------------------------------------------------------------------------

/// What stands at place 0 of a list, or under that name in an object.
pub open spec fn first_of(v: JsonV) -> Option<JsonV> {
    match v {
        JsonV::Array(a) => if a.len() > 0 {
            Some(a[0])
        } else {
            None
        },
        _ => v.get("0"@),
    }
}

pub open spec fn choice(v: JsonV) -> Option<JsonV> {
    match v.get("choices"@) {
        Some(c) => first_of(c),
        None => None,
    }
}

pub open spec fn message_of(v: JsonV) -> Option<JsonV> {
    match choice(v) {
        Some(c) => c.get("message"@),
        None => None,
    }
}

pub open spec fn finish_reason(v: JsonV) -> Seq<char> {
    match choice(v) {
        Some(c) => or_else(c.get_text("finish_reason"@), ""@),
        None => ""@,
    }
}

pub open spec fn content_of(v: JsonV) -> Seq<char> {
    match message_of(v) {
        Some(m) => or_else(m.get_text("content"@), ""@),
        None => ""@,
    }
}

pub open spec fn calls_of(v: JsonV) -> Seq<JsonV> {
    match message_of(v) {
        Some(m) => match m.get_items("tool_calls"@) {
            Some(s) => s,
            None => seq![],
        },
        None => seq![],
    }
}

/// The message that the conversation keeps of the reply.
pub open spec fn kept_reply(v: JsonV) -> JsonV {
    if calls_of(v).len() == 0 {
        messages::text_message_v("assistant"@, content_of(v))
    } else {
        JsonV::Object(
            json::no_members().insert("role"@, JsonV::Text("assistant"@)).insert(
                "content"@,
                JsonV::Null,
            ).insert("tool_calls"@, JsonV::Array(calls_of(v))),
        )
    }
}

fn choice_of(v: &Json) -> (r: Option<&Json>)
    ensures
        match r {
            Some(c) => choice(v@) == Some(c@),
            None => choice(v@) is None,
        },
{
    match v.get("choices") {
        Some(c) => match c {
            Json::Array(a) => {
                proof {
                    assert(c@->Array_0 =~= json::views(a@));
                }
                if a.len() > 0 {
                    Some(&a[0])
                } else {
                    None
                }
            },
            _ => c.get("0"),
        },
        None => None,
    }
}

fn copy_list(list: &Vec<Json>) -> (r: Vec<Json>)
    ensures
        json::views(r@) == json::views(list@),
{
    let mut out: Vec<Json> = Vec::new();
    let mut i: usize = 0;
    while i < list.len()
        invariant
            i == out@.len(),
            i <= list@.len(),
            forall|j: int| 0 <= j < i ==> (#[trigger] out@[j])@ == list@[j]@,
        decreases list.len() - i,
    {
        out.push(list[i].copy());
        i = i + 1;
    }
    proof {
        assert(json::views(out@) =~= json::views(list@));
    }
    out
}

fn reply_calls(v: &Json) -> (r: Vec<Json>)
    ensures
        json::views(r@) == calls_of(v@),
{
    if let Some(c) = choice_of(v) {
        if let Some(m) = c.get("message") {
            if let Some(list) = m.get_array("tool_calls") {
                return copy_list(list);
            }
        }
    }
    let r: Vec<Json> = Vec::new();
    proof {
        assert(json::views(r@) =~= Seq::<JsonV>::empty());
    }
    r
}

fn reply_content(v: &Json) -> (r: String)
    ensures
        r@ == content_of(v@),
{
    if let Some(c) = choice_of(v) {
        if let Some(m) = c.get("message") {
            return text::copy(text_or(m, "content", ""));
        }
    }
    text::copy("")
}

fn wants_tools(v: &Json) -> (r: bool)
    ensures
        r == (finish_reason(v@) == "tool_calls"@),
{
    if let Some(c) = choice_of(v) {
        return text::str_eq(text_or(c, "finish_reason", ""), "tool_calls");
    }
    text::str_eq("", "tool_calls")
}

fn keep_reply(v: &Json) -> (r: Json)
    ensures
        r@ == kept_reply(v@),
{
    let list = reply_calls(v);
    proof {
        assert(json::views(list@).len() == list@.len());
    }
    if list.len() == 0 {
        messages::text_message("assistant", reply_content(v).as_str())
    } else {
        let ghost all = json::views(list@);
        let calls = Json::Array(list);
        proof {
            assert(calls@->Array_0 =~= all);
        }
        Json::object().with_str("role", "assistant").with("content", Json::Null).with(
            "tool_calls",
            calls,
        )
    }
}

// ---- a call ----------------------------------------------------------------------------------------

pub struct CallV {
    pub id: Seq<char>,
    pub name: Seq<char>,
    pub args: Seq<char>,
}

pub open spec fn call_of(c: JsonV) -> CallV {
    CallV {
        id: or_else(c.get_text("id"@), ""@),
        name: match c.get("function"@) {
            Some(f) => or_else(f.get_text("name"@), ""@),
            None => ""@,
        },
        args: match c.get("function"@) {
            Some(f) => or_else(f.get_text("arguments"@), "{}"@),
            None => "{}"@,
        },
    }
}

struct InitCall {
    id: String,
    name: String,
    args: String,
}

fn read_call(c: &Json) -> (r: InitCall)
    ensures
        call_of(c@) == (CallV { id: r.id@, name: r.name@, args: r.args@ }),
{
    let (name, args) = match c.get("function") {
        Some(f) => (text::copy(text_or(f, "name", "")), text::copy(text_or(f, "arguments", "{}"))),
        None => (text::copy(""), text::copy("{}")),
    };
    InitCall { id: text::copy(text_or(c, "id", "")), name, args }
}

/// Why the call cannot be made, given how its arguments read.
pub open spec fn call_failure(name: Seq<char>, args: Result<JsonV, Seq<char>>) -> Option<Seq<char>> {
    match args {
        Err(e) => Some("Failed to parse tool arguments for '"@ + name + "': "@ + e),
        Ok(v) => tools::check_args(name, v),
    }
}

fn check_call(name: &str, args: &Result<Json, String>) -> (r: Option<String>)
    ensures
        match r {
            Some(e) => call_failure(name@, calls::result_view(*args)) == Some(e@),
            None => call_failure(name@, calls::result_view(*args)) is None,
        },
{
    match args {
        Err(e) => {
            let mut s = text::copy("Failed to parse tool arguments for '");
            s.append(name);
            s.append("': ");
            s.append(e.as_str());
            Some(s)
        },
        Ok(v) => match tools::validate_tool_args(name, v) {
            Ok(_) => None,
            Err(e) => Some(e),
        },
    }
}

// ---- states, events, actions ---------------------------------------------------------------------------

pub enum InitPhase {
    /// A request is about to be sent.
    Starting,
    /// The reply is awaited.
    Asking,
    /// Call `next` is about to be taken.
    Taking { calls: Vec<Json>, next: usize },
    /// Call `next` is running.
    Running { calls: Vec<Json>, next: usize },
    /// The model is done: the file is looked for.
    Submitted { summary: String },
    /// The pass is over without that: the file is looked for.
    Ending,
    Over,
}

pub enum InitPhaseV {
    Starting,
    Asking,
    Taking { calls: Seq<JsonV>, next: int },
    Running { calls: Seq<JsonV>, next: int },
    Submitted { summary: Seq<char> },
    Ending,
    Over,
}

impl View for InitPhase {
    type V = InitPhaseV;

    open spec fn view(&self) -> InitPhaseV {
        match *self {
            InitPhase::Starting => InitPhaseV::Starting,
            InitPhase::Asking => InitPhaseV::Asking,
            InitPhase::Taking { calls, next } => InitPhaseV::Taking {
                calls: json::views(calls@),
                next: next as int,
            },
            InitPhase::Running { calls, next } => InitPhaseV::Running {
                calls: json::views(calls@),
                next: next as int,
            },
            InitPhase::Submitted { summary } => InitPhaseV::Submitted { summary: summary@ },
            InitPhase::Ending => InitPhaseV::Ending,
            InitPhase::Over => InitPhaseV::Over,
        }
    }
}

/// One pass over a project.
pub struct InitProject {
    pub conversation: Vec<Json>,
    pub turn: usize,
    pub step: usize,
    pub phase: InitPhase,
}

pub struct InitV {
    pub conversation: Seq<JsonV>,
    pub turn: nat,
    pub step: nat,
    pub phase: InitPhaseV,
}

impl View for InitProject {
    type V = InitV;

    open spec fn view(&self) -> InitV {
        InitV {
            conversation: json::views(self.conversation@),
            turn: self.turn as nat,
            step: self.step as nat,
            phase: self.phase@,
        }
    }
}

/// What came back for a request.
pub enum InitReply {
    /// The request could not be sent.
    Unsent(String),
    /// The provider refused it, with this body.
    Refused(String),
    /// The body could not be read.
    Unreadable(String),
    Body(Json),
}

pub enum InitReplyV {
    Unsent(Seq<char>),
    Refused(Seq<char>),
    Unreadable(Seq<char>),
    Body(JsonV),
}

impl View for InitReply {
    type V = InitReplyV;

    open spec fn view(&self) -> InitReplyV {
        match *self {
            InitReply::Unsent(e) => InitReplyV::Unsent(e@),
            InitReply::Refused(e) => InitReplyV::Refused(e@),
            InitReply::Unreadable(e) => InitReplyV::Unreadable(e@),
            InitReply::Body(j) => InitReplyV::Body(j@),
        }
    }
}

pub enum InitAction {
    /// Send the conversation.
    Send,
    Progress { step: usize, message: String },
    /// Run the call.
    Execute { name: String, args: Json },
    /// See whether the file is there.
    LookForFile,
    /// Tell the user: with the file's path, and with the time taken where that is asked for.
    Done { success: bool, message: String, path: bool, timed: bool },
    /// Forget the session.
    Close,
    /// End with this error.
    Fail(String),
}

pub enum InitActionV {
    Send,
    Progress { step: nat, message: Seq<char> },
    Execute { name: Seq<char>, args: JsonV },
    LookForFile,
    Done { success: bool, message: Seq<char>, path: bool, timed: bool },
    Close,
    Fail(Seq<char>),
}

impl View for InitAction {
    type V = InitActionV;

    open spec fn view(&self) -> InitActionV {
        match *self {
            InitAction::Send => InitActionV::Send,
            InitAction::Progress { step, message } => InitActionV::Progress {
                step: step as nat,
                message: message@,
            },
            InitAction::Execute { name, args } => InitActionV::Execute { name: name@, args: args@ },
            InitAction::LookForFile => InitActionV::LookForFile,
            InitAction::Done { success, message, path, timed } => InitActionV::Done {
                success,
                message: message@,
                path,
                timed,
            },
            InitAction::Close => InitActionV::Close,
            InitAction::Fail(e) => InitActionV::Fail(e@),
        }
    }
}

pub open spec fn actions_view(v: Seq<InitAction>) -> Seq<InitActionV> {
    v.map_values(|a: InitAction| a@)
}

// ---- steps -----------------------------------------------------------------------------------------------

pub struct InitMoved {
    pub state: InitV,
    pub actions: Seq<InitActionV>,
}

pub open spec fn in_phase(st: InitV, phase: InitPhaseV) -> InitV {
    InitV { phase, ..st }
}

pub open spec fn with_message(st: InitV, m: JsonV) -> InitV {
    InitV { conversation: st.conversation.push(m), ..st }
}

/// A turn begins, unless the user has stopped the pass.
pub open spec fn begun(st: InitV, cancelled: bool) -> InitMoved {
    if cancelled {
        InitMoved {
            state: in_phase(st, InitPhaseV::Over),
            actions: seq![
                InitActionV::Done {
                    success: false,
                    message: "Cancelled"@,
                    path: false,
                    timed: false,
                },
            ],
        }
    } else {
        InitMoved {
            state: in_phase(st, InitPhaseV::Asking),
            actions: seq![InitActionV::Send],
        }
    }
}

pub open spec fn ending(st: InitV) -> InitMoved {
    InitMoved {
        state: in_phase(st, InitPhaseV::Ending),
        actions: seq![InitActionV::LookForFile],
    }
}

pub open spec fn failed(st: InitV, e: Seq<char>) -> InitMoved {
    InitMoved { state: in_phase(st, InitPhaseV::Over), actions: seq![InitActionV::Fail(e)] }
}

pub open spec fn replied(st: InitV, r: InitReplyV) -> InitMoved {
    match r {
        InitReplyV::Unsent(e) => failed(st, "Request failed: "@ + e),
        InitReplyV::Refused(e) => failed(st, "API error: "@ + e),
        InitReplyV::Unreadable(e) => failed(st, e),
        InitReplyV::Body(v) => {
            let told = with_message(st, kept_reply(v));
            if calls_of(v).len() == 0 || finish_reason(v) != "tool_calls"@ {
                ending(told)
            } else {
                InitMoved {
                    state: in_phase(told, InitPhaseV::Taking { calls: calls_of(v), next: 0 }),
                    actions: seq![],
                }
            }
        },
    }
}

/// On to call `next`, or to the next turn when there is none; too many turns end the pass.
pub open spec fn on_to(st: InitV, list: Seq<JsonV>, next: int) -> InitMoved {
    if next < list.len() {
        InitMoved {
            state: in_phase(st, InitPhaseV::Taking { calls: list, next }),
            actions: seq![],
        }
    } else if st.turn + 1 < MAX_INIT_TURNS {
        InitMoved {
            state: InitV { turn: st.turn + 1, phase: InitPhaseV::Starting, ..st },
            actions: seq![],
        }
    } else {
        ending(st)
    }
}

/// Call `next` is taken, given how its arguments read and the last part of its path.
pub open spec fn taken(
    st: InitV,
    list: Seq<JsonV>,
    next: int,
    args: Result<JsonV, Seq<char>>,
    file_name: Option<Seq<char>>,
) -> InitMoved {
    let c = call_of(list[next]);
    match call_failure(c.name, args) {
        Some(e) => on_to(
            with_message(
                st,
                messages::tool_message_v(
                    c.id,
                    reply::error_reply("INVALID_TOOL_ARGUMENTS"@, e, true),
                ),
            ),
            list,
            next + 1,
        ),
        None => {
            let a = args->Ok_0;
            let shown = InitActionV::Progress {
                step: st.step + 1,
                message: label(c.name, a, file_name),
            };
            if c.name == "submit"@ {
                InitMoved {
                    state: InitV {
                        step: st.step + 1,
                        phase: InitPhaseV::Submitted {
                            summary: or_else(a.get_text("summary"@), "Project analyzed"@),
                        },
                        ..st
                    },
                    actions: seq![shown, InitActionV::LookForFile],
                }
            } else {
                InitMoved {
                    state: InitV {
                        step: st.step + 1,
                        phase: InitPhaseV::Running { calls: list, next },
                        ..st
                    },
                    actions: seq![shown, InitActionV::Execute { name: c.name, args: a }],
                }
            }
        },
    }
}

/// Call `next` gave this result.
pub open spec fn finished(st: InitV, list: Seq<JsonV>, next: int, result: Seq<char>) -> InitMoved {
    on_to(
        with_message(st, messages::tool_message_v(call_of(list[next]).id, result)),
        list,
        next + 1,
    )
}

/// The pass is over, with or without the file.
pub open spec fn told_of_file(st: InitV, exists: bool) -> InitMoved {
    InitMoved {
        state: in_phase(st, InitPhaseV::Over),
        actions: seq![
            match st.phase {
                InitPhaseV::Submitted { summary } => InitActionV::Done {
                    success: exists,
                    message: summary,
                    path: true,
                    timed: true,
                },
                _ => InitActionV::Done {
                    success: exists,
                    message: "Analysis complete"@,
                    path: true,
                    timed: false,
                },
            },
            InitActionV::Close,
        ],
    }
}

/// What holds of every pass.
pub open spec fn init_ok(st: InitV) -> bool {
    &&& st.turn < MAX_INIT_TURNS
    &&& match st.phase {
        InitPhaseV::Taking { calls, next } => 0 <= next < calls.len(),
        InitPhaseV::Running { calls, next } => 0 <= next < calls.len(),
        _ => true,
    }
}

fn push_action(v: &mut Vec<InitAction>, a: InitAction)
    ensures
        actions_view(final(v)@) == actions_view(old(v)@).push(a@),
{
    let ghost before = v@;
    v.push(a);
    proof {
        assert(actions_view(v@) =~= actions_view(before).push(a@));
    }
}

fn no_actions() -> (r: Vec<InitAction>)
    ensures
        actions_view(r@) == Seq::<InitActionV>::empty(),
{
    let r: Vec<InitAction> = Vec::new();
    proof {
        assert(actions_view(r@) =~= Seq::<InitActionV>::empty());
    }
    r
}

fn one_action(a: InitAction) -> (r: Vec<InitAction>)
    ensures
        actions_view(r@) == seq![a@],
{
    let mut r = no_actions();
    push_action(&mut r, a);
    proof {
        assert(actions_view(r@) =~= seq![a@]);
    }
    r
}

impl InitProject {
    pub open spec fn wf(&self) -> bool {
        init_ok(self@)
    }

    /// A pass over the project in this folder.
    pub fn new(workspace_dir: &str) -> (r: Self)
        ensures
            r.wf(),
            r@ == (InitV {
                conversation: seq![
                    messages::text_message_v("system"@, prompt(workspace_dir@)),
                    messages::text_message_v(
                        "user"@,
                        "Analyze this project and write .clif/CLIF.md now."@,
                    ),
                ],
                turn: 0,
                step: 0,
                phase: InitPhaseV::Starting,
            }),
    {
        let mut conversation: Vec<Json> = Vec::new();
        conversation.push(messages::text_message("system", init_prompt(workspace_dir).as_str()));
        conversation.push(
            messages::text_message("user", "Analyze this project and write .clif/CLIF.md now."),
        );
        proof {
            assert(json::views(conversation@) =~= seq![
                messages::text_message_v("system"@, prompt(workspace_dir@)),
                messages::text_message_v(
                    "user"@,
                    "Analyze this project and write .clif/CLIF.md now."@,
                ),
            ]);
        }
        InitProject { conversation, turn: 0, step: 0, phase: InitPhase::Starting }
    }

    /// The body of the request.
    pub fn request(&self, model: &str, provider: &str) -> (r: Json)
        ensures
            r@ == messages::plain_request_v(
                model@,
                self@.conversation,
                if provider@ == "openai"@ {
                    tools::definitions()
                } else {
                    tools::definitions().map_values(|t: JsonV| tools::stripped(t))
                },
            ),
    {
        let raw = tools::tool_definitions();
        let offered = if text::str_eq(provider, "openai") {
            raw
        } else {
            tools::strip_openai_fields(raw)
        };
        messages::plain_request_body(model, &self.conversation, &offered)
    }

    fn add_message(&mut self, m: Json)
        ensures
            final(self)@ == with_message(old(self)@, m@),
            final(self).turn == old(self).turn,
            final(self).step == old(self).step,
    {
        let ghost before = self.conversation@;
        self.conversation.push(m);
        proof {
            assert(json::views(self.conversation@) =~= json::views(before).push(m@));
        }
    }

    /// Begins a turn, unless the user has stopped the pass.
    pub fn begin(&mut self, cancelled: bool) -> (r: Vec<InitAction>)
        requires
            old(self).wf(),
            old(self).phase is Starting,
        ensures
            final(self).wf(),
            final(self)@ == begun(old(self)@, cancelled).state,
            actions_view(r@) == begun(old(self)@, cancelled).actions,
    {
        if cancelled {
            self.phase = InitPhase::Over;
            one_action(
                InitAction::Done {
                    success: false,
                    message: text::copy("Cancelled"),
                    path: false,
                    timed: false,
                },
            )
        } else {
            self.phase = InitPhase::Asking;
            one_action(InitAction::Send)
        }
    }

    fn end(&mut self) -> (r: Vec<InitAction>)
        requires
            old(self).turn < MAX_INIT_TURNS,
        ensures
            final(self).wf(),
            final(self)@ == ending(old(self)@).state,
            actions_view(r@) == ending(old(self)@).actions,
    {
        self.phase = InitPhase::Ending;
        one_action(InitAction::LookForFile)
    }

    fn fail(&mut self, e: String) -> (r: Vec<InitAction>)
        requires
            old(self).turn < MAX_INIT_TURNS,
        ensures
            final(self).wf(),
            final(self)@ == failed(old(self)@, e@).state,
            actions_view(r@) == failed(old(self)@, e@).actions,
    {
        self.phase = InitPhase::Over;
        one_action(InitAction::Fail(e))
    }

    /// Takes what came back for the request.
    pub fn take_reply(&mut self, r: InitReply) -> (actions: Vec<InitAction>)
        requires
            old(self).wf(),
            old(self).phase is Asking,
        ensures
            final(self).wf(),
            final(self)@ == replied(old(self)@, r@).state,
            actions_view(actions@) == replied(old(self)@, r@).actions,
    {
        match r {
            InitReply::Unsent(e) => self.fail(text::cat("Request failed: ", e.as_str())),
            InitReply::Refused(e) => self.fail(text::cat("API error: ", e.as_str())),
            InitReply::Unreadable(e) => self.fail(e),
            InitReply::Body(v) => {
                let calls = reply_calls(&v);
                proof {
                    assert(json::views(calls@).len() == calls@.len());
                }
                self.add_message(keep_reply(&v));
                if calls.len() == 0 || !wants_tools(&v) {
                    self.end()
                } else {
                    self.phase = InitPhase::Taking { calls, next: 0 };
                    no_actions()
                }
            },
        }
    }

    fn move_on(&mut self, list: Vec<Json>, next: usize) -> (r: Vec<InitAction>)
        requires
            old(self).turn < MAX_INIT_TURNS,
        ensures
            final(self).wf(),
            final(self)@ == on_to(old(self)@, json::views(list@), next as int).state,
            actions_view(r@) == on_to(old(self)@, json::views(list@), next as int).actions,
    {
        if next < list.len() {
            self.phase = InitPhase::Taking { calls: list, next };
            no_actions()
        } else if self.turn + 1 < MAX_INIT_TURNS {
            self.turn = self.turn + 1;
            self.phase = InitPhase::Starting;
            no_actions()
        } else {
            self.end()
        }
    }

    /// Takes the next call, given how its arguments read and the last part of its path.
    pub fn take_call(&mut self, args: Result<Json, String>, file_name: Option<&str>) -> (r: Vec<
        InitAction,
    >)
        requires
            old(self).wf(),
            old(self).phase is Taking,
            old(self).step < usize::MAX,
            args matches Ok(a) ==> label_fits(
                call_of(old(self)@.phase->Taking_calls[old(self)@.phase->Taking_next]).name,
                a@,
            ),
        ensures
            final(self).wf(),
            ({
                let st = old(self)@;
                let m = taken(
                    st,
                    st.phase->Taking_calls,
                    st.phase->Taking_next,
                    calls::result_view(args),
                    match file_name {
                        Some(s) => Some(s@),
                        None => None,
                    },
                );
                &&& final(self)@ == m.state
                &&& actions_view(r@) == m.actions
            }),
    {
        let ghost st = self@;
        let ghost last = match file_name {
            Some(s) => Some(s@),
            None => None,
        };
        let mut phase = InitPhase::Over;
        std::mem::swap(&mut phase, &mut self.phase);
        if let InitPhase::Taking { calls: list, next } = phase {
            let ghost m = taken(st, json::views(list@), next as int, calls::result_view(args), last);
            let total = list.len();
            proof {
                assert(json::views(list@)[next as int] == list@[next as int]@);
                assert(next < total);
            }
            let c = read_call(&list[next]);
            if let Some(e) = check_call(c.name.as_str(), &args) {
                self.add_message(
                    messages::tool_message(
                        c.id.as_str(),
                        reply::tool_error("INVALID_TOOL_ARGUMENTS", e.as_str(), true).as_str(),
                    ),
                );
                return self.move_on(list, next + 1);
            }
            if let Ok(a) = args {
                self.step = self.step + 1;
                let message = progress_label(c.name.as_str(), &a, file_name);
                let mut actions = one_action(InitAction::Progress { step: self.step, message });
                if text::str_eq(c.name.as_str(), "submit") {
                    self.phase = InitPhase::Submitted {
                        summary: text::copy(text_or(&a, "summary", "Project analyzed")),
                    };
                    push_action(&mut actions, InitAction::LookForFile);
                } else {
                    push_action(
                        &mut actions,
                        InitAction::Execute { name: text::copy(c.name.as_str()), args: a },
                    );
                    self.phase = InitPhase::Running { calls: list, next };
                }
                proof {
                    assert(actions_view(actions@) =~= m.actions);
                }
                return actions;
            }
        }
        no_actions()
    }

    /// The path that the next call reads, if it reads one.
    pub fn next_path(&self) -> (r: Option<String>)
        requires
            self.wf(),
        ensures
            ({
                let path = match self@.phase {
                    InitPhaseV::Taking { calls, next } => {
                        let c = call_of(calls[next]);
                        match json::parsed(c.args) {
                            Ok(a) => if c.name == "read_file"@ {
                                Some(or_else(a.get_text("path"@), "a file"@))
                            } else {
                                None
                            },
                            Err(_) => None,
                        }
                    },
                    _ => None,
                };
                match r {
                    Some(p) => path == Some(p@),
                    None => path is None,
                }
            }),
    {
        if let InitPhase::Taking { calls: list, next } = &self.phase {
            proof {
                assert(json::views(list@)[*next as int] == list@[*next as int]@);
            }
            let c = read_call(&list[*next]);
            if !text::str_eq(c.name.as_str(), "read_file") {
                return None;
            }
            match json::parse(c.args.as_str()) {
                Ok(a) => Some(text::copy(text_or(&a, "path", "a file"))),
                Err(_) => None,
            }
        } else {
            None
        }
    }

    /// Reads the arguments of the next call and takes it, where its progress line can be written
    /// and the steps can be counted; nothing changes where they cannot.
    pub fn take_next(&mut self, file_name: Option<&str>) -> (r: Option<Vec<InitAction>>)
        requires
            old(self).wf(),
            old(self).phase is Taking,
        ensures
            final(self).wf(),
            ({
                let st = old(self)@;
                let list = st.phase->Taking_calls;
                let next = st.phase->Taking_next;
                let c = call_of(list[next]);
                let args = json::parsed(c.args);
                let m = taken(
                    st,
                    list,
                    next,
                    args,
                    match file_name {
                        Some(s) => Some(s@),
                        None => None,
                    },
                );
                let fits = st.step < usize::MAX && (args matches Ok(a) ==> label_fits(c.name, a));
                match r {
                    Some(v) => fits && final(self)@ == m.state && actions_view(v@) == m.actions,
                    None => !fits && final(self)@ == st,
                }
            }),
    {
        if self.step == usize::MAX {
            return None;
        }
        let args = if let InitPhase::Taking { calls: list, next } = &self.phase {
            proof {
                assert(json::views(list@)[*next as int] == list@[*next as int]@);
            }
            let c = read_call(&list[*next]);
            let args = json::parse(c.args.as_str());
            if let Ok(a) = &args {
                if !can_label(c.name.as_str(), a) {
                    return None;
                }
            }
            args
        } else {
            return None;
        };
        Some(self.take_call(args, file_name))
    }

    /// Takes the result of the call that was running.
    pub fn take_result(&mut self, result: &str) -> (r: Vec<InitAction>)
        requires
            old(self).wf(),
            old(self).phase is Running,
        ensures
            final(self).wf(),
            ({
                let st = old(self)@;
                let m = finished(st, st.phase->Running_calls, st.phase->Running_next, result@);
                &&& final(self)@ == m.state
                &&& actions_view(r@) == m.actions
            }),
    {
        let mut phase = InitPhase::Over;
        std::mem::swap(&mut phase, &mut self.phase);
        if let InitPhase::Running { calls: list, next } = phase {
            let total = list.len();
            proof {
                assert(json::views(list@)[next as int] == list@[next as int]@);
                assert(next < total);
            }
            let c = read_call(&list[next]);
            self.add_message(messages::tool_message(c.id.as_str(), result));
            self.move_on(list, next + 1)
        } else {
            no_actions()
        }
    }

    /// Ends the pass, now that it is known whether the file is there.
    pub fn finish(&mut self, exists: bool) -> (r: Vec<InitAction>)
        requires
            old(self).wf(),
            old(self).phase is Submitted || old(self).phase is Ending,
        ensures
            final(self).wf(),
            final(self)@ == told_of_file(old(self)@, exists).state,
            actions_view(r@) == told_of_file(old(self)@, exists).actions,
    {
        let ghost st = self@;
        let mut phase = InitPhase::Over;
        std::mem::swap(&mut phase, &mut self.phase);
        let mut actions = match phase {
            InitPhase::Submitted { summary } => one_action(
                InitAction::Done { success: exists, message: summary, path: true, timed: true },
            ),
            _ => one_action(
                InitAction::Done {
                    success: exists,
                    message: text::copy("Analysis complete"),
                    path: true,
                    timed: false,
                },
            ),
        };
        push_action(&mut actions, InitAction::Close);
        proof {
            assert(actions_view(actions@) =~= told_of_file(st, exists).actions);
        }
        actions
    }
}

// ---- laws --------------------------------------------------------------------------------------------------

/// Every call is answered: a call that cannot be made gets its error in the conversation, and one
/// that ran gets its result, each under the call's own id.
pub proof fn law_calls_are_answered(
    st: InitV,
    list: Seq<JsonV>,
    next: int,
    args: Result<JsonV, Seq<char>>,
    file_name: Option<Seq<char>>,
    result: Seq<char>,
)
    requires
        0 <= next < list.len(),
    ensures
        ({
            let m = taken(st, list, next, args, file_name).state;
            ||| m.phase is Submitted
            ||| m.phase == InitPhaseV::Running { calls: list, next }
            ||| exists|e: Seq<char>|
                m.conversation == st.conversation.push(
                    #[trigger] messages::tool_message_v(call_of(list[next]).id, e),
                )
        }),
        finished(st, list, next, result).state.conversation == st.conversation.push(
            messages::tool_message_v(call_of(list[next]).id, result),
        ),
{
}

/// A pass takes at most the turns that are allowed, and a tool runs only with arguments that its
/// schema accepts.
pub proof fn law_only_checked_calls_run(
    st: InitV,
    list: Seq<JsonV>,
    next: int,
    args: Result<JsonV, Seq<char>>,
    file_name: Option<Seq<char>>,
)
    requires
        init_ok(st),
    ensures
        taken(st, list, next, args, file_name).state.turn < MAX_INIT_TURNS,
        taken(st, list, next, args, file_name).state.phase is Running ==> (args matches Ok(a)
            && tools::check_args(call_of(list[next]).name, a) is None),
{
}

/// The progress line of a call names what it is about.
pub proof fn law_labels(name: Seq<char>, args: JsonV, file: Seq<char>, s: Seq<char>)
    ensures
        args.get_text("path"@) == Some(s) ==> label("list_files"@, args, None) == "Exploring "@ + s,
        args.get_text("path"@) is None ==> label("list_files"@, args, None) == "Exploring ."@,
        label("read_file"@, args, Some(file)) == "Reading "@ + file,
        args.get_text("path"@) == Some(s) ==> label("read_file"@, args, None) == "Reading "@ + s,
        args.get_text("query"@) == Some(s) ==> label("search"@, args, None) == "Searching for \""@
            + s + "\""@,
        label("write_file"@, args, None) == "Writing .clif/CLIF.md"@,
        args.get_text("command"@) == Some(s) && text::byte_len(s) <= 40 ==> label(
            "run_command"@,
            args,
            None,
        ) == "Running: "@ + s,
        args.get_text("command"@) == Some(s) ==> label("run_command"@, args, None) == "Running: "@
            + s.take(text::chars_within(s, 40) as int),
        label("submit"@, args, None) == "Finalizing context file..."@,
        label("find_file"@, args, None) == "find_file..."@,
{
    reveal_strlit("list_files");
    reveal_strlit("read_file");
    reveal_strlit("search");
    reveal_strlit("write_file");
    reveal_strlit("run_command");
    reveal_strlit("submit");
    reveal_strlit("find_file");
    assert("list_files"@.len() == 10
        && "read_file"@.len() == 9
        && "search"@.len() == 6
        && "write_file"@.len() == 10
        && "run_command"@.len() == 11
        && "submit"@.len() == 6
        && "find_file"@.len() == 9
        && "list_files"@[0] == 'l'
        && "write_file"@[0] == 'w'
        && "read_file"@[0] == 'r'
        && "find_file"@[0] == 'f'
        && "search"@[1] == 'e'
        && "submit"@[1] == 'u');
    reveal_strlit("Exploring ");
    reveal_strlit(".");
    reveal_strlit("Exploring .");
    reveal_strlit("...");
    reveal_strlit("find_file...");
    assert("Exploring "@ + "."@ =~= "Exploring ."@);
    assert("find_file"@ + "..."@ =~= "find_file..."@);
    if args.get_text("command"@) == Some(s) && text::byte_len(s) <= 40 {
        assert(s.take(s.len() as int) =~= s);
        text::lemma_chars_within(s, 40);
    }
}

/// The pass is told which project it is about.
pub proof fn law_prompt_names_the_project(workspace: Seq<char>)
    ensures
        exists|before: Seq<char>, after: Seq<char>|
            prompt(workspace) == #[trigger] (before + "'"@ + workspace + "'"@ + after),
{
    let a = "You are a senior engineer performing a codebase analysis for ClifPad. Your ONLY job is to analyze the project at '"@;
    let b = "' and write a concise, useful CLIF.md file that will help an AI coding agent understand this project quickly.\n\nUse list_files to explore the structure, read key files (README, package.json, Cargo.toml, pyproject.toml, go.mod, main entry points, config files), and search for patterns.\n\nThen write .clif/CLIF.md with exactly these sections:\n# Project Overview\n(1-2 sentences: what this project does)\n\n# Tech Stack\n(bullet list: languages, frameworks, key dependencies with versions)\n\n# Architecture\n(bullet list: key directories and what they do)\n\n# Key Files\n(bullet list: most important files to know about)\n\n# Build & Run\n(exact commands to install, dev, build, test)\n\n# Conventions\n(coding style, naming conventions, patterns used)\n\n# Important Notes\n(gotchas, environment requirements, things not to break)\n\nBe concise — target 300-500 words total. Focus on what an AI agent needs to understand before making changes. When done, call submit with a summary."@;
    reveal_strlit("You are a senior engineer performing a codebase analysis for ClifPad. Your ONLY job is to analyze the project at '");
    reveal_strlit("'");
    reveal_strlit("' and write a concise, useful CLIF.md file that will help an AI coding agent understand this project quickly.\n\nUse list_files to explore the structure, read key files (README, package.json, Cargo.toml, pyproject.toml, go.mod, main entry points, config files), and search for patterns.\n\nThen write .clif/CLIF.md with exactly these sections:\n# Project Overview\n(1-2 sentences: what this project does)\n\n# Tech Stack\n(bullet list: languages, frameworks, key dependencies with versions)\n\n# Architecture\n(bullet list: key directories and what they do)\n\n# Key Files\n(bullet list: most important files to know about)\n\n# Build & Run\n(exact commands to install, dev, build, test)\n\n# Conventions\n(coding style, naming conventions, patterns used)\n\n# Important Notes\n(gotchas, environment requirements, things not to break)\n\nBe concise — target 300-500 words total. Focus on what an AI agent needs to understand before making changes. When done, call submit with a summary.");
    assert(a.drop_last() + "'"@ =~= a);
    assert("'"@ + b.skip(1) =~= b);
    assert(prompt(workspace) =~= a.drop_last() + "'"@ + workspace + "'"@ + b.skip(1));
}

/// A reply is read off its first choice: its words, its calls in order and why it ended. The
/// conversation keeps it behind all messages: its calls where it has any, else its words.
pub proof fn law_replies_are_read(st: InitV, v: JsonV, choices: Seq<JsonV>, m: JsonV)
    requires
        v.get("choices"@) == Some(JsonV::Array(choices)),
        choices.len() > 0,
        choices[0].get("message"@) == Some(m),
    ensures
        ({
            let r = replied(st, InitReplyV::Body(v));
            let n = st.conversation.len() as int;
            let calls = m.get_items("tool_calls"@);
            let goes_on = calls is Some && calls->0.len() > 0 && choices[0].get_text(
                "finish_reason"@,
            ) == Some("tool_calls"@);
            &&& r.state.conversation.len() == n + 1
            &&& r.state.conversation.take(n) == st.conversation
            &&& r.state.conversation[n].get_text("role"@) == Some("assistant"@)
            &&& calls is Some && calls->0.len() > 0 ==> r.state.conversation[n].get_items(
                "tool_calls"@,
            ) == calls
            &&& (calls is None || calls->0.len() == 0) && m.get_text("content"@) is Some
                ==> r.state.conversation[n].get_text("content"@) == m.get_text("content"@)
            &&& goes_on ==> r.state.phase == (InitPhaseV::Taking { calls: calls->0, next: 0 })
                && r.actions.len() == 0
            &&& !goes_on ==> r.state.phase == InitPhaseV::Ending && r.actions == seq![
                InitActionV::LookForFile,
            ]
        }),
{
    reveal_strlit("role");
    reveal_strlit("content");
    reveal_strlit("tool_calls");
    assert("role"@.len() == 4
        && "content"@.len() == 7
        && "tool_calls"@.len() == 10);
    reveal_strlit("");
    assert(""@.len() == 0);
    let r = replied(st, InitReplyV::Body(v));
    assert(choice(v) == Some(choices[0]));
    assert(message_of(v) == Some(m));
    assert(r.state.conversation.take(st.conversation.len() as int) =~= st.conversation);
    messages::law_messages("assistant"@, content_of(v), content_of(v));
}

/// A request that fails ends the pass, and its error is told whole.
pub proof fn law_failures_are_told(st: InitV, e: Seq<char>)
    ensures
        replied(st, InitReplyV::Unsent(e)).actions == seq![
            InitActionV::Fail("Request failed: "@ + e),
        ],
        replied(st, InitReplyV::Refused(e)).actions == seq![InitActionV::Fail("API error: "@ + e)],
        replied(st, InitReplyV::Unreadable(e)).actions == seq![InitActionV::Fail(e)],
        replied(st, InitReplyV::Unsent(e)).state == (InitV { phase: InitPhaseV::Over, ..st }),
        replied(st, InitReplyV::Refused(e)).state == (InitV { phase: InitPhaseV::Over, ..st }),
        replied(st, InitReplyV::Unreadable(e)).state == (InitV { phase: InitPhaseV::Over, ..st }),
        begun(st, true).state == (InitV { phase: InitPhaseV::Over, ..st }),
        begun(st, true).actions == seq![
            InitActionV::Done { success: false, message: "Cancelled"@, path: false, timed: false },
        ],
        begun(st, false).state == (InitV { phase: InitPhaseV::Asking, ..st }),
        begun(st, false).actions == seq![InitActionV::Send],
{
}

/// A call whose arguments pass is run as it came, with one more step shown; a submission ends the
/// work with its summary instead. Once a call has its result, the calls go on in order, and behind
/// the last one the next turn begins, up to fifteen.
pub proof fn law_calls_go_on(
    st: InitV,
    list: Seq<JsonV>,
    next: int,
    f: JsonV,
    name: Seq<char>,
    a: JsonV,
    file_name: Option<Seq<char>>,
    result: Seq<char>,
)
    requires
        0 <= next < list.len(),
        list[next].get("function"@) == Some(f),
        f.get_text("name"@) == Some(name),
        tools::check_args(name, a) is None,
    ensures
        ({
            let m = taken(st, list, next, Ok(a), file_name);
            &&& m.state.conversation == st.conversation && m.state.turn == st.turn && m.state.step
                == st.step + 1
            &&& m.actions.len() == 2
            &&& m.actions[0] == (InitActionV::Progress {
                step: st.step + 1,
                message: label(name, a, file_name),
            })
            &&& name != "submit"@ ==> m.actions[1] == (InitActionV::Execute { name, args: a })
                && m.state.phase == (InitPhaseV::Running { calls: list, next })
            &&& name == "submit"@ ==> m.actions[1] == InitActionV::LookForFile
            &&& name == "submit"@ && a.get_text("summary"@) is Some ==> m.state.phase == (
            InitPhaseV::Submitted { summary: a.get_text("summary"@)->0 })
        }),
        ({
            let d = finished(st, list, next, result);
            &&& d.state.step == st.step
            &&& next + 1 < list.len() ==> d.state.phase == (InitPhaseV::Taking {
                calls: list,
                next: next + 1,
            }) && d.state.turn == st.turn && d.actions.len() == 0
            &&& next + 1 == list.len() && st.turn < 14 ==> d.state.phase == InitPhaseV::Starting
                && d.state.turn == st.turn + 1 && d.actions.len() == 0
            &&& next + 1 == list.len() && st.turn >= 14 ==> d.state.phase == InitPhaseV::Ending
                && d.actions == seq![InitActionV::LookForFile]
        }),
{
}

/// The outcome is told once, with whether the file is there, in the model's own words where it gave
/// any; then the session is closed.
pub proof fn law_outcome_is_told(st: InitV, found: bool, summary: Seq<char>)
    ensures
        told_of_file(st, found).state == (InitV { phase: InitPhaseV::Over, ..st }),
        st.phase == (InitPhaseV::Submitted { summary }) ==> told_of_file(st, found).actions == seq![
            InitActionV::Done { success: found, message: summary, path: true, timed: true },
            InitActionV::Close,
        ],
        st.phase == InitPhaseV::Ending ==> told_of_file(st, found).actions == seq![
            InitActionV::Done {
                success: found,
                message: "Analysis complete"@,
                path: true,
                timed: false,
            },
            InitActionV::Close,
        ],
{
}

/// A call is read member by member; one without arguments has none.
pub proof fn law_calls_are_read(c: JsonV, f: JsonV, e: Seq<char>, name: Seq<char>)
    requires
        c.get("function"@) == Some(f),
    ensures
        c.get_text("id"@) is Some ==> call_of(c).id == c.get_text("id"@)->0,
        f.get_text("name"@) is Some ==> call_of(c).name == f.get_text("name"@)->0,
        f.get_text("arguments"@) is Some ==> call_of(c).args == f.get_text("arguments"@)->0,
        f.get_text("arguments"@) is None ==> call_of(c).args == "{}"@,
        call_failure(name, Err(e)) == Some(
            "Failed to parse tool arguments for '"@ + name + "': "@ + e,
        ),
{
}

/// A progress line can be written of every call but a command that would be cut within a character.
pub proof fn law_what_can_be_labelled(name: Seq<char>, args: JsonV, a: Seq<char>, b: Seq<char>)
    ensures
        name != "run_command"@ ==> label_fits(name, args),
        args.get_text("command"@) == Some(a) && text::byte_len(a) <= 40 ==> label_fits(name, args),
        args.get_text("command"@) == Some(a + b) && text::byte_len(a) == 40 ==> label_fits(
            name,
            args,
        ),
        args.get_text("command"@) is None ==> label_fits(name, args),
{
    text::law_boundaries(a, b, 0);
    reveal_strlit("...");
    if args.get_text("command"@) is None {
        let e = Seq::<char>::empty();
        assert("..."@ =~= e.push('.').push('.').push('.'));
        text::lemma_byte_len_push(e, '.');
        text::lemma_byte_len_push(e.push('.'), '.');
        text::lemma_byte_len_push(e.push('.').push('.'), '.');
    }
}

/// A call that cannot be made is answered with why, under its own id, and passed over: nothing is
/// shown or run, and the calls go on.
pub proof fn law_refused_calls_are_answered(
    st: InitV,
    list: Seq<JsonV>,
    next: int,
    args: Result<JsonV, Seq<char>>,
    file_name: Option<Seq<char>>,
    e: Seq<char>,
)
    requires
        0 <= next < list.len(),
        call_failure(call_of(list[next]).name, args) == Some(e),
    ensures
        ({
            let m = taken(st, list, next, args, file_name);
            let n = st.conversation.len() as int;
            &&& m.state.conversation.len() == n + 1
            &&& m.state.conversation.take(n) == st.conversation
            &&& m.state.conversation[n].get_text("role"@) == Some("tool"@)
            &&& m.state.conversation[n].get_text("tool_call_id"@) == Some(call_of(list[next]).id)
            &&& m.state.conversation[n].get_text("content"@) == Some(
                reply::error_reply("INVALID_TOOL_ARGUMENTS"@, e, true),
            )
            &&& m.state.step == st.step
            &&& next + 1 < list.len() ==> m.state.phase == (InitPhaseV::Taking {
                calls: list,
                next: next + 1,
            }) && m.actions.len() == 0
        }),
{
    let m = taken(st, list, next, args, file_name);
    messages::law_messages(
        "tool"@,
        call_of(list[next]).id,
        reply::error_reply("INVALID_TOOL_ARGUMENTS"@, e, true),
    );
    assert(m.state.conversation.take(st.conversation.len() as int) =~= st.conversation);
}

} // verus!
