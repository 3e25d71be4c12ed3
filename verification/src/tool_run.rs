//! Running a tool call: what it asks for, step by step, and what it answers.
//!
//! A call is planned from its arguments. The outside work that it needs (resolving a path,
//! reading, writing, listing, searching, running a command) is named by a `Step`; what came
//! of it is handed to the function for the next step.
use vstd::prelude::*;

use crate::decimal;
use crate::json;
use crate::json::Json;
use crate::json::JsonV;
use crate::mode;
use crate::mode::AgentMode;
use crate::order;
use crate::reply;
use crate::session;
use crate::session::AgentState;
use crate::session::PathParts;
use crate::session::TodoItem;
use crate::session::TodoV;
use crate::text;
use crate::todos;
use crate::tool_files;
use crate::tool_files::EditPlan;
use crate::workspace;

verus! {

// ---- planning -----------------------------------------------------------------------------------

/// A call with its arguments.
pub enum ToolCall {
    Read { path: String, offset: Option<usize>, limit: Option<usize> },
    Write { path: String, content: String },
    Edit { path: String, old_string: String, new_string: String, replace_all: bool },
    List { path: String },
    Search { query: String, path: String },
    Run { command: String, dir: String },
    FindFile { name: String, dir: String },
    FindSymbol { name: String, most: u32 },
    TodoWrite { merge: bool, items: Vec<TodoItem> },
    TodoRead,
    Submit { summary: String },
}

pub enum CallV {
    Read { path: Seq<char>, offset: Option<usize>, limit: Option<usize> },
    Write { path: Seq<char>, content: Seq<char> },
    Edit { path: Seq<char>, old_string: Seq<char>, new_string: Seq<char>, replace_all: bool },
    List { path: Seq<char> },
    Search { query: Seq<char>, path: Seq<char> },
    Run { command: Seq<char>, dir: Seq<char> },
    FindFile { name: Seq<char>, dir: Seq<char> },
    FindSymbol { name: Seq<char>, most: u32 },
    TodoWrite { merge: bool, items: Seq<TodoV> },
    TodoRead,
    Submit { summary: Seq<char> },
}

impl View for ToolCall {
    type V = CallV;

    open spec fn view(&self) -> CallV {
        match *self {
            ToolCall::Read { path, offset, limit } => CallV::Read { path: path@, offset, limit },
            ToolCall::Write { path, content } => CallV::Write { path: path@, content: content@ },
            ToolCall::Edit { path, old_string, new_string, replace_all } => CallV::Edit {
                path: path@,
                old_string: old_string@,
                new_string: new_string@,
                replace_all,
            },
            ToolCall::List { path } => CallV::List { path: path@ },
            ToolCall::Search { query, path } => CallV::Search { query: query@, path: path@ },
            ToolCall::Run { command, dir } => CallV::Run { command: command@, dir: dir@ },
            ToolCall::FindFile { name, dir } => CallV::FindFile { name: name@, dir: dir@ },
            ToolCall::FindSymbol { name, most } => CallV::FindSymbol { name: name@, most },
            ToolCall::TodoWrite { merge, items } => CallV::TodoWrite {
                merge,
                items: session::todo_views(items@),
            },
            ToolCall::TodoRead => CallV::TodoRead,
            ToolCall::Submit { summary } => CallV::Submit { summary: summary@ },
        }
    }
}

pub open spec fn text_or(v: Option<Seq<char>>, other: Seq<char>) -> Seq<char> {
    match v {
        Some(s) => s,
        None => other,
    }
}

pub open spec fn to_size(n: Option<u64>) -> Option<usize> {
    match n {
        Some(v) => Some(v as usize),
        None => None,
    }
}

pub open spec fn flag(b: Option<bool>) -> bool {
    b == Some(true)
}

/// The refusal of a tool that changes something, outside of agent mode.
pub open spec fn mode_refusal(tool: Seq<char>, m: AgentMode, what: Seq<char>) -> Seq<char> {
    reply::error_reply(
        "MODE_RESTRICTED"@,
        tool + " is disabled in "@ + mode::mode_name(m) + " mode. Switch to agent mode to "@ + what
            + "."@,
        false,
    )
}

pub open spec fn symbol_limit(n: Option<u64>) -> u32 {
    match n {
        Some(v) => if v < 50 {
            v as u32
        } else {
            50
        },
        None => 10,
    }
}

/// What a call comes to: its plan, or the answer where it is refused at once.
pub open spec fn planned(
    name: Seq<char>,
    args: JsonV,
    workspace: Seq<char>,
    has_session: bool,
    m: AgentMode,
) -> Result<CallV, Seq<char>> {
    let none = Seq::<char>::empty();
    if name == "read_file"@ {
        Ok(
            CallV::Read {
                path: text_or(args.get_text("path"@), none),
                offset: to_size(args.get_uint("offset"@)),
                limit: to_size(args.get_uint("limit"@)),
            },
        )
    } else if name == "write_file"@ {
        if m != AgentMode::Agent {
            Err(mode_refusal(name, m, "edit files"@))
        } else {
            Ok(
                CallV::Write {
                    path: text_or(args.get_text("path"@), none),
                    content: text_or(args.get_text("content"@), none),
                },
            )
        }
    } else if name == "edit_file"@ {
        if m != AgentMode::Agent {
            Err(mode_refusal(name, m, "edit files"@))
        } else {
            Ok(
                CallV::Edit {
                    path: text_or(args.get_text("path"@), none),
                    old_string: text_or(args.get_text("old_string"@), none),
                    new_string: text_or(args.get_text("new_string"@), none),
                    replace_all: flag(args.get_bool("replace_all"@)),
                },
            )
        }
    } else if name == "list_files"@ {
        Ok(CallV::List { path: text_or(args.get_text("path"@), none) })
    } else if name == "search"@ {
        Ok(
            CallV::Search {
                query: text_or(args.get_text("query"@), none),
                path: text_or(args.get_text("path"@), none),
            },
        )
    } else if name == "run_command"@ {
        if m != AgentMode::Agent {
            Err(mode_refusal(name, m, "run commands"@))
        } else {
            Ok(
                CallV::Run {
                    command: text_or(args.get_text("command"@), none),
                    dir: text_or(args.get_text("working_dir"@), workspace),
                },
            )
        }
    } else if name == "find_file"@ {
        Ok(
            CallV::FindFile {
                name: text_or(args.get_text("name"@), none),
                dir: text_or(args.get_text("dir"@), workspace),
            },
        )
    } else if name == "find_symbol"@ {
        let symbol = text::trim(text_or(args.get_text("name"@), none));
        if symbol.len() == 0 {
            Err(
                reply::error_reply(
                    "INVALID_ARGS"@,
                    "find_symbol requires a non-empty `name`."@,
                    false,
                ),
            )
        } else {
            Ok(CallV::FindSymbol { name: symbol, most: symbol_limit(args.get_uint("limit"@)) })
        }
    } else if name == "todo_write"@ {
        if !has_session {
            Err(
                reply::error_reply(
                    "SESSION_REQUIRED"@,
                    "todo_write requires an active agent session."@,
                    false,
                ),
            )
        } else {
            match args.get_items("todos"@) {
                None => Err(
                    reply::error_reply(
                        "INVALID_ARGS"@,
                        "Field 'todos' must be an array."@,
                        false,
                    ),
                ),
                Some(items) => if todos::all_valid(todos::todos_in(items)) {
                    Ok(
                        CallV::TodoWrite {
                            merge: flag(args.get_bool("merge"@)),
                            items: todos::todos_in(items),
                        },
                    )
                } else {
                    Err(todos::invalid_item_reply())
                },
            }
        }
    } else if name == "todo_read"@ {
        if has_session {
            Ok(CallV::TodoRead)
        } else {
            Err(
                reply::error_reply(
                    "SESSION_REQUIRED"@,
                    "todo_read requires an active agent session."@,
                    false,
                ),
            )
        }
    } else if name == "submit"@ {
        Ok(CallV::Submit { summary: text_or(args.get_text("summary"@), "Task complete"@) })
    } else {
        Err(reply::error_reply("UNKNOWN_TOOL"@, "Unknown tool: "@ + name, false))
    }
}

fn text_arg(args: &Json, k: &str, other: &str) -> (r: String)
    ensures
        r@ == text_or(args@.get_text(k@), other@),
{
    match args.get_str(k) {
        Some(s) => text::copy(s),
        None => text::copy(other),
    }
}

fn plain_arg(args: &Json, k: &str) -> (r: String)
    ensures
        r@ == text_or(args@.get_text(k@), Seq::<char>::empty()),
{
    match args.get_str(k) {
        Some(s) => text::copy(s),
        None => {
            let s = String::new();
            proof {
                assert(s@ =~= Seq::<char>::empty());
            }
            s
        },
    }
}

fn size_arg(args: &Json, k: &str) -> (r: Option<usize>)
    ensures
        r == to_size(args@.get_uint(k@)),
{
    match args.get_u64(k) {
        Some(v) => Some(v as usize),
        None => None,
    }
}

fn flag_arg(args: &Json, k: &str) -> (r: bool)
    ensures
        r == flag(args@.get_bool(k@)),
{
    match args.get_bool(k) {
        Some(b) => b,
        None => false,
    }
}

fn refuse_mode(tool: &str, m: AgentMode, what: &str) -> (r: String)
    ensures
        r@ == mode_refusal(tool@, m, what@),
{
    let mut s = text::copy(tool);
    s.append(" is disabled in ");
    s.append(m.as_str());
    s.append(" mode. Switch to agent mode to ");
    s.append(what);
    s.append(".");
    reply::tool_error("MODE_RESTRICTED", s.as_str(), false)
}

fn plan_todos(args: &Json, has_session: bool) -> (r: Result<ToolCall, String>)
    ensures
        ({
            let p = planned("todo_write"@, args@, Seq::empty(), has_session, AgentMode::Agent);
            match r {
                Ok(c) => p == Ok::<CallV, Seq<char>>(c@),
                Err(e) => p == Err::<CallV, Seq<char>>(e@),
            }
        }),
{
    proof {
        lemma_names_differ();
    }
    if !has_session {
        return Err(
            reply::tool_error(
                "SESSION_REQUIRED",
                "todo_write requires an active agent session.",
                false,
            ),
        );
    }
    match args.get_array("todos") {
        None => Err(reply::tool_error("INVALID_ARGS", "Field 'todos' must be an array.", false)),
        Some(items) => match todos::parse_todos(items) {
            Some(v) => Ok(ToolCall::TodoWrite { merge: flag_arg(args, "merge"), items: v }),
            None => Err(
                reply::tool_error(
                    "INVALID_TODO_ITEM",
                    "Each todo item must include non-empty id/content and status in: pending, in_progress, completed, cancelled.",
                    false,
                ),
            ),
        },
    }
}

/// The tools before `todo_write` have other names.
proof fn lemma_names_differ()
    ensures
        "todo_write"@ != "read_file"@,
        "todo_write"@ != "write_file"@,
        "todo_write"@ != "edit_file"@,
        "todo_write"@ != "list_files"@,
        "todo_write"@ != "search"@,
        "todo_write"@ != "run_command"@,
        "todo_write"@ != "find_file"@,
        "todo_write"@ != "find_symbol"@,
{
    reveal_strlit("todo_write");
    reveal_strlit("read_file");
    reveal_strlit("write_file");
    reveal_strlit("edit_file");
    reveal_strlit("list_files");
    reveal_strlit("search");
    reveal_strlit("run_command");
    reveal_strlit("find_file");
    reveal_strlit("find_symbol");
    assert("todo_write"@[0] != "write_file"@[0]);
    assert("todo_write"@[0] != "list_files"@[0]);
}

/// Plans a call, or refuses it at once.
pub fn plan_tool(
    name: &str,
    args: &Json,
    workspace_dir: &str,
    has_session: bool,
    m: AgentMode,
) -> (r: Result<ToolCall, String>)
    ensures
        ({
            let p = planned(name@, args@, workspace_dir@, has_session, m);
            match r {
                Ok(c) => p == Ok::<CallV, Seq<char>>(c@),
                Err(e) => p == Err::<CallV, Seq<char>>(e@),
            }
        }),
{
    if text::str_eq(name, "read_file") {
        Ok(
            ToolCall::Read {
                path: plain_arg(args, "path"),
                offset: size_arg(args, "offset"),
                limit: size_arg(args, "limit"),
            },
        )
    } else if text::str_eq(name, "write_file") {
        if m != AgentMode::Agent {
            return Err(refuse_mode(name, m, "edit files"));
        }
        Ok(
            ToolCall::Write { path: plain_arg(args, "path"), content: plain_arg(args, "content") },
        )
    } else if text::str_eq(name, "edit_file") {
        if m != AgentMode::Agent {
            return Err(refuse_mode(name, m, "edit files"));
        }
        Ok(
            ToolCall::Edit {
                path: plain_arg(args, "path"),
                old_string: plain_arg(args, "old_string"),
                new_string: plain_arg(args, "new_string"),
                replace_all: flag_arg(args, "replace_all"),
            },
        )
    } else if text::str_eq(name, "list_files") {
        Ok(ToolCall::List { path: plain_arg(args, "path") })
    } else if text::str_eq(name, "search") {
        Ok(ToolCall::Search { query: plain_arg(args, "query"), path: plain_arg(args, "path") })
    } else if text::str_eq(name, "run_command") {
        if m != AgentMode::Agent {
            return Err(refuse_mode(name, m, "run commands"));
        }
        Ok(
            ToolCall::Run {
                command: plain_arg(args, "command"),
                dir: text_arg(args, "working_dir", workspace_dir),
            },
        )
    } else if text::str_eq(name, "find_file") {
        Ok(
            ToolCall::FindFile {
                name: plain_arg(args, "name"),
                dir: text_arg(args, "dir", workspace_dir),
            },
        )
    } else if text::str_eq(name, "find_symbol") {
        let symbol = text::str_trim(plain_arg(args, "name").as_str());
        if symbol.as_str().is_empty() {
            return Err(
                reply::tool_error(
                    "INVALID_ARGS",
                    "find_symbol requires a non-empty `name`.",
                    false,
                ),
            );
        }
        let most: u32 = match args.get_u64("limit") {
            Some(v) => if v < 50 {
                v as u32
            } else {
                50
            },
            None => 10,
        };
        Ok(ToolCall::FindSymbol { name: symbol, most })
    } else if text::str_eq(name, "todo_write") {
        proof {
            lemma_names_differ();
        }
        plan_todos(args, has_session)
    } else if text::str_eq(name, "todo_read") {
        if has_session {
            Ok(ToolCall::TodoRead)
        } else {
            Err(
                reply::tool_error(
                    "SESSION_REQUIRED",
                    "todo_read requires an active agent session.",
                    false,
                ),
            )
        }
    } else if text::str_eq(name, "submit") {
        Ok(ToolCall::Submit { summary: text_arg(args, "summary", "Task complete") })
    } else {
        Err(
            reply::tool_error("UNKNOWN_TOOL", text::cat("Unknown tool: ", name).as_str(), false),
        )
    }
}

// ---- steps ------------------------------------------------------------------------------------------

/// What is to be done next for a call.
pub enum Step {
    /// The call is answered.
    Reply(String),
    /// Resolve a path and see that it lies inside the workspace.
    Resolve { path: String, for_write: bool },
    /// Make the folder of the file, then see whether the file exists.
    PrepareAndProbe,
    /// See whether the file exists.
    Probe,
    /// Read the file as text.
    ReadText,
    /// Write the file; on success, answer with the reply.
    WriteText { content: String, reply: String },
    /// List the folder.
    List,
    /// Search the files of the folder.
    Search,
    /// Run the command in the folder.
    Run,
    /// Find files by name below the folder.
    Find,
    /// Look the symbol up in the index.
    Symbols,
}

pub enum StepV {
    Reply(Seq<char>),
    Resolve { path: Seq<char>, for_write: bool },
    PrepareAndProbe,
    Probe,
    ReadText,
    WriteText { content: Seq<char>, reply: Seq<char> },
    List,
    Search,
    Run,
    Find,
    Symbols,
}

impl View for Step {
    type V = StepV;

    open spec fn view(&self) -> StepV {
        match *self {
            Step::Reply(s) => StepV::Reply(s@),
            Step::Resolve { path, for_write } => StepV::Resolve { path: path@, for_write },
            Step::PrepareAndProbe => StepV::PrepareAndProbe,
            Step::Probe => StepV::Probe,
            Step::ReadText => StepV::ReadText,
            Step::WriteText { content, reply } => StepV::WriteText {
                content: content@,
                reply: reply@,
            },
            Step::List => StepV::List,
            Step::Search => StepV::Search,
            Step::Run => StepV::Run,
            Step::Find => StepV::Find,
            Step::Symbols => StepV::Symbols,
        }
    }
}

/// The first step of a call that works on files.
pub open spec fn first_step(c: CallV) -> StepV {
    match c {
        CallV::Read { path, .. } => StepV::Resolve { path, for_write: false },
        CallV::Write { path, .. } => StepV::Resolve { path, for_write: true },
        CallV::Edit { path, .. } => StepV::Resolve { path, for_write: true },
        CallV::List { path } => StepV::Resolve { path, for_write: false },
        CallV::Search { path, .. } => StepV::Resolve { path, for_write: false },
        CallV::Run { dir, .. } => StepV::Resolve { path: dir, for_write: false },
        CallV::FindFile { dir, .. } => StepV::Resolve { path: dir, for_write: false },
        CallV::FindSymbol { .. } => StepV::Symbols,
        CallV::Submit { summary } => StepV::Reply(
            reply::success_reply(JsonV::Text("Task complete: "@ + summary)),
        ),
        CallV::TodoWrite { .. } => StepV::Reply(Seq::empty()),
        CallV::TodoRead => StepV::Reply(Seq::empty()),
    }
}

fn resolve(path: &String, for_write: bool) -> (r: Step)
    ensures
        r@ == (StepV::Resolve { path: path@, for_write }),
{
    Step::Resolve { path: text::copy(path.as_str()), for_write }
}

/// The todo list that a call leaves.
pub open spec fn todos_after(c: CallV, list: Seq<TodoV>) -> Seq<TodoV> {
    match c {
        CallV::TodoWrite { merge, items } => if merge {
            todos::merge_all(list, items)
        } else {
            items
        },
        _ => list,
    }
}

/// Begins a planned call. The todo list is written and read right here.
pub fn begin_tool(state: &mut AgentState, session_id: Option<&str>, call: &ToolCall) -> (r: Step)
    requires
        call@ is TodoWrite || call@ is TodoRead ==> session_id is Some,
    ensures
        final(state).sessions == old(state).sessions,
        final(state).convs == old(state).convs,
        final(state).reads == old(state).reads,
        !(call@ is TodoWrite) ==> final(state).todos == old(state).todos,
        !(call@ is TodoWrite || call@ is TodoRead) ==> r@ == first_step(call@),
        session_id matches Some(s) ==> ({
            let conv = session::conv_of(*old(state), s@);
            let list = todos_after(call@, session::todos_of(*old(state), conv));
            &&& call@ matches CallV::TodoWrite { merge, items } ==> r@ == StepV::Reply(
                todos::written_reply(list, merge),
            ) && session::todos_of(*final(state), conv) == list && final(state).todos@.dom() == old(
                state,
            ).todos@.dom().insert(conv) && (forall|c: Seq<char>|
                c != conv && #[trigger] old(state).todos@.contains_key(c) ==> final(state).todos@[c]
                    == old(state).todos@[c])
            &&& call@ is TodoRead ==> r@ == StepV::Reply(todos::read_reply(list))
        }),
{
    match call {
        ToolCall::Read { path, .. } => resolve(path, false),
        ToolCall::Write { path, .. } => resolve(path, true),
        ToolCall::Edit { path, .. } => resolve(path, true),
        ToolCall::List { path } => resolve(path, false),
        ToolCall::Search { path, .. } => resolve(path, false),
        ToolCall::Run { dir, .. } => resolve(dir, false),
        ToolCall::FindFile { dir, .. } => resolve(dir, false),
        ToolCall::FindSymbol { .. } => Step::Symbols,
        ToolCall::Submit { summary } => Step::Reply(
            reply::tool_text(text::cat("Task complete: ", summary.as_str()).as_str()),
        ),
        ToolCall::TodoWrite { merge, items } => {
            let mut list: Vec<TodoItem> = Vec::new();
            let mut i: usize = 0;
            while i < items.len()
                invariant
                    i == list@.len(),
                    i <= items@.len(),
                    forall|j: int| 0 <= j < i ==> (#[trigger] list@[j])@ == items@[j]@,
                decreases items.len() - i,
            {
                list.push(items[i].copy());
                i = i + 1;
            }
            proof {
                assert(session::todo_views(list@) =~= session::todo_views(items@));
            }
            Step::Reply(todos::todo_write(state, session_id, *merge, list))
        },
        ToolCall::TodoRead => Step::Reply(todos::todo_read(state, session_id)),
    }
}

/// The answer to a path that could not be resolved or lies outside the workspace.
pub fn path_refused(error: &str) -> (r: String)
    ensures
        r@ == reply::error_reply("PATH_OUTSIDE_WORKSPACE"@, error@, false),
{
    reply::tool_error("PATH_OUTSIDE_WORKSPACE", error, false)
}

/// What follows once the path is known to be inside the workspace.
pub open spec fn step_inside(c: CallV) -> StepV {
    match c {
        CallV::Read { .. } => StepV::ReadText,
        CallV::Write { .. } => StepV::PrepareAndProbe,
        CallV::Edit { .. } => StepV::Probe,
        CallV::List { .. } => StepV::List,
        CallV::Search { .. } => StepV::Search,
        CallV::Run { .. } => StepV::Run,
        CallV::FindFile { .. } => StepV::Find,
        _ => StepV::Symbols,
    }
}

pub fn after_resolve(call: &ToolCall) -> (r: Step)
    ensures
        r@ == step_inside(call@),
{
    match call {
        ToolCall::Read { .. } => Step::ReadText,
        ToolCall::Write { .. } => Step::PrepareAndProbe,
        ToolCall::Edit { .. } => Step::Probe,
        ToolCall::List { .. } => Step::List,
        ToolCall::Search { .. } => Step::Search,
        ToolCall::Run { .. } => Step::Run,
        ToolCall::FindFile { .. } => Step::Find,
        _ => Step::Symbols,
    }
}

pub open spec fn read_required(path: Seq<char>, tool: Seq<char>) -> Seq<char> {
    reply::error_reply(
        "READ_REQUIRED"@,
        "Read '"@ + path + "' before modifying it with "@ + tool + "."@,
        true,
    )
}

/// What follows once it is known whether the file exists, and whether the conversation has
/// read it: an existing file must have been read before it is changed.
pub open spec fn step_probed(c: CallV, existed: bool, was_read: bool) -> StepV {
    match c {
        CallV::Write { path, content } => if existed && !was_read {
            StepV::Reply(read_required(path, "write_file"@))
        } else if existed {
            StepV::ReadText
        } else {
            StepV::WriteText { content, reply: tool_files::write_reply(path, content, false, 0) }
        },
        CallV::Edit { path, .. } => if existed && !was_read {
            StepV::Reply(read_required(path, "edit_file"@))
        } else {
            StepV::ReadText
        },
        _ => StepV::ReadText,
    }
}

fn refuse_unread(path: &str, tool: &str) -> (r: String)
    ensures
        r@ == read_required(path@, tool@),
{
    let mut s = text::copy("Read '");
    s.append(path);
    s.append("' before modifying it with ");
    s.append(tool);
    s.append(".");
    reply::tool_error("READ_REQUIRED", s.as_str(), true)
}

pub fn after_probe(
    state: &AgentState,
    session_id: Option<&str>,
    call: &ToolCall,
    path: &PathParts,
    existed: bool,
) -> (r: Step)
    ensures
        r@ == step_probed(
            call@,
            existed,
            match session_id {
                Some(s) => session::reads_of(*state, session::conv_of(*state, s@)).contains(path@),
                None => true,
            },
        ),
{
    let was_read = state.has_read_file(session_id, path);
    match call {
        ToolCall::Write { path, content } => {
            if existed && !was_read {
                Step::Reply(refuse_unread(path.as_str(), "write_file"))
            } else if existed {
                Step::ReadText
            } else {
                Step::WriteText {
                    content: text::copy(content.as_str()),
                    reply: tool_files::report_write(path.as_str(), content.as_str(), false, 0),
                }
            }
        },
        ToolCall::Edit { path, .. } => {
            if existed && !was_read {
                Step::Reply(refuse_unread(path.as_str(), "edit_file"))
            } else {
                Step::ReadText
            }
        },
        _ => Step::ReadText,
    }
}

pub open spec fn read_failed(error: Seq<char>) -> Seq<char> {
    reply::error_reply("READ_FAILED"@, "Error reading file: "@ + error, true)
}

pub open spec fn opt_view(r: Result<&str, &str>) -> Result<Seq<char>, Seq<char>> {
    match r {
        Ok(s) => Ok(s@),
        Err(e) => Err(e@),
    }
}

/// What follows once the file was read, or could not be.
pub open spec fn step_read(c: CallV, content: Result<Seq<char>, Seq<char>>) -> StepV {
    match c {
        CallV::Read { offset, limit, .. } => match content {
            Ok(s) => StepV::Reply(
                reply::success_reply(JsonV::Text(tool_files::read_value(s, offset, limit))),
            ),
            Err(e) => StepV::Reply(read_failed(e)),
        },
        CallV::Write { path, content: new } => StepV::WriteText {
            content: new,
            reply: tool_files::write_reply(
                path,
                new,
                true,
                match content {
                    Ok(s) => text::lines(s).len(),
                    Err(_) => 0,
                },
            ),
        },
        CallV::Edit { path, old_string, new_string, replace_all } => match content {
            Ok(s) => match tool_files::edit_refusal(path, s, old_string, replace_all) {
                Some(answer) => StepV::Reply(answer),
                None => {
                    let t = tool_files::edit_target(s, old_string)->Some_0;
                    StepV::WriteText {
                        content: tool_files::edited(s, t, new_string, replace_all),
                        reply: tool_files::edit_reply(
                            path,
                            s,
                            old_string,
                            new_string,
                            replace_all,
                            t,
                        ),
                    }
                },
            },
            Err(e) => StepV::Reply(read_failed(e)),
        },
        _ => StepV::Reply(Seq::empty()),
    }
}

/// The call is waiting for the text of a file that it can show.
pub open spec fn can_take(c: CallV, content: Result<Seq<char>, Seq<char>>) -> bool {
    &&& c is Read || c is Write || c is Edit
    &&& c matches CallV::Read { offset, limit, .. } ==> (content matches Ok(s)
        ==> tool_files::can_show(s, offset, limit))
}

/// Goes on with the text of the file. A file that was read is remembered.
pub fn after_read(
    state: &mut AgentState,
    session_id: Option<&str>,
    call: &ToolCall,
    path: &PathParts,
    content: Result<&str, &str>,
) -> (r: Step)
    requires
        can_take(call@, opt_view(content)),
    ensures
        r@ == step_read(call@, opt_view(content)),
        final(state).sessions == old(state).sessions,
        final(state).convs == old(state).convs,
        final(state).todos == old(state).todos,
        !(call@ is Read && content is Ok && session_id is Some) ==> final(state).reads == old(
            state,
        ).reads,
        call@ is Read && content is Ok ==> (session_id matches Some(s) ==> session::read_noted(
            *old(state),
            session::conv_of(*old(state), s@),
            path@,
            *final(state),
        )),
{
    match call {
        ToolCall::Read { offset, limit, .. } => match content {
            Ok(s) => {
                let value = tool_files::read_window(s, *offset, *limit);
                state.track_file_read(session_id, path);
                Step::Reply(reply::tool_text(value.as_str()))
            },
            Err(e) => Step::Reply(
                reply::tool_error(
                    "READ_FAILED",
                    text::cat("Error reading file: ", e).as_str(),
                    true,
                ),
            ),
        },
        ToolCall::Write { path: shown, content: new } => {
            let old_lines: usize = match content {
                Ok(s) => tool_files::count_lines(s),
                Err(_) => 0,
            };
            Step::WriteText {
                content: text::copy(new.as_str()),
                reply: tool_files::report_write(shown.as_str(), new.as_str(), true, old_lines),
            }
        },
        ToolCall::Edit { path: shown, old_string, new_string, replace_all } => match content {
            Ok(s) => match tool_files::plan_edit(
                shown.as_str(),
                s,
                old_string.as_str(),
                new_string.as_str(),
                *replace_all,
            ) {
                EditPlan::Refused(answer) => Step::Reply(answer),
                EditPlan::Write { content: after, reply: answer } => Step::WriteText {
                    content: after,
                    reply: answer,
                },
            },
            Err(e) => Step::Reply(
                reply::tool_error(
                    "READ_FAILED",
                    text::cat("Error reading file: ", e).as_str(),
                    true,
                ),
            ),
        },
        _ => Step::Reply(String::new()),
    }
}

/// The answer once the file was written, or could not be.
pub fn after_write(prepared: &str, written: Result<(), &str>) -> (r: String)
    ensures
        r@ == (match written {
            Ok(_) => prepared@,
            Err(e) => reply::error_reply(
                "WRITE_FAILED"@,
                "Error writing file: "@ + e@,
                true,
            ),
        }),
{
    match written {
        Ok(_) => text::copy(prepared),
        Err(e) => reply::tool_error(
            "WRITE_FAILED",
            text::cat("Error writing file: ", e).as_str(),
            true,
        ),
    }
}

// ---- listing, searching, running ----------------------------------------------------------------------

/// One entry of a folder.
pub struct DirEntry {
    pub name: String,
    pub is_dir: bool,
}

/// The entry is not listed.
pub open spec fn hidden_entry(name: Seq<char>) -> bool {
    text::starts_with(name, "."@) || name == "node_modules"@ || name == "target"@
}

pub open spec fn listed(entries: Seq<DirEntry>) -> Seq<Seq<char>>
    decreases entries.len(),
{
    if entries.len() == 0 {
        seq![]
    } else {
        let e = entries.last();
        let before = listed(entries.drop_last());
        if hidden_entry(e.name@) {
            before
        } else if e.is_dir {
            before.push(e.name@ + "/"@)
        } else {
            before.push(e.name@)
        }
    }
}

/// The answer to listing a folder: its entries in order, folders marked, hidden ones left out.
pub fn after_list(entries: Result<&Vec<DirEntry>, &str>) -> (r: String)
    ensures
        r@ == (match entries {
            Ok(v) => reply::success_reply(
                JsonV::Text(text::join(order::sorted(listed(v@)), "\n"@)),
            ),
            Err(e) => reply::error_reply(
                "LIST_FAILED"@,
                "Error listing directory: "@ + e@,
                true,
            ),
        }),
{
    let v = match entries {
        Ok(v) => v,
        Err(e) => {
            return reply::tool_error(
                "LIST_FAILED",
                text::cat("Error listing directory: ", e).as_str(),
                true,
            );
        },
    };
    let mut items: Vec<String> = Vec::new();
    let mut i: usize = 0;
    proof {
        assert(v@.take(0) =~= Seq::<DirEntry>::empty());
        assert(text::texts(items@) =~= Seq::<Seq<char>>::empty());
    }
    while i < v.len()
        invariant
            i <= v@.len(),
            text::texts(items@) == listed(v@.take(i as int)),
        decreases v.len() - i,
    {
        proof {
            assert(v@.take(i as int + 1).drop_last() =~= v@.take(i as int));
        }
        let ghost before = items@;
        let name = v[i].name.as_str();
        if !(text::str_starts_with(name, ".") || text::str_eq(name, "node_modules")
            || text::str_eq(name, "target")) {
            let item = if v[i].is_dir {
                text::cat(name, "/")
            } else {
                text::copy(name)
            };
            items.push(item);
            proof {
                assert(text::texts(items@) =~= text::texts(before).push(item@));
            }
        }
        i = i + 1;
    }
    proof {
        assert(v@.take(i as int) =~= v@);
    }
    let sorted = order::sort_strings(items);
    reply::tool_text(text::join_strings(&sorted, "\n").as_str())
}

/// One place where a search found its text.
pub struct SearchHit {
    pub file: String,
    /// The last part of the path.
    pub file_name: String,
    pub line: u64,
    pub content: String,
}

pub open spec fn hit_line(h: SearchHit) -> Seq<char> {
    h.file@ + ":"@ + decimal::dec(h.line as nat) + ": "@ + text::trim(h.content@)
}

/// The lines of the hits that are not ignored.
pub open spec fn hit_lines(hits: Seq<SearchHit>, ignore: Seq<Seq<char>>) -> Seq<Seq<char>>
    decreases hits.len(),
{
    if hits.len() == 0 {
        seq![]
    } else {
        let h = hits.last();
        let before = hit_lines(hits.drop_last(), ignore);
        if workspace::ignored(h.file_name@, h.file@, ignore) {
            before
        } else {
            before.push(hit_line(h))
        }
    }
}

pub open spec fn first_n(s: Seq<Seq<char>>, n: int) -> Seq<Seq<char>> {
    if s.len() > n {
        s.take(n)
    } else {
        s
    }
}

/// What a search shows: the first fifty hits that are not ignored.
pub open spec fn search_value(
    query: Seq<char>,
    hits: Seq<SearchHit>,
    ignore: Seq<Seq<char>>,
) -> Seq<char> {
    if hits.len() == 0 {
        "No results found for '"@ + query + "'"@
    } else {
        text::join(first_n(hit_lines(hits, ignore), 50), "\n"@)
    }
}

/// The answer to a search.
pub fn after_search(
    query: &str,
    hits: Result<&Vec<SearchHit>, &str>,
    ignore: &Vec<String>,
) -> (r: String)
    ensures
        r@ == (match hits {
            Ok(v) => reply::success_reply(
                JsonV::Text(search_value(query@, v@, text::texts(ignore@))),
            ),
            Err(e) => reply::error_reply("SEARCH_FAILED"@, "Search error: "@ + e@, true),
        }),
{
    let v = match hits {
        Ok(v) => v,
        Err(e) => {
            return reply::tool_error(
                "SEARCH_FAILED",
                text::cat("Search error: ", e).as_str(),
                true,
            );
        },
    };
    if v.len() == 0 {
        let mut s = text::copy("No results found for '");
        s.append(query);
        s.append("'");
        return reply::tool_text(s.as_str());
    }
    let mut lines: Vec<String> = Vec::new();
    let mut i: usize = 0;
    proof {
        assert(v@.take(0) =~= Seq::<SearchHit>::empty());
        assert(text::texts(lines@) =~= Seq::<Seq<char>>::empty());
    }
    while i < v.len()
        invariant
            i <= v@.len(),
            text::texts(lines@) == hit_lines(v@.take(i as int), text::texts(ignore@)),
        decreases v.len() - i,
    {
        proof {
            assert(v@.take(i as int + 1).drop_last() =~= v@.take(i as int));
        }
        let ghost before = lines@;
        let h = &v[i];
        if !workspace::is_clif_ignored(h.file_name.as_str(), h.file.as_str(), ignore) {
            let mut l = text::copy(h.file.as_str());
            l.append(":");
            l.append(decimal::dec_u64(h.line).as_str());
            l.append(": ");
            l.append(text::str_trim(h.content.as_str()).as_str());
            lines.push(l);
            proof {
                assert(text::texts(lines@) =~= text::texts(before).push(hit_line(*h)));
            }
        }
        i = i + 1;
    }
    proof {
        assert(v@.take(i as int) =~= v@);
        assert(text::texts(lines@).len() == lines@.len());
    }
    let n: usize = if lines.len() > 50 {
        50
    } else {
        lines.len()
    };
    proof {
        assert(text::texts(lines@).subrange(0, n as int) =~= first_n(text::texts(lines@), 50));
    }
    reply::tool_text(text::join_range(&lines, 0, n, "\n").as_str())
}

/// How a command ended.
pub enum CommandEnd {
    /// It ran: what it printed, and its exit code, if it had one.
    Done { stdout: String, stderr: String, code: Option<i32> },
    /// It could not be run.
    Failed(String),
    TimedOut,
}

/// The most bytes of output that are shown.
pub const OUTPUT_CAP: usize = 20000;

/// What a command printed, both streams together.
pub open spec fn command_output(stdout: Seq<char>, stderr: Seq<char>, code: Option<i32>) -> Seq<
    char,
> {
    if stdout.len() == 0 && stderr.len() == 0 {
        "Command completed with exit code "@ + decimal::dec_int(
            match code {
                Some(c) => c as int,
                None => -1,
            },
        )
    } else if stderr.len() == 0 {
        stdout
    } else if stdout.len() == 0 {
        stderr
    } else {
        stdout + "\n--- stderr ---\n"@ + stderr
    }
}

pub open spec fn output_value(out: Seq<char>) -> Seq<char> {
    if text::byte_len(out) > OUTPUT_CAP {
        out.take(text::chars_within(out, OUTPUT_CAP as nat) as int) + "\n\n... (truncated, "@
            + decimal::dec(text::byte_len(out)) + " total bytes)"@
    } else {
        out
    }
}

/// A cut of the output does not split a character.
pub open spec fn output_fits(end: CommandEnd) -> bool {
    end matches CommandEnd::Done { stdout, stderr, code } ==> ({
        let out = command_output(stdout@, stderr@, code);
        text::byte_len(out) > OUTPUT_CAP ==> text::is_boundary(out, OUTPUT_CAP as nat)
    })
}

fn join_output(stdout: &str, stderr: &str, code: Option<i32>) -> (r: String)
    ensures
        r@ == command_output(stdout@, stderr@, code),
{
    if stdout.is_empty() && stderr.is_empty() {
        let c: i64 = match code {
            Some(c) => c as i64,
            None => -1,
        };
        return text::cat("Command completed with exit code ", decimal::dec_i64(c).as_str());
    }
    if stderr.is_empty() {
        return text::copy(stdout);
    }
    if stdout.is_empty() {
        return text::copy(stderr);
    }
    let mut s = text::copy(stdout);
    s.append("\n--- stderr ---\n");
    s.append(stderr);
    s
}

/// Whether the output of a command can be shown.
pub fn command_fits(end: &CommandEnd) -> (r: bool)
    ensures
        r == output_fits(*end),
{
    match end {
        CommandEnd::Done { stdout, stderr, code } => {
            let out = join_output(stdout.as_str(), stderr.as_str(), *code);
            text::str_bytes(out.as_str()) <= OUTPUT_CAP || text::split_bytes(
                out.as_str(),
                OUTPUT_CAP,
            ).is_some()
        },
        _ => true,
    }
}

/// The answer to a command.
pub fn after_run(end: &CommandEnd) -> (r: String)
    requires
        output_fits(*end),
    ensures
        r@ == (match *end {
            CommandEnd::Done { stdout, stderr, code } => reply::success_reply(
                JsonV::Text(output_value(command_output(stdout@, stderr@, code))),
            ),
            CommandEnd::Failed(e) => reply::error_reply(
                "COMMAND_FAILED"@,
                "Error running command: "@ + e@,
                true,
            ),
            CommandEnd::TimedOut => reply::error_reply(
                "COMMAND_TIMEOUT"@,
                "Error: command timed out after 30 seconds"@,
                true,
            ),
        }),
{
    match end {
        CommandEnd::Done { stdout, stderr, code } => {
            let out = join_output(stdout.as_str(), stderr.as_str(), *code);
            let n = text::str_bytes(out.as_str());
            if n > OUTPUT_CAP {
                if let Some(parts) = text::split_bytes(out.as_str(), OUTPUT_CAP) {
                    let mut s = parts.0;
                    s.append("\n\n... (truncated, ");
                    s.append(decimal::dec_usize(n).as_str());
                    s.append(" total bytes)");
                    return reply::tool_text(s.as_str());
                }
            }
            reply::tool_text(out.as_str())
        },
        CommandEnd::Failed(e) => reply::tool_error(
            "COMMAND_FAILED",
            text::cat("Error running command: ", e.as_str()).as_str(),
            true,
        ),
        CommandEnd::TimedOut => reply::tool_error(
            "COMMAND_TIMEOUT",
            "Error: command timed out after 30 seconds",
            true,
        ),
    }
}

/// The arguments of the program that finds files by name.
pub open spec fn find_words(dir: Seq<char>, name: Seq<char>) -> Seq<Seq<char>> {
    seq![
        dir,
        "-maxdepth"@,
        "5"@,
        "-iname"@,
        "*"@ + name + "*"@,
        "-not"@,
        "-path"@,
        "*/node_modules/*"@,
        "-not"@,
        "-path"@,
        "*/.git/*"@,
        "-not"@,
        "-path"@,
        "*/target/*"@,
        "-not"@,
        "-path"@,
        "*/__pycache__/*"@,
    ]
}

pub fn find_arguments(dir: &str, name: &str) -> (r: Vec<String>)
    ensures
        text::texts(r@) == find_words(dir@, name@),
{
    let mut pattern = text::copy("*");
    pattern.append(name);
    pattern.append("*");
    let mut v: Vec<String> = Vec::new();
    v.push(text::copy(dir));
    v.push(text::copy("-maxdepth"));
    v.push(text::copy("5"));
    v.push(text::copy("-iname"));
    v.push(pattern);
    v.push(text::copy("-not"));
    v.push(text::copy("-path"));
    v.push(text::copy("*/node_modules/*"));
    v.push(text::copy("-not"));
    v.push(text::copy("-path"));
    v.push(text::copy("*/.git/*"));
    v.push(text::copy("-not"));
    v.push(text::copy("-path"));
    v.push(text::copy("*/target/*"));
    v.push(text::copy("-not"));
    v.push(text::copy("-path"));
    v.push(text::copy("*/__pycache__/*"));
    proof {
        assert(text::texts(v@) =~= find_words(dir@, name@));
    }
    v
}

/// What finding files shows: the first thirty.
pub open spec fn found_value(name: Seq<char>, out: Seq<char>) -> Seq<char> {
    if text::lines(out).len() == 0 {
        "No files found matching '"@ + name + "'"@
    } else {
        text::join(first_n(text::lines(out), 30), "\n"@)
    }
}

/// The answer to finding files by name, from what the program printed.
pub fn after_find(name: &str, out: Result<&str, &str>) -> (r: String)
    ensures
        r@ == (match out {
            Ok(s) => reply::success_reply(JsonV::Text(found_value(name@, s@))),
            Err(e) => reply::error_reply("FIND_FAILED"@, "Find error: "@ + e@, true),
        }),
{
    match out {
        Ok(s) => {
            let l = text::str_lines(s);
            proof {
                assert(text::texts(l@).len() == l@.len());
            }
            if l.len() == 0 {
                let mut m = text::copy("No files found matching '");
                m.append(name);
                m.append("'");
                return reply::tool_text(m.as_str());
            }
            let n: usize = if l.len() > 30 {
                30
            } else {
                l.len()
            };
            proof {
                assert(text::texts(l@).subrange(0, n as int) =~= first_n(text::texts(l@), 30));
            }
            reply::tool_text(text::join_range(&l, 0, n, "\n").as_str())
        },
        Err(e) => reply::tool_error(
            "FIND_FAILED",
            text::cat("Find error: ", e).as_str(),
            true,
        ),
    }
}

/// A symbol that the index knows.
pub struct SymbolHit {
    pub file: String,
    pub line: u64,
    pub kind: String,
    pub name: String,
    pub language: String,
}

pub open spec fn symbol_line(h: SymbolHit) -> Seq<char> {
    h.file@ + ":"@ + decimal::dec(h.line as nat) + " — "@ + h.kind@ + " "@ + h.name@ + " ("@
        + h.language@ + ")"@
}

pub open spec fn symbols_value(name: Seq<char>, hits: Seq<SymbolHit>) -> Seq<char> {
    if hits.len() == 0 {
        "No symbols matching '"@ + name
            + "' in the index. If the codebase index isn't built yet, fall back to `search`."@
    } else {
        text::join(hits.map_values(|h: SymbolHit| symbol_line(h)), "\n"@)
    }
}

/// The answer to looking a symbol up.
pub fn after_symbols(name: &str, hits: Result<&Vec<SymbolHit>, &str>) -> (r: String)
    ensures
        r@ == (match hits {
            Ok(v) => reply::success_reply(JsonV::Text(symbols_value(name@, v@))),
            Err(e) => reply::error_reply(
                "INDEX_NOT_READY"@,
                "Symbol index not available: "@ + e@ + ". Use `search` as a fallback."@,
                true,
            ),
        }),
{
    let v = match hits {
        Ok(v) => v,
        Err(e) => {
            let mut m = text::copy("Symbol index not available: ");
            m.append(e);
            m.append(". Use `search` as a fallback.");
            return reply::tool_error("INDEX_NOT_READY", m.as_str(), true);
        },
    };
    if v.len() == 0 {
        let mut m = text::copy("No symbols matching '");
        m.append(name);
        m.append("' in the index. If the codebase index isn't built yet, fall back to `search`.");
        return reply::tool_text(m.as_str());
    }
    let mut lines: Vec<String> = Vec::new();
    let mut i: usize = 0;
    while i < v.len()
        invariant
            i == lines@.len(),
            i <= v@.len(),
            forall|j: int| 0 <= j < i ==> (#[trigger] lines@[j])@ == symbol_line(v@[j]),
        decreases v.len() - i,
    {
        let h = &v[i];
        let mut l = text::copy(h.file.as_str());
        l.append(":");
        l.append(decimal::dec_u64(h.line).as_str());
        l.append(" — ");
        l.append(h.kind.as_str());
        l.append(" ");
        l.append(h.name.as_str());
        l.append(" (");
        l.append(h.language.as_str());
        l.append(")");
        lines.push(l);
        i = i + 1;
    }
    proof {
        assert(text::texts(lines@) =~= v@.map_values(|h: SymbolHit| symbol_line(h)));
    }
    reply::tool_text(text::join_strings(&lines, "\n").as_str())
}

// ---- laws ---------------------------------------------------------------------------------------------

/// Outside of agent mode no call is planned that writes, edits or runs anything.
pub proof fn law_readonly_modes_change_nothing(
    name: Seq<char>,
    args: JsonV,
    workspace: Seq<char>,
    has_session: bool,
    m: AgentMode,
)
    requires
        m != AgentMode::Agent,
    ensures
        planned(name, args, workspace, has_session, m) matches Ok(c) ==> !(c is Write) && !(
        c is Edit) && !(c is Run),
{
}

/// A file that exists is changed only after the conversation has read it: with the file
/// unread, the call is answered at once and nothing is written.
pub proof fn law_read_before_change(c: CallV, existed: bool, was_read: bool)
    requires
        c is Write || c is Edit,
        existed,
        !was_read,
    ensures
        step_probed(c, existed, was_read) is Reply,
{
}

/// Every step that touches the file system comes after the path was resolved inside the
/// workspace, except looking a symbol up in the index.
pub proof fn law_paths_first(c: CallV)
    ensures
        first_step(c) is Resolve || first_step(c) is Reply || (c is FindSymbol && first_step(
            c,
        ) is Symbols),
{
}

/// A call is planned with the arguments that were given, each as it stands; where a folder may be
/// left out, it is the workspace.
pub proof fn law_arguments_reach_the_tool(
    args: JsonV,
    workspace: Seq<char>,
    has_session: bool,
    m: AgentMode,
    a: Seq<char>,
    b: Seq<char>,
)
    ensures
        args.get_text("path"@) == Some(a) ==> (planned(
            "read_file"@,
            args,
            workspace,
            has_session,
            m,
        ) matches Ok(CallV::Read { path, offset, limit }) && path == a && (args.get_uint("offset"@)
            is None ==> offset is None) && (args.get_uint("limit"@) is None ==> limit is None) && (
        args.get_uint("offset"@) matches Some(n) ==> (n <= usize::MAX ==> offset == Some(
            n as usize,
        ))) && (args.get_uint("limit"@) matches Some(n) ==> (n <= usize::MAX ==> limit == Some(
            n as usize,
        )))),
        args.get_text("path"@) == Some(a) && args.get_text("content"@) == Some(b) ==> planned(
            "write_file"@,
            args,
            workspace,
            has_session,
            AgentMode::Agent,
        ) == Ok::<CallV, Seq<char>>(CallV::Write { path: a, content: b }),
        args.get_text("path"@) == Some(a) ==> planned("list_files"@, args, workspace, has_session, m)
            == Ok::<CallV, Seq<char>>(CallV::List { path: a }),
        args.get_text("query"@) == Some(a) && args.get_text("path"@) == Some(b) ==> planned(
            "search"@,
            args,
            workspace,
            has_session,
            m,
        ) == Ok::<CallV, Seq<char>>(CallV::Search { query: a, path: b }),
        args.get_text("command"@) == Some(a) && args.get_text("working_dir"@) == Some(b) ==> planned(
            "run_command"@,
            args,
            workspace,
            has_session,
            AgentMode::Agent,
        ) == Ok::<CallV, Seq<char>>(CallV::Run { command: a, dir: b }),
        args.get_text("command"@) == Some(a) && args.get_text("working_dir"@) is None ==> planned(
            "run_command"@,
            args,
            workspace,
            has_session,
            AgentMode::Agent,
        ) == Ok::<CallV, Seq<char>>(CallV::Run { command: a, dir: workspace }),
        args.get_text("name"@) == Some(a) && args.get_text("dir"@) == Some(b) ==> planned(
            "find_file"@,
            args,
            workspace,
            has_session,
            m,
        ) == Ok::<CallV, Seq<char>>(CallV::FindFile { name: a, dir: b }),
        args.get_text("name"@) == Some(a) && args.get_text("dir"@) is None ==> planned(
            "find_file"@,
            args,
            workspace,
            has_session,
            m,
        ) == Ok::<CallV, Seq<char>>(CallV::FindFile { name: a, dir: workspace }),
        args.get_text("summary"@) == Some(a) ==> planned("submit"@, args, workspace, has_session, m)
            == Ok::<CallV, Seq<char>>(CallV::Submit { summary: a }),
        planned("todo_read"@, args, workspace, true, m) == Ok::<CallV, Seq<char>>(CallV::TodoRead),
{
    reveal_strlit("read_file");
    reveal_strlit("write_file");
    reveal_strlit("edit_file");
    reveal_strlit("list_files");
    reveal_strlit("search");
    reveal_strlit("run_command");
    reveal_strlit("find_file");
    reveal_strlit("find_symbol");
    reveal_strlit("todo_write");
    reveal_strlit("todo_read");
    reveal_strlit("submit");
    assert("read_file"@.len() == 9
        && "write_file"@.len() == 10
        && "edit_file"@.len() == 9
        && "list_files"@.len() == 10
        && "search"@.len() == 6
        && "run_command"@.len() == 11
        && "find_file"@.len() == 9
        && "find_symbol"@.len() == 11
        && "todo_write"@.len() == 10
        && "todo_read"@.len() == 9
        && "submit"@.len() == 6
        && "read_file"@[0] == 'r'
        && "edit_file"@[0] == 'e'
        && "find_file"@[0] == 'f'
        && "todo_read"@[0] == 't'
        && "write_file"@[0] == 'w'
        && "list_files"@[0] == 'l'
        && "todo_write"@[0] == 't'
        && "search"@[1] == 'e'
        && "submit"@[1] == 'u'
        && "run_command"@[0] == 'r'
        && "find_symbol"@[0] == 'f');
}

/// An edit is planned with both texts as they stand, and replaces all matches only where that is
/// asked for; a symbol is looked up by its trimmed name, ten hits at most unless told otherwise and
/// never more than fifty; a todo list is taken whole or refused.
pub proof fn law_edits_and_lookups_are_planned(
    args: JsonV,
    workspace: Seq<char>,
    m: AgentMode,
    a: Seq<char>,
    b: Seq<char>,
    c: Seq<char>,
    items: Seq<JsonV>,
)
    ensures
        args.get_text("path"@) == Some(a) && args.get_text("old_string"@) == Some(b)
            && args.get_text("new_string"@) == Some(c) ==> planned(
            "edit_file"@,
            args,
            workspace,
            true,
            AgentMode::Agent,
        ) == Ok::<CallV, Seq<char>>(
            CallV::Edit {
                path: a,
                old_string: b,
                new_string: c,
                replace_all: args.get_bool("replace_all"@) == Some(true),
            },
        ),
        args.get_text("name"@) == Some(a) && text::trim(a).len() > 0 ==> (planned(
            "find_symbol"@,
            args,
            workspace,
            true,
            m,
        ) matches Ok(CallV::FindSymbol { name, most }) && name == text::trim(a) && most <= 50 && (
        args.get_uint("limit"@) is None ==> most == 10) && (args.get_uint("limit"@) matches Some(n)
            ==> (n <= 50 ==> most == n) && (n >= 50 ==> most == 50))),
        args.get_text("name"@) == Some(a) && text::trim(a).len() == 0 ==> planned(
            "find_symbol"@,
            args,
            workspace,
            true,
            m,
        ) is Err,
        args.get_items("todos"@) == Some(items) && (forall|i: int|
            0 <= i < items.len() ==> todos::valid_todo(todos::todo_of(#[trigger] items[i]))) ==> (
        planned("todo_write"@, args, workspace, true, m) matches Ok(
            CallV::TodoWrite { merge, items: list },
        ) && merge == (args.get_bool("merge"@) == Some(true)) && list.len() == items.len()
            && forall|i: int|
            0 <= i < items.len() ==> #[trigger] list[i] == todos::todo_of(items[i])),
        args.get_items("todos"@) == Some(items) && (exists|i: int|
            0 <= i < items.len() && !todos::valid_todo(todos::todo_of(#[trigger] items[i])))
            ==> planned("todo_write"@, args, workspace, true, m) is Err,
{
    reveal_strlit("read_file");
    reveal_strlit("write_file");
    reveal_strlit("edit_file");
    reveal_strlit("list_files");
    reveal_strlit("search");
    reveal_strlit("run_command");
    reveal_strlit("find_file");
    reveal_strlit("find_symbol");
    reveal_strlit("todo_write");
    reveal_strlit("todo_read");
    reveal_strlit("submit");
    assert("read_file"@.len() == 9
        && "write_file"@.len() == 10
        && "edit_file"@.len() == 9
        && "list_files"@.len() == 10
        && "search"@.len() == 6
        && "run_command"@.len() == 11
        && "find_file"@.len() == 9
        && "find_symbol"@.len() == 11
        && "todo_write"@.len() == 10
        && "todo_read"@.len() == 9
        && "submit"@.len() == 6
        && "read_file"@[0] == 'r'
        && "edit_file"@[0] == 'e'
        && "find_file"@[0] == 'f'
        && "todo_read"@[0] == 't'
        && "write_file"@[0] == 'w'
        && "list_files"@[0] == 'l'
        && "todo_write"@[0] == 't'
        && "search"@[1] == 'e'
        && "submit"@[1] == 'u'
        && "run_command"@[0] == 'r'
        && "find_symbol"@[0] == 'f');
    let list = todos::todos_in(items);
    assert forall|i: int| 0 <= i < items.len() implies #[trigger] list[i] == todos::todo_of(
        items[i],
    ) by {}
    if exists|i: int|
        0 <= i < items.len() && !todos::valid_todo(todos::todo_of(#[trigger] items[i])) {
        let i = choose|i: int|
            0 <= i < items.len() && !todos::valid_todo(todos::todo_of(#[trigger] items[i]));
        assert(!todos::valid_todo(list[i]));
    }
}

/// What is refused at once, and how: changes outside of agent mode, todo lists without a session,
/// and names that are no tool.
pub proof fn law_refusals(args: JsonV, workspace: Seq<char>, m: AgentMode, name: Seq<char>)
    ensures
        planned("write_file"@, args, workspace, true, AgentMode::Ask) == Err::<CallV, Seq<char>>(
            reply::error_reply(
                "MODE_RESTRICTED"@,
                "write_file"@ + " is disabled in "@ + "ask"@ + " mode. Switch to agent mode to "@
                    + "edit files"@ + "."@,
                false,
            ),
        ),
        planned("edit_file"@, args, workspace, true, AgentMode::Plan) == Err::<CallV, Seq<char>>(
            reply::error_reply(
                "MODE_RESTRICTED"@,
                "edit_file"@ + " is disabled in "@ + "plan"@ + " mode. Switch to agent mode to "@
                    + "edit files"@ + "."@,
                false,
            ),
        ),
        planned("run_command"@, args, workspace, true, AgentMode::Ask) == Err::<CallV, Seq<char>>(
            reply::error_reply(
                "MODE_RESTRICTED"@,
                "run_command"@ + " is disabled in "@ + "ask"@ + " mode. Switch to agent mode to "@
                    + "run commands"@ + "."@,
                false,
            ),
        ),
        planned("todo_write"@, args, workspace, false, m) == Err::<CallV, Seq<char>>(
            reply::error_reply(
                "SESSION_REQUIRED"@,
                "todo_write requires an active agent session."@,
                false,
            ),
        ),
        planned("todo_read"@, args, workspace, false, m) == Err::<CallV, Seq<char>>(
            reply::error_reply(
                "SESSION_REQUIRED"@,
                "todo_read requires an active agent session."@,
                false,
            ),
        ),
        crate::tools::allowed(name) is None ==> planned(name, args, workspace, true, m) == Err::<
            CallV,
            Seq<char>,
        >(reply::error_reply("UNKNOWN_TOOL"@, "Unknown tool: "@ + name, false)),
{
    reveal_strlit("read_file");
    reveal_strlit("write_file");
    reveal_strlit("edit_file");
    reveal_strlit("list_files");
    reveal_strlit("search");
    reveal_strlit("run_command");
    reveal_strlit("find_file");
    reveal_strlit("find_symbol");
    reveal_strlit("todo_write");
    reveal_strlit("todo_read");
    reveal_strlit("submit");
    assert("read_file"@.len() == 9
        && "write_file"@.len() == 10
        && "edit_file"@.len() == 9
        && "list_files"@.len() == 10
        && "search"@.len() == 6
        && "run_command"@.len() == 11
        && "find_file"@.len() == 9
        && "find_symbol"@.len() == 11
        && "todo_write"@.len() == 10
        && "todo_read"@.len() == 9
        && "submit"@.len() == 6
        && "read_file"@[0] == 'r'
        && "edit_file"@[0] == 'e'
        && "find_file"@[0] == 'f'
        && "todo_read"@[0] == 't'
        && "write_file"@[0] == 'w'
        && "list_files"@[0] == 'l'
        && "todo_write"@[0] == 't'
        && "search"@[1] == 'e'
        && "submit"@[1] == 'u'
        && "run_command"@[0] == 'r'
        && "find_symbol"@[0] == 'f');
}

/// A call works on the path that it names, and one that changes a file says so; then it goes on to
/// what it is for.
pub proof fn law_calls_work_on_their_path(c: CallV)
    ensures
        c matches CallV::Read { path, .. } ==> first_step(c) == (StepV::Resolve {
            path,
            for_write: false,
        }) && step_inside(c) == StepV::ReadText,
        c matches CallV::Write { path, .. } ==> first_step(c) == (StepV::Resolve {
            path,
            for_write: true,
        }) && step_inside(c) == StepV::PrepareAndProbe,
        c matches CallV::Edit { path, .. } ==> first_step(c) == (StepV::Resolve {
            path,
            for_write: true,
        }) && step_inside(c) == StepV::Probe,
        c matches CallV::List { path } ==> first_step(c) == (StepV::Resolve {
            path,
            for_write: false,
        }) && step_inside(c) == StepV::List,
        c matches CallV::Search { path, .. } ==> first_step(c) == (StepV::Resolve {
            path,
            for_write: false,
        }) && step_inside(c) == StepV::Search,
        c matches CallV::Run { dir, .. } ==> first_step(c) == (StepV::Resolve {
            path: dir,
            for_write: false,
        }) && step_inside(c) == StepV::Run,
        c matches CallV::FindFile { dir, .. } ==> first_step(c) == (StepV::Resolve {
            path: dir,
            for_write: false,
        }) && step_inside(c) == StepV::Find,
        c matches CallV::Submit { summary } ==> first_step(c) == StepV::Reply(
            reply::success_reply(JsonV::Text("Task complete: "@ + summary)),
        ),
{
}

/// What is written is the content that was given, whole, whether the file is new or not; a file
/// that was not read is left alone and asked to be read; an edit that nothing refuses writes the
/// edited text; a read shows what was read.
pub proof fn law_what_is_written(
    path: Seq<char>,
    content: Seq<char>,
    found: Seq<char>,
    e: Seq<char>,
    was_read: bool,
    offset: Option<usize>,
    limit: Option<usize>,
)
    ensures
        step_probed(CallV::Write { path, content }, false, was_read) matches StepV::WriteText {
            content: c,
            reply,
        } && c == content && reply == tool_files::write_reply(path, content, false, 0),
        step_probed(CallV::Write { path, content }, true, true) == StepV::ReadText,
        step_read(CallV::Write { path, content }, Ok(found)) matches StepV::WriteText {
            content: c,
            reply,
        } && c == content && reply == tool_files::write_reply(
            path,
            content,
            true,
            text::lines(found).len(),
        ),
        step_read(CallV::Write { path, content }, Err(e)) matches StepV::WriteText {
            content: c,
            reply,
        } && c == content && reply == tool_files::write_reply(path, content, true, 0),
        step_probed(CallV::Write { path, content }, true, false) == StepV::Reply(
            reply::error_reply(
                "READ_REQUIRED"@,
                "Read '"@ + path + "' before modifying it with "@ + "write_file"@ + "."@,
                true,
            ),
        ),
        step_read(CallV::Read { path, offset, limit }, Ok(found)) == StepV::Reply(
            reply::success_reply(JsonV::Text(tool_files::read_value(found, offset, limit))),
        ),
        step_read(CallV::Read { path, offset, limit }, Err(e)) == StepV::Reply(
            reply::error_reply("READ_FAILED"@, "Error reading file: "@ + e, true),
        ),
{
}

/// An edit reads the file first; where the text is found it writes the edited file, and where it is
/// refused it answers why and writes nothing.
pub proof fn law_edits_are_made(
    path: Seq<char>,
    old_string: Seq<char>,
    new_string: Seq<char>,
    replace_all: bool,
    found: Seq<char>,
    e: Seq<char>,
)
    ensures
        ({
            let c = CallV::Edit { path, old_string, new_string, replace_all };
            &&& step_probed(c, true, true) == StepV::ReadText
            &&& step_probed(c, false, false) == StepV::ReadText
            &&& step_probed(c, true, false) == StepV::Reply(
                reply::error_reply(
                    "READ_REQUIRED"@,
                    "Read '"@ + path + "' before modifying it with "@ + "edit_file"@ + "."@,
                    true,
                ),
            )
            &&& step_read(c, Err(e)) == StepV::Reply(
                reply::error_reply("READ_FAILED"@, "Error reading file: "@ + e, true),
            )
            &&& tool_files::edit_refusal(path, found, old_string, replace_all) matches Some(a)
                ==> step_read(c, Ok(found)) == StepV::Reply(a)
            &&& tool_files::edit_refusal(path, found, old_string, replace_all) is None ==> (
            step_read(c, Ok(found)) matches StepV::WriteText { content, .. } && content
                == tool_files::edited(
                found,
                tool_files::edit_target(found, old_string)->Some_0,
                new_string,
                replace_all,
            ))
        }),
{
}

/// A todo call leaves the list that it was given, or merges it; nothing else changes the list.
pub proof fn law_todos_after(c: CallV, list: Seq<TodoV>, items: Seq<TodoV>)
    ensures
        c == (CallV::TodoWrite { merge: false, items }) ==> todos_after(c, list) == items,
        c == (CallV::TodoWrite { merge: true, items }) ==> todos_after(c, list) == todos::merge_all(
            list,
            items,
        ),
        !(c is TodoWrite) ==> todos_after(c, list) == list,
{
}

/// A listing goes entry by entry: one that is not hidden is listed by its name, a folder with a
/// slash behind it.
pub proof fn law_listings(a: Seq<DirEntry>, b: Seq<DirEntry>, e: DirEntry)
    ensures
        listed(a + b) == listed(a) + listed(b),
        e.name@.len() > 0 && e.name@[0] == '.' ==> listed(seq![e]).len() == 0,
        e.name@ == "node_modules"@ || e.name@ == "target"@ ==> listed(seq![e]).len() == 0,
        e.name@.len() > 0 && e.name@[0] != '.' && e.name@ != "node_modules"@ && e.name@ != "target"@
            ==> listed(seq![e]) == seq![
            if e.is_dir {
                e.name@ + seq!['/']
            } else {
                e.name@
            },
        ],
    decreases b.len(),
{
    reveal_strlit(".");
    reveal_strlit("/");
    assert("/"@ =~= seq!['/']);
    assert("."@ =~= seq!['.']);
    assert(seq![e].drop_last() =~= Seq::<DirEntry>::empty());
    assert(listed(Seq::<DirEntry>::empty()) =~= Seq::<Seq<char>>::empty());
    let n = e.name@;
    if n.len() > 0 {
        assert(n.subrange(0, 1) =~= seq![n[0]]);
        assert(n[0] != '.' ==> seq![n[0]][0] != seq!['.'][0]);
        assert(text::starts_with(n, "."@) <==> n[0] == '.');
    }
    let l = if e.is_dir {
        n + seq!['/']
    } else {
        n
    };
    assert(Seq::<Seq<char>>::empty().push(l) =~= seq![l]);
    if b.len() == 0 {
        assert(a + b =~= a);
        assert(listed(a) + listed(b) =~= listed(a));
    } else {
        law_listings(a, b.drop_last(), e);
        assert((a + b).drop_last() =~= a + b.drop_last());
        assert(listed(a + b) =~= listed(a) + listed(b));
    }
}

/// A search shows every hit that is not ignored, in order, with its file, its line and its trimmed
/// text, up to fifty.
pub proof fn law_hits(
    a: Seq<SearchHit>,
    b: Seq<SearchHit>,
    h: SearchHit,
    ignore: Seq<Seq<char>>,
    query: Seq<char>,
)
    ensures
        hit_lines(a + b, ignore) == hit_lines(a, ignore) + hit_lines(b, ignore),
        workspace::ignored(h.file_name@, h.file@, ignore) ==> hit_lines(seq![h], ignore).len() == 0,
        !workspace::ignored(h.file_name@, h.file@, ignore) ==> hit_lines(seq![h], ignore) == seq![
            h.file@ + ":"@ + decimal::dec(h.line as nat) + ": "@ + text::trim(h.content@),
        ],
        search_value(query, Seq::empty(), ignore) == "No results found for '"@ + query + "'"@,
        a.len() > 0 && hit_lines(a, ignore).len() <= 50 ==> search_value(query, a, ignore)
            == text::join(hit_lines(a, ignore), "\n"@),
        hit_lines(a, ignore).len() > 50 && a.len() > 0 ==> search_value(query, a, ignore)
            == text::join(hit_lines(a, ignore).take(50), "\n"@),
    decreases b.len(),
{
    assert(seq![h].drop_last() =~= Seq::<SearchHit>::empty());
    assert(hit_lines(Seq::<SearchHit>::empty(), ignore) =~= Seq::<Seq<char>>::empty());
    let l = hit_line(h);
    assert(Seq::<Seq<char>>::empty().push(l) =~= seq![l]);
    if b.len() == 0 {
        assert(a + b =~= a);
        assert(hit_lines(a, ignore) + hit_lines(b, ignore) =~= hit_lines(a, ignore));
    } else {
        law_hits(a, b.drop_last(), h, ignore, query);
        assert((a + b).drop_last() =~= a + b.drop_last());
        assert(hit_lines(a + b, ignore) =~= hit_lines(a, ignore) + hit_lines(b, ignore));
    }
}

/// What a command printed is shown: both streams, the errors behind, or the exit code where it
/// printed nothing; beyond twenty thousand bytes its beginning, and how much there was.
pub proof fn law_command_output(stdout: Seq<char>, stderr: Seq<char>, code: Option<i32>, k: int)
    ensures
        stdout.len() > 0 && stderr.len() > 0 ==> command_output(stdout, stderr, code) == stdout
            + "\n--- stderr ---\n"@ + stderr,
        stdout.len() > 0 && stderr.len() == 0 ==> command_output(stdout, stderr, code) == stdout,
        stdout.len() == 0 && stderr.len() > 0 ==> command_output(stdout, stderr, code) == stderr,
        stdout.len() == 0 && stderr.len() == 0 ==> (code matches Some(c) ==> command_output(
            stdout,
            stderr,
            code,
        ) == "Command completed with exit code "@ + decimal::dec_int(c as int)),
        stdout.len() == 0 && stderr.len() == 0 && code is None ==> command_output(
            stdout,
            stderr,
            code,
        ) == "Command completed with exit code "@ + decimal::dec_int(-1),
        text::byte_len(stdout) <= 20000 ==> output_value(stdout) == stdout,
        0 <= k <= stdout.len() && text::byte_len(stdout) > 20000 && text::byte_len(stdout.take(k))
            == 20000 ==> output_value(stdout) == stdout.take(k) + "\n\n... (truncated, "@
            + decimal::dec(text::byte_len(stdout)) + " total bytes)"@,
{
    if 0 <= k <= stdout.len() && text::byte_len(stdout) > 20000 && text::byte_len(stdout.take(k))
        == 20000 {
        assert(stdout.take(stdout.len() as int) =~= stdout);
        assert(k < stdout.len());
        text::lemma_byte_len_take_strict(stdout, k, k + 1);
        text::lemma_chars_within_is(stdout, 20000, k);
    }
}

/// Finding shows the first thirty of the paths that were found; a symbol is shown with its place,
/// kind, name and language; where nothing was found, that is said.
pub proof fn law_finds(name: Seq<char>, out: Seq<char>, hits: Seq<SymbolHit>, i: int)
    ensures
        text::lines(out).len() == 0 ==> found_value(name, out) == "No files found matching '"@ + name
            + "'"@,
        0 < text::lines(out).len() <= 30 ==> found_value(name, out) == text::join(
            text::lines(out),
            "\n"@,
        ),
        text::lines(out).len() > 30 ==> found_value(name, out) == text::join(
            text::lines(out).take(30),
            "\n"@,
        ),
        symbols_value(name, Seq::empty()) == "No symbols matching '"@ + name
            + "' in the index. If the codebase index isn't built yet, fall back to `search`."@,
        hits.len() > 0 ==> exists|lines: Seq<Seq<char>>|
            symbols_value(name, hits) == #[trigger] text::join(lines, "\n"@) && lines.len()
                == hits.len() && (0 <= i < hits.len() ==> lines[i] == hits[i].file@ + ":"@
                + decimal::dec(hits[i].line as nat) + " — "@ + hits[i].kind@ + " "@ + hits[i].name@
                + " ("@ + hits[i].language@ + ")"@),
        find_words(out, name).len() == 17,
        find_words(out, name)[0] == out,
        find_words(out, name)[1] == "-maxdepth"@ && find_words(out, name)[2] == "5"@,
        find_words(out, name)[3] == "-iname"@ && find_words(out, name)[4] == "*"@ + name + "*"@,
{
    let lines = hits.map_values(|h: SymbolHit| symbol_line(h));
    if hits.len() > 0 {
        assert(symbols_value(name, hits) == text::join(lines, "\n"@));
    }
}

/// The output of a command can be shown wherever the cut does not split a character: up to twenty
/// thousand bytes always.
pub proof fn law_what_output_fits(out: String, e: String, code: Option<i32>, a: Seq<char>, b: Seq<char>)
    requires
        out@.len() > 0,
        e@.len() == 0,
    ensures
        text::byte_len(out@) <= 20000 ==> output_fits(
            CommandEnd::Done { stdout: out, stderr: e, code },
        ),
        out@ == a + b && text::byte_len(a) == 20000 ==> output_fits(
            CommandEnd::Done { stdout: out, stderr: e, code },
        ),
        output_fits(CommandEnd::Failed(e)),
        output_fits(CommandEnd::TimedOut),
{
    text::law_boundaries(a, b, 0);
}

} // verus!
