//! The texts that open a conversation: who the agent is, and what is going on in the editor.
use vstd::prelude::*;

use crate::decimal;
use crate::json;
use crate::json::Json;
use crate::json::JsonV;
use crate::mode;
use crate::mode::AgentMode;
use crate::session;
use crate::text;

verus! {

// ---- the system prompt -----------------------------------------------------------------------

/// A file that the project has for the agent, under its heading.
pub open spec fn project_file(heading: Seq<char>, content: Option<Seq<char>>) -> Seq<char> {
    match content {
        Some(c) => heading + c + "\n\n---\n"@,
        None => seq![],
    }
}

/// The static part of the prompt.
pub open spec fn system_prompt(
    workspace: Seq<char>,
    clif: Option<Seq<char>>,
    rules: Option<Seq<char>>,
    agents: Option<Seq<char>>,
    other: Option<(Seq<char>, Seq<char>)>,
) -> Seq<char> {
    "You are an AI coding assistant embedded in ClifPad, a desktop code editor. You help users with their code by reading files, making edits, searching codebases, and running commands.\n\nThe current workspace is: "@ + workspace + "\n\nCRITICAL: You MUST use function/tool calls to take action. NEVER describe or narrate using a tool without actually calling it. If you need to read a file, call read_file. If you need to edit, call edit_file. Do not say \"Let me read the file\" and then write text — call the tool.\n\nOperating rules:\n- Be concise and direct.\n- Always call tools to take action — never simulate or narrate tool usage in plain text.\n- Use tools to gather information before answering.\n- Read relevant files before editing them.\n- Prefer list_files, find_file, and search for exploration before using run_command.\n- When you know the name of a function, class, struct, interface, type, enum, or constant, call find_symbol instead of search — it returns ranked file:line definitions from the local index in one hop.\n- For multi-step or ambiguous tasks, call todo_write to plan the work up front and todo_read to recheck progress; skip it for one-shot edits.\n- Use edit_file for small targeted changes and write_file only for new files or full rewrites.\n- After meaningful code changes, run verification commands when feasible.\n- If a tool returns an error, fix the arguments or approach and retry deliberately.\n- Do not call submit until the user's request is complete or you are clearly blocked.\n- Always confirm destructive operations before proceeding.\n- Stay inside the current workspace when reading, writing, searching, or running commands.\n- Format responses in markdown.\n"@
        + project_file("\n\n## Project Context (from .clif/CLIF.md)\n\n"@, clif)
        + project_file("\n\n## Project Rules (from .clifrules)\n\n"@, rules)
        + project_file("\n\n## Project Instructions (from AGENTS.md)\n\n"@, agents)
        + other_file(other)
}

/// The instruction file of another assistant: its name and its content.
pub open spec fn other_file(other: Option<(Seq<char>, Seq<char>)>) -> Seq<char> {
    match other {
        Some((name, content)) => project_file(
            "\n\n## Project Instructions (from "@ + name + ")\n\n"@,
            Some(content),
        ),
        None => seq![],
    }
}

fn add_file(s: &mut String, heading: &str, content: Option<&str>)
    ensures
        final(s)@ == old(s)@ + project_file(heading@, session::opt_text(content)),
{
    match content {
        Some(c) => {
            let ghost before = s@;
            s.append(heading);
            s.append(c);
            s.append("\n\n---\n");
            proof {
                assert(s@ =~= before + (heading@ + c@ + "\n\n---\n"@));
            }
        },
        None => {
            proof {
                assert(s@ =~= s@ + Seq::<char>::empty());
            }
        },
    }
}

/// The static part of the prompt, with the project's own instruction files where it has them.
/// `other` is the instruction file of another assistant, by name and content.
pub fn build_system_prompt(
    workspace_dir: &str,
    clif: Option<&str>,
    rules: Option<&str>,
    agents: Option<&str>,
    other: Option<(&str, &str)>,
) -> (r: String)
    ensures
        r@ == system_prompt(
            workspace_dir@,
            session::opt_text(clif),
            session::opt_text(rules),
            session::opt_text(agents),
            match other {
                Some((name, content)) => Some((name@, content@)),
                None => None,
            },
        ),
{
    let mut s = text::copy("You are an AI coding assistant embedded in ClifPad, a desktop code editor. You help users with their code by reading files, making edits, searching codebases, and running commands.\n\nThe current workspace is: ");
    s.append(workspace_dir);
    s.append("\n\nCRITICAL: You MUST use function/tool calls to take action. NEVER describe or narrate using a tool without actually calling it. If you need to read a file, call read_file. If you need to edit, call edit_file. Do not say \"Let me read the file\" and then write text — call the tool.\n\nOperating rules:\n- Be concise and direct.\n- Always call tools to take action — never simulate or narrate tool usage in plain text.\n- Use tools to gather information before answering.\n- Read relevant files before editing them.\n- Prefer list_files, find_file, and search for exploration before using run_command.\n- When you know the name of a function, class, struct, interface, type, enum, or constant, call find_symbol instead of search — it returns ranked file:line definitions from the local index in one hop.\n- For multi-step or ambiguous tasks, call todo_write to plan the work up front and todo_read to recheck progress; skip it for one-shot edits.\n- Use edit_file for small targeted changes and write_file only for new files or full rewrites.\n- After meaningful code changes, run verification commands when feasible.\n- If a tool returns an error, fix the arguments or approach and retry deliberately.\n- Do not call submit until the user's request is complete or you are clearly blocked.\n- Always confirm destructive operations before proceeding.\n- Stay inside the current workspace when reading, writing, searching, or running commands.\n- Format responses in markdown.\n");
    add_file(&mut s, "\n\n## Project Context (from .clif/CLIF.md)\n\n", clif);
    add_file(&mut s, "\n\n## Project Rules (from .clifrules)\n\n", rules);
    add_file(&mut s, "\n\n## Project Instructions (from AGENTS.md)\n\n", agents);
    if let Some((name, content)) = other {
        let mut heading = text::cat("\n\n## Project Instructions (from ", name);
        heading.append(")\n\n");
        add_file(&mut s, heading.as_str(), Some(content));
    } else {
        proof {
            assert(s@ =~= s@ + Seq::<char>::empty());
        }
    }
    s
}

// ---- the runtime context ------------------------------------------------------------------------

/// The texts among the items, in order.
pub open spec fn texts_in(items: Seq<JsonV>) -> Seq<Seq<char>>
    decreases items.len(),
{
    if items.len() == 0 {
        seq![]
    } else {
        match items.last().text() {
            Some(s) => texts_in(items.drop_last()).push(s),
            None => texts_in(items.drop_last()),
        }
    }
}

/// A labelled line, if there is something to say.
pub open spec fn labelled(label: Seq<char>, value: Option<Seq<char>>) -> Seq<char> {
    match value {
        Some(v) => label + v + "\n"@,
        None => seq![],
    }
}

pub open spec fn decimal_of(n: Option<i64>) -> Option<Seq<char>> {
    match n {
        Some(i) => Some(decimal::dec_int(i as int)),
        None => None,
    }
}

/// A list of files, if it names any.
pub open spec fn file_list(files: Option<Seq<JsonV>>, most: nat) -> Option<Seq<char>> {
    match files {
        Some(items) => {
            let all = texts_in(items);
            let named = if all.len() > most {
                all.take(most as int)
            } else {
                all
            };
            if named.len() > 0 {
                Some(text::join(named, ", "@))
            } else {
                None
            }
        },
        None => None,
    }
}

/// The text, unless it is empty.
pub open spec fn non_empty(s: Option<Seq<char>>) -> Option<Seq<char>> {
    match s {
        Some(t) => if t.len() > 0 {
            Some(t)
        } else {
            None
        },
        None => None,
    }
}

/// What is told about the pull request under review.
pub open spec fn review_section(pr: JsonV) -> Seq<char> {
    "\n## PR Under Review\n\n"@
        + labelled("PR number: #"@, decimal_of(pr.get_sint("number"@)))
        + labelled("Title: "@, pr.get_text("title"@))
        + labelled("Author: @"@, pr.get_text("author"@))
        + labelled("URL: "@, pr.get_text("url"@))
        + labelled("Head branch: "@, pr.get_text("head_ref"@))
        + labelled("Base branch: "@, pr.get_text("base_ref"@))
        + labelled("Classification tier: "@, pr.get_text("tier"@))
        + labelled("Classification score: "@, decimal_of(pr.get_sint("score"@)))
        + labelled("Hard override: "@, pr.get_text("hard_override"@))
        + labelled("Review findings so far: "@, decimal_of(pr.get_sint("findings_count"@)))
        + labelled("Signals summary: "@, non_empty(pr.get_text("signals_summary"@)))
        + labelled("Touched files: "@, file_list(pr.get_items("touched_files"@), 40))
        + "\nGuidance: When the user asks about 'this PR' or 'this branch', assume they mean the PR above. Use `gh pr diff <number>`, `gh pr view <number>`, or `git log <base>..<head>` via run_command when they need actual diffs. Prefer reading files in the repo checkout for context; do not assume the working tree is already on the PR branch unless the current git branch matches the head branch above.\n"@
}

/// What the editor's context adds.
pub open spec fn context_section(context: Option<JsonV>) -> Seq<char> {
    match context {
        Some(v) => labelled("\nCurrently active file: "@, v.get_text("activeFile"@)) + labelled(
            "Current git branch: "@,
            v.get_text("gitBranch"@),
        ) + labelled(
            "\nAttached files for context: "@,
            file_list(v.get_items("files"@), usize::MAX as nat),
        ) + (match v.get("reviewPr"@) {
            Some(pr) => review_section(pr),
            None => seq![],
        }),
        None => seq![],
    }
}

pub open spec fn mode_section(m: AgentMode) -> Seq<char> {
    "## Interaction Mode\n\n"@ + "Current mode: "@ + mode::mode_name(m) + "\n"@ + match m {
        AgentMode::Ask => "Constraint: Ask mode is read-only. Do not call edit_file, write_file, or run_command.\n"@,
        AgentMode::Plan => "Constraint: Plan mode is read-only. Explore and produce a plan without editing files or running commands.\n"@,
        AgentMode::Agent => seq![],
    }
}

/// The part of the prompt that changes from turn to turn.
pub open spec fn runtime_context(git: Seq<char>, context: Option<JsonV>) -> Seq<char> {
    mode_section(mode::mode_in(context)) + "## Current Git State\n\n"@ + git + context_section(
        context,
    )
}

pub open spec fn opt_view(j: Option<Json>) -> Option<JsonV> {
    match j {
        Some(v) => Some(v@),
        None => None,
    }
}

/// The texts among the items.
pub fn strings_of(items: &Vec<Json>) -> (r: Vec<String>)
    ensures
        text::texts(r@) == texts_in(json::views(items@)),
{
    let ghost all = json::views(items@);
    let mut out: Vec<String> = Vec::new();
    let mut i: usize = 0;
    proof {
        assert(all.take(0) =~= Seq::<JsonV>::empty());
        assert(text::texts(out@) =~= Seq::<Seq<char>>::empty());
    }
    while i < items.len()
        invariant
            all == json::views(items@),
            i <= items@.len(),
            text::texts(out@) == texts_in(all.take(i as int)),
        decreases items.len() - i,
    {
        proof {
            assert(all.take(i as int + 1).drop_last() =~= all.take(i as int));
            assert(all.take(i as int + 1).last() == items@[i as int]@);
        }
        let ghost before = out@;
        if let Some(s) = items[i].as_str() {
            out.push(text::copy(s));
            proof {
                assert(text::texts(out@) =~= text::texts(before).push(s@));
            }
        }
        i = i + 1;
    }
    proof {
        assert(all.take(i as int) =~= all);
    }
    out
}

fn add_text(s: &mut String, label: &str, value: Option<&str>)
    ensures
        final(s)@ == old(s)@ + labelled(label@, session::opt_text(value)),
{
    match value {
        Some(v) => {
            let ghost before = s@;
            s.append(label);
            s.append(v);
            s.append("\n");
            proof {
                assert(s@ =~= before + (label@ + v@ + "\n"@));
            }
        },
        None => {
            proof {
                assert(s@ =~= s@ + Seq::<char>::empty());
            }
        },
    }
}

fn add_number(s: &mut String, label: &str, value: Option<i64>)
    ensures
        final(s)@ == old(s)@ + labelled(label@, decimal_of(value)),
{
    match value {
        Some(n) => {
            let d = decimal::dec_i64(n);
            add_text(s, label, Some(d.as_str()));
        },
        None => {
            add_text(s, label, None);
        },
    }
}

fn add_files(s: &mut String, label: &str, files: Option<&Vec<Json>>, most: usize)
    ensures
        final(s)@ == old(s)@ + labelled(
            label@,
            file_list(
                match files {
                    Some(v) => Some(json::views(v@)),
                    None => None,
                },
                most as nat,
            ),
        ),
{
    if let Some(v) = files {
        let all = strings_of(v);
        let n: usize = if all.len() > most {
            most
        } else {
            all.len()
        };
        proof {
            assert(text::texts(all@).len() == all@.len());
            assert(text::texts(all@).subrange(0, n as int) =~= if all@.len() > most {
                text::texts(all@).take(most as int)
            } else {
                text::texts(all@)
            });
        }
        if n > 0 {
            let joined = text::join_range(&all, 0, n, ", ");
            add_text(s, label, Some(joined.as_str()));
            return;
        }
    }
    add_text(s, label, None);
}

fn add_review(s: &mut String, pr: &Json)
    ensures
        final(s)@ == old(s)@ + review_section(pr@),
{
    let ghost before = s@;
    let mut part = text::copy("\n## PR Under Review\n\n");
    add_number(&mut part, "PR number: #", pr.get_i64("number"));
    add_text(&mut part, "Title: ", pr.get_str("title"));
    add_text(&mut part, "Author: @", pr.get_str("author"));
    add_text(&mut part, "URL: ", pr.get_str("url"));
    add_text(&mut part, "Head branch: ", pr.get_str("head_ref"));
    add_text(&mut part, "Base branch: ", pr.get_str("base_ref"));
    add_text(&mut part, "Classification tier: ", pr.get_str("tier"));
    add_number(&mut part, "Classification score: ", pr.get_i64("score"));
    add_text(&mut part, "Hard override: ", pr.get_str("hard_override"));
    add_number(&mut part, "Review findings so far: ", pr.get_i64("findings_count"));
    let signals = match pr.get_str("signals_summary") {
        Some(t) => if t.is_empty() {
            None
        } else {
            Some(t)
        },
        None => None,
    };
    add_text(&mut part, "Signals summary: ", signals);
    add_files(&mut part, "Touched files: ", pr.get_array("touched_files"), 40);
    part.append("\nGuidance: When the user asks about 'this PR' or 'this branch', assume they mean the PR above. Use `gh pr diff <number>`, `gh pr view <number>`, or `git log <base>..<head>` via run_command when they need actual diffs. Prefer reading files in the repo checkout for context; do not assume the working tree is already on the PR branch unless the current git branch matches the head branch above.\n");
    proof {
        assert(part@ == review_section(pr@));
    }
    s.append(part.as_str());
}

fn add_context(s: &mut String, context: &Option<Json>)
    ensures
        final(s)@ == old(s)@ + context_section(opt_view(*context)),
{
    let mut part = String::new();
    proof {
        assert(part@ =~= Seq::<char>::empty());
    }
    if let Some(v) = context {
        add_text(&mut part, "\nCurrently active file: ", v.get_str("activeFile"));
        proof {
            assert(part@ =~= labelled("\nCurrently active file: "@, v@.get_text("activeFile"@)));
        }
        add_text(&mut part, "Current git branch: ", v.get_str("gitBranch"));
        add_files(
            &mut part,
            "\nAttached files for context: ",
            v.get_array("files"),
            usize::MAX,
        );
        match v.get("reviewPr") {
            Some(pr) => {
                add_review(&mut part, pr);
            },
            None => {
                proof {
                    assert(part@ =~= part@ + Seq::<char>::empty());
                }
            },
        }
    }
    proof {
        assert(part@ == context_section(opt_view(*context)));
    }
    s.append(part.as_str());
}

/// The part of the prompt that changes from turn to turn, for a context value.
pub fn runtime_context_for(git_context: &str, context: &Option<Json>) -> (r: String)
    ensures
        r@ == runtime_context(git_context@, opt_view(*context)),
{
    let m = mode::mode_of(context);
    let mut s = text::copy("## Interaction Mode\n\n");
    s.append("Current mode: ");
    s.append(m.as_str());
    s.append("\n");
    match m {
        AgentMode::Ask => {
            s.append("Constraint: Ask mode is read-only. Do not call edit_file, write_file, or run_command.\n");
        },
        AgentMode::Plan => {
            s.append("Constraint: Plan mode is read-only. Explore and produce a plan without editing files or running commands.\n");
        },
        AgentMode::Agent => {
            proof {
                assert(s@ =~= s@ + Seq::<char>::empty());
            }
        },
    }
    proof {
        assert(s@ == mode_section(m));
    }
    s.append("## Current Git State\n\n");
    s.append(git_context);
    add_context(&mut s, context);
    s
}

/// The part of the prompt that changes from turn to turn: the mode, the state of the
/// repository, and what the editor's context says.
pub fn build_runtime_context(git_context: &str, context: Option<&str>) -> (r: String)
    ensures
        r@ == runtime_context(git_context@, mode::context_value(session::opt_text(context))),
{
    runtime_context_for(git_context, &mode::read_context(context))
}

// ---- attached files ---------------------------------------------------------------------------------

/// The files that a context attaches.
pub open spec fn attached(context: Option<JsonV>) -> Seq<Seq<char>> {
    match context {
        Some(v) => match v.get_items("files"@) {
            Some(items) => texts_in(items),
            None => seq![],
        },
        None => seq![],
    }
}

pub fn context_files(context: &Option<Json>) -> (r: Vec<String>)
    ensures
        text::texts(r@) == attached(opt_view(*context)),
{
    if let Some(v) = context {
        if let Some(items) = v.get_array("files") {
            return strings_of(items);
        }
    }
    let none: Vec<String> = Vec::new();
    proof {
        assert(text::texts(none@) =~= Seq::<Seq<char>>::empty());
    }
    none
}

/// The files that the context of a message attaches.
pub fn context_files_from_json(context: Option<&str>) -> (r: Vec<String>)
    ensures
        text::texts(r@) == attached(mode::context_value(session::opt_text(context))),
{
    context_files(&mode::read_context(context))
}

/// The piece stands in the text, unbroken.
pub open spec fn tells(whole: Seq<char>, piece: Seq<char>) -> bool {
    exists|before: Seq<char>, after: Seq<char>| whole == #[trigger] (before + piece + after)
}

proof fn lemma_tells(whole: Seq<char>, before: Seq<char>, piece: Seq<char>, after: Seq<char>)
    requires
        whole =~= before + piece + after,
    ensures
        tells(whole, piece),
{
}

proof fn lemma_tells_in(a: Seq<char>, b: Seq<char>, x: Seq<char>)
    ensures
        tells(a, x) || tells(b, x) ==> tells(a + b, x),
        tells(x, x),
{
    lemma_tells(x, Seq::empty(), x, Seq::empty());
    if tells(a, x) {
        let (before, after) = choose|before: Seq<char>, after: Seq<char>|
            a == #[trigger] (before + x + after);
        lemma_tells(a + b, before, x, after + b);
    }
    if tells(b, x) {
        let (before, after) = choose|before: Seq<char>, after: Seq<char>|
            b == #[trigger] (before + x + after);
        lemma_tells(a + b, a + before, x, after);
    }
}

proof fn lemma_review_tells(pr: JsonV, x: Seq<char>)
    ensures
        tells(x, x),
        tells(labelled("PR number: #"@, decimal_of(pr.get_sint("number"@))), x) ==> tells(
            review_section(pr),
            x,
        ),
        tells(labelled("Title: "@, pr.get_text("title"@)), x) ==> tells(
            review_section(pr),
            x,
        ),
        tells(labelled("Author: @"@, pr.get_text("author"@)), x) ==> tells(
            review_section(pr),
            x,
        ),
        tells(labelled("URL: "@, pr.get_text("url"@)), x) ==> tells(
            review_section(pr),
            x,
        ),
        tells(labelled("Head branch: "@, pr.get_text("head_ref"@)), x) ==> tells(
            review_section(pr),
            x,
        ),
        tells(labelled("Base branch: "@, pr.get_text("base_ref"@)), x) ==> tells(
            review_section(pr),
            x,
        ),
        tells(labelled("Classification tier: "@, pr.get_text("tier"@)), x) ==> tells(
            review_section(pr),
            x,
        ),
        tells(labelled("Classification score: "@, decimal_of(pr.get_sint("score"@))), x) ==> tells(
            review_section(pr),
            x,
        ),
        tells(labelled("Hard override: "@, pr.get_text("hard_override"@)), x) ==> tells(
            review_section(pr),
            x,
        ),
        tells(labelled("Review findings so far: "@, decimal_of(pr.get_sint("findings_count"@))), x) ==> tells(
            review_section(pr),
            x,
        ),
        tells(labelled("Signals summary: "@, non_empty(pr.get_text("signals_summary"@))), x) ==> tells(
            review_section(pr),
            x,
        ),
        tells(labelled("Touched files: "@, file_list(pr.get_items("touched_files"@), 40)), x) ==> tells(
            review_section(pr),
            x,
        ),
{
    let s0 = "\n## PR Under Review\n\n"@;
    let b0 = labelled("PR number: #"@, decimal_of(pr.get_sint("number"@)));
    let s1 = s0 + b0;
    lemma_tells_in(s0, b0, x);
    let b1 = labelled("Title: "@, pr.get_text("title"@));
    let s2 = s1 + b1;
    lemma_tells_in(s1, b1, x);
    let b2 = labelled("Author: @"@, pr.get_text("author"@));
    let s3 = s2 + b2;
    lemma_tells_in(s2, b2, x);
    let b3 = labelled("URL: "@, pr.get_text("url"@));
    let s4 = s3 + b3;
    lemma_tells_in(s3, b3, x);
    let b4 = labelled("Head branch: "@, pr.get_text("head_ref"@));
    let s5 = s4 + b4;
    lemma_tells_in(s4, b4, x);
    let b5 = labelled("Base branch: "@, pr.get_text("base_ref"@));
    let s6 = s5 + b5;
    lemma_tells_in(s5, b5, x);
    let b6 = labelled("Classification tier: "@, pr.get_text("tier"@));
    let s7 = s6 + b6;
    lemma_tells_in(s6, b6, x);
    let b7 = labelled("Classification score: "@, decimal_of(pr.get_sint("score"@)));
    let s8 = s7 + b7;
    lemma_tells_in(s7, b7, x);
    let b8 = labelled("Hard override: "@, pr.get_text("hard_override"@));
    let s9 = s8 + b8;
    lemma_tells_in(s8, b8, x);
    let b9 = labelled("Review findings so far: "@, decimal_of(pr.get_sint("findings_count"@)));
    let s10 = s9 + b9;
    lemma_tells_in(s9, b9, x);
    let b10 = labelled("Signals summary: "@, non_empty(pr.get_text("signals_summary"@)));
    let s11 = s10 + b10;
    lemma_tells_in(s10, b10, x);
    let b11 = labelled("Touched files: "@, file_list(pr.get_items("touched_files"@), 40));
    let s12 = s11 + b11;
    lemma_tells_in(s11, b11, x);
    lemma_tells_in(s12, "\nGuidance: When the user asks about 'this PR' or 'this branch', assume they mean the PR above. Use `gh pr diff <number>`, `gh pr view <number>`, or `git log <base>..<head>` via run_command when they need actual diffs. Prefer reading files in the repo checkout for context; do not assume the working tree is already on the PR branch unless the current git branch matches the head branch above.\n"@, x);
}

/// The prompt names the workspace, and each file that the project has for the agent stands in it
/// whole, under its heading; the files come in a fixed order, and a project without any adds
/// nothing.
pub proof fn law_system_prompt(
    workspace: Seq<char>,
    clif: Seq<char>,
    rules: Seq<char>,
    agents: Seq<char>,
    name: Seq<char>,
    content: Seq<char>,
)
    ensures
        ({
            let none = None::<Seq<char>>;
            let no_other = None::<(Seq<char>, Seq<char>)>;
            let bare = system_prompt(workspace, none, none, none, no_other);
            let a = "\n\n## Project Context (from .clif/CLIF.md)\n\n"@ + clif + "\n\n---\n"@;
            let b = "\n\n## Project Rules (from .clifrules)\n\n"@ + rules + "\n\n---\n"@;
            let c = "\n\n## Project Instructions (from AGENTS.md)\n\n"@ + agents + "\n\n---\n"@;
            let d = "\n\n## Project Instructions (from "@ + name + ")\n\n"@ + content
                + "\n\n---\n"@;
            &&& tells(bare, "\n\nThe current workspace is: "@ + workspace + "\n\n"@)
            &&& system_prompt(workspace, Some(clif), none, none, no_other) == bare + a
            &&& system_prompt(workspace, none, Some(rules), none, no_other) == bare + b
            &&& system_prompt(workspace, none, none, Some(agents), no_other) == bare + c
            &&& system_prompt(workspace, none, none, none, Some((name, content))) == bare + d
            &&& system_prompt(
                workspace,
                Some(clif),
                Some(rules),
                Some(agents),
                Some((name, content)),
            ) == bare + a + b + c + d
        }),
{
    let none = None::<Seq<char>>;
    let no_other = None::<(Seq<char>, Seq<char>)>;
    let bare = system_prompt(workspace, none, none, none, no_other);
    let head = "You are an AI coding assistant embedded in ClifPad, a desktop code editor. You help users with their code by reading files, making edits, searching codebases, and running commands.\n\nThe current workspace is: "@;
    let rest = "\n\nCRITICAL: You MUST use function/tool calls to take action. NEVER describe or narrate using a tool without actually calling it. If you need to read a file, call read_file. If you need to edit, call edit_file. Do not say \"Let me read the file\" and then write text — call the tool.\n\nOperating rules:\n- Be concise and direct.\n- Always call tools to take action — never simulate or narrate tool usage in plain text.\n- Use tools to gather information before answering.\n- Read relevant files before editing them.\n- Prefer list_files, find_file, and search for exploration before using run_command.\n- When you know the name of a function, class, struct, interface, type, enum, or constant, call find_symbol instead of search — it returns ranked file:line definitions from the local index in one hop.\n- For multi-step or ambiguous tasks, call todo_write to plan the work up front and todo_read to recheck progress; skip it for one-shot edits.\n- Use edit_file for small targeted changes and write_file only for new files or full rewrites.\n- After meaningful code changes, run verification commands when feasible.\n- If a tool returns an error, fix the arguments or approach and retry deliberately.\n- Do not call submit until the user's request is complete or you are clearly blocked.\n- Always confirm destructive operations before proceeding.\n- Stay inside the current workspace when reading, writing, searching, or running commands.\n- Format responses in markdown.\n"@;
    reveal_strlit("You are an AI coding assistant embedded in ClifPad, a desktop code editor. You help users with their code by reading files, making edits, searching codebases, and running commands.\n\nThe current workspace is: ");
    reveal_strlit("\n\nThe current workspace is: ");
    reveal_strlit("\n\n");
    reveal_strlit("\n\nCRITICAL: You MUST use function/tool calls to take action. NEVER describe or narrate using a tool without actually calling it. If you need to read a file, call read_file. If you need to edit, call edit_file. Do not say \"Let me read the file\" and then write text — call the tool.\n\nOperating rules:\n- Be concise and direct.\n- Always call tools to take action — never simulate or narrate tool usage in plain text.\n- Use tools to gather information before answering.\n- Read relevant files before editing them.\n- Prefer list_files, find_file, and search for exploration before using run_command.\n- When you know the name of a function, class, struct, interface, type, enum, or constant, call find_symbol instead of search — it returns ranked file:line definitions from the local index in one hop.\n- For multi-step or ambiguous tasks, call todo_write to plan the work up front and todo_read to recheck progress; skip it for one-shot edits.\n- Use edit_file for small targeted changes and write_file only for new files or full rewrites.\n- After meaningful code changes, run verification commands when feasible.\n- If a tool returns an error, fix the arguments or approach and retry deliberately.\n- Do not call submit until the user's request is complete or you are clearly blocked.\n- Always confirm destructive operations before proceeding.\n- Stay inside the current workspace when reading, writing, searching, or running commands.\n- Format responses in markdown.\n");
    let cut = head.len() - "\n\nThe current workspace is: "@.len();
    assert(head.skip(cut) =~= "\n\nThe current workspace is: "@);
    assert(head =~= head.take(cut) + "\n\nThe current workspace is: "@);
    assert(rest =~= "\n\n"@ + rest.skip(2));
    assert(bare =~= head + workspace + rest);
    lemma_tells(
        bare,
        head.take(cut),
        "\n\nThe current workspace is: "@ + workspace + "\n\n"@,
        rest.skip(2),
    );
    let a = "\n\n## Project Context (from .clif/CLIF.md)\n\n"@ + clif + "\n\n---\n"@;
    let b = "\n\n## Project Rules (from .clifrules)\n\n"@ + rules + "\n\n---\n"@;
    let c = "\n\n## Project Instructions (from AGENTS.md)\n\n"@ + agents + "\n\n---\n"@;
    let d = "\n\n## Project Instructions (from "@ + name + ")\n\n"@ + content + "\n\n---\n"@;
    assert(system_prompt(workspace, Some(clif), none, none, no_other) =~= bare + a);
    assert(system_prompt(workspace, none, Some(rules), none, no_other) =~= bare + b);
    assert(system_prompt(workspace, none, none, Some(agents), no_other) =~= bare + c);
    assert(system_prompt(workspace, none, none, none, Some((name, content))) =~= bare + d);
    assert(system_prompt(workspace, Some(clif), Some(rules), Some(agents), Some((name, content)))
        =~= bare + a + b + c + d);
}

/// Every text member of the pull request under review is told on a line of its own, whole.
pub proof fn law_review_is_told(pr: JsonV, v: Seq<char>)
    ensures
        pr.get_text("title"@) == Some(v) ==> tells(review_section(pr), "Title: "@ + v + "\n"@),
        pr.get_text("author"@) == Some(v) ==> tells(review_section(pr), "Author: @"@ + v + "\n"@),
        pr.get_text("url"@) == Some(v) ==> tells(review_section(pr), "URL: "@ + v + "\n"@),
        pr.get_text("head_ref"@) == Some(v) ==> tells(
            review_section(pr),
            "Head branch: "@ + v + "\n"@,
        ),
        pr.get_text("base_ref"@) == Some(v) ==> tells(
            review_section(pr),
            "Base branch: "@ + v + "\n"@,
        ),
        pr.get_text("tier"@) == Some(v) ==> tells(
            review_section(pr),
            "Classification tier: "@ + v + "\n"@,
        ),
        pr.get_text("hard_override"@) == Some(v) ==> tells(
            review_section(pr),
            "Hard override: "@ + v + "\n"@,
        ),
        pr.get_text("signals_summary"@) == Some(v) && v.len() > 0 ==> tells(
            review_section(pr),
            "Signals summary: "@ + v + "\n"@,
        ),
{
    lemma_review_tells(pr, "Title: "@ + v + "\n"@);
    lemma_review_tells(pr, "Author: @"@ + v + "\n"@);
    lemma_review_tells(pr, "URL: "@ + v + "\n"@);
    lemma_review_tells(pr, "Head branch: "@ + v + "\n"@);
    lemma_review_tells(pr, "Base branch: "@ + v + "\n"@);
    lemma_review_tells(pr, "Classification tier: "@ + v + "\n"@);
    lemma_review_tells(pr, "Hard override: "@ + v + "\n"@);
    lemma_review_tells(pr, "Signals summary: "@ + v + "\n"@);
}

/// The numbers of the pull request under review are told in decimal, and its first forty files.
pub proof fn law_review_numbers_are_told(pr: JsonV, n: i64, files: Seq<JsonV>)
    ensures
        pr.get_sint("number"@) == Some(n) ==> tells(
            review_section(pr),
            "PR number: #"@ + decimal::dec_int(n as int) + "\n"@,
        ),
        pr.get_sint("score"@) == Some(n) ==> tells(
            review_section(pr),
            "Classification score: "@ + decimal::dec_int(n as int) + "\n"@,
        ),
        pr.get_sint("findings_count"@) == Some(n) ==> tells(
            review_section(pr),
            "Review findings so far: "@ + decimal::dec_int(n as int) + "\n"@,
        ),
        pr.get_items("touched_files"@) == Some(files) && 0 < texts_in(files).len() <= 40 ==> tells(
            review_section(pr),
            "Touched files: "@ + text::join(texts_in(files), ", "@) + "\n"@,
        ),
        pr.get_items("touched_files"@) == Some(files) && 40 < texts_in(files).len() ==> tells(
            review_section(pr),
            "Touched files: "@ + text::join(texts_in(files).take(40), ", "@) + "\n"@,
        ),
{
    let d = decimal::dec_int(n as int);
    let all = texts_in(files);
    lemma_review_tells(pr, "PR number: #"@ + d + "\n"@);
    lemma_review_tells(pr, "Classification score: "@ + d + "\n"@);
    lemma_review_tells(pr, "Review findings so far: "@ + d + "\n"@);
    lemma_review_tells(pr, "Touched files: "@ + text::join(all, ", "@) + "\n"@);
    lemma_review_tells(pr, "Touched files: "@ + text::join(all.take(40), ", "@) + "\n"@);
}

proof fn lemma_context_tells(git: Seq<char>, v: JsonV, x: Seq<char>)
    ensures
        tells(x, x),
        tells(labelled("\nCurrently active file: "@, v.get_text("activeFile"@)), x) ==> tells(
            runtime_context(git, Some(v)),
            x,
        ),
        tells(labelled("Current git branch: "@, v.get_text("gitBranch"@)), x) ==> tells(
            runtime_context(git, Some(v)),
            x,
        ),
        tells(
            labelled(
                "\nAttached files for context: "@,
                file_list(v.get_items("files"@), usize::MAX as nat),
            ),
            x,
        ) ==> tells(runtime_context(git, Some(v)), x),
        v.get("reviewPr"@) is Some && tells(review_section(v.get("reviewPr"@)->0), x) ==> tells(
            runtime_context(git, Some(v)),
            x,
        ),
{
    let b0 = labelled("\nCurrently active file: "@, v.get_text("activeFile"@));
    let b1 = labelled("Current git branch: "@, v.get_text("gitBranch"@));
    let b2 = labelled(
        "\nAttached files for context: "@,
        file_list(v.get_items("files"@), usize::MAX as nat),
    );
    let b3 = match v.get("reviewPr"@) {
        Some(pr) => review_section(pr),
        None => seq![],
    };
    lemma_tells_in(b0, b1, x);
    lemma_tells_in(b0 + b1, b2, x);
    lemma_tells_in(b0 + b1 + b2, b3, x);
    let head = mode_section(mode::mode_in(Some(v))) + "## Current Git State\n\n"@ + git;
    lemma_tells_in(head, b0 + b1 + b2 + b3, x);
}

/// The context of a turn tells the state of the repository, the active file, the branch, the files
/// attached and the pull request under review, each whole; without a context it ends with the state
/// of the repository.
pub proof fn law_context_is_told(git: Seq<char>, v: JsonV, s: Seq<char>, files: Seq<JsonV>, pr: JsonV)
    ensures
        tells(runtime_context(git, Some(v)), "## Current Git State\n\n"@ + git),
        exists|before: Seq<char>|
            runtime_context(git, None) == #[trigger] (before + "## Current Git State\n\n"@ + git),
        v.get_text("activeFile"@) == Some(s) ==> tells(
            runtime_context(git, Some(v)),
            "\nCurrently active file: "@ + s + "\n"@,
        ),
        v.get_text("gitBranch"@) == Some(s) ==> tells(
            runtime_context(git, Some(v)),
            "Current git branch: "@ + s + "\n"@,
        ),
        v.get_items("files"@) == Some(files) && 0 < texts_in(files).len() <= usize::MAX ==> tells(
            runtime_context(git, Some(v)),
            "\nAttached files for context: "@ + text::join(texts_in(files), ", "@) + "\n"@,
        ),
        v.get("reviewPr"@) == Some(pr) ==> tells(runtime_context(git, Some(v)), review_section(pr)),
{
    let m = mode_section(mode::mode_in(Some(v)));
    let g = "## Current Git State\n\n"@ + git;
    lemma_tells(runtime_context(git, Some(v)), m, g, context_section(Some(v)));
    let n = mode_section(mode::mode_in(None));
    assert(runtime_context(git, None) =~= n + "## Current Git State\n\n"@ + git);
    lemma_context_tells(git, v, "\nCurrently active file: "@ + s + "\n"@);
    lemma_context_tells(git, v, "Current git branch: "@ + s + "\n"@);
    lemma_context_tells(
        git,
        v,
        "\nAttached files for context: "@ + text::join(texts_in(files), ", "@) + "\n"@,
    );
    lemma_context_tells(git, v, review_section(pr));
}

/// Every turn names its mode, and a mode that may only read says so.
pub proof fn law_mode_is_told(git: Seq<char>, context: Option<JsonV>)
    ensures
        mode::mode_in(context) == AgentMode::Ask ==> exists|rest: Seq<char>|
            runtime_context(git, context) == #[trigger] ("## Interaction Mode\n\n"@
                + "Current mode: "@ + "ask"@ + "\n"@
                + "Constraint: Ask mode is read-only. Do not call edit_file, write_file, or run_command.\n"@
                + rest),
        mode::mode_in(context) == AgentMode::Plan ==> exists|rest: Seq<char>|
            runtime_context(git, context) == #[trigger] ("## Interaction Mode\n\n"@
                + "Current mode: "@ + "plan"@ + "\n"@
                + "Constraint: Plan mode is read-only. Explore and produce a plan without editing files or running commands.\n"@
                + rest),
        mode::mode_in(context) == AgentMode::Agent ==> exists|rest: Seq<char>|
            runtime_context(git, context) == #[trigger] ("## Interaction Mode\n\n"@
                + "Current mode: "@ + "agent"@ + "\n"@ + rest),
{
    let rest = "## Current Git State\n\n"@ + git + context_section(context);
    match mode::mode_in(context) {
        AgentMode::Ask => {
            assert(runtime_context(git, context) =~= "## Interaction Mode\n\n"@ + "Current mode: "@
                + "ask"@ + "\n"@
                + "Constraint: Ask mode is read-only. Do not call edit_file, write_file, or run_command.\n"@
                + rest);
        },
        AgentMode::Plan => {
            assert(runtime_context(git, context) =~= "## Interaction Mode\n\n"@ + "Current mode: "@
                + "plan"@ + "\n"@
                + "Constraint: Plan mode is read-only. Explore and produce a plan without editing files or running commands.\n"@
                + rest);
        },
        AgentMode::Agent => {
            assert(runtime_context(git, context) =~= "## Interaction Mode\n\n"@ + "Current mode: "@
                + "agent"@ + "\n"@ + rest);
        },
    }
}

proof fn lemma_texts_in_push(items: Seq<JsonV>, j: JsonV)
    ensures
        texts_in(items.push(j)) == (match j {
            JsonV::Text(s) => texts_in(items).push(s),
            _ => texts_in(items),
        }),
{
    assert(items.push(j).drop_last() =~= items);
}

/// The files attached are the texts among the items of the context, all of them and in order.
pub proof fn law_attached_files(v: JsonV, items: Seq<JsonV>)
    ensures
        attached(None) == Seq::<Seq<char>>::empty(),
        v.get_items("files"@) is None ==> attached(Some(v)) == Seq::<Seq<char>>::empty(),
        v.get_items("files"@) == Some(items) ==> attached(Some(v)) == items.filter(
            |j: JsonV| j is Text,
        ).map_values(|j: JsonV| j->Text_0),
{
    lemma_texts_are_filtered(items);
}

proof fn lemma_texts_are_filtered(items: Seq<JsonV>)
    ensures
        texts_in(items) == items.filter(|j: JsonV| j is Text).map_values(|j: JsonV| j->Text_0),
    decreases items.len(),
{
    let is_text = |j: JsonV| j is Text;
    let of = |j: JsonV| j->Text_0;
    reveal(Seq::filter);
    if items.len() > 0 {
        lemma_texts_are_filtered(items.drop_last());
        lemma_texts_in_push(items.drop_last(), items.last());
        assert(items =~= items.drop_last().push(items.last()));
        let f = items.drop_last().filter(is_text);
        if items.last() is Text {
            assert(items.filter(is_text) =~= f.push(items.last()));
            assert(f.push(items.last()).map_values(of) =~= f.map_values(of).push(
                items.last()->Text_0,
            ));
        } else {
            assert(items.filter(is_text) =~= f);
        }
    } else {
        assert(items.filter(is_text) =~= items);
        assert(items.map_values(of) =~= Seq::<Seq<char>>::empty());
        assert(texts_in(items) =~= Seq::<Seq<char>>::empty());
    }
}

} // verus!
