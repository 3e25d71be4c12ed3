use clif_pad::json::{self, Json};
use clif_pad::mode::AgentMode;
use clif_pad::session::{AgentState, PathParts};
use clif_pad::tool_files::{plan_edit, read_fits, read_window, report_write, EditPlan};
use clif_pad::tool_run::{
    after_find, after_list, after_probe, after_read, after_resolve, after_run, after_search,
    after_symbols, after_write, begin_tool, command_fits, find_arguments, path_refused, plan_tool,
    CommandEnd, DirEntry, SearchHit, Step, SymbolHit, ToolCall,
};

fn args(s: &str) -> Json {
    json::parse(s).unwrap()
}

fn parts(p: &str) -> PathParts {
    PathParts { parts: p.split('/').map(|s| s.as_bytes().to_vec()).collect() }
}

fn plan(name: &str, a: &str) -> Result<ToolCall, String> {
    plan_tool(name, &args(a), "/w", true, AgentMode::Agent)
}

fn code(reply: &str) -> String {
    json::parse(reply).unwrap().get_str("error_code").unwrap_or("").to_string()
}

fn result(reply: &str) -> String {
    json::parse(reply).unwrap().get_str("result").unwrap().to_string()
}

#[test]
fn lines_are_numbered() {
    assert_eq!(read_window("a\nb\nc", None, None), "1|a\n2|b\n3|c");
    assert_eq!(read_window("a\nb\nc", Some(2), Some(1)), "[Lines 2-2 of 3]\n2|b");
    let ten: String = (1..=10).map(|i| format!("l{}\n", i)).collect();
    assert!(read_window(&ten, None, None).starts_with(" 1|l1\n 2|l2"));
    assert_eq!(read_window(&ten, Some(10), None), "[Lines 10-10 of 10]\n10|l10");
    assert_eq!(read_window("a", Some(9), None), "[Lines 2-1 of 1]\n");
    assert_eq!(read_window("", None, None), "");
    assert!(!read_fits("a\nb", Some(2), Some(usize::MAX)));
}

#[test]
fn long_files_are_cut() {
    let long = format!("{}\n", "x".repeat(70_000));
    assert!(read_fits(&long, None, None));
    let shown = read_window(&long, None, None);
    assert!(shown.ends_with("\n\n... (truncated, 1 total lines)"));
    assert_eq!(shown.len(), 60_000 + "\n\n... (truncated, 1 total lines)".len());
    assert!(!read_fits(&format!("a{}", "é".repeat(40_000)), None, None));
}

#[test]
fn writing_is_reported() {
    let r = json::parse(&report_write("a.txt", "1\n2\n", false, 0)).unwrap();
    assert_eq!(r.get_str("summary"), Some("Created a.txt — 2 lines (4 bytes)"));
    assert_eq!(r.get("write").unwrap().get_bool("created"), Some(true));
    assert_eq!(r.get("write").unwrap().get_str("preview"), Some("1\n2"));
    let nine: String = (1..=9).map(|i| format!("{}\n", i)).collect();
    let r = json::parse(&report_write("a.txt", &nine, true, 5)).unwrap();
    assert_eq!(r.get_str("summary"), Some("Overwrote a.txt — 5 → 9 lines (18 bytes)"));
    assert_eq!(
        r.get("write").unwrap().get_str("preview"),
        Some("1\n2\n3\n4\n5\n6\n7\n8\n  ... (1 more lines)")
    );
}

#[test]
fn edits_replace_one_text() {
    match plan_edit("f", "one\ntwo\nthree\n", "two", "2", false) {
        EditPlan::Write { content, reply } => {
            assert_eq!(content, "one\n2\nthree\n");
            let r = json::parse(&reply).unwrap();
            assert_eq!(r.get_str("summary"), Some("Edited f — lines 1-1"));
            assert_eq!(r.get_str("diff_preview"), Some("@@ -1,1 +1,1 @@\n-two\n+2\n"));
        }
        EditPlan::Refused(e) => panic!("{}", e),
    }
}

#[test]
fn edits_match_but_for_whitespace() {
    match plan_edit("f", "fn a() {\n        let x = 1;\n}\n", "fn a() {\n  let x = 1;\n}", "gone", false) {
        EditPlan::Write { content, .. } => assert_eq!(content, "gone\n"),
        EditPlan::Refused(e) => panic!("{}", e),
    }
}

#[test]
fn ambiguous_edits_are_refused() {
    match plan_edit("f", "a a", "a", "b", false) {
        EditPlan::Refused(e) => assert_eq!(code(&e), "MULTIPLE_MATCHES"),
        EditPlan::Write { .. } => panic!("written"),
    }
    match plan_edit("f", "a a", "z", "b", false) {
        EditPlan::Refused(e) => assert_eq!(code(&e), "OLD_STRING_NOT_FOUND"),
        EditPlan::Write { .. } => panic!("written"),
    }
    match plan_edit("f", "a a", "a", "b", true) {
        EditPlan::Write { content, reply } => {
            assert_eq!(content, "b b");
            let r = json::parse(&reply).unwrap();
            assert_eq!(
                r.get_str("summary"),
                Some("Edited f — replaced 2 occurrences (first match lines 1-1)")
            );
        }
        EditPlan::Refused(e) => panic!("{}", e),
    }
}

#[test]
fn readonly_modes_change_nothing() {
    for mode in [AgentMode::Ask, AgentMode::Plan] {
        for name in ["write_file", "edit_file", "run_command"] {
            let e = plan_tool(name, &args("{}"), "/w", true, mode);
            assert_eq!(code(&e.map(|_| ()).unwrap_err()), "MODE_RESTRICTED");
        }
    }
    let e = plan_tool("write_file", &args("{}"), "/w", true, AgentMode::Ask).map(|_| ()).unwrap_err();
    assert_eq!(
        json::parse(&e).unwrap().get_str("message"),
        Some("write_file is disabled in ask mode. Switch to agent mode to edit files.")
    );
}

#[test]
fn refused_plans() {
    assert_eq!(code(&plan("fly", "{}").map(|_| ()).unwrap_err()), "UNKNOWN_TOOL");
    assert_eq!(code(&plan("find_symbol", "{\"name\": \" \"}").map(|_| ()).unwrap_err()), "INVALID_ARGS");
    assert_eq!(code(&plan("todo_write", "{}").map(|_| ()).unwrap_err()), "INVALID_ARGS");
    assert_eq!(
        code(&plan("todo_write", "{\"todos\": [{\"id\": \"\"}]}").map(|_| ()).unwrap_err()),
        "INVALID_TODO_ITEM"
    );
    let none = plan_tool("todo_read", &args("{}"), "/w", false, AgentMode::Agent).map(|_| ()).unwrap_err();
    assert_eq!(code(&none), "SESSION_REQUIRED");
    assert_eq!(code(&path_refused("outside")), "PATH_OUTSIDE_WORKSPACE");
}

#[test]
fn an_existing_file_is_read_before_it_is_changed() {
    let mut state = AgentState::new();
    state.open_session("s", "c");
    let write = plan("write_file", "{\"path\": \"f\", \"content\": \"new\\n\"}").unwrap();
    assert!(matches!(begin_tool(&mut state, Some("s"), &write), Step::Resolve { for_write: true, .. }));
    assert!(matches!(after_resolve(&write), Step::PrepareAndProbe));
    match after_probe(&state, Some("s"), &write, &parts("w/f"), true) {
        Step::Reply(r) => assert_eq!(code(&r), "READ_REQUIRED"),
        _ => panic!("not refused"),
    }
    let read = plan("read_file", "{\"path\": \"f\"}").unwrap();
    match after_read(&mut state, Some("s"), &read, &parts("w/f"), Ok("old\n")) {
        Step::Reply(r) => assert_eq!(result(&r), "1|old"),
        _ => panic!("not answered"),
    }
    assert!(matches!(after_probe(&state, Some("s"), &write, &parts("w/f"), true), Step::ReadText));
    match after_read(&mut state, Some("s"), &write, &parts("w/f"), Ok("old\n")) {
        Step::WriteText { content, reply } => {
            assert_eq!(content, "new\n");
            assert_eq!(after_write(&reply, Ok(())), reply);
            assert_eq!(code(&after_write(&reply, Err("full"))), "WRITE_FAILED");
        }
        _ => panic!("not written"),
    }
}

#[test]
fn a_new_file_is_written_at_once() {
    let state = AgentState::new();
    let write = plan("write_file", "{\"path\": \"f\", \"content\": \"x\"}").unwrap();
    assert!(matches!(
        after_probe(&state, Some("s"), &write, &parts("w/f"), false),
        Step::WriteText { .. }
    ));
}

#[test]
fn a_file_that_cannot_be_read() {
    let mut state = AgentState::new();
    let read = plan("read_file", "{\"path\": \"f\"}").unwrap();
    match after_read(&mut state, Some("s"), &read, &parts("w/f"), Err("gone")) {
        Step::Reply(r) => assert_eq!(code(&r), "READ_FAILED"),
        _ => panic!("not answered"),
    }
    assert!(!state.has_read_file(Some("s"), &parts("w/f")));
}

#[test]
fn listings() {
    let e = |name: &str, is_dir| DirEntry { name: name.to_string(), is_dir };
    let v = vec![e("b.rs", false), e(".git", true), e("src", true), e("target", true), e("a.rs", false)];
    assert_eq!(result(&after_list(Ok(&v))), "a.rs\nb.rs\nsrc/");
    assert_eq!(code(&after_list(Err("no"))), "LIST_FAILED");
}

#[test]
fn searches() {
    let hit = |file: &str, line| SearchHit {
        file: file.to_string(),
        file_name: file.rsplit('/').next().unwrap().to_string(),
        line,
        content: "  let x;  ".to_string(),
    };
    let ignore = vec!["*.log".to_string()];
    let v = vec![hit("src/a.rs", 3), hit("x/b.log", 1)];
    assert_eq!(result(&after_search("x", Ok(&v), &ignore)), "src/a.rs:3: let x;");
    assert_eq!(result(&after_search("x", Ok(&vec![]), &ignore)), "No results found for 'x'");
    assert_eq!(code(&after_search("x", Err("bad"), &ignore)), "SEARCH_FAILED");
    let many: Vec<SearchHit> = (0..80).map(|i| hit("f", i)).collect();
    assert_eq!(result(&after_search("x", Ok(&many), &ignore)).lines().count(), 50);
}

#[test]
fn commands() {
    let done = |o: &str, e: &str, c| CommandEnd::Done { stdout: o.into(), stderr: e.into(), code: c };
    assert_eq!(result(&after_run(&done("out", "", Some(0)))), "out");
    assert_eq!(result(&after_run(&done("out", "err", Some(1)))), "out\n--- stderr ---\nerr");
    assert_eq!(result(&after_run(&done("", "", Some(3)))), "Command completed with exit code 3");
    assert_eq!(result(&after_run(&done("", "", None))), "Command completed with exit code -1");
    assert_eq!(code(&after_run(&CommandEnd::TimedOut)), "COMMAND_TIMEOUT");
    assert_eq!(code(&after_run(&CommandEnd::Failed("x".into()))), "COMMAND_FAILED");
    let long = done(&"x".repeat(20_001), "", Some(0));
    assert!(command_fits(&long));
    assert!(result(&after_run(&long)).ends_with("\n\n... (truncated, 20001 total bytes)"));
    assert!(!command_fits(&done(&format!("a{}", "é".repeat(10_001)), "", None)));
}

#[test]
fn finding_files_and_symbols() {
    let a = find_arguments("/w", "main");
    assert_eq!(a[0], "/w");
    assert!(a.contains(&"*main*".to_string()));
    assert_eq!(result(&after_find("q", Ok(""))), "No files found matching 'q'");
    let many: String = (0..40).map(|i| format!("f{}\n", i)).collect();
    assert_eq!(result(&after_find("f", Ok(&many))).lines().count(), 30);
    assert_eq!(code(&after_find("f", Err("no find"))), "FIND_FAILED");
    let hits = vec![SymbolHit {
        file: "a.rs".into(),
        line: 4,
        kind: "fn".into(),
        name: "go".into(),
        language: "rust".into(),
    }];
    assert_eq!(result(&after_symbols("go", Ok(&hits))), "a.rs:4 — fn go (rust)");
    assert!(result(&after_symbols("go", Ok(&vec![]))).starts_with("No symbols matching 'go' in the index."));
    assert_eq!(code(&after_symbols("go", Err("none"))), "INDEX_NOT_READY");
}

#[test]
fn todo_calls_are_answered_at_once() {
    let mut state = AgentState::new();
    state.open_session("s", "c");
    let w = plan("todo_write", "{\"todos\": [{\"id\": \"1\", \"content\": \"a\", \"status\": \"pending\"}]}").unwrap();
    match begin_tool(&mut state, Some("s"), &w) {
        Step::Reply(r) => {
            let r = json::parse(&r).unwrap();
            let counts = r.get("result").unwrap().get("counts").unwrap();
            assert_eq!(counts.get_u64("total"), Some(1));
            assert_eq!(counts.get_u64("pending"), Some(1));
        }
        _ => panic!("not answered"),
    }
    match begin_tool(&mut state, Some("s"), &plan("todo_read", "{}").unwrap()) {
        Step::Reply(r) => {
            let r = json::parse(&r).unwrap();
            assert_eq!(r.get("result").unwrap().get_u64("total"), Some(1));
        }
        _ => panic!("not answered"),
    }
    match begin_tool(&mut state, Some("s"), &plan("submit", "{\"summary\": \"ok\"}").unwrap()) {
        Step::Reply(r) => assert_eq!(result(&r), "Task complete: ok"),
        _ => panic!("not answered"),
    }
}
