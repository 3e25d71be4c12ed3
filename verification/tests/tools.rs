use clif_pad::calls::{cap_local_result, cap_result, can_cap, prepare_call, readonly_prefix, repair_json};
use clif_pad::json::{self, Json};
use clif_pad::mode::{mode_from_context, AgentMode};
use clif_pad::prompt::{build_runtime_context, build_system_prompt, context_files_from_json};
use clif_pad::reply::{tool_error, tool_text};
use clif_pad::search::{count_matches, normalized, replaced_all, replaced_first};
use clif_pad::stream::{CallPart, StreamEvent, StreamState};
use clif_pad::tools::{
    local_tool_instructions, strip_openai_fields, tool_definitions, tool_status_label,
    validate_tool_args,
};
use clif_pad::workspace::{
    ensure_path_in_workspace, get_provider_url, is_clif_ignored, keep_entry, load_api_key,
    parse_clif_ignore, resolve_path, workspace_is_valid, workspace_root_error, ResolvedPath, Snapshot,
    Target,
};
use clif_pad::session::PathParts;

fn args(s: &str) -> Json {
    json::parse(s).unwrap()
}

#[test]
fn readonly_modes_hide_mutating_tools() {
    let agent = local_tool_instructions(AgentMode::Agent);
    assert!(agent.contains("write_file") && agent.contains("run_command"));

    for mode in [AgentMode::Ask, AgentMode::Plan] {
        let s = local_tool_instructions(mode);
        assert!(s.contains("read_file"), "read_file should stay available");
        assert!(!s.contains("### write_file"), "{mode:?} exposed write_file");
        assert!(!s.contains("### run_command"), "{mode:?} exposed run_command");
    }
}

#[test]
fn every_offered_tool_is_known() {
    let defs = tool_definitions();
    assert_eq!(defs.len(), 11);
    for d in &defs {
        let name = d.get("function").and_then(|f| f.get_str("name")).unwrap();
        let e = validate_tool_args(name, &args("{\"surprise\": 1}"));
        assert!(e.is_err());
        assert!(!e.unwrap_err().starts_with("Unknown tool"));
    }
}

#[test]
fn strictness_is_only_for_the_provider_that_knows_it() {
    let raw = tool_definitions();
    assert!(raw.iter().any(|t| t.get("function").map_or(false, |f| f.get("strict").is_some())));
    let stripped = strip_openai_fields(tool_definitions());
    assert!(stripped.iter().all(|t| t.get("function").map_or(true, |f| f.get("strict").is_none())));
}

#[test]
fn arguments_are_checked() {
    assert_eq!(validate_tool_args("read_file", &args("{\"path\": \"a\"}")), Ok(()));
    assert_eq!(
        validate_tool_args("read_file", &args("[]")),
        Err("Tool arguments must be a JSON object".to_string())
    );
    assert_eq!(
        validate_tool_args("fly", &args("{}")),
        Err("Unknown tool: fly".to_string())
    );
    assert!(validate_tool_args("read_file", &args("{}")).is_err());
    assert!(validate_tool_args("read_file", &args("{\"path\": 3}")).is_err());
    assert!(validate_tool_args("read_file", &args("{\"path\": \"a\", \"x\": 1}")).is_err());
}

#[test]
fn every_tool_has_a_status() {
    assert_ne!(tool_status_label("read_file"), tool_status_label("write_file"));
    assert!(!tool_status_label("anything else").is_empty());
}

#[test]
fn replies_read_back() {
    let e = json::parse(&tool_error("CODE", "a \"quoted\"\nmessage", true)).unwrap();
    assert_eq!(e.get_bool("ok"), Some(false));
    assert_eq!(e.get_str("error_code"), Some("CODE"));
    assert_eq!(e.get_str("message"), Some("a \"quoted\"\nmessage"));
    assert_eq!(e.get_bool("retryable"), Some(true));
    let t = json::parse(&tool_text("done →")).unwrap();
    assert_eq!(t.get_bool("ok"), Some(true));
    assert_eq!(t.get_str("result"), Some("done →"));
}

#[test]
fn mode_comes_from_the_context() {
    assert_eq!(mode_from_context(None), AgentMode::Agent);
    assert_eq!(mode_from_context(Some("{\"agentMode\":\"ask\"}")), AgentMode::Ask);
    assert_eq!(mode_from_context(Some("{\"agentMode\":\"plan\"}")), AgentMode::Plan);
    assert_eq!(mode_from_context(Some("{\"agentMode\":\"x\"}")), AgentMode::Agent);
    assert_eq!(mode_from_context(Some("not json")), AgentMode::Agent);
}

#[test]
fn the_prompt_holds_the_project_files() {
    let p = build_system_prompt("/w", Some("CTX"), None, Some("AG"), Some(("HELPER.md", "HLP")));
    assert!(p.contains("/w"));
    assert!(p.contains("\n\n## Project Context (from .clif/CLIF.md)\n\nCTX\n\n---\n"));
    assert!(!p.contains(".clifrules)"));
    assert!(p.ends_with(
        "\n\n## Project Instructions (from AGENTS.md)\n\nAG\n\n---\n\
         \n\n## Project Instructions (from HELPER.md)\n\nHLP\n\n---\n"
    ));
}

#[test]
fn the_runtime_context_names_files() {
    let c = "{\"activeFile\": \"a.rs\", \"gitBranch\": \"main\", \"files\": [\"a.rs\", \"b.rs\"]}";
    assert_eq!(
        build_runtime_context("clean\n", Some(c)),
        "## Interaction Mode\n\nCurrent mode: agent\n## Current Git State\n\nclean\n\
         \nCurrently active file: a.rs\nCurrent git branch: main\n\
         \nAttached files for context: a.rs, b.rs\n"
    );
    let pr = "{\"agentMode\": \"ask\", \"reviewPr\": {\"number\": 7, \"title\": \"T\"}}";
    let r = build_runtime_context("", Some(pr));
    assert!(r.starts_with("## Interaction Mode\n\nCurrent mode: ask\nConstraint: Ask mode is read-only."));
    assert!(r.contains("\n## PR Under Review\n\nPR number: #7\nTitle: T\n\nGuidance: "));
    assert_eq!(context_files_from_json(Some("[]")), Vec::<String>::new());
    assert_eq!(context_files_from_json(None), Vec::<String>::new());
    assert_eq!(context_files_from_json(Some(c)), vec!["a.rs".to_string(), "b.rs".to_string()]);
}

#[test]
fn json_of_models_is_repaired() {
    assert_eq!(repair_json("{\"a\": 1,}"), "{\"a\": 1}");
    assert_eq!(repair_json("[1, 2,"), "[1, 2,]");
    assert_eq!(repair_json("{\"a\": [1], \"b\": \"x"), "{\"a\": [1], \"b\": \"x\"}");
    assert_eq!(repair_json("{\"a\":[1"), "{\"a\":[1]}");
    assert_eq!(repair_json("[{\"a\": {\"b\": [[1, 2], [3"), "[{\"a\": {\"b\": [[1, 2], [3]]}}]");
    assert_eq!(repair_json("{\"a\": \"[{\"}"), "{\"a\": \"[{\"}");
    assert_eq!(repair_json("{\"a\": [\"x{"), "{\"a\": [\"x{\"]}");
    assert_eq!(repair_json("{\"a\": \"x\ny\"\n}"), "{\"a\": \"x\\ny\"\n}");
    assert_eq!(repair_json("{\"a\": \"x\\\ny\"}"), "{\"a\": \"x\\ny\"}");
    let p = prepare_call(&CallPart {
        id: "1".to_string(),
        name: "read_file".to_string(),
        args: "{\"path\": \"a\"".to_string(),
    });
    assert_eq!(p.args.as_ref().unwrap().get_str("path"), Some("a"));
    let bad = prepare_call(&CallPart {
        id: "1".to_string(),
        name: "read_file".to_string(),
        args: "nothing".to_string(),
    });
    assert!(bad.args.as_ref().unwrap_err().starts_with("Failed to parse tool arguments for 'read_file': "));
}

#[test]
fn reads_at_the_front_run_together() {
    let part = |name: &str, a: &str| {
        prepare_call(&CallPart { id: "i".into(), name: name.into(), args: a.into() })
    };
    let calls = vec![
        part("read_file", "{\"path\":\"a\"}"),
        part("search", "{\"query\":\"x\"}"),
        part("write_file", "{}"),
        part("read_file", "{}"),
    ];
    assert_eq!(readonly_prefix(&calls), 2);
}

#[test]
fn long_results_are_cut() {
    let long = "y".repeat(13000);
    assert!(can_cap(&long));
    let c = cap_result(&long);
    assert!(c.len() < 13000 && c.starts_with("yyy"));
    assert_eq!(cap_result("short"), "short");
    assert_eq!(
        cap_local_result(&"z".repeat(4001)),
        format!("{}\n\n[... 1 chars omitted — use read_file with offset/limit for more ...]", "z".repeat(4000))
    );
    assert_eq!(
        cap_local_result(&format!("{}é", "z".repeat(3999))),
        format!("{}\n\n[... 2 chars omitted — use read_file with offset/limit for more ...]", "z".repeat(3999))
    );
}

#[test]
fn searching_and_replacing() {
    assert_eq!(normalized("  a \n\t b  "), "a b");
    assert_eq!(count_matches("aaaa", "aa"), 2);
    assert_eq!(replaced_all("aaaa", "aa", "b"), "bb");
    assert_eq!(replaced_first("aaaa", "aa", "b"), "baa");
}

#[test]
fn the_stream_is_the_same_in_any_chunks() {
    let whole = "data: {\"choices\":[{\"delta\":{\"content\":\"Hel\"}}]}\n\n\
                 data: {\"choices\":[{\"delta\":{\"content\":\"lo\"},\"finish_reason\":\"stop\"}]}\n\n\
                 data: [DONE]\n\n";
    let mut a = StreamState::new();
    a.feed(whole);
    let mut b = StreamState::new();
    let mut said = String::new();
    for ch in whole.chars() {
        for e in b.feed(&ch.to_string()) {
            if let StreamEvent::Text(t) = e {
                said.push_str(&t);
            }
        }
    }
    assert_eq!(a.content, "Hello");
    assert_eq!(b.content, "Hello");
    assert_eq!(said, "Hello");
    assert_eq!(a.finish_reason, "stop");
}

#[test]
fn calls_are_put_together_from_a_stream() {
    let mut s = StreamState::new();
    s.feed("data: {\"choices\":[{\"delta\":{\"tool_calls\":[{\"index\":0,\"id\":\"c1\",\"function\":{\"name\":\"read_file\",\"arguments\":\"{\\\"pa\"}}]}}]}\n");
    s.feed("data: {\"choices\":[{\"delta\":{\"tool_calls\":[{\"index\":0,\"function\":{\"arguments\":\"th\\\":\\\"a\\\"}\"}}]},\"finish_reason\":\"tool_calls\"}]}\n");
    assert_eq!(s.calls.len(), 1);
    assert_eq!(s.calls[0].1.id, "c1");
    assert_eq!(s.calls[0].1.name, "read_file");
    assert_eq!(s.calls[0].1.args, "{\"path\":\"a\"}");
    assert_eq!(s.finish_reason, "tool_calls");
}

fn resolved(p: &str) -> ResolvedPath {
    ResolvedPath {
        parts: PathParts { parts: p.split('/').map(|s| s.as_bytes().to_vec()).collect() },
        shown: p.to_string(),
    }
}

#[test]
fn paths_stay_inside_the_workspace() {
    let ok = ensure_path_in_workspace("a", Ok(resolved("/w")), Target::Existing(Ok(resolved("/w/a"))));
    assert_eq!(ok.unwrap().shown, "/w/a");
    let out = ensure_path_in_workspace("../x", Ok(resolved("/w")), Target::Existing(Ok(resolved("/x"))));
    assert_eq!(out.map(|p| p.shown).unwrap_err(), "Path '/x' is outside the workspace '/w'");
    let sibling = ensure_path_in_workspace("../wx", Ok(resolved("/w")), Target::Existing(Ok(resolved("/wx"))));
    assert!(sibling.is_err());
    let gone = ensure_path_in_workspace("a", Err("no root".to_string()), Target::Existing(Ok(resolved("/w/a"))));
    assert_eq!(gone.map(|p| p.shown).unwrap_err(), "no root");
    let missing = Target::Missing { parent: None, below: None };
    assert_eq!(
        ensure_path_in_workspace("q", Ok(resolved("/w")), missing).map(|p| p.shown).unwrap_err(),
        "Path 'q' has no parent directory"
    );
}

#[test]
fn workspace_texts() {
    assert_eq!(resolve_path("/a", "/w"), "/a");
    assert_eq!(resolve_path("a/b", "/w"), "/w/a/b");
    assert!(workspace_is_valid("/w", true));
    assert!(!workspace_is_valid("  ", true));
    assert!(!workspace_is_valid("/w", false));
    assert_eq!(
        workspace_root_error("/w", false, "e"),
        "The open project folder '/w' no longer exists. Open a folder in ClifPad (File → Open Folder) before using file tools."
    );
    assert_eq!(workspace_root_error("/w", true, "e"), "Failed to resolve workspace root '/w': e");
}

#[test]
fn ignore_files() {
    let p = parse_clif_ignore("# note\n\n*.log\nbuild/\nsecret.txt\n");
    assert_eq!(p.len(), 3);
    assert!(is_clif_ignored("a.log", "x/a.log", &p));
    assert!(is_clif_ignored("secret.txt", "secret.txt", &p));
    assert!(!is_clif_ignored("main.rs", "src/main.rs", &p));
    assert!(keep_entry(0, "src", true, "src", &p));
    assert!(!keep_entry(0, "node_modules", true, "node_modules", &p));
}

#[test]
fn the_file_tree() {
    let mut s = Snapshot::new();
    s.add_entry(1, "src", true);
    s.add_entry(2, "main.rs", false);
    assert!(!s.is_full());
    assert_eq!(s.text(), "src/\n  main.rs");
    let mut taken = 0;
    while !s.is_full() {
        s.add_entry(1, "0123456789", false);
        taken += 1;
    }
    // 5 and 10 bytes, then 11 for each entry, until there are more than 3000.
    assert_eq!(taken, 272);
    assert!(s.text().ends_with("\n0123456789\n  ... (truncated)"));
}

#[test]
fn providers_and_keys() {
    assert!(get_provider_url("openrouter").starts_with("https://openrouter.ai/"));
    assert_eq!(get_provider_url("lmstudio"), "http://localhost:1234/v1/chat/completions");
    assert_eq!(get_provider_url("openai"), "https://openrouter.ai/api/v1/chat/completions");
    assert_eq!(load_api_key("{\"openai\": \"k\"}", "openai"), Some("k".to_string()));
    assert_eq!(load_api_key("{\"openai\": \"k\"}", "other"), None);
    assert_eq!(load_api_key("nonsense", "openai"), None);
}
