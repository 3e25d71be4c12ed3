use clif_pad::agent_loop::{AgentLoop, LoopAction, LoopEvent, Phase};
use clif_pad::dialect::Dialect;
use clif_pad::init_project::{
    can_label, init_prompt, progress_label, InitAction, InitPhase, InitProject, InitReply,
};
use clif_pad::json::{self, Json};
use clif_pad::local_calls::LocalToolCall;
use clif_pad::local_turn::{
    check_folder, load_failed, native_calls, Generated, LocalAction, LocalEvent, LocalPhase, LocalTurn,
};
use clif_pad::messages::text_message;
use clif_pad::mode::AgentMode;

fn value(s: &str) -> Json {
    json::parse(s).unwrap()
}

fn agent() -> AgentLoop {
    AgentLoop::new(
        "m",
        "openrouter",
        "Seer 2",
        vec![text_message("system", "s"), text_message("user", "hi")],
    )
}

fn begin(l: &mut AgentLoop) -> Vec<LoopAction> {
    l.step(LoopEvent::Begin { cancelled: false, snapshot: None, clif: None })
}

fn said(actions: &[LoopAction]) -> Vec<String> {
    actions
        .iter()
        .filter_map(|a| match a {
            LoopAction::Stream(s) => Some(s.clone()),
            _ => None,
        })
        .collect()
}

fn chunk(l: &mut AgentLoop, s: &str) -> Vec<LoopAction> {
    l.step(LoopEvent::Chunk { cancelled: false, text: Ok(s.to_string()) })
}

fn calls_chunk(calls: &[(&str, &str, &str)]) -> String {
    let list: Vec<Json> = calls
        .iter()
        .enumerate()
        .map(|(i, (id, name, args))| {
            Json::object().with("index", Json::uint(i as u64)).with_str("id", id).with(
                "function",
                Json::object().with_str("name", name).with_str("arguments", args),
            )
        })
        .collect();
    let choice = Json::object()
        .with("delta", Json::object().with("tool_calls", Json::Array(list)))
        .with_str("finish_reason", "tool_calls");
    let body = Json::object().with("choices", Json::Array(vec![choice]));
    format!("data: {}\n\n", json::print(&body))
}

#[test]
fn a_plain_answer_ends_the_loop() {
    let mut l = agent();
    let a = begin(&mut l);
    assert!(matches!(&a[0], LoopAction::Status(s) if s == "Thinking..."));
    assert!(matches!(&a[1], LoopAction::Send(b) if b.get_str("tool_choice") == Some("auto")));
    assert!(l.step(LoopEvent::Accepted).len() <= 1);
    chunk(&mut l, "data: {\"choices\":[{\"delta\":{\"content\":\"Hello\"},\"finish_reason\":\"stop\"}]}\n\n");
    let a = l.step(LoopEvent::StreamEnd);
    assert_eq!(said(&a), vec!["[DONE]".to_string()]);
    assert!(matches!(l.phase, Phase::Over(Ok(()))));
}

#[test]
fn an_empty_answer_is_explained() {
    let mut l = agent();
    begin(&mut l);
    l.step(LoopEvent::Accepted);
    let a = l.step(LoopEvent::StreamEnd);
    assert_eq!(
        said(&a)[0],
        "⚠️ The model returned an empty response. Try rephrasing your message or switching models."
    );
}

#[test]
fn an_image_that_is_not_seen_is_explained() {
    let part = Json::object().with_str("type", "text").with_str("text", "look");
    let m = Json::object().with_str("role", "user").with("content", Json::Array(vec![part]));
    let mut l = AgentLoop::new("m", "openai", "Seer 2", vec![m]);
    let a = begin(&mut l);
    assert!(a.iter().any(|x| matches!(x, LoopAction::Send(b) if b.get_str("tool_choice") == Some("none"))));
    l.step(LoopEvent::Accepted);
    let a = l.step(LoopEvent::StreamEnd);
    assert!(said(&a)[0].contains("Try switching to **GPT-4o**, **Seer 2**, or **Gemini 1.5 Pro**"));
}

#[test]
fn a_command_waits_for_the_user() {
    let mut l = agent();
    begin(&mut l);
    l.step(LoopEvent::Accepted);
    chunk(&mut l, &calls_chunk(&[("c1", "run_command", "{\"command\":\"ls\"}")]));
    l.step(LoopEvent::StreamEnd);
    let a = l.step(LoopEvent::Go { cancelled: false });
    assert!(a.iter().any(|x| matches!(x, LoopAction::Ask { command, id } if command == "ls" && id == "c1")));
    assert!(!a.iter().any(|x| matches!(x, LoopAction::Execute)));
    let a = l.step(LoopEvent::Answer(Some(true)));
    assert!(a.iter().any(|x| matches!(x, LoopAction::Execute)));
    l.step(LoopEvent::Result(Some("files".to_string())));
    let last = &l.conversation[l.conversation.len() - 1];
    assert_eq!(last.get_str("role"), Some("tool"));
    assert_eq!(last.get_str("tool_call_id"), Some("c1"));
    assert_eq!(last.get_str("content"), Some("files"));
    assert_eq!(l.turn, 1);
}

#[test]
fn a_refused_command_does_not_run() {
    let mut l = agent();
    begin(&mut l);
    l.step(LoopEvent::Accepted);
    chunk(&mut l, &calls_chunk(&[("c1", "run_command", "{\"command\":\"rm\"}")]));
    l.step(LoopEvent::StreamEnd);
    l.step(LoopEvent::Go { cancelled: false });
    let a = l.step(LoopEvent::Answer(Some(false)));
    assert!(!a.iter().any(|x| matches!(x, LoopAction::Execute)));
    let last = &l.conversation[l.conversation.len() - 1];
    assert_eq!(last.get_str("tool_call_id"), Some("c1"));
}

#[test]
fn reads_run_side_by_side() {
    let mut l = agent();
    begin(&mut l);
    l.step(LoopEvent::Accepted);
    chunk(
        &mut l,
        &calls_chunk(&[
            ("a", "read_file", "{\"path\":\"x\"}"),
            ("b", "search", "{\"query\":\"y\",\"path\":\".\"}"),
        ]),
    );
    let a = l.step(LoopEvent::StreamEnd);
    assert!(a.iter().any(|x| matches!(x, LoopAction::RunBatch)));
    assert!(matches!(l.phase, Phase::Batch { count: 2, .. }));
    l.step(LoopEvent::Results(vec!["1".to_string(), "2".to_string()]));
    let n = l.conversation.len();
    assert_eq!(l.conversation[n - 2].get_str("tool_call_id"), Some("a"));
    assert_eq!(l.conversation[n - 1].get_str("tool_call_id"), Some("b"));
}

#[test]
fn a_full_context_is_compacted_and_sent_again() {
    let mut l = agent();
    begin(&mut l);
    let a = l.step(LoopEvent::Rejected {
        status: 400,
        shown: "400 Bad Request".to_string(),
        body: "maximum context length exceeded".to_string(),
    });
    assert!(a.iter().any(|x| matches!(x, LoopAction::Compacted { reason, .. } if reason == "overflow")));
    assert!(a.iter().any(|x| matches!(x, LoopAction::Send(_))));
    let mut l = agent();
    begin(&mut l);
    l.step(LoopEvent::Rejected {
        status: 401,
        shown: "401 Unauthorized".to_string(),
        body: "no".to_string(),
    });
    assert!(matches!(&l.phase, Phase::Over(Err(e)) if e == "API error 401 Unauthorized: no"));
}

#[test]
fn the_user_can_stop_before_a_turn() {
    let mut l = agent();
    let a = l.step(LoopEvent::Begin { cancelled: true, snapshot: None, clif: None });
    assert!(a.is_empty());
    assert!(matches!(l.phase, Phase::Over(Ok(()))));
}

// ---- local models ------------------------------------------------------------------------------

fn local(dialect: Dialect) -> LocalTurn {
    LocalTurn::new(
        dialect,
        &vec![text_message("system", "S"), text_message("user", "hi"), text_message("tool", "t")],
        AgentMode::Agent,
    )
}

fn generated(text: &str) -> LocalEvent {
    LocalEvent::Generated(Ok(Generated {
        text: text.to_string(),
        calls: vec![],
        prompt_tokens: 10,
        completion_tokens: 4,
    }))
}

fn local_said(actions: &[LocalAction]) -> Vec<String> {
    actions
        .iter()
        .filter_map(|a| match a {
            LocalAction::Stream(s) => Some(s.clone()),
            _ => None,
        })
        .collect()
}

#[test]
fn local_messages_are_flat_and_taught() {
    let t = local(Dialect::ChatMl);
    assert_eq!(t.messages.len(), 3);
    assert_eq!(t.messages[0].0, "system");
    assert!(t.messages[0].1.starts_with("S\n\n"));
    assert!(t.messages[0].1.contains("### read_file"));
    assert_eq!(t.messages[2].0, "user");
    let bare = LocalTurn::new(Dialect::ChatMl, &vec![text_message("user", "hi")], AgentMode::Ask);
    assert_eq!(bare.messages.len(), 2);
    assert_eq!(bare.messages[0].0, "system");
}

#[test]
fn a_local_answer_ends_the_turn() {
    let mut t = local(Dialect::ChatMl);
    let a = t.step(LocalEvent::Begin { cancelled: false });
    assert!(matches!(a[1], LocalAction::Generate));
    let a = t.step(generated("All fine."));
    assert!(a.iter().any(|x| matches!(x, LocalAction::Usage { prompt: 10, completion: 4, estimated: 14 })));
    assert_eq!(local_said(&a), vec!["[DONE]".to_string()]);
    assert!(matches!(t.phase, LocalPhase::Over));
}

#[test]
fn a_local_call_is_run_and_fed_back() {
    let mut t = local(Dialect::ChatMl);
    t.step(LocalEvent::Begin { cancelled: false });
    t.step(generated("<think>x</think>ok <tool_call>{\"name\":\"read_file\",\"arguments\":{\"path\":\"a\"}}</tool_call>"));
    assert_eq!(t.messages[3].0, "assistant");
    assert!(!t.messages[3].1.contains("<think>"));
    let a = t.step(LocalEvent::Take { id: "i1".to_string() });
    assert!(a.iter().any(|x| matches!(x, LocalAction::ShowCall { id, name, arguments }
        if id == "i1" && name == "read_file" && arguments == "{\"path\":\"a\"}")));
    assert!(matches!(a[a.len() - 1], LocalAction::Execute));
    t.step(LocalEvent::Result(Some("content".to_string())));
    assert_eq!(t.messages.len(), 5);
    assert_eq!(t.messages[4].1, Dialect::ChatMl.format_tool_response("read_file", "content"));
    assert_eq!(t.round, 1);
}

#[test]
fn a_local_command_waits_for_the_user() {
    let mut t = local(Dialect::Gemma4);
    t.step(LocalEvent::Begin { cancelled: false });
    t.step(LocalEvent::Generated(Ok(Generated {
        text: "native".to_string(),
        calls: vec![LocalToolCall { name: "run_command".to_string(), args: value("{\"command\":\"ls\"}") }],
        prompt_tokens: 1,
        completion_tokens: 1,
    })));
    let a = t.step(LocalEvent::Take { id: "i".to_string() });
    assert!(matches!(&a[a.len() - 1], LocalAction::Ask { command, .. } if command == "ls"));
    let a = t.step(LocalEvent::Answer(Some(false)));
    assert!(!a.iter().any(|x| matches!(x, LocalAction::Execute)));
    assert!(t.messages[t.messages.len() - 1].1.contains("Command blocked by user."));
}

#[test]
fn local_writes_are_announced() {
    let mut t = local(Dialect::ChatMl);
    t.step(LocalEvent::Begin { cancelled: false });
    t.step(generated("<tool_call>{\"name\":\"write_file\",\"arguments\":{\"path\":\"a\",\"content\":\"\"}}</tool_call>"));
    t.step(LocalEvent::Take { id: "i".to_string() });
    let a = t.step(LocalEvent::Result(Some("r".to_string())));
    assert!(matches!(&a[0], LocalAction::FileChanged { path } if path == "a"));
    assert!(matches!(&a[1], LocalAction::ShowResult { result, .. } if result == "r"));
}

#[test]
fn local_rounds_are_limited() {
    let mut t = local(Dialect::ChatMl);
    let mut last = Vec::new();
    for _ in 0..16 {
        t.step(LocalEvent::Begin { cancelled: false });
        t.step(generated("<tool_call>{\"name\":\"list_files\",\"arguments\":{}}</tool_call>"));
        t.step(LocalEvent::Take { id: "i".to_string() });
        last = t.step(LocalEvent::Result(Some("r".to_string())));
    }
    assert_eq!(
        local_said(&last),
        vec![
            "\n\n*[Stopped after 16 tool rounds — the local model may be looping. Try a more specific request.]*\n".to_string(),
            "[DONE]".to_string(),
        ]
    );
    assert!(matches!(t.phase, LocalPhase::Over));
}

#[test]
fn local_ends() {
    let mut t = local(Dialect::ChatMl);
    let a = t.step(LocalEvent::Begin { cancelled: true });
    assert_eq!(local_said(&a)[0], "\n*[Stopped by user]*\n");
    let mut t = local(Dialect::ChatMl);
    t.step(LocalEvent::Begin { cancelled: false });
    let a = t.step(LocalEvent::Generated(Err("boom".to_string())));
    assert_eq!(local_said(&a)[0], "\n\n[local engine error: boom]");
    assert_eq!(local_said(&load_failed("x"))[0], "\n\n[local engine error: x]");
    assert!(check_folder("/w", true).is_none());
    let a = check_folder("/w", false).unwrap();
    assert!(local_said(&a)[0].starts_with("**No project folder is open.** The configured folder `/w` doesn't exist, so"));
    assert_eq!(local_said(&a)[1], "[DONE]");
}

// ---- looking over a project --------------------------------------------------------------------

fn reply(calls: &str, finish: &str) -> InitReply {
    InitReply::Body(value(&format!(
        "{{\"choices\":[{{\"finish_reason\":\"{}\",\"message\":{{\"content\":\"c\",\"tool_calls\":{}}}}}]}}",
        finish, calls
    )))
}

#[test]
fn a_project_is_looked_over() {
    let mut p = InitProject::new("/w");
    assert_eq!(p.conversation.len(), 2);
    assert!(init_prompt("/w").contains("analyze the project at '/w' and write"));
    let body = p.request("m", "openai");
    assert_eq!(body.get_bool("stream"), Some(false));
    assert!(matches!(p.begin(false)[0], InitAction::Send));
    p.take_reply(reply(
        "[{\"id\":\"1\",\"function\":{\"name\":\"read_file\",\"arguments\":\"{\\\"path\\\":\\\"src/a.rs\\\"}\"}},\
          {\"id\":\"2\",\"function\":{\"name\":\"read_file\",\"arguments\":\"oops\"}},\
          {\"id\":\"3\",\"function\":{\"name\":\"submit\",\"arguments\":\"{\\\"summary\\\":\\\"done\\\"}\"}}]",
        "tool_calls",
    ));
    assert_eq!(p.next_path(), Some("src/a.rs".to_string()));
    let a = p.take_next(Some("a.rs")).unwrap();
    assert!(matches!(&a[0], InitAction::Progress { step: 1, message } if message == "Reading a.rs"));
    assert!(matches!(&a[1], InitAction::Execute { name, .. } if name == "read_file"));
    p.take_result("text");
    assert_eq!(p.conversation[3].get_str("tool_call_id"), Some("1"));
    assert_eq!(p.conversation[3].get_str("content"), Some("text"));
    assert!(p.take_next(None).unwrap().is_empty());
    assert_eq!(p.conversation[4].get_str("tool_call_id"), Some("2"));
    assert!(p.conversation[4].get_str("content").unwrap().contains("Failed to parse tool arguments for 'read_file': "));
    let a = p.take_next(None).unwrap();
    assert!(matches!(&a[0], InitAction::Progress { step: 2, message } if message == "Finalizing context file..."));
    assert!(matches!(p.phase, InitPhase::Submitted { .. }));
    let a = p.finish(true);
    assert!(matches!(&a[0], InitAction::Done { success: true, message, path: true, timed: true } if message == "done"));
    assert!(matches!(a[1], InitAction::Close));
}

#[test]
fn a_pass_ends_without_calls() {
    let mut p = InitProject::new("/w");
    p.begin(false);
    let a = p.take_reply(reply("[]", "stop"));
    assert!(matches!(a[0], InitAction::LookForFile));
    let a = p.finish(false);
    assert!(matches!(&a[0], InitAction::Done { success: false, message, path: true, timed: false } if message == "Analysis complete"));
}

#[test]
fn a_pass_takes_at_most_its_turns() {
    let mut p = InitProject::new("/w");
    let mut ended = false;
    for _ in 0..15 {
        assert!(!ended);
        p.begin(false);
        p.take_reply(reply("[{\"id\":\"1\",\"function\":{\"name\":\"nope\",\"arguments\":\"{}\"}}]", "tool_calls"));
        let a = p.take_next(None).unwrap();
        ended = a.iter().any(|x| matches!(x, InitAction::LookForFile));
    }
    assert!(ended);
}

#[test]
fn a_pass_that_fails() {
    let fail = |r: InitReply| {
        let mut p = InitProject::new("/w");
        p.begin(false);
        match &p.take_reply(r)[0] {
            InitAction::Fail(e) => e.clone(),
            _ => String::new(),
        }
    };
    assert_eq!(fail(InitReply::Unsent("x".into())), "Request failed: x");
    assert_eq!(fail(InitReply::Refused("y".into())), "API error: y");
    assert_eq!(fail(InitReply::Unreadable("z".into())), "z");
    let mut p = InitProject::new("/w");
    assert!(matches!(&p.begin(true)[0], InitAction::Done { success: false, message, path: false, .. } if message == "Cancelled"));
}

#[test]
fn progress_is_told() {
    let label = |name: &str, a: &str| progress_label(name, &value(a), None);
    assert_eq!(label("list_files", "{}"), "Exploring .");
    assert_eq!(label("list_files", "{\"path\":\"src\"}"), "Exploring src");
    assert_eq!(label("read_file", "{\"path\":\"..\"}"), "Reading ..");
    assert_eq!(label("search", "{\"query\":\"q\"}"), "Searching for \"q\"");
    assert_eq!(label("write_file", "{}"), "Writing .clif/CLIF.md");
    assert_eq!(label("run_command", "{\"command\":\"ls\"}"), "Running: ls");
    let long = format!("{{\"command\":\"{}\"}}", "a".repeat(50));
    assert_eq!(label("run_command", &long), format!("Running: {}", "a".repeat(40)));
    assert_eq!(label("other", "{}"), "other...");
    let split = format!("{{\"command\":\"a{}\"}}", "é".repeat(30));
    assert!(!can_label("run_command", &value(&split)));
}

#[test]
fn native_calls_by_dialect() {
    let text = "ok<|tool_call>call:read_file{path:\"a\",limit:20}<tool_call|>";
    let calls = native_calls(Dialect::Gemma4, text);
    assert_eq!(calls.len(), 1);
    assert_eq!(calls[0].name, "read_file");
    assert_eq!(calls[0].args.get_str("path"), Some("a"));
    assert_eq!(calls[0].args.get_u64("limit"), Some(20));
    assert_eq!(native_calls(Dialect::ChatMl, text).len(), 0);
    assert_eq!(native_calls(Dialect::Gemma, text).len(), 0);
}
