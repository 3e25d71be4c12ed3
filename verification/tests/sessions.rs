use clif_pad::keyed::{evict_one_if_full, KeyedMap, MAX_TRACKED_CONVERSATIONS};
use clif_pad::session::{kill_all_agent_sessions, scoped_conversation_id, AgentState, PathParts, TodoItem};
use clif_pad::todos::{merge_todos, parse_todos, todo_read, todo_write};
use clif_pad::json;

fn parts(p: &str) -> PathParts {
    PathParts { parts: p.split('/').map(|s| s.as_bytes().to_vec()).collect() }
}

fn todo(id: &str, content: &str, status: &str) -> TodoItem {
    TodoItem { id: id.to_string(), content: content.to_string(), status: status.to_string() }
}

#[test]
fn conv_for_session_falls_back_to_session_id() {
    let state = AgentState::new();
    let unique = format!("test-session-{}", uuid::Uuid::new_v4());
    assert_eq!(state.conv_for_session(&unique), unique);
}

#[test]
fn conv_for_session_resolves_mapped_id() {
    let mut state = AgentState::new();
    let sid = format!("sess-{}", uuid::Uuid::new_v4());
    let cid = format!("conv-{}", uuid::Uuid::new_v4());
    state.convs.insert(&sid, cid.clone());
    assert_eq!(state.conv_for_session(&sid), cid);
    state.convs.remove(&sid);
}

#[test]
fn scoped_conversation_id_prefixes_window_label() {
    assert_eq!(
        scoped_conversation_id("main", Some("default")),
        "main::default"
    );
    assert_eq!(
        scoped_conversation_id("review", Some("default")),
        "review::default"
    );
    assert_ne!(
        scoped_conversation_id("main", Some("default")),
        scoped_conversation_id("review", Some("default"))
    );
}

#[test]
fn scoped_conversation_id_normalizes_missing_and_empty_tab() {
    assert_eq!(scoped_conversation_id("main", None), "main::default");
    assert_eq!(scoped_conversation_id("main", Some("")), "main::default");
    assert_eq!(scoped_conversation_id("main", Some("   ")), "main::default");
    assert_eq!(
        scoped_conversation_id("main", Some("pr-123")),
        "main::pr-123"
    );
}

#[test]
fn evict_one_if_full_is_a_noop_below_cap() {
    let mut map: KeyedMap<u32> = KeyedMap::new();
    for i in 0..10u32 {
        map.insert(&format!("k{}", i), i);
    }
    let before = map.len();
    evict_one_if_full(&mut map, "k_new");
    assert_eq!(map.len(), before);
}

#[test]
fn evict_one_if_full_drops_some_other_entry_at_cap() {
    let mut map: KeyedMap<u32> = KeyedMap::new();
    for i in 0..MAX_TRACKED_CONVERSATIONS {
        map.insert(&format!("k{}", i), i as u32);
    }
    let keep = "incoming-key".to_string();
    evict_one_if_full(&mut map, &keep);
    assert_eq!(map.len(), MAX_TRACKED_CONVERSATIONS - 1);
    assert!(map.get(&keep).is_none(), "must not evict the incoming key");
}

#[test]
fn eviction_keeps_a_key_that_is_there() {
    let mut map: KeyedMap<u32> = KeyedMap::new();
    for i in 0..MAX_TRACKED_CONVERSATIONS {
        map.insert(&format!("k{}", i), i as u32);
    }
    evict_one_if_full(&mut map, "k7");
    assert_eq!(map.get("k7"), Some(&7));
}

#[test]
fn memory_survives_a_turn_but_not_a_closed_tab() {
    let mut state = AgentState::new();
    let conv = scoped_conversation_id("main", Some("tab"));
    state.open_session("s1", &conv);
    assert!(!state.has_read_file(Some("s1"), &parts("a/b")));
    state.track_file_read(Some("s1"), &parts("a/b"));
    assert!(state.has_read_file(Some("s1"), &parts("a/b")));
    assert!(!state.has_read_file(Some("s1"), &parts("a/c")));
    state.close_session("s1");
    state.open_session("s2", &conv);
    assert!(state.has_read_file(Some("s2"), &parts("a/b")));
    state.agent_clear_conversation("main", "tab");
    assert!(!state.has_read_file(Some("s2"), &parts("a/b")));
}

#[test]
fn a_file_is_noted_once() {
    let mut state = AgentState::new();
    state.open_session("s1", "c");
    state.open_session("s2", "c");
    state.track_file_read(Some("s1"), &parts("a/b"));
    state.track_file_read(Some("s2"), &parts("a/b"));
    state.track_file_read(Some("s2"), &parts("a"));
    state.track_file_read(None, &parts("z"));
    let noted = state.reads.get("c").expect("a slot");
    assert_eq!(noted.len(), 2);
    assert!(noted.contains(&parts("a/b")));
    assert!(!noted.contains(&parts("z")));
}

#[test]
fn an_evicted_conversation_has_read_nothing() {
    let mut state = AgentState::new();
    state.open_session("s", "first");
    state.track_file_read(Some("s"), &parts("x"));
    for i in 0..MAX_TRACKED_CONVERSATIONS {
        state.open_session("t", &format!("c{}", i));
    }
    assert_eq!(state.reads.len(), MAX_TRACKED_CONVERSATIONS);
    let kept = state.reads.get("first").is_some();
    assert_eq!(state.has_read_file(Some("s"), &parts("x")), kept);
}

#[test]
fn windows_do_not_share_what_they_read() {
    let mut state = AgentState::new();
    state.open_session("s1", &scoped_conversation_id("main", None));
    state.open_session("s2", &scoped_conversation_id("review", None));
    state.track_file_read(Some("s1"), &parts("x"));
    assert!(!state.has_read_file(Some("s2"), &parts("x")));
}

#[test]
fn without_a_session_every_file_counts_as_read() {
    let state = AgentState::new();
    assert!(state.has_read_file(None, &parts("x")));
}

#[test]
fn stopping_a_session() {
    let mut state = AgentState::new();
    state.open_session("s1", "c");
    state.track_file_read(Some("s1"), &parts("x"));
    assert_eq!(state.agent_stop("s1"), Ok(()));
    assert_eq!(state.conv_for_session("s1"), "s1");
    assert_eq!(state.agent_stop("s1"), Err("Session not found: s1".to_string()));
    state.open_session("s2", "c");
    assert!(state.has_read_file(Some("s2"), &parts("x")));
}

#[test]
fn killing_everything() {
    let mut state = AgentState::new();
    state.open_session("s1", "c1");
    state.open_session("s2", "c2");
    let mut told = kill_all_agent_sessions(&mut state);
    told.sort();
    assert_eq!(told, vec!["s1".to_string(), "s2".to_string()]);
    assert_eq!(state.sessions.len(), 0);
    assert_eq!(state.reads.len(), 0);
    assert_eq!(state.todos.len(), 0);
}

#[test]
fn todo_lists_are_merged_by_id() {
    let mut list = vec![todo("a", "one", "pending"), todo("b", "two", "pending")];
    merge_todos(&mut list, vec![todo("b", "two!", "completed"), todo("c", "three", "pending")]);
    let seen: Vec<(&str, &str, &str)> = list
        .iter()
        .map(|t| (t.id.as_str(), t.content.as_str(), t.status.as_str()))
        .collect();
    assert_eq!(
        seen,
        vec![("a", "one", "pending"), ("b", "two!", "completed"), ("c", "three", "pending")]
    );
}

#[test]
fn todos_are_written_and_read() {
    let mut state = AgentState::new();
    state.open_session("s", "c");
    let items = json::parse(r#"[{"id":"1","content":"do it","status":"in_progress"}]"#).unwrap();
    let parsed = parse_todos(items.as_array().unwrap()).expect("well-formed");
    let reply = todo_write(&mut state, Some("s"), false, parsed);
    assert!(reply.contains("do it"));
    assert!(todo_read(&state, Some("s")).contains("do it"));
    state.agent_clear_todos(Some("s"));
    assert!(!todo_read(&state, Some("s")).contains("do it"));
}
