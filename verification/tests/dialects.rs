use clif_pad::dialect::{fold_system_into_user, Dialect};

fn msg(role: &str, content: &str) -> (String, String) {
    (role.to_string(), content.to_string())
}

#[test]
fn detects_dialects() {
    assert_eq!(Dialect::for_arch("gemma4"), Dialect::Gemma4);
    assert_eq!(Dialect::for_arch("gemma3"), Dialect::Gemma);
    assert_eq!(Dialect::for_arch("gemma2"), Dialect::Gemma);
    assert_eq!(Dialect::for_arch("qwen2"), Dialect::ChatMl);
    assert_eq!(Dialect::for_arch("llama"), Dialect::ChatMl);
}

#[test]
fn detects_dialects_in_any_case() {
    assert_eq!(Dialect::for_arch("GEMMA4"), Dialect::Gemma4);
    assert_eq!(Dialect::for_arch("Gemma"), Dialect::Gemma);
    assert_eq!(Dialect::for_arch(""), Dialect::ChatMl);
}

#[test]
fn gemma4_uses_its_own_turn_format() {
    let msgs = vec![
        ("system".to_string(), "You are Clif.".to_string()),
        ("user".to_string(), "Hi".to_string()),
    ];
    let p = Dialect::Gemma4.render(&msgs);
    assert!(p.contains("<|turn>system\nYou are Clif.<turn|>"));
    assert!(p.contains("<|turn>user\nHi<turn|>"));
    assert!(!p.contains("<start_of_turn>"), "leaked Gemma 2/3 framing: {p}");
    assert!(p.ends_with("<|turn>model\n"), "prompt must not prime the model: {p}");
    assert!(!p.contains("<|channel>"), "we do not author channel markup: {p}");
}

#[test]
fn gemma2_still_uses_legacy_format() {
    let msgs = vec![("user".to_string(), "Hi".to_string())];
    let p = Dialect::Gemma.render(&msgs);
    assert!(p.contains("<start_of_turn>user"));
    assert!(!p.contains("<|turn>"));
}

#[test]
fn gemma4_stops_on_its_own_markers() {
    let s = Dialect::Gemma4.stop_sequences();
    assert!(s.iter().any(|x| x == "<tool_call|>"));
    assert!(s.iter().any(|x| x == "<turn|>"));
}

#[test]
fn chatml_renders_every_turn_that_says_something() {
    let p = Dialect::ChatMl.render(&[msg("system", "S"), msg("user", "  "), msg("user", "Hi")]);
    assert_eq!(
        p,
        "<|im_start|>system\nS<|im_end|>\n<|im_start|>user\nHi<|im_end|>\n<|im_start|>assistant\n"
    );
}

#[test]
fn legacy_gemma_folds_the_system_turn() {
    let p = Dialect::Gemma.render(&[msg("system", "S"), msg("user", "Hi"), msg("assistant", "Yo")]);
    assert_eq!(
        p,
        "<start_of_turn>user\nS\n\nHi<end_of_turn>\n<start_of_turn>model\nYo<end_of_turn>\n\
         <start_of_turn>model\n"
    );
}

#[test]
fn folding_makes_a_user_turn_where_there_is_none() {
    let f = fold_system_into_user(&[msg("system", "A"), msg("system", "B"), msg("assistant", "x")]);
    assert_eq!(f, vec![msg("user", "A\n\nB"), msg("assistant", "x")]);
    assert_eq!(fold_system_into_user(&[msg("user", "u")]), vec![msg("user", "u")]);
}

#[test]
fn chatml_turns_follow_one_another() {
    let head = "<|im_start|>assistant\n";
    let a = vec![msg("system", " s "), msg("user", "  ")];
    let b = vec![msg("user", "hi"), msg("assistant", "yo")];
    let both: Vec<(String, String)> = a.iter().chain(b.iter()).cloned().collect();
    let first = Dialect::ChatMl.render(&a);
    assert_eq!(first, format!("<|im_start|>system\n s <|im_end|>\n{}", head));
    let start = first.strip_suffix(head).unwrap();
    assert_eq!(Dialect::ChatMl.render(&both), format!("{}{}", start, Dialect::ChatMl.render(&b)));
    assert_eq!(Dialect::ChatMl.render(&[msg("user", " \n")]), head);
}
