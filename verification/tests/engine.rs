use clif_pad::dialect::Dialect;
use clif_pad::engine::{
    common_prefix_len, fit_prompt, folded_template_turns, frame_prompt, plan_n_ctx, shape_fits,
    template_turns, GenAction, GenPhase, LocalContext, ModelShape, Sampled,
};

fn shape() -> ModelShape {
    ModelShape {
        n_ctx_train: 131072,
        n_embd: 4096,
        n_head: 32,
        n_layer: 32,
        n_head_kv: 8,
        size: 4_000_000_000,
    }
}

#[test]
fn the_window_fits_beside_the_weights() {
    let m = shape();
    assert!(shape_fits(&m));
    // 32 layers, 8 heads of 256, two bytes, keys and values, doubled: 524288 bytes per token.
    let usable = 4_000_000_000 + 524_288 * 10_000;
    assert_eq!(plan_n_ctx(&m, usable, u32::MAX), 9984);
    assert_eq!(plan_n_ctx(&m, usable, 8192), 8192);
    assert_eq!(plan_n_ctx(&m, 1_000, u32::MAX), 4096);
    assert_eq!(plan_n_ctx(&m, u64::MAX, u32::MAX), 32768);
    assert_eq!(plan_n_ctx(&m, u64::MAX, 100), 4096);
}

#[test]
fn the_window_keeps_to_what_the_model_was_trained_for() {
    let m = ModelShape { n_ctx_train: 5000, ..shape() };
    assert_eq!(plan_n_ctx(&m, u64::MAX, u32::MAX), 4864);
    let small = ModelShape { n_ctx_train: 2048, ..shape() };
    assert_eq!(plan_n_ctx(&small, u64::MAX, u32::MAX), 4096);
    let odd = ModelShape { n_layer: 0, ..shape() };
    assert_eq!(plan_n_ctx(&odd, u64::MAX, u32::MAX), 4096);
    let wide = ModelShape { n_embd: 16384, n_head: 0, ..shape() };
    assert!(shape_fits(&wide));
    assert!(!shape_fits(&ModelShape { n_layer: u64::MAX, n_head_kv: 2, ..shape() }));
}

#[test]
fn a_long_prompt_keeps_its_ends() {
    let tokens: Vec<i32> = (0..5000).collect();
    // 4096 - 1024 - 8 tokens, 256 of them from the beginning.
    let t = fit_prompt(tokens.clone(), 4096, 1024);
    assert_eq!(t.len(), 3064);
    assert_eq!(t[..256], tokens[..256]);
    assert_eq!(t[256..], tokens[5000 - 2808..]);
    assert_eq!(fit_prompt(vec![1, 2, 3], 4096, 1024), vec![1, 2, 3]);
    // At most half of the window is kept free.
    assert_eq!(fit_prompt(tokens, 4096, 1_000_000).len(), 2040);
}

#[test]
fn shared_tokens_are_counted() {
    assert_eq!(common_prefix_len(&vec![1, 2, 3], &vec![1, 2, 4, 5]), 2);
    assert_eq!(common_prefix_len(&vec![], &vec![1]), 0);
    assert_eq!(common_prefix_len(&vec![7, 8], &vec![7, 8]), 2);
}

/// A backend that does as it is told.
struct Backend {
    kv: Vec<i32>,
    can_trim: bool,
    decoded: usize,
    largest: usize,
}

impl Backend {
    fn new() -> Self {
        Backend { kv: Vec::new(), can_trim: true, decoded: 0, largest: 0 }
    }

    /// Runs a generation to its end; samples the tokens in turn.
    fn run(
        &mut self,
        ctx: &mut LocalContext,
        prompt: &[i32],
        max: usize,
        stop: &[&str],
        script: &[(i32, bool, &str)],
    ) -> (String, Option<(usize, usize)>, Option<String>) {
        let mut shown = String::new();
        let mut next = 0;
        let mut queue = ctx.start(prompt.to_vec(), max, stop.iter().map(|s| s.to_string()).collect());
        loop {
            let mut more = Vec::new();
            for a in queue {
                match a {
                    GenAction::Clear => self.kv.clear(),
                    GenAction::Trim { keep } => {
                        if self.can_trim {
                            self.kv.truncate(keep);
                        }
                        more = ctx.take_trimmed(self.can_trim);
                    }
                    GenAction::Decode { tokens, start, .. } => {
                        assert_eq!(start, self.kv.len());
                        assert!(tokens.len() <= 512);
                        self.decoded += tokens.len();
                        self.largest = self.largest.max(tokens.len());
                        self.kv.extend_from_slice(&tokens);
                        more = ctx.take_decoded();
                    }
                    GenAction::Sample => {
                        let s = if next < script.len() {
                            let (token, last, piece) = script[next];
                            next += 1;
                            Some(Sampled { token, last, piece: piece.to_string() })
                        } else {
                            None
                        };
                        more = ctx.take_sampled(s);
                    }
                    GenAction::Emit(s) => shown.push_str(&s),
                    GenAction::Done { prompt, made } => return (shown, Some((prompt, made)), None),
                    GenAction::Fail(e) => return (shown, None, Some(e)),
                }
            }
            queue = more;
        }
    }
}

#[test]
fn a_long_prompt_is_decoded_in_batches() {
    let mut ctx = LocalContext::new(4096);
    let mut b = Backend::new();
    let prompt: Vec<i32> = (0..2000).collect();
    let (shown, done, _) = b.run(&mut ctx, &prompt, 16, &[], &[(9, false, "O"), (8, false, "K"), (0, true, "")]);
    assert_eq!(shown, "OK");
    assert_eq!(done, Some((2000, 2)));
    assert_eq!(b.largest, 512);
    assert_eq!(ctx.cached, b.kv);
}

#[test]
fn the_next_turn_decodes_only_what_is_new() {
    let mut ctx = LocalContext::new(4096);
    let mut b = Backend::new();
    let mut prompt: Vec<i32> = (0..1000).collect();
    b.run(&mut ctx, &prompt, 4, &[], &[(7, false, "a"), (0, true, "")]);
    assert_eq!(ctx.cached, b.kv);
    b.decoded = 0;
    prompt.push(7);
    prompt.extend(5000..5010);
    let (_, done, _) = b.run(&mut ctx, &prompt, 4, &[], &[(0, true, "")]);
    assert_eq!(done, Some((1011, 0)));
    assert_eq!(b.decoded, 10);
    assert_eq!(ctx.cached, b.kv);
}

#[test]
fn a_refused_trim_starts_over() {
    let mut ctx = LocalContext::new(4096);
    let mut b = Backend::new();
    b.run(&mut ctx, &[1, 2, 3, 4], 4, &[], &[(0, true, "")]);
    b.can_trim = false;
    b.decoded = 0;
    b.run(&mut ctx, &[1, 2, 9], 4, &[], &[(0, true, "")]);
    assert_eq!(b.decoded, 3);
    assert_eq!(b.kv, vec![1, 2, 9]);
    assert_eq!(ctx.cached, b.kv);
}

#[test]
fn the_same_prompt_decodes_one_token() {
    let mut ctx = LocalContext::new(4096);
    let mut b = Backend::new();
    b.run(&mut ctx, &[1, 2, 3], 4, &[], &[(0, true, "")]);
    b.decoded = 0;
    b.run(&mut ctx, &[1, 2, 3], 4, &[], &[(0, true, "")]);
    assert_eq!(b.decoded, 1);
}

#[test]
fn generation_ends_where_it_is_told() {
    let mut b = Backend::new();
    let mut ctx = LocalContext::new(4096);
    let script = [(5, false, "x</tool"), (6, false, "_call>"), (7, false, "more")];
    let (shown, done, _) = b.run(&mut ctx, &[1], 100, &["</tool_call>"], &script);
    assert_eq!(shown, "x</tool_call>");
    assert_eq!(done, Some((1, 2)));
    assert_eq!(ctx.cached, b.kv);
    let (shown, done, _) = b.run(&mut ctx, &[1], 2, &[], &script);
    assert_eq!(shown, "x</tool_call>");
    assert_eq!(done, Some((1, 2)));
    let (_, done, _) = b.run(&mut ctx, &[], 2, &[], &script);
    assert_eq!(done, Some((0, 0)));
    let (_, done, _) = b.run(&mut ctx, &[1], 9, &[], &[]);
    assert_eq!(done, Some((1, 0)));
}

#[test]
fn generation_stops_at_the_edge_of_the_window() {
    let mut ctx = LocalContext::new(20);
    let mut b = Backend::new();
    let script = [(5, false, "x"); 40];
    let (_, done, _) = b.run(&mut ctx, &[1, 2], 1000, &[], &script);
    assert_eq!(done, Some((2, 18)));
    assert_eq!(b.kv.len(), 20);
}

#[test]
fn a_failed_decode_leaves_nothing_behind() {
    let mut ctx = LocalContext::new(4096);
    ctx.start(vec![1, 2, 3], 4, vec![]);
    let actions = ctx.take_failure("decode: no".to_string());
    assert!(matches!(actions[0], GenAction::Clear));
    assert!(matches!(&actions[1], GenAction::Fail(e) if e == "decode: no"));
    assert!(ctx.cached.is_empty());
    assert!(matches!(ctx.phase, GenPhase::Idle));
}

fn msg(role: &str, content: &str) -> (String, String) {
    (role.to_string(), content.to_string())
}

#[test]
fn prompts_are_framed_by_the_model_where_that_works() {
    let m = vec![msg("system", "S"), msg("user", " "), msg("user", "Hi")];
    assert_eq!(template_turns(&m), vec![msg("system", "S"), msg("user", "Hi")]);
    assert_eq!(folded_template_turns(&m)[0].0, "user");
    let own = frame_prompt(Dialect::ChatMl, &m, None, None);
    assert_eq!(own, Dialect::ChatMl.render(&m));
    assert_eq!(frame_prompt(Dialect::ChatMl, &m, Some("T".into()), Some("F".into())), "T");
    assert_eq!(frame_prompt(Dialect::Gemma, &m, None, Some("F".into())), "F");
    assert_eq!(
        frame_prompt(Dialect::Gemma4, &m, Some("T".into()), None),
        Dialect::Gemma4.render(&m)
    );
}
