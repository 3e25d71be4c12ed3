//! What the inference engine decides: how large a context window is, how a prompt is framed and
//! fitted into it, which tokens of the last turn are reused, and when generation stops. The
//! backend that holds the weights performs the actions.
use vstd::prelude::*;

use crate::dialect;
use crate::dialect::Dialect;
use crate::text;

verus! {

/// Tokens per forward pass during prefill: the backend takes no more at once.
pub const N_BATCH: usize = 512;

/// A context window is never planned smaller than this.
pub const MIN_CTX: u32 = 4096;

/// Past this, prefill takes too long.
pub const MAX_CTX: u32 = 32768;

/// A smaller window has no room for a prompt.
pub const SMALLEST_CTX: u32 = 17;

// ---- the context window ------------------------------------------------------------------------

/// What the backend says of a model.
pub struct ModelShape {
    pub n_ctx_train: u32,
    pub n_embd: u64,
    pub n_head: u64,
    pub n_layer: u64,
    pub n_head_kv: u64,
    /// The bytes of the weights.
    pub size: u64,
}

pub open spec fn head_dim(m: ModelShape) -> nat {
    let derived = m.n_embd as nat / (if m.n_head == 0 {
        1nat
    } else {
        m.n_head as nat
    });
    if derived < 256 {
        256
    } else {
        derived
    }
}

/// The bytes that one token takes in the cache: a key and a value of two bytes each per head and
/// layer, doubled to be safe.
pub open spec fn kv_per_token(m: ModelShape) -> nat {
    m.n_layer as nat * m.n_head_kv as nat * head_dim(m) * 2 * 2 * 2
}

pub open spec fn least(a: nat, b: nat) -> nat {
    if a <= b {
        a
    } else {
        b
    }
}

pub open spec fn most(a: nat, b: nat) -> nat {
    if a >= b {
        a
    } else {
        b
    }
}

/// The tokens whose cache fits beside the weights.
pub open spec fn tokens_that_fit(m: ModelShape, usable: u64) -> nat {
    (if usable >= m.size {
        (usable - m.size) as nat
    } else {
        0
    }) / kv_per_token(m)
}

pub open spec fn trained_ctx(m: ModelShape) -> nat {
    most(m.n_ctx_train as nat, MIN_CTX as nat)
}

/// The planned window: what fits, at most what the model was trained for, what is asked for and
/// the ceiling, in steps of 256, and not below the floor.
pub open spec fn planned(m: ModelShape, usable: u64, cap: u32) -> nat {
    let ceiling = most(cap as nat, MIN_CTX as nat);
    if kv_per_token(m) == 0 {
        least(least(MIN_CTX as nat, trained_ctx(m)), ceiling)
    } else {
        let n = least(
            least(least(tokens_that_fit(m, usable), trained_ctx(m)), MAX_CTX as nat),
            cap as nat,
        );
        least(least(most(n / 256 * 256, MIN_CTX as nat), trained_ctx(m)), ceiling)
    }
}

/// The bytes per token can be computed.
pub fn shape_fits(m: &ModelShape) -> (r: bool)
    ensures
        r == (kv_per_token(*m) <= u64::MAX),
{
    let head = head_size(m);
    let a = m.n_layer.checked_mul(m.n_head_kv);
    proof {
        let x = m.n_layer as nat * m.n_head_kv as nat;
        assert(head >= 256);
        assert(x * head_dim(*m) >= x) by (nonlinear_arith)
            requires
                head_dim(*m) >= 1,
        ;
    }
    match a {
        None => false,
        Some(x) => match x.checked_mul(head) {
            None => false,
            Some(y) => y <= u64::MAX / 8,
        },
    }
}

fn head_size(m: &ModelShape) -> (r: u64)
    ensures
        r == head_dim(*m),
        r >= 256,
{
    let heads: u64 = if m.n_head == 0 {
        1
    } else {
        m.n_head
    };
    let derived = m.n_embd / heads;
    if derived < 256 {
        256
    } else {
        derived
    }
}

fn lesser(a: u64, b: u64) -> (r: u64)
    ensures
        r == least(a as nat, b as nat),
{
    if a <= b {
        a
    } else {
        b
    }
}

fn greater(a: u64, b: u64) -> (r: u64)
    ensures
        r == most(a as nat, b as nat),
{
    if a >= b {
        a
    } else {
        b
    }
}

/// Plans a context window for a model, of which `usable` bytes may be taken in all.
pub fn plan_n_ctx(m: &ModelShape, usable: u64, n_ctx_cap: u32) -> (r: u32)
    requires
        kv_per_token(*m) <= u64::MAX,
    ensures
        r == planned(*m, usable, n_ctx_cap),
{
    let floor: u64 = MIN_CTX as u64;
    let trained = greater(m.n_ctx_train as u64, floor);
    let ceiling = greater(n_ctx_cap as u64, floor);
    let head = head_size(m);
    proof {
        let x = m.n_layer as nat * m.n_head_kv as nat;
        assert(x * head_dim(*m) >= x) by (nonlinear_arith)
            requires
                head_dim(*m) >= 1,
        ;
    }
    let kv = m.n_layer * m.n_head_kv * head * 8;
    if kv == 0 {
        return lesser(lesser(floor, trained), ceiling) as u32;
    }
    let for_kv = if usable >= m.size {
        usable - m.size
    } else {
        0
    };
    let fits = for_kv / kv;
    let n = lesser(lesser(lesser(fits, trained), MAX_CTX as u64), n_ctx_cap as u64);
    lesser(lesser(greater(n / 256 * 256, floor), trained), ceiling) as u32
}

/// A planned window is never below the floor, never above what the model was trained for, what is
/// asked for or the ceiling, and what it holds beyond the floor fits beside the weights. Where less
/// than the floor is asked for, or where the model was trained for less, the floor wins.
pub proof fn law_window_fits(m: ModelShape, usable: u64, cap: u32)
    ensures
        planned(m, usable, cap) >= MIN_CTX,
        planned(m, usable, cap) <= trained_ctx(m),
        planned(m, usable, cap) <= most(cap as nat, MIN_CTX as nat),
        planned(m, usable, cap) <= MAX_CTX,
        planned(m, usable, cap) > MIN_CTX ==> m.size + planned(m, usable, cap) * kv_per_token(m)
            <= usable,
{
    let kv = kv_per_token(m);
    if kv > 0 && planned(m, usable, cap) > MIN_CTX {
        let room = if usable >= m.size {
            (usable - m.size) as nat
        } else {
            0
        };
        let fits = room / kv;
        let p = planned(m, usable, cap);
        assert(p <= fits);
        assert(p * kv <= room) by (nonlinear_arith)
            requires
                p <= fits,
                fits == room / kv,
                kv > 0,
        ;
        assert(room > 0) by (nonlinear_arith)
            requires
                p * kv <= room,
                p > 0,
                kv > 0,
        ;
    }
}

// ---- the prompt ----------------------------------------------------------------------------------

/// The turns that have something in them.
pub open spec fn spoken(t: Seq<(Seq<char>, Seq<char>)>) -> Seq<(Seq<char>, Seq<char>)>
    decreases t.len(),
{
    if t.len() == 0 {
        seq![]
    } else if text::is_blank(t.last().1) {
        spoken(t.drop_last())
    } else {
        spoken(t.drop_last()).push(t.last())
    }
}

/// What a prompt comes to: the model's own template, where it has one and takes the turns as
/// they are or with the system turns folded in; else our own rendering, which is always taken for
/// the family that the backend mistakes for another.
pub open spec fn framed(
    d: Dialect,
    t: Seq<(Seq<char>, Seq<char>)>,
    plain: Option<Seq<char>>,
    folded: Option<Seq<char>>,
) -> Seq<char> {
    if d is Gemma4 {
        dialect::prompt_of(d, t)
    } else {
        match plain {
            Some(s) => s,
            None => match folded {
                Some(s) => s,
                None => dialect::prompt_of(d, t),
            },
        }
    }
}

/// The turns to hand to the model's own template.
pub fn template_turns(messages: &[(String, String)]) -> (r: Vec<(String, String)>)
    ensures
        dialect::turns(r@) == spoken(dialect::turns(messages@)),
{
    let ghost all = dialect::turns(messages@);
    let mut out: Vec<(String, String)> = Vec::new();
    let mut i: usize = 0;
    proof {
        assert(all.take(0) =~= Seq::<(Seq<char>, Seq<char>)>::empty());
        assert(dialect::turns(out@) =~= spoken(all.take(0)));
    }
    while i < messages.len()
        invariant
            all == dialect::turns(messages@),
            i <= messages@.len(),
            dialect::turns(out@) == spoken(all.take(i as int)),
        decreases messages.len() - i,
    {
        let m = &messages[i];
        proof {
            assert(all.take(i as int + 1).drop_last() =~= all.take(i as int));
            assert(all.take(i as int + 1).last() == (m.0@, m.1@));
        }
        let ghost before = out@;
        if !text::str_is_blank(m.1.as_str()) {
            out.push((text::copy(m.0.as_str()), text::copy(m.1.as_str())));
            proof {
                assert(dialect::turns(out@) =~= dialect::turns(before).push((m.0@, m.1@)));
            }
        }
        i = i + 1;
    }
    proof {
        assert(all.take(i as int) =~= all);
    }
    out
}

/// The turns to hand to a template that takes no system turn.
pub fn folded_template_turns(messages: &[(String, String)]) -> (r: Vec<(String, String)>)
    ensures
        dialect::turns(r@) == spoken(dialect::folded(dialect::turns(messages@))),
{
    let f = dialect::fold_system_into_user(messages);
    template_turns(f.as_slice())
}

/// Frames the prompt, given what the model's own template made of the turns.
pub fn frame_prompt(
    d: Dialect,
    messages: &[(String, String)],
    plain: Option<String>,
    folded: Option<String>,
) -> (r: String)
    ensures
        r@ == framed(
            d,
            dialect::turns(messages@),
            match plain {
                Some(s) => Some(s@),
                None => None,
            },
            match folded {
                Some(s) => Some(s@),
                None => None,
            },
        ),
{
    if let Dialect::Gemma4 = d {
        return d.render(messages);
    }
    match plain {
        Some(s) => s,
        None => match folded {
            Some(s) => s,
            None => d.render(messages),
        },
    }
}

// ---- fitting and reuse ------------------------------------------------------------------------------

/// The tokens that a prompt may take, so that there is room to generate.
pub open spec fn budget(n_ctx: u32, max_tokens: usize) -> int {
    n_ctx - least(max_tokens as nat, (n_ctx / 2) as nat) - 8
}

/// The prompt, fitted: where it is too long its beginning and its end are kept.
pub open spec fn fitted(tokens: Seq<i32>, room: int) -> Seq<i32> {
    if tokens.len() <= room {
        tokens
    } else {
        let head = least(256, (room / 4) as nat) as int;
        tokens.take(head) + tokens.skip(tokens.len() - (room - head))
    }
}

/// Keeps the prompt within the context window.
pub fn fit_prompt(tokens: Vec<i32>, n_ctx: u32, max_tokens: usize) -> (r: Vec<i32>)
    requires
        budget(n_ctx, max_tokens) >= 0,
    ensures
        r@ == fitted(tokens@, budget(n_ctx, max_tokens)),
        r@.len() == least(tokens@.len(), budget(n_ctx, max_tokens) as nat),
{
    let half: usize = (n_ctx / 2) as usize;
    let kept = if max_tokens <= half {
        max_tokens
    } else {
        half
    };
    let room: usize = n_ctx as usize - kept - 8;
    if tokens.len() <= room {
        return tokens;
    }
    let head: usize = if room / 4 < 256 {
        room / 4
    } else {
        256
    };
    let tail = room - head;
    let from = tokens.len() - tail;
    let mut rest = tokens;
    let end = rest.split_off(from);
    rest.truncate(head);
    let mut end = end;
    rest.append(&mut end);
    proof {
        assert(rest@ =~= fitted(tokens@, room as int));
    }
    rest
}

/// How many leading tokens two sequences share.
pub open spec fn shared(a: Seq<i32>, b: Seq<i32>, from: int) -> nat
    decreases a.len() - from,
{
    if 0 <= from < a.len() && from < b.len() && a[from] == b[from] {
        1 + shared(a, b, from + 1)
    } else {
        0
    }
}

proof fn lemma_shared(a: Seq<i32>, b: Seq<i32>, from: int, i: int)
    requires
        0 <= from <= i < from + shared(a, b, from),
    ensures
        from + shared(a, b, from) <= a.len(),
        from + shared(a, b, from) <= b.len(),
        a[i] == b[i],
    decreases a.len() - from,
{
    if i > from {
        lemma_shared(a, b, from + 1, i);
    } else if shared(a, b, from + 1) > 0 {
        lemma_shared(a, b, from + 1, from + 1);
    }
}

pub fn common_prefix_len(a: &Vec<i32>, b: &Vec<i32>) -> (r: usize)
    ensures
        r == shared(a@, b@, 0),
        r <= a@.len(),
        r <= b@.len(),
{
    let mut n: usize = 0;
    while n < a.len() && n < b.len() && a[n] == b[n]
        invariant
            n <= a@.len(),
            n <= b@.len(),
            shared(a@, b@, 0) == n + shared(a@, b@, n as int),
        decreases a.len() - n,
    {
        n = n + 1;
    }
    n
}

/// The tokens that are reused: those that the cache and the prompt share, but never the whole
/// prompt, since something has to be decoded to sample from.
pub open spec fn reused(cached: Seq<i32>, tokens: Seq<i32>) -> nat {
    let n = shared(cached, tokens, 0);
    if n >= tokens.len() {
        (tokens.len() - 1) as nat
    } else {
        n
    }
}

// ---- generation: states, events, actions -----------------------------------------------------------------

pub enum GenPhase {
    Idle,
    /// The backend is asked to drop what follows the first `reuse` tokens.
    Trimming { tokens: Vec<i32>, reuse: usize, limit: usize },
    /// The tokens before `base` are in the cache; those up to `end` are being decoded.
    Prefilling { tokens: Vec<i32>, base: usize, end: usize, limit: usize },
    /// A token is being sampled.
    Sampling { prompt: usize, made: usize, emitted: String, limit: usize },
    /// The token that was sampled is being decoded.
    Stepping { prompt: usize, made: usize, emitted: String, limit: usize, token: i32 },
}

pub enum GenPhaseV {
    Idle,
    Trimming { tokens: Seq<i32>, reuse: int, limit: nat },
    Prefilling { tokens: Seq<i32>, base: int, end: int, limit: nat },
    Sampling { prompt: nat, made: nat, emitted: Seq<char>, limit: nat },
    Stepping { prompt: nat, made: nat, emitted: Seq<char>, limit: nat, token: i32 },
}

impl View for GenPhase {
    type V = GenPhaseV;

    open spec fn view(&self) -> GenPhaseV {
        match *self {
            GenPhase::Idle => GenPhaseV::Idle,
            GenPhase::Trimming { tokens, reuse, limit } => GenPhaseV::Trimming {
                tokens: tokens@,
                reuse: reuse as int,
                limit: limit as nat,
            },
            GenPhase::Prefilling { tokens, base, end, limit } => GenPhaseV::Prefilling {
                tokens: tokens@,
                base: base as int,
                end: end as int,
                limit: limit as nat,
            },
            GenPhase::Sampling { prompt, made, emitted, limit } => GenPhaseV::Sampling {
                prompt: prompt as nat,
                made: made as nat,
                emitted: emitted@,
                limit: limit as nat,
            },
            GenPhase::Stepping { prompt, made, emitted, limit, token } => GenPhaseV::Stepping {
                prompt: prompt as nat,
                made: made as nat,
                emitted: emitted@,
                limit: limit as nat,
                token,
            },
        }
    }
}

/// The context of the loaded model.
pub struct LocalContext {
    pub n_ctx: u32,
    /// The tokens that are in the cache: the last prompt and what was generated from it.
    pub cached: Vec<i32>,
    /// The texts that end generation.
    pub stop: Vec<String>,
    pub phase: GenPhase,
}

pub struct ContextV {
    pub n_ctx: u32,
    pub cached: Seq<i32>,
    pub stop: Seq<Seq<char>>,
    pub phase: GenPhaseV,
}

impl View for LocalContext {
    type V = ContextV;

    open spec fn view(&self) -> ContextV {
        ContextV {
            n_ctx: self.n_ctx,
            cached: self.cached@,
            stop: text::texts(self.stop@),
            phase: self.phase@,
        }
    }
}

/// A token that was sampled.
pub struct Sampled {
    pub token: i32,
    /// The token ends the generation.
    pub last: bool,
    pub piece: String,
}

pub enum GenAction {
    /// Empty the cache.
    Clear,
    /// Drop what follows the first tokens from the cache, and say whether that was done.
    Trim { keep: usize },
    /// Decode tokens from this position on; the last of them gives what is sampled from where
    /// `logits` is set.
    Decode { tokens: Vec<i32>, start: usize, logits: bool },
    /// Sample a token, unless the user has stopped the generation.
    Sample,
    /// Show what was generated.
    Emit(String),
    /// The generation is over.
    Done { prompt: usize, made: usize },
    Fail(String),
}

pub enum GenActionV {
    Clear,
    Trim { keep: nat },
    Decode { tokens: Seq<i32>, start: nat, logits: bool },
    Sample,
    Emit(Seq<char>),
    Done { prompt: nat, made: nat },
    Fail(Seq<char>),
}

impl View for GenAction {
    type V = GenActionV;

    open spec fn view(&self) -> GenActionV {
        match *self {
            GenAction::Clear => GenActionV::Clear,
            GenAction::Trim { keep } => GenActionV::Trim { keep: keep as nat },
            GenAction::Decode { tokens, start, logits } => GenActionV::Decode {
                tokens: tokens@,
                start: start as nat,
                logits,
            },
            GenAction::Sample => GenActionV::Sample,
            GenAction::Emit(s) => GenActionV::Emit(s@),
            GenAction::Done { prompt, made } => GenActionV::Done {
                prompt: prompt as nat,
                made: made as nat,
            },
            GenAction::Fail(e) => GenActionV::Fail(e@),
        }
    }
}

pub open spec fn actions_view(v: Seq<GenAction>) -> Seq<GenActionV> {
    v.map_values(|a: GenAction| a@)
}

// ---- generation: steps ---------------------------------------------------------------------------------------

pub struct GenMoved {
    pub state: ContextV,
    pub actions: Seq<GenActionV>,
}

pub open spec fn idle(st: ContextV) -> ContextV {
    ContextV { phase: GenPhaseV::Idle, ..st }
}

/// Decodes the next chunk of the prompt, after `first`.
pub open spec fn prefilling(
    st: ContextV,
    first: Seq<GenActionV>,
    tokens: Seq<i32>,
    base: int,
    limit: nat,
) -> GenMoved {
    let end = least(tokens.len(), (base + N_BATCH) as nat) as int;
    GenMoved {
        state: ContextV { phase: GenPhaseV::Prefilling { tokens, base, end, limit }, ..st },
        actions: first.push(
            GenActionV::Decode {
                tokens: tokens.subrange(base, end),
                start: base as nat,
                logits: end == tokens.len(),
            },
        ),
    }
}

/// A generation begins.
pub open spec fn started(st: ContextV, tokens: Seq<i32>, max_tokens: usize) -> GenMoved {
    if tokens.len() == 0 {
        GenMoved { state: idle(st), actions: seq![GenActionV::Done { prompt: 0, made: 0 }] }
    } else {
        let t = fitted(tokens, budget(st.n_ctx, max_tokens));
        let n = reused(st.cached, t);
        if n > 0 {
            GenMoved {
                state: ContextV {
                    phase: GenPhaseV::Trimming {
                        tokens: t,
                        reuse: n as int,
                        limit: max_tokens as nat,
                    },
                    ..st
                },
                actions: seq![GenActionV::Trim { keep: n }],
            }
        } else {
            prefilling(
                ContextV { cached: seq![], ..st },
                seq![GenActionV::Clear],
                t,
                0,
                max_tokens as nat,
            )
        }
    }
}

/// The backend has dropped what was to be dropped, or cannot: then all of it goes.
pub open spec fn trimmed(st: ContextV, done: bool) -> GenMoved {
    match st.phase {
        GenPhaseV::Trimming { tokens, reuse, limit } => if done {
            prefilling(st, seq![], tokens, reuse, limit)
        } else {
            prefilling(
                ContextV { cached: seq![], ..st },
                seq![GenActionV::Clear],
                tokens,
                0,
                limit,
            )
        },
        _ => GenMoved { state: st, actions: seq![] },
    }
}

/// Another token is sampled, unless enough were made or the window is full.
pub open spec fn next_token(
    st: ContextV,
    prompt: nat,
    made: nat,
    emitted: Seq<char>,
    limit: nat,
) -> GenMoved {
    if made < limit && st.cached.len() < st.n_ctx {
        GenMoved {
            state: ContextV { phase: GenPhaseV::Sampling { prompt, made, emitted, limit }, ..st },
            actions: seq![GenActionV::Sample],
        }
    } else {
        GenMoved { state: idle(st), actions: seq![GenActionV::Done { prompt, made }] }
    }
}

/// What was to be decoded is decoded.
pub open spec fn decoded(st: ContextV) -> GenMoved {
    match st.phase {
        GenPhaseV::Prefilling { tokens, end, limit, .. } => if end < tokens.len() {
            prefilling(st, seq![], tokens, end, limit)
        } else {
            next_token(ContextV { cached: tokens, ..st }, tokens.len(), 0, seq![], limit)
        },
        GenPhaseV::Stepping { prompt, made, emitted, limit, token } => next_token(
            ContextV { cached: st.cached.push(token), ..st },
            prompt,
            made,
            emitted,
            limit,
        ),
        _ => GenMoved { state: st, actions: seq![] },
    }
}

/// Decoding failed: nothing half-written stays in the cache.
pub open spec fn decode_failure(st: ContextV, e: Seq<char>) -> GenMoved {
    GenMoved {
        state: idle(ContextV { cached: seq![], ..st }),
        actions: seq![GenActionV::Clear, GenActionV::Fail(e)],
    }
}

/// One of the texts that end generation has appeared.
pub open spec fn stops_at(stop: Seq<Seq<char>>, emitted: Seq<char>) -> bool {
    exists|i: int| 0 <= i < stop.len() && text::contains(emitted, #[trigger] stop[i])
}

/// The generation goes on with a token; without one, the user has stopped it.
pub open spec fn sampled(st: ContextV, s: Option<(i32, bool, Seq<char>)>) -> GenMoved {
    match st.phase {
        GenPhaseV::Sampling { prompt, made, emitted, limit } => {
            let over = GenMoved {
                state: idle(st),
                actions: seq![GenActionV::Done { prompt, made }],
            };
            match s {
                None => over,
                Some((token, last, piece)) => if last {
                    over
                } else {
                    let now = if st.stop.len() > 0 {
                        emitted + piece
                    } else {
                        emitted
                    };
                    if st.stop.len() > 0 && stops_at(st.stop, now) {
                        GenMoved {
                            state: idle(st),
                            actions: seq![
                                GenActionV::Emit(piece),
                                GenActionV::Done { prompt, made: made + 1 },
                            ],
                        }
                    } else {
                        GenMoved {
                            state: ContextV {
                                phase: GenPhaseV::Stepping {
                                    prompt,
                                    made: made + 1,
                                    emitted: now,
                                    limit,
                                    token,
                                },
                                ..st
                            },
                            actions: seq![
                                GenActionV::Emit(piece),
                                GenActionV::Decode {
                                    tokens: seq![token],
                                    start: st.cached.len(),
                                    logits: true,
                                },
                            ],
                        }
                    }
                },
            }
        },
        _ => GenMoved { state: st, actions: seq![] },
    }
}

/// What holds of every context.
pub open spec fn context_ok(st: ContextV) -> bool {
    &&& st.n_ctx >= SMALLEST_CTX
    &&& match st.phase {
        GenPhaseV::Idle => true,
        GenPhaseV::Trimming { tokens, reuse, .. } => {
            &&& 0 < reuse < tokens.len()
            &&& reuse <= st.cached.len()
            &&& tokens.take(reuse) == st.cached.take(reuse)
            &&& tokens.len() <= st.n_ctx - 8
        },
        GenPhaseV::Prefilling { tokens, base, end, .. } => {
            &&& 0 <= base < end <= tokens.len()
            &&& end <= base + N_BATCH
            &&& tokens.len() <= st.n_ctx - 8
        },
        GenPhaseV::Sampling { prompt, made, limit, .. } => {
            &&& made < limit
            &&& st.cached.len() == prompt + made
            &&& st.cached.len() < st.n_ctx
        },
        GenPhaseV::Stepping { prompt, made, limit, .. } => {
            &&& 0 < made <= limit
            &&& st.cached.len() + 1 == prompt + made
            &&& st.cached.len() < st.n_ctx
        },
    }
}

// ---- generation: the executable steps ---------------------------------------------------------------------------

fn push_action(v: &mut Vec<GenAction>, a: GenAction)
    ensures
        actions_view(final(v)@) == actions_view(old(v)@).push(a@),
{
    let ghost before = v@;
    v.push(a);
    proof {
        assert(actions_view(v@) =~= actions_view(before).push(a@));
    }
}

fn no_actions() -> (r: Vec<GenAction>)
    ensures
        actions_view(r@) == Seq::<GenActionV>::empty(),
{
    let r: Vec<GenAction> = Vec::new();
    proof {
        assert(actions_view(r@) =~= Seq::<GenActionV>::empty());
    }
    r
}

fn one_action(a: GenAction) -> (r: Vec<GenAction>)
    ensures
        actions_view(r@) == seq![a@],
{
    let mut r = no_actions();
    push_action(&mut r, a);
    proof {
        assert(actions_view(r@) =~= seq![a@]);
    }
    r
}

fn copy_tokens(v: &Vec<i32>, lo: usize, hi: usize) -> (r: Vec<i32>)
    requires
        lo <= hi <= v@.len(),
    ensures
        r@ == v@.subrange(lo as int, hi as int),
{
    let mut out: Vec<i32> = Vec::new();
    let mut i: usize = lo;
    while i < hi
        invariant
            lo <= i <= hi <= v@.len(),
            out@ == v@.subrange(lo as int, i as int),
        decreases hi - i,
    {
        out.push(v[i]);
        proof {
            assert(out@ =~= v@.subrange(lo as int, i as int + 1));
        }
        i = i + 1;
    }
    out
}

fn reaches_stop(stop: &Vec<String>, emitted: &str) -> (r: bool)
    ensures
        r == stops_at(text::texts(stop@), emitted@),
{
    let ghost all = text::texts(stop@);
    let mut i: usize = 0;
    while i < stop.len()
        invariant
            all == text::texts(stop@),
            i <= stop@.len(),
            forall|j: int| 0 <= j < i ==> !text::contains(emitted@, #[trigger] all[j]),
        decreases stop.len() - i,
    {
        proof {
            assert(all[i as int] == stop@[i as int]@);
        }
        if text::str_contains(emitted, stop[i].as_str()) {
            return true;
        }
        i = i + 1;
    }
    false
}

impl LocalContext {
    pub open spec fn wf(&self) -> bool {
        context_ok(self@)
    }

    /// The context of a model that was just loaded.
    pub fn new(n_ctx: u32) -> (r: Self)
        requires
            n_ctx >= SMALLEST_CTX,
        ensures
            r.wf(),
            r@ == (ContextV { n_ctx, cached: seq![], stop: seq![], phase: GenPhaseV::Idle }),
    {
        let r = LocalContext {
            n_ctx,
            cached: Vec::new(),
            stop: Vec::new(),
            phase: GenPhase::Idle,
        };
        proof {
            assert(text::texts(r.stop@) =~= Seq::<Seq<char>>::empty());
        }
        r
    }

    fn prefill(&mut self, first: Vec<GenAction>, tokens: Vec<i32>, base: usize, limit: usize) -> (r:
        Vec<GenAction>)
        requires
            old(self).n_ctx >= SMALLEST_CTX,
            base < tokens@.len() <= old(self).n_ctx - 8,
        ensures
            final(self).wf(),
            ({
                let m = prefilling(
                    old(self)@,
                    actions_view(first@),
                    tokens@,
                    base as int,
                    limit as nat,
                );
                &&& final(self)@ == m.state
                &&& actions_view(r@) == m.actions
            }),
    {
        let total = tokens.len();
        let end = if total - base <= N_BATCH {
            total
        } else {
            base + N_BATCH
        };
        let mut actions = first;
        let chunk = copy_tokens(&tokens, base, end);
        push_action(
            &mut actions,
            GenAction::Decode { tokens: chunk, start: base, logits: end == total },
        );
        self.phase = GenPhase::Prefilling { tokens, base, end, limit };
        actions
    }

    /// Begins to generate from a prompt, with the texts that end generation.
    pub fn start(&mut self, tokens: Vec<i32>, max_tokens: usize, stop: Vec<String>) -> (r: Vec<
        GenAction,
    >)
        requires
            old(self).wf(),
            old(self).phase is Idle,
        ensures
            final(self).wf(),
            ({
                let st = ContextV { stop: text::texts(stop@), ..old(self)@ };
                &&& final(self)@ == started(st, tokens@, max_tokens).state
                &&& actions_view(r@) == started(st, tokens@, max_tokens).actions
            }),
    {
        self.stop = stop;
        if tokens.len() == 0 {
            return one_action(GenAction::Done { prompt: 0, made: 0 });
        }
        let t = fit_prompt(tokens, self.n_ctx, max_tokens);
        let mut reuse = common_prefix_len(&self.cached, &t);
        proof {
            assert(t@.len() > 0);
            assert(t@.len() <= self.n_ctx - 8);
        }
        if reuse >= t.len() {
            reuse = t.len() - 1;
        }
        if reuse > 0 {
            proof {
                assert forall|i: int| 0 <= i < reuse implies t@[i] == self.cached@[i] by {
                    lemma_shared(self.cached@, t@, 0, i);
                }
                assert(t@.take(reuse as int) =~= self.cached@.take(reuse as int));
            }
            self.phase = GenPhase::Trimming { tokens: t, reuse, limit: max_tokens };
            one_action(GenAction::Trim { keep: reuse })
        } else {
            self.cached = Vec::new();
            self.prefill(one_action(GenAction::Clear), t, 0, max_tokens)
        }
    }

    /// Takes the answer of the backend that was asked to drop tokens.
    pub fn take_trimmed(&mut self, done: bool) -> (r: Vec<GenAction>)
        requires
            old(self).wf(),
            old(self).phase is Trimming,
        ensures
            final(self).wf(),
            final(self)@ == trimmed(old(self)@, done).state,
            actions_view(r@) == trimmed(old(self)@, done).actions,
    {
        let mut phase = GenPhase::Idle;
        std::mem::swap(&mut phase, &mut self.phase);
        if let GenPhase::Trimming { tokens, reuse, limit } = phase {
            if done {
                self.prefill(no_actions(), tokens, reuse, limit)
            } else {
                self.cached = Vec::new();
                self.prefill(one_action(GenAction::Clear), tokens, 0, limit)
            }
        } else {
            no_actions()
        }
    }

    fn go_on(&mut self, prompt: usize, made: usize, emitted: String, limit: usize) -> (r: Vec<
        GenAction,
    >)
        requires
            old(self).n_ctx >= SMALLEST_CTX,
            old(self).cached@.len() == prompt + made,
            made <= limit,
        ensures
            final(self).wf(),
            ({
                let m = next_token(
                    old(self)@,
                    prompt as nat,
                    made as nat,
                    emitted@,
                    limit as nat,
                );
                &&& final(self)@ == m.state
                &&& actions_view(r@) == m.actions
            }),
    {
        if made < limit && self.cached.len() < self.n_ctx as usize {
            self.phase = GenPhase::Sampling { prompt, made, emitted, limit };
            one_action(GenAction::Sample)
        } else {
            self.phase = GenPhase::Idle;
            one_action(GenAction::Done { prompt, made })
        }
    }

    /// Takes the news that what was to be decoded is decoded.
    pub fn take_decoded(&mut self) -> (r: Vec<GenAction>)
        requires
            old(self).wf(),
            old(self).phase is Prefilling || old(self).phase is Stepping,
        ensures
            final(self).wf(),
            final(self)@ == decoded(old(self)@).state,
            actions_view(r@) == decoded(old(self)@).actions,
    {
        let mut phase = GenPhase::Idle;
        std::mem::swap(&mut phase, &mut self.phase);
        match phase {
            GenPhase::Prefilling { tokens, base: _, end, limit } => {
                if end < tokens.len() {
                    self.prefill(no_actions(), tokens, end, limit)
                } else {
                    let prompt = tokens.len();
                    self.cached = tokens;
                    let nothing = String::new();
                    proof {
                        assert(nothing@ =~= Seq::<char>::empty());
                    }
                    self.go_on(prompt, 0, nothing, limit)
                }
            },
            GenPhase::Stepping { prompt, made, emitted, limit, token } => {
                self.cached.push(token);
                self.go_on(prompt, made, emitted, limit)
            },
            _ => no_actions(),
        }
    }

    /// Takes the news that decoding failed.
    pub fn take_failure(&mut self, e: String) -> (r: Vec<GenAction>)
        requires
            old(self).wf(),
        ensures
            final(self).wf(),
            final(self)@ == decode_failure(old(self)@, e@).state,
            actions_view(r@) == decode_failure(old(self)@, e@).actions,
    {
        self.cached = Vec::new();
        self.phase = GenPhase::Idle;
        let mut r = one_action(GenAction::Clear);
        push_action(&mut r, GenAction::Fail(e));
        proof {
            assert(actions_view(r@) =~= seq![GenActionV::Clear, GenActionV::Fail(e@)]);
        }
        r
    }

    /// Takes a token that was sampled; there is none where the user has stopped the generation.
    pub fn take_sampled(&mut self, s: Option<Sampled>) -> (r: Vec<GenAction>)
        requires
            old(self).wf(),
            old(self).phase is Sampling,
        ensures
            final(self).wf(),
            ({
                let seen = match s {
                    Some(x) => Some((x.token, x.last, x.piece@)),
                    None => None,
                };
                &&& final(self)@ == sampled(old(self)@, seen).state
                &&& actions_view(r@) == sampled(old(self)@, seen).actions
            }),
    {
        let mut phase = GenPhase::Idle;
        std::mem::swap(&mut phase, &mut self.phase);
        if let GenPhase::Sampling { prompt, made, emitted, limit } = phase {
            if let Some(x) = s {
                if !x.last {
                    let mut now = emitted;
                    let mut actions = one_action(GenAction::Emit(text::copy(x.piece.as_str())));
                    proof {
                        assert(text::texts(self.stop@).len() == self.stop@.len());
                    }
                    if self.stop.len() > 0 {
                        now.append(x.piece.as_str());
                        if reaches_stop(&self.stop, now.as_str()) {
                            push_action(&mut actions, GenAction::Done { prompt, made: made + 1 });
                            proof {
                                assert(actions_view(actions@) =~= seq![
                                    GenActionV::Emit(x.piece@),
                                    GenActionV::Done {
                                        prompt: prompt as nat,
                                        made: made as nat + 1,
                                    },
                                ]);
                            }
                            return actions;
                        }
                    }
                    let mut one: Vec<i32> = Vec::new();
                    one.push(x.token);
                    let ghost sent = one@;
                    push_action(
                        &mut actions,
                        GenAction::Decode { tokens: one, start: self.cached.len(), logits: true },
                    );
                    proof {
                        assert(sent =~= seq![x.token]);
                        assert(actions_view(actions@) =~= seq![
                            GenActionV::Emit(x.piece@),
                            GenActionV::Decode {
                                tokens: seq![x.token],
                                start: self.cached@.len(),
                                logits: true,
                            },
                        ]);
                    }
                    self.phase = GenPhase::Stepping {
                        prompt,
                        made: made + 1,
                        emitted: now,
                        limit,
                        token: x.token,
                    };
                    return actions;
                }
            }
            one_action(GenAction::Done { prompt, made })
        } else {
            no_actions()
        }
    }
}

// ---- laws ----------------------------------------------------------------------------------------------------

/// What the context is told.
pub enum GenEventV {
    Start { tokens: Seq<i32>, max_tokens: usize },
    Trimmed { done: bool },
    Decoded,
    Failed { e: Seq<char> },
    Sampled(Option<(i32, bool, Seq<char>)>),
}

pub open spec fn stepped(st: ContextV, ev: GenEventV) -> GenMoved {
    match ev {
        GenEventV::Start { tokens, max_tokens } => started(st, tokens, max_tokens),
        GenEventV::Trimmed { done } => trimmed(st, done),
        GenEventV::Decoded => decoded(st),
        GenEventV::Failed { e } => decode_failure(st, e),
        GenEventV::Sampled(s) => sampled(st, s),
    }
}

pub open spec fn awaited(st: ContextV, ev: GenEventV) -> bool {
    match ev {
        GenEventV::Start { .. } => st.phase is Idle,
        GenEventV::Trimmed { .. } => st.phase is Trimming,
        GenEventV::Decoded => st.phase is Prefilling || st.phase is Stepping,
        GenEventV::Failed { .. } => st.phase is Prefilling || st.phase is Stepping,
        GenEventV::Sampled(_) => st.phase is Sampling,
    }
}

/// The cache of the backend, once it has answered: it dropped what it said it dropped, and it
/// holds what it said it decoded.
pub open spec fn answered(st: ContextV, kv: Seq<i32>, ev: GenEventV) -> Seq<i32> {
    match (st.phase, ev) {
        (GenPhaseV::Trimming { reuse, .. }, GenEventV::Trimmed { done }) => if done {
            kv.take(reuse)
        } else {
            kv
        },
        (GenPhaseV::Prefilling { tokens, base, end, .. }, GenEventV::Decoded) => kv
            + tokens.subrange(base, end),
        (GenPhaseV::Stepping { token, .. }, GenEventV::Decoded) => kv.push(token),
        _ => kv,
    }
}

/// The cache of the backend, once it has emptied it where it was told to.
pub open spec fn cleared(kv: Seq<i32>, actions: Seq<GenActionV>) -> Seq<i32> {
    if actions.len() > 0 && actions[0] is Clear {
        seq![]
    } else {
        kv
    }
}

/// The context knows what is in the backend's cache.
pub open spec fn faithful(st: ContextV, kv: Seq<i32>) -> bool {
    match st.phase {
        GenPhaseV::Prefilling { tokens, base, .. } => kv == tokens.take(base),
        _ => kv == st.cached,
    }
}

/// The context always knows what is in the cache: whatever the backend answers, the tokens that
/// it counts on in the next turn are those that are there.
pub proof fn law_cache_is_known(st: ContextV, kv: Seq<i32>, ev: GenEventV)
    requires
        context_ok(st),
        awaited(st, ev),
        faithful(st, kv) || ev is Failed,
    ensures
        context_ok(stepped(st, ev).state),
        faithful(
            stepped(st, ev).state,
            cleared(answered(st, kv, ev), stepped(st, ev).actions),
        ),
{
    let m = stepped(st, ev);
    let now = cleared(answered(st, kv, ev), m.actions);
    match ev {
        GenEventV::Start { tokens, max_tokens } => {
            if tokens.len() > 0 {
                let t = fitted(tokens, budget(st.n_ctx, max_tokens));
                lemma_fitted(tokens, budget(st.n_ctx, max_tokens));
                let n = reused(st.cached, t);
                if n > 0 {
                    assert forall|i: int| 0 <= i < n implies t[i] == st.cached[i] by {
                        lemma_shared(st.cached, t, 0, i);
                    }
                    lemma_shared(st.cached, t, 0, 0);
                    assert(t.take(n as int) =~= st.cached.take(n as int));
                } else {
                    assert(t.take(0) =~= Seq::<i32>::empty());
                }
            }
        },
        GenEventV::Trimmed { done } => {
            if let GenPhaseV::Trimming { tokens, .. } = st.phase {
                assert(tokens.take(0) =~= Seq::<i32>::empty());
            }
        },
        GenEventV::Decoded => {
            if let GenPhaseV::Prefilling { tokens, base, end, .. } = st.phase {
                assert(tokens.take(base) + tokens.subrange(base, end) =~= tokens.take(end));
                assert(tokens.take(tokens.len() as int) =~= tokens);
            }
        },
        _ => {},
    }
    assert(faithful(m.state, now));
}

proof fn lemma_fitted(tokens: Seq<i32>, room: int)
    requires
        room >= 1,
        tokens.len() > 0,
    ensures
        fitted(tokens, room).len() == least(tokens.len(), room as nat),
{
}

/// The backend is only asked for what it can do: at most a batch of tokens at a time, right behind
/// what is in the cache, and within the context window.
pub proof fn law_decodes_fit(st: ContextV, kv: Seq<i32>, ev: GenEventV, i: int)
    requires
        context_ok(st),
        awaited(st, ev),
        faithful(st, kv) || ev is Failed,
        0 <= i < stepped(st, ev).actions.len(),
    ensures
        stepped(st, ev).actions[i] matches GenActionV::Decode { tokens, start, logits } ==> {
            &&& 0 < tokens.len() <= N_BATCH
            &&& start == cleared(answered(st, kv, ev), stepped(st, ev).actions).len()
            &&& start + tokens.len() <= st.n_ctx
        },
{
    law_cache_is_known(st, kv, ev);
    let m = stepped(st, ev);
    if let GenEventV::Start { tokens, max_tokens } = ev {
        if tokens.len() > 0 {
            lemma_fitted(tokens, budget(st.n_ctx, max_tokens));
        }
    }
    if m.actions[i] is Decode {
        assert(m.state.phase is Prefilling || m.state.phase is Stepping);
    }
}

/// A prompt leaves room for what is to be generated, up to half of the window, and is shortened
/// only where it must be: its beginning and its end are kept.
pub proof fn law_prompt_leaves_room(tokens: Seq<i32>, n_ctx: u32, max_tokens: usize)
    requires
        n_ctx >= SMALLEST_CTX,
    ensures
        fitted(tokens, budget(n_ctx, max_tokens)).len() + least(
            max_tokens as nat,
            (n_ctx / 2) as nat,
        ) + 8 <= n_ctx,
        tokens.len() <= budget(n_ctx, max_tokens) ==> fitted(tokens, budget(n_ctx, max_tokens))
            == tokens,
        tokens.len() > budget(n_ctx, max_tokens) ==> {
            let room = budget(n_ctx, max_tokens);
            let head = least(256, (room / 4) as nat) as int;
            &&& fitted(tokens, room).take(head) == tokens.take(head)
            &&& fitted(tokens, room).skip(head) == tokens.skip(tokens.len() - (room - head))
        },
{
    let room = budget(n_ctx, max_tokens);
    if tokens.len() > room {
        let head = least(256, (room / 4) as nat) as int;
        assert(fitted(tokens, room).take(head) =~= tokens.take(head));
        assert(fitted(tokens, room).skip(head) =~= tokens.skip(tokens.len() - (room - head)));
    }
}

/// However long the prompt, once it is decoded a token is sampled, where any is asked for.
pub proof fn law_prompt_is_answered(st: ContextV)
    requires
        context_ok(st),
        st.phase matches GenPhaseV::Prefilling { tokens, end, limit, .. } && end == tokens.len()
            && limit > 0,
    ensures
        decoded(st).actions == seq![GenActionV::Sample],
{
}

/// At most as many tokens are made as were asked for, and the cache never outgrows the window.
pub proof fn law_generation_is_limited(st: ContextV, ev: GenEventV)
    requires
        context_ok(st),
        awaited(st, ev),
        st.phase is Sampling || st.phase is Stepping,
    ensures
        stepped(st, ev).state.cached.len() <= st.n_ctx,
        forall|i: int| 0 <= i < stepped(st, ev).actions.len() ==> ((
        #[trigger] stepped(st, ev).actions[i]) matches GenActionV::Done { made, .. } ==> made
            <= match st.phase {
            GenPhaseV::Sampling { limit, .. } => limit,
            GenPhaseV::Stepping { limit, .. } => limit,
            _ => 0,
        }),
{
}

/// What the cache and the prompt share is reused, and never the whole prompt.
pub proof fn law_reuse_is_sound(cached: Seq<i32>, tokens: Seq<i32>)
    requires
        tokens.len() > 0,
    ensures
        reused(cached, tokens) < tokens.len(),
        reused(cached, tokens) <= cached.len(),
        tokens.take(reused(cached, tokens) as int) == cached.take(
            reused(cached, tokens) as int,
        ),
{
    let n = reused(cached, tokens);
    assert forall|i: int| 0 <= i < n implies tokens[i] == cached[i] by {
        lemma_shared(cached, tokens, 0, i);
    }
    if n > 0 {
        lemma_shared(cached, tokens, 0, 0);
    }
    assert(tokens.take(n as int) =~= cached.take(n as int));
}

proof fn lemma_shared_all(a: Seq<i32>, b: Seq<i32>, from: int)
    requires
        0 <= from <= a.len() <= b.len(),
        b.take(a.len() as int) == a,
    ensures
        shared(a, b, from) == a.len() - from,
    decreases a.len() - from,
{
    if from < a.len() {
        assert(b.take(a.len() as int)[from] == b[from]);
        lemma_shared_all(a, b, from + 1);
    }
}

/// A prompt that goes on where the cache ends has only its new tokens decoded.
pub proof fn law_growing_prompt(cached: Seq<i32>, tokens: Seq<i32>)
    requires
        cached.len() < tokens.len(),
        tokens.take(cached.len() as int) == cached,
    ensures
        reused(cached, tokens) == cached.len(),
{
    lemma_shared_all(cached, tokens, 0);
}

/// A token takes eight bytes per layer, key head and head dimension, which is at least 256.
pub proof fn law_token_bytes(m: ModelShape)
    ensures
        m.n_head > 0 && m.n_embd as nat / m.n_head as nat >= 256 ==> kv_per_token(m)
            == m.n_layer as nat * m.n_head_kv as nat * (m.n_embd as nat / m.n_head as nat) * 8,
        m.n_head > 0 && m.n_embd as nat / m.n_head as nat <= 256 ==> kv_per_token(m)
            == m.n_layer as nat * m.n_head_kv as nat * 256 * 8,
        m.n_head == 0 && m.n_embd >= 256 ==> kv_per_token(m) == m.n_layer as nat
            * m.n_head_kv as nat * m.n_embd as nat * 8,
{
    let a = m.n_layer as nat * m.n_head_kv as nat * head_dim(m);
    assert(a * 2 * 2 * 2 == a * 8) by (nonlinear_arith);
    if m.n_head == 0 {
        assert(m.n_embd as nat / 1nat == m.n_embd as nat);
    }
}

/// A planned window is the largest that fits: every window in steps of 256 that the model was
/// trained for, that is asked for, within the ceiling and whose cache fits beside the weights is no
/// larger.
pub proof fn law_window_is_the_largest(m: ModelShape, usable: u64, cap: u32, w: nat)
    requires
        kv_per_token(m) > 0,
        w % 256 == 0,
        w <= m.n_ctx_train,
        w <= cap,
        w <= 32768,
        m.size + w * kv_per_token(m) <= usable,
    ensures
        w <= planned(m, usable, cap),
        4096 <= planned(m, usable, cap) <= 32768,
{
    let kv = kv_per_token(m);
    assert(w * kv >= 0) by (nonlinear_arith);
    let room = (usable - m.size) as nat;
    let fits = room / kv;
    assert(w <= fits) by (nonlinear_arith)
        requires
            w * kv <= room,
            fits == room / kv,
            kv > 0,
    ;
    let n = least(least(least(fits, trained_ctx(m)), MAX_CTX as nat), cap as nat);
    assert(w <= n);
    assert(w <= n / 256 * 256);
}

proof fn lemma_spoken(t: Seq<(Seq<char>, Seq<char>)>)
    ensures
        spoken(t) == t.filter(|p: (Seq<char>, Seq<char>)| text::trim(p.1).len() > 0),
    decreases t.len(),
{
    reveal(Seq::filter);
    let says = |p: (Seq<char>, Seq<char>)| text::trim(p.1).len() > 0;
    if t.len() > 0 {
        lemma_spoken(t.drop_last());
        text::law_trim(t.last().1);
        let f = t.drop_last().filter(says);
        if text::is_blank(t.last().1) {
            assert(t.filter(says) =~= f);
        } else {
            assert(t.filter(says) =~= f.push(t.last()));
        }
    } else {
        assert(t.filter(says) =~= spoken(t));
    }
}

/// Only blank turns are left out of a prompt, and the others keep their order and their words.
pub proof fn law_turns_are_kept(t: Seq<(Seq<char>, Seq<char>)>)
    ensures
        spoken(t) == t.filter(|p: (Seq<char>, Seq<char>)| text::trim(p.1).len() > 0),
{
    lemma_spoken(t);
}

/// The model's own template goes first, then the same with the system turns folded in, then our own
/// rendering; one family never gets its own template.
pub proof fn law_templates(
    d: Dialect,
    t: Seq<(Seq<char>, Seq<char>)>,
    plain: Seq<char>,
    folded: Option<Seq<char>>,
    own: Seq<char>,
)
    ensures
        d != Dialect::Gemma4 ==> framed(d, t, Some(plain), folded) == plain,
        d != Dialect::Gemma4 ==> framed(d, t, None, Some(own)) == own,
        framed(d, t, None, None) == dialect::prompt_of(d, t),
        framed(Dialect::Gemma4, t, Some(plain), folded) == dialect::prompt_of(Dialect::Gemma4, t),
{
}

proof fn lemma_shared_ends(a: Seq<i32>, b: Seq<i32>, from: int)
    requires
        0 <= from <= a.len(),
        from <= b.len(),
    ensures
        ({
            let n = from + shared(a, b, from);
            n <= a.len() && n <= b.len() && (n < a.len() && n < b.len() ==> a[n] != b[n])
        }),
    decreases a.len() - from,
{
    if from < a.len() && from < b.len() && a[from] == b[from] {
        lemma_shared_ends(a, b, from + 1);
    }
}

/// As much is reused as can be: reuse ends where the cache and the prompt differ, where the cache
/// ends, or at the last token of the prompt.
pub proof fn law_reuse_is_complete(cached: Seq<i32>, tokens: Seq<i32>)
    requires
        tokens.len() > 0,
    ensures
        ({
            let n = reused(cached, tokens) as int;
            n == cached.len() || n == tokens.len() - 1 || cached[n] != tokens[n]
        }),
{
    lemma_shared_ends(cached, tokens, 0);
}

/// Every token that is sampled and does not end the generation is shown, piece by piece, counted
/// and, unless the generation stops there, decoded right behind the cache. A token that ends it, or
/// a stop by the user, shows nothing more. Texts that end a generation end it as soon as what was
/// shown holds one.
pub proof fn law_pieces_are_shown(
    st: ContextV,
    prompt: nat,
    made: nat,
    emitted: Seq<char>,
    limit: nat,
    token: i32,
    piece: Seq<char>,
)
    requires
        st.phase == (GenPhaseV::Sampling { prompt, made, emitted, limit }),
    ensures
        stepped(st, GenEventV::Sampled(None)).actions == seq![GenActionV::Done { prompt, made }],
        stepped(st, GenEventV::Sampled(Some((token, true, piece)))).actions == seq![
            GenActionV::Done { prompt, made },
        ],
        ({
            let m = stepped(st, GenEventV::Sampled(Some((token, false, piece))));
            let hits = exists|i: int|
                0 <= i < st.stop.len() && text::contains(emitted + piece, #[trigger] st.stop[i]);
            &&& m.actions.len() == 2
            &&& m.actions[0] == GenActionV::Emit(piece)
            &&& m.state.cached == st.cached && m.state.n_ctx == st.n_ctx && m.state.stop == st.stop
            &&& hits ==> m.actions[1] == (GenActionV::Done { prompt, made: made + 1 })
                && m.state.phase is Idle
            &&& !hits ==> m.actions[1] == (GenActionV::Decode {
                tokens: seq![token],
                start: st.cached.len(),
                logits: true,
            })
            &&& !hits ==> (m.state.phase matches GenPhaseV::Stepping {
                prompt: p,
                made: k,
                limit: l,
                token: t,
                ..
            } && p == prompt && k == made + 1 && l == limit && t == token)
            &&& !hits && st.stop.len() > 0 ==> (m.state.phase matches GenPhaseV::Stepping {
                emitted: e,
                ..
            } && e == emitted + piece)
        }),
{
    let m = stepped(st, GenEventV::Sampled(Some((token, false, piece))));
    if st.stop.len() > 0 {
        assert(stops_at(st.stop, emitted + piece) <==> exists|i: int|
            0 <= i < st.stop.len() && text::contains(emitted + piece, #[trigger] st.stop[i]));
    }
}

/// A generation goes on after each decoded token until enough are made or the window is full, and
/// then says how much was made.
pub proof fn law_generation_goes_on(
    st: ContextV,
    prompt: nat,
    made: nat,
    emitted: Seq<char>,
    limit: nat,
    token: i32,
)
    requires
        st.phase == (GenPhaseV::Stepping { prompt, made, emitted, limit, token }),
    ensures
        ({
            let m = stepped(st, GenEventV::Decoded);
            &&& m.state.cached == st.cached.push(token)
            &&& made < limit && st.cached.len() + 1 < st.n_ctx ==> m.actions == seq![
                GenActionV::Sample,
            ] && m.state.phase == (GenPhaseV::Sampling { prompt, made, emitted, limit })
            &&& made >= limit || st.cached.len() + 1 >= st.n_ctx ==> m.actions == seq![
                GenActionV::Done { prompt, made },
            ] && m.state.phase is Idle
        }),
{
}

/// A prompt is decoded from the first token that is not reused, five hundred and twelve tokens at a
/// time, each chunk right behind the one before, and only the last chunk is sampled from. A failure
/// empties the cache and is told.
pub proof fn law_prompt_is_decoded_in_order(
    st: ContextV,
    tokens: Seq<i32>,
    base: int,
    end: int,
    limit: nat,
    e: Seq<char>,
)
    requires
        st.phase == (GenPhaseV::Prefilling { tokens, base, end, limit }),
        0 <= base < end < tokens.len(),
    ensures
        ({
            let m = stepped(st, GenEventV::Decoded);
            let next = if tokens.len() <= end + 512 {
                tokens.len() as int
            } else {
                end + 512
            };
            &&& m.actions == seq![
                GenActionV::Decode {
                    tokens: tokens.subrange(end, next),
                    start: end as nat,
                    logits: next == tokens.len(),
                },
            ]
            &&& m.state.phase == (GenPhaseV::Prefilling { tokens, base: end, end: next, limit })
            &&& m.state.cached == st.cached
        }),
        ({
            let f = stepped(st, GenEventV::Failed { e });
            &&& f.state.cached == Seq::<i32>::empty()
            &&& f.state.phase is Idle
            &&& f.actions == seq![GenActionV::Clear, GenActionV::Fail(e)]
        }),
{
    let m = stepped(st, GenEventV::Decoded);
    let next = if tokens.len() <= end + 512 {
        tokens.len() as int
    } else {
        end + 512
    };
    assert(m.actions =~= seq![
        GenActionV::Decode {
            tokens: tokens.subrange(end, next),
            start: end as nat,
            logits: next == tokens.len(),
        },
    ]);
}

} // verus!
