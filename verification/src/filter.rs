//! Separating prose from protocol in a stream of generated text.
//!
//! A tool-call opener ends the prose of a turn. A hidden span (the model's reasoning) is
//! skipped up to its close marker, after which prose resumes. Markers arrive split over
//! any number of pieces, so the tail of the text is withheld until it is known not to be
//! the start of one.
use vstd::prelude::*;

use crate::text;

verus! {

/// The marker texts that a filter looks for.
pub struct Markers {
    pub openers: Seq<Seq<char>>,
    pub spans: Seq<(Seq<char>, Seq<char>)>,
}

/// How far a filter has come.
pub struct FilterState {
    /// Everything fed so far.
    pub raw: Seq<char>,
    /// How many characters have been dealt with.
    pub emitted: int,
    /// A tool call has begun.
    pub suppressed: bool,
    /// The close marker of the hidden span that the text is in.
    pub inside: Option<Seq<char>>,
}

// ---- what the markers mean --------------------------------------------------------------

/// A tool-call opener stands at position `p`.
pub open spec fn tool_at(m: Markers, s: Seq<char>, p: int) -> bool {
    exists|k: int| 0 <= k < m.openers.len() && text::occurs_at(s, #[trigger] m.openers[k], p)
}

/// The opener of span `k` stands at position `p`.
pub open spec fn opens_at(m: Markers, s: Seq<char>, k: int, p: int) -> bool {
    0 <= k < m.spans.len() && text::occurs_at(s, m.spans[k].0, p)
}

/// Some marker that starts something stands at position `p`.
pub open spec fn marker_at(m: Markers, s: Seq<char>, p: int) -> bool {
    tool_at(m, s, p) || exists|k: int| #[trigger] opens_at(m, s, k, p)
}

/// The first position at or after `from` with such a marker.
pub open spec fn next_marker(m: Markers, s: Seq<char>, from: int) -> Option<int>
    decreases s.len() - from + 1,
{
    if from < 0 || from > s.len() {
        None
    } else if marker_at(m, s, from) {
        Some(from)
    } else {
        next_marker(m, s, from + 1)
    }
}

/// The first span, from index `k` on, whose opener stands at position `p`.
pub open spec fn span_at(m: Markers, s: Seq<char>, p: int, k: int) -> int
    decreases m.spans.len() - k,
{
    if k >= m.spans.len() || opens_at(m, s, k, p) {
        k
    } else {
        span_at(m, s, p, k + 1)
    }
}

pub open spec fn max_nat(a: nat, b: nat) -> nat {
    if a < b {
        b
    } else {
        a
    }
}

pub open spec fn longest_opener(openers: Seq<Seq<char>>) -> nat
    decreases openers.len(),
{
    if openers.len() == 0 {
        0
    } else {
        max_nat(longest_opener(openers.drop_last()), text::byte_len(openers.last()))
    }
}

pub open spec fn longest_span_marker(spans: Seq<(Seq<char>, Seq<char>)>) -> nat
    decreases spans.len(),
{
    if spans.len() == 0 {
        0
    } else {
        max_nat(
            longest_span_marker(spans.drop_last()),
            max_nat(text::byte_len(spans.last().0), text::byte_len(spans.last().1)),
        )
    }
}

/// One byte less than the longest marker: how much of the tail is withheld.
pub open spec fn holdback(m: Markers) -> nat {
    let n = max_nat(longest_opener(m.openers), longest_span_marker(m.spans));
    if n == 0 {
        0
    } else {
        (n - 1) as nat
    }
}

/// How many characters of `s` may be shown when no marker is in sight past `from`.
pub open spec fn safe_end(m: Markers, s: Seq<char>, from: int) -> int {
    let total = text::byte_len(s);
    let kept = if total < holdback(m) {
        0
    } else {
        (total - holdback(m)) as nat
    };
    let n = text::chars_within(s, kept) as int;
    if n < from {
        from
    } else {
        n
    }
}

/// A hidden span has a marker that is not empty, so skipping it makes progress.
pub open spec fn spans_progress(m: Markers) -> bool {
    forall|k: int|
        0 <= k < m.spans.len() ==> (#[trigger] m.spans[k]).0.len() + m.spans[k].1.len() > 0
}

/// Where reading `s` from `from` on, outside of any span, ends, and the prose found.
pub open spec fn drain(m: Markers, s: Seq<char>, from: int) -> (FilterState, Seq<char>)
    decreases s.len() - from,
{
    match next_marker(m, s, from) {
        None => {
            let e = safe_end(m, s, from);
            (
                FilterState { raw: s, emitted: e, suppressed: false, inside: None },
                s.subrange(from, e),
            )
        },
        Some(p) => if tool_at(m, s, p) {
            (
                FilterState { raw: s, emitted: p, suppressed: true, inside: None },
                s.subrange(from, p),
            )
        } else {
            let span = m.spans[span_at(m, s, p, 0)];
            let body = p + span.0.len();
            match text::find_from(s, span.1, body) {
                None => (
                    FilterState { raw: s, emitted: body, suppressed: false, inside: Some(span.1) },
                    s.subrange(from, p),
                ),
                Some(j) => if from < j + span.1.len() <= s.len() {
                    let rest = drain(m, s, j + span.1.len());
                    (rest.0, s.subrange(from, p) + rest.1)
                } else {
                    (
                        FilterState { raw: s, emitted: j, suppressed: false, inside: None },
                        s.subrange(from, p),
                    )
                },
            }
        },
    }
}

/// Going on from state `st` when the text has grown to `s`.
pub open spec fn resume(m: Markers, st: FilterState, s: Seq<char>) -> (FilterState, Seq<char>) {
    if st.suppressed {
        (FilterState { raw: s, ..st }, Seq::empty())
    } else {
        match st.inside {
            None => drain(m, s, st.emitted),
            Some(close) => match text::find_from(s, close, st.emitted) {
                None => (FilterState { raw: s, ..st }, Seq::empty()),
                Some(j) => drain(m, s, j + close.len()),
            },
        }
    }
}

/// The state before anything was fed.
pub open spec fn start_state() -> FilterState {
    FilterState { raw: Seq::empty(), emitted: 0, suppressed: false, inside: None }
}

/// `t` is the beginning of a marker that starts something.
pub open spec fn begins_marker(m: Markers, t: Seq<char>) -> bool {
    ||| exists|k: int| 0 <= k < m.openers.len() && text::starts_with(#[trigger] m.openers[k], t)
    ||| exists|k: int| 0 <= k < m.spans.len() && text::starts_with((#[trigger] m.spans[k]).0, t)
}

/// The text from `k` on is short enough to be withheld, and begins a marker.
pub open spec fn partial_at(m: Markers, s: Seq<char>, k: int) -> bool {
    text::byte_len(s.skip(k)) <= holdback(m) && begins_marker(m, s.skip(k))
}

/// Where the longest trailing partial marker of `s` begins, looking from `k` on; the
/// length of `s` if it has none.
pub open spec fn partial_start(m: Markers, s: Seq<char>, k: int) -> int
    decreases s.len() - k,
{
    if k >= s.len() || partial_at(m, s, k) {
        k
    } else {
        partial_start(m, s, k + 1)
    }
}

/// The prose that is left to show when generation stops in state `st`.
pub open spec fn flush(m: Markers, st: FilterState) -> Seq<char> {
    if st.suppressed || st.inside is Some || st.emitted >= st.raw.len() {
        Seq::empty()
    } else {
        let end = partial_start(m, st.raw, 0);
        if end <= st.emitted {
            Seq::empty()
        } else {
            st.raw.subrange(st.emitted, end)
        }
    }
}

/// The whole prose of a turn that generated `s`.
pub open spec fn visible(m: Markers, s: Seq<char>) -> Seq<char> {
    let (st, shown) = drain(m, s, 0);
    shown + flush(m, st)
}

// ---- the filter ---------------------------------------------------------------------------

pub open spec fn marker_texts(v: Seq<&'static str>) -> Seq<Seq<char>> {
    v.map_values(|s: &'static str| s@)
}

pub open spec fn span_texts(v: Seq<(&'static str, &'static str)>) -> Seq<(Seq<char>, Seq<char>)> {
    v.map_values(|p: (&'static str, &'static str)| (p.0@, p.1@))
}

/// Streams assistant prose while withholding tool-call markup and hidden reasoning.
pub struct ToolCallStreamFilter {
    raw: Vec<char>,
    emitted: usize,
    suppressed: bool,
    inside: Option<&'static str>,
    openers: Vec<&'static str>,
    spans: Vec<(&'static str, &'static str)>,
}

impl ToolCallStreamFilter {
    pub closed spec fn markers(&self) -> Markers {
        Markers { openers: marker_texts(self.openers@), spans: span_texts(self.spans@) }
    }

    pub closed spec fn state(&self) -> FilterState {
        FilterState {
            raw: self.raw@,
            emitted: self.emitted as int,
            suppressed: self.suppressed,
            inside: match self.inside {
                Some(c) => Some(c@),
                None => None,
            },
        }
    }

    /// What every filter keeps.
    pub open spec fn wf(&self) -> bool {
        0 <= self.state().emitted <= self.state().raw.len() && spans_progress(self.markers())
    }

    pub fn new(openers: Vec<&'static str>, spans: Vec<(&'static str, &'static str)>) -> (f: Self)
        requires
            spans_progress(
                Markers { openers: marker_texts(openers@), spans: span_texts(spans@) },
            ),
        ensures
            f.wf(),
            f.markers() == (Markers {
                openers: marker_texts(openers@),
                spans: span_texts(spans@),
            }),
            f.state() == start_state(),
    {
        let raw: Vec<char> = Vec::new();
        let f = ToolCallStreamFilter {
            raw,
            emitted: 0,
            suppressed: false,
            inside: None,
            openers,
            spans,
        };
        proof {
            assert(f.raw@ =~= Seq::<char>::empty());
        }
        f
    }

    /// How many bytes of tail to withhold.
    pub fn holdback(&self) -> (n: usize)
        ensures
            n == holdback(self.markers()),
    {
        let mut best: usize = 0;
        let mut i: usize = 0;
        let ghost m = self.markers();
        proof {
            assert(m.openers.take(0) =~= Seq::<Seq<char>>::empty());
        }
        while i < self.openers.len()
            invariant
                m == self.markers(),
                i <= self.openers@.len(),
                best == longest_opener(m.openers.take(i as int)),
            decreases self.openers.len() - i,
        {
            let n = text::str_bytes(self.openers[i]);
            proof {
                assert(m.openers.take(i as int + 1).drop_last() =~= m.openers.take(i as int));
            }
            if n > best {
                best = n;
            }
            i = i + 1;
        }
        let mut span_best: usize = 0;
        let mut j: usize = 0;
        proof {
            assert(m.openers.take(i as int) =~= m.openers);
            assert(m.spans.take(0) =~= Seq::<(Seq<char>, Seq<char>)>::empty());
        }
        while j < self.spans.len()
            invariant
                m == self.markers(),
                j <= self.spans@.len(),
                span_best == longest_span_marker(m.spans.take(j as int)),
            decreases self.spans.len() - j,
        {
            let a = text::str_bytes(self.spans[j].0);
            let b = text::str_bytes(self.spans[j].1);
            proof {
                assert(m.spans.take(j as int + 1).drop_last() =~= m.spans.take(j as int));
            }
            if a > span_best {
                span_best = a;
            }
            if b > span_best {
                span_best = b;
            }
            j = j + 1;
        }
        proof {
            assert(m.spans.take(j as int) =~= m.spans);
        }
        let n = if span_best > best {
            span_best
        } else {
            best
        };
        if n == 0 {
            0
        } else {
            n - 1
        }
    }

    fn find_tool(&self, p: usize) -> (r: bool)
        ensures
            r == tool_at(self.markers(), self.raw@, p as int),
    {
        let ghost m = self.markers();
        let mut i: usize = 0;
        while i < self.openers.len()
            invariant
                m == self.markers(),
                i <= self.openers@.len(),
                forall|k: int|
                    0 <= k < i ==> !text::occurs_at(
                        self.raw@,
                        #[trigger] m.openers[k],
                        p as int,
                    ),
            decreases self.openers.len() - i,
        {
            let o = text::to_chars(self.openers[i]);
            if text::matches_at(&self.raw, &o, p) {
                proof {
                    assert(m.openers[i as int] == o@);
                }
                return true;
            }
            i = i + 1;
        }
        false
    }

    fn find_span(&self, p: usize) -> (r: usize)
        ensures
            r == span_at(self.markers(), self.raw@, p as int, 0),
            r <= self.spans@.len(),
            (r < self.spans@.len()) <==> (exists|k: int|
                #[trigger] opens_at(self.markers(), self.raw@, k, p as int)),
            r < self.spans@.len() ==> opens_at(self.markers(), self.raw@, r as int, p as int),
    {
        let ghost m = self.markers();
        let mut i: usize = 0;
        while i < self.spans.len()
            invariant
                m == self.markers(),
                i <= self.spans@.len(),
                span_at(m, self.raw@, p as int, 0) == span_at(m, self.raw@, p as int, i as int),
                forall|k: int| 0 <= k < i ==> !#[trigger] opens_at(m, self.raw@, k, p as int),
            decreases self.spans.len() - i,
        {
            let o = text::to_chars(self.spans[i].0);
            proof {
                assert(m.spans[i as int].0 == o@);
            }
            if text::matches_at(&self.raw, &o, p) {
                proof {
                    assert(opens_at(m, self.raw@, i as int, p as int));
                }
                return i;
            }
            i = i + 1;
        }
        i
    }

    fn find_next(&self, from: usize) -> (r: Option<usize>)
        requires
            from <= self.raw@.len(),
        ensures
            match r {
                Some(p) => next_marker(self.markers(), self.raw@, from as int) == Some(p as int)
                    && from <= p <= self.raw@.len() && marker_at(
                    self.markers(),
                    self.raw@,
                    p as int,
                ),
                None => next_marker(self.markers(), self.raw@, from as int) is None,
            },
    {
        let ghost m = self.markers();
        let total = self.raw.len();
        let mut p: usize = from;
        loop
            invariant
                m == self.markers(),
                total == self.raw@.len(),
                from <= p <= total,
                next_marker(m, self.raw@, from as int) == next_marker(m, self.raw@, p as int),
            decreases total - p,
        {
            if self.find_tool(p) || self.find_span(p) < self.spans.len() {
                return Some(p);
            }
            if p == total {
                proof {
                    assert(next_marker(m, self.raw@, total + 1) is None);
                }
                return None;
            }
            p = p + 1;
        }
    }

    /// Feeds one generated piece; returns the text that is safe to show.
    pub fn push(&mut self, piece: &str) -> (r: Option<String>)
        requires
            old(self).wf(),
        ensures
            final(self).wf(),
            final(self).markers() == old(self).markers(),
            final(self).state() == resume(
                old(self).markers(),
                old(self).state(),
                old(self).state().raw + piece@,
            ).0,
            ({
                let shown = resume(
                    old(self).markers(),
                    old(self).state(),
                    old(self).state().raw + piece@,
                ).1;
                match r {
                    Some(s) => s@ == shown && shown.len() > 0,
                    None => shown.len() == 0,
                }
            }),
    {
        let ghost m = self.markers();
        let ghost st = self.state();
        let mut more = text::to_chars(piece);
        self.raw.append(&mut more);
        let ghost s = st.raw + piece@;
        assert(self.raw@ =~= s);
        if self.suppressed {
            return None;
        }
        if let Some(close) = self.inside {
            let c = text::to_chars(close);
            match text::find_chars(&self.raw, &c, self.emitted) {
                None => {
                    return None;
                },
                Some(j) => {
                    let total = self.raw.len();
                    self.emitted = j + c.len();
                    self.inside = None;
                },
            }
        }
        let ghost from = self.emitted as int;
        let mut out = String::new();
        assert(self.state() == FilterState {
            raw: s,
            emitted: from,
            suppressed: false,
            inside: None,
        });
        assert(resume(m, st, s) == drain(m, s, from));
        proof {
            assert(out@ + drain(m, s, from).1 =~= drain(m, s, from).1);
        }
        loop
            invariant_except_break
                !self.suppressed,
                self.inside is None,
                self.emitted <= s.len(),
                drain(m, s, from).0 == drain(m, s, self.emitted as int).0,
                drain(m, s, from).1 == out@ + drain(m, s, self.emitted as int).1,
            invariant
                m == self.markers(),
                spans_progress(m),
                self.raw@ == s,
                0 <= from,
            ensures
                m == self.markers(),
                self.wf(),
                self.state() == drain(m, s, from).0,
                out@ == drain(m, s, from).1,
            decreases s.len() - self.emitted,
        {
            let ghost e = self.emitted as int;
            let next = self.find_next(self.emitted);
            if next.is_none() {
                let hold = self.holdback();
                let bytes = raw_bytes(&self.raw);
                let kept: usize = if bytes < hold {
                    0
                } else {
                    bytes - hold
                };
                let safe = text::count_within(&self.raw, kept);
                if safe > self.emitted {
                    let part = text::substring(&self.raw, self.emitted, safe);
                    out.append(part.as_str());
                    self.emitted = safe;
                } else {
                    proof {
                        assert(s.subrange(e, e) =~= Seq::<char>::empty());
                        assert(out@ + Seq::<char>::empty() =~= out@);
                    }
                }
                break;
            }
            let p = next.unwrap();
            let part = text::substring(&self.raw, self.emitted, p);
            out.append(part.as_str());
            if self.find_tool(p) {
                self.emitted = p;
                self.suppressed = true;
                break;
            }
            let span = self.find_span(p);
            let total = self.raw.len();
            let open = text::to_chars(self.spans[span].0);
            let close = text::to_chars(self.spans[span].1);
            let body: usize = p + open.len();
            proof {
                assert(m.spans[span as int].0 == open@);
                assert(m.spans[span as int].1 == close@);
            }
            match text::find_chars(&self.raw, &close, body) {
                None => {
                    self.emitted = body;
                    self.inside = Some(self.spans[span].1);
                    break;
                },
                Some(j) => {
                    proof {
                        assert(m.spans[span as int].0.len() + m.spans[span as int].1.len() > 0);
                        let rest = drain(m, s, j + close@.len());
                        assert((out@) + rest.1 =~= drain(m, s, from).1);
                    }
                    self.emitted = j + close.len();
                },
            }
        }
        if out.as_str().is_empty() {
            None
        } else {
            Some(out)
        }
    }

    fn begins(&self, tail: &Vec<char>) -> (r: bool)
        ensures
            r == begins_marker(self.markers(), tail@),
    {
        let ghost m = self.markers();
        let mut i: usize = 0;
        while i < self.openers.len()
            invariant
                m == self.markers(),
                i <= self.openers@.len(),
                forall|k: int|
                    0 <= k < i ==> !text::starts_with(#[trigger] m.openers[k], tail@),
            decreases self.openers.len() - i,
        {
            let o = text::to_chars(self.openers[i]);
            if text::matches_at(&o, tail, 0) {
                proof {
                    assert(m.openers[i as int] == o@);
                }
                return true;
            }
            i = i + 1;
        }
        let mut j: usize = 0;
        while j < self.spans.len()
            invariant
                m == self.markers(),
                j <= self.spans@.len(),
                forall|k: int|
                    0 <= k < j ==> !text::starts_with((#[trigger] m.spans[k]).0, tail@),
            decreases self.spans.len() - j,
        {
            let o = text::to_chars(self.spans[j].0);
            if text::matches_at(&o, tail, 0) {
                proof {
                    assert(m.spans[j as int].0 == o@);
                }
                return true;
            }
            j = j + 1;
        }
        false
    }

    /// Generation is over: returns the withheld prose, without a trailing partial marker.
    pub fn finish(&mut self) -> (r: Option<String>)
        requires
            old(self).wf(),
        ensures
            final(self).wf(),
            final(self).markers() == old(self).markers(),
            final(self).state() == (FilterState {
                emitted: if old(self).state().suppressed || old(self).state().inside is Some {
                    old(self).state().emitted
                } else {
                    old(self).state().raw.len() as int
                },
                ..old(self).state()
            }),
            ({
                let rest = flush(old(self).markers(), old(self).state());
                match r {
                    Some(s) => s@ == rest && rest.len() > 0,
                    None => rest.len() == 0,
                }
            }),
    {
        if self.suppressed || self.inside.is_some() || self.emitted >= self.raw.len() {
            return None;
        }
        let ghost m = self.markers();
        let ghost s = self.raw@;
        let hold = self.holdback();
        let total = self.raw.len();
        let mut k: usize = 0;
        while k < total
            invariant_except_break
                partial_start(m, s, 0) == partial_start(m, s, k as int),
            invariant
                m == self.markers(),
                s == self.raw@,
                hold == holdback(m),
                total == s.len(),
                k <= total,
            ensures
                k == partial_start(m, s, 0),
            decreases total - k,
        {
            let tail = text::to_chars(text::substring(&self.raw, k, total).as_str());
            proof {
                assert(tail@ =~= s.skip(k as int));
            }
            if raw_bytes(&tail) <= hold && self.begins(&tail) {
                break;
            }
            k = k + 1;
        }
        let from = self.emitted;
        self.emitted = total;
        if k > from {
            Some(text::substring(&self.raw, from, k))
        } else {
            None
        }
    }
}

// ---- laws ---------------------------------------------------------------------------------

/// The markers that start something: tool-call openers, then span openers.
pub open spec fn starters(m: Markers) -> Seq<Seq<char>> {
    m.openers + m.spans.map_values(|p: (Seq<char>, Seq<char>)| p.0)
}

/// No starting marker occurs within another one.
pub open spec fn independent(m: Markers) -> bool {
    forall|i: int, j: int, k: int|
        0 <= i < starters(m).len() && 0 <= j < starters(m).len() && #[trigger] text::occurs_at(
            starters(m)[j],
            starters(m)[i],
            k,
        ) ==> starters(m)[i] == starters(m)[j]
}

/// Every starting marker is at most one byte longer than what is withheld.
proof fn lemma_longest(m: Markers, i: int)
    requires
        0 <= i < starters(m).len(),
    ensures
        text::byte_len(starters(m)[i]) <= holdback(m) + 1,
{
    if i < m.openers.len() {
        lemma_longest_opener(m.openers, i);
    } else {
        lemma_longest_span(m.spans, i - m.openers.len());
    }
}

proof fn lemma_longest_opener(openers: Seq<Seq<char>>, i: int)
    requires
        0 <= i < openers.len(),
    ensures
        text::byte_len(openers[i]) <= longest_opener(openers),
    decreases openers.len(),
{
    if i < openers.len() - 1 {
        lemma_longest_opener(openers.drop_last(), i);
    }
}

proof fn lemma_longest_span(spans: Seq<(Seq<char>, Seq<char>)>, i: int)
    requires
        0 <= i < spans.len(),
    ensures
        text::byte_len(spans[i].0) <= longest_span_marker(spans),
    decreases spans.len(),
{
    if i < spans.len() - 1 {
        lemma_longest_span(spans.drop_last(), i);
    }
}

/// A marker stands at `p` exactly when one of the starters does.
proof fn lemma_marker_at(m: Markers, s: Seq<char>, p: int) -> (i: int)
    requires
        marker_at(m, s, p),
    ensures
        0 <= i < starters(m).len(),
        text::occurs_at(s, starters(m)[i], p),
        tool_at(m, s, p) ==> i < m.openers.len(),
        !tool_at(m, s, p) ==> i == m.openers.len() + span_at(m, s, p, 0) && opens_at(
            m,
            s,
            span_at(m, s, p, 0),
            p,
        ),
{
    if tool_at(m, s, p) {
        choose|k: int| 0 <= k < m.openers.len() && text::occurs_at(s, #[trigger] m.openers[k], p)
    } else {
        let k = choose|k: int| #[trigger] opens_at(m, s, k, p);
        lemma_span_at(m, s, p, 0, k);
        m.openers.len() + span_at(m, s, p, 0)
    }
}

proof fn lemma_span_at(m: Markers, s: Seq<char>, p: int, from: int, k: int)
    requires
        0 <= from <= k,
        opens_at(m, s, k, p),
    ensures
        from <= span_at(m, s, p, from) <= k,
        opens_at(m, s, span_at(m, s, p, from), p),
    decreases k - from,
{
    if !opens_at(m, s, from, p) {
        lemma_span_at(m, s, p, from + 1, k);
    }
}

proof fn lemma_starter_marks(m: Markers, s: Seq<char>, p: int, i: int)
    requires
        0 <= i < starters(m).len(),
        text::occurs_at(s, starters(m)[i], p),
    ensures
        marker_at(m, s, p),
        i < m.openers.len() ==> tool_at(m, s, p),
        i >= m.openers.len() ==> opens_at(m, s, i - m.openers.len(), p),
{
    if i < m.openers.len() {
        assert(m.openers[i] == starters(m)[i]);
    } else {
        assert(m.spans[i - m.openers.len()].0 == starters(m)[i]);
        assert(opens_at(m, s, i - m.openers.len(), p));
    }
}

proof fn lemma_next_marker(m: Markers, s: Seq<char>, from: int)
    requires
        0 <= from <= s.len(),
    ensures
        match next_marker(m, s, from) {
            Some(p) => from <= p <= s.len() && marker_at(m, s, p) && forall|q: int|
                from <= q < p ==> !#[trigger] marker_at(m, s, q),
            None => forall|q: int| from <= q <= s.len() ==> !#[trigger] marker_at(m, s, q),
        },
    decreases s.len() - from,
{
    if !marker_at(m, s, from) {
        if from < s.len() {
            lemma_next_marker(m, s, from + 1);
        } else {
            assert(next_marker(m, s, from + 1) is None);
        }
    }
}

proof fn lemma_next_is(m: Markers, s: Seq<char>, from: int, p: int)
    requires
        0 <= from <= p <= s.len(),
        marker_at(m, s, p),
        forall|q: int| from <= q < p ==> !#[trigger] marker_at(m, s, q),
    ensures
        next_marker(m, s, from) == Some(p),
{
    lemma_next_marker(m, s, from);
}

/// A starter that stands in the longer text, and ends within the shorter one, stands
/// there too; and the other way round.
proof fn lemma_occurs_prefix(a: Seq<char>, b: Seq<char>, t: Seq<char>, p: int)
    ensures
        text::occurs_at(a, t, p) ==> text::occurs_at(a + b, t, p),
        text::occurs_at(a + b, t, p) && p + t.len() <= a.len() ==> text::occurs_at(a, t, p),
{
    if 0 <= p && p + t.len() <= a.len() {
        assert((a + b).subrange(p, p + t.len()) =~= a.subrange(p, p + t.len()));
    }
}

/// Up to the first marker of a text, a longer text has the same markers.
proof fn lemma_same_first(m: Markers, a: Seq<char>, b: Seq<char>, from: int)
    requires
        independent(m),
        0 <= from <= a.len(),
        next_marker(m, a, from) is Some,
    ensures
        ({
            let p = next_marker(m, a, from)->Some_0;
            &&& from <= p <= a.len()
            &&& marker_at(m, a, p)
            &&& next_marker(m, a + b, from) == Some(p)
            &&& tool_at(m, a + b, p) == tool_at(m, a, p)
            &&& !tool_at(m, a, p) ==> span_at(m, a + b, p, 0) == span_at(m, a, p, 0)
        }),
{
    lemma_next_marker(m, a, from);
    let p = next_marker(m, a, from)->Some_0;
    let y = lemma_marker_at(m, a, p);
    lemma_occurs_prefix(a, b, starters(m)[y], p);
    lemma_starter_marks(m, a + b, p, y);
    assert forall|x: int, q: int|
        0 <= x < starters(m).len() && from <= q <= p && #[trigger] text::occurs_at(
            a + b,
            starters(m)[x],
            q,
        ) implies text::occurs_at(a, starters(m)[x], q) by {
        lemma_occurs_prefix(a, b, starters(m)[x], q);
        if q + starters(m)[x].len() > a.len() {
            let ty = starters(m)[y];
            let tx = starters(m)[x];
            assert(tx.subrange(p - q, p - q + ty.len()) =~= ty) by {
                assert((a + b).subrange(q, q + tx.len()) == tx);
                assert(a.subrange(p, p + ty.len()) == ty);
                assert forall|i: int| 0 <= i < ty.len() implies tx[p - q + i] == ty[i] by {
                    assert(tx[p - q + i] == (a + b).subrange(q, q + tx.len())[p - q + i]);
                    assert(ty[i] == a.subrange(p, p + ty.len())[i]);
                }
            }
            assert(text::occurs_at(starters(m)[x], starters(m)[y], p - q));
        }
    }
    assert forall|q: int| from <= q < p implies !#[trigger] marker_at(m, a + b, q) by {
        if marker_at(m, a + b, q) {
            let x = lemma_marker_at(m, a + b, q);
            lemma_starter_marks(m, a, q, x);
        }
    }
    lemma_next_is(m, a + b, from, p);
    if tool_at(m, a + b, p) {
        let x = lemma_marker_at(m, a + b, p);
        lemma_starter_marks(m, a, p, x);
    }
    if tool_at(m, a, p) {
        lemma_starter_marks(m, a + b, p, y);
    } else {
        assert forall|k: int| #[trigger] opens_at(m, a + b, k, p) == opens_at(m, a, k, p) by {
            if 0 <= k < m.spans.len() {
                assert(starters(m)[m.openers.len() + k] == m.spans[k].0);
                lemma_occurs_prefix(a, b, m.spans[k].0, p);
                assert(text::occurs_at(a + b, starters(m)[m.openers.len() + k], p)
                    ==> text::occurs_at(a, starters(m)[m.openers.len() + k], p));
            }
        }
        lemma_span_at_same(m, a, a + b, p, 0);
    }
}

proof fn lemma_span_at_same(m: Markers, s: Seq<char>, t: Seq<char>, p: int, k: int)
    requires
        forall|k: int| #[trigger] opens_at(m, t, k, p) == opens_at(m, s, k, p),
    ensures
        span_at(m, s, p, k) == span_at(m, t, p, k),
    decreases m.spans.len() - k,
{
    assert(opens_at(m, t, k, p) == opens_at(m, s, k, p));
    if k < m.spans.len() && !opens_at(m, s, k, p) {
        lemma_span_at_same(m, s, t, p, k + 1);
    }
}

/// A close marker that was found stays the first one when the text grows.
proof fn lemma_find_grows(a: Seq<char>, b: Seq<char>, t: Seq<char>, from: int)
    requires
        0 <= from <= a.len(),
        text::find_from(a, t, from) is Some,
    ensures
        text::find_from(a + b, t, from) == text::find_from(a, t, from),
        from <= text::find_from(a, t, from)->Some_0,
        text::find_from(a, t, from)->Some_0 + t.len() <= a.len(),
{
    text::lemma_find_from(a, t, from);
    let i = text::find_from(a, t, from)->Some_0;
    lemma_occurs_prefix(a, b, t, i);
    assert forall|q: int| from <= q < i implies !text::occurs_at(a + b, t, q) by {
        lemma_occurs_prefix(a, b, t, q);
    }
    text::lemma_find_is(a + b, t, from, i);
}

/// What is shown of a text without a marker is safe: no marker can begin there later.
proof fn lemma_safe(m: Markers, a: Seq<char>, b: Seq<char>, from: int)
    requires
        0 <= from <= a.len(),
        next_marker(m, a, from) is None,
    ensures
        from <= safe_end(m, a, from) <= a.len(),
        next_marker(m, a + b, from) == next_marker(m, a + b, safe_end(m, a, from)),
        safe_end(m, a + b, from) == safe_end(m, a + b, safe_end(m, a, from)),
        safe_end(m, a + b, from) >= safe_end(m, a, from),
        safe_end(m, a + b, from) <= (a + b).len(),
        next_marker(m, a + b, from) matches Some(p) ==> p >= safe_end(m, a, from),
{
    let s = a + b;
    let e = safe_end(m, a, from);
    let hold = holdback(m);
    let kept: nat = if text::byte_len(a) < hold {
        0
    } else {
        (text::byte_len(a) - hold) as nat
    };
    let kept2: nat = if text::byte_len(s) < hold {
        0
    } else {
        (text::byte_len(s) - hold) as nat
    };
    text::lemma_byte_len_add(a, b);
    text::lemma_chars_within(a, kept);
    text::lemma_chars_within(s, kept2);
    let n = text::chars_within(a, kept) as int;
    let n2 = text::chars_within(s, kept2) as int;
    assert(a.take(n) =~= s.take(n));
    if n2 + 1 < n {
        text::lemma_byte_len_take_strict(s, n2 + 1, n);
    }
    assert forall|q: int| from <= q < e implies !#[trigger] marker_at(m, s, q) by {
        if marker_at(m, s, q) {
            let x = lemma_marker_at(m, s, q);
            let t = starters(m)[x];
            lemma_longest(m, x);
            if q + t.len() > a.len() {
                assert(s.take(q + t.len() as int) =~= s.take(q) + t) by {
                    assert(s.subrange(q, q + t.len()) == t);
                    assert forall|i: int| q <= i < q + t.len() implies s[i] == t[i - q] by {
                        assert(s.subrange(q, q + t.len())[i - q] == s[i]);
                    }
                }
                text::lemma_byte_len_add(s.take(q), t);
                assert(s.take(a.len() as int) =~= a);
                text::lemma_byte_len_take_strict(s, a.len() as int, q + t.len());
                text::lemma_byte_len_take_strict(s, q, n);
            }
            lemma_occurs_prefix(a, b, t, q);
            lemma_starter_marks(m, a, q, x);
            lemma_next_marker(m, a, from);
        }
    }
    lemma_next_marker(m, s, from);
    lemma_next_marker(m, s, e);
    match next_marker(m, s, from) {
        Some(p) => {
            assert(marker_at(m, s, p));
            lemma_next_is(m, s, e, p);
        },
        None => {},
    }
}

/// Reading a text in two steps is reading it at once: going on from where a shorter text
/// left off ends in the same state and shows the same prose.
pub proof fn law_resume(m: Markers, a: Seq<char>, b: Seq<char>, from: int)
    requires
        independent(m),
        spans_progress(m),
        0 <= from <= a.len(),
    ensures
        resume(m, drain(m, a, from).0, a + b).0 == drain(m, a + b, from).0,
        drain(m, a, from).1 + resume(m, drain(m, a, from).0, a + b).1 == drain(
            m,
            a + b,
            from,
        ).1,
    decreases a.len() - from,
{
    let s = a + b;
    lemma_next_marker(m, a, from);
    match next_marker(m, a, from) {
        None => {
            lemma_safe(m, a, b, from);
            let e = safe_end(m, a, from);
            assert(a.subrange(from, e) + drain(m, s, e).1 =~= drain(m, s, from).1) by {
                lemma_next_marker(m, s, e);
                match next_marker(m, s, e) {
                    None => {
                        let z = safe_end(m, s, from);
                        assert(a.subrange(from, e) + s.subrange(e, z) =~= s.subrange(from, z));
                    },
                    Some(p) => {
                        assert(a.subrange(from, e) + s.subrange(e, p) =~= s.subrange(from, p));
                        if !tool_at(m, s, p) {
                            let k = lemma_marker_at(m, s, p);
                            let span = m.spans[span_at(m, s, p, 0)];
                            let body = p + span.0.len();
                            text::lemma_find_from(s, span.1, body);
                            match text::find_from(s, span.1, body) {
                                None => {},
                                Some(j) => {
                                    let rest = drain(m, s, j + span.1.len());
                                    assert(a.subrange(from, e) + (s.subrange(e, p) + rest.1)
                                        =~= s.subrange(from, p) + rest.1);
                                },
                            }
                        }
                    },
                }
            }
            assert(drain(m, s, e).0 == drain(m, s, from).0) by {
                lemma_next_marker(m, s, e);
                if next_marker(m, s, e) is Some {
                    let p = next_marker(m, s, e)->Some_0;
                    if !tool_at(m, s, p) {
                        let k = lemma_marker_at(m, s, p);
                        let span = m.spans[span_at(m, s, p, 0)];
                        text::lemma_find_from(s, span.1, p + span.0.len());
                    }
                }
            }
        },
        Some(p) => {
            lemma_same_first(m, a, b, from);
            assert(s.subrange(from, p) =~= a.subrange(from, p));
            assert(a.subrange(from, p) + Seq::<char>::empty() =~= a.subrange(from, p));
            if !tool_at(m, a, p) {
                let k = lemma_marker_at(m, a, p);
                let span = m.spans[span_at(m, a, p, 0)];
                let body = p + span.0.len();
                text::lemma_find_from(a, span.1, body);
                text::lemma_find_from(s, span.1, body);
                match text::find_from(a, span.1, body) {
                    None => {
                        // The span is still open: whatever closes it is found by the resumption.
                        match text::find_from(s, span.1, body) {
                            None => {},
                            Some(j) => {
                                assert(from < j + span.1.len());
                            },
                        }
                    },
                    Some(j) => {
                        lemma_find_grows(a, b, span.1, body);
                        law_resume(m, a, b, j + span.1.len());
                        let rest = drain(m, a, j + span.1.len());
                        let more = resume(m, rest.0, s);
                        assert((a.subrange(from, p) + rest.1) + more.1 =~= a.subrange(from, p) + (
                        rest.1 + more.1));
                    },
                }
            }
        },
    }
}

/// The state that draining ends in holds the text that was drained.
proof fn lemma_raw(m: Markers, s: Seq<char>, from: int)
    ensures
        drain(m, s, from).0.raw == s,
    decreases s.len() - from,
{
    match next_marker(m, s, from) {
        Some(p) if !tool_at(m, s, p) => {
            let span = m.spans[span_at(m, s, p, 0)];
            match text::find_from(s, span.1, p + span.0.len()) {
                Some(j) if from < j + span.1.len() <= s.len() => {
                    lemma_raw(m, s, j + span.1.len());
                },
                _ => {},
            }
        },
        _ => {},
    }
}

/// All pieces, end to end.
pub open spec fn joined(pieces: Seq<Seq<char>>) -> Seq<char>
    decreases pieces.len(),
{
    if pieces.len() == 0 {
        Seq::empty()
    } else {
        joined(pieces.drop_last()) + pieces.last()
    }
}

/// The state after pushing the pieces one by one, and the prose that the pushes returned.
pub open spec fn fed(m: Markers, pieces: Seq<Seq<char>>) -> (FilterState, Seq<char>)
    decreases pieces.len(),
{
    if pieces.len() == 0 {
        (start_state(), Seq::empty())
    } else {
        let before = fed(m, pieces.drop_last());
        let step = resume(m, before.0, before.0.raw + pieces.last());
        (step.0, before.1 + step.1)
    }
}

/// The prose shown does not depend on how a text is cut into pieces: after the pushes, what
/// was shown and the state reached are those of the whole text, and so is the prose once
/// the filter is finished.
pub proof fn law_pieces(m: Markers, pieces: Seq<Seq<char>>)
    requires
        independent(m),
        spans_progress(m),
        pieces.len() > 0,
    ensures
        fed(m, pieces) == drain(m, joined(pieces), 0),
        fed(m, pieces).1 + flush(m, fed(m, pieces).0) == visible(m, joined(pieces)),
    decreases pieces.len(),
{
    let before = pieces.drop_last();
    if before.len() == 0 {
        assert(fed(m, before) == (start_state(), Seq::<char>::empty()));
        assert(joined(before) =~= Seq::<char>::empty());
        assert(Seq::<char>::empty() + pieces.last() =~= pieces.last());
        assert(Seq::<char>::empty() + drain(m, pieces.last(), 0).1 =~= drain(
            m,
            pieces.last(),
            0,
        ).1);
    } else {
        law_pieces(m, before);
        lemma_raw(m, joined(before), 0);
        law_resume(m, joined(before), pieces.last(), 0);
    }
}

/// Once a tool call has begun, nothing more is shown: the prose of the turn is what stands
/// before its opener.
pub proof fn law_tool_call_ends_prose(m: Markers, s: Seq<char>, p: int)
    requires
        0 <= p <= s.len(),
        tool_at(m, s, p),
        forall|q: int| 0 <= q < p ==> !#[trigger] marker_at(m, s, q),
    ensures
        visible(m, s) == s.take(p),
{
    assert(marker_at(m, s, p));
    lemma_next_is(m, s, 0, p);
    assert(s.subrange(0, p) + Seq::<char>::empty() =~= s.take(p));
}

/// Prose without a marker is shown up to its trailing partial marker, if it has one.
pub proof fn law_plain_prose(m: Markers, s: Seq<char>)
    requires
        forall|q: int| 0 <= q <= s.len() ==> !#[trigger] marker_at(m, s, q),
    ensures
        visible(m, s) == s.take(partial_start(m, s, 0)),
        (forall|k: int| 0 <= k < s.len() ==> !#[trigger] partial_at(m, s, k)) ==> visible(m, s)
            == s,
{
    lemma_next_marker(m, s, 0);
    lemma_safe(m, s, Seq::empty(), 0);
    lemma_partial_start(m, s, 0);
    let e = safe_end(m, s, 0);
    let end = partial_start(m, s, 0);
    lemma_partial_withheld(m, s);
    if e < s.len() && end > e {
        assert(s.subrange(0, e) + s.subrange(e, end) =~= s.take(end));
    } else {
        assert(s.subrange(0, e) + Seq::<char>::empty() =~= s.take(e));
    }
    assert(s.take(s.len() as int) =~= s);
}

proof fn lemma_partial_start(m: Markers, s: Seq<char>, k: int)
    requires
        0 <= k <= s.len(),
    ensures
        k <= partial_start(m, s, k) <= s.len(),
        partial_start(m, s, k) < s.len() ==> partial_at(m, s, partial_start(m, s, k)),
    decreases s.len() - k,
{
    if k < s.len() && !partial_at(m, s, k) {
        lemma_partial_start(m, s, k + 1);
    }
}

/// A trailing partial marker has never been shown.
proof fn lemma_partial_withheld(m: Markers, s: Seq<char>)
    ensures
        0 <= safe_end(m, s, 0) <= partial_start(m, s, 0) <= s.len(),
{
    lemma_partial_start(m, s, 0);
    let total = text::byte_len(s);
    let kept: nat = if total < holdback(m) {
        0
    } else {
        (total - holdback(m)) as nat
    };
    text::lemma_chars_within(s, kept);
    let e = safe_end(m, s, 0);
    let p = partial_start(m, s, 0);
    if p < e {
        assert(s.take(p) + s.skip(p) =~= s);
        text::lemma_byte_len_add(s.take(p), s.skip(p));
        text::lemma_byte_len_take_strict(s, p, e);
    }
}

fn raw_bytes(v: &Vec<char>) -> (n: usize)
    ensures
        n == text::byte_len(v@),
{
    let s = text::from_chars(v);
    text::str_bytes(s.as_str())
}

proof fn lemma_only_span(m: Markers, s: Seq<char>, p: int, k: int)
    requires
        opens_at(m, s, k, p),
        !tool_at(m, s, p),
        forall|q: int| 0 <= q < p ==> !#[trigger] marker_at(m, s, q),
        forall|i: int| 0 <= i < k ==> !#[trigger] opens_at(m, s, i, p),
        0 <= p <= s.len(),
    ensures
        next_marker(m, s, 0) == Some(p),
        span_at(m, s, p, 0) == k,
{
    assert(marker_at(m, s, p));
    lemma_next_is(m, s, 0, p);
    lemma_span_at(m, s, p, 0, k);
}

/// A hidden span is left out and nothing else: what stands before it and behind it is shown, word
/// for word.
pub proof fn law_hidden_spans_are_left_out(
    m: Markers,
    k: int,
    before: Seq<char>,
    inner: Seq<char>,
    after: Seq<char>,
)
    requires
        0 <= k < m.spans.len(),
        m.spans[k].0.len() > 0,
        ({
            let (open, close) = m.spans[k];
            let s = before + open + inner + close + after;
            let p = before.len() as int;
            let body = p + open.len();
            &&& !tool_at(m, s, p)
            &&& forall|i: int| 0 <= i < k ==> !#[trigger] opens_at(m, s, i, p)
            &&& forall|q: int| 0 <= q < p ==> !#[trigger] marker_at(m, s, q)
            &&& forall|j: int|
                body <= j < body + inner.len() ==> !#[trigger] text::occurs_at(s, close, j)
            &&& forall|q: int|
                body + inner.len() + close.len() <= q <= s.len() ==> !#[trigger] marker_at(m, s, q)
            &&& forall|i: int| 0 <= i < s.len() ==> !#[trigger] begins_marker(m, s.skip(i))
        }),
    ensures
        visible(m, before + m.spans[k].0 + inner + m.spans[k].1 + after) == before + after,
{
    let (open, close) = m.spans[k];
    let s = before + open + inner + close + after;
    let p = before.len() as int;
    let body = p + open.len();
    assert(s.subrange(p, p + open.len()) =~= open);
    assert(opens_at(m, s, k, p));
    lemma_only_span(m, s, p, k);
    let j = body + inner.len();
    assert(s.subrange(j, j + close.len()) =~= close);
    text::lemma_find_is(s, close, body, j);
    let q = j + close.len();
    lemma_next_marker(m, s, q);
    assert(next_marker(m, s, q) is None) by {
        if let Some(x) = next_marker(m, s, q) {
            assert(!marker_at(m, s, x));
        }
    }
    let e = safe_end(m, s, q);
    lemma_safe(m, s, Seq::empty(), q);
    lemma_partial_start(m, s, 0);
    let end = partial_start(m, s, 0);
    if end < s.len() {
        assert(!begins_marker(m, s.skip(end)));
    }
    let rest = drain(m, s, q);
    assert(rest.1 == s.subrange(q, e));
    let all = drain(m, s, 0);
    assert(all.0 == rest.0);
    assert(all.1 == s.subrange(0, p) + s.subrange(q, e));
    if e < s.len() {
        assert(flush(m, all.0) == s.subrange(e, s.len() as int));
    }
    assert(visible(m, s) =~= before + after);
}

/// A hidden span that never ends hides everything behind its opener.
pub proof fn law_open_spans_hide_the_rest(m: Markers, k: int, before: Seq<char>, inner: Seq<char>)
    requires
        0 <= k < m.spans.len(),
        ({
            let (open, close) = m.spans[k];
            let s = before + open + inner;
            let p = before.len() as int;
            &&& !tool_at(m, s, p)
            &&& forall|i: int| 0 <= i < k ==> !#[trigger] opens_at(m, s, i, p)
            &&& forall|q: int| 0 <= q < p ==> !#[trigger] marker_at(m, s, q)
            &&& forall|j: int| p + open.len() <= j ==> !#[trigger] text::occurs_at(s, close, j)
        }),
    ensures
        visible(m, before + m.spans[k].0 + inner) == before,
{
    let (open, close) = m.spans[k];
    let s = before + open + inner;
    let p = before.len() as int;
    assert(s.subrange(p, p + open.len()) =~= open);
    assert(opens_at(m, s, k, p));
    lemma_only_span(m, s, p, k);
    text::lemma_find_from(s, close, (p + open.len()) as int);
    assert(text::find_from(s, close, p + open.len()) is None);
    assert(visible(m, s) =~= before);
}

proof fn lemma_prefix_bytes(m: Markers, t: Seq<char>)
    requires
        begins_marker(m, t),
        !exists|i: int| 0 <= i < starters(m).len() && #[trigger] starters(m)[i] == t,
    ensures
        text::byte_len(t) <= holdback(m),
{
    let i = if exists|k: int|
        0 <= k < m.openers.len() && text::starts_with(#[trigger] m.openers[k], t) {
        choose|k: int| 0 <= k < m.openers.len() && text::starts_with(#[trigger] m.openers[k], t)
    } else {
        let k = choose|k: int|
            0 <= k < m.spans.len() && text::starts_with((#[trigger] m.spans[k]).0, t);
        m.openers.len() + k
    };
    if i < m.openers.len() {
        assert(starters(m)[i] == m.openers[i]);
    } else {
        assert(starters(m)[i] == m.spans[i - m.openers.len()].0);
    }
    let w = starters(m)[i];
    lemma_longest(m, i);
    assert(text::starts_with(w, t));
    assert(w.take(t.len() as int) =~= t);
    assert(w.take(w.len() as int) =~= w);
    if t.len() == w.len() {
        assert(w =~= t);
        assert(starters(m)[i] == t);
    }
    text::lemma_byte_len_take_strict(w, t.len() as int, w.len() as int);
}

/// Of a text without a marker everything is shown but the end that begins one: the longest such end
/// is held back, and where there is none nothing is.
pub proof fn law_only_beginnings_are_held_back(m: Markers, s: Seq<char>, k: int)
    requires
        forall|q: int| 0 <= q <= s.len() ==> !#[trigger] marker_at(m, s, q),
        0 <= k <= s.len(),
        forall|i: int| 0 <= i < k ==> !#[trigger] begins_marker(m, s.skip(i)),
        k < s.len() ==> begins_marker(m, s.skip(k)),
    ensures
        visible(m, s) == s.take(k),
{
    law_plain_prose(m, s);
    lemma_partial_start(m, s, 0);
    let p = partial_start(m, s, 0);
    if p < s.len() {
        assert(begins_marker(m, s.skip(p)));
        assert(p >= k);
    }
    if k < s.len() {
        assert forall|i: int| 0 <= i < starters(m).len() implies #[trigger] starters(m)[i] != s.skip(
            k,
        ) by {
            if starters(m)[i] == s.skip(k) {
                assert(s.subrange(k, s.len() as int) =~= s.skip(k));
                assert(text::occurs_at(s, starters(m)[i], k));
                lemma_starter_marks(m, s, k, i);
            }
        }
        lemma_prefix_bytes(m, s.skip(k));
        assert(partial_at(m, s, k));
        lemma_partial_first(m, s, 0, k);
    }
}

proof fn lemma_partial_first(m: Markers, s: Seq<char>, from: int, k: int)
    requires
        0 <= from <= k < s.len(),
        partial_at(m, s, k),
    ensures
        partial_start(m, s, from) <= k,
    decreases k - from,
{
    if from < k && !partial_at(m, s, from) {
        lemma_partial_first(m, s, from + 1, k);
    }
}

/// The text is one of the markers: an opener, or one end of a span.
pub open spec fn is_marker(m: Markers, t: Seq<char>) -> bool {
    ||| exists|k: int| 0 <= k < m.openers.len() && #[trigger] m.openers[k] == t
    ||| exists|k: int|
        0 <= k < m.spans.len() && ((#[trigger] m.spans[k]).0 == t || m.spans[k].1 == t)
}

proof fn lemma_longest_is_an_opener(openers: Seq<Seq<char>>)
    ensures
        openers.len() > 0 ==> exists|k: int|
            0 <= k < openers.len() && text::byte_len(#[trigger] openers[k]) == longest_opener(openers),
        openers.len() == 0 ==> longest_opener(openers) == 0,
    decreases openers.len(),
{
    if openers.len() > 0 {
        let front = openers.drop_last();
        lemma_longest_is_an_opener(front);
        let last = openers.len() - 1;
        if longest_opener(openers) != text::byte_len(openers[last]) {
            let k = choose|k: int|
                0 <= k < front.len() && text::byte_len(#[trigger] front[k]) == longest_opener(front);
            assert(front[k] == openers[k]);
        }
    }
}

proof fn lemma_longest_is_of_a_span(spans: Seq<(Seq<char>, Seq<char>)>)
    ensures
        spans.len() > 0 ==> exists|k: int|
            0 <= k < spans.len() && (text::byte_len((#[trigger] spans[k]).0) == longest_span_marker(
                spans,
            ) || text::byte_len(spans[k].1) == longest_span_marker(spans)),
        spans.len() == 0 ==> longest_span_marker(spans) == 0,
        forall|k: int|
            0 <= k < spans.len() ==> text::byte_len((#[trigger] spans[k]).0) <= longest_span_marker(
                spans,
            ) && text::byte_len(spans[k].1) <= longest_span_marker(spans),
    decreases spans.len(),
{
    if spans.len() > 0 {
        let front = spans.drop_last();
        lemma_longest_is_of_a_span(front);
        let last = spans.len() - 1;
        assert forall|k: int| 0 <= k < spans.len() implies text::byte_len((#[trigger] spans[k]).0)
            <= longest_span_marker(spans) && text::byte_len(spans[k].1) <= longest_span_marker(
            spans,
        ) by {
            if k < last {
                assert(front[k] == spans[k]);
            }
        }
        if longest_span_marker(spans) != text::byte_len(spans[last].0) && longest_span_marker(spans)
            != text::byte_len(spans[last].1) {
            let k = choose|k: int|
                0 <= k < front.len() && (text::byte_len((#[trigger] front[k]).0)
                    == longest_span_marker(front) || text::byte_len(front[k].1)
                    == longest_span_marker(front));
            assert(front[k] == spans[k]);
        }
    }
}

/// What is held back is one byte less than the longest marker: no marker is longer, and one is as
/// long.
pub proof fn law_holdback(m: Markers, t: Seq<char>)
    ensures
        is_marker(m, t) ==> text::byte_len(t) <= holdback(m) + 1,
        holdback(m) > 0 ==> exists|x: Seq<char>|
            #[trigger] is_marker(m, x) && text::byte_len(x) == holdback(m) + 1,
{
    lemma_longest_is_an_opener(m.openers);
    lemma_longest_is_of_a_span(m.spans);
    if is_marker(m, t) {
        if exists|k: int| 0 <= k < m.openers.len() && #[trigger] m.openers[k] == t {
            let k = choose|k: int| 0 <= k < m.openers.len() && #[trigger] m.openers[k] == t;
            lemma_longest_opener(m.openers, k);
        } else {
            let k = choose|k: int|
                0 <= k < m.spans.len() && ((#[trigger] m.spans[k]).0 == t || m.spans[k].1 == t);
            assert(text::byte_len(m.spans[k].0) <= longest_span_marker(m.spans));
        }
    }
    if holdback(m) > 0 {
        let a = longest_opener(m.openers);
        let b = longest_span_marker(m.spans);
        if a >= b {
            let k = choose|k: int|
                0 <= k < m.openers.len() && text::byte_len(#[trigger] m.openers[k]) == a;
            assert(is_marker(m, m.openers[k]));
        } else {
            let k = choose|k: int|
                0 <= k < m.spans.len() && (text::byte_len((#[trigger] m.spans[k]).0) == b
                    || text::byte_len(m.spans[k].1) == b);
            assert(m.spans[k] == m.spans[k]);
            assert(is_marker(m, m.spans[k].0) && is_marker(m, m.spans[k].1));
        }
    }
}

/// Prose is shown as soon as it can be: of a text without a marker so far, everything but the last
/// bytes in which a marker may be beginning.
pub proof fn law_prose_is_shown_early(m: Markers, s: Seq<char>)
    requires
        forall|q: int| 0 <= q <= s.len() ==> !#[trigger] marker_at(m, s, q),
    ensures
        ({
            let shown = drain(m, s, 0).1;
            let e = shown.len() as int;
            &&& e <= s.len() && shown == s.take(e)
            &&& e < s.len() ==> text::byte_len(s.take(e + 1)) + holdback(m) > text::byte_len(s)
            &&& e > 0 ==> text::byte_len(shown) + holdback(m) <= text::byte_len(s)
        }),
{
    lemma_next_marker(m, s, 0);
    let total = text::byte_len(s);
    let kept: nat = if total < holdback(m) {
        0
    } else {
        (total - holdback(m)) as nat
    };
    text::lemma_chars_within(s, kept);
    let e = safe_end(m, s, 0);
    assert(s.subrange(0, e) =~= s.take(e));
    if e > 0 {
        text::lemma_byte_len_bounds(s.take(e));
    }
    if e < s.len() {
        assert(text::byte_len(s.take(e + 1)) > kept);
    }
}

} // verus!
