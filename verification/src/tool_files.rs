//! The tools that read, write and edit files: what they show, and what they change.
use vstd::prelude::*;

use crate::conversation;
use crate::decimal;
use crate::json;
use crate::json::Json;
use crate::json::JsonV;
use crate::reply;
use crate::search;
use crate::text;

verus! {

pub open spec fn num(n: nat) -> JsonV {
    JsonV::Number(json::uint(n as u64))
}

pub open spec fn at_least_one(n: nat) -> nat {
    if n == 0 {
        1
    } else {
        n
    }
}

// ---- reading ---------------------------------------------------------------------------------

/// The index of the first line shown: `offset` counts from one, and points at most just past
/// the last line.
pub open spec fn window_start(total: nat, offset: Option<usize>) -> nat {
    let from = match offset {
        Some(o) => at_least_one(o as nat),
        None => 1,
    };
    if from > total + 1 {
        total
    } else {
        (from - 1) as nat
    }
}

/// The index after the last line shown.
pub open spec fn window_end(total: nat, start: nat, limit: Option<usize>) -> nat {
    match limit {
        Some(n) => if start + n < total {
            start + n as nat
        } else {
            total
        },
        None => total,
    }
}

/// A line with its number, right-aligned in `width` columns.
pub open spec fn numbered_line(number: nat, width: nat, line: Seq<char>) -> Seq<char> {
    decimal::pad_left(decimal::dec(number), ' ', width) + "|"@ + line
}

/// The lines `start..end`, numbered.
pub open spec fn numbered_lines(l: Seq<Seq<char>>, start: nat, end: nat) -> Seq<Seq<char>> {
    let width = decimal::dec(at_least_one(l.len())).len();
    Seq::new(
        (end - start) as nat,
        |i: int| numbered_line((start + i + 1) as nat, width, l[start + i]),
    )
}

pub open spec fn shown_lines(content: Seq<char>, offset: Option<usize>, limit: Option<usize>) -> Seq<
    char,
> {
    let l = text::lines(content);
    let start = window_start(l.len(), offset);
    text::join(numbered_lines(l, start, window_end(l.len(), start, limit)), "\n"@)
}

/// The note about which lines are shown, if not all are.
pub open spec fn window_header(total: nat, start: nat, end: nat) -> Seq<char> {
    if start > 0 || end < total {
        "[Lines "@ + decimal::dec(start + 1) + "-"@ + decimal::dec(end) + " of "@ + decimal::dec(
            total,
        ) + "]\n"@
    } else {
        seq![]
    }
}

/// The most bytes of numbered lines that are shown.
pub const READ_CAP: usize = 60000;

/// What reading a file shows.
pub open spec fn read_value(content: Seq<char>, offset: Option<usize>, limit: Option<usize>) -> Seq<
    char,
> {
    let total = text::lines(content).len();
    let start = window_start(total, offset);
    let end = window_end(total, start, limit);
    let shown = shown_lines(content, offset, limit);
    window_header(total, start, end) + if text::byte_len(shown) > READ_CAP {
        shown.take(text::chars_within(shown, READ_CAP as nat) as int) + "\n\n... (truncated, "@
            + decimal::dec(total) + " total lines)"@
    } else {
        shown
    }
}

/// The window can be shown: its end can be counted, and a cut does not split a character.
pub open spec fn can_show(content: Seq<char>, offset: Option<usize>, limit: Option<usize>) -> bool {
    let start = window_start(text::lines(content).len(), offset);
    let shown = shown_lines(content, offset, limit);
    &&& limit matches Some(n) ==> start + n <= usize::MAX
    &&& text::byte_len(shown) > READ_CAP ==> text::is_boundary(shown, READ_CAP as nat)
}

fn bounds(total: usize, offset: Option<usize>, limit: Option<usize>) -> (r: Option<(usize, usize)>)
    ensures
        ({
            let start = window_start(total as nat, offset);
            match r {
                Some((a, b)) => a == start && b == window_end(total as nat, start, limit) && a <= b
                    <= total && (limit matches Some(n) ==> start + n <= usize::MAX),
                None => limit matches Some(n) && start + n > usize::MAX,
            }
        }),
{
    let from: usize = match offset {
        Some(o) => if o == 0 {
            1
        } else {
            o
        },
        None => 1,
    };
    let start: usize = if from - 1 > total {
        total
    } else {
        from - 1
    };
    match limit {
        Some(n) => {
            if n > usize::MAX - start {
                return None;
            }
            if n < total - start {
                Some((start, start + n))
            } else {
                Some((start, total))
            }
        },
        None => Some((start, total)),
    }
}

fn number_lines(l: &Vec<String>, start: usize, end: usize) -> (r: String)
    requires
        start <= end <= l@.len(),
    ensures
        r@ == text::join(
            numbered_lines(text::texts(l@), start as nat, end as nat),
            "\n"@,
        ),
{
    let ghost all = text::texts(l@);
    let total = l.len();
    let most = decimal::dec_usize(
        if total == 0 {
            1
        } else {
            total
        },
    );
    let width = most.as_str().unicode_len();
    let mut out: Vec<String> = Vec::new();
    let mut i: usize = start;
    while i < end
        invariant
            all == text::texts(l@),
            total == l@.len(),
            start <= i <= end <= total,
            width == decimal::dec(at_least_one(all.len())).len(),
            out@.len() == i - start,
            forall|j: int|
                0 <= j < out@.len() ==> (#[trigger] out@[j])@ == numbered_line(
                    (start + j + 1) as nat,
                    width as nat,
                    all[start + j],
                ),
        decreases end - i,
    {
        let number = decimal::dec_usize(i + 1);
        let mut line = decimal::padded(number.as_str(), ' ', width);
        line.append("|");
        line.append(l[i].as_str());
        out.push(line);
        i = i + 1;
    }
    proof {
        assert(text::texts(out@) =~= numbered_lines(all, start as nat, end as nat));
    }
    text::join_strings(&out, "\n")
}

/// Whether a file's window can be shown.
pub fn read_fits(content: &str, offset: Option<usize>, limit: Option<usize>) -> (r: bool)
    ensures
        r == can_show(content@, offset, limit),
{
    let l = text::str_lines(content);
    proof {
        assert(text::texts(l@).len() == l@.len());
    }
    match bounds(l.len(), offset, limit) {
        Some(b) => {
            let shown = number_lines(&l, b.0, b.1);
            text::str_bytes(shown.as_str()) <= READ_CAP || text::split_bytes(
                shown.as_str(),
                READ_CAP,
            ).is_some()
        },
        None => false,
    }
}

/// What reading a file shows: the numbered lines of a window, cut when they are too many.
pub fn read_window(content: &str, offset: Option<usize>, limit: Option<usize>) -> (r: String)
    requires
        can_show(content@, offset, limit),
    ensures
        r@ == read_value(content@, offset, limit),
{
    let l = text::str_lines(content);
    let total = l.len();
    proof {
        assert(text::texts(l@).len() == l@.len());
    }
    let b = match bounds(total, offset, limit) {
        Some(b) => b,
        None => (0, 0),
    };
    let shown = number_lines(&l, b.0, b.1);
    let mut s = String::new();
    if b.0 > 0 || b.1 < total {
        s.append("[Lines ");
        s.append(decimal::dec_usize(b.0 + 1).as_str());
        s.append("-");
        s.append(decimal::dec_usize(b.1).as_str());
        s.append(" of ");
        s.append(decimal::dec_usize(total).as_str());
        s.append("]\n");
    }
    let ghost head = s@;
    proof {
        assert(head =~= window_header(total as nat, b.0 as nat, b.1 as nat));
    }
    if text::str_bytes(shown.as_str()) > READ_CAP {
        if let Some(parts) = text::split_bytes(shown.as_str(), READ_CAP) {
            s.append(parts.0.as_str());
            s.append("\n\n... (truncated, ");
            s.append(decimal::dec_usize(total).as_str());
            s.append(" total lines)");
            proof {
                assert(s@ =~= head + (parts.0@ + "\n\n... (truncated, "@ + decimal::dec(
                    total as nat,
                ) + " total lines)"@));
            }
        }
    } else {
        s.append(shown.as_str());
    }
    s
}

// ---- writing -----------------------------------------------------------------------------------

/// The first few lines of what was written.
pub open spec fn write_preview(content: Seq<char>) -> Seq<char> {
    let l = text::lines(content);
    if l.len() > 8 {
        text::join(l.take(8), "\n"@) + "\n  ... ("@ + decimal::dec((l.len() - 8) as nat)
            + " more lines)"@
    } else {
        text::join(l, "\n"@)
    }
}

pub open spec fn write_summary(
    path: Seq<char>,
    content: Seq<char>,
    existed: bool,
    old_lines: nat,
) -> Seq<char> {
    let new_lines = decimal::dec(text::lines(content).len());
    let bytes = decimal::dec(text::byte_len(content));
    if existed {
        "Overwrote "@ + path + " — "@ + decimal::dec(old_lines) + " → "@ + new_lines + " lines ("@
            + bytes + " bytes)"@
    } else {
        "Created "@ + path + " — "@ + new_lines + " lines ("@ + bytes + " bytes)"@
    }
}

/// What writing a file answers.
pub open spec fn write_reply(
    path: Seq<char>,
    content: Seq<char>,
    existed: bool,
    old_lines: nat,
) -> Seq<char> {
    json::printed(
        JsonV::Object(
            json::no_members().insert("ok"@, JsonV::Bool(true)).insert(
                "tool"@,
                JsonV::Text("write_file"@),
            ).insert("path"@, JsonV::Text(path)).insert(
                "summary"@,
                JsonV::Text(write_summary(path, content, existed, old_lines)),
            ).insert(
                "write"@,
                JsonV::Object(
                    json::no_members().insert("created"@, JsonV::Bool(!existed)).insert(
                        "old_line_count"@,
                        num(old_lines),
                    ).insert("new_line_count"@, num(text::lines(content).len())).insert(
                        "bytes"@,
                        num(text::byte_len(content)),
                    ).insert("preview"@, JsonV::Text(write_preview(content))),
                ),
            ),
        ),
    )
}

/// The number of lines of a text.
pub fn count_lines(s: &str) -> (n: usize)
    ensures
        n == text::lines(s@).len(),
{
    let l = text::str_lines(s);
    proof {
        assert(text::texts(l@).len() == l@.len());
    }
    l.len()
}

/// Reports a file that was written; `old_lines` is how many lines it had before.
pub fn report_write(path: &str, content: &str, existed: bool, old_lines: usize) -> (r: String)
    ensures
        r@ == write_reply(path@, content@, existed, old_lines as nat),
{
    let l = text::str_lines(content);
    proof {
        assert(text::texts(l@).len() == l@.len());
    }
    let new_lines = l.len();
    let bytes = text::str_bytes(content);
    let preview = if new_lines > 8 {
        let mut p = text::join_range(&l, 0, 8, "\n");
        p.append("\n  ... (");
        p.append(decimal::dec_usize(new_lines - 8).as_str());
        p.append(" more lines)");
        proof {
            assert(text::texts(l@).subrange(0, 8) =~= text::texts(l@).take(8));
        }
        p
    } else {
        text::join_strings(&l, "\n")
    };
    let mut summary = text::copy(
        if existed {
            "Overwrote "
        } else {
            "Created "
        },
    );
    summary.append(path);
    summary.append(" — ");
    if existed {
        summary.append(decimal::dec_usize(old_lines).as_str());
        summary.append(" → ");
    }
    summary.append(decimal::dec_usize(new_lines).as_str());
    summary.append(" lines (");
    summary.append(decimal::dec_usize(bytes).as_str());
    summary.append(" bytes)");
    let details = Json::object().with("created", Json::Bool(!existed)).with(
        "old_line_count",
        Json::uint(old_lines as u64),
    ).with("new_line_count", Json::uint(new_lines as u64)).with(
        "bytes",
        Json::uint(bytes as u64),
    ).with_str("preview", preview.as_str());
    json::print(
        &Json::object().with("ok", Json::Bool(true)).with_str("tool", "write_file").with_str(
            "path",
            path,
        ).with_str("summary", summary.as_str()).with("write", details),
    )
}

// ---- editing -----------------------------------------------------------------------------------

/// The block of lines `i..j` is the wanted text but for its whitespace.
pub open spec fn block_matches(l: Seq<Seq<char>>, i: int, j: int, wanted: Seq<char>) -> bool {
    search::normalize(text::join(l.subrange(i, j), "\n"@)) == wanted
}

/// The first end `j`, up to `most`, of a block from line `i` on that matches.
pub open spec fn block_end(l: Seq<Seq<char>>, i: int, j: int, most: int, wanted: Seq<char>) -> Option<
    int,
>
    decreases most - j + 1,
{
    if j > most {
        None
    } else if block_matches(l, i, j, wanted) {
        Some(j)
    } else {
        block_end(l, i, j + 1, most, wanted)
    }
}

/// The last line that a block from line `i` on may reach, for a text of `n` lines.
pub open spec fn block_limit(total: nat, i: int, n: nat) -> int {
    if i + n * 2 < total {
        i + n * 2
    } else {
        total as int
    }
}

/// The first block, from line `i` on, that matches.
pub open spec fn find_block(
    l: Seq<Seq<char>>,
    i: int,
    n: nat,
    wanted: Seq<char>,
) -> Option<Seq<char>>
    decreases l.len() - i + 1,
{
    let last: int = if l.len() < n {
        0
    } else {
        l.len() - n
    };
    if i < 0 || i > last {
        None
    } else {
        match block_end(l, i, i + 1, block_limit(l.len(), i, n), wanted) {
            Some(j) => Some(text::join(l.subrange(i, j), "\n"@)),
            None => find_block(l, i + 1, n, wanted),
        }
    }
}

/// The text that an edit replaces: the given one if the file holds it, else the first block
/// of lines that differs from it in whitespace alone.
pub open spec fn edit_target(content: Seq<char>, old: Seq<char>) -> Option<Seq<char>> {
    if text::contains(content, old) {
        Some(old)
    } else {
        find_block(
            text::lines(content),
            0,
            at_least_one(text::lines(old).len()),
            search::normalize(old),
        )
    }
}

/// The line on which the first match begins.
pub open spec fn match_line(content: Seq<char>, target: Seq<char>) -> nat {
    let at = match text::find(content, target) {
        Some(i) => i,
        None => 0,
    };
    at_least_one(text::lines(content.take(at)).len())
}

pub open spec fn marked(mark: Seq<char>, l: Seq<Seq<char>>) -> Seq<char>
    decreases l.len(),
{
    if l.len() == 0 {
        seq![]
    } else {
        marked(mark, l.drop_last()) + mark + l.last() + "\n"@
    }
}

/// A small diff of the replaced text.
pub open spec fn diff_preview(line: nat, old: Seq<char>, new: Seq<char>) -> Seq<char> {
    let o = at_least_one(text::lines(old).len());
    let n = at_least_one(text::lines(new).len());
    "@@ -"@ + decimal::dec(line) + ","@ + decimal::dec(o) + " +"@ + decimal::dec(line) + ","@
        + decimal::dec(n) + " @@\n"@ + marked("-"@, text::lines(old)) + marked(
        "+"@,
        text::lines(new),
    )
}

/// The file after the edit.
pub open spec fn edited(
    content: Seq<char>,
    target: Seq<char>,
    new: Seq<char>,
    all: bool,
) -> Seq<char> {
    if all {
        search::replace_all(content, target, new)
    } else {
        search::replace_first(content, target, new)
    }
}

/// What an edit answers.
pub open spec fn edit_reply(
    path: Seq<char>,
    content: Seq<char>,
    old: Seq<char>,
    new: Seq<char>,
    all: bool,
    target: Seq<char>,
) -> Seq<char> {
    let line = match_line(content, target);
    let old_lines = at_least_one(text::lines(target).len());
    let new_lines = at_least_one(text::lines(new).len());
    let end = (line + old_lines - 1) as nat;
    let count = conversation::capped(search::count(content, target));
    let summary = if all {
        "Edited "@ + path + " — replaced "@ + decimal::dec(count) + " occurrences (first match lines "@
            + decimal::dec(line) + "-"@ + decimal::dec(end) + ")"@
    } else {
        "Edited "@ + path + " — lines "@ + decimal::dec(line) + "-"@ + decimal::dec(end)
    };
    json::printed(
        JsonV::Object(
            json::no_members().insert("ok"@, JsonV::Bool(true)).insert(
                "tool"@,
                JsonV::Text("edit_file"@),
            ).insert("path"@, JsonV::Text(path)).insert("summary"@, JsonV::Text(summary)).insert(
                "edit"@,
                JsonV::Object(
                    json::no_members().insert("start_line"@, num(line)).insert(
                        "end_line"@,
                        num(end),
                    ).insert("old_line_count"@, num(old_lines)).insert(
                        "new_line_count"@,
                        num(new_lines),
                    ).insert("before"@, JsonV::Text(old)).insert("after"@, JsonV::Text(new)).insert(
                        "replace_all"@,
                        JsonV::Bool(all),
                    ).insert("occurrences"@, num(count)),
                ),
            ).insert("diff_preview"@, JsonV::Text(diff_preview(line, target, new))),
        ),
    )
}

/// Why an edit is refused.
pub open spec fn edit_refusal(
    path: Seq<char>,
    content: Seq<char>,
    old: Seq<char>,
    all: bool,
) -> Option<Seq<char>> {
    match edit_target(content, old) {
        None => Some(
            reply::error_reply(
                "OLD_STRING_NOT_FOUND"@,
                "old_string not found in "@ + path
                    + ". Make sure you are matching the exact indentation and whitespace."@,
                true,
            ),
        ),
        Some(t) => if search::count(content, t) > 1 && !all {
            Some(
                reply::error_reply(
                    "MULTIPLE_MATCHES"@,
                    "Found multiple matches for old_string. Add more context or set replace_all=true."@,
                    true,
                ),
            )
        } else {
            None
        },
    }
}

/// What an edit comes to.
pub enum EditPlan {
    /// The file stays as it is; this is the answer.
    Refused(String),
    /// The file is to be written with this content; then this is the answer.
    Write { content: String, reply: String },
}

fn lines_bound(s: &str) -> (r: Vec<String>)
    ensures
        text::texts(r@) == text::lines(s@),
        r@.len() == text::lines(s@).len(),
        r@.len() <= s@.len(),
{
    let r = text::str_lines(s);
    proof {
        assert(text::texts(r@).len() == r@.len());
        lemma_lines_len(s@);
    }
    r
}

proof fn lemma_lines_len(s: Seq<char>)
    ensures
        text::lines(s).len() <= s.len(),
    decreases s.len(),
{
    if s.len() > 0 {
        let k = text::until(s, '\n');
        if k < s.len() {
            lemma_lines_len(s.skip(k as int + 1));
        }
    }
}

fn search_block(l: &Vec<String>, n: usize, wanted: &str) -> (r: Option<String>)
    requires
        n >= 1,
    ensures
        match r {
            Some(b) => find_block(text::texts(l@), 0, n as nat, wanted@) == Some(b@),
            None => find_block(text::texts(l@), 0, n as nat, wanted@) is None,
        },
{
    let ghost all = text::texts(l@);
    let total = l.len();
    let last: usize = if total < n {
        0
    } else {
        total - n
    };
    let mut i: usize = 0;
    loop
        invariant
            all == text::texts(l@),
            total == l@.len(),
            n >= 1,
            last == (if total < n {
                0
            } else {
                total - n
            }),
            i <= last,
            last <= total,
            find_block(all, 0, n as nat, wanted@) == find_block(all, i as int, n as nat, wanted@),
        decreases last - i,
    {
        let room = total - i;
        let most: usize = if n > room / 2 {
            total
        } else {
            i + n * 2
        };
        proof {
            assert(most == block_limit(all.len(), i as int, n as nat));
        }
        let mut j: usize = i;
        while j < most
            invariant
                all == text::texts(l@),
                total == l@.len(),
                i <= j <= most <= total,
                most == block_limit(all.len(), i as int, n as nat),
                find_block(all, 0, n as nat, wanted@) == find_block(all, i as int, n as nat, wanted@),
                i <= last,
                last == (if total < n {
                    0
                } else {
                    total - n
                }),
                block_end(all, i as int, i + 1, most as int, wanted@) == block_end(
                    all,
                    i as int,
                    j + 1,
                    most as int,
                    wanted@,
                ),
            decreases most - j,
        {
            j = j + 1;
            let block = text::join_range(l, i, j, "\n");
            let plain = search::normalized(block.as_str());
            if text::str_eq(plain.as_str(), wanted) {
                proof {
                    assert(block_matches(all, i as int, j as int, wanted@));
                }
                return Some(block);
            }
        }
        if i == last {
            proof {
                assert(find_block(all, i + 1, n as nat, wanted@) is None);
            }
            return None;
        }
        i = i + 1;
    }
}

fn target_of(content: &str, old: &str) -> (r: Option<String>)
    ensures
        match r {
            Some(t) => edit_target(content@, old@) == Some(t@),
            None => edit_target(content@, old@) is None,
        },
{
    if text::str_contains(content, old) {
        return Some(text::copy(old));
    }
    let l = lines_bound(content);
    let n = lines_bound(old).len();
    let wanted = search::normalized(old);
    search_block(
        &l,
        if n == 0 {
            1
        } else {
            n
        },
        wanted.as_str(),
    )
}

fn add_marked(s: &mut String, mark: &str, l: &Vec<String>)
    ensures
        final(s)@ == old(s)@ + marked(mark@, text::texts(l@)),
{
    let ghost before = s@;
    let ghost all = text::texts(l@);
    let mut i: usize = 0;
    proof {
        assert(all.take(0) =~= Seq::<Seq<char>>::empty());
        assert(s@ =~= before + marked(mark@, all.take(0)));
    }
    while i < l.len()
        invariant
            all == text::texts(l@),
            i <= l@.len(),
            s@ == before + marked(mark@, all.take(i as int)),
        decreases l.len() - i,
    {
        proof {
            assert(all.take(i as int + 1).drop_last() =~= all.take(i as int));
            assert(all.take(i as int + 1).last() == l@[i as int]@);
        }
        s.append(mark);
        s.append(l[i].as_str());
        s.append("\n");
        proof {
            assert(s@ =~= before + (marked(mark@, all.take(i as int)) + mark@ + l@[i as int]@
                + "\n"@));
        }
        i = i + 1;
    }
    proof {
        assert(all.take(i as int) =~= all);
    }
}

fn first_line(content: &str, target: &str) -> (r: usize)
    ensures
        r == match_line(content@, target@),
        r >= 1,
        r - 1 + target@.len() <= usize::MAX,
{
    let v = text::to_chars(content);
    let w = text::to_chars(target);
    let total = v.len();
    let width = w.len();
    match text::find_chars(&v, &w, 0) {
        Some(i) => {
            let head = text::substring(&v, 0, i);
            proof {
                assert(head@ =~= content@.take(i as int));
            }
            let n = lines_bound(head.as_str()).len();
            if n == 0 {
                1
            } else {
                n
            }
        },
        None => {
            proof {
                assert(content@.take(0) =~= Seq::<char>::empty());
            }
            1
        },
    }
}

/// Decides an edit: which text is replaced, what the file becomes, and what is answered.
pub fn plan_edit(path: &str, content: &str, old_string: &str, new_string: &str, replace_all: bool) -> (r:
    EditPlan)
    ensures
        match r {
            EditPlan::Refused(s) => edit_refusal(path@, content@, old_string@, replace_all) == Some(
                s@,
            ),
            EditPlan::Write { content: c, reply: s } => edit_refusal(
                path@,
                content@,
                old_string@,
                replace_all,
            ) is None && ({
                let t = edit_target(content@, old_string@)->Some_0;
                &&& c@ == edited(content@, t, new_string@, replace_all)
                &&& s@ == edit_reply(path@, content@, old_string@, new_string@, replace_all, t)
            }),
        },
{
    let target = match target_of(content, old_string) {
        Some(t) => t,
        None => {
            let mut m = text::copy("old_string not found in ");
            m.append(path);
            m.append(". Make sure you are matching the exact indentation and whitespace.");
            return EditPlan::Refused(
                reply::tool_error("OLD_STRING_NOT_FOUND", m.as_str(), true),
            );
        },
    };
    let count = search::count_matches(content, target.as_str());
    if count > 1 && !replace_all {
        return EditPlan::Refused(
            reply::tool_error(
                "MULTIPLE_MATCHES",
                "Found multiple matches for old_string. Add more context or set replace_all=true.",
                true,
            ),
        );
    }
    let start = first_line(content, target.as_str());
    let old_list = lines_bound(target.as_str());
    let new_list = lines_bound(new_string);
    let old_lines: usize = if old_list.len() == 0 {
        1
    } else {
        old_list.len()
    };
    let new_lines: usize = if new_list.len() == 0 {
        1
    } else {
        new_list.len()
    };
    proof {
        assert(target@.len() == 0 ==> old_lines == 1);
    }
    let end: usize = if old_lines == 1 {
        start
    } else {
        start - 1 + old_lines
    };
    let mut diff = text::copy("@@ -");
    diff.append(decimal::dec_usize(start).as_str());
    diff.append(",");
    diff.append(decimal::dec_usize(old_lines).as_str());
    diff.append(" +");
    diff.append(decimal::dec_usize(start).as_str());
    diff.append(",");
    diff.append(decimal::dec_usize(new_lines).as_str());
    diff.append(" @@\n");
    add_marked(&mut diff, "-", &old_list);
    add_marked(&mut diff, "+", &new_list);
    proof {
        assert(diff@ == diff_preview(start as nat, target@, new_string@));
    }
    let mut summary = text::copy("Edited ");
    summary.append(path);
    if replace_all {
        summary.append(" — replaced ");
        summary.append(decimal::dec_usize(count).as_str());
        summary.append(" occurrences (first match lines ");
        summary.append(decimal::dec_usize(start).as_str());
        summary.append("-");
        summary.append(decimal::dec_usize(end).as_str());
        summary.append(")");
    } else {
        summary.append(" — lines ");
        summary.append(decimal::dec_usize(start).as_str());
        summary.append("-");
        summary.append(decimal::dec_usize(end).as_str());
    }
    let details = Json::object().with("start_line", Json::uint(start as u64)).with(
        "end_line",
        Json::uint(end as u64),
    ).with("old_line_count", Json::uint(old_lines as u64)).with(
        "new_line_count",
        Json::uint(new_lines as u64),
    ).with_str("before", old_string).with_str("after", new_string).with(
        "replace_all",
        Json::Bool(replace_all),
    ).with("occurrences", Json::uint(count as u64));
    let answer = json::print(
        &Json::object().with("ok", Json::Bool(true)).with_str("tool", "edit_file").with_str(
            "path",
            path,
        ).with_str("summary", summary.as_str()).with("edit", details).with_str(
            "diff_preview",
            diff.as_str(),
        ),
    );
    let after = if replace_all {
        search::replaced_all(content, target.as_str(), new_string)
    } else {
        search::replaced_first(content, target.as_str(), new_string)
    };
    EditPlan::Write { content: after, reply: answer }
}

// ---- laws --------------------------------------------------------------------------------------

/// Which lines are shown: counted from one, those from the offset on, as many as the limit allows.
pub proof fn law_window(total: nat, offset: Option<usize>, limit: Option<usize>, k: nat)
    requires
        1 <= k <= total,
    ensures
        ({
            let start = window_start(total, offset);
            let end = window_end(total, start, limit);
            let from = match offset {
                Some(o) => if o == 0 {
                    1nat
                } else {
                    o as nat
                },
                None => 1nat,
            };
            start < k <= end <==> from <= k && (limit matches Some(n) ==> k < from + n)
        }),
{
}

/// What reading a file shows: a header where not all lines are shown, and then each line of the
/// window with its number, right-aligned, and a bar before it. Where that takes more than 60000
/// bytes, it is cut there and a note says how many lines there are.
pub proof fn law_numbered_lines_are_shown(
    content: Seq<char>,
    offset: Option<usize>,
    limit: Option<usize>,
    i: int,
)
    requires
        can_show(content, offset, limit),
    ensures
        ({
            let l = text::lines(content);
            let start = window_start(l.len(), offset);
            let end = window_end(l.len(), start, limit);
            let width = decimal::dec(
                if l.len() == 0 {
                    1
                } else {
                    l.len()
                },
            ).len();
            let shown = numbered_lines(l, start, end);
            let whole = text::join(shown, "\n"@);
            let header = if start == 0 && end == l.len() {
                Seq::<char>::empty()
            } else {
                "[Lines "@ + decimal::dec(start + 1) + "-"@ + decimal::dec(end) + " of "@
                    + decimal::dec(l.len()) + "]\n"@
            };
            &&& start <= end <= l.len()
            &&& shown.len() == end - start
            &&& 0 <= i < shown.len() ==> exists|gap: Seq<char>|
                #[trigger] (gap + decimal::dec((start + 1 + i) as nat) + "|"@ + l[start + i])
                    == shown[i] && (gap.len() == 0 || gap.len() + decimal::dec(
                    (start + 1 + i) as nat,
                ).len() == width) && (forall|j: int|
                    0 <= j < gap.len() ==> #[trigger] gap[j] == ' ')
            &&& text::byte_len(whole) <= 60000 ==> read_value(content, offset, limit) == header
                + whole
            &&& text::byte_len(whole) > 60000 ==> exists|head: Seq<char>, cut: Seq<char>|
                #[trigger] (head + cut) == whole && text::byte_len(head) == 60000 && read_value(
                    content,
                    offset,
                    limit,
                ) == header + (head + "\n\n... (truncated, "@ + decimal::dec(l.len())
                    + " total lines)"@)
        }),
{
    let l = text::lines(content);
    let start = window_start(l.len(), offset);
    let end = window_end(l.len(), start, limit);
    let width = decimal::dec(at_least_one(l.len())).len();
    let shown = numbered_lines(l, start, end);
    let whole = text::join(shown, "\n"@);
    if 0 <= i < shown.len() {
        let number = decimal::dec((start + 1 + i) as nat);
        let gap = if number.len() < width {
            Seq::new((width - number.len()) as nat, |j: int| ' ')
        } else {
            Seq::empty()
        };
        assert(start + i + 1 == start + 1 + i);
        assert(gap + number + "|"@ + l[start + i] =~= shown[i]);
    }
    if text::byte_len(whole) > 60000 {
        let k = text::chars_within(whole, 60000) as int;
        text::lemma_chars_within(whole, 60000);
        assert(whole.take(k) + whole.skip(k) =~= whole);
    }
}

/// An edit is refused where the text is not in the file, not even but for whitespace, and where
/// it is there more than once and not all are meant; every other edit is made.
pub proof fn law_edits_are_refused(path: Seq<char>, content: Seq<char>, old: Seq<char>, all: bool)
    ensures
        text::contains(content, old) ==> edit_target(content, old) == Some(old),
        edit_refusal(path, content, old, all) is None <==> (edit_target(content, old) matches Some(
            t,
        ) && (all || search::count(content, t) <= 1)),
        edit_target(content, old) is None ==> edit_refusal(path, content, old, all) == Some(
            reply::error_reply(
                "OLD_STRING_NOT_FOUND"@,
                "old_string not found in "@ + path
                    + ". Make sure you are matching the exact indentation and whitespace."@,
                true,
            ),
        ),
        edit_target(content, old) is Some && edit_refusal(path, content, old, all) is Some
            ==> edit_refusal(path, content, old, all) == Some(
            reply::error_reply(
                "MULTIPLE_MATCHES"@,
                "Found multiple matches for old_string. Add more context or set replace_all=true."@,
                true,
            ),
        ),
{
}

/// An edit changes what it is meant to and nothing else. Of a single one, the text is split at the
/// first match, and the new text, however short, takes the place of the match. Of one of all
/// matches, the text falls into the pieces between them, and these stay.
pub proof fn law_edits_change_nothing_else(content: Seq<char>, t: Seq<char>, new: Seq<char>)
    requires
        text::contains(content, t),
    ensures
        exists|before: Seq<char>, after: Seq<char>|
            content == #[trigger] (before + t + after) && search::first_at(before, t, after)
                && edited(content, t, new, false) == before + new + after,
        t.len() > 0 ==> exists|pieces: Seq<Seq<char>>|
            content == #[trigger] text::join(pieces, t) && edited(content, t, new, true)
                == text::join(pieces, new) && pieces.len() == search::count(content, t) + 1
                && forall|i: int|
                0 <= i < pieces.len() ==> !text::contains(#[trigger] pieces[i], t),
{
    text::lemma_contains_find(content, t);
    text::lemma_find_from(content, t, 0);
    let i = text::find_from(content, t, 0)->Some_0;
    let before = content.take(i);
    let after = content.skip(i + t.len());
    assert(content =~= before + t + after);
    assert(search::first_at(before, t, after));
    search::law_replace_first(before, t, after, new);
    if t.len() > 0 {
        search::law_replace_all_keeps_the_rest(content, t, new);
        let pieces = choose|pieces: Seq<Seq<char>>|
            {
                &&& content == #[trigger] text::join(pieces, t)
                &&& search::replace_all(content, t, new) == text::join(pieces, new)
                &&& pieces.len() == search::count(content, t) + 1
                &&& forall|i: int|
                    0 <= i < pieces.len() ==> !text::contains(#[trigger] pieces[i], t)
            };
        assert(content == text::join(pieces, t));
    }
}

/// The block of lines `i..j` may stand for a text of `n` lines, and is alike but for whitespace.
pub open spec fn block_fits(l: Seq<Seq<char>>, i: int, j: int, n: nat, old: Seq<char>) -> bool {
    &&& 0 <= i < j <= l.len()
    &&& i + n <= l.len() || i == 0
    &&& j <= i + 2 * n
    &&& search::normalize(text::join(l.subrange(i, j), "\n"@)) == search::normalize(old)
}

proof fn lemma_block_end(l: Seq<Seq<char>>, i: int, j: int, most: int, wanted: Seq<char>)
    ensures
        match block_end(l, i, j, most, wanted) {
            Some(e) => j <= e <= most && block_matches(l, i, e, wanted) && forall|k: int|
                j <= k < e ==> !block_matches(l, i, k, wanted),
            None => forall|k: int| j <= k <= most ==> !block_matches(l, i, k, wanted),
        },
    decreases most - j + 1,
{
    if j <= most && !block_matches(l, i, j, wanted) {
        lemma_block_end(l, i, j + 1, most, wanted);
    }
}

proof fn lemma_find_block(l: Seq<Seq<char>>, i: int, n: nat, old: Seq<char>)
    requires
        0 <= i,
        n >= 1,
    ensures
        match find_block(l, i, n, search::normalize(old)) {
            Some(b) => exists|a: int, e: int|
                i <= a && #[trigger] block_fits(l, a, e, n, old) && b == text::join(
                    l.subrange(a, e),
                    "\n"@,
                ) && (forall|x: int, y: int|
                    i <= x && #[trigger] block_fits(l, x, y, n, old) ==> a < x || a == x && e <= y),
            None => forall|x: int, y: int| i <= x ==> !#[trigger] block_fits(l, x, y, n, old),
        },
    decreases l.len() - i + 1,
{
    let wanted = search::normalize(old);
    let last: int = if l.len() < n {
        0
    } else {
        l.len() - n
    };
    if i <= last {
        let most = block_limit(l.len(), i, n);
        lemma_block_end(l, i, i + 1, most, wanted);
        match block_end(l, i, i + 1, most, wanted) {
            Some(j) => {
                assert(block_fits(l, i, j, n, old));
                assert forall|x: int, y: int| i <= x && #[trigger] block_fits(l, x, y, n, old) implies i
                    < x || i == x && j <= y by {
                    if x == i && y < j {
                        assert(!block_matches(l, i, y, wanted));
                    }
                }
            },
            None => {
                lemma_find_block(l, i + 1, n, old);
                assert forall|y: int| !#[trigger] block_fits(l, i, y, n, old) by {
                    if block_fits(l, i, y, n, old) {
                        assert(!block_matches(l, i, y, wanted));
                    }
                }
                match find_block(l, i + 1, n, wanted) {
                    Some(b) => {
                        let (a, e) = choose|a: int, e: int|
                            i + 1 <= a && #[trigger] block_fits(l, a, e, n, old) && b == text::join(
                                l.subrange(a, e),
                                "\n"@,
                            ) && (forall|x: int, y: int|
                                i + 1 <= x && #[trigger] block_fits(l, x, y, n, old) ==> a < x || a
                                    == x && e <= y);
                        assert(block_fits(l, a, e, n, old));
                    },
                    None => {},
                }
            },
        }
    } else {
        assert forall|x: int, y: int| i <= x implies !#[trigger] block_fits(l, x, y, n, old) by {
        }
    }
}

/// Where the file does not hold the text as given, the edit is of the first block of its lines
/// that is alike but for whitespace, of at most twice as many lines, and of such blocks at the same
/// place the shortest; it is refused where there is none.
pub proof fn law_edits_look_past_whitespace(content: Seq<char>, old: Seq<char>, n: nat)
    requires
        !text::contains(content, old),
        text::lines(old).len() == 0 ==> n == 1,
        text::lines(old).len() > 0 ==> n == text::lines(old).len(),
    ensures
        ({
            let l = text::lines(content);
            match edit_target(content, old) {
                Some(b) => exists|a: int, e: int| #[trigger]
                    block_fits(l, a, e, n, old) && b == text::join(l.subrange(a, e), "\n"@) && (
                    forall|x: int, y: int| #[trigger]
                        block_fits(l, x, y, n, old) ==> a < x || a == x && e <= y),
                None => forall|x: int, y: int| !#[trigger] block_fits(l, x, y, n, old),
            }
        }),
{
    let l = text::lines(content);
    lemma_find_block(l, 0, n, old);
    match find_block(l, 0, n, search::normalize(old)) {
        Some(b) => {
            let (a, e) = choose|a: int, e: int|
                0 <= a && #[trigger] block_fits(l, a, e, n, old) && b == text::join(
                    l.subrange(a, e),
                    "\n"@,
                ) && (forall|x: int, y: int|
                    0 <= x && #[trigger] block_fits(l, x, y, n, old) ==> a < x || a == x && e <= y);
            assert(block_fits(l, a, e, n, old));
        },
        None => {},
    }
}

/// Each line of a list behind the mark, and with a line end.
proof fn lemma_marked(mark: Seq<char>, l: Seq<Seq<char>>)
    ensures
        marked(mark, l) == l.map_values(|s: Seq<char>| mark + s + "\n"@).flatten(),
    decreases l.len(),
{
    let f = |s: Seq<char>| mark + s + "\n"@;
    if l.len() == 0 {
        assert(l.map_values(f) =~= Seq::<Seq<char>>::empty());
        assert(marked(mark, l) =~= l.map_values(f).flatten());
    } else {
        lemma_marked(mark, l.drop_last());
        assert(l.map_values(f) =~= l.drop_last().map_values(f).push(f(l.last())));
        l.drop_last().map_values(f).lemma_flatten_push(f(l.last()));
        assert(marked(mark, l) =~= l.map_values(f).flatten());
    }
}

/// The value tells of an edit at `start` that took `went` lines and brought `came`.
pub open spec fn tells_of_edit(
    v: JsonV,
    path: Seq<char>,
    old: Seq<char>,
    new: Seq<char>,
    all: bool,
    target: Seq<char>,
    start: nat,
    went: nat,
    came: nat,
    count: nat,
) -> bool {
    let end = (start + went - 1) as nat;
    &&& v.get_bool("ok"@) == Some(true)
    &&& v.get_text("tool"@) == Some("edit_file"@)
    &&& v.get_text("path"@) == Some(path)
    &&& !all ==> v.get_text("summary"@) == Some(
        "Edited "@ + path + " — lines "@ + decimal::dec(start) + "-"@ + decimal::dec(end),
    )
    &&& all ==> v.get_text("summary"@) == Some(
        "Edited "@ + path + " — replaced "@ + decimal::dec(count)
            + " occurrences (first match lines "@ + decimal::dec(start) + "-"@ + decimal::dec(end)
            + ")"@,
    )
    &&& v.get_text("diff_preview"@) == Some(
        "@@ -"@ + decimal::dec(start) + ","@ + decimal::dec(went) + " +"@ + decimal::dec(start)
            + ","@ + decimal::dec(came) + " @@\n"@ + text::lines(target).map_values(
            |s: Seq<char>| "-"@ + s + "\n"@,
        ).flatten() + text::lines(new).map_values(|s: Seq<char>| "+"@ + s + "\n"@).flatten(),
    )
    &&& v.get("edit"@) is Some
    &&& ({
        let e = v.get("edit"@)->Some_0;
        &&& e.get("start_line"@) == Some(num(start))
        &&& e.get("end_line"@) == Some(num(end))
        &&& e.get("old_line_count"@) == Some(num(went))
        &&& e.get("new_line_count"@) == Some(num(came))
        &&& e.get_text("before"@) == Some(old)
        &&& e.get_text("after"@) == Some(new)
        &&& e.get_bool("replace_all"@) == Some(all)
        &&& e.get("occurrences"@) == Some(num(count))
    })
}

/// The answer to an edit says what was done: the path, the lines of the first match, how many
/// lines went and came, the texts, how many matches there were, and a diff with every line that
/// went and every line that came.
pub proof fn law_edits_are_reported(
    path: Seq<char>,
    old: Seq<char>,
    new: Seq<char>,
    all: bool,
    before: Seq<char>,
    target: Seq<char>,
    after: Seq<char>,
)
    requires
        search::first_at(before, target, after),
    ensures
        exists|v: JsonV|
            edit_reply(path, before + target + after, old, new, all, target)
                == #[trigger] json::printed(v) && tells_of_edit(
                v,
                path,
                old,
                new,
                all,
                target,
                if text::lines(before).len() == 0 {
                    1
                } else {
                    text::lines(before).len()
                },
                if text::lines(target).len() == 0 {
                    1
                } else {
                    text::lines(target).len()
                },
                if text::lines(new).len() == 0 {
                    1
                } else {
                    text::lines(new).len()
                },
                conversation::capped(search::count(before + target + after, target)),
            ),
{
    reveal_strlit("ok");
    reveal_strlit("tool");
    reveal_strlit("path");
    reveal_strlit("summary");
    reveal_strlit("edit");
    reveal_strlit("diff_preview");
    reveal_strlit("start_line");
    reveal_strlit("end_line");
    reveal_strlit("old_line_count");
    reveal_strlit("new_line_count");
    reveal_strlit("before");
    reveal_strlit("after");
    reveal_strlit("replace_all");
    reveal_strlit("occurrences");
    assert("ok"@.len() == 2
        && "tool"@.len() == 4
        && "path"@.len() == 4
        && "summary"@.len() == 7
        && "edit"@.len() == 4
        && "diff_preview"@.len() == 12
        && "start_line"@.len() == 10
        && "end_line"@.len() == 8
        && "old_line_count"@.len() == 14
        && "new_line_count"@.len() == 14
        && "before"@.len() == 6
        && "after"@.len() == 5
        && "replace_all"@.len() == 11
        && "occurrences"@.len() == 11);
    assert("tool"@[0] == 't' && "path"@[0] == 'p' && "edit"@[0] == 'e');
    assert("old_line_count"@[0] == 'o' && "new_line_count"@[0] == 'n');
    assert("replace_all"@[0] == 'r' && "occurrences"@[0] == 'o');
    lemma_marked("-"@, text::lines(target));
    lemma_marked("+"@, text::lines(new));
    let content = before + target + after;
    text::lemma_contains_find(content, target);
    assert(content.subrange(before.len() as int, (before.len() + target.len()) as int) =~= target);
    text::lemma_find_is(content, target, 0, before.len() as int);
    assert(content.take(before.len() as int) =~= before);
    let line = match_line(content, target);
    let old_lines = at_least_one(text::lines(target).len());
    let new_lines = at_least_one(text::lines(new).len());
    let end = (line + old_lines - 1) as nat;
    let count = conversation::capped(search::count(content, target));
    let summary = if all {
        "Edited "@ + path + " — replaced "@ + decimal::dec(count)
            + " occurrences (first match lines "@ + decimal::dec(line) + "-"@ + decimal::dec(end)
            + ")"@
    } else {
        "Edited "@ + path + " — lines "@ + decimal::dec(line) + "-"@ + decimal::dec(end)
    };
    let details = JsonV::Object(
        json::no_members().insert("start_line"@, num(line)).insert("end_line"@, num(end)).insert(
            "old_line_count"@,
            num(old_lines),
        ).insert("new_line_count"@, num(new_lines)).insert("before"@, JsonV::Text(old)).insert(
            "after"@,
            JsonV::Text(new),
        ).insert("replace_all"@, JsonV::Bool(all)).insert("occurrences"@, num(count)),
    );
    let v = JsonV::Object(
        json::no_members().insert("ok"@, JsonV::Bool(true)).insert(
            "tool"@,
            JsonV::Text("edit_file"@),
        ).insert("path"@, JsonV::Text(path)).insert("summary"@, JsonV::Text(summary)).insert(
            "edit"@,
            details,
        ).insert("diff_preview"@, JsonV::Text(diff_preview(line, target, new))),
    );
    assert(v.get("edit"@) == Some(details));
    assert(details.get("end_line"@) == Some(num(end)));
    assert(details.get("replace_all"@) == Some(JsonV::Bool(all)));
    assert(diff_preview(line, target, new) =~= "@@ -"@ + decimal::dec(line) + ","@ + decimal::dec(
        old_lines,
    ) + " +"@ + decimal::dec(line) + ","@ + decimal::dec(new_lines) + " @@\n"@ + text::lines(
        target,
    ).map_values(|s: Seq<char>| "-"@ + s + "\n"@).flatten() + text::lines(new).map_values(
        |s: Seq<char>| "+"@ + s + "\n"@,
    ).flatten());
    assert(tells_of_edit(v, path, old, new, all, target, line, old_lines, new_lines, count));
    assert(edit_reply(path, content, old, new, all, target) == json::printed(v));
}

/// The value tells of a write.
pub open spec fn tells_of_write(
    v: JsonV,
    path: Seq<char>,
    content: Seq<char>,
    existed: bool,
    old_lines: nat,
) -> bool {
    let l = text::lines(content);
    let bytes = text::byte_len(content);
    &&& v.get_bool("ok"@) == Some(true)
    &&& v.get_text("tool"@) == Some("write_file"@)
    &&& v.get_text("path"@) == Some(path)
    &&& existed ==> v.get_text("summary"@) == Some(
        "Overwrote "@ + path + " — "@ + decimal::dec(old_lines) + " → "@ + decimal::dec(l.len())
            + " lines ("@ + decimal::dec(bytes) + " bytes)"@,
    )
    &&& !existed ==> v.get_text("summary"@) == Some(
        "Created "@ + path + " — "@ + decimal::dec(l.len()) + " lines ("@ + decimal::dec(bytes)
            + " bytes)"@,
    )
    &&& v.get("write"@) is Some
    &&& ({
        let w = v.get("write"@)->Some_0;
        &&& w.get_bool("created"@) == Some(!existed)
        &&& w.get("old_line_count"@) == Some(num(old_lines))
        &&& w.get("new_line_count"@) == Some(num(l.len()))
        &&& w.get("bytes"@) == Some(num(bytes))
        &&& l.len() <= 8 ==> w.get_text("preview"@) == Some(text::join(l, "\n"@))
        &&& l.len() > 8 ==> w.get_text("preview"@) == Some(
            text::join(l.subrange(0, 8), "\n"@) + "\n  ... ("@ + decimal::dec(
                (l.len() - 8) as nat,
            ) + " more lines)"@,
        )
    })
}

/// The answer to a write says what was done: the path, whether the file is new, how many lines it
/// had and has, its bytes, and its first eight lines.
pub proof fn law_writes_are_reported(
    path: Seq<char>,
    content: Seq<char>,
    existed: bool,
    old_lines: nat,
)
    ensures
        exists|v: JsonV|
            write_reply(path, content, existed, old_lines) == #[trigger] json::printed(v)
                && tells_of_write(v, path, content, existed, old_lines),
{
    reveal_strlit("ok");
    reveal_strlit("tool");
    reveal_strlit("path");
    reveal_strlit("summary");
    reveal_strlit("write");
    reveal_strlit("created");
    reveal_strlit("old_line_count");
    reveal_strlit("new_line_count");
    reveal_strlit("bytes");
    reveal_strlit("preview");
    assert("ok"@.len() == 2
        && "tool"@.len() == 4
        && "path"@.len() == 4
        && "summary"@.len() == 7
        && "write"@.len() == 5
        && "created"@.len() == 7
        && "old_line_count"@.len() == 14
        && "new_line_count"@.len() == 14
        && "bytes"@.len() == 5
        && "preview"@.len() == 7);
    assert("tool"@[0] == 't' && "path"@[0] == 'p');
    assert("old_line_count"@[0] == 'o' && "new_line_count"@[0] == 'n');
    assert("created"@[0] == 'c' && "preview"@[0] == 'p');
    let l = text::lines(content);
    if l.len() > 8 {
        assert(l.take(8) =~= l.subrange(0, 8));
    }
    let details = JsonV::Object(
        json::no_members().insert("created"@, JsonV::Bool(!existed)).insert(
            "old_line_count"@,
            num(old_lines),
        ).insert("new_line_count"@, num(l.len())).insert(
            "bytes"@,
            num(text::byte_len(content)),
        ).insert("preview"@, JsonV::Text(write_preview(content))),
    );
    let v = JsonV::Object(
        json::no_members().insert("ok"@, JsonV::Bool(true)).insert(
            "tool"@,
            JsonV::Text("write_file"@),
        ).insert("path"@, JsonV::Text(path)).insert(
            "summary"@,
            JsonV::Text(write_summary(path, content, existed, old_lines)),
        ).insert("write"@, details),
    );
    assert(v.get("write"@) == Some(details));
    assert(details.get("created"@) == Some(JsonV::Bool(!existed)));
    assert(details.get("preview"@) == Some(JsonV::Text(write_preview(content))));
    assert(tells_of_write(v, path, content, existed, old_lines));
    assert(write_reply(path, content, existed, old_lines) == json::printed(v));
}

/// A window can be shown wherever its end can be counted and it takes up to sixty thousand bytes.
pub proof fn law_what_can_be_shown(content: Seq<char>, offset: Option<usize>, limit: Option<usize>)
    requires
        text::byte_len(shown_lines(content, offset, limit)) <= 60000,
    ensures
        limit is None ==> can_show(content, offset, limit),
        limit matches Some(n) ==> (can_show(content, offset, limit) <==> window_start(
            text::lines(content).len(),
            offset,
        ) + n <= usize::MAX),
{
}

} // verus!
