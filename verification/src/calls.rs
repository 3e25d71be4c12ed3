//! The tool calls of a reply: their arguments, mended where they can be, and how their
//! results enter the conversation.
use vstd::prelude::*;

use crate::conversation;
use crate::decimal;
use crate::json;
use crate::json::Json;
use crate::json::JsonV;
use crate::search;
use crate::stream::CallPart;
use crate::stream::PartV;
use crate::text;

verus! {

// ---- mending JSON ----------------------------------------------------------------------------

pub open spec fn count_char(s: Seq<char>, c: char) -> nat
    decreases s.len(),
{
    if s.len() == 0 {
        0
    } else {
        count_char(s.drop_last(), c) + if s.last() == c {
            1nat
        } else {
            0nat
        }
    }
}

/// Whether the text ends inside a string, and whether it ends right behind a backslash there.
pub open spec fn in_string(s: Seq<char>) -> (bool, bool)
    decreases s.len(),
{
    if s.len() == 0 {
        (false, false)
    } else {
        let (inside, escaped) = in_string(s.drop_last());
        if !inside {
            (s.last() == '"', false)
        } else if escaped {
            (true, false)
        } else if s.last() == '\\' {
            (true, true)
        } else {
            (s.last() != '"', false)
        }
    }
}

/// The letter that stands for a control character behind a backslash.
pub open spec fn letter_of(c: char) -> Option<char> {
    if c == '\n' {
        Some('n')
    } else if c == '\r' {
        Some('r')
    } else if c == '\t' {
        Some('t')
    } else {
        None
    }
}

/// How a character is written: a line break or a tab inside of a string is escaped.
pub open spec fn written(at: (bool, bool), c: char) -> Seq<char> {
    match letter_of(c) {
        Some(l) => if !at.0 {
            seq![c]
        } else if at.1 {
            seq![l]
        } else {
            seq!['\\', l]
        },
        None => seq![c],
    }
}

/// The text with the line breaks and tabs inside of strings escaped.
pub open spec fn breaks_escaped(s: Seq<char>) -> Seq<char>
    decreases s.len(),
{
    if s.len() == 0 {
        seq![]
    } else {
        breaks_escaped(s.drop_last()) + written(in_string(s.drop_last()), s.last())
    }
}

/// Line breaks and tabs are escaped, and trailing commas are dropped.
pub open spec fn tidied(s: Seq<char>) -> Seq<char> {
    let a = search::replace_all(s, "\\\n"@, "\\n"@);
    let b = search::replace_all(a, "\\\r"@, "\\r"@);
    let c = search::replace_all(b, "\\\t"@, "\\t"@);
    let d = search::replace_all(breaks_escaped(c), ",]"@, "]"@);
    search::replace_all(d, ",}"@, "}"@)
}

/// What closes an opened brace or bracket.
pub open spec fn closer_of(c: char) -> Option<char> {
    if c == '{' {
        Some('}')
    } else if c == '[' {
        Some(']')
    } else {
        None
    }
}

/// The list without the last `c` in it.
pub open spec fn without_last(list: Seq<char>, c: char) -> Seq<char>
    decreases list.len(),
{
    if list.len() == 0 {
        list
    } else if list.last() == c {
        list.drop_last()
    } else {
        without_last(list.drop_last(), c).push(list.last())
    }
}

/// What is due after a character that stands outside of strings.
pub open spec fn due_after(due: Seq<char>, c: char) -> Seq<char> {
    match closer_of(c) {
        Some(d) => due.push(d),
        None => if c == '}' || c == ']' {
            without_last(due, c)
        } else {
            due
        },
    }
}

/// What the open braces and brackets outside of strings are closed by, outermost first.
pub open spec fn due(s: Seq<char>) -> Seq<char>
    decreases s.len(),
{
    if s.len() == 0 {
        seq![]
    } else if in_string(s.drop_last()).0 {
        due(s.drop_last())
    } else {
        due_after(due(s.drop_last()), s.last())
    }
}

/// What is missing at the end of a text: the innermost open brace or bracket is closed first.
pub open spec fn closers(s: Seq<char>) -> Seq<char> {
    due(s).reverse()
}

/// A text with an open string closed.
pub open spec fn quote_closed(s: Seq<char>) -> Seq<char> {
    if count_char(s, '"') % 2 != 0 {
        s.push('"')
    } else {
        s
    }
}

/// A text of JSON, tidied, with an open string closed, and then what is still open.
pub open spec fn repaired(s: Seq<char>) -> Seq<char> {
    quote_closed(tidied(s)) + closers(quote_closed(tidied(s)))
}

fn count_of(s: &str, c: char) -> (n: usize)
    ensures
        n == count_char(s@, c),
{
    let v = text::to_chars(s);
    let mut n: usize = 0;
    let mut i: usize = 0;
    proof {
        assert(s@.take(0) =~= Seq::<char>::empty());
    }
    while i < v.len()
        invariant
            v@ == s@,
            i <= v@.len(),
            n <= i,
            n == count_char(s@.take(i as int), c),
        decreases v.len() - i,
    {
        proof {
            assert(s@.take(i as int + 1).drop_last() =~= s@.take(i as int));
        }
        if v[i] == c {
            n = n + 1;
        }
        i = i + 1;
    }
    proof {
        assert(s@.take(i as int) =~= s@);
    }
    n
}

/// Takes the last `c` out of the list.
fn remove_last(list: &mut Vec<char>, c: char)
    ensures
        final(list)@ == without_last(old(list)@, c),
{
    let total = list.len();
    let mut i: usize = total;
    let ghost all = list@;
    proof {
        assert(all.take(total as int) =~= all);
        assert(all.skip(total as int) =~= Seq::<char>::empty());
        assert(without_last(all, c) =~= without_last(all.take(total as int), c) + all.skip(
            total as int,
        ));
    }
    while i > 0
        invariant
            i <= total,
            total == all.len(),
            all == old(list)@,
            list@ == all,
            without_last(all, c) == without_last(all.take(i as int), c) + all.skip(i as int),
        decreases i,
    {
        let ghost front = all.take(i as int);
        proof {
            assert(front.drop_last() =~= all.take(i as int - 1));
            assert(front.last() == all[i as int - 1]);
        }
        if list[i - 1] == c {
            let _ = list.remove(i - 1);
            proof {
                assert(list@ =~= all.take(i as int - 1) + all.skip(i as int));
            }
            return;
        }
        proof {
            assert(all.skip(i as int - 1) =~= seq![all[i as int - 1]] + all.skip(i as int));
            assert(without_last(front, c) + all.skip(i as int) =~= without_last(
                all.take(i as int - 1),
                c,
            ) + all.skip(i as int - 1));
        }
        i = i - 1;
    }
    proof {
        assert(all.take(0) =~= Seq::<char>::empty());
        assert(without_last(all, c) =~= all);
    }
}

/// Closes the braces and brackets that are open at the end of a text.
fn close_all(s: String) -> (r: String)
    ensures
        r@ == s@ + closers(s@),
{
    let v = text::to_chars(s.as_str());
    let mut open: Vec<char> = Vec::new();
    let mut inside = false;
    let mut escaped = false;
    let mut i: usize = 0;
    proof {
        assert(s@.take(0) =~= Seq::<char>::empty());
        assert(open@ =~= due(s@.take(0)));
    }
    while i < v.len()
        invariant
            v@ == s@,
            i <= v@.len(),
            (inside, escaped) == in_string(s@.take(i as int)),
            open@ == due(s@.take(i as int)),
        decreases v.len() - i,
    {
        let c = v[i];
        proof {
            assert(s@.take(i as int + 1).drop_last() =~= s@.take(i as int));
            assert(s@.take(i as int + 1).last() == c);
        }
        if !inside {
            if c == '{' {
                open.push('}');
            } else if c == '[' {
                open.push(']');
            } else if c == '}' || c == ']' {
                remove_last(&mut open, c);
            }
            inside = c == '"';
            escaped = false;
        } else if escaped {
            escaped = false;
        } else if c == '\\' {
            escaped = true;
        } else {
            inside = c != '"';
        }
        i = i + 1;
    }
    proof {
        assert(s@.take(i as int) =~= s@);
    }
    let ghost all = open@;
    let mut out = s;
    let mut k: usize = open.len();
    proof {
        assert(out@ =~= s@ + all.reverse().take(0));
    }
    while k > 0
        invariant
            all == open@,
            k <= all.len(),
            out@ == s@ + all.reverse().take(all.len() - k),
        decreases k,
    {
        out.push(open[k - 1]);
        proof {
            assert(all.reverse()[all.len() - k] == all[k as int - 1]);
            assert(s@ + all.reverse().take(all.len() - (k - 1)) =~= (s@ + all.reverse().take(
                all.len() - k,
            )).push(all[k as int - 1]));
        }
        k = k - 1;
    }
    proof {
        assert(all.reverse().take(all.len() as int) =~= all.reverse());
    }
    out
}

fn escape_breaks(s: &str) -> (r: String)
    ensures
        r@ == breaks_escaped(s@),
{
    let v = text::to_chars(s);
    let mut out: Vec<char> = Vec::new();
    let mut inside = false;
    let mut escaped = false;
    let mut i: usize = 0;
    proof {
        assert(s@.take(0) =~= Seq::<char>::empty());
        assert(out@ =~= breaks_escaped(s@.take(0)));
    }
    while i < v.len()
        invariant
            v@ == s@,
            i <= v@.len(),
            (inside, escaped) == in_string(s@.take(i as int)),
            out@ == breaks_escaped(s@.take(i as int)),
        decreases v.len() - i,
    {
        let c = v[i];
        proof {
            assert(s@.take(i as int + 1).drop_last() =~= s@.take(i as int));
            assert(s@.take(i as int + 1).last() == c);
        }
        let ghost before = out@;
        let letter = if c == '\n' {
            'n'
        } else if c == '\r' {
            'r'
        } else if c == '\t' {
            't'
        } else {
            c
        };
        if inside && letter != c {
            if !escaped {
                out.push('\\');
            }
            out.push(letter);
        } else {
            out.push(c);
        }
        proof {
            assert(out@ =~= before + written((inside, escaped), c));
        }
        if !inside {
            inside = c == '"';
            escaped = false;
        } else if escaped {
            escaped = false;
        } else if c == '\\' {
            escaped = true;
        } else {
            inside = c != '"';
        }
        i = i + 1;
    }
    proof {
        assert(s@.take(i as int) =~= s@);
    }
    text::from_chars(&out)
}

/// Mends what models commonly get wrong when they write JSON.
pub fn repair_json(input: &str) -> (r: String)
    ensures
        r@ == repaired(input@),
{
    let a = search::replaced_all(input, "\\\n", "\\n");
    let b = search::replaced_all(a.as_str(), "\\\r", "\\r");
    let c = search::replaced_all(b.as_str(), "\\\t", "\\t");
    let d = search::replaced_all(escape_breaks(c.as_str()).as_str(), ",]", "]");
    let mut s = search::replaced_all(d.as_str(), ",}", "}");
    if count_of(s.as_str(), '"') % 2 != 0 {
        s.push('"');
    }
    close_all(s)
}

proof fn lemma_count_add(a: Seq<char>, b: Seq<char>, c: char)
    ensures
        count_char(a + b, c) == count_char(a, c) + count_char(b, c),
    decreases b.len(),
{
    if b.len() == 0 {
        assert(a + b =~= a);
    } else {
        assert((a + b).drop_last() =~= a + b.drop_last());
        lemma_count_add(a, b.drop_last(), c);
    }
}

proof fn lemma_count_none(s: Seq<char>, c: char)
    requires
        forall|i: int| 0 <= i < s.len() ==> #[trigger] s[i] != c,
    ensures
        count_char(s, c) == 0,
    decreases s.len(),
{
    if s.len() > 0 {
        assert(s[s.len() - 1] != c);
        assert forall|i: int| 0 <= i < s.drop_last().len() implies #[trigger] s.drop_last()[i]
            != c by {
            assert(s[i] != c);
        }
        lemma_count_none(s.drop_last(), c);
    }
}

/// Only braces and brackets are due.
spec fn only_closers(list: Seq<char>) -> bool {
    forall|i: int| 0 <= i < list.len() ==> #[trigger] list[i] == '}' || list[i] == ']'
}

proof fn lemma_without_last(list: Seq<char>, c: char)
    requires
        only_closers(list),
    ensures
        only_closers(without_last(list, c)),
    decreases list.len(),
{
    if list.len() > 0 {
        let front = list.drop_last();
        assert(only_closers(front)) by {
            assert forall|i: int| 0 <= i < front.len() implies #[trigger] front[i] == '}'
                || front[i] == ']' by {
                assert(list[i] == '}' || list[i] == ']');
            }
        }
        assert(list[list.len() - 1] == '}' || list[list.len() - 1] == ']');
        lemma_without_last(front, c);
    }
}

proof fn lemma_due(s: Seq<char>)
    ensures
        only_closers(due(s)),
    decreases s.len(),
{
    if s.len() > 0 {
        lemma_due(s.drop_last());
        lemma_without_last(due(s.drop_last()), s.last());
    }
}

/// Behind a text that ends outside of strings, each closer takes one from what is due.
proof fn lemma_closing(s: Seq<char>, k: int)
    requires
        !in_string(s).0,
        0 <= k <= closers(s).len(),
    ensures
        !in_string(s + closers(s).take(k)).0,
        due(s + closers(s).take(k)) == due(s).take(due(s).len() - k),
    decreases k,
{
    let d = due(s);
    let t = s + closers(s).take(k);
    if k == 0 {
        assert(t =~= s);
        assert(d.take(d.len() as int) =~= d);
    } else {
        lemma_closing(s, k - 1);
        lemma_due(s);
        let c = closers(s)[k - 1];
        assert(c == d[d.len() - k]);
        assert(t.drop_last() =~= s + closers(s).take(k - 1));
        assert(t.last() == c);
        let rest = d.take(d.len() - (k - 1));
        assert(rest.last() == c);
        assert(rest.drop_last() =~= d.take(d.len() - k));
    }
}

proof fn lemma_in_string_push(s: Seq<char>, c: char)
    ensures
        in_string(s.push(c)) == ({
            let (inside, escaped) = in_string(s);
            if !inside {
                (c == '"', false)
            } else if escaped {
                (true, false)
            } else if c == '\\' {
                (true, true)
            } else {
                (c != '"', false)
            }
        }),
{
    assert(s.push(c).drop_last() =~= s);
}

/// Once its line breaks are escaped, no string of a text holds one, and strings begin and end as
/// before.
pub proof fn law_strings_hold_no_breaks(s: Seq<char>, i: int)
    requires
        0 <= i < breaks_escaped(s).len(),
    ensures
        in_string(breaks_escaped(s)) == in_string(s),
        in_string(breaks_escaped(s).take(i)).0 ==> letter_of(breaks_escaped(s)[i]) is None,
    decreases s.len(),
{
    let front = s.drop_last();
    let t = breaks_escaped(front);
    let at = in_string(front);
    let w = written(at, s.last());
    let r = breaks_escaped(s);
    assert(r =~= t + w);
    if t.len() > 0 {
        law_strings_hold_no_breaks(front, 0);
    } else {
        if front.len() > 0 {
            lemma_escaped_longer(front);
        }
        assert(t =~= front);
    }
    assert(in_string(t) == at);
    if w.len() == 1 {
        assert(r =~= t.push(w[0]));
        lemma_in_string_push(t, w[0]);
    } else {
        assert(r =~= t.push(w[0]).push(w[1]));
        lemma_in_string_push(t, w[0]);
        lemma_in_string_push(t.push(w[0]), w[1]);
    }
    if i < t.len() {
        law_strings_hold_no_breaks(front, i);
        assert(r.take(i) =~= t.take(i));
    } else if i == t.len() {
        assert(r.take(i) =~= t);
    } else {
        assert(r.take(i) =~= t.push(w[0]));
    }
}

proof fn lemma_escaped_longer(s: Seq<char>)
    ensures
        breaks_escaped(s).len() >= s.len(),
    decreases s.len(),
{
    if s.len() > 0 {
        lemma_escaped_longer(s.drop_last());
    }
}

/// A mended text has an even number of quotes, and unless it ends inside of a string, nothing is
/// left open in it.
pub proof fn law_repair_closes(s: Seq<char>)
    ensures
        count_char(repaired(s), '"') % 2 == 0,
        !in_string(quote_closed(tidied(s))).0 ==> !in_string(repaired(s)).0 && due(repaired(s))
            == Seq::<char>::empty(),
{
    let t = tidied(s);
    let u = quote_closed(t);
    assert(t.push('"').drop_last() =~= t);
    lemma_due(u);
    assert forall|i: int| 0 <= i < closers(u).len() implies #[trigger] closers(u)[i] != '"' by {
        assert(closers(u)[i] == due(u)[due(u).len() - 1 - i]);
    }
    lemma_count_none(closers(u), '"');
    lemma_count_add(u, closers(u), '"');
    if !in_string(u).0 {
        lemma_closing(u, closers(u).len() as int);
        assert(closers(u).take(closers(u).len() as int) =~= closers(u));
    }
}

/// Every brace and bracket that the text closes, outside of strings, is the innermost one that it
/// has opened.
pub open spec fn well_nested(s: Seq<char>) -> bool {
    forall|i: int|
        0 <= i < s.len() && !in_string(s.take(i)).0 && (#[trigger] s[i] == '}' || s[i] == ']')
            ==> due(s.take(i)).len() > 0 && due(s.take(i)).last() == s[i]
}

proof fn lemma_nested_inside(outer: Seq<char>, inner: Seq<char>)
    requires
        !in_string(outer).0,
        !in_string(outer).1,
        well_nested(inner),
    ensures
        in_string(outer + inner) == in_string(inner),
        due(outer + inner) == due(outer) + due(inner),
    decreases inner.len(),
{
    let t = outer + inner;
    if inner.len() == 0 {
        assert(t =~= outer);
        assert(due(outer) + due(inner) =~= due(outer));
    } else {
        let front = inner.drop_last();
        let n = inner.len() - 1;
        assert(inner.take(n) =~= front);
        assert(t.drop_last() =~= outer + front);
        assert(t.last() == inner.last());
        assert(well_nested(front)) by {
            assert forall|i: int|
                0 <= i < front.len() && !in_string(front.take(i)).0 && (#[trigger] front[i] == '}'
                    || front[i] == ']') implies due(front.take(i)).len() > 0 && due(
                front.take(i),
            ).last() == front[i] by {
                assert(front.take(i) =~= inner.take(i));
                assert(inner[i] == front[i]);
            }
        }
        lemma_nested_inside(outer, front);
        if !in_string(front).0 {
            let c = inner.last();
            let a = due(outer);
            let b = due(front);
            if closer_of(c) is Some {
                assert((a + b).push(closer_of(c)->Some_0) =~= a + b.push(closer_of(c)->Some_0));
            } else if c == '}' || c == ']' {
                assert(inner[n] == c);
                assert(b.len() > 0 && b.last() == c);
                assert((a + b).last() == c);
                assert((a + b).drop_last() =~= a + b.drop_last());
            }
        }
    }
}

proof fn lemma_outside(s: Seq<char>)
    ensures
        !in_string(s).0 ==> !in_string(s).1,
    decreases s.len(),
{
    if s.len() > 0 {
        lemma_outside(s.drop_last());
    }
}

/// A text that is cut off inside of nested objects and arrays is closed innermost first: what
/// was opened after a brace or a bracket is closed before it, and what was opened earlier after
/// it.
pub proof fn law_closed_innermost_first(outer: Seq<char>, c: char, inner: Seq<char>)
    requires
        !in_string(outer).0,
        c == '{' || c == '[',
        well_nested(inner),
    ensures
        closers(outer.push(c) + inner) == closers(inner) + seq![closer_of(c)->Some_0] + closers(
            outer,
        ),
{
    let p = outer.push(c);
    let d = closer_of(c)->Some_0;
    assert(p.drop_last() =~= outer);
    lemma_outside(p);
    lemma_nested_inside(p, inner);
    assert(due(p) == due(outer).push(d));
    let a = due(outer);
    let b = due(inner);
    assert((a.push(d) + b).reverse() =~= b.reverse() + seq![d] + a.reverse());
}

// ---- prepared calls ----------------------------------------------------------------------------

/// A call with its arguments read.
pub struct PreparedCall {
    pub id: String,
    pub name: String,
    pub args_str: String,
    pub args: Result<Json, String>,
}

pub struct PreparedV {
    pub id: Seq<char>,
    pub name: Seq<char>,
    pub args_str: Seq<char>,
    pub args: Result<JsonV, Seq<char>>,
}

pub open spec fn result_view(r: Result<Json, String>) -> Result<JsonV, Seq<char>> {
    match r {
        Ok(j) => Ok(j@),
        Err(e) => Err(e@),
    }
}

impl View for PreparedCall {
    type V = PreparedV;

    open spec fn view(&self) -> PreparedV {
        PreparedV {
            id: self.id@,
            name: self.name@,
            args_str: self.args_str@,
            args: result_view(self.args),
        }
    }
}

pub open spec fn prepared_views(v: Seq<PreparedCall>) -> Seq<PreparedV> {
    v.map_values(|p: PreparedCall| p@)
}

/// The arguments of a call: as they read, else as they read when mended, else what is wrong.
pub open spec fn read_arguments(
    name: Seq<char>,
    plain: Result<JsonV, Seq<char>>,
    mended: Result<JsonV, Seq<char>>,
) -> Result<JsonV, Seq<char>> {
    match plain {
        Ok(v) => Ok(v),
        Err(_) => match mended {
            Ok(v) => Ok(v),
            Err(e) => Err("Failed to parse tool arguments for '"@ + name + "': "@ + e),
        },
    }
}

/// Chooses between the two readings of a call's arguments.
pub fn choose_arguments(
    name: &str,
    plain: Result<Json, String>,
    mended: Result<Json, String>,
) -> (r: Result<Json, String>)
    ensures
        result_view(r) == read_arguments(name@, result_view(plain), result_view(mended)),
{
    match plain {
        Ok(v) => Ok(v),
        Err(_) => match mended {
            Ok(v) => Ok(v),
            Err(e) => {
                let mut s = text::copy("Failed to parse tool arguments for '");
                s.append(name);
                s.append("': ");
                s.append(e.as_str());
                Err(s)
            },
        },
    }
}

pub open spec fn prepared(p: PartV) -> PreparedV {
    PreparedV {
        id: p.id,
        name: p.name,
        args_str: p.args,
        args: read_arguments(p.name, json::parsed(p.args), json::parsed(repaired(p.args))),
    }
}

/// Reads the arguments of a call.
pub fn prepare_call(p: &CallPart) -> (r: PreparedCall)
    ensures
        r@ == prepared(p@),
{
    let args = match json::parse(p.args.as_str()) {
        Ok(v) => Ok(v),
        Err(e) => {
            let mended = json::parse(repair_json(p.args.as_str()).as_str());
            choose_arguments(p.name.as_str(), Err(e), mended)
        },
    };
    PreparedCall {
        id: text::copy(p.id.as_str()),
        name: text::copy(p.name.as_str()),
        args_str: text::copy(p.args.as_str()),
        args,
    }
}

/// The tool reads files and changes nothing.
pub open spec fn reads_only(name: Seq<char>) -> bool {
    name == "read_file"@ || name == "search"@ || name == "list_files"@ || name == "find_file"@
}

/// The call may run side by side with others.
pub open spec fn batchable(p: PreparedV) -> bool {
    p.args is Ok && reads_only(p.name)
}

/// How many calls from `k` on may run side by side.
pub open spec fn batch_len(calls: Seq<PreparedV>, k: int) -> nat
    decreases calls.len() - k,
{
    if k < 0 || k >= calls.len() || !batchable(calls[k]) {
        0
    } else {
        1 + batch_len(calls, k + 1)
    }
}

fn is_batchable(p: &PreparedCall) -> (r: bool)
    ensures
        r == batchable(p@),
{
    let name = p.name.as_str();
    p.args.is_ok() && (text::str_eq(name, "read_file") || text::str_eq(name, "search")
        || text::str_eq(name, "list_files") || text::str_eq(name, "find_file"))
}

/// How many calls at the front only read, and may run side by side.
pub fn readonly_prefix(calls: &Vec<PreparedCall>) -> (n: usize)
    ensures
        n == batch_len(prepared_views(calls@), 0),
        n <= calls@.len(),
{
    let ghost all = prepared_views(calls@);
    let mut n: usize = 0;
    while n < calls.len() && is_batchable(&calls[n])
        invariant
            all == prepared_views(calls@),
            n <= calls@.len(),
            batch_len(all, 0) == n + batch_len(all, n as int),
        decreases calls.len() - n,
    {
        n = n + 1;
    }
    n
}

/// Calls that run side by side only read files, and all have arguments.
pub proof fn law_batch_reads_only(calls: Seq<PreparedV>, i: int)
    requires
        0 <= i < batch_len(calls, 0),
    ensures
        batch_len(calls, 0) <= calls.len(),
        batchable(calls[i]),
{
    lemma_batch(calls, 0);
}

proof fn lemma_batch(calls: Seq<PreparedV>, k: int)
    requires
        0 <= k <= calls.len(),
    ensures
        k + batch_len(calls, k) <= calls.len(),
        forall|i: int| k <= i < k + batch_len(calls, k) ==> batchable(#[trigger] calls[i]),
    decreases calls.len() - k,
{
    if k < calls.len() && batchable(calls[k]) {
        lemma_batch(calls, k + 1);
    }
}

// ---- the assistant's message -----------------------------------------------------------------------

pub open spec fn call_json(p: PartV) -> JsonV {
    JsonV::Object(
        json::no_members().insert("id"@, JsonV::Text(p.id)).insert(
            "type"@,
            JsonV::Text("function"@),
        ).insert(
            "function"@,
            JsonV::Object(
                json::no_members().insert("name"@, JsonV::Text(p.name)).insert(
                    "arguments"@,
                    JsonV::Text(p.args),
                ),
            ),
        ),
    )
}

pub open spec fn calls_json(calls: Seq<(usize, PartV)>) -> Seq<JsonV> {
    calls.map_values(|c: (usize, PartV)| call_json(c.1))
}

/// The assistant's message with its tool calls; its text is left out when it is empty.
pub open spec fn assistant_v(content: Seq<char>, calls: Seq<(usize, PartV)>) -> JsonV {
    let m = json::no_members().insert("role"@, JsonV::Text("assistant"@)).insert(
        "tool_calls"@,
        JsonV::Array(calls_json(calls)),
    );
    if content.len() > 0 {
        JsonV::Object(m.insert("content"@, JsonV::Text(content)))
    } else {
        JsonV::Object(m)
    }
}

pub fn assistant_message(content: &str, calls: &Vec<(usize, CallPart)>) -> (r: Json)
    ensures
        r@ == assistant_v(content@, crate::stream::calls_view(calls@)),
{
    let ghost all = crate::stream::calls_view(calls@);
    let mut list: Vec<Json> = Vec::new();
    let mut i: usize = 0;
    while i < calls.len()
        invariant
            all == crate::stream::calls_view(calls@),
            i == list@.len(),
            i <= calls@.len(),
            forall|j: int| 0 <= j < i ==> (#[trigger] list@[j])@ == call_json(all[j].1),
        decreases calls.len() - i,
    {
        let c = &calls[i].1;
        list.push(
            Json::object().with_str("id", c.id.as_str()).with_str("type", "function").with(
                "function",
                Json::object().with_str("name", c.name.as_str()).with_str(
                    "arguments",
                    c.args.as_str(),
                ),
            ),
        );
        i = i + 1;
    }
    let array = Json::Array(list);
    proof {
        assert(array@->Array_0 =~= calls_json(all));
    }
    let m = Json::object().with_str("role", "assistant").with("tool_calls", array);
    if content.is_empty() {
        m
    } else {
        m.with_str("content", content)
    }
}

// ---- results ---------------------------------------------------------------------------------------

/// The most bytes of a result that enter the conversation.
pub const MAX_RESULT: usize = 12000;

/// A long result: its head, a note, and its tail.
pub open spec fn capped_result(s: Seq<char>) -> Seq<char> {
    let n = text::byte_len(s);
    if n > MAX_RESULT {
        s.take(text::chars_within(s, 6000) as int) + "\n\n[... "@ + decimal::dec(
            (n - MAX_RESULT) as nat,
        ) + " chars omitted — use read_file with offset for full content ...]\n\n"@ + s.skip(
            text::chars_within(s, (n - 6000) as nat) as int,
        )
    } else {
        s
    }
}

/// The cuts of a long result do not split a character.
pub open spec fn result_fits(s: Seq<char>) -> bool {
    text::byte_len(s) > MAX_RESULT ==> text::is_boundary(s, 6000) && text::is_boundary(
        s,
        (text::byte_len(s) - 6000) as nat,
    )
}

pub fn can_cap(s: &str) -> (r: bool)
    ensures
        r == result_fits(s@),
{
    let n = text::str_bytes(s);
    n <= MAX_RESULT || (text::split_bytes(s, 6000).is_some() && text::split_bytes(
        s,
        n - 6000,
    ).is_some())
}

/// Caps a result before it enters the conversation.
pub fn cap_result(s: &str) -> (r: String)
    requires
        result_fits(s@),
    ensures
        r@ == capped_result(s@),
{
    let n = text::str_bytes(s);
    if n > MAX_RESULT {
        if let Some(head) = text::split_bytes(s, 6000) {
            if let Some(tail) = text::split_bytes(s, n - 6000) {
                let mut out = head.0;
                out.append("\n\n[... ");
                out.append(decimal::dec_usize(n - MAX_RESULT).as_str());
                out.append(
                    " chars omitted — use read_file with offset for full content ...]\n\n",
                );
                out.append(tail.1.as_str());
                return out;
            }
        }
    }
    text::copy(s)
}

/// The most bytes of a result that a local model is given.
pub const MAX_LOCAL_RESULT: usize = 4000;

/// A long result for a local model: as many whole characters as fit, and a note.
pub open spec fn capped_local(s: Seq<char>) -> Seq<char> {
    if text::byte_len(s) > MAX_LOCAL_RESULT {
        let head = s.take(text::chars_within(s, MAX_LOCAL_RESULT as nat) as int);
        head + "\n\n[... "@ + decimal::dec((text::byte_len(s) - text::byte_len(head)) as nat)
            + " chars omitted — use read_file with offset/limit for more ...]"@
    } else {
        s
    }
}

/// Caps a result for a local model.
pub fn cap_local_result(s: &str) -> (r: String)
    ensures
        r@ == capped_local(s@),
{
    let n = text::str_bytes(s);
    if n <= MAX_LOCAL_RESULT {
        return text::copy(s);
    }
    let v = text::to_chars(s);
    let k = text::count_within(&v, MAX_LOCAL_RESULT);
    let mut out = text::substring(&v, 0, k);
    proof {
        assert(out@ =~= s@.take(k as int));
        text::lemma_chars_within(s@, MAX_LOCAL_RESULT as nat);
    }
    let kept = text::str_bytes(out.as_str());
    out.append("\n\n[... ");
    out.append(decimal::dec_usize(n - kept).as_str());
    out.append(" chars omitted — use read_file with offset/limit for more ...]");
    out
}

// ---- pairing --------------------------------------------------------------------------------------

/// The assistant's message declares each of its calls, and is no tool message.
pub proof fn lemma_assistant_declares(content: Seq<char>, calls: Seq<(usize, PartV)>, i: int)
    requires
        0 <= i < calls.len(),
    ensures
        !conversation::is_tool(assistant_v(content, calls)),
        conversation::declares(assistant_v(content, calls), Some(calls[i].1.id)),
{
    reveal_strlit("role");
    reveal_strlit("content");
    reveal_strlit("tool_calls");
    reveal_strlit("tool");
    reveal_strlit("assistant");
    reveal_strlit("id");
    reveal_strlit("type");
    reveal_strlit("function");
    assert("tool"@.len() != "assistant"@.len());
    let m = assistant_v(content, calls);
    assert("content"@.len() != "tool_calls"@.len());
    assert("content"@.len() != "role"@.len());
    assert("tool_calls"@.len() != "role"@.len());
    assert(m.get_items("tool_calls"@) == Some(calls_json(calls)));
    assert("id"@.len() != "type"@.len());
    assert("id"@.len() != "function"@.len());
    assert(calls_json(calls)[i].get_text("id"@) == Some(calls[i].1.id));
}

// ---- laws ------------------------------------------------------------------------------------------

/// A result that is too long enters the conversation with its first and its last 6000 bytes, and
/// the note between them tells how many bytes are left out; any other one enters whole.
pub proof fn law_long_results_keep_both_ends(s: Seq<char>)
    requires
        result_fits(s),
    ensures
        text::byte_len(s) <= 12000 ==> capped_result(s) == s,
        text::byte_len(s) > 12000 ==> exists|head: Seq<char>, left_out: Seq<char>, tail: Seq<char>|
            s == #[trigger] (head + left_out + tail) && text::byte_len(head) == 6000
                && text::byte_len(tail) == 6000 && capped_result(s) == head + "\n\n[... "@
                + decimal::dec(text::byte_len(left_out))
                + " chars omitted — use read_file with offset for full content ...]\n\n"@ + tail,
{
    let n = text::byte_len(s);
    if n > 12000 {
        let a = text::chars_within(s, 6000) as int;
        let b = text::chars_within(s, (n - 6000) as nat) as int;
        text::lemma_chars_within(s, 6000);
        text::lemma_chars_within(s, (n - 6000) as nat);
        if b < a {
            text::lemma_byte_len_take_strict(s, b, a);
        }
        let head = s.take(a);
        let mid = s.subrange(a, b);
        let tail = s.skip(b);
        assert(s =~= head + mid + tail);
        text::lemma_byte_len_add(head + mid, tail);
        text::lemma_byte_len_add(head, mid);
        assert(head + mid =~= s.take(b));
    }
}

/// A result that is too long for a local model is cut behind the last character that ends within
/// 4000 bytes, and the note tells how many bytes are left out; any other one is given whole.
pub proof fn law_long_local_results_keep_their_head(s: Seq<char>)
    ensures
        text::byte_len(s) <= 4000 ==> capped_local(s) == s,
        text::byte_len(s) > 4000 ==> exists|head: Seq<char>, left_out: Seq<char>|
            s == #[trigger] (head + left_out) && left_out.len() > 0 && text::byte_len(head) <= 4000
                && text::byte_len(head.push(left_out[0])) > 4000 && capped_local(s) == head
                + "\n\n[... "@ + decimal::dec(text::byte_len(left_out))
                + " chars omitted — use read_file with offset/limit for more ...]"@,
{
    if text::byte_len(s) > 4000 {
        let k = text::chars_within(s, 4000) as int;
        text::lemma_chars_within(s, 4000);
        let head = s.take(k);
        let rest = s.skip(k);
        assert(s =~= head + rest);
        text::lemma_byte_len_add(head, rest);
        if k == s.len() {
            assert(head =~= s);
        }
        assert(head.push(rest[0]) =~= s.take(k + 1));
    }
}

/// The assistant's message holds its text, unless it is empty, and every call with its id, its
/// name and its arguments, in order.
pub proof fn law_assistant_message(content: Seq<char>, calls: Seq<(usize, PartV)>, i: int)
    ensures
        assistant_v(content, calls).get_text("role"@) == Some("assistant"@),
        content.len() > 0 ==> assistant_v(content, calls).get_text("content"@) == Some(content),
        content.len() == 0 ==> assistant_v(content, calls).get("content"@) is None,
        assistant_v(content, calls).get_items("tool_calls"@) matches Some(items) && items.len()
            == calls.len() && (0 <= i < calls.len() ==> items[i].get_text("id"@) == Some(
            calls[i].1.id,
        ) && items[i].get_text("type"@) == Some("function"@) && (items[i].get("function"@) matches Some(
            f,
        ) && f.get_text("name"@) == Some(calls[i].1.name) && f.get_text("arguments"@) == Some(
            calls[i].1.args,
        ))),
{
    reveal_strlit("role");
    reveal_strlit("content");
    reveal_strlit("tool_calls");
    reveal_strlit("id");
    reveal_strlit("type");
    reveal_strlit("function");
    reveal_strlit("name");
    reveal_strlit("arguments");
    assert("content"@.len() == 7 && "tool_calls"@.len() == 10 && "role"@.len() == 4);
    assert("id"@.len() == 2 && "type"@.len() == 4 && "function"@.len() == 8);
    assert("name"@.len() == 4 && "arguments"@.len() == 9);
    let m = assistant_v(content, calls);
    assert(m.get_items("tool_calls"@) == Some(calls_json(calls)));
    if 0 <= i < calls.len() {
        assert(calls_json(calls)[i] == call_json(calls[i].1));
    }
}

/// A call is taken as it was made: its arguments are what they read as; where they do not read,
/// what the mended text reads as; and where that does not read either, an error that names the
/// tool and tells what is wrong.
pub proof fn law_arguments_are_read(p: PartV)
    ensures
        prepared(p).id == p.id,
        prepared(p).name == p.name,
        prepared(p).args_str == p.args,
        json::parsed(p.args) is Ok ==> prepared(p).args == json::parsed(p.args),
        json::parsed(p.args) is Err && json::parsed(repaired(p.args)) is Ok ==> prepared(p).args
            == json::parsed(repaired(p.args)),
        json::parsed(p.args) is Err ==> (json::parsed(repaired(p.args)) matches Err(e) ==> prepared(
            p,
        ).args == Err::<JsonV, Seq<char>>(
            "Failed to parse tool arguments for '"@ + p.name + "': "@ + e,
        )),
{
}

/// The calls that run side by side are all those at the front that read files and have arguments:
/// the next one, if there is one, does not.
pub proof fn law_batch_is_the_whole_front(calls: Seq<PreparedV>)
    ensures
        ({
            let n = batch_len(calls, 0) as int;
            &&& n <= calls.len()
            &&& forall|i: int|
                0 <= i < n ==> (#[trigger] calls[i]).args is Ok && (calls[i].name == "read_file"@
                    || calls[i].name == "search"@ || calls[i].name == "list_files"@
                    || calls[i].name == "find_file"@)
            &&& n < calls.len() ==> calls[n].args is Err || (calls[n].name != "read_file"@
                && calls[n].name != "search"@ && calls[n].name != "list_files"@ && calls[n].name
                != "find_file"@)
        }),
{
    lemma_batch(calls, 0);
    lemma_batch_end(calls, 0);
    assert forall|i: int| 0 <= i < batch_len(calls, 0) implies (#[trigger] calls[i]).args is Ok && (
    calls[i].name == "read_file"@ || calls[i].name == "search"@ || calls[i].name == "list_files"@
        || calls[i].name == "find_file"@) by {
        assert(batchable(calls[i]));
    }
}

proof fn lemma_batch_end(calls: Seq<PreparedV>, k: int)
    requires
        0 <= k <= calls.len(),
    ensures
        k + batch_len(calls, k) < calls.len() ==> !batchable(calls[k + batch_len(calls, k)]),
    decreases calls.len() - k,
{
    if k < calls.len() && batchable(calls[k]) {
        lemma_batch_end(calls, k + 1);
    }
}

/// No character of the text is a line break or a tab.
pub open spec fn no_breaks(s: Seq<char>) -> bool {
    forall|i: int|
        0 <= i < s.len() ==> #[trigger] s[i] != '\n' && s[i] != '\r' && s[i] != '\t'
}

proof fn lemma_unescaped(s: Seq<char>)
    requires
        no_breaks(s),
    ensures
        breaks_escaped(s) == s,
    decreases s.len(),
{
    if s.len() > 0 {
        let front = s.drop_last();
        assert forall|i: int| 0 <= i < front.len() implies #[trigger] front[i] != '\n' && front[i]
            != '\r' && front[i] != '\t' by {
            assert(s[i] != '\n');
        }
        lemma_unescaped(front);
        assert(s[s.len() - 1] != '\n');
        assert(breaks_escaped(s) =~= s);
    } else {
        assert(breaks_escaped(s) =~= s);
    }
}

proof fn lemma_no_pair(s: Seq<char>, t: Seq<char>)
    requires
        no_breaks(s),
        t.len() == 2,
        t[1] == '\n' || t[1] == '\r' || t[1] == '\t',
    ensures
        !text::contains(s, t),
{
    if text::contains(s, t) {
        let i = choose|i: int| text::occurs_at(s, t, i);
        assert(s.subrange(i, i + 2)[1] == s[i + 1]);
    }
}

proof fn lemma_breaks_kept(s: Seq<char>)
    requires
        no_breaks(s),
    ensures
        tidied(s) == search::replace_all(search::replace_all(s, ",]"@, "]"@), ",}"@, "}"@),
{
    reveal_strlit("\\\n");
    reveal_strlit("\\\r");
    reveal_strlit("\\\t");
    lemma_no_pair(s, "\\\n"@);
    lemma_no_pair(s, "\\\r"@);
    lemma_no_pair(s, "\\\t"@);
    search::law_replace_all(s, "\\\n"@, s, "\\n"@);
    search::law_replace_all(s, "\\\r"@, s, "\\r"@);
    search::law_replace_all(s, "\\\t"@, s, "\\t"@);
    lemma_unescaped(s);
}

/// A text with nothing to mend stays as it is: no line break or tab, no comma before a closing
/// brace or bracket, an even number of quotes, and nothing left open.
pub proof fn law_whole_text_is_kept(s: Seq<char>)
    requires
        no_breaks(s),
        !text::contains(s, ",]"@),
        !text::contains(s, ",}"@),
        count_char(s, '"') % 2 == 0,
        due(s).len() == 0,
    ensures
        repaired(s) == s,
{
    reveal_strlit(",]");
    reveal_strlit(",}");
    lemma_breaks_kept(s);
    search::law_replace_all(s, ",]"@, s, "]"@);
    search::law_replace_all(s, ",}"@, s, "}"@);
    assert(due(s).reverse() =~= Seq::<char>::empty());
    assert(repaired(s) =~= s);
}

/// The comma before a closing brace is dropped, and nothing else around it.
pub proof fn law_trailing_comma_is_dropped(before: Seq<char>, after: Seq<char>)
    requires
        no_breaks(before + ",}"@ + after),
        !text::contains(before + ",}"@ + after, ",]"@),
        search::first_at(before, ",}"@, after),
        !text::contains(after, ",}"@),
    ensures
        tidied(before + ",}"@ + after) == before + "}"@ + after,
{
    reveal_strlit(",]");
    reveal_strlit(",}");
    let s = before + ",}"@ + after;
    lemma_breaks_kept(s);
    search::law_replace_all(s, ",]"@, s, "]"@);
    search::law_replace_all(before, ",}"@, after, "}"@);
    search::law_replace_all(after, ",}"@, after, "}"@);
}

/// The comma before a closing bracket is dropped, and nothing else around it.
pub proof fn law_trailing_comma_in_a_list_is_dropped(before: Seq<char>, after: Seq<char>)
    requires
        no_breaks(before + ",]"@ + after),
        search::first_at(before, ",]"@, after),
        !text::contains(after, ",]"@),
        !text::contains(before + "]"@ + after, ",}"@),
    ensures
        tidied(before + ",]"@ + after) == before + "]"@ + after,
{
    reveal_strlit(",]");
    reveal_strlit(",}");
    let s = before + ",]"@ + after;
    let t = before + "]"@ + after;
    lemma_breaks_kept(s);
    search::law_replace_all(before, ",]"@, after, "]"@);
    search::law_replace_all(after, ",]"@, after, "]"@);
    search::law_replace_all(t, ",}"@, t, "}"@);
}

/// A line break or a tab inside of a string is written as its letter behind a backslash; outside
/// of strings it stays.
pub proof fn law_breaks_are_escaped(s: Seq<char>)
    ensures
        in_string(s) == (true, false) ==> breaks_escaped(s.push('\n')) == breaks_escaped(s)
            + seq!['\\', 'n'] && breaks_escaped(s.push('\r')) == breaks_escaped(s) + seq!['\\', 'r']
            && breaks_escaped(s.push('\t')) == breaks_escaped(s) + seq!['\\', 't'],
        !in_string(s).0 ==> breaks_escaped(s.push('\n')) == breaks_escaped(s).push('\n')
            && breaks_escaped(s.push('\r')) == breaks_escaped(s).push('\r') && breaks_escaped(
            s.push('\t'),
        ) == breaks_escaped(s).push('\t'),
{
    assert(s.push('\n').drop_last() =~= s);
    assert(s.push('\r').drop_last() =~= s);
    assert(s.push('\t').drop_last() =~= s);
    let b = breaks_escaped(s);
    assert(b + seq!['\n'] =~= b.push('\n'));
    assert(b + seq!['\r'] =~= b.push('\r'));
    assert(b + seq!['\t'] =~= b.push('\t'));
}

/// A result can be capped wherever neither cut splits a character: one of up to twelve thousand
/// bytes always, and a longer one with six thousand bytes of whole characters at both ends.
pub proof fn law_what_can_be_capped(s: Seq<char>, a: Seq<char>, b: Seq<char>, c: Seq<char>)
    ensures
        text::byte_len(s) <= 12000 ==> result_fits(s),
        s == a + b + c && text::byte_len(a) == 6000 && text::byte_len(c) == 6000 ==> result_fits(s),
{
    if s == a + b + c && text::byte_len(a) == 6000 && text::byte_len(c) == 6000 {
        assert(s =~= a + (b + c));
        text::law_boundaries(a, b + c, 0);
        text::law_boundaries(a + b, c, 0);
        text::lemma_byte_len_add(a + b, c);
    }
}

/// A text without a backslash, a line break, a tab or a comma.
pub open spec fn is_simple(s: Seq<char>) -> bool {
    forall|i: int|
        0 <= i < s.len() ==> #[trigger] s[i] != '\\' && s[i] != '\n' && s[i] != '\r' && s[i] != '\t'
            && s[i] != ','
}

proof fn lemma_pair_step(before: Seq<char>, c: char, after: Seq<char>, d: char, u: Seq<char>)
    requires
        is_simple(before),
        is_simple(after),
        c == '\n' || c == '\r' || c == '\t',
        d == '\n' || d == '\r' || d == '\t',
    ensures
        search::replace_all(before + seq!['\\', c] + after, seq!['\\', d], u) == (if c == d {
            before + u + after
        } else {
            before + seq!['\\', c] + after
        }),
{
    let t = seq!['\\', d];
    let s = before + seq!['\\', c] + after;
    if c == d {
        assert(search::first_at(before, t, after)) by {
            assert forall|j: int| 0 <= j < before.len() implies !#[trigger] text::occurs_at(
                before + t + after,
                t,
                j,
            ) by {
                if text::occurs_at(before + t + after, t, j) {
                    assert((before + t + after).subrange(j, j + 2)[0] == before[j]);
                    assert(t[0] == '\\');
                }
            }
        }
        assert(no_breaks(after)) by {
            assert forall|i: int| 0 <= i < after.len() implies #[trigger] after[i] != '\n'
                && after[i] != '\r' && after[i] != '\t' by {
                assert(after[i] != '\\');
            }
        }
        lemma_no_pair(after, t);
        search::law_replace_all(before, t, after, u);
        search::law_replace_all(after, t, Seq::empty(), u);
    } else {
        assert(!text::contains(s, t)) by {
            if text::contains(s, t) {
                let i = choose|i: int| text::occurs_at(s, t, i);
                assert(s.subrange(i, i + 2)[1] == s[i + 1]);
                assert(t[1] == d);
                let k = before.len() as int;
                if i + 1 < k {
                    assert(before[i + 1] != '\\');
                } else if i + 1 >= k + 2 {
                    assert(after[i + 1 - k - 2] != '\\');
                }
            }
        }
        search::law_replace_all(s, t, Seq::empty(), u);
    }
}

/// A backslash before a line break or a tab becomes the escape that was meant, wherever it stands.
pub proof fn law_backslashes_before_breaks(before: Seq<char>, after: Seq<char>, c: char)
    requires
        is_simple(before),
        is_simple(after),
        c == '\n' || c == '\r' || c == '\t',
    ensures
        tidied(before + seq!['\\', c] + after) == before + seq![
            '\\',
            if c == '\n' {
                'n'
            } else if c == '\r' {
                'r'
            } else {
                't'
            },
        ] + after,
{
    reveal_strlit("\\\n");
    reveal_strlit("\\\r");
    reveal_strlit("\\\t");
    reveal_strlit("\\n");
    reveal_strlit("\\r");
    reveal_strlit("\\t");
    reveal_strlit(",]");
    reveal_strlit(",}");
    assert("\\\n"@ =~= seq!['\\', '\n']);
    assert("\\\r"@ =~= seq!['\\', '\r']);
    assert("\\\t"@ =~= seq!['\\', '\t']);
    assert("\\n"@ =~= seq!['\\', 'n']);
    assert("\\r"@ =~= seq!['\\', 'r']);
    assert("\\t"@ =~= seq!['\\', 't']);
    let l = if c == '\n' {
        'n'
    } else if c == '\r' {
        'r'
    } else {
        't'
    };
    let s = before + seq!['\\', c] + after;
    let r = before + seq!['\\', l] + after;
    lemma_pair_step(before, c, after, '\n', "\\n"@);
    lemma_pair_step(before, c, after, '\r', "\\r"@);
    lemma_pair_step(before, c, after, '\t', "\\t"@);
    assert forall|i: int| 0 <= i < r.len() implies #[trigger] r[i] != '\n' && r[i] != '\r' && r[i]
        != '\t' && r[i] != ',' by {
        let k = before.len() as int;
        if i < k {
            assert(before[i] != '\\');
        } else if i >= k + 2 {
            assert(after[i - k - 2] != '\\');
        }
    }
    assert(no_breaks(r));
    lemma_no_pair(r, "\\\r"@);
    lemma_no_pair(r, "\\\t"@);
    search::law_replace_all(r, "\\\r"@, Seq::empty(), "\\r"@);
    search::law_replace_all(r, "\\\t"@, Seq::empty(), "\\t"@);
    lemma_unescaped(r);
    assert forall|t: Seq<char>| t.len() == 2 && t[0] == ',' implies !#[trigger] text::contains(
        r,
        t,
    ) by {
        if text::contains(r, t) {
            let i = choose|i: int| text::occurs_at(r, t, i);
            assert(r.subrange(i, i + 2)[0] == r[i]);
        }
    }
    assert(",]"@[0] == ',' && ",}"@[0] == ',');
    search::law_replace_all(r, ",]"@, Seq::empty(), "]"@);
    search::law_replace_all(r, ",}"@, Seq::empty(), "}"@);
}

proof fn lemma_count_push(s: Seq<char>, x: char, c: char)
    ensures
        count_char(s.push(x), c) == count_char(s, c) + (if x == c {
            1nat
        } else {
            0nat
        }),
{
    assert(s.push(x).drop_last() =~= s);
}

proof fn lemma_count_front(s: Seq<char>, x: char, c: char)
    ensures
        count_char(seq![x] + s, c) == count_char(s, c) + (if x == c {
            1nat
        } else {
            0nat
        }),
    decreases s.len(),
{
    if s.len() == 0 {
        assert(seq![x] + s =~= s.push(x));
        lemma_count_push(s, x, c);
    } else {
        lemma_count_front(s.drop_last(), x, c);
        assert((seq![x] + s).drop_last() =~= seq![x] + s.drop_last());
    }
}

proof fn lemma_count_reverse(s: Seq<char>, c: char)
    ensures
        count_char(s.reverse(), c) == count_char(s, c),
    decreases s.len(),
{
    if s.len() > 0 {
        lemma_count_reverse(s.drop_last(), c);
        assert(s.reverse() =~= seq![s.last()] + s.drop_last().reverse());
        lemma_count_front(s.drop_last().reverse(), s.last(), c);
    } else {
        assert(s.reverse() =~= s);
    }
}

proof fn lemma_count_without(list: Seq<char>, x: char, c: char)
    ensures
        count_char(without_last(list, x), c) == (if c == x && count_char(list, c) > 0 {
            (count_char(list, c) - 1) as nat
        } else {
            count_char(list, c)
        }),
    decreases list.len(),
{
    if list.len() > 0 && list.last() != x {
        lemma_count_without(list.drop_last(), x, c);
        lemma_count_push(without_last(list.drop_last(), x), list.last(), c);
    }
}

/// Each kind of bracket is closed for itself: an opener outside of strings adds its closer to what is
/// missing, a closer takes one of its own kind away and leaves the other kind alone, and nothing
/// else, and nothing inside of a string, changes what is missing.
pub proof fn law_each_kind_is_closed(s: Seq<char>, x: char)
    ensures
        in_string(s).0 ==> closers(s.push(x)) == closers(s),
        !in_string(s).0 && x != '{' && x != '}' && x != '[' && x != ']' ==> closers(s.push(x))
            == closers(s),
        !in_string(s).0 && x == '{' ==> count_char(closers(s.push(x)), '}') == count_char(
            closers(s),
            '}',
        ) + 1 && count_char(closers(s.push(x)), ']') == count_char(closers(s), ']'),
        !in_string(s).0 && x == '[' ==> count_char(closers(s.push(x)), ']') == count_char(
            closers(s),
            ']',
        ) + 1 && count_char(closers(s.push(x)), '}') == count_char(closers(s), '}'),
        !in_string(s).0 && x == '}' ==> count_char(closers(s.push(x)), ']') == count_char(
            closers(s),
            ']',
        ) && (count_char(closers(s), '}') > 0 ==> count_char(closers(s.push(x)), '}') + 1
            == count_char(closers(s), '}')),
        !in_string(s).0 && x == ']' ==> count_char(closers(s.push(x)), '}') == count_char(
            closers(s),
            '}',
        ) && (count_char(closers(s), ']') > 0 ==> count_char(closers(s.push(x)), ']') + 1
            == count_char(closers(s), ']')),
{
    let t = s.push(x);
    assert(t.drop_last() =~= s);
    lemma_count_reverse(due(s), '}');
    lemma_count_reverse(due(s), ']');
    lemma_count_reverse(due(t), '}');
    lemma_count_reverse(due(t), ']');
    lemma_count_push(due(s), '}', '}');
    lemma_count_push(due(s), '}', ']');
    lemma_count_push(due(s), ']', '}');
    lemma_count_push(due(s), ']', ']');
    lemma_count_without(due(s), x, '}');
    lemma_count_without(due(s), x, ']');
}

} // verus!
