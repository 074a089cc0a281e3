//! The persisted text format: a JSON array of task records, one object per
//! task, fields in a fixed order, no whitespace. The encoder is proved to
//! emit exactly the spec-level encoding; the parser is proved to match a
//! spec-level parser; and parsing an encoding gives the collection back.

use vstd::prelude::*;

use crate::collection::{wf_seq, TodoList};
use crate::digits::{is_digit, sp_parse_u64, spec_u64_str, parse_u64, u64_to_digits};
use crate::digits::{lemma_parse_u64_at, lemma_u64_str_digits};
use crate::strutil::{chars_to_string, str_to_chars};
use crate::todo::{Todo, TodoView};

verus! {

// ---------------------------------------------------------------------------
// Spec-level encoding
// ---------------------------------------------------------------------------
/// How one character of a text is written inside a JSON string: quote and
/// backslash get a backslash in front, every other character stands as is.
pub open spec fn spec_escape_char(c: char) -> Seq<char> {
    if c == '"' || c == '\\' {
        seq!['\\', c]
    } else {
        seq![c]
    }
}

/// A whole text, escaped, without the surrounding quotes.
pub open spec fn spec_escape(t: Seq<char>) -> Seq<char>
    decreases t.len(),
{
    if t.len() == 0 {
        Seq::empty()
    } else {
        spec_escape_char(t[0]) + spec_escape(t.drop_first())
    }
}

pub open spec fn spec_bool_str(b: bool) -> Seq<char> {
    if b {
        "true"@
    } else {
        "false"@
    }
}

pub open spec fn spec_opt_str(o: Option<u64>) -> Seq<char> {
    match o {
        Some(v) => spec_u64_str(v),
        None => "null"@,
    }
}

/// One task as a JSON object.
pub open spec fn spec_encode_task(t: TodoView) -> Seq<char> {
    "{\"id\":"@ + spec_u64_str(t.id) + ",\"text\":\""@ + spec_escape(t.text) + "\",\"done\":"@
        + spec_bool_str(t.done) + ",\"created_at\":"@ + spec_u64_str(t.created_at)
        + ",\"completed_at\":"@ + spec_opt_str(t.completed_at) + "}"@
}

/// The comma-separated tail of the array, one leading comma per task.
pub open spec fn spec_encode_rest(s: Seq<TodoView>) -> Seq<char>
    decreases s.len(),
{
    if s.len() == 0 {
        Seq::empty()
    } else {
        ","@ + spec_encode_task(s[0]) + spec_encode_rest(s.drop_first())
    }
}

/// The elements of the array, comma separated.
pub open spec fn spec_encode_items(s: Seq<TodoView>) -> Seq<char> {
    if s.len() == 0 {
        Seq::empty()
    } else {
        spec_encode_task(s[0]) + spec_encode_rest(s.drop_first())
    }
}

/// The whole collection as a JSON array.
pub open spec fn spec_encode(s: Seq<TodoView>) -> Seq<char> {
    "["@ + spec_encode_items(s) + "]"@
}

/// Escaping one more character appends its escape.
pub proof fn lemma_escape_push(t: Seq<char>, c: char)
    ensures
        spec_escape(t.push(c)) == spec_escape(t) + spec_escape_char(c),
    decreases t.len(),
{
    reveal_with_fuel(spec_escape, 3);
    if t.len() == 0 {
        assert(t.push(c)[0] == c);
        assert(t.push(c).drop_first() =~= Seq::<char>::empty());
        assert(spec_escape(t.push(c)) =~= spec_escape_char(c));
        assert(spec_escape(t) + spec_escape_char(c) =~= spec_escape_char(c));
    } else {
        assert(t.push(c)[0] == t[0]);
        assert(t.push(c).drop_first() =~= t.drop_first().push(c));
        lemma_escape_push(t.drop_first(), c);
        assert(spec_escape(t.push(c)) =~= spec_escape(t) + spec_escape_char(c));
    }
}

/// One more task extends the encoded items by a comma (when not first) and
/// the task's object.
pub proof fn lemma_encode_items_push(s: Seq<TodoView>, t: TodoView)
    ensures
        spec_encode_items(s.push(t)) == if s.len() == 0 {
            spec_encode_task(t)
        } else {
            spec_encode_items(s) + ","@ + spec_encode_task(t)
        },
    decreases s.len(),
{
    reveal_with_fuel(spec_encode_rest, 3);
    if s.len() == 0 {
        assert(s.push(t)[0] == t);
        assert(s.push(t).drop_first() =~= Seq::<TodoView>::empty());
        assert(spec_encode_items(s.push(t)) =~= spec_encode_task(t));
    } else {
        assert(s.push(t)[0] == s[0]);
        assert(s.push(t).drop_first() =~= s.drop_first().push(t));
        lemma_encode_rest_push(s.drop_first(), t);
        assert(spec_encode_items(s.push(t)) =~= spec_encode_items(s) + ","@ + spec_encode_task(t));
    }
}

proof fn lemma_encode_rest_push(s: Seq<TodoView>, t: TodoView)
    ensures
        spec_encode_rest(s.push(t)) == spec_encode_rest(s) + ","@ + spec_encode_task(t),
    decreases s.len(),
{
    reveal_with_fuel(spec_encode_rest, 3);
    if s.len() == 0 {
        assert(s.push(t)[0] == t);
        assert(s.push(t).drop_first() =~= Seq::<TodoView>::empty());
        assert(spec_encode_rest(s.push(t)) =~= spec_encode_rest(s) + ","@ + spec_encode_task(t));
    } else {
        assert(s.push(t)[0] == s[0]);
        assert(s.push(t).drop_first() =~= s.drop_first().push(t));
        lemma_encode_rest_push(s.drop_first(), t);
        assert(spec_encode_rest(s.push(t)) =~= spec_encode_rest(s) + ","@ + spec_encode_task(t));
    }
}

// ---------------------------------------------------------------------------
// Executable encoder
// ---------------------------------------------------------------------------
/// Append the characters of a literal.
fn append_lit(out: &mut Vec<char>, lit: &str)
    ensures
        final(out)@ == old(out)@ + lit@,
{
    let mut l = str_to_chars(lit);
    out.append(&mut l);
}

/// Append a text with quote and backslash escaped.
fn append_escaped(out: &mut Vec<char>, text: &str)
    ensures
        final(out)@ == old(out)@ + spec_escape(text@),
{
    let tv = str_to_chars(text);
    let ghost base = out@;
    let mut i: usize = 0;
    proof {
        assert(tv@.subrange(0, 0) =~= Seq::<char>::empty());
        assert(out@ =~= base + spec_escape(tv@.subrange(0, 0)));
    }
    while i < tv.len()
        invariant
            i <= tv@.len(),
            tv@ == text@,
            out@ == base + spec_escape(tv@.subrange(0, i as int)),
        decreases tv@.len() - i,
    {
        let c = tv[i];
        if c == '"' || c == '\\' {
            out.push('\\');
        }
        out.push(c);
        proof {
            assert(tv@.subrange(0, i as int + 1) =~= tv@.subrange(0, i as int).push(tv@[i as int]));
            lemma_escape_push(tv@.subrange(0, i as int), tv@[i as int]);
            assert(out@ =~= base + spec_escape(tv@.subrange(0, i as int + 1)));
        }
        i = i + 1;
    }
    proof {
        assert(tv@.subrange(0, tv@.len() as int) =~= tv@);
    }
}

/// Append one task's JSON object.
fn append_task(out: &mut Vec<char>, t: &Todo)
    ensures
        final(out)@ == old(out)@ + spec_encode_task(t@),
{
    append_lit(out, "{\"id\":");
    let mut d = u64_to_digits(t.id);
    out.append(&mut d);
    append_lit(out, ",\"text\":\"");
    append_escaped(out, t.text.as_str());
    append_lit(out, "\",\"done\":");
    if t.done {
        append_lit(out, "true");
    } else {
        append_lit(out, "false");
    }
    append_lit(out, ",\"created_at\":");
    let mut d2 = u64_to_digits(t.created_at);
    out.append(&mut d2);
    append_lit(out, ",\"completed_at\":");
    match t.completed_at {
        Some(c) => {
            let mut d3 = u64_to_digits(c);
            out.append(&mut d3);
        },
        None => {
            append_lit(out, "null");
        },
    }
    append_lit(out, "}");
    proof {
        assert(out@ =~= old(out)@ + spec_encode_task(t@));
    }
}

// ---------------------------------------------------------------------------
// Spec-level parser
// ---------------------------------------------------------------------------
/// Expect a fixed literal at position `i`.
pub open spec fn sp_expect(s: Seq<char>, i: int, lit: Seq<char>) -> Option<int> {
    if 0 <= i && i + lit.len() <= s.len() && s.subrange(i, i + lit.len() as int) == lit {
        Some(i + lit.len() as int)
    } else {
        None
    }
}

/// The body of a JSON string after its opening quote: unescapes backslash
/// sequences, stops after the closing quote.
pub open spec fn sp_string_body(s: Seq<char>, i: int, acc: Seq<char>) -> Option<(Seq<char>, int)>
    decreases s.len() - i,
{
    if i < 0 || i >= s.len() {
        None
    } else if s[i] == '"' {
        Some((acc, i + 1))
    } else if s[i] == '\\' {
        if i + 1 < s.len() && (s[i + 1] == '"' || s[i + 1] == '\\') {
            sp_string_body(s, i + 2, acc.push(s[i + 1]))
        } else {
            None
        }
    } else {
        sp_string_body(s, i + 1, acc.push(s[i]))
    }
}

pub open spec fn sp_parse_bool(s: Seq<char>, i: int) -> Option<(bool, int)> {
    match sp_expect(s, i, "true"@) {
        Some(j) => Some((true, j)),
        None => match sp_expect(s, i, "false"@) {
            Some(j) => Some((false, j)),
            None => None,
        },
    }
}

pub open spec fn sp_parse_opt(s: Seq<char>, i: int) -> Option<(Option<u64>, int)> {
    match sp_expect(s, i, "null"@) {
        Some(j) => Some((None, j)),
        None => match sp_parse_u64(s, i) {
            Some((v, j)) => Some((Some(v), j)),
            None => None,
        },
    }
}

/// One task object, fields in the fixed order.
pub open spec fn sp_parse_task(s: Seq<char>, i: int) -> Option<(TodoView, int)> {
    match sp_expect(s, i, "{\"id\":"@) {
        None => None,
        Some(i1) => match sp_parse_u64(s, i1) {
            None => None,
            Some((id, i2)) => match sp_expect(s, i2, ",\"text\":\""@) {
                None => None,
                Some(i3) => match sp_string_body(s, i3, Seq::empty()) {
                    None => None,
                    Some((text, i4)) => match sp_expect(s, i4, ",\"done\":"@) {
                        None => None,
                        Some(i5) => match sp_parse_bool(s, i5) {
                            None => None,
                            Some((done, i6)) => match sp_expect(s, i6, ",\"created_at\":"@) {
                                None => None,
                                Some(i7) => match sp_parse_u64(s, i7) {
                                    None => None,
                                    Some((created_at, i8)) => match sp_expect(
                                        s,
                                        i8,
                                        ",\"completed_at\":"@,
                                    ) {
                                        None => None,
                                        Some(i9) => match sp_parse_opt(s, i9) {
                                            None => None,
                                            Some((completed_at, i10)) => match sp_expect(
                                                s,
                                                i10,
                                                "}"@,
                                            ) {
                                                None => None,
                                                Some(j) => Some(
                                                    (
                                                        TodoView {
                                                            id,
                                                            text,
                                                            done,
                                                            created_at,
                                                            completed_at,
                                                        },
                                                        j,
                                                    ),
                                                ),
                                            },
                                        },
                                    },
                                },
                            },
                        },
                    },
                },
            },
        },
    }
}

/// Zero or more further tasks, each after a comma.
pub open spec fn sp_parse_rest(s: Seq<char>, i: int, acc: Seq<TodoView>) -> Option<
    (Seq<TodoView>, int),
>
    decreases s.len() - i,
{
    if 0 <= i < s.len() && s[i] == ',' {
        match sp_parse_task(s, i + 1) {
            None => None,
            Some((t, j)) => if i < j <= s.len() {
                sp_parse_rest(s, j, acc.push(t))
            } else {
                None
            },
        }
    } else {
        Some((acc, i))
    }
}

/// The whole document: one array, nothing before or after it.
pub open spec fn sp_decode(s: Seq<char>) -> Option<Seq<TodoView>> {
    match sp_expect(s, 0, "["@) {
        None => None,
        Some(i1) => if i1 < s.len() && s[i1] == ']' {
            if i1 + 1 == s.len() {
                Some(Seq::empty())
            } else {
                None
            }
        } else {
            match sp_parse_task(s, i1) {
                None => None,
                Some((t0, j0)) => match sp_parse_rest(s, j0, seq![t0]) {
                    None => None,
                    Some((ts, k)) => match sp_expect(s, k, "]"@) {
                        None => None,
                        Some(e) => if e == s.len() {
                            Some(ts)
                        } else {
                            None
                        },
                    },
                },
            }
        },
    }
}

/// What `decode` accepts: a parseable document whose tasks form a
/// well-formed collection.
pub open spec fn spec_decode(s: Seq<char>) -> Option<Seq<TodoView>> {
    match sp_decode(s) {
        Some(ts) => if wf_seq(ts) {
            Some(ts)
        } else {
            None
        },
        None => None,
    }
}

/// The persisted text of a collection.
pub fn encode(l: &TodoList) -> (r: String)
    ensures
        r@ == spec_encode(l@),
{
    let tasks = l.tasks();
    let ghost v = l@;
    let mut out: Vec<char> = Vec::new();
    append_lit(&mut out, "[");
    let mut i: usize = 0;
    proof {
        assert(v.subrange(0, 0) =~= Seq::<TodoView>::empty());
        assert(out@ =~= "["@ + spec_encode_items(v.subrange(0, 0)));
    }
    while i < tasks.len()
        invariant
            i <= v.len(),
            v == tasks@.map_values(|t: Todo| t@),
            out@ == "["@ + spec_encode_items(v.subrange(0, i as int)),
        decreases v.len() - i,
    {
        if i > 0 {
            append_lit(&mut out, ",");
        }
        append_task(&mut out, &tasks[i]);
        proof {
            assert(v.subrange(0, i as int + 1) =~= v.subrange(0, i as int).push(v[i as int]));
            lemma_encode_items_push(v.subrange(0, i as int), v[i as int]);
            assert(out@ =~= "["@ + spec_encode_items(v.subrange(0, i as int + 1)));
        }
        i = i + 1;
    }
    append_lit(&mut out, "]");
    proof {
        assert(v.subrange(0, v.len() as int) =~= v);
        assert(out@ =~= spec_encode(v));
    }
    chars_to_string(&out)
}

// ---------------------------------------------------------------------------
// Round trip: parsing an encoding gives the collection back
// ---------------------------------------------------------------------------
/// A subrange equal to a concatenation splits into the two parts.
proof fn lemma_concat_split(s: Seq<char>, i: int, x: Seq<char>, y: Seq<char>)
    requires
        0 <= i,
        i + x.len() + y.len() <= s.len(),
        s.subrange(i, i + x.len() + y.len()) == x + y,
    ensures
        s.subrange(i, i + x.len() as int) == x,
        s.subrange(i + x.len(), i + x.len() + y.len()) == y,
{
    let e = x + y;
    assert forall|m: int| 0 <= m < x.len() implies s.subrange(i, i + x.len() as int)[m]
        == x[m] by {
        assert(s.subrange(i, i + e.len() as int)[m] == s[i + m]);
    }
    assert(s.subrange(i, i + x.len() as int) =~= x);
    assert forall|m: int| 0 <= m < y.len() implies s.subrange(
        i + x.len(),
        i + x.len() + y.len(),
    )[m] == y[m] by {
        assert(s.subrange(i, i + e.len() as int)[x.len() + m] == s[i + x.len() + m]);
        assert(e[x.len() + m] == y[m]);
    }
    assert(s.subrange(i + x.len(), i + x.len() + y.len()) =~= y);
}

/// Reading a string body over an escaped text followed by a quote yields the
/// text and stops after the quote.
proof fn lemma_string_body_at(s: Seq<char>, i: int, t: Seq<char>, acc: Seq<char>)
    requires
        0 <= i,
        i + spec_escape(t).len() < s.len(),
        s.subrange(i, i + spec_escape(t).len() as int) == spec_escape(t),
        s[i + spec_escape(t).len()] == '"',
    ensures
        sp_string_body(s, i, acc) == Some((acc + t, i + spec_escape(t).len() + 1)),
    decreases t.len(),
{
    let es = spec_escape(t);
    if t.len() == 0 {
        assert(es.len() == 0);
        assert(acc + t =~= acc);
    } else {
        let c = t[0];
        let es1 = spec_escape_char(c);
        let rest = spec_escape(t.drop_first());
        assert(es == es1 + rest);
        lemma_concat_split(s, i, es1, rest);
        assert forall|m: int| 0 <= m < es.len() implies s[i + m] == es[m] by {
            assert(s.subrange(i, i + es.len() as int)[m] == s[i + m]);
        }
        if c == '"' || c == '\\' {
            assert(es[0] == '\\' && es[1] == c);
            assert(s[i] == '\\');
            assert(s[i + 1] == c);
            lemma_string_body_at(s, i + 2, t.drop_first(), acc.push(c));
            assert(acc.push(c) + t.drop_first() =~= acc + t);
            assert(sp_string_body(s, i, acc) == sp_string_body(s, i + 2, acc.push(c)));
        } else {
            assert(es[0] == c);
            assert(s[i] == c);
            lemma_string_body_at(s, i + 1, t.drop_first(), acc.push(c));
            assert(acc.push(c) + t.drop_first() =~= acc + t);
            assert(sp_string_body(s, i, acc) == sp_string_body(s, i + 1, acc.push(c)));
        }
    }
}

/// Reading one task object over its encoding yields the task and stops right
/// after the closing brace.
#[verifier::rlimit(100)]
proof fn lemma_parse_task_at(s: Seq<char>, i: int, t: TodoView)
    requires
        0 <= i,
        i + spec_encode_task(t).len() <= s.len(),
        s.subrange(i, i + spec_encode_task(t).len() as int) == spec_encode_task(t),
    ensures
        sp_parse_task(s, i) == Some((t, i + spec_encode_task(t).len() as int)),
{
    reveal_strlit("{\"id\":");
    reveal_strlit(",\"text\":\"");
    reveal_strlit("\",\"done\":");
    reveal_strlit(",\"done\":");
    reveal_strlit("true");
    reveal_strlit("false");
    reveal_strlit(",\"created_at\":");
    reveal_strlit(",\"completed_at\":");
    reveal_strlit("null");
    reveal_strlit("}");
    let a = "{\"id\":"@;
    let d1 = spec_u64_str(t.id);
    let b = ",\"text\":\""@;
    let es = spec_escape(t.text);
    let c = "\",\"done\":"@;
    let bl = spec_bool_str(t.done);
    let f = ",\"created_at\":"@;
    let d2 = spec_u64_str(t.created_at);
    let g = ",\"completed_at\":"@;
    let op = spec_opt_str(t.completed_at);
    let h = "}"@;
    lemma_u64_str_digits(t.id);
    lemma_u64_str_digits(t.created_at);
    let e = spec_encode_task(t);
    lemma_concat_split(s, i, a + d1 + b + es + c + bl + f + d2 + g + op, h);
    lemma_concat_split(s, i, a + d1 + b + es + c + bl + f + d2 + g, op);
    lemma_concat_split(s, i, a + d1 + b + es + c + bl + f + d2, g);
    lemma_concat_split(s, i, a + d1 + b + es + c + bl + f, d2);
    lemma_concat_split(s, i, a + d1 + b + es + c + bl, f);
    lemma_concat_split(s, i, a + d1 + b + es + c, bl);
    lemma_concat_split(s, i, a + d1 + b + es, c);
    lemma_concat_split(s, i, a + d1 + b, es);
    lemma_concat_split(s, i, a + d1, b);
    lemma_concat_split(s, i, a, d1);
    let p1 = i + a.len();
    let p2 = p1 + d1.len();
    let p3 = p2 + b.len();
    let p4 = p3 + es.len();
    let p5 = p4 + c.len();
    let p6 = p5 + bl.len();
    let p7 = p6 + f.len();
    let p8 = p7 + d2.len();
    let p9 = p8 + g.len();
    let p10 = p9 + op.len();
    // the opening literal and the id
    assert(sp_expect(s, i, a) == Some(p1));
    assert(s.subrange(p2, p3)[0] == s[p2]);
    assert(s[p2] == ',');
    assert(!is_digit(','));
    lemma_parse_u64_at(s, p1, t.id);
    assert(sp_parse_u64(s, p1) == Some((t.id, p2)));
    // the text
    assert(sp_expect(s, p2, b) == Some(p3));
    assert(s.subrange(p4, p5)[0] == s[p4]);
    assert(s[p4] == '"');
    lemma_string_body_at(s, p3, t.text, Seq::empty());
    assert(Seq::<char>::empty() + t.text =~= t.text);
    assert(sp_string_body(s, p3, Seq::empty()) == Some((t.text, p4 + 1)));
    assert(s.subrange(p4 + 1, p5) =~= ",\"done\":"@) by {
        assert forall|m: int| 0 <= m < 8 implies s.subrange(p4 + 1, p5)[m] == ",\"done\":"@[m] by {
            assert(s.subrange(p4, p5)[m + 1] == s[p4 + 1 + m]);
            assert(c[m + 1] == ",\"done\":"@[m]);
        }
    }
    assert(sp_expect(s, p4 + 1, ",\"done\":"@) == Some(p5));
    // the done flag
    if t.done {
        assert(bl == "true"@);
        assert(sp_expect(s, p5, "true"@) == Some(p6));
        assert(sp_parse_bool(s, p5) == Some((true, p6)));
    } else {
        assert(bl == "false"@);
        assert(s.subrange(p5, p6)[0] == s[p5]);
        assert(s[p5] == 'f');
        if p5 + 4 <= s.len() && s.subrange(p5, p5 + 4) == "true"@ {
            assert(s.subrange(p5, p5 + 4)[0] == s[p5]);
            assert(false);
        }
        assert(sp_expect(s, p5, "true"@) is None);
        assert(sp_expect(s, p5, "false"@) == Some(p6));
        assert(sp_parse_bool(s, p5) == Some((false, p6)));
    }
    // the creation time
    assert(sp_expect(s, p6, f) == Some(p7));
    assert(s.subrange(p8, p9)[0] == s[p8]);
    assert(s[p8] == ',');
    lemma_parse_u64_at(s, p7, t.created_at);
    assert(sp_parse_u64(s, p7) == Some((t.created_at, p8)));
    // the completion time
    assert(sp_expect(s, p8, g) == Some(p9));
    assert(s.subrange(p10, p10 + 1)[0] == s[p10]);
    assert(s[p10] == '}');
    match t.completed_at {
        None => {
            assert(op == "null"@);
            assert(sp_expect(s, p9, "null"@) == Some(p10));
            assert(sp_parse_opt(s, p9) == Some((None::<u64>, p10)));
        },
        Some(v) => {
            lemma_u64_str_digits(v);
            assert(s.subrange(p9, p10)[0] == s[p9]);
            assert(is_digit(s[p9]));
            assert(s[p9] != 'n');
            if p9 + 4 <= s.len() && s.subrange(p9, p9 + 4) == "null"@ {
                assert(s.subrange(p9, p9 + 4)[0] == s[p9]);
                assert(false);
            }
            assert(sp_expect(s, p9, "null"@) is None);
            assert(!is_digit('}'));
            lemma_parse_u64_at(s, p9, v);
            assert(sp_parse_opt(s, p9) == Some((Some(v), p10)));
        },
    }
    // the closing brace
    assert(sp_expect(s, p10, h) == Some(p10 + 1));
    assert(p10 + 1 == i + e.len());
}

/// Reading the array tail over its encoding, followed by the closing
/// bracket, yields the remaining tasks.
proof fn lemma_parse_rest_at(s: Seq<char>, i: int, ts: Seq<TodoView>, acc: Seq<TodoView>)
    requires
        0 <= i,
        i + spec_encode_rest(ts).len() < s.len(),
        s.subrange(i, i + spec_encode_rest(ts).len() as int) == spec_encode_rest(ts),
        s[i + spec_encode_rest(ts).len()] == ']',
    ensures
        sp_parse_rest(s, i, acc) == Some((acc + ts, i + spec_encode_rest(ts).len() as int)),
    decreases ts.len(),
{
    reveal_strlit(",");
    let er = spec_encode_rest(ts);
    if ts.len() == 0 {
        assert(er.len() == 0);
        assert(acc + ts =~= acc);
    } else {
        let cm = ","@;
        let et = spec_encode_task(ts[0]);
        let rest = spec_encode_rest(ts.drop_first());
        assert(er == cm + et + rest);
        lemma_concat_split(s, i, cm + et, rest);
        lemma_concat_split(s, i, cm, et);
        assert(s.subrange(i, i + 1)[0] == s[i]);
        assert(s[i] == ',');
        lemma_parse_task_at(s, i + 1, ts[0]);
        let j = i + 1 + et.len();
        lemma_parse_rest_at(s, j, ts.drop_first(), acc.push(ts[0]));
        assert(acc.push(ts[0]) + ts.drop_first() =~= acc + ts);
        assert(sp_parse_rest(s, i, acc) == sp_parse_rest(s, j, acc.push(ts[0])));
    }
}

/// A task's encoding opens with its brace.
proof fn lemma_task_first_char(t: TodoView)
    ensures
        spec_encode_task(t).len() > 0,
        spec_encode_task(t)[0] == '{',
{
    reveal_strlit("{\"id\":");
    let a = "{\"id\":"@;
    assert(a[0] == '{');
    assert(spec_encode_task(t)[0] == a[0]);
}

/// Law: saving a collection and loading the text back yields the same
/// collection: the same ids, texts, done flags and timestamps, in the same
/// order.
#[verifier::rlimit(100)]
#[verifier::spinoff_prover]
pub proof fn lemma_round_trip(ts: Seq<TodoView>)
    requires
        wf_seq(ts),
    ensures
        spec_decode(spec_encode(ts)) == Some(ts),
{
    reveal_strlit("[");
    reveal_strlit("]");
    let s = spec_encode(ts);
    let items = spec_encode_items(ts);
    assert(s == "["@ + items + "]"@);
    assert(s.subrange(0, s.len() as int) =~= s);
    lemma_concat_split(s, 0, "["@ + items, "]"@);
    lemma_concat_split(s, 0, "["@, items);
    assert(sp_expect(s, 0, "["@) == Some(1int));
    if ts.len() == 0 {
        assert(items.len() == 0);
        assert(s.len() == 2);
        assert(s.subrange(1, 2)[0] == s[1]);
        assert(s[1] == ']');
        assert(sp_decode(s) == Some(Seq::<TodoView>::empty()));
        assert(Seq::<TodoView>::empty() =~= ts);
    } else {
        let et = spec_encode_task(ts[0]);
        let rest = spec_encode_rest(ts.drop_first());
        assert(items == et + rest);
        lemma_concat_split(s, 1, et, rest);
        lemma_task_first_char(ts[0]);
        assert(s.subrange(1, 1 + et.len() as int)[0] == s[1]);
        assert(s[1] == '{');
        lemma_parse_task_at(s, 1, ts[0]);
        let j0: int = 1 + et.len() as int;
        assert(s.subrange((s.len() - 1) as int, s.len() as int)[0] == s[s.len() - 1]);
        assert(s[s.len() - 1] == ']');
        assert(j0 + rest.len() == s.len() - 1);
        lemma_parse_rest_at(s, j0, ts.drop_first(), seq![ts[0]]);
        assert(seq![ts[0]] + ts.drop_first() =~= ts);
        let k: int = j0 + rest.len() as int;
        assert(s.subrange(k, k + 1) =~= "]"@) by {
            assert(s.subrange(k, k + 1)[0] == s[k]);
        }
        assert(sp_expect(s, k, "]"@) == Some(k + 1));
        assert(k + 1 == s.len());
        assert(sp_decode(s) == Some(ts));
    }
}

// ---------------------------------------------------------------------------
// Executable parser
// ---------------------------------------------------------------------------
/// Match a fixed literal at position `i`.
fn expect_lit(s: &Vec<char>, i: usize, lit: &str) -> (r: Option<usize>)
    requires
        i <= s@.len(),
    ensures
        r matches Some(j) ==> sp_expect(s@, i as int, lit@) == Some(j as int) && i <= j
            <= s@.len(),
        r is None ==> sp_expect(s@, i as int, lit@) is None,
{
    let lv = str_to_chars(lit);
    let n = lv.len();
    let slen = s.len();
    if n > slen - i {
        return None;
    }
    let mut k: usize = 0;
    while k < n
        invariant
            k <= n,
            n == lit@.len(),
            lv@ == lit@,
            slen == s@.len(),
            i + n <= slen,
            forall|a: int| 0 <= a < k ==> s@[i + a] == lit@[a],
        decreases n - k,
    {
        if s[i + k] != lv[k] {
            proof {
                assert(s@.subrange(i as int, i + lit@.len() as int)[k as int] == s@[i + k]);
            }
            return None;
        }
        k = k + 1;
    }
    proof {
        assert(s@.subrange(i as int, i + lit@.len() as int) =~= lit@);
    }
    Some(i + n)
}

/// Read a string body up to and over its closing quote.
fn parse_string_body(s: &Vec<char>, i: usize) -> (r: Option<(Vec<char>, usize)>)
    requires
        i <= s@.len(),
    ensures
        r matches Some(p) ==> sp_string_body(s@, i as int, Seq::empty()) == Some(
            (p.0@, p.1 as int),
        ) && i < p.1 <= s@.len(),
        r is None ==> sp_string_body(s@, i as int, Seq::empty()) is None,
{
    let mut acc: Vec<char> = Vec::new();
    let mut k: usize = i;
    loop
        invariant
            i <= k <= s@.len(),
            sp_string_body(s@, i as int, Seq::empty()) == sp_string_body(s@, k as int, acc@),
        decreases s@.len() - k,
    {
        if k >= s.len() {
            return None;
        }
        let c = s[k];
        if c == '"' {
            proof {
                assert(sp_string_body(s@, k as int, acc@) == Some((acc@, k as int + 1)));
            }
            return Some((acc, k + 1));
        }
        if c == '\\' {
            if k + 1 >= s.len() {
                return None;
            }
            let e = s[k + 1];
            if !(e == '"' || e == '\\') {
                return None;
            }
            proof {
                assert(sp_string_body(s@, k as int, acc@) == sp_string_body(
                    s@,
                    k as int + 2,
                    acc@.push(s@[k as int + 1]),
                ));
            }
            acc.push(e);
            k = k + 2;
        } else {
            proof {
                assert(sp_string_body(s@, k as int, acc@) == sp_string_body(
                    s@,
                    k as int + 1,
                    acc@.push(s@[k as int]),
                ));
            }
            acc.push(c);
            k = k + 1;
        }
    }
}

fn parse_bool(s: &Vec<char>, i: usize) -> (r: Option<(bool, usize)>)
    requires
        i <= s@.len(),
    ensures
        r matches Some(p) ==> sp_parse_bool(s@, i as int) == Some((p.0, p.1 as int)) && i <= p.1
            <= s@.len(),
        r is None ==> sp_parse_bool(s@, i as int) is None,
{
    match expect_lit(s, i, "true") {
        Some(j) => Some((true, j)),
        None => match expect_lit(s, i, "false") {
            Some(j) => Some((false, j)),
            None => None,
        },
    }
}

fn parse_opt(s: &Vec<char>, i: usize) -> (r: Option<(Option<u64>, usize)>)
    requires
        i <= s@.len(),
    ensures
        r matches Some(p) ==> sp_parse_opt(s@, i as int) == Some((p.0, p.1 as int)) && i <= p.1
            <= s@.len(),
        r is None ==> sp_parse_opt(s@, i as int) is None,
{
    match expect_lit(s, i, "null") {
        Some(j) => Some((None, j)),
        None => match parse_u64(s, i) {
            Some(p) => Some((Some(p.0), p.1)),
            None => None,
        },
    }
}

/// Read one task object.
fn parse_task(s: &Vec<char>, i: usize) -> (r: Option<(Todo, usize)>)
    requires
        i <= s@.len(),
    ensures
        r matches Some(p) ==> sp_parse_task(s@, i as int) == Some((p.0@, p.1 as int)) && i < p.1
            <= s@.len(),
        r is None ==> sp_parse_task(s@, i as int) is None,
{
    let i1 = match expect_lit(s, i, "{\"id\":") {
        Some(j) => j,
        None => {
            return None;
        },
    };
    let (id, i2) = match parse_u64(s, i1) {
        Some(p) => p,
        None => {
            return None;
        },
    };
    let i3 = match expect_lit(s, i2, ",\"text\":\"") {
        Some(j) => j,
        None => {
            return None;
        },
    };
    let (text_chars, i4) = match parse_string_body(s, i3) {
        Some(p) => p,
        None => {
            return None;
        },
    };
    let i5 = match expect_lit(s, i4, ",\"done\":") {
        Some(j) => j,
        None => {
            return None;
        },
    };
    let (done, i6) = match parse_bool(s, i5) {
        Some(p) => p,
        None => {
            return None;
        },
    };
    let i7 = match expect_lit(s, i6, ",\"created_at\":") {
        Some(j) => j,
        None => {
            return None;
        },
    };
    let (created_at, i8) = match parse_u64(s, i7) {
        Some(p) => p,
        None => {
            return None;
        },
    };
    let i9 = match expect_lit(s, i8, ",\"completed_at\":") {
        Some(j) => j,
        None => {
            return None;
        },
    };
    let (completed_at, i10) = match parse_opt(s, i9) {
        Some(p) => p,
        None => {
            return None;
        },
    };
    let j = match expect_lit(s, i10, "}") {
        Some(j) => j,
        None => {
            return None;
        },
    };
    let t = Todo { id, text: chars_to_string(&text_chars), done, created_at, completed_at };
    Some((t, j))
}

/// Read the persisted text back into a collection. Accepts exactly what
/// `encode` writes; anything else, including a document whose tasks would
/// break the collection invariant, is rejected.
pub fn decode(s: &str) -> (r: Option<TodoList>)
    ensures
        r matches Some(l) ==> l.wf() && spec_decode(s@) == Some(l@),
        r is None ==> spec_decode(s@) is None,
{
    let v = str_to_chars(s);
    let i1 = match expect_lit(&v, 0, "[") {
        Some(j) => j,
        None => {
            return None;
        },
    };
    if i1 >= v.len() {
        proof {
            reveal_strlit("{\"id\":");
            assert(sp_parse_task(s@, i1 as int) is None);
        }
        return None;
    }
    if v[i1] == ']' {
        if i1 + 1 == v.len() {
            let l = TodoList::new();
            proof {
                assert(sp_decode(s@) == Some(Seq::<TodoView>::empty()));
                assert(wf_seq(Seq::<TodoView>::empty()));
                assert(l@ == Seq::<TodoView>::empty());
            }
            return Some(l);
        } else {
            return None;
        }
    }
    let (t0, j0) = match parse_task(&v, i1) {
        Some(p) => p,
        None => {
            return None;
        },
    };
    let mut tasks: Vec<Todo> = Vec::new();
    tasks.push(t0);
    proof {
        assert(tasks@.map_values(|t: Todo| t@) =~= seq![t0@]);
    }
    let mut k: usize = j0;
    loop
        invariant
            k <= v@.len(),
            v@ == s@,
            i1 < v@.len(),
            sp_expect(s@, 0, "["@) == Some(i1 as int),
            s@[i1 as int] != ']',
            sp_parse_task(s@, i1 as int) == Some((t0@, j0 as int)),
            sp_parse_rest(s@, j0 as int, seq![t0@]) == sp_parse_rest(
                s@,
                k as int,
                tasks@.map_values(|t: Todo| t@),
            ),
        ensures
            k <= v@.len(),
            v@ == s@,
            sp_parse_rest(s@, j0 as int, seq![t0@]) == Some(
                (tasks@.map_values(|t: Todo| t@), k as int),
            ),
        decreases v@.len() - k,
    {
        if k >= v.len() {
            break ;
        }
        if v[k] != ',' {
            break ;
        }
        let (t, j) = match parse_task(&v, k + 1) {
            Some(p) => p,
            None => {
                return None;
            },
        };
        let ghost acc = tasks@.map_values(|t: Todo| t@);
        tasks.push(t);
        proof {
            assert(tasks@.map_values(|t: Todo| t@) =~= acc.push(t@));
            assert(sp_parse_rest(s@, k as int, acc) == sp_parse_rest(s@, j as int, acc.push(t@)));
        }
        k = j;
    }
    let e = match expect_lit(&v, k, "]") {
        Some(j) => j,
        None => {
            return None;
        },
    };
    if e != v.len() {
        return None;
    }
    if TodoList::check_tasks(&tasks) {
        let l = TodoList::from_tasks(tasks);
        proof {
            assert(sp_decode(s@) == Some(l@));
        }
        Some(l)
    } else {
        None
    }
}

} // verus!
