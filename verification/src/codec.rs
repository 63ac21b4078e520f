//! The persisted form of a task collection, as mathematics: an array of
//! objects, one per task, fields in the order `description`, `done`,
//! `due_date`, the due date an ISO date string or `null`. `tasks_chars`
//! gives the exact character sequence written for a collection; the `p_*`
//! functions define which character sequences are accepted and what they
//! mean. The round-trip lemmas prove that parsing what was written yields
//! the collection back, unchanged.

use vstd::prelude::*;
use crate::date::Date;
use crate::date::date_chars;
use crate::date::parse_date_seq;
use crate::date::lemma_date_round_trip;
use crate::task::TaskView;
use crate::task::task_wf;

verus! {

/// `{"description":"` — what opens a task object, up to and with the
/// opening quote of the description.
pub open spec fn lit_task_open() -> Seq<char> {
    seq!['{', '"', 'd', 'e', 's', 'c', 'r', 'i', 'p', 't', 'i', 'o', 'n', '"', ':', '"']
}

/// `,"done":` — what follows the description's closing quote.
pub open spec fn lit_done_key() -> Seq<char> {
    seq![',', '"', 'd', 'o', 'n', 'e', '"', ':']
}

/// `,"due_date":` — what follows the done value.
pub open spec fn lit_due_key() -> Seq<char> {
    seq![',', '"', 'd', 'u', 'e', '_', 'd', 'a', 't', 'e', '"', ':']
}

pub open spec fn lit_true() -> Seq<char> {
    seq!['t', 'r', 'u', 'e']
}

pub open spec fn lit_false() -> Seq<char> {
    seq!['f', 'a', 'l', 's', 'e']
}

pub open spec fn lit_null() -> Seq<char> {
    seq!['n', 'u', 'l', 'l']
}

/// How one character of a description is written: quote and backslash are
/// preceded by a backslash, every other character stands as itself.
pub open spec fn esc_char(c: char) -> Seq<char> {
    if c == '"' || c == '\\' {
        seq!['\\', c]
    } else {
        seq![c]
    }
}

pub open spec fn escape_chars(s: Seq<char>) -> Seq<char>
    decreases s.len(),
{
    if s.len() == 0 {
        Seq::empty()
    } else {
        esc_char(s[0]) + escape_chars(s.skip(1))
    }
}

pub open spec fn bool_chars(b: bool) -> Seq<char> {
    if b {
        lit_true()
    } else {
        lit_false()
    }
}

pub open spec fn due_chars(od: Option<Date>) -> Seq<char> {
    match od {
        None => lit_null(),
        Some(d) => seq!['"'] + date_chars(d) + seq!['"'],
    }
}

/// The characters written for one task.
pub open spec fn task_chars(t: TaskView) -> Seq<char> {
    lit_task_open() + escape_chars(t.description) + seq!['"'] + lit_done_key() + bool_chars(t.done)
        + lit_due_key() + due_chars(t.due_date) + seq!['}']
}

/// The characters written after the first task: for each further task a
/// comma and the task, then the closing bracket.
pub open spec fn rest_chars(ts: Seq<TaskView>) -> Seq<char>
    decreases ts.len(),
{
    if ts.len() == 0 {
        seq![']']
    } else {
        seq![','] + task_chars(ts[0]) + rest_chars(ts.skip(1))
    }
}

/// The characters written for a whole collection.
pub open spec fn tasks_chars(ts: Seq<TaskView>) -> Seq<char> {
    if ts.len() == 0 {
        seq!['[', ']']
    } else {
        seq!['['] + task_chars(ts[0]) + rest_chars(ts.skip(1))
    }
}

pub open spec fn starts_with(s: Seq<char>, p: Seq<char>) -> bool {
    p.len() <= s.len() && s.take(p.len() as int) == p
}

/// Parse a string body, starting after the opening quote: characters up to
/// the first unescaped quote, a backslash taking the next character
/// literally. Yields the content and what follows the closing quote.
pub open spec fn p_string(s: Seq<char>) -> Option<(Seq<char>, Seq<char>)>
    decreases s.len(),
{
    if s.len() == 0 {
        None
    } else if s[0] == '"' {
        Some((Seq::empty(), s.skip(1)))
    } else if s[0] == '\\' {
        if s.len() < 2 {
            None
        } else {
            match p_string(s.skip(2)) {
                Some((content, r)) => Some((seq![s[1]] + content, r)),
                None => None,
            }
        }
    } else {
        match p_string(s.skip(1)) {
            Some((content, r)) => Some((seq![s[0]] + content, r)),
            None => None,
        }
    }
}

/// Parse one task object. Yields the task and what follows its closing
/// brace.
pub open spec fn p_task(s: Seq<char>) -> Option<(TaskView, Seq<char>)> {
    if starts_with(s, lit_task_open()) {
        match p_string(s.skip(16)) {
            Some((desc, r1)) => {
                if starts_with(r1, lit_done_key()) {
                    let r2 = r1.skip(8);
                    let parsed_done = if starts_with(r2, lit_true()) {
                        Some((true, r2.skip(4)))
                    } else if starts_with(r2, lit_false()) {
                        Some((false, r2.skip(5)))
                    } else {
                        None
                    };
                    match parsed_done {
                        Some((done, r3)) => {
                            if starts_with(r3, lit_due_key()) {
                                let r4 = r3.skip(12);
                                let parsed_due = if starts_with(r4, lit_null()) {
                                    Some((Option::<Date>::None, r4.skip(4)))
                                } else if r4.len() >= 12 && r4[0] == '"' && r4[11] == '"' {
                                    match parse_date_seq(r4.subrange(1, 11)) {
                                        Some(d) => Some((Option::<Date>::Some(d), r4.skip(12))),
                                        None => None,
                                    }
                                } else {
                                    None
                                };
                                match parsed_due {
                                    Some((due, r5)) => {
                                        if r5.len() >= 1 && r5[0] == '}' {
                                            Some(
                                                (
                                                    TaskView {
                                                        description: desc,
                                                        done,
                                                        due_date: due,
                                                    },
                                                    r5.skip(1),
                                                ),
                                            )
                                        } else {
                                            None
                                        }
                                    },
                                    None => None,
                                }
                            } else {
                                None
                            }
                        },
                        None => None,
                    }
                } else {
                    None
                }
            },
            None => None,
        }
    } else {
        None
    }
}

/// Parse what follows a task: either the closing bracket, or a comma and a
/// further task, repeatedly.
pub open spec fn p_rest(s: Seq<char>) -> Option<(Seq<TaskView>, Seq<char>)>
    decreases s.len(),
{
    if s.len() >= 1 && s[0] == ']' {
        Some((Seq::empty(), s.skip(1)))
    } else if s.len() >= 1 && s[0] == ',' {
        match p_task(s.skip(1)) {
            Some((t, r)) => if r.len() < s.len() {
                match p_rest(r) {
                    Some((ts, r2)) => Some((seq![t] + ts, r2)),
                    None => None,
                }
            } else {
                None
            },
            None => None,
        }
    } else {
        None
    }
}

/// Parse a whole document: a bracketed, comma-separated array of task
/// objects with nothing after it. This is the expected serialized form;
/// `None` is corruption.
pub open spec fn p_top(s: Seq<char>) -> Option<Seq<TaskView>> {
    if s.len() >= 2 && s[0] == '[' && s[1] == ']' {
        if s.len() == 2 {
            Some(Seq::empty())
        } else {
            None
        }
    } else if s.len() >= 1 && s[0] == '[' {
        match p_task(s.skip(1)) {
            Some((t, r)) => match p_rest(r) {
                Some((ts, r2)) => if r2.len() == 0 {
                    Some(seq![t] + ts)
                } else {
                    None
                },
                None => None,
            },
            None => None,
        }
    } else {
        None
    }
}

/// Escaping distributes over appending one character.
pub proof fn lemma_escape_snoc(s: Seq<char>, c: char)
    ensures
        escape_chars(s.push(c)) == escape_chars(s) + esc_char(c),
    decreases s.len(),
{
    if s.len() == 0 {
        let sp = s.push(c);
        assert(sp.len() == 1);
        assert(sp[0] == c);
        assert(sp.skip(1) =~= Seq::<char>::empty());
        assert(escape_chars(sp) == esc_char(c) + escape_chars(sp.skip(1)));
        assert(escape_chars(Seq::<char>::empty()) == Seq::<char>::empty());
        assert(escape_chars(s) == Seq::<char>::empty());
        assert(escape_chars(sp) =~= escape_chars(s) + esc_char(c));
    } else {
        let sp = s.push(c);
        assert(sp.len() == s.len() + 1);
        assert(sp[0] == s[0]);
        assert(sp.skip(1) =~= s.skip(1).push(c));
        assert(escape_chars(sp) == esc_char(sp[0]) + escape_chars(sp.skip(1)));
        lemma_escape_snoc(s.skip(1), c);
        assert(escape_chars(s) == esc_char(s[0]) + escape_chars(s.skip(1)));
        assert(escape_chars(sp) =~= escape_chars(s) + esc_char(c));
    }
}

/// Reading a string body back from its escaped form recovers the content
/// and leaves exactly what followed the closing quote.
pub proof fn lemma_p_string_round_trip(s: Seq<char>, rest: Seq<char>)
    ensures
        p_string(escape_chars(s) + seq!['"'] + rest) == Some((s, rest)),
    decreases s.len(),
{
    let inp = escape_chars(s) + seq!['"'] + rest;
    if s.len() == 0 {
        assert(inp =~= seq!['"'] + rest);
        assert(inp[0] == '"');
        assert(inp.skip(1) =~= rest);
        assert(s =~= Seq::<char>::empty());
    } else {
        let c = s[0];
        let tail = s.skip(1);
        lemma_p_string_round_trip(tail, rest);
        assert(escape_chars(s) == esc_char(c) + escape_chars(tail));
        if c == '"' || c == '\\' {
            assert(inp[0] == '\\');
            assert(inp.len() >= 2);
            assert(inp[1] == c);
            assert(inp.skip(2) =~= escape_chars(tail) + seq!['"'] + rest);
            assert(seq![c] + tail =~= s);
        } else {
            assert(inp[0] == c);
            assert(inp.skip(1) =~= escape_chars(tail) + seq!['"'] + rest);
            assert(seq![c] + tail =~= s);
        }
    }
}

/// Reading one task back from its written form recovers it exactly.
#[verifier::rlimit(100)]
pub proof fn lemma_p_task_round_trip(t: TaskView, rest: Seq<char>)
    requires
        task_wf(t),
    ensures
        p_task(task_chars(t) + rest) == Some((t, rest)),
{
    let inp = task_chars(t) + rest;
    let tail1 = lit_done_key() + bool_chars(t.done) + lit_due_key() + due_chars(t.due_date)
        + seq!['}'] + rest;
    assert(inp.take(16) =~= lit_task_open());
    assert(starts_with(inp, lit_task_open()));
    assert(inp.skip(16) =~= escape_chars(t.description) + seq!['"'] + tail1);
    lemma_p_string_round_trip(t.description, tail1);
    assert(p_string(inp.skip(16)) == Some((t.description, tail1)));
    assert(tail1.take(8) =~= lit_done_key());
    assert(starts_with(tail1, lit_done_key()));
    let r2 = tail1.skip(8);
    assert(r2 =~= bool_chars(t.done) + (lit_due_key() + due_chars(t.due_date) + seq!['}'] + rest));
    let r3 = lit_due_key() + due_chars(t.due_date) + seq!['}'] + rest;
    if t.done {
        assert(r2.take(4) =~= lit_true());
        assert(starts_with(r2, lit_true()));
        assert(r2.skip(4) =~= r3);
    } else {
        assert(r2[0] == 'f');
        if starts_with(r2, lit_true()) {
            assert(r2.take(4)[0] == r2[0]);
            assert(lit_true()[0] == 't');
            assert(false);
        }
        assert(r2.take(5) =~= lit_false());
        assert(starts_with(r2, lit_false()));
        assert(r2.skip(5) =~= r3);
    }
    assert(r3.take(12) =~= lit_due_key());
    assert(starts_with(r3, lit_due_key()));
    let r4 = r3.skip(12);
    assert(r4 =~= due_chars(t.due_date) + (seq!['}'] + rest));
    let r5 = seq!['}'] + rest;
    match t.due_date {
        None => {
            assert(r4.take(4) =~= lit_null());
            assert(starts_with(r4, lit_null()));
            assert(r4.skip(4) =~= r5);
        },
        Some(d) => {
            assert(due_chars(t.due_date) =~= seq!['"'] + date_chars(d) + seq!['"']);
            assert(r4[0] == '"');
            if starts_with(r4, lit_null()) {
                assert(r4.take(4)[0] == r4[0]);
                assert(lit_null()[0] == 'n');
                assert(false);
            }
            assert(r4.len() >= 12);
            assert(r4[11] == '"');
            assert(r4.subrange(1, 11) =~= date_chars(d));
            lemma_date_round_trip(d);
            assert(parse_date_seq(r4.subrange(1, 11)) == Some(d));
            assert(r4.skip(12) =~= r5);
        },
    }
    assert(r5[0] == '}');
    assert(r5.skip(1) =~= rest);
    assert(p_task(inp) == Some((t, rest)));
}

/// Reading the tail of the array back recovers the remaining tasks and
/// consumes the whole input.
proof fn lemma_p_rest_round_trip(ts: Seq<TaskView>)
    requires
        forall|i: int| 0 <= i < ts.len() ==> task_wf(#[trigger] ts[i]),
    ensures
        p_rest(rest_chars(ts)) == Some((ts, Seq::<char>::empty())),
    decreases ts.len(),
{
    if ts.len() == 0 {
        let inp = rest_chars(ts);
        assert(inp =~= seq![']']);
        assert(inp[0] == ']');
        assert(inp.skip(1) =~= Seq::<char>::empty());
        assert(ts =~= Seq::<TaskView>::empty());
    } else {
        let inp = rest_chars(ts);
        let rc1 = rest_chars(ts.skip(1));
        assert(inp == seq![','] + task_chars(ts[0]) + rc1);
        assert(inp[0] == ',');
        assert(inp[0] != ']');
        assert(inp.skip(1) =~= task_chars(ts[0]) + rc1);
        assert(task_wf(ts[0]));
        lemma_p_task_round_trip(ts[0], rc1);
        assert(p_task(inp.skip(1)) == Some((ts[0], rc1)));
        assert(rc1.len() < inp.len());
        assert(forall|i: int|
            0 <= i < ts.skip(1).len() ==> task_wf(#[trigger] ts.skip(1)[i]));
        lemma_p_rest_round_trip(ts.skip(1));
        assert(p_rest(rc1) == Some((ts.skip(1), Seq::<char>::empty())));
        assert(seq![ts[0]] + ts.skip(1) =~= ts);
    }
}

/// The round trip: for every well-formed collection, parsing the written
/// form yields the collection back — same order, same fields, same
/// due-date presence.
#[verifier::rlimit(100)]
pub proof fn lemma_round_trip(ts: Seq<TaskView>)
    requires
        forall|i: int| 0 <= i < ts.len() ==> task_wf(#[trigger] ts[i]),
    ensures
        p_top(tasks_chars(ts)) == Some(ts),
{
    let inp = tasks_chars(ts);
    if ts.len() == 0 {
        assert(inp =~= seq!['[', ']']);
        assert(inp[0] == '[' && inp[1] == ']' && inp.len() == 2);
        assert(ts =~= Seq::<TaskView>::empty());
    } else {
        let rc1 = rest_chars(ts.skip(1));
        assert(inp == seq!['['] + task_chars(ts[0]) + rc1);
        assert(inp[0] == '[');
        assert(task_chars(ts[0])[0] == '{');
        assert(inp[1] == '{');
        assert(inp.skip(1) =~= task_chars(ts[0]) + rc1);
        assert(task_wf(ts[0]));
        lemma_p_task_round_trip(ts[0], rc1);
        assert(forall|i: int|
            0 <= i < ts.skip(1).len() ==> task_wf(#[trigger] ts.skip(1)[i]));
        lemma_p_rest_round_trip(ts.skip(1));
        assert(seq![ts[0]] + ts.skip(1) =~= ts);
    }
}

} // verus!
