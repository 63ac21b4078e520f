//! Writing a task collection to its persisted text form and reading it
//! back. `save_tasks` produces exactly `tasks_chars` of the collection;
//! `load_tasks` accepts exactly what `p_top` accepts and treats anything
//! else as no data, returning an empty collection.

use vstd::prelude::*;
use crate::date::Date;
use crate::date::date_valid;
use crate::date::date_chars;
use crate::date::parse_date_chars;
use crate::task::Task;
use crate::task::TaskView;
use crate::task::task_wf;
use crate::task::task_views;
use crate::task::collection_wf;
use crate::codec::lit_task_open;
use crate::codec::lit_done_key;
use crate::codec::lit_due_key;
use crate::codec::lit_true;
use crate::codec::lit_false;
use crate::codec::lit_null;
use crate::codec::escape_chars;
use crate::codec::lemma_escape_snoc;
use crate::codec::due_chars;
use crate::codec::task_chars;
use crate::codec::rest_chars;
use crate::codec::tasks_chars;
use crate::codec::starts_with;
use crate::codec::p_string;
use crate::codec::p_task;
use crate::codec::p_rest;
use crate::codec::p_top;

verus! {

/// Relies on `String`'s collecting of an iterator of characters: the
/// resulting string holds exactly the characters of the vector, in order.
#[verifier::external_body]
fn chars_to_string(v: &Vec<char>) -> (r: String)
    ensures
        r@ == v@,
{
    v.iter().collect()
}

/// The characters of a string, as a vector.
fn str_chars(s: &str) -> (r: Vec<char>)
    ensures
        r@ == s@,
{
    let n = s.unicode_len();
    let mut r: Vec<char> = Vec::new();
    let mut i: usize = 0;
    while i < n
        invariant
            i <= n,
            n == s@.len(),
            r@ == s@.subrange(0, i as int),
        decreases n - i,
    {
        r.push(s.get_char(i));
        proof {
            assert(r@ =~= s@.subrange(0, i as int + 1));
        }
        i = i + 1;
    }
    proof {
        assert(r@ =~= s@);
    }
    r
}

fn lit_vec_task_open() -> (v: Vec<char>)
    ensures
        v@ == lit_task_open(),
{
    let mut v: Vec<char> = Vec::new();
    v.push('{');
    v.push('"');
    v.push('d');
    v.push('e');
    v.push('s');
    v.push('c');
    v.push('r');
    v.push('i');
    v.push('p');
    v.push('t');
    v.push('i');
    v.push('o');
    v.push('n');
    v.push('"');
    v.push(':');
    v.push('"');
    proof {
        assert(v@ =~= lit_task_open());
    }
    v
}

fn lit_vec_done_key() -> (v: Vec<char>)
    ensures
        v@ == lit_done_key(),
{
    let mut v: Vec<char> = Vec::new();
    v.push(',');
    v.push('"');
    v.push('d');
    v.push('o');
    v.push('n');
    v.push('e');
    v.push('"');
    v.push(':');
    proof {
        assert(v@ =~= lit_done_key());
    }
    v
}

fn lit_vec_due_key() -> (v: Vec<char>)
    ensures
        v@ == lit_due_key(),
{
    let mut v: Vec<char> = Vec::new();
    v.push(',');
    v.push('"');
    v.push('d');
    v.push('u');
    v.push('e');
    v.push('_');
    v.push('d');
    v.push('a');
    v.push('t');
    v.push('e');
    v.push('"');
    v.push(':');
    proof {
        assert(v@ =~= lit_due_key());
    }
    v
}

fn lit_vec_true() -> (v: Vec<char>)
    ensures
        v@ == lit_true(),
{
    let mut v: Vec<char> = Vec::new();
    v.push('t');
    v.push('r');
    v.push('u');
    v.push('e');
    proof {
        assert(v@ =~= lit_true());
    }
    v
}

fn lit_vec_false() -> (v: Vec<char>)
    ensures
        v@ == lit_false(),
{
    let mut v: Vec<char> = Vec::new();
    v.push('f');
    v.push('a');
    v.push('l');
    v.push('s');
    v.push('e');
    proof {
        assert(v@ =~= lit_false());
    }
    v
}

fn lit_vec_null() -> (v: Vec<char>)
    ensures
        v@ == lit_null(),
{
    let mut v: Vec<char> = Vec::new();
    v.push('n');
    v.push('u');
    v.push('l');
    v.push('l');
    proof {
        assert(v@ =~= lit_null());
    }
    v
}

fn push_all(out: &mut Vec<char>, v: &Vec<char>)
    ensures
        final(out)@ == old(out)@ + v@,
{
    let m = v.len();
    let mut k: usize = 0;
    while k < m
        invariant
            k <= m,
            m == v@.len(),
            out@ == old(out)@ + v@.subrange(0, k as int),
        decreases m - k,
    {
        out.push(v[k]);
        proof {
            assert(old(out)@ + v@.subrange(0, k as int + 1) =~= (old(out)@ + v@.subrange(
                0,
                k as int,
            )).push(v@[k as int]));
        }
        k = k + 1;
    }
    proof {
        assert(v@.subrange(0, m as int) =~= v@);
    }
}

/// Append the escaped form of a description.
fn push_escaped(out: &mut Vec<char>, s: &str)
    ensures
        final(out)@ == old(out)@ + escape_chars(s@),
{
    let n = s.unicode_len();
    let mut i: usize = 0;
    proof {
        assert(s@.subrange(0, 0) =~= Seq::<char>::empty());
        assert(out@ =~= old(out)@ + escape_chars(s@.subrange(0, 0)));
    }
    while i < n
        invariant
            i <= n,
            n == s@.len(),
            out@ == old(out)@ + escape_chars(s@.subrange(0, i as int)),
        decreases n - i,
    {
        let c = s.get_char(i);
        proof {
            lemma_escape_snoc(s@.subrange(0, i as int), c);
            assert(s@.subrange(0, i as int + 1) =~= s@.subrange(0, i as int).push(c));
        }
        if c == '"' || c == '\\' {
            out.push('\\');
            out.push(c);
        } else {
            out.push(c);
        }
        proof {
            assert(out@ =~= old(out)@ + escape_chars(s@.subrange(0, i as int + 1)));
        }
        i = i + 1;
    }
    proof {
        assert(s@.subrange(0, n as int) =~= s@);
    }
}

/// Append the ten characters of a date.
fn push_date(out: &mut Vec<char>, d: &Date)
    requires
        date_valid(*d),
    ensures
        final(out)@ == old(out)@ + date_chars(*d),
{
    proof {
        crate::date::lemma_year_digit_bounds(d.year as int);
        crate::date::lemma_two_digit_bounds(d.month as int);
        crate::date::lemma_two_digit_bounds(d.day as int);
    }
    let y = d.year;
    let m = d.month;
    let dd = d.day;
    out.push(crate::date::char_of_digit(y / 1000));
    out.push(crate::date::char_of_digit((y / 100) % 10));
    out.push(crate::date::char_of_digit((y / 10) % 10));
    out.push(crate::date::char_of_digit(y % 10));
    out.push('-');
    out.push(crate::date::char_of_digit(m / 10));
    out.push(crate::date::char_of_digit(m % 10));
    out.push('-');
    out.push(crate::date::char_of_digit(dd / 10));
    out.push(crate::date::char_of_digit(dd % 10));
    proof {
        assert(out@ =~= old(out)@ + date_chars(*d));
    }
}

/// Append the written form of one task.
fn push_task(out: &mut Vec<char>, t: &Task)
    requires
        task_wf(t@),
    ensures
        final(out)@ == old(out)@ + task_chars(t@),
{
    let open = lit_vec_task_open();
    push_all(out, &open);
    push_escaped(out, t.description.as_str());
    out.push('"');
    let donek = lit_vec_done_key();
    push_all(out, &donek);
    if t.done {
        let tl = lit_vec_true();
        push_all(out, &tl);
    } else {
        let fl = lit_vec_false();
        push_all(out, &fl);
    }
    let duek = lit_vec_due_key();
    push_all(out, &duek);
    match &t.due_date {
        None => {
            let nl = lit_vec_null();
            push_all(out, &nl);
        },
        Some(d) => {
            out.push('"');
            push_date(out, d);
            out.push('"');
            proof {
                assert(seq!['"'] + date_chars(t@.due_date->Some_0) + seq!['"'] =~= due_chars(
                    t@.due_date,
                ));
            }
        },
    }
    out.push('}');
    proof {
        assert(out@ =~= old(out)@ + task_chars(t@));
    }
}

/// Serialize the whole collection to its persisted text form: exactly the
/// characters of `tasks_chars`.
#[verifier::rlimit(100)]
pub fn save_tasks(tasks: &Vec<Task>) -> (r: String)
    requires
        collection_wf(tasks@),
    ensures
        r@ == tasks_chars(task_views(tasks@)),
{
    let ghost vs = task_views(tasks@);
    let mut out: Vec<char> = Vec::new();
    out.push('[');
    let n = tasks.len();
    if n == 0 {
        out.push(']');
        proof {
            assert(out@ =~= tasks_chars(vs));
        }
        return chars_to_string(&out);
    }
    push_task(&mut out, &tasks[0]);
    proof {
        assert(vs[0] == tasks@[0]@);
        assert(out@ =~= seq!['['] + task_chars(vs[0]));
        assert(tasks_chars(vs) == seq!['['] + task_chars(vs[0]) + rest_chars(vs.skip(1)));
        assert(out@ + rest_chars(vs.skip(1)) =~= tasks_chars(vs));
    }
    let mut i: usize = 1;
    while i < n
        invariant
            1 <= i <= n,
            n == tasks@.len(),
            vs == task_views(tasks@),
            collection_wf(tasks@),
            out@ + rest_chars(vs.skip(i as int)) == tasks_chars(vs),
        decreases n - i,
    {
        out.push(',');
        push_task(&mut out, &tasks[i]);
        proof {
            let tail = vs.skip(i as int);
            assert(tail.len() > 0);
            assert(tail[0] == vs[i as int]);
            assert(vs[i as int] == tasks@[i as int]@);
            assert(rest_chars(tail) == seq![','] + task_chars(tail[0]) + rest_chars(tail.skip(1)));
            assert(tail.skip(1) =~= vs.skip(i as int + 1));
            assert(out@ + rest_chars(vs.skip(i as int + 1)) =~= tasks_chars(vs));
        }
        i = i + 1;
    }
    out.push(']');
    proof {
        assert(vs.skip(n as int) =~= Seq::<TaskView>::empty());
        assert(rest_chars(vs.skip(n as int)) == seq![']']);
        assert(out@ =~= tasks_chars(vs));
    }
    chars_to_string(&out)
}

/// Does `s`, from position `i` on, begin with the pattern?
fn match_at(s: &Vec<char>, i: usize, pat: &Vec<char>) -> (b: bool)
    requires
        i <= s@.len(),
    ensures
        b == starts_with(s@.skip(i as int), pat@),
{
    let n = s.len();
    let m = pat.len();
    if m > n - i {
        proof {
            assert(s@.skip(i as int).len() < pat@.len());
        }
        return false;
    }
    let mut k: usize = 0;
    while k < m
        invariant
            k <= m,
            i + m <= n,
            n == s@.len(),
            m == pat@.len(),
            forall|q: int| 0 <= q < k ==> s@[i + q] == pat@[q],
        decreases m - k,
    {
        if s[i + k] != pat[k] {
            proof {
                if starts_with(s@.skip(i as int), pat@) {
                    assert(s@.skip(i as int).take(m as int)[k as int] == pat@[k as int]);
                    assert(s@.skip(i as int)[k as int] == s@[i + k]);
                    assert(false);
                }
            }
            return false;
        }
        k = k + 1;
    }
    proof {
        assert(s@.skip(i as int).take(m as int) =~= pat@);
    }
    true
}

/// Scan a string body beginning after its opening quote; yield the content
/// and the position after the closing quote.
fn scan_string(s: &Vec<char>, start: usize) -> (r: Option<(Vec<char>, usize)>)
    requires
        start <= s@.len(),
    ensures
        match r {
            Some(p) => start < p.1 <= s@.len() && p_string(s@.skip(start as int)) == Some(
                (p.0@, s@.skip(p.1 as int)),
            ),
            None => p_string(s@.skip(start as int)) is None,
        },
{
    let n = s.len();
    let mut i: usize = start;
    let mut content: Vec<char> = Vec::new();
    while i < n
        invariant
            start <= i <= n,
            n == s@.len(),
            match p_string(s@.skip(i as int)) {
                Some(p) => p_string(s@.skip(start as int)) == Some((content@ + p.0, p.1)),
                None => p_string(s@.skip(start as int)) is None,
            },
        decreases n - i,
    {
        let c = s[i];
        let ghost si = s@.skip(i as int);
        proof {
            assert(si.len() > 0);
            assert(si[0] == c);
        }
        if c == '"' {
            proof {
                assert(si.skip(1) =~= s@.skip(i as int + 1));
                assert(p_string(si) == Some((Seq::<char>::empty(), s@.skip(i as int + 1))));
                assert(content@ + Seq::<char>::empty() =~= content@);
            }
            return Some((content, i + 1));
        } else if c == '\\' {
            if i + 1 == n {
                proof {
                    assert(si.len() < 2);
                    assert(p_string(si) is None);
                }
                return None;
            }
            let c2 = s[i + 1];
            let ghost c0 = content@;
            content.push(c2);
            proof {
                assert(si[1] == c2);
                assert(si.skip(2) =~= s@.skip(i as int + 2));
                match p_string(s@.skip(i as int + 2)) {
                    Some(p) => {
                        assert(p_string(si) == Some((seq![c2] + p.0, p.1)));
                        assert(c0 + (seq![c2] + p.0) =~= content@ + p.0);
                    },
                    None => {
                        assert(p_string(si) is None);
                    },
                }
            }
            i = i + 2;
        } else {
            let ghost c0 = content@;
            content.push(c);
            proof {
                assert(si.skip(1) =~= s@.skip(i as int + 1));
                match p_string(s@.skip(i as int + 1)) {
                    Some(p) => {
                        assert(p_string(si) == Some((seq![c] + p.0, p.1)));
                        assert(c0 + (seq![c] + p.0) =~= content@ + p.0);
                    },
                    None => {
                        assert(p_string(si) is None);
                    },
                }
            }
            i = i + 1;
        }
    }
    proof {
        assert(s@.skip(i as int) =~= Seq::<char>::empty());
        assert(p_string(s@.skip(i as int)) is None);
    }
    None
}

/// Parse one task object beginning at `start`; yield the task and the
/// position after its closing brace.
#[verifier::rlimit(100)]
fn parse_task_at(s: &Vec<char>, start: usize) -> (r: Option<(Task, usize)>)
    requires
        start <= s@.len(),
    ensures
        match r {
            Some(p) => start < p.1 <= s@.len() && task_wf(p.0@) && p_task(s@.skip(start as int))
                == Some((p.0@, s@.skip(p.1 as int))),
            None => p_task(s@.skip(start as int)) is None,
        },
{
    let ghost sp = s@.skip(start as int);
    let n = s.len();
    let open = lit_vec_task_open();
    if !match_at(s, start, &open) {
        return None;
    }
    proof {
        assert(start + 16 <= n);
        assert(sp.skip(16) =~= s@.skip(start as int + 16));
    }
    let scanned = match scan_string(s, start + 16) {
        Some(p) => p,
        None => {
            return None;
        },
    };
    let (desc_chars, j1) = scanned;
    proof {
        assert(p_string(sp.skip(16)) == Some((desc_chars@, s@.skip(j1 as int))));
    }
    let donek = lit_vec_done_key();
    if !match_at(s, j1, &donek) {
        return None;
    }
    proof {
        assert(j1 + 8 <= n);
        assert(s@.skip(j1 as int).skip(8) =~= s@.skip(j1 as int + 8));
    }
    let j2 = j1 + 8;
    let tl = lit_vec_true();
    let fl = lit_vec_false();
    let done: bool;
    let j3: usize;
    if match_at(s, j2, &tl) {
        done = true;
        j3 = j2 + 4;
        proof {
            assert(j3 <= n);
            assert(s@.skip(j2 as int).skip(4) =~= s@.skip(j2 as int + 4));
        }
    } else if match_at(s, j2, &fl) {
        done = false;
        j3 = j2 + 5;
        proof {
            assert(j3 <= n);
            assert(s@.skip(j2 as int).skip(5) =~= s@.skip(j2 as int + 5));
        }
    } else {
        return None;
    }
    let duek = lit_vec_due_key();
    if !match_at(s, j3, &duek) {
        return None;
    }
    proof {
        assert(j3 + 12 <= n);
        assert(s@.skip(j3 as int).skip(12) =~= s@.skip(j3 as int + 12));
    }
    let j4 = j3 + 12;
    let ghost r4 = s@.skip(j4 as int);
    let nl = lit_vec_null();
    let due: Option<Date>;
    let j5: usize;
    if match_at(s, j4, &nl) {
        due = None;
        j5 = j4 + 4;
        proof {
            assert(j5 <= n);
            assert(r4.skip(4) =~= s@.skip(j4 as int + 4));
        }
    } else if n - j4 >= 12 && s[j4] == '"' && s[j4 + 11] == '"' {
        proof {
            assert(r4.len() >= 12);
            assert(r4[0] == '"');
            assert(r4[11] == '"');
            assert(r4.subrange(1, 11) =~= s@.subrange(j4 as int + 1, j4 as int + 11));
        }
        match parse_date_chars(s, j4 + 1) {
            Some(d) => {
                due = Some(d);
                j5 = j4 + 12;
                proof {
                    assert(r4.skip(12) =~= s@.skip(j4 as int + 12));
                }
            },
            None => {
                return None;
            },
        }
    } else {
        proof {
            if r4.len() >= 12 {
                assert(r4[0] == s@[j4 as int]);
                assert(r4[11] == s@[j4 as int + 11]);
            }
        }
        return None;
    }
    if j5 < n {
        let cb = s[j5];
        if cb == '}' {
            proof {
                assert(s@.skip(j5 as int)[0] == '}');
                assert(s@.skip(j5 as int).skip(1) =~= s@.skip(j5 as int + 1));
            }
            let description = chars_to_string(&desc_chars);
            let t = Task { description, done, due_date: due };
            proof {
                assert(t@ == (TaskView { description: desc_chars@, done, due_date: due }));
                assert(p_task(sp) == Some((t@, s@.skip(j5 as int + 1))));
            }
            return Some((t, j5 + 1));
        }
        proof {
            assert(s@.skip(j5 as int)[0] == cb);
        }
        return None;
    }
    proof {
        assert(s@.skip(j5 as int).len() == 0);
    }
    None
}

/// Read a collection back from its persisted text. Exactly the expected
/// serialized form is accepted; a missing or corrupt document is treated
/// as no data and yields an empty collection.
#[verifier::rlimit(100)]
pub fn load_tasks(data: &str) -> (r: Vec<Task>)
    ensures
        match p_top(data@) {
            Some(ts) => task_views(r@) == ts,
            None => r@.len() == 0,
        },
        collection_wf(r@),
{
    let cs = str_chars(data);
    let n = cs.len();
    if n == 0 {
        return Vec::new();
    }
    if cs[0] != '[' {
        return Vec::new();
    }
    if n >= 2 && cs[1] == ']' {
        if n == 2 {
            let r: Vec<Task> = Vec::new();
            proof {
                assert(p_top(data@) == Some(Seq::<TaskView>::empty()));
                assert(task_views(r@) =~= Seq::<TaskView>::empty());
            }
            return r;
        } else {
            return Vec::new();
        }
    }
    let parsed_first = match parse_task_at(&cs, 1) {
        None => {
            proof {
                assert(p_task(data@.skip(1)) is None);
                assert(p_top(data@) is None);
            }
            return Vec::new();
        },
        Some(p) => p,
    };
    let (t0, j0) = parsed_first;
    let ghost t0v = t0@;
    let mut acc: Vec<Task> = Vec::new();
    acc.push(t0);
    proof {
        assert(task_views(acc@).skip(1) =~= Seq::<TaskView>::empty());
        match p_rest(data@.skip(j0 as int)) {
            Some(p) => {
                assert(task_views(acc@).skip(1) + p.0 =~= p.0);
            },
            None => {},
        }
    }
    let mut i: usize = j0;
    loop
        invariant
            j0 <= i <= n,
            1 <= j0 <= n,
            n == cs@.len(),
            cs@ == data@,
            acc@.len() >= 1,
            acc@[0]@ == t0v,
            collection_wf(acc@),
            p_task(data@.skip(1)) == Some((t0v, data@.skip(j0 as int))),
            data@[0] == '[',
            !(n >= 2 && data@[1] == ']'),
            match p_rest(data@.skip(i as int)) {
                Some(p) => p_rest(data@.skip(j0 as int)) == Some(
                    (task_views(acc@).skip(1) + p.0, p.1),
                ),
                None => p_rest(data@.skip(j0 as int)) is None,
            },
        decreases n - i,
    {
        if i >= n {
            proof {
                assert(data@.skip(i as int) =~= Seq::<char>::empty());
                assert(p_rest(data@.skip(i as int)) is None);
                assert(p_top(data@) is None);
            }
            return Vec::new();
        }
        let c = cs[i];
        proof {
            assert(data@.skip(i as int)[0] == c);
        }
        if c == ']' {
            proof {
                assert(data@.skip(i as int).skip(1) =~= data@.skip(i as int + 1));
                assert(p_rest(data@.skip(i as int)) == Some(
                    (Seq::<TaskView>::empty(), data@.skip(i as int + 1)),
                ));
            }
            if i + 1 == n {
                proof {
                    assert(data@.skip(i as int + 1).len() == 0);
                    assert(task_views(acc@).skip(1) + Seq::<TaskView>::empty() =~= task_views(
                        acc@,
                    ).skip(1));
                    assert(seq![t0v] + task_views(acc@).skip(1) =~= task_views(acc@));
                    assert(p_top(data@) == Some(task_views(acc@)));
                }
                return acc;
            } else {
                proof {
                    assert(data@.skip(i as int + 1).len() > 0);
                    assert(p_top(data@) is None);
                }
                return Vec::new();
            }
        } else if c == ',' {
            proof {
                assert(data@.skip(i as int).skip(1) =~= data@.skip(i as int + 1));
            }
            match parse_task_at(&cs, i + 1) {
                None => {
                    proof {
                        assert(p_task(data@.skip(i as int + 1)) is None);
                        assert(p_rest(data@.skip(i as int)) is None);
                        assert(p_top(data@) is None);
                    }
                    return Vec::new();
                },
                Some(p) => {
                    let (t, j2) = p;
                    let ghost acc0 = acc@;
                    acc.push(t);
                    proof {
                        assert(p_task(data@.skip(i as int + 1)) == Some(
                            (t@, data@.skip(j2 as int)),
                        ));
                        assert(data@.skip(j2 as int).len() < data@.skip(i as int).len());
                        assert(task_views(acc@).skip(1) =~= task_views(acc0).skip(1).push(t@));
                        match p_rest(data@.skip(j2 as int)) {
                            Some(q) => {
                                assert(p_rest(data@.skip(i as int)) == Some(
                                    (seq![t@] + q.0, q.1),
                                ));
                                assert(task_views(acc0).skip(1) + (seq![t@] + q.0)
                                    =~= task_views(acc@).skip(1) + q.0);
                            },
                            None => {
                                assert(p_rest(data@.skip(i as int)) is None);
                            },
                        }
                        assert forall|q: int| 0 <= q < acc@.len() implies task_wf(
                            #[trigger] acc@[q]@,
                        ) by {
                            if q < acc0.len() {
                                assert(acc@[q] == acc0[q]);
                            } else {
                                assert(acc@[q] == t);
                            }
                        }
                        assert(acc@[0]@ == t0v);
                    }
                    i = j2;
                },
            }
        } else {
            proof {
                assert(c != ']' && c != ',');
                assert(p_rest(data@.skip(i as int)) is None);
                assert(p_top(data@) is None);
            }
            return Vec::new();
        }
    }
}

} // verus!
