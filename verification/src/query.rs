//! Display-only queries over the collection: `list_tasks` orders tasks for
//! display (dated before undated, dated ascending, ties in collection
//! order) without touching the stored order, each record keeping its
//! original 1-based position; `search_tasks` finds case-insensitive
//! substring matches of a keyword in the descriptions, in collection order.

use vstd::prelude::*;
use vstd::seq_lib::lemma_multiset_commutative;
use vstd::multiset::Multiset;
use vstd::seq_lib::group_to_multiset_ensures;
use crate::date::Date;
use crate::task::Task;
use crate::task::TaskView;
use crate::task::task_views;

verus! {

/// One line of the listing: the task's fields and its 1-based position in
/// the stored collection (not its display position).
#[derive(Debug, Clone, PartialEq)]
pub struct RenderItem {
    pub index: usize,
    pub description: String,
    pub done: bool,
    pub due_date: Option<Date>,
}

/// The mathematical content of a render record.
pub struct RenderItemView {
    pub index: int,
    pub description: Seq<char>,
    pub done: bool,
    pub due_date: Option<Date>,
}

impl View for RenderItem {
    type V = RenderItemView;

    open spec fn view(&self) -> RenderItemView {
        RenderItemView {
            index: self.index as int,
            description: self.description@,
            done: self.done,
            due_date: self.due_date,
        }
    }
}

pub open spec fn render_views(s: Seq<RenderItem>) -> Seq<RenderItemView> {
    s.map_values(|r: RenderItem| r@)
}

/// The render records of a collection, in stored order: position `i` holds
/// index `i + 1` and the fields of task `i`.
pub open spec fn records(ts: Seq<TaskView>) -> Seq<RenderItemView> {
    Seq::new(
        ts.len(),
        |i: int|
            RenderItemView {
                index: i + 1,
                description: ts[i].description,
                done: ts[i].done,
                due_date: ts[i].due_date,
            },
    )
}

/// The display rank of a due date: dated tasks rank by their date, undated
/// tasks rank after every date a task can carry.
pub open spec fn date_rank(od: Option<Date>) -> int {
    match od {
        Some(d) => d.year * 10000 + d.month * 100 + d.day,
        None => 100_000_000_000_000,
    }
}

/// The display order: earlier rank first, ties resolved by the original
/// position, so the order is stable.
pub open spec fn render_le(a: RenderItemView, b: RenderItemView) -> bool {
    ||| date_rank(a.due_date) < date_rank(b.due_date)
    ||| (date_rank(a.due_date) == date_rank(b.due_date) && a.index <= b.index)
}

pub open spec fn sorted_records(s: Seq<RenderItemView>) -> bool {
    forall|i: int, j: int| 0 <= i < j < s.len() ==> render_le(s[i], s[j])
}

fn rank_of(od: &Option<Date>) -> (r: u64)
    ensures
        r == date_rank(*od),
{
    match od {
        Some(d) => (d.year as u64) * 10000 + (d.month as u64) * 100 + (d.day as u64),
        None => 100_000_000_000_000u64,
    }
}

fn render_le_exec(a: &RenderItem, b: &RenderItem) -> (r: bool)
    ensures
        r == render_le(a@, b@),
{
    let ra = rank_of(&a.due_date);
    let rb = rank_of(&b.due_date);
    ra < rb || (ra == rb && a.index <= b.index)
}

/// A sequence with one record inserted carries the old records and the new
/// one, as a multiset.
proof fn lemma_insert_multiset(s: Seq<RenderItemView>, k: int, a: RenderItemView)
    requires
        0 <= k <= s.len(),
    ensures
        s.insert(k, a).to_multiset() =~= s.to_multiset().insert(a),
{
    broadcast use group_to_multiset_ensures;

    assert(s.insert(k, a) =~= s.take(k) + (seq![a] + s.skip(k)));
    lemma_multiset_commutative(s.take(k), seq![a] + s.skip(k));
    lemma_multiset_commutative(seq![a], s.skip(k));
    assert(s =~= s.take(k) + s.skip(k));
    lemma_multiset_commutative(s.take(k), s.skip(k));
    assert(Seq::<RenderItemView>::empty().push(a) =~= seq![a]);
    assert(seq![a].to_multiset() =~= Seq::<RenderItemView>::empty().to_multiset().insert(a));
    assert(Seq::<RenderItemView>::empty().to_multiset() =~= Multiset::<RenderItemView>::empty());
}

/// Insert one record at its display position, keeping the records sorted.
/// When the record belongs after everything present, it is appended, so a
/// run of appends leaves the order untouched.
fn sorted_insert(out: &mut Vec<RenderItem>, item: RenderItem)
    requires
        sorted_records(render_views(old(out)@)),
    ensures
        sorted_records(render_views(final(out)@)),
        render_views(final(out)@).to_multiset() == render_views(old(out)@).to_multiset().insert(
            item@,
        ),
        (forall|q: int|
            0 <= q < old(out)@.len() ==> render_le(
                #[trigger] render_views(old(out)@)[q],
                item@,
            )) ==> final(out)@ == old(out)@.push(item),
{
    let n = out.len();
    let mut k: usize = 0;
    let mut scanning = true;
    while scanning && k < n
        invariant
            k <= n,
            n == out@.len(),
            out@ == old(out)@,
            sorted_records(render_views(out@)),
            forall|q: int| 0 <= q < k ==> render_le(#[trigger] render_views(out@)[q], item@),
            !scanning ==> k < n && !render_le(render_views(out@)[k as int], item@),
        decreases n - k + (if scanning { 1int } else { 0int }),
    {
        if render_le_exec(&out[k], &item) {
            k = k + 1;
        } else {
            scanning = false;
        }
    }
    let ghost pre = render_views(out@);
    out.insert(k, item);
    proof {
        let post = render_views(out@);
        assert(post =~= pre.insert(k as int, item@));
        pre.insert_ensures(k as int, item@);
        lemma_insert_multiset(pre, k as int, item@);
        assert forall|i: int, j: int| 0 <= i < j < post.len() implies render_le(
            post[i],
            post[j],
        ) by {
            if j < k {
                assert(post[i] == pre[i] && post[j] == pre[j]);
            } else if i < k && j == k {
                assert(post[i] == pre[i]);
                assert(render_le(pre[i], item@));
            } else if i < k && j > k {
                assert(post[i] == pre[i] && post[j] == pre[j - 1]);
            } else if i == k && j > k {
                assert(post[j] == pre[j - 1]);
                if k < pre.len() {
                    assert(!render_le(pre[k as int], item@));
                    assert(render_le(item@, pre[k as int]));
                    assert((k as int) <= j - 1 < pre.len());
                    if (k as int) < j - 1 {
                        assert(render_le(pre[k as int], pre[j - 1]));
                    }
                }
            } else {
                assert(post[i] == pre[i - 1] && post[j] == pre[j - 1]);
            }
        }
        if forall|q: int| 0 <= q < pre.len() ==> render_le(#[trigger] pre[q], item@) {
            assert(k == n);
            assert(out@ =~= old(out)@.push(item));
        }
    }
}

/// The render records of the collection in display order: a permutation of
/// the stored records, sorted for display, and — when no task carries a
/// due date — exactly the stored records in append order.
pub fn list_tasks(tasks: &Vec<Task>) -> (r: Vec<RenderItem>)
    ensures
        render_views(r@).to_multiset() == records(task_views(tasks@)).to_multiset(),
        sorted_records(render_views(r@)),
        (forall|k: int| 0 <= k < tasks@.len() ==> (#[trigger] tasks@[k]@.due_date) is None)
            ==> render_views(r@) == records(task_views(tasks@)),
{
    broadcast use group_to_multiset_ensures;

    let ghost vs = task_views(tasks@);
    let ghost recs = records(vs);
    let ghost all_undated = forall|k: int|
        0 <= k < tasks@.len() ==> (#[trigger] tasks@[k]@.due_date) is None;
    let mut out: Vec<RenderItem> = Vec::new();
    let n = tasks.len();
    let mut i: usize = 0;
    proof {
        assert(render_views(out@) =~= Seq::<RenderItemView>::empty());
        assert(recs.subrange(0, 0) =~= Seq::<RenderItemView>::empty());
        assert(Seq::<RenderItemView>::empty().to_multiset() =~= Multiset::<
            RenderItemView,
        >::empty());
    }
    while i < n
        invariant
            i <= n,
            n == tasks@.len(),
            vs == task_views(tasks@),
            recs == records(vs),
            all_undated == (forall|k: int|
                0 <= k < tasks@.len() ==> (#[trigger] tasks@[k]@.due_date) is None),
            render_views(out@).to_multiset() == recs.subrange(0, i as int).to_multiset(),
            sorted_records(render_views(out@)),
            all_undated ==> render_views(out@) == recs.subrange(0, i as int),
        decreases n - i,
    {
        let t = &tasks[i];
        let item = RenderItem {
            index: i + 1,
            description: t.description.clone(),
            done: t.done,
            due_date: t.due_date,
        };
        proof {
            assert(item@ == recs[i as int]);
        }
        let ghost pre = render_views(out@);
        proof {
            if all_undated {
                assert forall|q: int| 0 <= q < out@.len() implies render_le(
                    #[trigger] render_views(out@)[q],
                    item@,
                ) by {
                    assert(render_views(out@)[q] == recs.subrange(0, i as int)[q]);
                    assert(recs[q].due_date == vs[q].due_date);
                    assert(vs[q].due_date == tasks@[q]@.due_date);
                    assert(tasks@[i as int]@.due_date is None);
                }
            }
        }
        sorted_insert(&mut out, item);
        proof {
            assert(recs.subrange(0, i as int + 1) =~= recs.subrange(0, i as int).push(
                recs[i as int],
            ));
            vstd::seq_lib::to_multiset_build(recs.subrange(0, i as int), recs[i as int]);
            assert(recs.subrange(0, i as int).push(recs[i as int]).to_multiset()
                =~= recs.subrange(0, i as int).to_multiset().insert(recs[i as int]));
            if all_undated {
                assert(render_views(out@) =~= pre.push(item@));
                assert(render_views(out@) =~= recs.subrange(0, i as int + 1));
            }
        }
        i = i + 1;
    }
    proof {
        assert(recs.subrange(0, n as int) =~= recs);
    }
    out
}

/// What `str::to_lowercase` returns for a given character sequence: the
/// result depends on the characters alone.
pub uninterp spec fn lower_of(s: Seq<char>) -> Seq<char>;

/// Relies on `str::to_lowercase`: the returned string is the lowercase
/// equivalent of the input, a function of the input's characters alone,
/// and empty input stays empty.
#[verifier::external_body]
fn lowercase(s: &str) -> (r: String)
    ensures
        r@ == lower_of(s@),
        s@.len() == 0 ==> r@.len() == 0,
{
    s.to_lowercase()
}

/// The pattern occurs in `t` at position `j`.
pub open spec fn contains_at(t: Seq<char>, k: Seq<char>, j: int) -> bool {
    0 <= j && j + k.len() <= t.len() && t.subrange(j, j + k.len()) == k
}

/// The pattern occurs somewhere in `t`.
pub open spec fn contains_sub(t: Seq<char>, k: Seq<char>) -> bool {
    exists|j: int| contains_at(t, k, j)
}

fn match_str_at(text: &str, pattern: &str, j: usize) -> (b: bool)
    requires
        j + pattern@.len() <= text@.len(),
    ensures
        b == (text@.subrange(j as int, j as int + pattern@.len()) == pattern@),
{
    let m = pattern.unicode_len();
    let n = text.unicode_len();
    let mut k: usize = 0;
    while k < m
        invariant
            k <= m,
            m == pattern@.len(),
            n == text@.len(),
            j + m <= text@.len(),
            forall|q: int| 0 <= q < k ==> text@[j + q] == pattern@[q],
        decreases m - k,
    {
        if text.get_char(j + k) != pattern.get_char(k) {
            proof {
                if text@.subrange(j as int, j as int + m) == pattern@ {
                    assert(text@.subrange(j as int, j as int + m)[k as int] == pattern@[k as int]);
                    assert(false);
                }
            }
            return false;
        }
        k = k + 1;
    }
    proof {
        assert(text@.subrange(j as int, j as int + m) =~= pattern@);
    }
    true
}

/// Does the pattern occur in the text as a contiguous substring? This is
/// the whole of the match decision once both sides are in lowercase form.
pub fn matches_keyword(text: &str, pattern: &str) -> (r: bool)
    ensures
        r == contains_sub(text@, pattern@),
{
    let n = text.unicode_len();
    let m = pattern.unicode_len();
    if m > n {
        proof {
            assert forall|j: int| !contains_at(text@, pattern@, j) by {}
        }
        return false;
    }
    let mut j: usize = 0;
    while j <= n - m
        invariant
            m <= n,
            n == text@.len(),
            m == pattern@.len(),
            j <= n - m + 1,
            forall|q: int| 0 <= q < j ==> !contains_at(text@, pattern@, q),
        decreases n - m - j + 1,
    {
        if match_str_at(text, pattern, j) {
            proof {
                assert(contains_at(text@, pattern@, j as int));
            }
            return true;
        }
        proof {
            if m == 0 {
                assert(text@.subrange(j as int, j as int) =~= pattern@);
                assert(false);
            }
        }
        j = j + 1;
    }
    proof {
        assert forall|q: int| !contains_at(text@, pattern@, q) by {
            if 0 <= q && q + m <= n {
                assert(q < j);
            }
        }
    }
    false
}

/// One search result: the matching task and its 1-based position in the
/// stored collection.
#[derive(Debug, Clone, PartialEq)]
pub struct SearchHit {
    pub index: usize,
    pub task: Task,
}

/// The mathematical content of a search result.
pub struct SearchHitView {
    pub index: int,
    pub task: TaskView,
}

impl View for SearchHit {
    type V = SearchHitView;

    open spec fn view(&self) -> SearchHitView {
        SearchHitView { index: self.index as int, task: self.task@ }
    }
}

pub open spec fn hit_views(s: Seq<SearchHit>) -> Seq<SearchHitView> {
    s.map_values(|h: SearchHit| h@)
}

/// The search results among the first `upto` tasks, in stored order: task
/// `i` is a hit when the lowercase keyword occurs in its lowercase
/// description.
pub open spec fn search_hits(ts: Seq<TaskView>, kw_lower: Seq<char>, upto: int) -> Seq<
    SearchHitView,
>
    decreases upto,
{
    if upto <= 0 {
        Seq::empty()
    } else {
        search_hits(ts, kw_lower, upto - 1) + (if contains_sub(
            lower_of(ts[upto - 1].description),
            kw_lower,
        ) {
            seq![SearchHitView { index: upto, task: ts[upto - 1] }]
        } else {
            Seq::empty()
        })
    }
}

/// Case-insensitive substring search over the descriptions: exactly the
/// tasks whose lowercase description holds the lowercase keyword, in
/// stored order, each with its original 1-based position.
pub fn search_tasks(tasks: &Vec<Task>, keyword: &str) -> (r: Vec<SearchHit>)
    ensures
        hit_views(r@) == search_hits(task_views(tasks@), lower_of(keyword@), tasks@.len() as int),
{
    let ghost vs = task_views(tasks@);
    let ghost kwl = lower_of(keyword@);
    let kw = lowercase(keyword);
    let mut out: Vec<SearchHit> = Vec::new();
    let n = tasks.len();
    let mut i: usize = 0;
    proof {
        assert(hit_views(out@) =~= search_hits(vs, kwl, 0));
    }
    while i < n
        invariant
            i <= n,
            n == tasks@.len(),
            vs == task_views(tasks@),
            kwl == lower_of(keyword@),
            kw@ == kwl,
            hit_views(out@) == search_hits(vs, kwl, i as int),
        decreases n - i,
    {
        let t = &tasks[i];
        let dl = lowercase(t.description.as_str());
        let ghost pre = hit_views(out@);
        if matches_keyword(dl.as_str(), kw.as_str()) {
            let hit = SearchHit {
                index: i + 1,
                task: Task {
                    description: t.description.clone(),
                    done: t.done,
                    due_date: t.due_date,
                },
            };
            out.push(hit);
            proof {
                assert(hit_views(out@) =~= pre.push(
                    SearchHitView { index: i as int + 1, task: vs[i as int] },
                ));
                assert(contains_sub(lower_of(vs[i as int].description), kwl));
                assert(hit_views(out@) =~= search_hits(vs, kwl, i as int + 1));
            }
        } else {
            proof {
                assert(!contains_sub(lower_of(vs[i as int].description), kwl));
                assert(search_hits(vs, kwl, i as int + 1) =~= search_hits(vs, kwl, i as int));
            }
        }
        i = i + 1;
    }
    out
}

} // verus!
