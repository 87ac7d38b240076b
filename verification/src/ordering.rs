use vstd::prelude::*;
use vstd::relations::sorted_by;

use crate::lexord::{lemma_lex_antisym, lemma_lex_total, lemma_lex_trans, lex_le, lex_lt, str_eq,
    str_lex_le};
use crate::models::{IdeaRow, IdeaRowModel, Prompt, PromptModel, TaskRow, TaskRowModel};
use crate::seqfacts::{lemma_sorted_insert, lemma_to_multiset_insert};

verus! {

// ---------------------------------------------------------------------------
// The orders the queries present their rows in.
// ---------------------------------------------------------------------------

/// Range queries list ideas by date descending, newest creation first
/// within a date.
pub open spec fn idea_row_before(a: IdeaRowModel, b: IdeaRowModel) -> bool {
    lex_lt(b.date, a.date) || (a.date == b.date && a.created_at >= b.created_at)
}

/// `idea_row_before` as a relation value.
pub open spec fn idea_row_order() -> spec_fn(IdeaRowModel, IdeaRowModel) -> bool {
    |a: IdeaRowModel, b: IdeaRowModel| idea_row_before(a, b)
}

/// Range queries list tasks by date descending, latest start first
/// within a date.
pub open spec fn task_row_before(a: TaskRowModel, b: TaskRowModel) -> bool {
    lex_lt(b.date, a.date) || (a.date == b.date && a.start_time >= b.start_time)
}

/// `task_row_before` as a relation value.
pub open spec fn task_row_order() -> spec_fn(TaskRowModel, TaskRowModel) -> bool {
    |a: TaskRowModel, b: TaskRowModel| task_row_before(a, b)
}

/// The day view lists tasks chronologically by start time.
pub open spec fn task_start_order() -> spec_fn(TaskRowModel, TaskRowModel) -> bool {
    |a: TaskRowModel, b: TaskRowModel| a.start_time <= b.start_time
}

/// Prompt listings put the most recently updated first.
pub open spec fn prompt_order() -> spec_fn(PromptModel, PromptModel) -> bool {
    |a: PromptModel, b: PromptModel| a.updated_at >= b.updated_at
}

/// `idea_row_before` relates every pair one way or the other.
pub proof fn lemma_idea_order_total(a: IdeaRowModel, b: IdeaRowModel)
    ensures
        idea_row_before(a, b) || idea_row_before(b, a),
{
    lemma_lex_total(a.date, b.date);
}

/// `idea_row_before` is transitive.
pub proof fn lemma_idea_order_trans(a: IdeaRowModel, b: IdeaRowModel, c: IdeaRowModel)
    requires
        idea_row_before(a, b),
        idea_row_before(b, c),
    ensures
        idea_row_before(a, c),
{
    if lex_lt(b.date, a.date) && lex_lt(c.date, b.date) {
        lemma_lex_trans(c.date, b.date, a.date);
        if c.date == a.date {
            lemma_lex_antisym(a.date, b.date);
        }
    }
}

/// `task_row_before` relates every pair one way or the other.
pub proof fn lemma_task_order_total(a: TaskRowModel, b: TaskRowModel)
    ensures
        task_row_before(a, b) || task_row_before(b, a),
{
    lemma_lex_total(a.date, b.date);
}

/// `task_row_before` is transitive.
pub proof fn lemma_task_order_trans(a: TaskRowModel, b: TaskRowModel, c: TaskRowModel)
    requires
        task_row_before(a, b),
        task_row_before(b, c),
    ensures
        task_row_before(a, c),
{
    if lex_lt(b.date, a.date) && lex_lt(c.date, b.date) {
        lemma_lex_trans(c.date, b.date, a.date);
        if c.date == a.date {
            lemma_lex_antisym(a.date, b.date);
        }
    }
}

// ---------------------------------------------------------------------------
// Executable comparators.
// ---------------------------------------------------------------------------

fn idea_cmp_before(a: &IdeaRow, b: &IdeaRow) -> (r: bool)
    ensures
        r == idea_row_before(a@, b@),
{
    if str_eq(b.date.as_str(), a.date.as_str()) {
        a.created_at >= b.created_at
    } else {
        str_lex_le(b.date.as_str(), a.date.as_str())
    }
}

fn task_cmp_before(a: &TaskRow, b: &TaskRow) -> (r: bool)
    ensures
        r == task_row_before(a@, b@),
{
    if str_eq(b.date.as_str(), a.date.as_str()) {
        a.start_time >= b.start_time
    } else {
        str_lex_le(b.date.as_str(), a.date.as_str())
    }
}

// ---------------------------------------------------------------------------
// Insertion sorts: each returns the same rows (as a multiset), sorted.
// ---------------------------------------------------------------------------

/// Sorts idea rows by date descending, then creation time descending.
pub(crate) fn sort_ideas_desc(v: Vec<IdeaRow>) -> (r: Vec<IdeaRow>)
    ensures
        r.deep_view().to_multiset() == v.deep_view().to_multiset(),
        sorted_by(r.deep_view(), idea_row_order()),
{
    let ghost source = v.deep_view();
    let mut out: Vec<IdeaRow> = Vec::new();
    let mut i: usize = 0;
    proof {
        assert(out.deep_view() =~= Seq::<IdeaRowModel>::empty());
        assert(source.take(0) =~= Seq::<IdeaRowModel>::empty());
    }
    while i < v.len()
        invariant
            i <= v.len(),
            source == v.deep_view(),
            source.len() == v.len(),
            out.deep_view().to_multiset() == source.take(i as int).to_multiset(),
            sorted_by(out.deep_view(), idea_row_order()),
        decreases v.len() - i,
    {
        let x = v[i].clone();
        proof {
            assert(x@ == source[i as int]);
        }
        let ghost odv = out.deep_view();
        let mut j: usize = 0;
        while j < out.len() && idea_cmp_before(&out[j], &x)
            invariant
                j <= out.len(),
                odv == out.deep_view(),
                x@ == source[i as int],
                forall|k: int| 0 <= k < j ==> idea_row_before(#[trigger] odv[k], x@),
            decreases out.len() - j,
        {
            proof {
                assert(odv[j as int] == out@[j as int]@);
            }
            j = j + 1;
        }
        proof {
            if j < out.len() {
                assert(odv[j as int] == out@[j as int]@);
                lemma_idea_order_total(odv[j as int], x@);
                assert(idea_row_before(x@, odv[j as int]));
            }
            assert forall|a: IdeaRowModel, b: IdeaRowModel, c: IdeaRowModel| #[trigger]
                idea_row_before(a, b) && #[trigger] idea_row_before(b, c) implies idea_row_before(
                a,
                c,
            ) by {
                lemma_idea_order_trans(a, b, c);
            }
            lemma_sorted_insert(odv, j as int, x@, idea_row_order());
            lemma_to_multiset_insert(odv, j as int, x@);
        }
        let ghost opre = out@;
        out.insert(j, x);
        proof {
            opre.insert_ensures(j as int, x);
            odv.insert_ensures(j as int, x@);
            assert(out.deep_view() =~= odv.insert(j as int, x@));
            assert(source.take(i as int + 1) =~= source.take(i as int).push(source[i as int]));
            source.take(i as int).to_multiset_ensures();
        }
        i = i + 1;
    }
    proof {
        assert(source.take(source.len() as int) =~= source);
    }
    out
}

/// Sorts task rows by date descending, then start time descending.
pub(crate) fn sort_tasks_desc(v: Vec<TaskRow>) -> (r: Vec<TaskRow>)
    ensures
        r.deep_view().to_multiset() == v.deep_view().to_multiset(),
        sorted_by(r.deep_view(), task_row_order()),
{
    let ghost source = v.deep_view();
    let mut out: Vec<TaskRow> = Vec::new();
    let mut i: usize = 0;
    proof {
        assert(out.deep_view() =~= Seq::<TaskRowModel>::empty());
        assert(source.take(0) =~= Seq::<TaskRowModel>::empty());
    }
    while i < v.len()
        invariant
            i <= v.len(),
            source == v.deep_view(),
            source.len() == v.len(),
            out.deep_view().to_multiset() == source.take(i as int).to_multiset(),
            sorted_by(out.deep_view(), task_row_order()),
        decreases v.len() - i,
    {
        let x = v[i].clone();
        proof {
            assert(x@ == source[i as int]);
        }
        let ghost odv = out.deep_view();
        let mut j: usize = 0;
        while j < out.len() && task_cmp_before(&out[j], &x)
            invariant
                j <= out.len(),
                odv == out.deep_view(),
                x@ == source[i as int],
                forall|k: int| 0 <= k < j ==> task_row_before(#[trigger] odv[k], x@),
            decreases out.len() - j,
        {
            proof {
                assert(odv[j as int] == out@[j as int]@);
            }
            j = j + 1;
        }
        proof {
            if j < out.len() {
                assert(odv[j as int] == out@[j as int]@);
                lemma_task_order_total(odv[j as int], x@);
                assert(task_row_before(x@, odv[j as int]));
            }
            assert forall|a: TaskRowModel, b: TaskRowModel, c: TaskRowModel| #[trigger]
                task_row_before(a, b) && #[trigger] task_row_before(b, c) implies task_row_before(
                a,
                c,
            ) by {
                lemma_task_order_trans(a, b, c);
            }
            lemma_sorted_insert(odv, j as int, x@, task_row_order());
            lemma_to_multiset_insert(odv, j as int, x@);
        }
        let ghost opre = out@;
        out.insert(j, x);
        proof {
            opre.insert_ensures(j as int, x);
            odv.insert_ensures(j as int, x@);
            assert(out.deep_view() =~= odv.insert(j as int, x@));
            assert(source.take(i as int + 1) =~= source.take(i as int).push(source[i as int]));
            source.take(i as int).to_multiset_ensures();
        }
        i = i + 1;
    }
    proof {
        assert(source.take(source.len() as int) =~= source);
    }
    out
}

/// Sorts task rows chronologically by start time.
pub(crate) fn sort_tasks_start_asc(v: Vec<TaskRow>) -> (r: Vec<TaskRow>)
    ensures
        r.deep_view().to_multiset() == v.deep_view().to_multiset(),
        sorted_by(r.deep_view(), task_start_order()),
{
    let ghost source = v.deep_view();
    let mut out: Vec<TaskRow> = Vec::new();
    let mut i: usize = 0;
    proof {
        assert(out.deep_view() =~= Seq::<TaskRowModel>::empty());
        assert(source.take(0) =~= Seq::<TaskRowModel>::empty());
    }
    while i < v.len()
        invariant
            i <= v.len(),
            source == v.deep_view(),
            source.len() == v.len(),
            out.deep_view().to_multiset() == source.take(i as int).to_multiset(),
            sorted_by(out.deep_view(), task_start_order()),
        decreases v.len() - i,
    {
        let x = v[i].clone();
        proof {
            assert(x@ == source[i as int]);
        }
        let ghost odv = out.deep_view();
        let mut j: usize = 0;
        while j < out.len() && out[j].start_time <= x.start_time
            invariant
                j <= out.len(),
                odv == out.deep_view(),
                x@ == source[i as int],
                forall|k: int| 0 <= k < j ==> (#[trigger] odv[k]).start_time <= x@.start_time,
            decreases out.len() - j,
        {
            proof {
                assert(odv[j as int] == out@[j as int]@);
            }
            j = j + 1;
        }
        proof {
            if j < out.len() {
                assert(odv[j as int] == out@[j as int]@);
            }
            lemma_sorted_insert(odv, j as int, x@, task_start_order());
            lemma_to_multiset_insert(odv, j as int, x@);
        }
        let ghost opre = out@;
        out.insert(j, x);
        proof {
            opre.insert_ensures(j as int, x);
            odv.insert_ensures(j as int, x@);
            assert(out.deep_view() =~= odv.insert(j as int, x@));
            assert(source.take(i as int + 1) =~= source.take(i as int).push(source[i as int]));
            source.take(i as int).to_multiset_ensures();
        }
        i = i + 1;
    }
    proof {
        assert(source.take(source.len() as int) =~= source);
    }
    out
}

/// Sorts prompts by update time, most recent first.
pub(crate) fn sort_prompts_desc(v: Vec<Prompt>) -> (r: Vec<Prompt>)
    ensures
        r.deep_view().to_multiset() == v.deep_view().to_multiset(),
        sorted_by(r.deep_view(), prompt_order()),
{
    let ghost source = v.deep_view();
    let mut out: Vec<Prompt> = Vec::new();
    let mut i: usize = 0;
    proof {
        assert(out.deep_view() =~= Seq::<PromptModel>::empty());
        assert(source.take(0) =~= Seq::<PromptModel>::empty());
    }
    while i < v.len()
        invariant
            i <= v.len(),
            source == v.deep_view(),
            source.len() == v.len(),
            out.deep_view().to_multiset() == source.take(i as int).to_multiset(),
            sorted_by(out.deep_view(), prompt_order()),
        decreases v.len() - i,
    {
        let x = v[i].clone();
        proof {
            assert(x@ == source[i as int]);
        }
        let ghost odv = out.deep_view();
        let mut j: usize = 0;
        while j < out.len() && out[j].updated_at >= x.updated_at
            invariant
                j <= out.len(),
                odv == out.deep_view(),
                x@ == source[i as int],
                forall|k: int| 0 <= k < j ==> (#[trigger] odv[k]).updated_at >= x@.updated_at,
            decreases out.len() - j,
        {
            proof {
                assert(odv[j as int] == out@[j as int]@);
            }
            j = j + 1;
        }
        proof {
            if j < out.len() {
                assert(odv[j as int] == out@[j as int]@);
            }
            lemma_sorted_insert(odv, j as int, x@, prompt_order());
            lemma_to_multiset_insert(odv, j as int, x@);
        }
        let ghost opre = out@;
        out.insert(j, x);
        proof {
            opre.insert_ensures(j as int, x);
            odv.insert_ensures(j as int, x@);
            assert(out.deep_view() =~= odv.insert(j as int, x@));
            assert(source.take(i as int + 1) =~= source.take(i as int).push(source[i as int]));
            source.take(i as int).to_multiset_ensures();
        }
        i = i + 1;
    }
    proof {
        assert(source.take(source.len() as int) =~= source);
    }
    out
}

} // verus!
