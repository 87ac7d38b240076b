use vstd::prelude::*;

use vstd::relations::sorted_by;

use crate::attachments::{attachments_to_json, decode_attachments, encodable, json_of_strings};
use crate::dates::{is_local_date_of, local_date_of, timestamp_in_range, today_local};
use crate::errors::AppError;
use crate::lexord::{lemma_lex_antisym, lemma_lex_trans, lex_le, lex_lt, str_eq, str_lex_le};
use crate::models::{
    DoneTask, Idea, IdeaModel, IdeaRow, IdeaRowModel, RecordsModel, TaskModel, TaskRow,
    TaskRowModel, TodayRecords,
};
use crate::ordering::{
    idea_row_before, idea_row_order, sort_ideas_desc, sort_tasks_desc, sort_tasks_start_asc,
    task_row_before, task_row_order, task_start_order,
};
use crate::seqfacts::{
    lemma_filter_all, lemma_filter_index, lemma_filter_none, lemma_filter_ordered_pairs,
    lemma_filter_take_step, lemma_multiset_elem_src,
};

verus! {

/// Durable storage for ideas and done tasks, keyed by integer identity
/// and partitioned by the calendar date derived at write time.
pub struct RecordStore {
    ideas: Vec<IdeaRow>,
    tasks: Vec<TaskRow>,
    next_idea_id: i64,
    next_task_id: i64,
}

/// Rows whose `id` differs from `id`: what a delete keeps.
pub open spec fn idea_keeps(id: int) -> spec_fn(IdeaRowModel) -> bool {
    |m: IdeaRowModel| m.id != id
}

/// `post` is `pre` with one idea row appended, dated `d`.
pub open spec fn idea_appended(
    pre: Seq<IdeaRowModel>,
    post: Seq<IdeaRowModel>,
    id: int,
    content: Seq<char>,
    attachments: Seq<Seq<char>>,
    created_at: int,
    d: Seq<char>,
) -> bool {
    post == pre.push(
        (IdeaRowModel {
            id,
            content,
            attachments_json: json_of_strings(attachments),
            created_at,
            date: d,
        }),
    )
}

/// `post` is `pre` with one task row appended, dated `d`.
pub open spec fn task_appended(
    pre: Seq<TaskRowModel>,
    post: Seq<TaskRowModel>,
    id: int,
    content: Seq<char>,
    start_time: int,
    end_time: int,
    attachments: Seq<Seq<char>>,
    created_at: int,
    d: Seq<char>,
) -> bool {
    post == pre.push(
        (TaskRowModel {
            id,
            content,
            start_time,
            end_time,
            attachments_json: json_of_strings(attachments),
            created_at,
            date: d,
        }),
    )
}

/// Rows whose `id` differs from `id`: what a delete keeps.
pub open spec fn task_keeps(id: int) -> spec_fn(TaskRowModel) -> bool {
    |m: TaskRowModel| m.id != id
}

impl RecordStore {
    /// The stored idea rows, in insertion order.
    pub closed spec fn ideas_model(&self) -> Seq<IdeaRowModel> {
        self.ideas.deep_view()
    }

    /// The stored task rows, in insertion order.
    pub closed spec fn tasks_model(&self) -> Seq<TaskRowModel> {
        self.tasks.deep_view()
    }

    /// The identity the next inserted idea will receive.
    pub closed spec fn next_idea(&self) -> int {
        self.next_idea_id as int
    }

    /// The identity the next inserted task will receive.
    pub closed spec fn next_task(&self) -> int {
        self.next_task_id as int
    }

    /// Identities are unique and below the next free identity, and every
    /// attachment column holds a serialized string list.
    pub closed spec fn wf(&self) -> bool {
        &&& forall|i: int|
            0 <= i < self.ideas_model().len() ==> (#[trigger] self.ideas_model()[i]).id
                < self.next_idea()
        &&& forall|i: int, j: int|
            0 <= i < j < self.ideas_model().len() ==> (#[trigger] self.ideas_model()[i]).id != (
            #[trigger] self.ideas_model()[j]).id
        &&& forall|i: int|
            0 <= i < self.ideas_model().len() ==> encodable(
                (#[trigger] self.ideas_model()[i]).attachments_json,
            )
        &&& forall|i: int|
            0 <= i < self.tasks_model().len() ==> (#[trigger] self.tasks_model()[i]).id
                < self.next_task()
        &&& forall|i: int, j: int|
            0 <= i < j < self.tasks_model().len() ==> (#[trigger] self.tasks_model()[i]).id != (
            #[trigger] self.tasks_model()[j]).id
        &&& forall|i: int|
            0 <= i < self.tasks_model().len() ==> encodable(
                (#[trigger] self.tasks_model()[i]).attachments_json,
            )
    }

    /// Nothing observable differs between the two stores.
    pub open spec fn unchanged_from(&self, other: &Self) -> bool {
        &&& self.ideas_model() == other.ideas_model()
        &&& self.tasks_model() == other.tasks_model()
        &&& self.next_idea() == other.next_idea()
        &&& self.next_task() == other.next_task()
    }

    /// An empty store.
    pub fn new() -> (r: Self)
        ensures
            r.wf(),
            r.ideas_model() == Seq::<IdeaRowModel>::empty(),
            r.tasks_model() == Seq::<TaskRowModel>::empty(),
            r.next_idea() == 1,
            r.next_task() == 1,
    {
        let s = RecordStore { ideas: Vec::new(), tasks: Vec::new(), next_idea_id: 1, next_task_id: 1 };
        proof {
            assert(s.ideas_model() =~= Seq::<IdeaRowModel>::empty());
            assert(s.tasks_model() =~= Seq::<TaskRowModel>::empty());
        }
        s
    }

    /// Inserts an idea. The stored row carries the serialized attachment
    /// list and the local calendar date of `created_at`, which the host
    /// zone decides within the bound `is_local_date_of` states; the
    /// returned identity is fresh. `InvalidTimestamp` comes exactly on a
    /// timestamp no calendar day can represent, `WriteFailed` exactly on
    /// identity exhaustion, and nothing changes on either.
    pub fn add_idea(&mut self, content: String, attachments: Vec<String>, created_at: i64) -> (r:
        Result<i64, AppError>)
        requires
            old(self).wf(),
        ensures
            final(self).wf(),
            r == Err::<i64, AppError>(AppError::InvalidTimestamp) <==> !timestamp_in_range(
                created_at as int,
            ),
            timestamp_in_range(created_at as int) && old(self).next_idea() < i64::MAX <==> r is Ok,
            match r {
                Ok(id) => {
                    &&& id as int == old(self).next_idea()
                    &&& exists|d: Seq<char>|
                        is_local_date_of(d, created_at as int) && idea_appended(
                            old(self).ideas_model(),
                            final(self).ideas_model(),
                            old(self).next_idea(),
                            content@,
                            attachments.deep_view(),
                            created_at as int,
                            d,
                        )
                    &&& final(self).next_idea() == old(self).next_idea() + 1
                    &&& final(self).tasks_model() == old(self).tasks_model()
                    &&& final(self).next_task() == old(self).next_task()
                },
                Err(e) => {
                    &&& final(self).unchanged_from(old(self))
                    &&& (e == AppError::InvalidTimestamp || e == AppError::WriteFailed)
                    &&& (e == AppError::WriteFailed ==> old(self).next_idea() == i64::MAX)
                },
            },
    {
        match local_date_of(created_at) {
            None => Err(AppError::InvalidTimestamp),
            Some(date) => {
                if self.next_idea_id == i64::MAX {
                    return Err(AppError::WriteFailed);
                }
                let ghost datev = date@;
                let attachments_json = attachments_to_json(&attachments);
                let id = self.next_idea_id;
                let ghost pre = self.ideas.deep_view();
                let row = IdeaRow { id, content, attachments_json, created_at, date };
                let ghost rowm = row.deep_view();
                self.ideas.push(row);
                self.next_idea_id = id + 1;
                proof {
                    assert(pre == old(self).ideas_model());
                    assert(self.tasks_model() == old(self).tasks_model());
                    assert(self.next_task() == old(self).next_task());
                    assert(self.ideas_model() =~= pre.push(rowm));
                    assert(rowm.id == old(self).next_idea());
                    assert(encodable(rowm.attachments_json));
                    assert(is_local_date_of(datev, created_at as int));
                    assert(idea_appended(
                        pre,
                        self.ideas_model(),
                        old(self).next_idea(),
                        content@,
                        attachments.deep_view(),
                        created_at as int,
                        datev,
                    ));
                    let post = self.ideas_model();
                    assert forall|i: int| 0 <= i < post.len() implies (#[trigger] post[i]).id
                        < self.next_idea() by {
                        if i < pre.len() {
                            assert(pre[i] == old(self).ideas_model()[i]);
                        }
                    }
                    assert forall|i: int, j: int| 0 <= i < j < post.len() implies (
                    #[trigger] post[i]).id != (#[trigger] post[j]).id by {
                        assert(pre[i] == old(self).ideas_model()[i]);
                        if j < pre.len() {
                            assert(pre[j] == old(self).ideas_model()[j]);
                        }
                    }
                    assert forall|i: int| 0 <= i < post.len() implies encodable(
                        (#[trigger] post[i]).attachments_json,
                    ) by {
                        if i < pre.len() {
                            assert(pre[i] == old(self).ideas_model()[i]);
                        }
                    }
                }
                Ok(id)
            },
        }
    }

    /// Inserts a done task; the stored date derives from `start_time`,
    /// as the host zone places it. The end time is stored as given:
    /// nothing requires it to follow the start. Errors are as for
    /// `add_idea`.
    pub fn add_done_task(
        &mut self,
        content: String,
        start_time: i64,
        end_time: i64,
        attachments: Vec<String>,
        created_at: i64,
    ) -> (r: Result<i64, AppError>)
        requires
            old(self).wf(),
        ensures
            final(self).wf(),
            r == Err::<i64, AppError>(AppError::InvalidTimestamp) <==> !timestamp_in_range(
                start_time as int,
            ),
            timestamp_in_range(start_time as int) && old(self).next_task() < i64::MAX <==> r is Ok,
            match r {
                Ok(id) => {
                    &&& id as int == old(self).next_task()
                    &&& exists|d: Seq<char>|
                        is_local_date_of(d, start_time as int) && task_appended(
                            old(self).tasks_model(),
                            final(self).tasks_model(),
                            old(self).next_task(),
                            content@,
                            start_time as int,
                            end_time as int,
                            attachments.deep_view(),
                            created_at as int,
                            d,
                        )
                    &&& final(self).next_task() == old(self).next_task() + 1
                    &&& final(self).ideas_model() == old(self).ideas_model()
                    &&& final(self).next_idea() == old(self).next_idea()
                },
                Err(e) => {
                    &&& final(self).unchanged_from(old(self))
                    &&& (e == AppError::InvalidTimestamp || e == AppError::WriteFailed)
                    &&& (e == AppError::WriteFailed ==> old(self).next_task() == i64::MAX)
                },
            },
    {
        match local_date_of(start_time) {
            None => Err(AppError::InvalidTimestamp),
            Some(date) => {
                if self.next_task_id == i64::MAX {
                    return Err(AppError::WriteFailed);
                }
                let ghost datev = date@;
                let attachments_json = attachments_to_json(&attachments);
                let id = self.next_task_id;
                let ghost pre = self.tasks.deep_view();
                let row = TaskRow {
                    id,
                    content,
                    start_time,
                    end_time,
                    attachments_json,
                    created_at,
                    date,
                };
                let ghost rowm = row.deep_view();
                self.tasks.push(row);
                self.next_task_id = id + 1;
                proof {
                    assert(pre == old(self).tasks_model());
                    assert(self.ideas_model() == old(self).ideas_model());
                    assert(self.next_idea() == old(self).next_idea());
                    assert(self.tasks_model() =~= pre.push(rowm));
                    assert(rowm.id == old(self).next_task());
                    assert(encodable(rowm.attachments_json));
                    assert(is_local_date_of(datev, start_time as int));
                    assert(task_appended(
                        pre,
                        self.tasks_model(),
                        old(self).next_task(),
                        content@,
                        start_time as int,
                        end_time as int,
                        attachments.deep_view(),
                        created_at as int,
                        datev,
                    ));
                    let post = self.tasks_model();
                    assert forall|i: int| 0 <= i < post.len() implies (#[trigger] post[i]).id
                        < self.next_task() by {
                        if i < pre.len() {
                            assert(pre[i] == old(self).tasks_model()[i]);
                        }
                    }
                    assert forall|i: int, j: int| 0 <= i < j < post.len() implies (
                    #[trigger] post[i]).id != (#[trigger] post[j]).id by {
                        assert(pre[i] == old(self).tasks_model()[i]);
                        if j < pre.len() {
                            assert(pre[j] == old(self).tasks_model()[j]);
                        }
                    }
                    assert forall|i: int| 0 <= i < post.len() implies encodable(
                        (#[trigger] post[i]).attachments_json,
                    ) by {
                        if i < pre.len() {
                            assert(pre[i] == old(self).tasks_model()[i]);
                        }
                    }
                }
                Ok(id)
            },
        }
    }

    /// Physically removes the idea with identity `id`; removing an
    /// absent identity keeps every row and is no error.
    pub fn delete_idea(&mut self, id: i64) -> (r: Result<(), AppError>)
        requires
            old(self).wf(),
        ensures
            final(self).wf(),
            r is Ok,
            final(self).ideas_model() == old(self).ideas_model().filter(idea_keeps(id as int)),
            final(self).tasks_model() == old(self).tasks_model(),
            final(self).next_idea() == old(self).next_idea(),
            final(self).next_task() == old(self).next_task(),
            (forall|i: int|
                0 <= i < old(self).ideas_model().len() ==> (#[trigger] old(
                    self,
                ).ideas_model()[i]).id != id as int) ==> final(self).ideas_model() == old(
                self,
            ).ideas_model(),
    {
        let ghost rows = self.ideas.deep_view();
        let ghost pred = idea_keeps(id as int);
        let mut kept: Vec<IdeaRow> = Vec::new();
        proof {
            assert(rows == old(self).ideas_model());
        }
        let mut i: usize = 0;
        proof {
            assert(kept.deep_view() =~= rows.take(0).filter(pred));
        }
        while i < self.ideas.len()
            invariant
                i <= self.ideas.len(),
                rows == self.ideas.deep_view(),
                rows == old(self).ideas_model(),
                pred == idea_keeps(id as int),
                rows.len() == self.ideas.len(),
                kept.deep_view() == rows.take(i as int).filter(pred),
            decreases self.ideas.len() - i,
        {
            proof {
                lemma_filter_take_step(rows, pred, i as int);
                assert(rows[i as int] == self.ideas@[i as int].deep_view());
            }
            let ghost kpre = kept.deep_view();
            if self.ideas[i].id != id {
                kept.push(self.ideas[i].clone());
                proof {
                    assert(kept.deep_view() =~= kpre.push(rows[i as int]));
                }
            }
            i = i + 1;
        }
        proof {
            assert(rows.take(rows.len() as int) =~= rows);
        }
        self.ideas = kept;
        proof {
            assert(self.tasks_model() == old(self).tasks_model());
            let f = rows.filter(pred);
            assert forall|k: int| 0 <= k < f.len() implies ((#[trigger] f[k]).id
                < old(self).next_idea() && encodable(f[k].attachments_json)) by {
                lemma_filter_index(rows, pred, k);
                let p = choose|p: int| 0 <= p < rows.len() && rows[p] == f[k];
                assert(old(self).ideas_model()[p] == rows[p]);
            }
            assert forall|a: int, b: int| 0 <= a < b < f.len() implies (#[trigger] f[a]).id != (
            #[trigger] f[b]).id by {
                lemma_filter_ordered_pairs(rows, pred, a, b);
                let (p, q) = choose|p: int, q: int|
                    0 <= p < q < rows.len() && rows[p] == f[a] && rows[q] == f[b];
                assert(old(self).ideas_model()[p] == rows[p]);
                assert(old(self).ideas_model()[q] == rows[q]);
            }
            if forall|k: int| 0 <= k < rows.len() ==> (#[trigger] rows[k]).id != id as int {
                lemma_filter_all(rows, pred);
            }
        }
        Ok(())
    }

    /// Physically removes the task with identity `id`; removing an
    /// absent identity keeps every row and is no error.
    pub fn delete_task(&mut self, id: i64) -> (r: Result<(), AppError>)
        requires
            old(self).wf(),
        ensures
            final(self).wf(),
            r is Ok,
            final(self).tasks_model() == old(self).tasks_model().filter(task_keeps(id as int)),
            final(self).ideas_model() == old(self).ideas_model(),
            final(self).next_idea() == old(self).next_idea(),
            final(self).next_task() == old(self).next_task(),
            (forall|i: int|
                0 <= i < old(self).tasks_model().len() ==> (#[trigger] old(
                    self,
                ).tasks_model()[i]).id != id as int) ==> final(self).tasks_model() == old(
                self,
            ).tasks_model(),
    {
        let ghost rows = self.tasks.deep_view();
        let ghost pred = task_keeps(id as int);
        let mut kept: Vec<TaskRow> = Vec::new();
        proof {
            assert(rows == old(self).tasks_model());
        }
        let mut i: usize = 0;
        proof {
            assert(kept.deep_view() =~= rows.take(0).filter(pred));
        }
        while i < self.tasks.len()
            invariant
                i <= self.tasks.len(),
                rows == self.tasks.deep_view(),
                rows == old(self).tasks_model(),
                pred == task_keeps(id as int),
                rows.len() == self.tasks.len(),
                kept.deep_view() == rows.take(i as int).filter(pred),
            decreases self.tasks.len() - i,
        {
            proof {
                lemma_filter_take_step(rows, pred, i as int);
                assert(rows[i as int] == self.tasks@[i as int].deep_view());
            }
            let ghost kpre = kept.deep_view();
            if self.tasks[i].id != id {
                kept.push(self.tasks[i].clone());
                proof {
                    assert(kept.deep_view() =~= kpre.push(rows[i as int]));
                }
            }
            i = i + 1;
        }
        proof {
            assert(rows.take(rows.len() as int) =~= rows);
        }
        self.tasks = kept;
        proof {
            assert(self.ideas_model() == old(self).ideas_model());
            let f = rows.filter(pred);
            assert forall|k: int| 0 <= k < f.len() implies ((#[trigger] f[k]).id
                < old(self).next_task() && encodable(f[k].attachments_json)) by {
                lemma_filter_index(rows, pred, k);
                let p = choose|p: int| 0 <= p < rows.len() && rows[p] == f[k];
                assert(old(self).tasks_model()[p] == rows[p]);
            }
            assert forall|a: int, b: int| 0 <= a < b < f.len() implies (#[trigger] f[a]).id != (
            #[trigger] f[b]).id by {
                lemma_filter_ordered_pairs(rows, pred, a, b);
                let (p, q) = choose|p: int, q: int|
                    0 <= p < q < rows.len() && rows[p] == f[a] && rows[q] == f[b];
                assert(old(self).tasks_model()[p] == rows[p]);
                assert(old(self).tasks_model()[q] == rows[q]);
            }
            if forall|k: int| 0 <= k < rows.len() ==> (#[trigger] rows[k]).id != id as int {
                lemma_filter_all(rows, pred);
            }
        }
        Ok(())
    }

    /// The records of the day `d`: exactly the stored rows whose date
    /// equals `d`, ideas newest-creation first, tasks chronological by
    /// start time.
    pub fn get_records_for_date(&self, d: &String) -> (r: TodayRecords)
        requires
            self.wf(),
        ensures
            self.day_records_match(d@, r@),
    {
        let ghost stored_i = self.ideas.deep_view();
        let ghost ipred = idea_on_date(d@);
        let fi = filter_ideas_on_date(&self.ideas, d);
        let ghost fidv = fi.deep_view();
        let si = sort_ideas_desc(fi);
        let ghost sidv = si.deep_view();
        proof {
            assert forall|k: int| 0 <= k < sidv.len() implies encodable(
                (#[trigger] sidv[k]).attachments_json,
            ) && sidv[k].date == d@ by {
                lemma_multiset_elem_src(sidv, fidv, k);
                let p = choose|p: int| 0 <= p < fidv.len() && fidv[p] == sidv[k];
                stored_i.lemma_filter_pred(ipred, p);
                lemma_filter_index(stored_i, ipred, p);
                let q = choose|q: int| 0 <= q < stored_i.len() && stored_i[q] == fidv[p];
                assert(self.ideas_model()[q] == stored_i[q]);
            }
            assert(si.deep_view() == sidv);
        }
        let ideas = decode_ideas(si);
        let ghost stored_t = self.tasks.deep_view();
        let ghost tpred = task_on_date(d@);
        let ft = filter_tasks_on_date(&self.tasks, d);
        let ghost ftdv = ft.deep_view();
        let st = sort_tasks_start_asc(ft);
        let ghost stdv = st.deep_view();
        proof {
            assert forall|k: int| 0 <= k < stdv.len() implies encodable(
                (#[trigger] stdv[k]).attachments_json,
            ) && stdv[k].date == d@ by {
                lemma_multiset_elem_src(stdv, ftdv, k);
                let p = choose|p: int| 0 <= p < ftdv.len() && ftdv[p] == stdv[k];
                stored_t.lemma_filter_pred(tpred, p);
                lemma_filter_index(stored_t, tpred, p);
                let q = choose|q: int| 0 <= q < stored_t.len() && stored_t[q] == ftdv[p];
                assert(self.tasks_model()[q] == stored_t[q]);
            }
            assert(st.deep_view() == stdv);
        }
        let tasks = decode_tasks(st);
        let r = TodayRecords { ideas, tasks };
        proof {
            assert(stored_i == self.ideas_model());
            assert(stored_t == self.tasks_model());
            assert(r@.ideas == ideas.deep_view());
            assert(r@.tasks == tasks.deep_view());
            assert(rows_of_ideas(r@.ideas) == sidv);
            assert(rows_of_tasks(r@.tasks) == stdv);
            assert(r@.ideas.len() == sidv.len()) by {
                assert(rows_of_ideas(r@.ideas).len() == r@.ideas.len());
            }
            assert(r@.tasks.len() == stdv.len()) by {
                assert(rows_of_tasks(r@.tasks).len() == r@.tasks.len());
            }
            assert forall|k: int| 0 <= k < r@.ideas.len() implies (#[trigger] r@.ideas[k]).date
                == d@ by {
                assert(rows_of_ideas(r@.ideas)[k] == row_of_idea(r@.ideas[k]));
                assert(sidv[k].date == d@);
            }
            assert forall|k: int| 0 <= k < r@.tasks.len() implies (#[trigger] r@.tasks[k]).date
                == d@ by {
                assert(rows_of_tasks(r@.tasks)[k] == row_of_task(r@.tasks[k]));
                assert(stdv[k].date == d@);
            }
            assert forall|k: int, l: int| 0 <= k < l < r@.ideas.len() implies (
            #[trigger] r@.ideas[k]).created_at >= (#[trigger] r@.ideas[l]).created_at by {
                assert(idea_row_order()(sidv[k], sidv[l]));
                assert(idea_row_before(sidv[k], sidv[l]));
                assert(sidv[k].date == d@ && sidv[l].date == d@);
                assert(!lex_lt(sidv[l].date, sidv[k].date));
                assert(rows_of_ideas(r@.ideas)[k] == row_of_idea(r@.ideas[k]));
                assert(rows_of_ideas(r@.ideas)[l] == row_of_idea(r@.ideas[l]));
            }
            assert forall|k: int, l: int| 0 <= k < l < r@.tasks.len() implies (
            #[trigger] r@.tasks[k]).start_time <= (#[trigger] r@.tasks[l]).start_time by {
                assert(task_start_order()(stdv[k], stdv[l]));
                assert(rows_of_tasks(r@.tasks)[k] == row_of_task(r@.tasks[k]));
                assert(rows_of_tasks(r@.tasks)[l] == row_of_task(r@.tasks[l]));
            }
        }
        r
    }

    /// The records of the caller's current local calendar day.
    pub fn get_today_records(&self) -> (r: TodayRecords)
        requires
            self.wf(),
        ensures
            exists|d: Seq<char>| self.day_records_match(d, r@),
    {
        let d = today_local();
        let r = self.get_records_for_date(&d);
        proof {
            assert(self.day_records_match(d@, r@));
        }
        r
    }

    /// The records whose date lies in `[start_date, end_date]`, both
    /// bounds inclusive by textual (= calendar) comparison: exactly the
    /// stored rows in range, both tables listed by date descending and
    /// newest first within a date. Inverted bounds select nothing.
    pub fn get_records_by_date_range(&self, start_date: &String, end_date: &String) -> (r:
        TodayRecords)
        requires
            self.wf(),
        ensures
            self.range_records_match(start_date@, end_date@, r@),
            lex_lt(end_date@, start_date@) ==> r@.ideas.len() == 0 && r@.tasks.len() == 0,
    {
        let ghost d1 = start_date@;
        let ghost d2 = end_date@;
        let ghost stored_i = self.ideas.deep_view();
        let ghost ipred = idea_in_range(d1, d2);
        let fi = filter_ideas_in_range(&self.ideas, start_date, end_date);
        let ghost fidv = fi.deep_view();
        let si = sort_ideas_desc(fi);
        let ghost sidv = si.deep_view();
        proof {
            assert forall|k: int| 0 <= k < sidv.len() implies encodable(
                (#[trigger] sidv[k]).attachments_json,
            ) && lex_le(d1, sidv[k].date) && lex_le(sidv[k].date, d2) by {
                lemma_multiset_elem_src(sidv, fidv, k);
                let p = choose|p: int| 0 <= p < fidv.len() && fidv[p] == sidv[k];
                stored_i.lemma_filter_pred(ipred, p);
                lemma_filter_index(stored_i, ipred, p);
                let q = choose|q: int| 0 <= q < stored_i.len() && stored_i[q] == fidv[p];
                assert(self.ideas_model()[q] == stored_i[q]);
            }
            assert(si.deep_view() == sidv);
        }
        let ideas = decode_ideas(si);
        let ghost stored_t = self.tasks.deep_view();
        let ghost tpred = task_in_range(d1, d2);
        let ft = filter_tasks_in_range(&self.tasks, start_date, end_date);
        let ghost ftdv = ft.deep_view();
        let st = sort_tasks_desc(ft);
        let ghost stdv = st.deep_view();
        proof {
            assert forall|k: int| 0 <= k < stdv.len() implies encodable(
                (#[trigger] stdv[k]).attachments_json,
            ) && lex_le(d1, stdv[k].date) && lex_le(stdv[k].date, d2) by {
                lemma_multiset_elem_src(stdv, ftdv, k);
                let p = choose|p: int| 0 <= p < ftdv.len() && ftdv[p] == stdv[k];
                stored_t.lemma_filter_pred(tpred, p);
                lemma_filter_index(stored_t, tpred, p);
                let q = choose|q: int| 0 <= q < stored_t.len() && stored_t[q] == ftdv[p];
                assert(self.tasks_model()[q] == stored_t[q]);
            }
            assert(st.deep_view() == stdv);
        }
        let tasks = decode_tasks(st);
        let r = TodayRecords { ideas, tasks };
        proof {
            assert(stored_i == self.ideas_model());
            assert(stored_t == self.tasks_model());
            assert(r@.ideas == ideas.deep_view());
            assert(r@.tasks == tasks.deep_view());
            assert(rows_of_ideas(r@.ideas) == sidv);
            assert(rows_of_tasks(r@.tasks) == stdv);
            assert(r@.ideas.len() == sidv.len()) by {
                assert(rows_of_ideas(r@.ideas).len() == r@.ideas.len());
            }
            assert(r@.tasks.len() == stdv.len()) by {
                assert(rows_of_tasks(r@.tasks).len() == r@.tasks.len());
            }
            assert forall|k: int|
                0 <= k < r@.ideas.len() implies lex_le(d1, (#[trigger] r@.ideas[k]).date)
                && lex_le(r@.ideas[k].date, d2) by {
                assert(rows_of_ideas(r@.ideas)[k] == row_of_idea(r@.ideas[k]));
                assert(lex_le(d1, sidv[k].date) && lex_le(sidv[k].date, d2));
            }
            assert forall|k: int|
                0 <= k < r@.tasks.len() implies lex_le(d1, (#[trigger] r@.tasks[k]).date)
                && lex_le(r@.tasks[k].date, d2) by {
                assert(rows_of_tasks(r@.tasks)[k] == row_of_task(r@.tasks[k]));
                assert(lex_le(d1, stdv[k].date) && lex_le(stdv[k].date, d2));
            }
            if lex_lt(d2, d1) {
                assert forall|k: int| 0 <= k < stored_i.len() implies !ipred(
                    #[trigger] stored_i[k],
                ) by {
                    if ipred(stored_i[k]) {
                        lemma_lex_trans(d1, stored_i[k].date, d2);
                        lemma_lex_antisym(d1, d2);
                    }
                }
                lemma_filter_none(stored_i, ipred);
                assert forall|k: int| 0 <= k < stored_t.len() implies !tpred(
                    #[trigger] stored_t[k],
                ) by {
                    if tpred(stored_t[k]) {
                        lemma_lex_trans(d1, stored_t[k].date, d2);
                        lemma_lex_antisym(d1, d2);
                    }
                }
                lemma_filter_none(stored_t, tpred);
                fidv.to_multiset_ensures();
                sidv.to_multiset_ensures();
                ftdv.to_multiset_ensures();
                stdv.to_multiset_ensures();
                assert(Seq::<IdeaRowModel>::empty().to_multiset().len() == 0);
                assert(Seq::<TaskRowModel>::empty().to_multiset().len() == 0);
            }
        }
        r
    }

    /// One date range's listing, as `range_records_match` states it.
    pub open spec fn range_records_match(&self, d1: Seq<char>, d2: Seq<char>, rm: RecordsModel) -> bool {
        &&& rows_of_ideas(rm.ideas).to_multiset() == self.ideas_model().filter(
            idea_in_range(d1, d2),
        ).to_multiset()
        &&& rows_of_tasks(rm.tasks).to_multiset() == self.tasks_model().filter(
            task_in_range(d1, d2),
        ).to_multiset()
        &&& sorted_by(rows_of_ideas(rm.ideas), idea_row_order())
        &&& sorted_by(rows_of_tasks(rm.tasks), task_row_order())
        &&& forall|k: int|
            0 <= k < rm.ideas.len() ==> lex_le(d1, (#[trigger] rm.ideas[k]).date) && lex_le(
                rm.ideas[k].date,
                d2,
            )
        &&& forall|k: int|
            0 <= k < rm.tasks.len() ==> lex_le(d1, (#[trigger] rm.tasks[k]).date) && lex_le(
                rm.tasks[k].date,
                d2,
            )
    }

    /// One calendar day's listing, as `day_records_match` states it.
    pub open spec fn day_records_match(&self, d: Seq<char>, rm: RecordsModel) -> bool {
        &&& rows_of_ideas(rm.ideas).to_multiset() == self.ideas_model().filter(
            idea_on_date(d),
        ).to_multiset()
        &&& rows_of_tasks(rm.tasks).to_multiset() == self.tasks_model().filter(
            task_on_date(d),
        ).to_multiset()
        &&& forall|k: int| 0 <= k < rm.ideas.len() ==> (#[trigger] rm.ideas[k]).date == d
        &&& forall|k: int| 0 <= k < rm.tasks.len() ==> (#[trigger] rm.tasks[k]).date == d
        &&& forall|k: int, l: int|
            0 <= k < l < rm.ideas.len() ==> (#[trigger] rm.ideas[k]).created_at >= (
            #[trigger] rm.ideas[l]).created_at
        &&& forall|k: int, l: int|
            0 <= k < l < rm.tasks.len() ==> (#[trigger] rm.tasks[k]).start_time <= (
            #[trigger] rm.tasks[l]).start_time
    }
}

// ---------------------------------------------------------------------------
// Queries.
// ---------------------------------------------------------------------------

/// Idea rows whose date lies in `[d1, d2]`, compared as text.
pub open spec fn idea_in_range(d1: Seq<char>, d2: Seq<char>) -> spec_fn(IdeaRowModel) -> bool {
    |m: IdeaRowModel| lex_le(d1, m.date) && lex_le(m.date, d2)
}

/// Task rows whose date lies in `[d1, d2]`, compared as text.
pub open spec fn task_in_range(d1: Seq<char>, d2: Seq<char>) -> spec_fn(TaskRowModel) -> bool {
    |m: TaskRowModel| lex_le(d1, m.date) && lex_le(m.date, d2)
}

/// Idea rows of one calendar day.
pub open spec fn idea_on_date(d: Seq<char>) -> spec_fn(IdeaRowModel) -> bool {
    |m: IdeaRowModel| m.date == d
}

/// Task rows of one calendar day.
pub open spec fn task_on_date(d: Seq<char>) -> spec_fn(TaskRowModel) -> bool {
    |m: TaskRowModel| m.date == d
}

/// The stored row a reconstructed idea stands for: every field carries
/// over, and the attachment list serializes back to the stored column.
pub open spec fn row_of_idea(i: IdeaModel) -> IdeaRowModel {
    IdeaRowModel {
        id: i.id,
        content: i.content,
        attachments_json: json_of_strings(i.attachments),
        created_at: i.created_at,
        date: i.date,
    }
}

/// The stored row a reconstructed task stands for.
pub open spec fn row_of_task(t: TaskModel) -> TaskRowModel {
    TaskRowModel {
        id: t.id,
        content: t.content,
        start_time: t.start_time,
        end_time: t.end_time,
        attachments_json: json_of_strings(t.attachments),
        created_at: t.created_at,
        date: t.date,
    }
}

/// The rows a sequence of reconstructed ideas stands for.
pub open spec fn rows_of_ideas(s: Seq<IdeaModel>) -> Seq<IdeaRowModel> {
    s.map_values(|i: IdeaModel| row_of_idea(i))
}

/// The rows a sequence of reconstructed tasks stands for.
pub open spec fn rows_of_tasks(s: Seq<TaskModel>) -> Seq<TaskRowModel> {
    s.map_values(|t: TaskModel| row_of_task(t))
}

fn filter_ideas_in_range(v: &Vec<IdeaRow>, d1: &String, d2: &String) -> (r: Vec<IdeaRow>)
    ensures
        r.deep_view() == v.deep_view().filter(idea_in_range(d1@, d2@)),
{
    let ghost rows = v.deep_view();
    let ghost pred = idea_in_range(d1@, d2@);
    let mut kept: Vec<IdeaRow> = Vec::new();
    let mut i: usize = 0;
    proof {
        assert(kept.deep_view() =~= rows.take(0).filter(pred));
    }
    while i < v.len()
        invariant
            i <= v.len(),
            rows == v.deep_view(),
            pred == idea_in_range(d1@, d2@),
            rows.len() == v.len(),
            kept.deep_view() == rows.take(i as int).filter(pred),
        decreases v.len() - i,
    {
        proof {
            lemma_filter_take_step(rows, pred, i as int);
            assert(rows[i as int] == v@[i as int].deep_view());
        }
        let ghost kpre = kept.deep_view();
        if str_lex_le(d1.as_str(), v[i].date.as_str()) && str_lex_le(v[i].date.as_str(), d2.as_str()) {
            kept.push(v[i].clone());
            proof {
                assert(kept.deep_view() =~= kpre.push(rows[i as int]));
            }
        }
        i = i + 1;
    }
    proof {
        assert(rows.take(rows.len() as int) =~= rows);
    }
    kept
}

fn filter_tasks_in_range(v: &Vec<TaskRow>, d1: &String, d2: &String) -> (r: Vec<TaskRow>)
    ensures
        r.deep_view() == v.deep_view().filter(task_in_range(d1@, d2@)),
{
    let ghost rows = v.deep_view();
    let ghost pred = task_in_range(d1@, d2@);
    let mut kept: Vec<TaskRow> = Vec::new();
    let mut i: usize = 0;
    proof {
        assert(kept.deep_view() =~= rows.take(0).filter(pred));
    }
    while i < v.len()
        invariant
            i <= v.len(),
            rows == v.deep_view(),
            pred == task_in_range(d1@, d2@),
            rows.len() == v.len(),
            kept.deep_view() == rows.take(i as int).filter(pred),
        decreases v.len() - i,
    {
        proof {
            lemma_filter_take_step(rows, pred, i as int);
            assert(rows[i as int] == v@[i as int].deep_view());
        }
        let ghost kpre = kept.deep_view();
        if str_lex_le(d1.as_str(), v[i].date.as_str()) && str_lex_le(v[i].date.as_str(), d2.as_str()) {
            kept.push(v[i].clone());
            proof {
                assert(kept.deep_view() =~= kpre.push(rows[i as int]));
            }
        }
        i = i + 1;
    }
    proof {
        assert(rows.take(rows.len() as int) =~= rows);
    }
    kept
}

fn filter_ideas_on_date(v: &Vec<IdeaRow>, d: &String) -> (r: Vec<IdeaRow>)
    ensures
        r.deep_view() == v.deep_view().filter(idea_on_date(d@)),
{
    let ghost rows = v.deep_view();
    let ghost pred = idea_on_date(d@);
    let mut kept: Vec<IdeaRow> = Vec::new();
    let mut i: usize = 0;
    proof {
        assert(kept.deep_view() =~= rows.take(0).filter(pred));
    }
    while i < v.len()
        invariant
            i <= v.len(),
            rows == v.deep_view(),
            pred == idea_on_date(d@),
            rows.len() == v.len(),
            kept.deep_view() == rows.take(i as int).filter(pred),
        decreases v.len() - i,
    {
        proof {
            lemma_filter_take_step(rows, pred, i as int);
            assert(rows[i as int] == v@[i as int].deep_view());
        }
        let ghost kpre = kept.deep_view();
        if str_eq(v[i].date.as_str(), d.as_str()) {
            kept.push(v[i].clone());
            proof {
                assert(kept.deep_view() =~= kpre.push(rows[i as int]));
            }
        }
        i = i + 1;
    }
    proof {
        assert(rows.take(rows.len() as int) =~= rows);
    }
    kept
}

fn filter_tasks_on_date(v: &Vec<TaskRow>, d: &String) -> (r: Vec<TaskRow>)
    ensures
        r.deep_view() == v.deep_view().filter(task_on_date(d@)),
{
    let ghost rows = v.deep_view();
    let ghost pred = task_on_date(d@);
    let mut kept: Vec<TaskRow> = Vec::new();
    let mut i: usize = 0;
    proof {
        assert(kept.deep_view() =~= rows.take(0).filter(pred));
    }
    while i < v.len()
        invariant
            i <= v.len(),
            rows == v.deep_view(),
            pred == task_on_date(d@),
            rows.len() == v.len(),
            kept.deep_view() == rows.take(i as int).filter(pred),
        decreases v.len() - i,
    {
        proof {
            lemma_filter_take_step(rows, pred, i as int);
            assert(rows[i as int] == v@[i as int].deep_view());
        }
        let ghost kpre = kept.deep_view();
        if str_eq(v[i].date.as_str(), d.as_str()) {
            kept.push(v[i].clone());
            proof {
                assert(kept.deep_view() =~= kpre.push(rows[i as int]));
            }
        }
        i = i + 1;
    }
    proof {
        assert(rows.take(rows.len() as int) =~= rows);
    }
    kept
}

/// Reconstructs one idea from its row, decoding the attachment column.
fn idea_of_row(row: &IdeaRow) -> (r: Idea)
    requires
        encodable(row@.attachments_json),
    ensures
        row_of_idea(r@) == row@,
{
    let attachments = decode_attachments(row.attachments_json.as_str());
    proof {
        let l0 = choose|l: Seq<Seq<char>>| row@.attachments_json == json_of_strings(l);
        assert(attachments.deep_view() == l0);
    }
    Idea {
        id: row.id,
        content: row.content.clone(),
        attachments,
        created_at: row.created_at,
        date: row.date.clone(),
    }
}

/// Reconstructs one task from its row, decoding the attachment column.
fn task_of_row(row: &TaskRow) -> (r: DoneTask)
    requires
        encodable(row@.attachments_json),
    ensures
        row_of_task(r@) == row@,
{
    let attachments = decode_attachments(row.attachments_json.as_str());
    proof {
        let l0 = choose|l: Seq<Seq<char>>| row@.attachments_json == json_of_strings(l);
        assert(attachments.deep_view() == l0);
    }
    DoneTask {
        id: row.id,
        content: row.content.clone(),
        start_time: row.start_time,
        end_time: row.end_time,
        attachments,
        created_at: row.created_at,
        date: row.date.clone(),
    }
}

fn decode_ideas(v: Vec<IdeaRow>) -> (r: Vec<Idea>)
    requires
        forall|k: int|
            0 <= k < v.deep_view().len() ==> encodable(
                (#[trigger] v.deep_view()[k]).attachments_json,
            ),
    ensures
        rows_of_ideas(r.deep_view()) == v.deep_view(),
{
    let ghost rows = v.deep_view();
    let mut out: Vec<Idea> = Vec::new();
    let mut i: usize = 0;
    proof {
        assert(rows_of_ideas(out.deep_view()) =~= rows.take(0));
    }
    while i < v.len()
        invariant
            i <= v.len(),
            rows == v.deep_view(),
            rows.len() == v.len(),
            forall|k: int|
                0 <= k < rows.len() ==> encodable((#[trigger] rows[k]).attachments_json),
            rows_of_ideas(out.deep_view()) == rows.take(i as int),
        decreases v.len() - i,
    {
        proof {
            assert(rows[i as int] == v@[i as int].deep_view());
        }
        let ghost opre = out.deep_view();
        let rec = idea_of_row(&v[i]);
        out.push(rec);
        proof {
            assert(rows_of_ideas(opre).len() == opre.len());
            assert(opre.len() == i as int);
            assert(out.deep_view() =~= opre.push(rec@));
            let odv = out.deep_view();
            assert forall|k: int| 0 <= k < odv.len() implies rows_of_ideas(odv)[k] == rows.take(
                i as int + 1,
            )[k] by {
                assert(rows_of_ideas(odv)[k] == row_of_idea(odv[k]));
                if k < i as int {
                    assert(odv[k] == opre[k]);
                    assert(rows_of_ideas(opre)[k] == row_of_idea(opre[k]));
                    assert(rows_of_ideas(opre)[k] == rows.take(i as int)[k]);
                } else {
                    assert(odv[k] == rec@);
                }
            }
            assert(rows_of_ideas(out.deep_view()) =~= rows.take(i as int + 1));
        }
        i = i + 1;
    }
    proof {
        assert(rows.take(rows.len() as int) =~= rows);
    }
    out
}

fn decode_tasks(v: Vec<TaskRow>) -> (r: Vec<DoneTask>)
    requires
        forall|k: int|
            0 <= k < v.deep_view().len() ==> encodable(
                (#[trigger] v.deep_view()[k]).attachments_json,
            ),
    ensures
        rows_of_tasks(r.deep_view()) == v.deep_view(),
{
    let ghost rows = v.deep_view();
    let mut out: Vec<DoneTask> = Vec::new();
    let mut i: usize = 0;
    proof {
        assert(rows_of_tasks(out.deep_view()) =~= rows.take(0));
    }
    while i < v.len()
        invariant
            i <= v.len(),
            rows == v.deep_view(),
            rows.len() == v.len(),
            forall|k: int|
                0 <= k < rows.len() ==> encodable((#[trigger] rows[k]).attachments_json),
            rows_of_tasks(out.deep_view()) == rows.take(i as int),
        decreases v.len() - i,
    {
        proof {
            assert(rows[i as int] == v@[i as int].deep_view());
        }
        let ghost opre = out.deep_view();
        let rec = task_of_row(&v[i]);
        out.push(rec);
        proof {
            assert(rows_of_tasks(opre).len() == opre.len());
            assert(opre.len() == i as int);
            assert(out.deep_view() =~= opre.push(rec@));
            let odv = out.deep_view();
            assert forall|k: int| 0 <= k < odv.len() implies rows_of_tasks(odv)[k] == rows.take(
                i as int + 1,
            )[k] by {
                assert(rows_of_tasks(odv)[k] == row_of_task(odv[k]));
                if k < i as int {
                    assert(odv[k] == opre[k]);
                    assert(rows_of_tasks(opre)[k] == row_of_task(opre[k]));
                    assert(rows_of_tasks(opre)[k] == rows.take(i as int)[k]);
                } else {
                    assert(odv[k] == rec@);
                }
            }
            assert(rows_of_tasks(out.deep_view()) =~= rows.take(i as int + 1));
        }
        i = i + 1;
    }
    proof {
        assert(rows.take(rows.len() as int) =~= rows);
    }
    out
}

/// Deleting an identity that no idea row carries keeps every row; in
/// particular deleting the same identity twice leaves what one delete
/// leaves.
pub proof fn lemma_delete_idea_idempotent(rows: Seq<IdeaRowModel>, id: int)
    ensures
        rows.filter(idea_keeps(id)).filter(idea_keeps(id)) == rows.filter(idea_keeps(id)),
        (forall|i: int| 0 <= i < rows.len() ==> (#[trigger] rows[i]).id != id) ==> rows.filter(
            idea_keeps(id),
        ) == rows,
{
    let f = rows.filter(idea_keeps(id));
    assert forall|i: int| 0 <= i < f.len() implies idea_keeps(id)(#[trigger] f[i]) by {
        rows.lemma_filter_pred(idea_keeps(id), i);
    }
    lemma_filter_all(f, idea_keeps(id));
    if forall|i: int| 0 <= i < rows.len() ==> (#[trigger] rows[i]).id != id {
        lemma_filter_all(rows, idea_keeps(id));
    }
}

/// Deleting an identity that no task row carries keeps every row; in
/// particular deleting the same identity twice leaves what one delete
/// leaves.
pub proof fn lemma_delete_task_idempotent(rows: Seq<TaskRowModel>, id: int)
    ensures
        rows.filter(task_keeps(id)).filter(task_keeps(id)) == rows.filter(task_keeps(id)),
        (forall|i: int| 0 <= i < rows.len() ==> (#[trigger] rows[i]).id != id) ==> rows.filter(
            task_keeps(id),
        ) == rows,
{
    let f = rows.filter(task_keeps(id));
    assert forall|i: int| 0 <= i < f.len() implies task_keeps(id)(#[trigger] f[i]) by {
        rows.lemma_filter_pred(task_keeps(id), i);
    }
    lemma_filter_all(f, task_keeps(id));
    if forall|i: int| 0 <= i < rows.len() ==> (#[trigger] rows[i]).id != id {
        lemma_filter_all(rows, task_keeps(id));
    }
}

} // verus!
