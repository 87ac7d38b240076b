use vstd::prelude::*;
use vstd::relations::sorted_by;

use crate::dates::now_timestamp;
use crate::errors::AppError;
use crate::lexord::str_eq;
use crate::models::{Prompt, PromptModel};
use crate::ordering::{prompt_order, sort_prompts_desc};
use crate::seqfacts::{
    lemma_filter_all, lemma_filter_index, lemma_filter_ordered_pairs, lemma_filter_take_step,
};

verus! {

/// Some stored prompt carries this name.
pub open spec fn has_name(s: Seq<PromptModel>, name: Seq<char>) -> bool {
    exists|i: int| 0 <= i < s.len() && (#[trigger] s[i]).name == name
}

/// Some stored prompt carries this identity.
pub open spec fn has_id(s: Seq<PromptModel>, id: int) -> bool {
    exists|i: int| 0 <= i < s.len() && (#[trigger] s[i]).id == id
}

/// Some prompt other than `id` carries this name: what blocks a rename.
pub open spec fn name_taken_by_other(s: Seq<PromptModel>, id: int, name: Seq<char>) -> bool {
    exists|i: int| 0 <= i < s.len() && (#[trigger] s[i]).id != id && s[i].name == name
}

/// Rows whose `id` differs from `id`: what a delete keeps.
pub open spec fn prompt_keeps(id: int) -> spec_fn(PromptModel) -> bool {
    |m: PromptModel| m.id != id
}

/// `post` is `pre` with the one row of identity `id` overwritten by
/// `name` and `content` and stamped `t`, its creation time kept.
pub open spec fn prompt_overwritten(
    pre: Seq<PromptModel>,
    post: Seq<PromptModel>,
    id: int,
    name: Seq<char>,
    content: Seq<char>,
    t: int,
) -> bool {
    &&& post.len() == pre.len()
    &&& forall|k: int|
        0 <= k < pre.len() ==> (if (#[trigger] pre[k]).id == id {
            post[k] == (PromptModel {
                id,
                name,
                content,
                created_at: pre[k].created_at,
                updated_at: t,
            })
        } else {
            post[k] == pre[k]
        })
}

/// Durable storage for named text templates. Names are unique; only
/// prompts support in-place update, which refreshes `updated_at` and
/// never touches `created_at`.
pub struct PromptStore {
    prompts: Vec<Prompt>,
    next_id: i64,
}

impl PromptStore {
    /// The stored prompts, in insertion order.
    pub closed spec fn prompts_model(&self) -> Seq<PromptModel> {
        self.prompts.deep_view()
    }

    /// The identity the next inserted prompt will receive.
    pub closed spec fn next_prompt(&self) -> int {
        self.next_id as int
    }

    /// Identities and names are unique; identities stay below the next
    /// free one.
    pub closed spec fn wf(&self) -> bool {
        &&& forall|i: int|
            0 <= i < self.prompts_model().len() ==> (#[trigger] self.prompts_model()[i]).id
                < self.next_prompt()
        &&& forall|i: int, j: int|
            0 <= i < j < self.prompts_model().len() ==> (#[trigger] self.prompts_model()[i]).id
                != (#[trigger] self.prompts_model()[j]).id
        &&& forall|i: int, j: int|
            0 <= i < j < self.prompts_model().len() ==> (#[trigger] self.prompts_model()[i]).name
                != (#[trigger] self.prompts_model()[j]).name
    }

    /// An empty store.
    pub fn new() -> (r: Self)
        ensures
            r.wf(),
            r.prompts_model() == Seq::<PromptModel>::empty(),
            r.next_prompt() == 1,
    {
        let s = PromptStore { prompts: Vec::new(), next_id: 1 };
        proof {
            assert(s.prompts_model() =~= Seq::<PromptModel>::empty());
        }
        s
    }

    /// Inserts a prompt stamped with the instant `now`. A taken name is
    /// refused with `DuplicateName` and nothing changes; `WriteFailed`
    /// is identity exhaustion.
    pub fn add_prompt_at(&mut self, name: String, content: String, now: i64) -> (r: Result<
        i64,
        AppError,
    >)
        requires
            old(self).wf(),
        ensures
            final(self).wf(),
            r == Err::<i64, AppError>(AppError::DuplicateName) <==> has_name(
                old(self).prompts_model(),
                name@,
            ),
            match r {
                Ok(id) => {
                    &&& id as int == old(self).next_prompt()
                    &&& final(self).prompts_model() == old(self).prompts_model().push(
                        (PromptModel {
                            id: old(self).next_prompt(),
                            name: name@,
                            content: content@,
                            created_at: now as int,
                            updated_at: now as int,
                        }),
                    )
                    &&& final(self).next_prompt() == old(self).next_prompt() + 1
                },
                Err(e) => {
                    &&& final(self).prompts_model() == old(self).prompts_model()
                    &&& final(self).next_prompt() == old(self).next_prompt()
                    &&& (e == AppError::DuplicateName || e == AppError::WriteFailed)
                    &&& (e == AppError::WriteFailed ==> old(self).next_prompt() == i64::MAX
                        && !has_name(old(self).prompts_model(), name@))
                },
            },
            !has_name(old(self).prompts_model(), name@) && old(self).next_prompt() < i64::MAX
                ==> r is Ok,
    {
        let ghost m = self.prompts.deep_view();
        let mut i: usize = 0;
        while i < self.prompts.len()
            invariant
                i <= self.prompts.len(),
                m == self.prompts.deep_view(),
                m == old(self).prompts_model(),
                self.prompts_model() == old(self).prompts_model(),
                self.next_prompt() == old(self).next_prompt(),
                old(self).wf(),
                m.len() == self.prompts.len(),
                forall|k: int| 0 <= k < i ==> (#[trigger] m[k]).name != name@,
            decreases self.prompts.len() - i,
        {
            proof {
                assert(m[i as int] == self.prompts@[i as int].deep_view());
            }
            if str_eq(self.prompts[i].name.as_str(), name.as_str()) {
                return Err(AppError::DuplicateName);
            }
            i = i + 1;
        }
        if self.next_id == i64::MAX {
            return Err(AppError::WriteFailed);
        }
        let id = self.next_id;
        let ghost pre = self.prompts.deep_view();
        let row = Prompt { id, name, content, created_at: now, updated_at: now };
        let ghost rowm = row.deep_view();
        self.prompts.push(row);
        self.next_id = id + 1;
        proof {
            assert(pre == old(self).prompts_model());
            assert(self.prompts_model() =~= pre.push(rowm));
            let post = self.prompts_model();
            assert forall|a: int, b: int| 0 <= a < b < post.len() implies (#[trigger] post[a]).id
                != (#[trigger] post[b]).id && post[a].name != post[b].name by {
                assert(pre[a] == old(self).prompts_model()[a]);
                if b < pre.len() {
                    assert(pre[b] == old(self).prompts_model()[b]);
                }
            }
            assert forall|a: int| 0 <= a < post.len() implies (#[trigger] post[a]).id
                < self.next_prompt() by {
                if a < pre.len() {
                    assert(pre[a] == old(self).prompts_model()[a]);
                }
            }
        }
        Ok(id)
    }

    /// Inserts a prompt stamped with the current time, as
    /// `add_prompt_at` does with an explicit instant.
    pub fn add_prompt(&mut self, name: String, content: String) -> (r: Result<i64, AppError>)
        requires
            old(self).wf(),
        ensures
            final(self).wf(),
            r == Err::<i64, AppError>(AppError::DuplicateName) <==> has_name(
                old(self).prompts_model(),
                name@,
            ),
            r is Err ==> final(self).prompts_model() == old(self).prompts_model() && final(self).next_prompt() == old(self).next_prompt(),
            match r {
                Ok(id) => exists|t: int|
                    {
                        &&& id as int == old(self).next_prompt()
                        &&& final(self).prompts_model() == old(self).prompts_model().push(
                            (PromptModel {
                                id: old(self).next_prompt(),
                                name: name@,
                                content: content@,
                                created_at: t,
                                updated_at: t,
                            }),
                        )
                        &&& final(self).next_prompt() == old(self).next_prompt() + 1
                    },
                Err(e) => e == AppError::DuplicateName || e == AppError::WriteFailed,
            },
            !has_name(old(self).prompts_model(), name@) && old(self).next_prompt() < i64::MAX
                ==> r is Ok,
    {
        let now = now_timestamp();
        let r = self.add_prompt_at(name, content, now);
        proof {
            if r is Ok {
                assert(now as int == now as int);
            }
        }
        r
    }

    /// Every stored prompt, most recently updated first.
    pub fn get_prompts(&self) -> (r: Vec<Prompt>)
        ensures
            r.deep_view().to_multiset() == self.prompts_model().to_multiset(),
            sorted_by(r.deep_view(), prompt_order()),
    {
        let ghost m = self.prompts.deep_view();
        let mut all: Vec<Prompt> = Vec::new();
        let mut i: usize = 0;
        proof {
            assert(all.deep_view() =~= m.take(0));
        }
        while i < self.prompts.len()
            invariant
                i <= self.prompts.len(),
                m == self.prompts.deep_view(),
                m.len() == self.prompts.len(),
                all.deep_view() == m.take(i as int),
            decreases self.prompts.len() - i,
        {
            proof {
                assert(m[i as int] == self.prompts@[i as int].deep_view());
            }
            let ghost apre = all.deep_view();
            all.push(self.prompts[i].clone());
            proof {
                assert(all.deep_view() =~= apre.push(m[i as int]));
                assert(all.deep_view() =~= m.take(i as int + 1));
            }
            i = i + 1;
        }
        proof {
            assert(m.take(m.len() as int) =~= m);
        }
        sort_prompts_desc(all)
    }

    /// Overwrites the prompt with identity `id`, refreshing its update
    /// stamp to the instant `now`; a missing identity is a silent no-op.
    /// Renaming onto another prompt's name is refused with
    /// `DuplicateName` and nothing changes.
    pub fn update_prompt_at(&mut self, id: i64, name: String, content: String, now: i64) -> (r:
        Result<(), AppError>)
        requires
            old(self).wf(),
        ensures
            final(self).wf(),
            final(self).next_prompt() == old(self).next_prompt(),
            r == Err::<(), AppError>(AppError::DuplicateName) <==> (has_id(
                old(self).prompts_model(),
                id as int,
            ) && name_taken_by_other(old(self).prompts_model(), id as int, name@)),
            r is Err ==> final(self).prompts_model() == old(self).prompts_model(),
            !has_id(old(self).prompts_model(), id as int) ==> r is Ok && final(self).prompts_model() == old(self).prompts_model(),
            (has_id(old(self).prompts_model(), id as int) && !name_taken_by_other(
                old(self).prompts_model(),
                id as int,
                name@,
            )) ==> r is Ok && final(self).prompts_model().len() == old(
                self,
            ).prompts_model().len() && (forall|k: int|
                0 <= k < old(self).prompts_model().len() ==> (if (
                #[trigger] old(self).prompts_model()[k]).id == id as int {
                    final(self).prompts_model()[k] == (PromptModel {
                        id: id as int,
                        name: name@,
                        content: content@,
                        created_at: old(self).prompts_model()[k].created_at,
                        updated_at: now as int,
                    })
                } else {
                    final(self).prompts_model()[k] == old(self).prompts_model()[k]
                })),
    {
        let ghost m = self.prompts.deep_view();
        let mut conflict: bool = false;
        let mut i: usize = 0;
        while i < self.prompts.len()
            invariant
                i <= self.prompts.len(),
                m == self.prompts.deep_view(),
                m.len() == self.prompts.len(),
                conflict <==> exists|k: int|
                    0 <= k < i && (#[trigger] m[k]).id != id as int && m[k].name == name@,
            decreases self.prompts.len() - i,
        {
            proof {
                assert(m[i as int] == self.prompts@[i as int].deep_view());
            }
            if self.prompts[i].id != id {
                if str_eq(self.prompts[i].name.as_str(), name.as_str()) {
                    conflict = true;
                }
            }
            i = i + 1;
        }
        let mut found: bool = false;
        let mut j: usize = 0;
        while j < self.prompts.len()
            invariant
                j <= self.prompts.len(),
                m == self.prompts.deep_view(),
                m.len() == self.prompts.len(),
                found <==> exists|k: int| 0 <= k < j && (#[trigger] m[k]).id == id as int,
            decreases self.prompts.len() - j,
        {
            proof {
                assert(m[j as int] == self.prompts@[j as int].deep_view());
            }
            if self.prompts[j].id == id {
                found = true;
            }
            j = j + 1;
        }
        proof {
            assert(found == has_id(m, id as int));
            assert(conflict == name_taken_by_other(m, id as int, name@));
        }
        if !found {
            return Ok(());
        }
        if conflict {
            return Err(AppError::DuplicateName);
        }
        // The identity exists and no other row carries the name: rebuild
        // with the one row overwritten.
        let ghost pre = self.prompts.deep_view();
        let mut out: Vec<Prompt> = Vec::new();
        let mut k: usize = 0;
        proof {
            assert(out.deep_view() =~= Seq::<PromptModel>::empty());
        }
        while k < self.prompts.len()
            invariant
                k <= self.prompts.len(),
                pre == self.prompts.deep_view(),
                pre.len() == self.prompts.len(),
                out.deep_view().len() == k,
                forall|t: int|
                    0 <= t < k ==> (if (#[trigger] pre[t]).id == id as int {
                        out.deep_view()[t] == (PromptModel {
                            id: id as int,
                            name: name@,
                            content: content@,
                            created_at: pre[t].created_at,
                            updated_at: now as int,
                        })
                    } else {
                        out.deep_view()[t] == pre[t]
                    }),
            decreases self.prompts.len() - k,
        {
            proof {
                assert(pre[k as int] == self.prompts@[k as int].deep_view());
            }
            let ghost opre = out.deep_view();
            if self.prompts[k].id == id {
                let updated = Prompt {
                    id,
                    name: name.clone(),
                    content: content.clone(),
                    created_at: self.prompts[k].created_at,
                    updated_at: now,
                };
                let ghost um = updated.deep_view();
                out.push(updated);
                proof {
                    assert(out.deep_view() =~= opre.push(um));
                }
            } else {
                out.push(self.prompts[k].clone());
                proof {
                    assert(out.deep_view() =~= opre.push(pre[k as int]));
                }
            }
            k = k + 1;
        }
        self.prompts = out;
        proof {
            lemma_update_wf(pre, self.prompts_model(), id as int, name@, old(self).next_prompt());
        }
        Ok(())
    }

    /// Overwrites the prompt with identity `id`, stamping the current
    /// time, as `update_prompt_at` does with an explicit instant.
    pub fn update_prompt(&mut self, id: i64, name: String, content: String) -> (r: Result<
        (),
        AppError,
    >)
        requires
            old(self).wf(),
        ensures
            final(self).wf(),
            final(self).next_prompt() == old(self).next_prompt(),
            r == Err::<(), AppError>(AppError::DuplicateName) <==> (has_id(
                old(self).prompts_model(),
                id as int,
            ) && name_taken_by_other(old(self).prompts_model(), id as int, name@)),
            r is Err ==> final(self).prompts_model() == old(self).prompts_model(),
            !has_id(old(self).prompts_model(), id as int) ==> r is Ok && final(self).prompts_model() == old(self).prompts_model(),
            (has_id(old(self).prompts_model(), id as int) && !name_taken_by_other(
                old(self).prompts_model(),
                id as int,
                name@,
            )) ==> r is Ok && exists|t: int|
                prompt_overwritten(
                    old(self).prompts_model(),
                    final(self).prompts_model(),
                    id as int,
                    name@,
                    content@,
                    t,
                ),
    {
        let ghost pre = self.prompts.deep_view();
        let now = now_timestamp();
        let ghost namev = name@;
        let ghost contentv = content@;
        let r = self.update_prompt_at(id, name, content, now);
        proof {
            if has_id(pre, id as int) && !name_taken_by_other(pre, id as int, namev) {
                assert(prompt_overwritten(
                    pre,
                    self.prompts_model(),
                    id as int,
                    namev,
                    contentv,
                    now as int,
                ));
            }
        }
        r
    }

    /// Physically removes the prompt with identity `id`; removing an
    /// absent identity keeps every row and is no error.
    pub fn delete_prompt(&mut self, id: i64) -> (r: Result<(), AppError>)
        requires
            old(self).wf(),
        ensures
            final(self).wf(),
            r is Ok,
            final(self).prompts_model() == old(self).prompts_model().filter(
                prompt_keeps(id as int),
            ),
            final(self).next_prompt() == old(self).next_prompt(),
            (forall|i: int|
                0 <= i < old(self).prompts_model().len() ==> (#[trigger] old(
                    self,
                ).prompts_model()[i]).id != id as int) ==> final(self).prompts_model() == old(
                self,
            ).prompts_model(),
    {
        let ghost rows = self.prompts.deep_view();
        let ghost pred = prompt_keeps(id as int);
        let mut kept: Vec<Prompt> = Vec::new();
        let mut i: usize = 0;
        proof {
            assert(kept.deep_view() =~= rows.take(0).filter(pred));
        }
        while i < self.prompts.len()
            invariant
                i <= self.prompts.len(),
                rows == self.prompts.deep_view(),
                pred == prompt_keeps(id as int),
                rows.len() == self.prompts.len(),
                kept.deep_view() == rows.take(i as int).filter(pred),
            decreases self.prompts.len() - i,
        {
            proof {
                lemma_filter_take_step(rows, pred, i as int);
                assert(rows[i as int] == self.prompts@[i as int].deep_view());
            }
            let ghost kpre = kept.deep_view();
            if self.prompts[i].id != id {
                kept.push(self.prompts[i].clone());
                proof {
                    assert(kept.deep_view() =~= kpre.push(rows[i as int]));
                }
            }
            i = i + 1;
        }
        proof {
            assert(rows.take(rows.len() as int) =~= rows);
        }
        self.prompts = kept;
        proof {
            let f = rows.filter(pred);
            assert forall|a: int| 0 <= a < f.len() implies (#[trigger] f[a]).id
                < old(self).next_prompt() by {
                lemma_filter_index(rows, pred, a);
                let p = choose|p: int| 0 <= p < rows.len() && rows[p] == f[a];
                assert(old(self).prompts_model()[p] == rows[p]);
            }
            assert forall|a: int, b: int| 0 <= a < b < f.len() implies (#[trigger] f[a]).id != (
            #[trigger] f[b]).id && f[a].name != f[b].name by {
                lemma_filter_ordered_pairs(rows, pred, a, b);
                let (p, q) = choose|p: int, q: int|
                    0 <= p < q < rows.len() && rows[p] == f[a] && rows[q] == f[b];
                assert(old(self).prompts_model()[p] == rows[p]);
                assert(old(self).prompts_model()[q] == rows[q]);
            }
            if forall|a: int| 0 <= a < rows.len() ==> (#[trigger] rows[a]).id != id as int {
                lemma_filter_all(rows, pred);
            }
        }
        Ok(())
    }
}

/// An in-place overwrite that keeps identities, does not duplicate an
/// existing name, and touches exactly one row preserves well-formedness.
proof fn lemma_update_wf(
    pre: Seq<PromptModel>,
    post: Seq<PromptModel>,
    id: int,
    name: Seq<char>,
    next: int,
)
    requires
        post.len() == pre.len(),
        forall|i: int| 0 <= i < pre.len() ==> (#[trigger] pre[i]).id < next,
        forall|i: int, j: int|
            0 <= i < j < pre.len() ==> (#[trigger] pre[i]).id != (#[trigger] pre[j]).id,
        forall|i: int, j: int|
            0 <= i < j < pre.len() ==> (#[trigger] pre[i]).name != (#[trigger] pre[j]).name,
        forall|k: int| 0 <= k < pre.len() ==> !((#[trigger] pre[k]).id != id && pre[k].name == name),
        forall|t: int|
            0 <= t < pre.len() ==> (#[trigger] post[t]).id == pre[t].id && (if pre[t].id == id {
                post[t].name == name
            } else {
                post[t] == pre[t]
            }),
    ensures
        forall|i: int| 0 <= i < post.len() ==> (#[trigger] post[i]).id < next,
        forall|i: int, j: int|
            0 <= i < j < post.len() ==> (#[trigger] post[i]).id != (#[trigger] post[j]).id,
        forall|i: int, j: int|
            0 <= i < j < post.len() ==> (#[trigger] post[i]).name != (#[trigger] post[j]).name,
{
    assert forall|i: int, j: int| 0 <= i < j < post.len() implies (#[trigger] post[i]).name != (
    #[trigger] post[j]).name by {
        if pre[i].id == id && pre[j].id == id {
            assert(pre[i].id == pre[j].id);
        } else if pre[i].id == id {
            assert(post[j] == pre[j]);
            assert(!(pre[j].id != id && pre[j].name == name));
        } else if pre[j].id == id {
            assert(post[i] == pre[i]);
            assert(!(pre[i].id != id && pre[i].name == name));
        }
    }
}

} // verus!
