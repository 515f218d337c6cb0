use vstd::prelude::*;

use crate::error::StoreError;
use crate::ids::random_id;
use crate::items::{build_items, build_items_post, item_resolves, lemma_commit_plan_items};
use crate::model::{ExecutionItem, PlanItem, Store};
use crate::plans::plan_active;
use crate::text::{names_view, normalize_items, normalized_names};

verus! {

/// The finished timestamp an old checklist carries for an action name: that
/// of the last old line whose action bears the name, absent when no line
/// does. Matching is by name, not by row identity, so progress survives a
/// full structural replacement of the template.
pub open spec fn carried_progress(pre: Store, old_items: Seq<ExecutionItem>, n: Seq<char>) -> Option<
    i64,
>
    decreases old_items.len(),
{
    if old_items.len() == 0 {
        None
    } else if pre.action_name_of(old_items.last().action_id) == n {
        old_items.last().finished
    } else {
        carried_progress(pre, old_items.drop_last(), n)
    }
}

/// The rebuilt checklist of a reconciled execution: one line per new
/// template slot, in template order, each line pointing at the slot's action
/// and carrying the progress the old checklist had recorded under that
/// action's name; ids fresh and unique.
pub open spec fn reconciled_items(
    pre: Store,
    old_items: Seq<ExecutionItem>,
    plan_items: Seq<PlanItem>,
    names: Seq<Seq<char>>,
    new_items: Seq<ExecutionItem>,
) -> bool {
    &&& new_items.len() == plan_items.len()
    &&& forall|k: int|
        0 <= k < new_items.len() ==> (#[trigger] new_items[k]).action_id
            == plan_items[k].action_id
    &&& forall|k: int|
        0 <= k < new_items.len() ==> (#[trigger] new_items[k]).finished == carried_progress(
            pre,
            old_items,
            names[k],
        )
    &&& forall|k: int| 0 <= k < new_items.len() ==> !pre.id_in_use((#[trigger] new_items[k]).id)
    &&& forall|k1: int, k2: int|
        0 <= k1 < k2 < new_items.len() ==> (#[trigger] new_items[k1]).id != (
        #[trigger] new_items[k2]).id
}

pub open spec fn exec_items_has_id(items: Seq<ExecutionItem>, id: u128) -> bool {
    exists|i: int| 0 <= i < items.len() && (#[trigger] items[i]).id == id
}

/// Draws an id that no store row and no freshly built checklist line
/// carries.
pub(crate) fn fresh_execution_item_id(base: &Store, items: &Vec<ExecutionItem>) -> (r: Option<u128>)
    ensures
        match r {
            Some(id) => !base.id_in_use(id) && !exec_items_has_id(items@, id),
            None => true,
        },
{
    let id = random_id();
    if base.uses_id(id) {
        return None;
    }
    let n = items.len();
    for i in 0..n
        invariant
            n == items@.len(),
            forall|j: int| 0 <= j < i ==> (#[trigger] items@[j]).id != id,
    {
        if items[i].id == id {
            return None;
        }
    }
    Some(id)
}

/// Finds the progress the old checklist carries for a name: the finished
/// timestamp of the last line whose action bears the name.
fn find_carried(base: &Store, items: &Vec<ExecutionItem>, name: &String) -> (r: Option<i64>)
    requires
        base.wf(),
        forall|k: int|
            0 <= k < items@.len() ==> base.has_action_id((#[trigger] items@[k]).action_id),
    ensures
        r == carried_progress(*base, items@, name@),
{
    let mut j = items.len();
    proof {
        assert(items@.take(j as int) =~= items@);
    }
    while j > 0
        invariant
            base.wf(),
            j <= items@.len(),
            forall|k: int|
                0 <= k < items@.len() ==> base.has_action_id((#[trigger] items@[k]).action_id),
            carried_progress(*base, items@, name@) == carried_progress(
                *base,
                items@.take(j as int),
                name@,
            ),
        decreases j,
    {
        let k = j - 1;
        proof {
            assert(base.has_action_id(items@[k as int].action_id));
        }
        let matches_name = match base.action_index_by_id(items[k].action_id) {
            Some(a) => {
                let same = base.actions[a].name.eq(name);
                proof {
                    base.lemma_action_idx_of_id(a as int);
                }
                same
            },
            None => {
                proof {
                    assert(false);
                }
                false
            },
        };
        proof {
            let cur = items@.take(j as int);
            assert(cur.last() == items@[k as int]);
            assert(cur.drop_last() =~= items@.take(k as int));
        }
        if matches_name {
            return items[k].finished;
        }
        j = k;
    }
    proof {
        assert(items@.take(0).len() == 0);
    }
    None
}

/// Swapping one execution's checklist for fresh, unique, resolvable lines
/// keeps the store well formed.
pub(crate) proof fn lemma_commit_execution_items(mid: Store, post: Store, e: int)
    requires
        mid.wf(),
        0 <= e < mid.executions@.len(),
        post.actions == mid.actions,
        post.plans == mid.plans,
        post.executions@.len() == mid.executions@.len(),
        forall|f: int|
            0 <= f < mid.executions@.len() && f != e ==> post.executions@[f]
                == mid.executions@[f],
        post.executions@[e].id == mid.executions@[e].id,
        post.executions@[e].plan_id == mid.executions@[e].plan_id,
        forall|k: int|
            0 <= k < post.executions@[e].items@.len() ==> mid.has_action_id(
                (#[trigger] post.executions@[e].items@[k]).action_id,
            ),
        forall|k: int|
            0 <= k < post.executions@[e].items@.len() ==> !mid.has_execution_item_id(
                (#[trigger] post.executions@[e].items@[k]).id,
            ),
        forall|k1: int, k2: int|
            0 <= k1 < k2 < post.executions@[e].items@.len() ==> (
            #[trigger] post.executions@[e].items@[k1]).id != (
            #[trigger] post.executions@[e].items@[k2]).id,
    ensures
        post.wf(),
{
    assert(post.actions_wf());
    assert forall|q: int, k: int|
        0 <= q < post.plans@.len() && 0 <= k < post.plans@[q].items@.len() implies post.has_action_id(
        (#[trigger] post.plans@[q].items@[k]).action_id,
    ) by {
        assert(mid.has_action_id(mid.plans@[q].items@[k].action_id));
    }
    assert(post.plans_wf());
    assert forall|i: int, j: int| 0 <= i < j < post.executions@.len() implies (
    #[trigger] post.executions@[i]).id != (#[trigger] post.executions@[j]).id by {
        assert(post.executions@[i].id == mid.executions@[i].id);
        assert(post.executions@[j].id == mid.executions@[j].id);
    }
    assert forall|f: int| 0 <= f < post.executions@.len() implies post.has_plan_id(
        (#[trigger] post.executions@[f]).plan_id,
    ) by {
        assert(post.executions@[f].plan_id == mid.executions@[f].plan_id);
        assert(mid.has_plan_id(mid.executions@[f].plan_id));
    }
    assert forall|f: int, k: int|
        0 <= f < post.executions@.len() && 0 <= k < post.executions@[f].items@.len() implies post.has_action_id(
        (#[trigger] post.executions@[f].items@[k]).action_id,
    ) by {
        if f != e {
            assert(post.executions@[f] == mid.executions@[f]);
            assert(mid.has_action_id(mid.executions@[f].items@[k].action_id));
        }
    }
    assert forall|e1: int, k1: int, e2: int, k2: int|
        0 <= e1 < post.executions@.len() && 0 <= k1 < post.executions@[e1].items@.len() && 0 <= e2
            < post.executions@.len() && 0 <= k2 < post.executions@[e2].items@.len() && (e1 != e2
            || k1 != k2) implies (#[trigger] post.executions@[e1].items@[k1]).id != (
    #[trigger] post.executions@[e2].items@[k2]).id by {
        if e1 == e && e2 == e {
        } else if e1 == e {
            assert(post.executions@[e2] == mid.executions@[e2]);
            assert(mid.has_execution_item_id(mid.executions@[e2].items@[k2].id));
        } else if e2 == e {
            assert(post.executions@[e1] == mid.executions@[e1]);
            assert(mid.has_execution_item_id(mid.executions@[e1].items@[k1].id));
        } else {
            assert(post.executions@[e1] == mid.executions@[e1]);
            assert(post.executions@[e2] == mid.executions@[e2]);
            assert(mid.executions@[e1].items@[k1].id != mid.executions@[e2].items@[k2].id);
        }
    }
    assert(post.executions_wf());
}

/// What a combined rename, template replacement and reconciliation leaves
/// behind. On success the plan carries the new name and the normalized
/// template; when an execution id was given, that execution's checklist is
/// rebuilt against the new template with progress matched over by action
/// name, its metadata untouched. `NotFound` exactly when the plan is missing
/// or deleted, or the named execution is missing; an internal error changes
/// nothing.
pub open spec fn edit_plan_post(
    pre: Store,
    post: Store,
    plan_id: u128,
    new_name: String,
    submitted: Seq<Seq<char>>,
    execution_id: Option<u128>,
    r: Result<(), StoreError>,
) -> bool {
    match r {
        Ok(u) => {
            &&& plan_active(pre, plan_id)
            &&& ({
                let p = pre.plan_idx_of_id(plan_id);
                &&& post.plans@.len() == pre.plans@.len()
                &&& forall|q: int|
                    0 <= q < pre.plans@.len() && q != p ==> post.plans@[q] == pre.plans@[q]
                &&& post.plans@[p].id == plan_id
                &&& post.plans@[p].name == new_name
                &&& post.plans@[p].deleted_at == pre.plans@[p].deleted_at
                &&& post.template_of(post.plans@[p]) == normalized_names(submitted)
                &&& build_items_post(
                    pre,
                    normalized_names(submitted),
                    post.actions@,
                    post.plans@[p].items@,
                )
                &&& match execution_id {
                    None => post.executions == pre.executions,
                    Some(eid) => {
                        &&& pre.has_execution_id(eid)
                        &&& ({
                            let e = pre.execution_idx_of_id(eid);
                            &&& post.executions@.len() == pre.executions@.len()
                            &&& forall|f: int|
                                0 <= f < pre.executions@.len() && f != e ==> post.executions@[f]
                                    == pre.executions@[f]
                            &&& post.executions@[e].id == eid
                            &&& post.executions@[e].plan_id == pre.executions@[e].plan_id
                            &&& post.executions@[e].started == pre.executions@[e].started
                            &&& post.executions@[e].finished == pre.executions@[e].finished
                            &&& reconciled_items(
                                pre,
                                pre.executions@[e].items@,
                                post.plans@[p].items@,
                                normalized_names(submitted),
                                post.executions@[e].items@,
                            )
                        })
                    },
                }
            })
        },
        Err(e) => {
            &&& post == pre
            &&& (e == StoreError::NotFound || e == StoreError::Internal)
            &&& (e == StoreError::NotFound <==> (!plan_active(pre, plan_id) || (match execution_id {
                Some(eid) => !pre.has_execution_id(eid),
                None => false,
            })))
            &&& (e == StoreError::Internal ==> normalized_names(submitted).len() > 0)
        },
    }
}

impl Store {
    /// Renames an active plan and replaces its template with the normalized
    /// submitted names; when an execution id is given, that execution's
    /// checklist is rebuilt against the new template in the same atomic
    /// step, carrying progress over by action name. On any error the store
    /// is unchanged, and an empty submission, which draws no ids, cannot
    /// fail internally.
    pub fn edit_plan(
        &mut self,
        plan_id: u128,
        name: String,
        item_names: Option<Vec<String>>,
        execution_id: Option<u128>,
    ) -> (r: Result<(), StoreError>)
        requires
            old(self).wf(),
        ensures
            final(self).wf(),
            edit_plan_post(
                *old(self),
                *final(self),
                plan_id,
                name,
                names_view(item_names),
                execution_id,
                r,
            ),
    {
        let ghost pre = *self;
        let ghost submitted = names_view(item_names);
        let normalized = normalize_items(item_names);
        let ghost norm = normalized@.map_values(|s: String| s@);
        let p = match self.plan_index_by_id(plan_id) {
            None => {
                return Err(StoreError::NotFound);
            },
            Some(p) => p,
        };
        proof {
            pre.lemma_plan_idx_of_id(p as int);
        }
        let active = match self.plans[p].deleted_at {
            Some(v) => v <= 0,
            None => true,
        };
        if !active {
            return Err(StoreError::NotFound);
        }
        let e_opt: Option<usize> = match execution_id {
            None => None,
            Some(eid) => {
                match self.execution_index_by_id(eid) {
                    None => {
                        return Err(StoreError::NotFound);
                    },
                    Some(e) => {
                        proof {
                            pre.lemma_execution_idx_of_id(e as int);
                        }
                        Some(e)
                    },
                }
            },
        };
        let (acts, new_plan_items) = match build_items(self, &normalized) {
            Err(e) => {
                return Err(e);
            },
            Ok(pair) => pair,
        };
        // rebuild the execution's checklist against the new template before
        // committing anything, so a failed draw leaves the store untouched
        let rebuilt: Option<(usize, Vec<ExecutionItem>)> = match e_opt {
            None => None,
            Some(e) => {
                let n_items = new_plan_items.len();
                proof {
                    assert(norm.len() == n_items as int);
                    assert forall|k2: int|
                        0 <= k2 < self.executions@[e as int].items@.len() implies self.has_action_id(
                        (#[trigger] self.executions@[e as int].items@[k2]).action_id,
                    ) by {
                        assert(pre.executions_wf());
                    }
                }
                let mut out: Vec<ExecutionItem> = Vec::new();
                for k in 0..n_items
                    invariant
                        *self == pre,
                        pre.wf(),
                        plan_active(pre, plan_id),
                        match execution_id {
                            Some(eid) => pre.has_execution_id(eid),
                            None => false,
                        },
                        e < self.executions@.len(),
                        n_items == new_plan_items@.len(),
                        n_items == norm.len(),
                        norm == normalized@.map_values(|s: String| s@),
                        norm == normalized_names(names_view(item_names)),
                        n_items == normalized@.len(),
                        forall|k2: int|
                            0 <= k2 < self.executions@[e as int].items@.len()
                                ==> self.has_action_id(
                                (#[trigger] self.executions@[e as int].items@[k2]).action_id,
                            ),
                        out@.len() == k,
                        forall|j: int|
                            0 <= j < k ==> (#[trigger] out@[j]).action_id
                                == new_plan_items@[j].action_id,
                        forall|j: int|
                            0 <= j < k ==> (#[trigger] out@[j]).finished == carried_progress(
                                pre,
                                pre.executions@[e as int].items@,
                                norm[j],
                            ),
                        forall|j: int| 0 <= j < k ==> !pre.id_in_use((#[trigger] out@[j]).id),
                        forall|j1: int, j2: int|
                            0 <= j1 < j2 < k ==> (#[trigger] out@[j1]).id != (
                            #[trigger] out@[j2]).id,
                {
                    let fin = find_carried(self, &self.executions[e].items, &normalized[k]);
                    let iid = match fresh_execution_item_id(self, &out) {
                        None => {
                            return Err(StoreError::Internal);
                        },
                        Some(v) => v,
                    };
                    proof {
                        assert(norm[k as int] == normalized@[k as int]@);
                    }
                    out.push(
                        ExecutionItem {
                            id: iid,
                            action_id: new_plan_items[k].action_id,
                            finished: fin,
                        },
                    );
                }
                Some((e, out))
            },
        };
        // commit: rename the plan, swap in the new template and the grown
        // registry
        let mut plan = self.plans.remove(p);
        plan.name = name;
        plan.items = new_plan_items;
        let ghost updated = plan;
        self.plans.insert(p, plan);
        self.actions = acts;
        let ghost mid = *self;
        proof {
            assert(self.plans@ =~= pre.plans@.update(p as int, updated));
            lemma_commit_plan_items(pre, mid, p as int, normalized_names(submitted));
        }
        // commit: swap in the rebuilt checklist
        match rebuilt {
            None => {
                proof {
                    assert(self.executions == pre.executions);
                }
                Ok(())
            },
            Some((e, new_exec_items)) => {
                let ghost new_items_view = new_exec_items@;
                let mut ex = self.executions.remove(e);
                ex.items = new_exec_items;
                let ghost updated_ex = ex;
                self.executions.insert(e, ex);
                proof {
                    assert(self.executions@ =~= mid.executions@.update(e as int, updated_ex));
                    assert forall|k: int| 0 <= k < new_items_view.len() implies mid.has_action_id(
                        (#[trigger] new_items_view[k]).action_id,
                    ) by {
                        assert(new_items_view[k].action_id
                            == mid.plans@[p as int].items@[k].action_id);
                        assert(mid.plans_wf());
                    }
                    assert forall|k: int|
                        0 <= k < new_items_view.len() implies !mid.has_execution_item_id(
                        (#[trigger] new_items_view[k]).id,
                    ) by {
                        if mid.has_execution_item_id(new_items_view[k].id) {
                            assert(pre.has_execution_item_id(new_items_view[k].id));
                            assert(pre.id_in_use(new_items_view[k].id));
                        }
                    }
                    lemma_commit_execution_items(mid, *self, e as int);
                    let names = normalized_names(submitted);
                    assert forall|k: int| 0 <= k < names.len() implies #[trigger] self.template_of(
                        self.plans@[p as int],
                    )[k] == names[k] by {
                        assert(item_resolves(
                            self.actions@,
                            self.plans@[p as int].items@[k],
                            names[k],
                        ));
                        let a = choose|a: int|
                            0 <= a < self.actions@.len() && (#[trigger] self.actions@[a]).id
                                == self.plans@[p as int].items@[k].action_id
                                && self.actions@[a].name@ == names[k];
                        self.lemma_action_idx_of_id(a);
                    }
                    assert(self.template_of(self.plans@[p as int]) =~= names);
                }
                Ok(())
            },
        }
    }
}


/// Law: reconciliation matches by name. When line `i` is the last old line
/// whose action bears the name, the progress carried for that name is
/// exactly that line's finished mark — so checked lines keep their marks
/// across reordering, renaming of the plan, and insertion or removal of
/// unrelated lines.
pub proof fn lemma_carried_progress_finds_named_line(
    pre: Store,
    old_items: Seq<ExecutionItem>,
    i: int,
    n: Seq<char>,
)
    requires
        0 <= i < old_items.len(),
        pre.action_name_of(old_items[i].action_id) == n,
        forall|j: int|
            i < j < old_items.len() ==> pre.action_name_of(
                (#[trigger] old_items[j]).action_id,
            ) != n,
    ensures
        carried_progress(pre, old_items, n) == old_items[i].finished,
    decreases old_items.len(),
{
    if i == old_items.len() - 1 {
        assert(old_items.last() == old_items[i]);
    } else {
        assert(old_items.last() == old_items[old_items.len() - 1]);
        assert(pre.action_name_of(old_items.last().action_id) != n);
        let front = old_items.drop_last();
        assert(front[i] == old_items[i]);
        assert forall|j: int|
            i < j < front.len() implies pre.action_name_of(
            (#[trigger] front[j]).action_id,
        ) != n by {
            assert(front[j] == old_items[j]);
        }
        lemma_carried_progress_finds_named_line(pre, front, i, n);
    }
}

/// Law: a name no old line bears carries no progress — a new or renamed
/// line starts unchecked.
pub proof fn lemma_carried_progress_absent(pre: Store, old_items: Seq<ExecutionItem>, n: Seq<char>)
    requires
        forall|j: int|
            0 <= j < old_items.len() ==> pre.action_name_of(
                (#[trigger] old_items[j]).action_id,
            ) != n,
    ensures
        carried_progress(pre, old_items, n) is None,
    decreases old_items.len(),
{
    if old_items.len() > 0 {
        assert(old_items.last() == old_items[old_items.len() - 1]);
        let front = old_items.drop_last();
        assert forall|j: int|
            0 <= j < front.len() implies pre.action_name_of(
            (#[trigger] front[j]).action_id,
        ) != n by {
            assert(front[j] == old_items[j]);
        }
        lemma_carried_progress_absent(pre, front, n);
    }
}

} // verus!
