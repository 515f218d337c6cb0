use vstd::prelude::*;

use crate::error::StoreError;
use crate::ids::fresh_id;
use crate::model::{Execution, ExecutionItem, Store, ts_is_set};
use crate::reconcile::fresh_execution_item_id;

verus! {

/// How long after completion an execution may still be reopened, in seconds.
pub const REOPEN_WINDOW_SECONDS: i64 = 24 * 60 * 60;

/// An execution is completed when its finished timestamp is set; otherwise
/// it is open. There are no other states.
pub open spec fn execution_completed(e: Execution) -> bool {
    ts_is_set(e.finished)
}

/// Whether a completed execution may still be reopened at `now`.
pub open spec fn within_reopen_window(finished: i64, now: i64) -> bool {
    now - finished <= REOPEN_WINDOW_SECONDS
}

/// Every checklist line of the execution is checked.
pub open spec fn all_items_finished(e: Execution) -> bool {
    forall|k: int| 0 <= k < e.items@.len() ==> ts_is_set((#[trigger] e.items@[k]).finished)
}

impl Store {
    /// Where the execution item with the given id sits: an (execution index,
    /// item index) pair (meaningful under `wf` when the id is present).
    pub open spec fn execution_item_loc(self, id: u128) -> (int, int) {
        choose|e: int, k: int|
            0 <= e < self.executions@.len() && 0 <= k < self.executions@[e].items@.len()
                && (#[trigger] self.executions@[e].items@[k]).id == id
    }

    /// Under globally unique execution item ids, `execution_item_loc` finds
    /// exactly the position that carries the id.
    pub proof fn lemma_execution_item_loc(self, e: int, k: int)
        requires
            self.executions_wf(),
            0 <= e < self.executions@.len(),
            0 <= k < self.executions@[e].items@.len(),
        ensures
            self.execution_item_loc(self.executions@[e].items@[k].id) == (e, k),
            self.has_execution_item_id(self.executions@[e].items@[k].id),
    {
        let id = self.executions@[e].items@[k].id;
        assert(self.has_execution_item_id(id));
        let (e2, k2) = self.execution_item_loc(id);
        if e2 != e || k2 != k {
            assert(self.executions@[e2].items@[k2].id != self.executions@[e].items@[k].id);
        }
    }
}

/// Changing only the finished marks inside executions (ids, actions, plans
/// and item structure untouched) keeps the store well formed.
pub(crate) proof fn lemma_update_execution_wf(pre: Store, post: Store, e: int)
    requires
        pre.wf(),
        0 <= e < pre.executions@.len(),
        post.actions == pre.actions,
        post.plans == pre.plans,
        post.executions@.len() == pre.executions@.len(),
        forall|f: int|
            0 <= f < pre.executions@.len() && f != e ==> post.executions@[f]
                == pre.executions@[f],
        post.executions@[e].id == pre.executions@[e].id,
        post.executions@[e].plan_id == pre.executions@[e].plan_id,
        post.executions@[e].items@.len() == pre.executions@[e].items@.len(),
        forall|k: int|
            0 <= k < pre.executions@[e].items@.len() ==> (
            #[trigger] post.executions@[e].items@[k]).id == pre.executions@[e].items@[k].id && (
            post.executions@[e].items@[k]).action_id == pre.executions@[e].items@[k].action_id,
    ensures
        post.wf(),
{
    assert(post.actions_wf());
    assert forall|q: int, k: int|
        0 <= q < post.plans@.len() && 0 <= k < post.plans@[q].items@.len() implies post.has_action_id(
        (#[trigger] post.plans@[q].items@[k]).action_id,
    ) by {
        assert(pre.has_action_id(pre.plans@[q].items@[k].action_id));
    }
    assert(post.plans_wf());
    assert forall|i: int, j: int| 0 <= i < j < post.executions@.len() implies (
    #[trigger] post.executions@[i]).id != (#[trigger] post.executions@[j]).id by {
        assert(post.executions@[i].id == pre.executions@[i].id);
        assert(post.executions@[j].id == pre.executions@[j].id);
    }
    assert forall|f: int| 0 <= f < post.executions@.len() implies post.has_plan_id(
        (#[trigger] post.executions@[f]).plan_id,
    ) by {
        assert(post.executions@[f].plan_id == pre.executions@[f].plan_id);
        assert(pre.has_plan_id(pre.executions@[f].plan_id));
    }
    assert forall|f: int, k: int|
        0 <= f < post.executions@.len() && 0 <= k < post.executions@[f].items@.len() implies post.has_action_id(
        (#[trigger] post.executions@[f].items@[k]).action_id,
    ) by {
        if f == e {
            assert(post.executions@[e].items@[k].action_id
                == pre.executions@[e].items@[k].action_id);
        }
        assert(pre.has_action_id(pre.executions@[f].items@[k].action_id));
    }
    assert forall|e1: int, k1: int, e2: int, k2: int|
        0 <= e1 < post.executions@.len() && 0 <= k1 < post.executions@[e1].items@.len() && 0 <= e2
            < post.executions@.len() && 0 <= k2 < post.executions@[e2].items@.len() && (e1 != e2
            || k1 != k2) implies (#[trigger] post.executions@[e1].items@[k1]).id != (
    #[trigger] post.executions@[e2].items@[k2]).id by {
        assert(post.executions@[e1].items@[k1].id == pre.executions@[e1].items@[k1].id);
        assert(post.executions@[e2].items@[k2].id == pre.executions@[e2].items@[k2].id);
        assert(pre.executions@[e1].items@[k1].id != pre.executions@[e2].items@[k2].id);
    }
    assert(post.executions_wf());
}

/// Appending a brand-new execution (fresh id, fresh unique item ids, items
/// copied from an existing plan's template) keeps the store well formed.
pub(crate) proof fn lemma_commit_execution_push(pre: Store, post: Store)
    requires
        pre.wf(),
        post.actions == pre.actions,
        post.plans == pre.plans,
        post.executions@.len() == pre.executions@.len() + 1,
        post.executions@.take(pre.executions@.len() as int) == pre.executions@,
        !pre.has_execution_id(post.executions@.last().id),
        pre.has_plan_id(post.executions@.last().plan_id),
        forall|k: int|
            0 <= k < post.executions@.last().items@.len() ==> pre.has_action_id(
                (#[trigger] post.executions@.last().items@[k]).action_id,
            ),
        forall|k: int|
            0 <= k < post.executions@.last().items@.len() ==> !pre.has_execution_item_id(
                (#[trigger] post.executions@.last().items@[k]).id,
            ),
        forall|k1: int, k2: int|
            0 <= k1 < k2 < post.executions@.last().items@.len() ==> (
            #[trigger] post.executions@.last().items@[k1]).id != (
            #[trigger] post.executions@.last().items@[k2]).id,
    ensures
        post.wf(),
{
    let elen = pre.executions@.len() as int;
    assert forall|f: int| 0 <= f < elen implies post.executions@[f] == pre.executions@[f] by {
        assert(post.executions@.take(elen)[f] == post.executions@[f]);
    }
    assert(post.actions_wf());
    assert forall|q: int, k: int|
        0 <= q < post.plans@.len() && 0 <= k < post.plans@[q].items@.len() implies post.has_action_id(
        (#[trigger] post.plans@[q].items@[k]).action_id,
    ) by {
        assert(pre.has_action_id(pre.plans@[q].items@[k].action_id));
    }
    assert(post.plans_wf());
    assert forall|i: int, j: int| 0 <= i < j < post.executions@.len() implies (
    #[trigger] post.executions@[i]).id != (#[trigger] post.executions@[j]).id by {
        if j < elen {
            assert(pre.executions@[i].id != pre.executions@[j].id);
        } else {
            assert(post.executions@[j] == post.executions@.last());
            assert(!pre.has_execution_id(post.executions@.last().id));
            assert(post.executions@[i] == pre.executions@[i]);
        }
    }
    assert forall|f: int| 0 <= f < post.executions@.len() implies post.has_plan_id(
        (#[trigger] post.executions@[f]).plan_id,
    ) by {
        if f < elen {
            assert(pre.has_plan_id(pre.executions@[f].plan_id));
        } else {
            assert(post.executions@[f] == post.executions@.last());
        }
    }
    assert forall|f: int, k: int|
        0 <= f < post.executions@.len() && 0 <= k < post.executions@[f].items@.len() implies post.has_action_id(
        (#[trigger] post.executions@[f].items@[k]).action_id,
    ) by {
        if f < elen {
            assert(pre.has_action_id(pre.executions@[f].items@[k].action_id));
        } else {
            assert(post.executions@[f] == post.executions@.last());
        }
    }
    assert forall|e1: int, k1: int, e2: int, k2: int|
        0 <= e1 < post.executions@.len() && 0 <= k1 < post.executions@[e1].items@.len() && 0 <= e2
            < post.executions@.len() && 0 <= k2 < post.executions@[e2].items@.len() && (e1 != e2
            || k1 != k2) implies (#[trigger] post.executions@[e1].items@[k1]).id != (
    #[trigger] post.executions@[e2].items@[k2]).id by {
        if e1 < elen && e2 < elen {
            assert(post.executions@[e1] == pre.executions@[e1]);
            assert(post.executions@[e2] == pre.executions@[e2]);
            assert(pre.executions@[e1].items@[k1].id != pre.executions@[e2].items@[k2].id);
        } else if e1 < elen {
            assert(post.executions@[e1] == pre.executions@[e1]);
            assert(post.executions@[e2] == post.executions@.last());
            assert(pre.has_execution_item_id(pre.executions@[e1].items@[k1].id));
        } else if e2 < elen {
            assert(post.executions@[e2] == pre.executions@[e2]);
            assert(post.executions@[e1] == post.executions@.last());
            assert(pre.has_execution_item_id(pre.executions@[e2].items@[k2].id));
        }
    }
    assert(post.executions_wf());
}

/// Removing one whole execution keeps the store well formed.
pub(crate) proof fn lemma_remove_execution_wf(pre: Store, post: Store, e: int)
    requires
        pre.wf(),
        0 <= e < pre.executions@.len(),
        post.actions == pre.actions,
        post.plans == pre.plans,
        post.executions@ == pre.executions@.remove(e),
    ensures
        post.wf(),
{
    assert forall|f: int| 0 <= f < post.executions@.len() implies post.executions@[f] == (if f < e {
        pre.executions@[f]
    } else {
        pre.executions@[f + 1]
    }) by {
        assert(pre.executions@.remove(e)[f] == (if f < e {
            pre.executions@[f]
        } else {
            pre.executions@[f + 1]
        }));
    }
    assert(post.actions_wf());
    assert forall|q: int, k: int|
        0 <= q < post.plans@.len() && 0 <= k < post.plans@[q].items@.len() implies post.has_action_id(
        (#[trigger] post.plans@[q].items@[k]).action_id,
    ) by {
        assert(pre.has_action_id(pre.plans@[q].items@[k].action_id));
    }
    assert(post.plans_wf());
    assert forall|i: int, j: int| 0 <= i < j < post.executions@.len() implies (
    #[trigger] post.executions@[i]).id != (#[trigger] post.executions@[j]).id by {
        let i2: int = if i < e { i } else { i + 1 };
        let j2: int = if j < e { j } else { j + 1 };
        assert(pre.executions@[i2].id != pre.executions@[j2].id);
    }
    assert forall|f: int| 0 <= f < post.executions@.len() implies post.has_plan_id(
        (#[trigger] post.executions@[f]).plan_id,
    ) by {
        let f2: int = if f < e { f } else { f + 1 };
        assert(pre.has_plan_id(pre.executions@[f2].plan_id));
    }
    assert forall|f: int, k: int|
        0 <= f < post.executions@.len() && 0 <= k < post.executions@[f].items@.len() implies post.has_action_id(
        (#[trigger] post.executions@[f].items@[k]).action_id,
    ) by {
        let f2: int = if f < e { f } else { f + 1 };
        assert(pre.has_action_id(pre.executions@[f2].items@[k].action_id));
    }
    assert forall|e1: int, k1: int, e2: int, k2: int|
        0 <= e1 < post.executions@.len() && 0 <= k1 < post.executions@[e1].items@.len() && 0 <= e2
            < post.executions@.len() && 0 <= k2 < post.executions@[e2].items@.len() && (e1 != e2
            || k1 != k2) implies (#[trigger] post.executions@[e1].items@[k1]).id != (
    #[trigger] post.executions@[e2].items@[k2]).id by {
        let f1: int = if e1 < e { e1 } else { e1 + 1 };
        let f2: int = if e2 < e { e2 } else { e2 + 1 };
        assert(pre.executions@[f1].items@[k1].id != pre.executions@[f2].items@[k2].id);
    }
    assert(post.executions_wf());
}

impl Store {
    /// Starts a new execution of a plan: copies the plan's current template
    /// into a fresh set of unchecked checklist lines and enters the Open
    /// state. The plan may be soft-deleted; only existence is required.
    /// Atomic: on any error the store is unchanged.
    pub fn create_execution(&mut self, plan_id: u128, now: i64) -> (r: Result<u128, StoreError>)
        requires
            old(self).wf(),
        ensures
            final(self).wf(),
            match r {
                Ok(eid) => {
                    &&& old(self).has_plan_id(plan_id)
                    &&& !old(self).id_in_use(eid)
                    &&& final(self).actions == old(self).actions
                    &&& final(self).plans == old(self).plans
                    &&& final(self).executions@.len() == old(self).executions@.len() + 1
                    &&& final(self).executions@.take(old(self).executions@.len() as int) == old(self).executions@
                    &&& ({
                        let ex = final(self).executions@.last();
                        let template = old(self).plan_of_id(plan_id).items@;
                        &&& ex.id == eid
                        &&& ex.plan_id == plan_id
                        &&& ex.started == now
                        &&& ex.finished == Option::<i64>::None
                        &&& ex.items@.len() == template.len()
                        &&& forall|k: int|
                            0 <= k < template.len() ==> (#[trigger] ex.items@[k]).action_id
                                == template[k].action_id && ex.items@[k].finished
                                == Option::<i64>::None
                    })
                },
                Err(e) => {
                    &&& *final(self) == *old(self)
                    &&& (e == StoreError::NotFound || e == StoreError::Internal)
                    &&& (e == StoreError::NotFound <==> !old(self).has_plan_id(plan_id))
                },
            },
    {
        let ghost pre = *self;
        let p = match self.plan_index_by_id(plan_id) {
            None => {
                return Err(StoreError::NotFound);
            },
            Some(p) => p,
        };
        proof {
            pre.lemma_plan_idx_of_id(p as int);
        }
        let eid = match fresh_id(self) {
            None => {
                return Err(StoreError::Internal);
            },
            Some(v) => v,
        };
        let n_items = self.plans[p].items.len();
        let mut items: Vec<ExecutionItem> = Vec::new();
        for k in 0..n_items
            invariant
                *self == pre,
                pre == *old(self),
                pre.wf(),
                pre.has_plan_id(plan_id),
                p < self.plans@.len(),
                n_items == self.plans@[p as int].items@.len(),
                items@.len() == k,
                forall|j: int|
                    0 <= j < k ==> (#[trigger] items@[j]).action_id
                        == self.plans@[p as int].items@[j].action_id && items@[j].finished
                        == Option::<i64>::None,
                forall|j: int| 0 <= j < k ==> !pre.id_in_use((#[trigger] items@[j]).id),
                forall|j1: int, j2: int|
                    0 <= j1 < j2 < k ==> (#[trigger] items@[j1]).id != (#[trigger] items@[j2]).id,
        {
            let iid = match fresh_execution_item_id(self, &items) {
                None => {
                    return Err(StoreError::Internal);
                },
                Some(v) => v,
            };
            items.push(
                ExecutionItem {
                    id: iid,
                    action_id: self.plans[p].items[k].action_id,
                    finished: None,
                },
            );
        }
        self.executions.push(
            Execution { id: eid, plan_id, started: now, finished: None, items },
        );
        proof {
            assert(self.executions@.take(pre.executions@.len() as int) =~= pre.executions@);
            assert forall|k: int|
                0 <= k < self.executions@.last().items@.len() implies pre.has_action_id(
                (#[trigger] self.executions@.last().items@[k]).action_id,
            ) by {
                assert(pre.plans_wf());
                assert(pre.has_action_id(pre.plans@[p as int].items@[k].action_id));
            }
            lemma_commit_execution_push(pre, *self);
        }
        Ok(eid)
    }

    /// Checks or unchecks one checklist line: sets its finished timestamp to
    /// `now` or clears it. No state restriction: lines may be toggled while
    /// the execution is open or completed. Returns the new timestamp.
    pub fn set_execution_item_finished(&mut self, item_id: u128, finished: bool, now: i64) -> (r:
        Result<Option<i64>, StoreError>)
        requires
            old(self).wf(),
            finished ==> now > 0,
        ensures
            final(self).wf(),
            match r {
                Ok(v) => {
                    &&& old(self).has_execution_item_id(item_id)
                    &&& v == (if finished {
                        Some(now)
                    } else {
                        Option::<i64>::None
                    })
                    &&& ({
                        let (e, k) = old(self).execution_item_loc(item_id);
                        &&& final(self).actions == old(self).actions
                        &&& final(self).plans == old(self).plans
                        &&& final(self).executions@.len() == old(self).executions@.len()
                        &&& forall|f: int|
                            0 <= f < old(self).executions@.len() && f != e ==> final(self).executions@[f] == old(self).executions@[f]
                        &&& final(self).executions@[e].id == old(self).executions@[e].id
                        &&& final(self).executions@[e].plan_id == old(self).executions@[e].plan_id
                        &&& final(self).executions@[e].started == old(self).executions@[e].started
                        &&& final(self).executions@[e].finished == old(self).executions@[e].finished
                        &&& final(self).executions@[e].items@ == old(self).executions@[e].items@.update(
                            k,
                            ExecutionItem {
                                id: item_id,
                                action_id: old(self).executions@[e].items@[k].action_id,
                                finished: v,
                            },
                        )
                    })
                },
                Err(err) => {
                    &&& *final(self) == *old(self)
                    &&& err == StoreError::NotFound
                    &&& !old(self).has_execution_item_id(item_id)
                },
            },
    {
        let ghost pre = *self;
        let new_value: Option<i64> = if finished {
            Some(now)
        } else {
            None
        };
        let ne = self.executions.len();
        for e in 0..ne
            invariant
                *self == pre,
                pre == *old(self),
                pre.wf(),
                ne == self.executions@.len(),
                new_value == (if finished {
                    Some(now)
                } else {
                    Option::<i64>::None
                }),
                forall|f: int, j: int|
                    0 <= f < e && 0 <= j < self.executions@[f].items@.len() ==> (
                    #[trigger] self.executions@[f].items@[j]).id != item_id,
        {
            let ni = self.executions[e].items.len();
            for k in 0..ni
                invariant
                    *self == pre,
                    pre == *old(self),
                    pre.wf(),
                    ne == self.executions@.len(),
                    e < ne,
                    ni == self.executions@[e as int].items@.len(),
                    new_value == (if finished {
                        Some(now)
                    } else {
                        Option::<i64>::None
                    }),
                    forall|f: int, j: int|
                        0 <= f < e && 0 <= j < self.executions@[f].items@.len() ==> (
                        #[trigger] self.executions@[f].items@[j]).id != item_id,
                    forall|j: int|
                        0 <= j < k ==> (#[trigger] self.executions@[e as int].items@[j]).id
                            != item_id,
            {
                if self.executions[e].items[k].id == item_id {
                    proof {
                        pre.lemma_execution_item_loc(e as int, k as int);
                    }
                    let mut ex = self.executions.remove(e);
                    let mut item = ex.items.remove(k);
                    item.finished = new_value;
                    let ghost updated_item = item;
                    ex.items.insert(k, item);
                    let ghost updated_ex = ex;
                    self.executions.insert(e, ex);
                    proof {
                        assert(self.executions@ =~= pre.executions@.update(e as int, updated_ex));
                        assert(updated_ex.items@ =~= pre.executions@[e as int].items@.update(
                            k as int,
                            updated_item,
                        ));
                        lemma_update_execution_wf(pre, *self, e as int);
                    }
                    return Ok(new_value);
                }
            }
        }
        Err(StoreError::NotFound)
    }

    /// Completes an open execution whose every line is checked, stamping it
    /// with `now`. Completing an already completed execution is a silent
    /// no-op. `NotFound` when the execution is missing; `Conflict` when any
    /// line is unchecked.
    pub fn complete_execution(&mut self, execution_id: u128, now: i64) -> (r: Result<
        (),
        StoreError,
    >)
        requires
            old(self).wf(),
            now > 0,
        ensures
            final(self).wf(),
            match r {
                Ok(u) => {
                    &&& old(self).has_execution_id(execution_id)
                    &&& all_items_finished(old(self).execution_of_id(execution_id))
                    &&& ({
                        let e = old(self).execution_idx_of_id(execution_id);
                        if execution_completed(old(self).executions@[e]) {
                            *final(self) == *old(self)
                        } else {
                            &&& final(self).actions == old(self).actions
                            &&& final(self).plans == old(self).plans
                            &&& final(self).executions@.len() == old(self).executions@.len()
                            &&& forall|f: int|
                                0 <= f < old(self).executions@.len() && f != e ==> final(self).executions@[f] == old(self).executions@[f]
                            &&& final(self).executions@[e].id == execution_id
                            &&& final(self).executions@[e].plan_id == old(self).executions@[e].plan_id
                            &&& final(self).executions@[e].started == old(self).executions@[e].started
                            &&& final(self).executions@[e].items == old(self).executions@[e].items
                            &&& final(self).executions@[e].finished == Some(now)
                        }
                    })
                },
                Err(err) => {
                    &&& *final(self) == *old(self)
                    &&& (err == StoreError::NotFound || err == StoreError::Conflict)
                    &&& (err == StoreError::NotFound <==> !old(self).has_execution_id(
                        execution_id,
                    ))
                    &&& (err == StoreError::Conflict <==> old(self).has_execution_id(execution_id)
                        && !all_items_finished(old(self).execution_of_id(execution_id)))
                },
            },
    {
        let ghost pre = *self;
        let e = match self.execution_index_by_id(execution_id) {
            None => {
                return Err(StoreError::NotFound);
            },
            Some(e) => e,
        };
        proof {
            pre.lemma_execution_idx_of_id(e as int);
        }
        let ni = self.executions[e].items.len();
        for k in 0..ni
            invariant
                *self == pre,
                pre == *old(self),
                pre.wf(),
                e < self.executions@.len(),
                pre.has_execution_id(execution_id),
                pre.executions@[e as int] == pre.execution_of_id(execution_id),
                ni == self.executions@[e as int].items@.len(),
                forall|j: int|
                    0 <= j < k ==> ts_is_set(
                        (#[trigger] self.executions@[e as int].items@[j]).finished,
                    ),
        {
            let unchecked = match self.executions[e].items[k].finished {
                Some(v) => v <= 0,
                None => true,
            };
            if unchecked {
                return Err(StoreError::Conflict);
            }
        }
        let completed = match self.executions[e].finished {
            Some(v) => v > 0,
            None => false,
        };
        if completed {
            return Ok(());
        }
        let mut ex = self.executions.remove(e);
        ex.finished = Some(now);
        let ghost updated_ex = ex;
        self.executions.insert(e, ex);
        proof {
            assert(self.executions@ =~= pre.executions@.update(e as int, updated_ex));
            lemma_update_execution_wf(pre, *self, e as int);
        }
        Ok(())
    }

    /// Reopens a completed execution within the reopen window: clears its
    /// finished timestamp. `NotFound` when the execution is missing;
    /// `Conflict` when it is already open or its completion lies further
    /// back than the window allows.
    pub fn reopen_execution(&mut self, execution_id: u128, now: i64) -> (r: Result<(), StoreError>)
        requires
            old(self).wf(),
        ensures
            final(self).wf(),
            match r {
                Ok(u) => {
                    &&& old(self).has_execution_id(execution_id)
                    &&& execution_completed(old(self).execution_of_id(execution_id))
                    &&& within_reopen_window(
                        old(self).execution_of_id(execution_id).finished->0,
                        now,
                    )
                    &&& ({
                        let e = old(self).execution_idx_of_id(execution_id);
                        &&& final(self).actions == old(self).actions
                        &&& final(self).plans == old(self).plans
                        &&& final(self).executions@.len() == old(self).executions@.len()
                        &&& forall|f: int|
                            0 <= f < old(self).executions@.len() && f != e ==> final(self).executions@[f] == old(self).executions@[f]
                        &&& final(self).executions@[e].id == execution_id
                        &&& final(self).executions@[e].plan_id == old(self).executions@[e].plan_id
                        &&& final(self).executions@[e].started == old(self).executions@[e].started
                        &&& final(self).executions@[e].items == old(self).executions@[e].items
                        &&& final(self).executions@[e].finished == Option::<i64>::None
                    })
                },
                Err(err) => {
                    &&& *final(self) == *old(self)
                    &&& (err == StoreError::NotFound || err == StoreError::Conflict)
                    &&& (err == StoreError::NotFound <==> !old(self).has_execution_id(
                        execution_id,
                    ))
                    &&& (err == StoreError::Conflict <==> old(self).has_execution_id(execution_id)
                        && !(execution_completed(old(self).execution_of_id(execution_id))
                        && within_reopen_window(
                        old(self).execution_of_id(execution_id).finished->0,
                        now,
                    )))
                },
            },
    {
        let ghost pre = *self;
        let e = match self.execution_index_by_id(execution_id) {
            None => {
                return Err(StoreError::NotFound);
            },
            Some(e) => e,
        };
        proof {
            pre.lemma_execution_idx_of_id(e as int);
        }
        let finished_at = match self.executions[e].finished {
            Some(v) => v,
            None => {
                return Err(StoreError::Conflict);
            },
        };
        if finished_at <= 0 {
            return Err(StoreError::Conflict);
        }
        let within = if now < finished_at {
            true
        } else {
            now - finished_at <= REOPEN_WINDOW_SECONDS
        };
        if !within {
            return Err(StoreError::Conflict);
        }
        let mut ex = self.executions.remove(e);
        ex.finished = None;
        let ghost updated_ex = ex;
        self.executions.insert(e, ex);
        proof {
            assert(self.executions@ =~= pre.executions@.update(e as int, updated_ex));
            lemma_update_execution_wf(pre, *self, e as int);
        }
        Ok(())
    }

    /// Deletes an open execution and its checklist lines. `NotFound` when
    /// the execution is missing; `Conflict` once it is completed, regardless
    /// of any earlier state.
    pub fn delete_execution(&mut self, execution_id: u128) -> (r: Result<(), StoreError>)
        requires
            old(self).wf(),
        ensures
            final(self).wf(),
            match r {
                Ok(u) => {
                    &&& old(self).has_execution_id(execution_id)
                    &&& !execution_completed(old(self).execution_of_id(execution_id))
                    &&& final(self).actions == old(self).actions
                    &&& final(self).plans == old(self).plans
                    &&& final(self).executions@ == old(self).executions@.remove(
                        old(self).execution_idx_of_id(execution_id),
                    )
                },
                Err(err) => {
                    &&& *final(self) == *old(self)
                    &&& (err == StoreError::NotFound || err == StoreError::Conflict)
                    &&& (err == StoreError::NotFound <==> !old(self).has_execution_id(
                        execution_id,
                    ))
                    &&& (err == StoreError::Conflict <==> old(self).has_execution_id(execution_id)
                        && execution_completed(old(self).execution_of_id(execution_id)))
                },
            },
    {
        let ghost pre = *self;
        let e = match self.execution_index_by_id(execution_id) {
            None => {
                return Err(StoreError::NotFound);
            },
            Some(e) => e,
        };
        proof {
            pre.lemma_execution_idx_of_id(e as int);
        }
        let completed = match self.executions[e].finished {
            Some(v) => v > 0,
            None => false,
        };
        if completed {
            return Err(StoreError::Conflict);
        }
        self.executions.remove(e);
        proof {
            lemma_remove_execution_wf(pre, *self, e as int);
        }
        Ok(())
    }
}


/// A request to check or uncheck one checklist line.
pub struct SetItemFinishedRequest {
    pub finished: bool,
}

/// The answer to a toggle: the rendered new timestamp, absent when the line
/// was unchecked.
pub struct SetItemFinishedResponse {
    pub finished_display: Option<String>,
}

/// Renders a toggle outcome: a set timestamp becomes its local display, an
/// unset one stays absent.
pub fn set_item_finished_response(finished_at: Option<i64>) -> (r: SetItemFinishedResponse)
    ensures
        r.finished_display is Some <==> finished_at is Some,
{
    SetItemFinishedResponse {
        finished_display: match finished_at {
            Some(v) => Some(crate::clock::format_unix_timestamp(v)),
            None => None,
        },
    }
}

} // verus!
