use vstd::prelude::*;

use crate::error::StoreError;
use crate::ids::fresh_id;
use crate::items::{build_items, build_items_post, item_resolves, lemma_commit_plan_items};
use crate::model::{Plan, Store, ts_is_set};
use crate::text::{names_view, normalize_items, normalized_names};

verus! {

/// A submitted plan form: the plan's name and its item names, absent when
/// the form carried no items.
pub struct ActionPlanForm {
    pub name: String,
    pub items: Option<Vec<String>>,
}

/// The plan exists and is not soft-deleted.
pub open spec fn plan_active(s: Store, plan_id: u128) -> bool {
    s.has_plan_id(plan_id) && !ts_is_set(s.plan_of_id(plan_id).deleted_at)
}

/// Appending a brand-new plan (fresh id, freshly built items) together with
/// the grown registry keeps the store well formed.
pub(crate) proof fn lemma_commit_plan_push(pre: Store, post: Store, names: Seq<Seq<char>>)
    requires
        pre.wf(),
        post.plans@.len() == pre.plans@.len() + 1,
        post.plans@.take(pre.plans@.len() as int) == pre.plans@,
        !pre.id_in_use(post.plans@.last().id),
        build_items_post(pre, names, post.actions@, post.plans@.last().items@),
        post.executions == pre.executions,
    ensures
        post.wf(),
        post.template_of(post.plans@.last()) == names,
{
    let plen = pre.plans@.len() as int;
    assert forall|q: int| 0 <= q < plen implies post.plans@[q] == pre.plans@[q] by {
        assert(post.plans@.take(plen)[q] == post.plans@[q]);
    }
    let blen = pre.actions@.len() as int;
    assert forall|i: int| 0 <= i < blen implies post.actions@[i] == pre.actions@[i] by {
        assert(post.actions@.take(blen)[i] == post.actions@[i]);
    }
    assert forall|aid: u128| pre.has_action_id(aid) implies post.has_action_id(aid) by {
        let i = choose|i: int| 0 <= i < blen && (#[trigger] pre.actions@[i]).id == aid;
        assert(post.actions@[i].id == aid);
    }
    assert(post.actions_wf());
    assert forall|i: int, j: int| 0 <= i < j < post.plans@.len() implies (
    #[trigger] post.plans@[i]).id != (#[trigger] post.plans@[j]).id by {
        if j < plen {
            assert(pre.plans@[i].id != pre.plans@[j].id);
        } else {
            assert(post.plans@[j] == post.plans@.last());
            assert(!pre.has_plan_id(post.plans@.last().id));
        }
    }
    assert forall|q: int, k: int|
        0 <= q < post.plans@.len() && 0 <= k < post.plans@[q].items@.len() implies post.has_action_id(
        (#[trigger] post.plans@[q].items@[k]).action_id,
    ) by {
        if q == plen {
            assert(item_resolves(post.actions@, post.plans@[q].items@[k], names[k]));
        } else {
            assert(post.plans@[q] == pre.plans@[q]);
            assert(pre.has_action_id(pre.plans@[q].items@[k].action_id));
        }
    }
    assert forall|p1: int, k1: int, p2: int, k2: int|
        0 <= p1 < post.plans@.len() && 0 <= k1 < post.plans@[p1].items@.len() && 0 <= p2
            < post.plans@.len() && 0 <= k2 < post.plans@[p2].items@.len() && (p1 != p2 || k1
            != k2) implies (#[trigger] post.plans@[p1].items@[k1]).id != (
    #[trigger] post.plans@[p2].items@[k2]).id by {
        if p1 == plen && p2 == plen {
        } else if p1 == plen {
            assert(post.plans@[p2] == pre.plans@[p2]);
            assert(pre.has_plan_item_id(pre.plans@[p2].items@[k2].id));
            assert(!pre.id_in_use(post.plans@[p1].items@[k1].id));
        } else if p2 == plen {
            assert(post.plans@[p1] == pre.plans@[p1]);
            assert(pre.has_plan_item_id(pre.plans@[p1].items@[k1].id));
            assert(!pre.id_in_use(post.plans@[p2].items@[k2].id));
        } else {
            assert(post.plans@[p1] == pre.plans@[p1] && post.plans@[p2] == pre.plans@[p2]);
            assert(pre.plans@[p1].items@[k1].id != pre.plans@[p2].items@[k2].id);
        }
    }
    assert(post.plans_wf());
    assert forall|e: int| 0 <= e < post.executions@.len() implies post.has_plan_id(
        (#[trigger] post.executions@[e]).plan_id,
    ) by {
        assert(pre.has_plan_id(pre.executions@[e].plan_id));
        let i = choose|i: int|
            0 <= i < pre.plans@.len() && (#[trigger] pre.plans@[i]).id
                == pre.executions@[e].plan_id;
        assert(post.plans@[i].id == pre.plans@[i].id);
    }
    assert forall|e: int, k: int|
        0 <= e < post.executions@.len() && 0 <= k < post.executions@[e].items@.len() implies post.has_action_id(
        (#[trigger] post.executions@[e].items@[k]).action_id,
    ) by {
        assert(pre.has_action_id(pre.executions@[e].items@[k].action_id));
    }
    assert(post.executions_wf());
    assert forall|k: int| 0 <= k < names.len() implies #[trigger] post.template_of(
        post.plans@.last(),
    )[k] == names[k] by {
        assert(item_resolves(post.actions@, post.plans@.last().items@[k], names[k]));
        let a = choose|a: int|
            0 <= a < post.actions@.len() && (#[trigger] post.actions@[a]).id
                == post.plans@.last().items@[k].action_id && post.actions@[a].name@ == names[k];
        post.lemma_action_idx_of_id(a);
    }
    assert(post.template_of(post.plans@.last()) =~= names);
}

/// Changing only a plan's metadata (name or deletion mark) in place keeps
/// the store well formed.
pub(crate) proof fn lemma_update_plan_meta_wf(pre: Store, post: Store, p: int)
    requires
        pre.wf(),
        0 <= p < pre.plans@.len(),
        post.plans@.len() == pre.plans@.len(),
        forall|q: int| 0 <= q < pre.plans@.len() && q != p ==> post.plans@[q] == pre.plans@[q],
        post.plans@[p].id == pre.plans@[p].id,
        post.plans@[p].items == pre.plans@[p].items,
        post.actions == pre.actions,
        post.executions == pre.executions,
    ensures
        post.wf(),
{
    assert forall|i: int, j: int| 0 <= i < j < post.plans@.len() implies (
    #[trigger] post.plans@[i]).id != (#[trigger] post.plans@[j]).id by {
        assert(post.plans@[i].id == pre.plans@[i].id && post.plans@[j].id == pre.plans@[j].id);
    }
    assert forall|q: int, k: int|
        0 <= q < post.plans@.len() && 0 <= k < post.plans@[q].items@.len() implies post.has_action_id(
        (#[trigger] post.plans@[q].items@[k]).action_id,
    ) by {
        assert(post.plans@[q].items == pre.plans@[q].items);
        assert(pre.has_action_id(pre.plans@[q].items@[k].action_id));
        let i = choose|i: int|
            0 <= i < pre.actions@.len() && (#[trigger] pre.actions@[i]).id
                == pre.plans@[q].items@[k].action_id;
        assert(post.actions@[i].id == pre.plans@[q].items@[k].action_id);
    }
    assert forall|p1: int, k1: int, p2: int, k2: int|
        0 <= p1 < post.plans@.len() && 0 <= k1 < post.plans@[p1].items@.len() && 0 <= p2
            < post.plans@.len() && 0 <= k2 < post.plans@[p2].items@.len() && (p1 != p2 || k1
            != k2) implies (#[trigger] post.plans@[p1].items@[k1]).id != (
    #[trigger] post.plans@[p2].items@[k2]).id by {
        assert(post.plans@[p1].items == pre.plans@[p1].items);
        assert(post.plans@[p2].items == pre.plans@[p2].items);
        assert(pre.plans@[p1].items@[k1].id != pre.plans@[p2].items@[k2].id);
    }
    assert(post.plans_wf());
    assert forall|e: int| 0 <= e < post.executions@.len() implies post.has_plan_id(
        (#[trigger] post.executions@[e]).plan_id,
    ) by {
        assert(pre.has_plan_id(pre.executions@[e].plan_id));
        let i = choose|i: int|
            0 <= i < pre.plans@.len() && (#[trigger] pre.plans@[i]).id
                == pre.executions@[e].plan_id;
        assert(post.plans@[i].id == pre.plans@[i].id);
    }
    assert forall|e: int, k: int|
        0 <= e < post.executions@.len() && 0 <= k < post.executions@[e].items@.len() implies post.has_action_id(
        (#[trigger] post.executions@[e].items@[k]).action_id,
    ) by {
        assert(pre.has_action_id(pre.executions@[e].items@[k].action_id));
    }
    assert(post.executions_wf());
}

impl Store {
    /// Creates a plan with the given name and normalized item list and
    /// returns its fresh id. The plan starts active (no deletion mark).
    /// Atomic: on an internal error the store is unchanged.
    pub fn create_plan(&mut self, name: String, item_names: Option<Vec<String>>) -> (r: Result<
        u128,
        StoreError,
    >)
        requires
            old(self).wf(),
        ensures
            final(self).wf(),
            match r {
                Ok(id) => {
                    &&& !old(self).id_in_use(id)
                    &&& final(self).plans@.len() == old(self).plans@.len() + 1
                    &&& final(self).plans@.take(old(self).plans@.len() as int) == old(self).plans@
                    &&& final(self).plans@.last().id == id
                    &&& final(self).plans@.last().name == name
                    &&& final(self).plans@.last().deleted_at == Option::<i64>::None
                    &&& final(self).template_of(final(self).plans@.last()) == normalized_names(
                        names_view(item_names),
                    )
                    &&& build_items_post(
                        *old(self),
                        normalized_names(names_view(item_names)),
                        final(self).actions@,
                        final(self).plans@.last().items@,
                    )
                    &&& final(self).executions == old(self).executions
                },
                Err(e) => e == StoreError::Internal && *final(self) == *old(self),
            },
    {
        let ghost pre = *self;
        let normalized = normalize_items(item_names);
        let pid = match fresh_id(self) {
            None => {
                return Err(StoreError::Internal);
            },
            Some(v) => v,
        };
        let (acts, items) = match build_items(self, &normalized) {
            Err(e) => {
                return Err(e);
            },
            Ok(pair) => pair,
        };
        self.plans.push(Plan { id: pid, name, deleted_at: None, items });
        self.actions = acts;
        proof {
            assert(self.plans@.take(pre.plans@.len() as int) =~= pre.plans@);
            lemma_commit_plan_push(pre, *self, normalized_names(names_view(item_names)));
        }
        Ok(pid)
    }

    /// Marks an active plan soft-deleted at the given time. `NotFound` when
    /// no plan carries the id; `Conflict` when the plan is already deleted.
    pub fn soft_delete_plan(&mut self, plan_id: u128, now: i64) -> (r: Result<(), StoreError>)
        requires
            old(self).wf(),
            now > 0,
        ensures
            final(self).wf(),
            match r {
                Ok(u) => {
                    &&& plan_active(*old(self), plan_id)
                    &&& ({
                        let p = old(self).plan_idx_of_id(plan_id);
                        &&& final(self).plans@.len() == old(self).plans@.len()
                        &&& forall|q: int|
                            0 <= q < old(self).plans@.len() && q != p ==> final(self).plans@[q]
                                == old(self).plans@[q]
                        &&& final(self).plans@[p].id == plan_id
                        &&& final(self).plans@[p].name == old(self).plans@[p].name
                        &&& final(self).plans@[p].items == old(self).plans@[p].items
                        &&& final(self).plans@[p].deleted_at == Some(now)
                        &&& final(self).actions == old(self).actions
                        &&& final(self).executions == old(self).executions
                    })
                },
                Err(e) => {
                    &&& *final(self) == *old(self)
                    &&& (e == StoreError::NotFound || e == StoreError::Conflict)
                    &&& (e == StoreError::NotFound <==> !old(self).has_plan_id(plan_id))
                    &&& (e == StoreError::Conflict <==> old(self).has_plan_id(plan_id)
                        && !plan_active(*old(self), plan_id))
                },
            },
    {
        let ghost pre = *self;
        let p = match self.plan_index_by_id(plan_id) {
            None => {
                return Err(StoreError::NotFound);
            },
            Some(p) => p,
        };
        proof {
            pre.lemma_plan_idx_of_id(p as int);
        }
        let already = match self.plans[p].deleted_at {
            Some(v) => v > 0,
            None => false,
        };
        if already {
            return Err(StoreError::Conflict);
        }
        let mut plan = self.plans.remove(p);
        plan.deleted_at = Some(now);
        let ghost updated = plan;
        self.plans.insert(p, plan);
        proof {
            assert(self.plans@ =~= pre.plans@.update(p as int, updated));
            lemma_update_plan_meta_wf(pre, *self, p as int);
        }
        Ok(())
    }

    /// Clears the deletion mark of a soft-deleted plan. `NotFound` when no
    /// plan carries the id; `Conflict` when the plan is not deleted.
    pub fn undelete_plan(&mut self, plan_id: u128) -> (r: Result<(), StoreError>)
        requires
            old(self).wf(),
        ensures
            final(self).wf(),
            match r {
                Ok(u) => {
                    &&& old(self).has_plan_id(plan_id)
                    &&& !plan_active(*old(self), plan_id)
                    &&& ({
                        let p = old(self).plan_idx_of_id(plan_id);
                        &&& final(self).plans@.len() == old(self).plans@.len()
                        &&& forall|q: int|
                            0 <= q < old(self).plans@.len() && q != p ==> final(self).plans@[q]
                                == old(self).plans@[q]
                        &&& final(self).plans@[p].id == plan_id
                        &&& final(self).plans@[p].name == old(self).plans@[p].name
                        &&& final(self).plans@[p].items == old(self).plans@[p].items
                        &&& final(self).plans@[p].deleted_at == Option::<i64>::None
                        &&& final(self).actions == old(self).actions
                        &&& final(self).executions == old(self).executions
                    })
                },
                Err(e) => {
                    &&& *final(self) == *old(self)
                    &&& (e == StoreError::NotFound || e == StoreError::Conflict)
                    &&& (e == StoreError::NotFound <==> !old(self).has_plan_id(plan_id))
                    &&& (e == StoreError::Conflict <==> plan_active(*old(self), plan_id))
                },
            },
    {
        let ghost pre = *self;
        let p = match self.plan_index_by_id(plan_id) {
            None => {
                return Err(StoreError::NotFound);
            },
            Some(p) => p,
        };
        proof {
            pre.lemma_plan_idx_of_id(p as int);
        }
        let deleted = match self.plans[p].deleted_at {
            Some(v) => v > 0,
            None => false,
        };
        if !deleted {
            return Err(StoreError::Conflict);
        }
        let mut plan = self.plans.remove(p);
        plan.deleted_at = None;
        let ghost updated = plan;
        self.plans.insert(p, plan);
        proof {
            assert(self.plans@ =~= pre.plans@.update(p as int, updated));
            lemma_update_plan_meta_wf(pre, *self, p as int);
        }
        Ok(())
    }
}

} // verus!
