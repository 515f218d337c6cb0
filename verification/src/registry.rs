use vstd::prelude::*;

use crate::error::StoreError;
use crate::ids::fresh_id;
use crate::model::{Action, Store};

verus! {

/// What a call to `ensure_action` leaves behind: the other tables untouched;
/// the registry unchanged when the name was already present, with the
/// existing id returned; otherwise one new action with the given name and a
/// previously unused id appended. An internal error (no unused id could be
/// drawn) changes nothing, and can only arise when the name was absent: a
/// present name never draws an id, so its lookup always succeeds.
pub open spec fn ensure_action_post(
    pre: Store,
    post: Store,
    name: Seq<char>,
    r: Result<u128, StoreError>,
) -> bool {
    match r {
        Ok(id) => {
            &&& post.plans == pre.plans
            &&& post.executions == pre.executions
            &&& pre.has_action_name(name) ==> post == pre && id == pre.action_id_of(name)
            &&& !pre.has_action_name(name) ==> {
                &&& !pre.id_in_use(id)
                &&& post.actions@.len() == pre.actions@.len() + 1
                &&& post.actions@.take(pre.actions@.len() as int) == pre.actions@
                &&& post.actions@.last().id == id
                &&& post.actions@.last().name@ == name
            }
        },
        Err(e) => e == StoreError::Internal && post == pre && !pre.has_action_name(name),
    }
}

impl Store {
    /// Looks an action up by exact name; when absent, creates one with a
    /// fresh id. Safe to call repeatedly: the name lookup precedes the
    /// insert, so one name never yields two rows.
    pub fn ensure_action(&mut self, name: &String) -> (r: Result<u128, StoreError>)
        requires
            old(self).wf(),
        ensures
            final(self).wf(),
            ensure_action_post(*old(self), *final(self), name@, r),
    {
        match self.action_index_by_name(name) {
            Some(i) => Ok(self.actions[i].id),
            None => {
                match fresh_id(self) {
                    None => Err(StoreError::Internal),
                    Some(id) => {
                        let ghost pre = *self;
                        self.actions.push(Action { id, name: name.clone() });
                        proof {
                            assert(self.actions@.take(pre.actions@.len() as int) =~= pre.actions@);
                            lemma_push_fresh_action_wf(pre, *self, id, name@);
                        }
                        Ok(id)
                    },
                }
            },
        }
    }
}

/// Appending an action whose id is unused and whose name is absent keeps the
/// store well formed.
proof fn lemma_push_fresh_action_wf(pre: Store, post: Store, id: u128, name: Seq<char>)
    requires
        pre.wf(),
        !pre.id_in_use(id),
        !pre.has_action_name(name),
        post.plans == pre.plans,
        post.executions == pre.executions,
        post.actions@.len() == pre.actions@.len() + 1,
        post.actions@.take(pre.actions@.len() as int) == pre.actions@,
        post.actions@.last().id == id,
        post.actions@.last().name@ == name,
    ensures
        post.wf(),
{
    assert forall|i: int| 0 <= i < pre.actions@.len() implies post.actions@[i] == pre.actions@[i] by {
        assert(post.actions@.take(pre.actions@.len() as int)[i] == post.actions@[i]);
    }
    assert forall|i: int, j: int| 0 <= i < j < post.actions@.len() implies (
    #[trigger] post.actions@[i]).id != (#[trigger] post.actions@[j]).id && post.actions@[i].name@
        != post.actions@[j].name@ by {
        if j < pre.actions@.len() {
            assert(pre.actions@[i].id != pre.actions@[j].id);
        } else {
            assert(post.actions@[j] == post.actions@.last());
            assert(post.actions@[i] == pre.actions@[i]);
            assert(!pre.has_action_id(id));
        }
    }
    assert(post.actions_wf());
    assert forall|p: int, k: int|
        0 <= p < post.plans@.len() && 0 <= k < post.plans@[p].items@.len() implies post.has_action_id(
        (#[trigger] post.plans@[p].items@[k]).action_id,
    ) by {
        let aid = post.plans@[p].items@[k].action_id;
        assert(pre.has_action_id(aid));
        let i = choose|i: int|
            0 <= i < pre.actions@.len() && (#[trigger] pre.actions@[i]).id == aid;
        assert(post.actions@[i].id == aid);
    }
    assert forall|e: int, k: int|
        0 <= e < post.executions@.len() && 0 <= k < post.executions@[e].items@.len() implies post.has_action_id(
        (#[trigger] post.executions@[e].items@[k]).action_id,
    ) by {
        let aid = post.executions@[e].items@[k].action_id;
        assert(pre.has_action_id(aid));
        let i = choose|i: int|
            0 <= i < pre.actions@.len() && (#[trigger] pre.actions@[i]).id == aid;
        assert(post.actions@[i].id == aid);
    }
    assert forall|e: int| 0 <= e < post.executions@.len() implies post.has_plan_id(
        (#[trigger] post.executions@[e]).plan_id,
    ) by {
        assert(pre.has_plan_id(pre.executions@[e].plan_id));
    }
    assert(post.plans_wf());
    assert(post.executions_wf());
}

/// The subsequence of `s` whose actions are referenced in `pre`, in order.
pub open spec fn referenced_of(s: Seq<Action>, pre: Store) -> Seq<Action>
    decreases s.len(),
{
    if s.len() == 0 {
        s
    } else {
        let rest = referenced_of(s.drop_last(), pre);
        if pre.action_referenced(s.last().id) {
            rest.push(s.last())
        } else {
            rest
        }
    }
}

/// The subsequence of `s` whose actions are unreferenced in `pre`, in order.
pub open spec fn unreferenced_of(s: Seq<Action>, pre: Store) -> Seq<Action>
    decreases s.len(),
{
    if s.len() == 0 {
        s
    } else {
        let rest = unreferenced_of(s.drop_last(), pre);
        if !pre.action_referenced(s.last().id) {
            rest.push(s.last())
        } else {
            rest
        }
    }
}

/// What a sweep leaves behind: plans and executions untouched, the registry
/// reduced to exactly the still-referenced actions in their old order, and
/// the removed unreferenced ones returned in their old order.
pub open spec fn sweep_post(pre: Store, post: Store, removed: Seq<Action>) -> bool {
    &&& post.plans == pre.plans
    &&& post.executions == pre.executions
    &&& post.actions@ == referenced_of(pre.actions@, pre)
    &&& removed == unreferenced_of(pre.actions@, pre)
}

/// Every action kept by `referenced_of` is referenced and stems from the
/// input; every referenced input action is kept.
proof fn lemma_referenced_of_props(s: Seq<Action>, pre: Store)
    ensures
        forall|k: int|
            0 <= k < referenced_of(s, pre).len() ==> pre.action_referenced(
                (#[trigger] referenced_of(s, pre)[k]).id,
            ) && s.contains(referenced_of(s, pre)[k]),
        forall|i: int|
            0 <= i < s.len() && pre.action_referenced((#[trigger] s[i]).id) ==> referenced_of(
                s,
                pre,
            ).contains(s[i]),
    decreases s.len(),
{
    if s.len() > 0 {
        lemma_referenced_of_props(s.drop_last(), pre);
        let front = s.drop_last();
        let out = referenced_of(s, pre);
        assert forall|k: int| 0 <= k < out.len() implies pre.action_referenced(
            (#[trigger] out[k]).id,
        ) && s.contains(out[k]) by {
            if k < referenced_of(front, pre).len() {
                assert(out[k] == referenced_of(front, pre)[k]);
                let i = choose|i: int| 0 <= i < front.len() && front[i] == out[k];
                assert(s[i] == out[k]);
            } else {
                assert(out[k] == s.last());
                assert(s[s.len() - 1] == s.last());
            }
        }
        assert forall|i: int|
            0 <= i < s.len() && pre.action_referenced((#[trigger] s[i]).id) implies out.contains(
            s[i],
        ) by {
            if i < s.len() - 1 {
                assert(front[i] == s[i]);
                let k = choose|k: int|
                    0 <= k < referenced_of(front, pre).len() && referenced_of(front, pre)[k]
                        == s[i];
                assert(out[k] == s[i]);
            } else {
                assert(s[i] == s.last());
                assert(out.last() == s.last());
            }
        }
    }
}

/// `referenced_of` keeps id and name uniqueness.
proof fn lemma_referenced_of_distinct(s: Seq<Action>, pre: Store)
    requires
        forall|i: int, j: int|
            0 <= i < j < s.len() ==> (#[trigger] s[i]).id != (#[trigger] s[j]).id && s[i].name@
                != s[j].name@,
    ensures
        forall|i: int, j: int|
            0 <= i < j < referenced_of(s, pre).len() ==> (#[trigger] referenced_of(s, pre)[i]).id
                != (#[trigger] referenced_of(s, pre)[j]).id && referenced_of(s, pre)[i].name@
                != referenced_of(s, pre)[j].name@,
    decreases s.len(),
{
    if s.len() > 0 {
        let front = s.drop_last();
        assert forall|i: int, j: int| 0 <= i < j < front.len() implies (#[trigger] front[i]).id
            != (#[trigger] front[j]).id && front[i].name@ != front[j].name@ by {
            assert(s[i] == front[i] && s[j] == front[j]);
        }
        lemma_referenced_of_distinct(front, pre);
        lemma_referenced_of_props(front, pre);
        let out = referenced_of(s, pre);
        assert forall|i: int, j: int| 0 <= i < j < out.len() implies (#[trigger] out[i]).id != (
        #[trigger] out[j]).id && out[i].name@ != out[j].name@ by {
            if j < referenced_of(front, pre).len() {
            } else if pre.action_referenced(s.last().id) && j == referenced_of(front, pre).len() {
                assert(out[j] == s.last());
                assert(out[i] == referenced_of(front, pre)[i]);
                let fi = choose|fi: int| 0 <= fi < front.len() && front[fi] == out[i];
                assert(s[fi] == out[i]);
                assert(s[fi].id != s[s.len() - 1].id && s[fi].name@ != s[s.len() - 1].name@);
            }
        }
    }
}

impl Store {
    /// Deletes every action with no referencing plan item and no referencing
    /// execution item, and returns the removed rows for logging.
    pub fn sweep_unreferenced(&mut self) -> (removed: Vec<Action>)
        requires
            old(self).wf(),
        ensures
            final(self).wf(),
            sweep_post(*old(self), *final(self), removed@),
    {
        let ghost pre = *self;
        let n = self.actions.len();
        let mut kept: Vec<Action> = Vec::new();
        let mut removed: Vec<Action> = Vec::new();
        proof {
            assert(pre.actions@.take(0) =~= Seq::<Action>::empty());
        }
        for i in 0..n
            invariant
                *self == pre,
                n == pre.actions@.len(),
                kept@ == referenced_of(pre.actions@.take(i as int), pre),
                removed@ == unreferenced_of(pre.actions@.take(i as int), pre),
        {
            let referenced = self.is_action_referenced(self.actions[i].id);
            let a = Action { id: self.actions[i].id, name: self.actions[i].name.clone() };
            proof {
                assert(a == pre.actions@[i as int]);
                let cur = pre.actions@.take(i + 1);
                assert(cur.drop_last() =~= pre.actions@.take(i as int));
                assert(cur.last() == pre.actions@[i as int]);
            }
            if referenced {
                kept.push(a);
            } else {
                removed.push(a);
            }
        }
        proof {
            assert(pre.actions@.take(n as int) =~= pre.actions@);
        }
        self.actions = kept;
        proof {
            lemma_referenced_of_distinct(pre.actions@, pre);
            lemma_referenced_of_props(pre.actions@, pre);
            assert forall|p: int, k: int|
                0 <= p < self.plans@.len() && 0 <= k < self.plans@[p].items@.len() implies self.has_action_id(
                (#[trigger] self.plans@[p].items@[k]).action_id,
            ) by {
                let aid = self.plans@[p].items@[k].action_id;
                assert(pre.has_action_id(aid));
                let i = choose|i: int|
                    0 <= i < pre.actions@.len() && (#[trigger] pre.actions@[i]).id == aid;
                assert(pre.action_in_plan_use(aid));
                assert(self.actions@.contains(pre.actions@[i]));
                let k2 = choose|k2: int|
                    0 <= k2 < self.actions@.len() && self.actions@[k2] == pre.actions@[i];
                assert(self.actions@[k2].id == aid);
            }
            assert forall|e: int, k: int|
                0 <= e < self.executions@.len() && 0 <= k < self.executions@[e].items@.len() implies self.has_action_id(
                (#[trigger] self.executions@[e].items@[k]).action_id,
            ) by {
                let aid = self.executions@[e].items@[k].action_id;
                assert(pre.has_action_id(aid));
                let i = choose|i: int|
                    0 <= i < pre.actions@.len() && (#[trigger] pre.actions@[i]).id == aid;
                assert(pre.action_in_execution_use(aid));
                assert(self.actions@.contains(pre.actions@[i]));
                let k2 = choose|k2: int|
                    0 <= k2 < self.actions@.len() && self.actions@[k2] == pre.actions@[i];
                assert(self.actions@[k2].id == aid);
            }
            assert forall|e: int| 0 <= e < self.executions@.len() implies self.has_plan_id(
                (#[trigger] self.executions@[e]).plan_id,
            ) by {
                assert(pre.has_plan_id(pre.executions@[e].plan_id));
            }
        }
        removed
    }
}

/// Law: after a sweep no unreferenced action remains, and every action that
/// was referenced before the sweep is still there, under the same id.
pub proof fn lemma_sweep_collects_garbage(pre: Store, post: Store, removed: Seq<Action>)
    requires
        pre.wf(),
        sweep_post(pre, post, removed),
    ensures
        forall|k: int|
            0 <= k < post.actions@.len() ==> post.action_referenced(
                (#[trigger] post.actions@[k]).id,
            ),
        forall|i: int|
            0 <= i < pre.actions@.len() && pre.action_referenced((#[trigger] pre.actions@[i]).id)
                ==> post.has_action_id(pre.actions@[i].id),
        forall|k: int|
            0 <= k < removed.len() ==> !pre.action_referenced((#[trigger] removed[k]).id),
{
    lemma_referenced_of_props(pre.actions@, pre);
    assert forall|k: int| 0 <= k < post.actions@.len() implies post.action_referenced(
        (#[trigger] post.actions@[k]).id,
    ) by {
        assert(pre.action_referenced(post.actions@[k].id));
        assert(pre.action_in_plan_use(post.actions@[k].id) == post.action_in_plan_use(
            post.actions@[k].id,
        ));
    }
    assert forall|i: int|
        0 <= i < pre.actions@.len() && pre.action_referenced(
            (#[trigger] pre.actions@[i]).id,
        ) implies post.has_action_id(pre.actions@[i].id) by {
        assert(post.actions@.contains(pre.actions@[i]));
        let k = choose|k: int|
            0 <= k < post.actions@.len() && post.actions@[k] == pre.actions@[i];
        assert(post.actions@[k].id == pre.actions@[i].id);
    }
    lemma_unreferenced_of_props(pre.actions@, pre);
}

/// Every action dropped by `unreferenced_of` is unreferenced.
proof fn lemma_unreferenced_of_props(s: Seq<Action>, pre: Store)
    ensures
        forall|k: int|
            0 <= k < unreferenced_of(s, pre).len() ==> !pre.action_referenced(
                (#[trigger] unreferenced_of(s, pre)[k]).id,
            ),
    decreases s.len(),
{
    if s.len() > 0 {
        lemma_unreferenced_of_props(s.drop_last(), pre);
        let front = unreferenced_of(s.drop_last(), pre);
        let out = unreferenced_of(s, pre);
        assert forall|k: int| 0 <= k < out.len() implies !pre.action_referenced(
            (#[trigger] out[k]).id,
        ) by {
            if k < front.len() {
                assert(out[k] == front[k]);
            } else {
                assert(out[k] == s.last());
            }
        }
    }
}

/// Law: however often `ensure_action` is called with one name, exactly one
/// action row with that name exists afterwards, and its id is stable: a
/// second successful call returns the first call's id and leaves the store
/// unchanged.
pub proof fn lemma_ensure_action_once(
    pre: Store,
    mid: Store,
    post: Store,
    name: Seq<char>,
    id1: u128,
    id2: u128,
)
    requires
        pre.wf(),
        mid.wf(),
        ensure_action_post(pre, mid, name, Ok(id1)),
        ensure_action_post(mid, post, name, Ok(id2)),
    ensures
        post == mid,
        id2 == id1,
        mid.has_action_name(name),
        forall|i: int, j: int|
            0 <= i < mid.actions@.len() && 0 <= j < mid.actions@.len() && (
            #[trigger] mid.actions@[i]).name@ == name && (#[trigger] mid.actions@[j]).name@ == name
                ==> i == j,
{
    if pre.has_action_name(name) {
        assert(mid == pre);
        let i = pre.action_idx_of_name(name);
        assert(0 <= i < pre.actions@.len() && pre.actions@[i].name@ == name);
        assert(id1 == pre.actions@[i].id);
    } else {
        assert(mid.actions@.last().name@ == name);
        assert(mid.has_action_name(name));
        assert(id1 == mid.actions@.last().id);
    }
    assert(mid.has_action_name(name));
    assert(post == mid);
    let j = mid.action_idx_of_name(name);
    assert(0 <= j < mid.actions@.len() && mid.actions@[j].name@ == name);
    assert(id2 == mid.actions@[j].id);
    if pre.has_action_name(name) {
        let i = pre.action_idx_of_name(name);
        assert(i == j) by {
            if i != j {
                assert(mid.actions@[i].name@ != mid.actions@[j].name@);
            }
        }
    } else {
        let last = mid.actions@.len() - 1;
        assert(j == last) by {
            if j != last {
                assert(mid.actions@.take(pre.actions@.len() as int)[j] == mid.actions@[j]);
                assert(pre.has_action_name(name));
            }
        }
    }
    assert forall|i: int, j2: int|
        0 <= i < mid.actions@.len() && 0 <= j2 < mid.actions@.len() && (
        #[trigger] mid.actions@[i]).name@ == name && (#[trigger] mid.actions@[j2]).name@ == name
        implies i == j2 by {
        if i != j2 {
            if i < j2 {
                assert(mid.actions@[i].name@ != mid.actions@[j2].name@);
            } else {
                assert(mid.actions@[j2].name@ != mid.actions@[i].name@);
            }
        }
    }
}

} // verus!
