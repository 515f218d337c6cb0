use vstd::prelude::*;

use crate::error::StoreError;
use crate::ids::random_id;
use crate::model::{Action, PlanItem, Store};
use crate::text::{names_view, normalize_items, normalized_names};

verus! {

pub open spec fn acts_has_id(acts: Seq<Action>, id: u128) -> bool {
    exists|i: int| 0 <= i < acts.len() && (#[trigger] acts[i]).id == id
}

pub open spec fn acts_has_name(acts: Seq<Action>, n: Seq<char>) -> bool {
    exists|i: int| 0 <= i < acts.len() && (#[trigger] acts[i]).name@ == n
}

pub open spec fn items_has_id(items: Seq<PlanItem>, id: u128) -> bool {
    exists|i: int| 0 <= i < items.len() && (#[trigger] items[i]).id == id
}

/// A working copy of the registry grown during one atomic edit: the old
/// registry as a prefix, every appended action carrying an unused id and a
/// name the store did not know, and ids and names unique throughout.
pub open spec fn acts_extension(base: Store, acts: Seq<Action>) -> bool {
    &&& acts.len() >= base.actions@.len()
    &&& acts.take(base.actions@.len() as int) == base.actions@
    &&& forall|k: int|
        base.actions@.len() <= k < acts.len() ==> !base.id_in_use((#[trigger] acts[k]).id)
            && !base.has_action_name(acts[k].name@)
    &&& forall|i: int, j: int|
        0 <= i < j < acts.len() ==> (#[trigger] acts[i]).id != (#[trigger] acts[j]).id
            && acts[i].name@ != acts[j].name@
}

/// The registry holds an action with this id and this name.
pub open spec fn acts_resolve(acts: Seq<Action>, aid: u128, n: Seq<char>) -> bool {
    exists|a: int|
        0 <= a < acts.len() && (#[trigger] acts[a]).id == aid && acts[a].name@ == n
}

/// The item points at an action of the given name in the working registry.
pub open spec fn item_resolves(acts: Seq<Action>, it: PlanItem, n: Seq<char>) -> bool {
    acts_resolve(acts, it.action_id, n)
}

/// What one template build yields: a grown registry whose new actions all
/// stem from the submitted names, and one fresh item per submitted name, in
/// order, each resolving to the action of its name.
pub open spec fn build_items_post(
    base: Store,
    names: Seq<Seq<char>>,
    acts: Seq<Action>,
    items: Seq<PlanItem>,
) -> bool {
    &&& acts_extension(base, acts)
    &&& forall|k: int|
        base.actions@.len() <= k < acts.len() ==> names.contains((#[trigger] acts[k]).name@)
    &&& items.len() == names.len()
    &&& forall|k: int| 0 <= k < items.len() ==> item_resolves(acts, #[trigger] items[k], names[k])
    &&& forall|k: int| 0 <= k < items.len() ==> !base.id_in_use((#[trigger] items[k]).id)
    &&& forall|k1: int, k2: int|
        0 <= k1 < k2 < items.len() ==> (#[trigger] items[k1]).id != (#[trigger] items[k2]).id
}

/// Copies the registry row for row.
pub(crate) fn clone_actions(v: &Vec<Action>) -> (r: Vec<Action>)
    ensures
        r@ == v@,
{
    let n = v.len();
    let mut r: Vec<Action> = Vec::new();
    proof {
        assert(r@ =~= v@.take(0));
    }
    for i in 0..n
        invariant
            n == v@.len(),
            r@ == v@.take(i as int),
    {
        let a = Action { id: v[i].id, name: v[i].name.clone() };
        proof {
            assert(a == v@[i as int]);
            assert(v@.take(i + 1) =~= v@.take(i as int).push(v@[i as int]));
        }
        r.push(a);
    }
    proof {
        assert(v@.take(n as int) =~= v@);
    }
    r
}

/// Draws an id that no store row and no working-registry row carries.
fn fresh_action_id(base: &Store, acts: &Vec<Action>) -> (r: Option<u128>)
    ensures
        match r {
            Some(id) => !base.id_in_use(id) && !acts_has_id(acts@, id),
            None => true,
        },
{
    let id = random_id();
    if base.uses_id(id) {
        return None;
    }
    let n = acts.len();
    for i in 0..n
        invariant
            n == acts@.len(),
            forall|j: int| 0 <= j < i ==> (#[trigger] acts@[j]).id != id,
    {
        if acts[i].id == id {
            return None;
        }
    }
    Some(id)
}

/// Draws an id that no store row and no freshly built item carries.
pub(crate) fn fresh_plan_item_id(base: &Store, items: &Vec<PlanItem>) -> (r: Option<u128>)
    ensures
        match r {
            Some(id) => !base.id_in_use(id) && !items_has_id(items@, id),
            None => true,
        },
{
    let id = random_id();
    if base.uses_id(id) {
        return None;
    }
    let n = items.len();
    for i in 0..n
        invariant
            n == items@.len(),
            forall|j: int| 0 <= j < i ==> (#[trigger] items@[j]).id != id,
    {
        if items[i].id == id {
            return None;
        }
    }
    Some(id)
}

fn acts_index_by_name(acts: &Vec<Action>, name: &String) -> (r: Option<usize>)
    ensures
        match r {
            Some(i) => i < acts@.len() && acts@[i as int].name@ == name@,
            None => !acts_has_name(acts@, name@),
        },
{
    let n = acts.len();
    for i in 0..n
        invariant
            n == acts@.len(),
            forall|j: int| 0 <= j < i ==> (#[trigger] acts@[j]).name@ != name@,
    {
        if acts[i].name.eq(name) {
            return Some(i);
        }
    }
    None
}

/// `ensure_action` against a working registry: looks the name up, creating a
/// fresh-id action when absent, without touching the store itself.
fn ensure_action_in(base: &Store, acts: &mut Vec<Action>, name: &String) -> (r: Result<
    u128,
    StoreError,
>)
    requires
        base.wf(),
        acts_extension(*base, old(acts)@),
    ensures
        acts_extension(*base, final(acts)@),
        match r {
            Ok(id) => {
                &&& acts_resolve(final(acts)@, id, name@)
                &&& (final(acts)@ == old(acts)@ || (final(acts)@.len() == old(acts)@.len() + 1
                    && final(acts)@.take(old(acts)@.len() as int) == old(acts)@
                    && final(acts)@.last().name@ == name@
                    && !acts_has_name(old(acts)@, name@)))
            },
            Err(e) => e == StoreError::Internal && final(acts)@ == old(acts)@,
        },
{
    match acts_index_by_name(acts, name) {
        Some(i) => {
            let id = acts[i].id;
            proof {
                assert(acts@[i as int].id == id && acts@[i as int].name@ == name@);
            }
            Ok(id)
        },
        None => {
            match fresh_action_id(base, acts) {
                None => Err(StoreError::Internal),
                Some(id) => {
                    let ghost pre_acts = acts@;
                    let ghost blen = base.actions@.len() as int;
                    acts.push(Action { id, name: name.clone() });
                    proof {
                        assert(acts@.take(pre_acts.len() as int) =~= pre_acts);
                        assert(acts@.take(blen) =~= pre_acts.take(blen));
                        assert(!base.has_action_name(name@)) by {
                            if base.has_action_name(name@) {
                                let i = choose|i: int|
                                    0 <= i < base.actions@.len() && (
                                    #[trigger] base.actions@[i]).name@ == name@;
                                assert(pre_acts.take(blen)[i] == pre_acts[i]);
                                assert(pre_acts[i].name@ == name@);
                            }
                        }
                        assert forall|i: int, j: int| 0 <= i < j < acts@.len() implies (
                        #[trigger] acts@[i]).id != (#[trigger] acts@[j]).id && acts@[i].name@
                            != acts@[j].name@ by {
                            if j < pre_acts.len() {
                                assert(pre_acts[i].id != pre_acts[j].id);
                            } else {
                                assert(acts@[j].id == id && acts@[j].name@ == name@);
                                assert(acts@[i] == pre_acts[i]);
                                assert(!acts_has_id(pre_acts, id));
                                assert(!acts_has_name(pre_acts, name@));
                            }
                        }
                        assert(acts@.last().id == id && acts@.last().name@ == name@);
                    }
                    Ok(id)
                },
            }
        },
    }
}

/// Builds the replacement rows for one submitted (already normalized) name
/// list: the grown registry and the fresh ordered items. The store itself is
/// not touched; the caller commits both vectors at once or not at all.
pub(crate) fn build_items(base: &Store, names: &Vec<String>) -> (r: Result<
    (Vec<Action>, Vec<PlanItem>),
    StoreError,
>)
    requires
        base.wf(),
    ensures
        match r {
            Ok(pair) => build_items_post(
                *base,
                names@.map_values(|s: String| s@),
                pair.0@,
                pair.1@,
            ),
            Err(e) => e == StoreError::Internal && names@.len() > 0,
        },
{
    let ghost nviews = names@.map_values(|s: String| s@);
    let mut acts = clone_actions(&base.actions);
    proof {
        assert(acts@.take(base.actions@.len() as int) =~= base.actions@);
    }
    let mut items: Vec<PlanItem> = Vec::new();
    let n = names.len();
    for k in 0..n
        invariant
            base.wf(),
            n == names@.len(),
            nviews == names@.map_values(|s: String| s@),
            acts_extension(*base, acts@),
            forall|idx: int|
                base.actions@.len() <= idx < acts@.len() ==> nviews.contains(
                    (#[trigger] acts@[idx]).name@,
                ),
            items@.len() == k,
            forall|j: int| 0 <= j < k ==> item_resolves(acts@, #[trigger] items@[j], nviews[j]),
            forall|j: int| 0 <= j < k ==> !base.id_in_use((#[trigger] items@[j]).id),
            forall|j1: int, j2: int|
                0 <= j1 < j2 < k ==> (#[trigger] items@[j1]).id != (#[trigger] items@[j2]).id,
    {
        let ghost acts_before = acts@;
        let aid = match ensure_action_in(base, &mut acts, &names[k]) {
            Ok(v) => v,
            Err(e) => {
                return Err(e);
            },
        };
        proof {
            assert(nviews[k as int] == names@[k as int]@);
            assert forall|j: int| 0 <= j < k implies item_resolves(
                acts@,
                #[trigger] items@[j],
                nviews[j],
            ) by {
                let a = choose|a: int|
                    0 <= a < acts_before.len() && (#[trigger] acts_before[a]).id
                        == items@[j].action_id && acts_before[a].name@ == nviews[j];
                if acts@ != acts_before {
                    assert(acts@.take(acts_before.len() as int)[a] == acts@[a]);
                }
                assert(acts@[a].id == items@[j].action_id && acts@[a].name@ == nviews[j]);
            }
            assert forall|idx: int|
                base.actions@.len() <= idx < acts@.len() implies nviews.contains(
                (#[trigger] acts@[idx]).name@,
            ) by {
                if idx < acts_before.len() {
                    if acts@ != acts_before {
                        assert(acts@.take(acts_before.len() as int)[idx] == acts@[idx]);
                        assert(acts@[idx] == acts_before[idx]);
                    }
                } else {
                    assert(acts@[idx] == acts@.last());
                    assert(acts@.last().name@ == nviews[k as int]);
                }
            }
        }
        let iid = match fresh_plan_item_id(base, &items) {
            None => {
                return Err(StoreError::Internal);
            },
            Some(v) => v,
        };
        items.push(PlanItem { id: iid, action_id: aid });
        proof {
            assert(item_resolves(acts@, items@.last(), nviews[k as int]));
        }
    }
    proof {
        assert(nviews.len() == n as int);
    }
    Ok((acts, items))
}

/// Committing one plan's rebuilt items together with the grown registry
/// keeps the store well formed, and the plan's template then reads exactly
/// the submitted names.
pub(crate) proof fn lemma_commit_plan_items(pre: Store, post: Store, p: int, names: Seq<Seq<char>>)
    requires
        pre.wf(),
        0 <= p < pre.plans@.len(),
        build_items_post(pre, names, post.actions@, post.plans@[p].items@),
        post.plans@.len() == pre.plans@.len(),
        forall|q: int| 0 <= q < pre.plans@.len() && q != p ==> post.plans@[q] == pre.plans@[q],
        post.plans@[p].id == pre.plans@[p].id,
        post.executions == pre.executions,
    ensures
        post.wf(),
        post.template_of(post.plans@[p]) == names,
{
    let blen = pre.actions@.len() as int;
    assert forall|i: int| 0 <= i < blen implies post.actions@[i] == pre.actions@[i] by {
        assert(post.actions@.take(blen)[i] == post.actions@[i]);
    }
    assert forall|aid: u128| pre.has_action_id(aid) implies post.has_action_id(aid) by {
        let i = choose|i: int| 0 <= i < blen && (#[trigger] pre.actions@[i]).id == aid;
        assert(post.actions@[i].id == aid);
    }
    assert(post.actions_wf());
    // plan ids are unchanged in place
    assert forall|i: int, j: int| 0 <= i < j < post.plans@.len() implies (
    #[trigger] post.plans@[i]).id != (#[trigger] post.plans@[j]).id by {
        assert(post.plans@[i].id == pre.plans@[i].id && post.plans@[j].id == pre.plans@[j].id);
    }
    // every plan item resolves to an action
    assert forall|q: int, k: int|
        0 <= q < post.plans@.len() && 0 <= k < post.plans@[q].items@.len() implies post.has_action_id(
        (#[trigger] post.plans@[q].items@[k]).action_id,
    ) by {
        if q == p {
            assert(item_resolves(post.actions@, post.plans@[p].items@[k], names[k]));
        } else {
            assert(post.plans@[q] == pre.plans@[q]);
            assert(pre.has_action_id(pre.plans@[q].items@[k].action_id));
        }
    }
    // plan item ids stay globally unique
    assert forall|p1: int, k1: int, p2: int, k2: int|
        0 <= p1 < post.plans@.len() && 0 <= k1 < post.plans@[p1].items@.len() && 0 <= p2
            < post.plans@.len() && 0 <= k2 < post.plans@[p2].items@.len() && (p1 != p2 || k1
            != k2) implies (#[trigger] post.plans@[p1].items@[k1]).id != (
    #[trigger] post.plans@[p2].items@[k2]).id by {
        if p1 == p && p2 == p {
        } else if p1 == p {
            assert(post.plans@[p2] == pre.plans@[p2]);
            assert(pre.has_plan_item_id(pre.plans@[p2].items@[k2].id));
            assert(!pre.id_in_use(post.plans@[p1].items@[k1].id));
        } else if p2 == p {
            assert(post.plans@[p1] == pre.plans@[p1]);
            assert(pre.has_plan_item_id(pre.plans@[p1].items@[k1].id));
            assert(!pre.id_in_use(post.plans@[p2].items@[k2].id));
        } else {
            assert(post.plans@[p1] == pre.plans@[p1] && post.plans@[p2] == pre.plans@[p2]);
            assert(pre.plans@[p1].items@[k1].id != pre.plans@[p2].items@[k2].id);
        }
    }
    assert(post.plans_wf());
    // executions are untouched and their references still resolve
    assert forall|e: int| 0 <= e < post.executions@.len() implies post.has_plan_id(
        (#[trigger] post.executions@[e]).plan_id,
    ) by {
        assert(pre.has_plan_id(pre.executions@[e].plan_id));
        let i = choose|i: int|
            0 <= i < pre.plans@.len() && (#[trigger] pre.plans@[i]).id
                == pre.executions@[e].plan_id;
        assert(post.plans@[i].id == pre.plans@[i].id);
    }
    assert forall|e: int, k: int|
        0 <= e < post.executions@.len() && 0 <= k < post.executions@[e].items@.len() implies post.has_action_id(
        (#[trigger] post.executions@[e].items@[k]).action_id,
    ) by {
        assert(pre.has_action_id(pre.executions@[e].items@[k].action_id));
    }
    assert(post.executions_wf());
    // the rebuilt template reads exactly the submitted names
    assert forall|k: int| 0 <= k < names.len() implies #[trigger] post.template_of(
        post.plans@[p],
    )[k] == names[k] by {
        assert(item_resolves(post.actions@, post.plans@[p].items@[k], names[k]));
        let a = choose|a: int|
            0 <= a < post.actions@.len() && (#[trigger] post.actions@[a]).id
                == post.plans@[p].items@[k].action_id && post.actions@[a].name@ == names[k];
        post.lemma_action_idx_of_id(a);
    }
    assert(post.template_of(post.plans@[p]) =~= names);
}

/// What replacing a plan's item list leaves behind: the plan's metadata and
/// every other table row untouched, the plan's template equal to the
/// normalized submission, and the registry grown by exactly the submitted
/// names it lacked. `NotFound` exactly when no such plan exists; an internal
/// error changes nothing.
pub open spec fn replace_items_post(
    pre: Store,
    post: Store,
    plan_id: u128,
    submitted: Seq<Seq<char>>,
    r: Result<(), StoreError>,
) -> bool {
    match r {
        Ok(u) => {
            &&& pre.has_plan_id(plan_id)
            &&& ({
                let p = pre.plan_idx_of_id(plan_id);
                &&& post.plans@.len() == pre.plans@.len()
                &&& forall|q: int|
                    0 <= q < pre.plans@.len() && q != p ==> post.plans@[q] == pre.plans@[q]
                &&& post.plans@[p].id == plan_id
                &&& post.plans@[p].name == pre.plans@[p].name
                &&& post.plans@[p].deleted_at == pre.plans@[p].deleted_at
                &&& post.template_of(post.plans@[p]) == normalized_names(submitted)
                &&& build_items_post(
                    pre,
                    normalized_names(submitted),
                    post.actions@,
                    post.plans@[p].items@,
                )
                &&& post.executions == pre.executions
            })
        },
        Err(e) => {
            &&& post == pre
            &&& (e == StoreError::NotFound || e == StoreError::Internal)
            &&& (e == StoreError::NotFound <==> !pre.has_plan_id(plan_id))
            &&& (e == StoreError::Internal ==> normalized_names(submitted).len() > 0)
        },
    }
}

impl Store {
    /// Replaces a plan's entire item list with the normalized submitted
    /// names: deletes every old item and inserts one fresh item per
    /// surviving name, in order, creating missing actions on demand. Atomic:
    /// on any error the store is unchanged. Only the surviving names draw
    /// ids, so an empty submission cannot fail internally.
    pub fn replace_items(&mut self, plan_id: u128, item_names: Option<Vec<String>>) -> (r: Result<
        (),
        StoreError,
    >)
        requires
            old(self).wf(),
        ensures
            final(self).wf(),
            replace_items_post(
                *old(self),
                *final(self),
                plan_id,
                names_view(item_names),
                r,
            ),
    {
        let ghost pre = *self;
        let normalized = normalize_items(item_names);
        let p = match self.plan_index_by_id(plan_id) {
            None => {
                return Err(StoreError::NotFound);
            },
            Some(p) => p,
        };
        let (acts, new_items) = match build_items(self, &normalized) {
            Err(e) => {
                return Err(e);
            },
            Ok(pair) => pair,
        };
        let mut plan = self.plans.remove(p);
        plan.items = new_items;
        let ghost updated = plan;
        self.plans.insert(p, plan);
        self.actions = acts;
        proof {
            assert(self.plans@ =~= pre.plans@.update(p as int, updated));
            pre.lemma_plan_idx_of_id(p as int);
            lemma_commit_plan_items(
                pre,
                *self,
                p as int,
                normalized_names(names_view(item_names)),
            );
        }
        Ok(())
    }
}

/// Law: replacing a plan's items twice with the same submission is
/// idempotent. After the first replacement the template already reads the
/// normalized names in order (the dense 0..n-1 item order), and the second
/// replacement leaves the template, the plan's metadata, the registry and
/// the executions exactly as the first left them.
pub proof fn lemma_replace_items_idempotent(
    pre: Store,
    mid: Store,
    post: Store,
    plan_id: u128,
    submitted: Seq<Seq<char>>,
)
    requires
        pre.wf(),
        mid.wf(),
        post.wf(),
        replace_items_post(pre, mid, plan_id, submitted, Ok(())),
        replace_items_post(mid, post, plan_id, submitted, Ok(())),
    ensures
        post.actions@ == mid.actions@,
        post.executions == mid.executions,
        post.plans@.len() == mid.plans@.len(),
        ({
            let p = mid.plan_idx_of_id(plan_id);
            &&& post.plans@[p].name == mid.plans@[p].name
            &&& post.plans@[p].deleted_at == mid.plans@[p].deleted_at
            &&& post.template_of(post.plans@[p]) == mid.template_of(mid.plans@[p])
            &&& forall|q: int|
                0 <= q < mid.plans@.len() && q != p ==> post.plans@[q] == mid.plans@[q]
        }),
{
    let norm = normalized_names(submitted);
    let p0 = pre.plan_idx_of_id(plan_id);
    let p = mid.plan_idx_of_id(plan_id);
    assert(0 <= p0 < pre.plans@.len()) by {
        let w = choose|i: int|
            0 <= i < pre.plans@.len() && (#[trigger] pre.plans@[i]).id == plan_id;
        pre.lemma_plan_idx_of_id(w);
    }
    assert(mid.plans@[p0].id == plan_id);
    mid.lemma_plan_idx_of_id(p0);
    assert(p == p0);
    // every normalized name already has an action after the first pass
    assert forall|n: Seq<char>| norm.contains(n) implies mid.has_action_name(n) by {
        let k = choose|k: int| 0 <= k < norm.len() && norm[k] == n;
        assert(mid.template_of(mid.plans@[p])[k] == n);
        assert(item_resolves(mid.actions@, mid.plans@[p].items@[k], norm[k]));
        let a = choose|a: int|
            0 <= a < mid.actions@.len() && (#[trigger] mid.actions@[a]).id
                == mid.plans@[p].items@[k].action_id && mid.actions@[a].name@ == norm[k];
        assert(mid.actions@[a].name@ == n);
    }
    // hence the second pass appended no action
    assert(post.actions@.len() == mid.actions@.len()) by {
        if post.actions@.len() > mid.actions@.len() {
            let k = mid.actions@.len() as int;
            assert(norm.contains(post.actions@[k].name@));
            assert(!mid.has_action_name(post.actions@[k].name@));
        }
    }
    assert(post.actions@ =~= post.actions@.take(mid.actions@.len() as int));
    assert(post.actions@ == mid.actions@);
}

} // verus!

