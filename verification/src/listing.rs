use vstd::prelude::*;

use crate::error::StoreError;
use crate::model::{Execution, Plan, Store, ts_is_set};
use crate::order::{
    SortOrd, bytes_lex_le, insertion_sort, lemma_bytes_lex_le_total, lemma_bytes_lex_le_trans,
    sorted_by_le, str_bytes_le,
};
use crate::text::{lower_of, lowercase_string};
use vstd::seq_lib::{to_multiset_insert, to_multiset_remove};
use vstd::utf8::encode_utf8;

verus! {

/// The query parameters of the plan list: a sort key and whether deleted
/// plans are shown instead of active ones.
pub struct ActionPlanListQuery {
    pub sort: Option<String>,
    pub deleted: Option<bool>,
}

/// One row of the plan list: the plan, its most recent still-open execution
/// if any, and the computed last-execution timestamps.
pub struct ActionPlanListItem {
    pub id: u128,
    pub name: String,
    pub active_execution_id: Option<u128>,
    pub last_finished_at: Option<i64>,
    pub last_execution_at: Option<i64>,
}

/// The three orders the plan list supports. The sort key is computed from
/// the executions, not stored.
#[derive(Clone, Copy, PartialEq, Eq, Structural)]
pub enum PlanSort {
    NameAsc,
    LastExecutionDesc,
    LastExecutionAsc,
}

/// The plans the list shows: the deleted ones when asked for, else the
/// active ones, in store order.
pub open spec fn listed_plans(plans: Seq<Plan>, show_deleted: bool) -> Seq<Plan>
    decreases plans.len(),
{
    if plans.len() == 0 {
        plans
    } else {
        let rest = listed_plans(plans.drop_last(), show_deleted);
        if ts_is_set(plans.last().deleted_at) == show_deleted {
            rest.push(plans.last())
        } else {
            rest
        }
    }
}

/// The most recently started still-open execution of the plan: its id and
/// start time. Ties on the start time keep the earlier row.
pub open spec fn active_execution_of(execs: Seq<Execution>, pid: u128) -> Option<(u128, i64)>
    decreases execs.len(),
{
    if execs.len() == 0 {
        None
    } else {
        let rest = active_execution_of(execs.drop_last(), pid);
        let e = execs.last();
        if e.plan_id == pid && !ts_is_set(e.finished) {
            match rest {
                None => Some((e.id, e.started)),
                Some(best) => if e.started > best.1 {
                    Some((e.id, e.started))
                } else {
                    rest
                },
            }
        } else {
            rest
        }
    }
}

/// The latest start time among all executions of the plan.
pub open spec fn last_execution_of(execs: Seq<Execution>, pid: u128) -> Option<i64>
    decreases execs.len(),
{
    if execs.len() == 0 {
        None
    } else {
        let rest = last_execution_of(execs.drop_last(), pid);
        let e = execs.last();
        if e.plan_id == pid {
            match rest {
                None => Some(e.started),
                Some(m) => if e.started > m {
                    Some(e.started)
                } else {
                    rest
                },
            }
        } else {
            rest
        }
    }
}

/// The latest completion time among the completed executions of the plan.
pub open spec fn last_finished_of(execs: Seq<Execution>, pid: u128) -> Option<i64>
    decreases execs.len(),
{
    if execs.len() == 0 {
        None
    } else {
        let rest = last_finished_of(execs.drop_last(), pid);
        let e = execs.last();
        if e.plan_id == pid && ts_is_set(e.finished) {
            match rest {
                None => e.finished,
                Some(m) => if e.finished->0 > m {
                    e.finished
                } else {
                    rest
                },
            }
        } else {
            rest
        }
    }
}

// The mathematical reading of one list row.
pub type ListRowSnap = (u128, Seq<char>, Option<u128>, Option<i64>, Option<i64>);

pub open spec fn list_row_model(it: ActionPlanListItem) -> ListRowSnap {
    (it.id, it.name@, it.active_execution_id, it.last_finished_at, it.last_execution_at)
}

pub open spec fn list_row_model_fn() -> spec_fn(ActionPlanListItem) -> ListRowSnap {
    |it: ActionPlanListItem| list_row_model(it)
}

/// The row the list computes for one plan.
pub open spec fn list_entry_of(s: Store, p: Plan) -> ListRowSnap {
    (
        p.id,
        p.name@,
        match active_execution_of(s.executions@, p.id) {
            None => None,
            Some(best) => Some(best.0),
        },
        last_finished_of(s.executions@, p.id),
        last_execution_of(s.executions@, p.id),
    )
}

pub open spec fn list_entries_of(s: Store, plans: Seq<Plan>) -> Seq<ListRowSnap> {
    plans.map_values(|p: Plan| list_entry_of(s, p))
}

/// `None` start times order before any set one; among set ones the earlier
/// orders first.
pub open spec fn opt_le(a: Option<i64>, b: Option<i64>) -> bool {
    match (a, b) {
        (Option::None, _) => true,
        (Option::Some(x), Option::None) => false,
        (Option::Some(x), Option::Some(y)) => x <= y,
    }
}

/// The list order: by lowercased name, or by the last execution's start
/// time in either direction.
pub open spec fn list_row_le(m: PlanSort, a: ActionPlanListItem, b: ActionPlanListItem) -> bool {
    match m {
        PlanSort::NameAsc => bytes_lex_le(
            encode_utf8(lower_of(a.name@)),
            encode_utf8(lower_of(b.name@)),
        ),
        PlanSort::LastExecutionDesc => opt_le(b.last_execution_at, a.last_execution_at),
        PlanSort::LastExecutionAsc => opt_le(a.last_execution_at, b.last_execution_at),
    }
}

proof fn lemma_list_row_le_total(m: PlanSort, a: ActionPlanListItem, b: ActionPlanListItem)
    ensures
        list_row_le(m, a, b) || list_row_le(m, b, a),
{
    if m == PlanSort::NameAsc {
        lemma_bytes_lex_le_total(
            encode_utf8(lower_of(a.name@)),
            encode_utf8(lower_of(b.name@)),
        );
    }
}

proof fn lemma_list_row_le_trans(
    m: PlanSort,
    a: ActionPlanListItem,
    b: ActionPlanListItem,
    c: ActionPlanListItem,
)
    requires
        list_row_le(m, a, b),
        list_row_le(m, b, c),
    ensures
        list_row_le(m, a, c),
{
    if m == PlanSort::NameAsc {
        lemma_bytes_lex_le_trans(
            encode_utf8(lower_of(a.name@)),
            encode_utf8(lower_of(b.name@)),
            encode_utf8(lower_of(c.name@)),
        );
    }
}

fn list_row_le_exec(m: PlanSort, a: &ActionPlanListItem, b: &ActionPlanListItem) -> (r: bool)
    ensures
        r == list_row_le(m, *a, *b),
{
    match m {
        PlanSort::NameAsc => {
            let la = lowercase_string(&a.name);
            let lb = lowercase_string(&b.name);
            str_bytes_le(la.as_str(), lb.as_str())
        },
        PlanSort::LastExecutionDesc => {
            match (b.last_execution_at, a.last_execution_at) {
                (None, _) => true,
                (Some(x), None) => false,
                (Some(x), Some(y)) => x <= y,
            }
        },
        PlanSort::LastExecutionAsc => {
            match (a.last_execution_at, b.last_execution_at) {
                (None, _) => true,
                (Some(x), None) => false,
                (Some(x), Some(y)) => x <= y,
            }
        },
    }
}

/// Sorts the list rows in place by the requested order: sorted afterwards,
/// with the same multiset of rows.
fn sort_list_rows(v: &mut Vec<ActionPlanListItem>, m: PlanSort)
    ensures
        forall|i: int, j: int|
            #![trigger final(v)@[i], final(v)@[j]]
            0 <= i < j < final(v)@.len() ==> list_row_le(m, final(v)@[i], final(v)@[j]),
        final(v)@.to_multiset() == old(v)@.to_multiset(),
{
    let n = v.len();
    let mut i: usize = 1;
    while i < n
        invariant
            n == v@.len(),
            i >= 1,
            forall|a: int, b: int|
                #![trigger v@[a], v@[b]]
                0 <= a < b < i && b < n ==> list_row_le(m, v@[a], v@[b]),
            v@.to_multiset() == old(v)@.to_multiset(),
        decreases n - i,
    {
        let ghost pre = v@;
        let mut j: usize = 0;
        while j < i && list_row_le_exec(m, &v[j], &v[i])
            invariant
                v@ == pre,
                n == v@.len(),
                1 <= i < n,
                j <= i,
                forall|a: int| 0 <= a < j ==> list_row_le(m, #[trigger] v@[a], v@[i as int]),
            decreases i - j,
        {
            j += 1;
        }
        proof {
            if j < i {
                lemma_list_row_le_total(m, pre[j as int], pre[i as int]);
            }
        }
        let x = v.remove(i);
        v.insert(j, x);
        proof {
            let rem = pre.remove(i as int);
            assert(v@ == rem.insert(j as int, pre[i as int]));
            to_multiset_remove(pre, i as int);
            to_multiset_insert(rem, j as int, pre[i as int]);
            assert(pre.contains(pre[i as int]));
            pre.to_multiset_ensures();
            assert(pre.to_multiset().count(pre[i as int]) > 0);
            assert(v@.to_multiset() =~= pre.to_multiset()) by {
                broadcast use vstd::multiset::group_multiset_axioms;

            }
            assert forall|a: int, b: int|
                #![trigger v@[a], v@[b]]
                0 <= a < b < i + 1 && b < n implies list_row_le(m, v@[a], v@[b]) by {
                let x_val = pre[i as int];
                if b < j {
                    assert(v@[a] == pre[a] && v@[b] == pre[b]);
                } else if b == j {
                    assert(v@[a] == pre[a] && v@[b] == x_val);
                } else {
                    assert(v@[b] == pre[b - 1]);
                    if a < j {
                        assert(v@[a] == pre[a]);
                        assert(list_row_le(m, pre[a], pre[b - 1]));
                    } else if a == j {
                        assert(v@[a] == x_val);
                        if j < i {
                            assert(list_row_le(m, x_val, pre[j as int]));
                            if b - 1 > j {
                                assert(list_row_le(m, pre[j as int], pre[b - 1]));
                                lemma_list_row_le_trans(m, x_val, pre[j as int], pre[b - 1]);
                            }
                        }
                    } else {
                        assert(v@[a] == pre[a - 1]);
                        assert(list_row_le(m, pre[a - 1], pre[b - 1]));
                    }
                }
            }
        }
        i += 1;
    }
}

/// Which order a query asks for; anything but the two last-execution keys
/// falls back to the name order.
pub open spec fn sort_mode_of(sort: Option<String>) -> PlanSort {
    match sort {
        None => PlanSort::NameAsc,
        Some(s) => if s@ == "last_execution_desc"@ {
            PlanSort::LastExecutionDesc
        } else if s@ == "last_execution_asc"@ {
            PlanSort::LastExecutionAsc
        } else {
            PlanSort::NameAsc
        },
    }
}

impl Store {
    /// Computes one plan's list row: its most recent open execution and the
    /// latest start and completion times over its executions.
    fn plan_list_row(&self, p: usize) -> (r: ActionPlanListItem)
        requires
            self.wf(),
            p < self.plans@.len(),
        ensures
            list_row_model(r) == list_entry_of(*self, self.plans@[p as int]),
    {
        let pid = self.plans[p].id;
        let ne = self.executions.len();
        let mut active: Option<(u128, i64)> = None;
        let mut last_exec: Option<i64> = None;
        let mut last_fin: Option<i64> = None;
        proof {
            assert(self.executions@.take(0).len() == 0);
        }
        for e in 0..ne
            invariant
                ne == self.executions@.len(),
                active == active_execution_of(self.executions@.take(e as int), pid),
                last_exec == last_execution_of(self.executions@.take(e as int), pid),
                last_fin == last_finished_of(self.executions@.take(e as int), pid),
        {
            proof {
                let cur = self.executions@.take(e + 1);
                assert(cur.drop_last() =~= self.executions@.take(e as int));
                assert(cur.last() == self.executions@[e as int]);
            }
            if self.executions[e].plan_id == pid {
                let started = self.executions[e].started;
                let open = match self.executions[e].finished {
                    Some(v) => v <= 0,
                    None => true,
                };
                if open {
                    active = match active {
                        None => Some((self.executions[e].id, started)),
                        Some(best) => if started > best.1 {
                            Some((self.executions[e].id, started))
                        } else {
                            Some(best)
                        },
                    };
                }
                last_exec = match last_exec {
                    None => Some(started),
                    Some(m) => if started > m {
                        Some(started)
                    } else {
                        Some(m)
                    },
                };
                if !open {
                    last_fin = match last_fin {
                        None => self.executions[e].finished,
                        Some(m) => {
                            let f = match self.executions[e].finished {
                                Some(v) => v,
                                None => 0,
                            };
                            if f > m {
                                self.executions[e].finished
                            } else {
                                Some(m)
                            }
                        },
                    };
                }
            }
        }
        proof {
            assert(self.executions@.take(ne as int) =~= self.executions@);
        }
        ActionPlanListItem {
            id: pid,
            name: self.plans[p].name.clone(),
            active_execution_id: match active {
                None => None,
                Some(best) => Some(best.0),
            },
            last_finished_at: last_fin,
            last_execution_at: last_exec,
        }
    }

    /// Lists the plans: the deleted ones when asked for, else the active
    /// ones, each with its computed execution timestamps, sorted by the
    /// requested order (case-insensitive name by default). The result is
    /// exactly one row per listed plan, reordered only by the sort.
    pub fn list_plans(&self, query: &ActionPlanListQuery) -> (r: Vec<ActionPlanListItem>)
        requires
            self.wf(),
        ensures
            r@.map_values(list_row_model_fn()).to_multiset() == list_entries_of(
                *self,
                listed_plans(self.plans@, match query.deleted {
                    Some(b) => b,
                    None => false,
                }),
            ).to_multiset(),
            forall|i: int, j: int|
                #![trigger r@[i], r@[j]]
                0 <= i < j < r@.len() ==> list_row_le(sort_mode_of(query.sort), r@[i], r@[j]),
    {
        let show_deleted = match query.deleted {
            Some(b) => b,
            None => false,
        };
        let mode = match &query.sort {
            None => PlanSort::NameAsc,
            Some(s) => {
                if s.eq(&"last_execution_desc".to_owned()) {
                    PlanSort::LastExecutionDesc
                } else if s.eq(&"last_execution_asc".to_owned()) {
                    PlanSort::LastExecutionAsc
                } else {
                    PlanSort::NameAsc
                }
            },
        };
        proof {
            assert(mode == sort_mode_of(query.sort));
        }
        let np = self.plans.len();
        let mut rows: Vec<ActionPlanListItem> = Vec::new();
        proof {
            assert(self.plans@.take(0).len() == 0);
            assert(rows@.map_values(list_row_model_fn()) =~= list_entries_of(
                *self,
                listed_plans(self.plans@.take(0), show_deleted),
            ));
        }
        for p in 0..np
            invariant
                self.wf(),
                np == self.plans@.len(),
                rows@.map_values(list_row_model_fn()) == list_entries_of(
                    *self,
                    listed_plans(self.plans@.take(p as int), show_deleted),
                ),
        {
            proof {
                let cur = self.plans@.take(p + 1);
                assert(cur.drop_last() =~= self.plans@.take(p as int));
                assert(cur.last() == self.plans@[p as int]);
            }
            let wanted = match self.plans[p].deleted_at {
                Some(v) => v > 0,
                None => false,
            };
            if wanted == show_deleted {
                let row = self.plan_list_row(p);
                let ghost prev_models = rows@.map_values(list_row_model_fn());
                rows.push(row);
                proof {
                    assert(rows@.map_values(list_row_model_fn()) =~= prev_models.push(
                        list_row_model(row),
                    ));
                    assert(list_entries_of(
                        *self,
                        listed_plans(self.plans@.take(p + 1), show_deleted),
                    ) =~= list_entries_of(
                        *self,
                        listed_plans(self.plans@.take(p as int), show_deleted),
                    ).push(list_entry_of(*self, self.plans@[p as int])));
                }
            }
        }
        proof {
            assert(self.plans@.take(np as int) =~= self.plans@);
        }
        let ghost built = rows@;
        sort_list_rows(&mut rows, mode);
        proof {
            crate::order::lemma_map_values_multiset(rows@, built, list_row_model_fn());
        }
        rows
    }
}


/// One template line of the plan page, by action name.
pub struct ActionPlanItem {
    pub name: String,
}

/// One open execution on the plan page.
pub struct PlanExecutionActive {
    pub id: u128,
    pub started: i64,
}

/// One completed execution on the plan page.
pub struct PlanExecutionFinished {
    pub id: u128,
    pub started: i64,
    pub finished: i64,
}

/// The plan page: the plan with its template and its executions, open ones
/// latest-started first, completed ones latest-finished first.
pub struct ActionPlanShow {
    pub id: u128,
    pub name: String,
    pub is_deleted: bool,
    pub deleted_at: Option<i64>,
    pub items: Vec<ActionPlanItem>,
    pub active_executions: Vec<PlanExecutionActive>,
    pub finished_executions: Vec<PlanExecutionFinished>,
    pub active_execution_link: Option<u128>,
}

impl SortOrd for PlanExecutionActive {
    /// Latest started first.
    open spec fn le(self, other: Self) -> bool {
        self.started >= other.started
    }

    proof fn lemma_le_total(a: Self, b: Self) {
    }

    proof fn lemma_le_trans(a: Self, b: Self, c: Self) {
    }

    fn le_exec(&self, other: &Self) -> (r: bool) {
        self.started >= other.started
    }
}

impl SortOrd for PlanExecutionFinished {
    /// Latest finished first.
    open spec fn le(self, other: Self) -> bool {
        self.finished >= other.finished
    }

    proof fn lemma_le_total(a: Self, b: Self) {
    }

    proof fn lemma_le_trans(a: Self, b: Self, c: Self) {
    }

    fn le_exec(&self, other: &Self) -> (r: bool) {
        self.finished >= other.finished
    }
}

/// The open executions of the plan, in store order, as (id, started).
pub open spec fn open_execs_of(execs: Seq<Execution>, pid: u128) -> Seq<(u128, i64)>
    decreases execs.len(),
{
    if execs.len() == 0 {
        Seq::empty()
    } else {
        let rest = open_execs_of(execs.drop_last(), pid);
        let e = execs.last();
        if e.plan_id == pid && !ts_is_set(e.finished) {
            rest.push((e.id, e.started))
        } else {
            rest
        }
    }
}

/// The completed executions of the plan, in store order, as (id, started,
/// finished).
pub open spec fn finished_execs_of(execs: Seq<Execution>, pid: u128) -> Seq<(u128, i64, i64)>
    decreases execs.len(),
{
    if execs.len() == 0 {
        Seq::empty()
    } else {
        let rest = finished_execs_of(execs.drop_last(), pid);
        let e = execs.last();
        if e.plan_id == pid && ts_is_set(e.finished) {
            rest.push((e.id, e.started, e.finished->0))
        } else {
            rest
        }
    }
}

pub open spec fn active_row_model_fn() -> spec_fn(PlanExecutionActive) -> (u128, i64) {
    |r: PlanExecutionActive| (r.id, r.started)
}

pub open spec fn finished_row_model_fn() -> spec_fn(PlanExecutionFinished) -> (u128, i64, i64) {
    |r: PlanExecutionFinished| (r.id, r.started, r.finished)
}

impl Store {
    /// The plan page data: the plan in any deletion state, its template
    /// names in order, its open executions latest-started first and its
    /// completed executions latest-finished first, and a link to the most
    /// recently started open execution. `NotFound` when no plan carries the
    /// id.
    pub fn get_plan(&self, plan_id: u128) -> (r: Result<ActionPlanShow, StoreError>)
        requires
            self.wf(),
        ensures
            match r {
                Ok(view) => {
                    &&& self.has_plan_id(plan_id)
                    &&& ({
                        let p = self.plan_of_id(plan_id);
                        &&& view.id == plan_id
                        &&& view.name == p.name
                        &&& view.deleted_at == p.deleted_at
                        &&& view.is_deleted == ts_is_set(p.deleted_at)
                        &&& view.items@.map_values(|it: ActionPlanItem| it.name@)
                            == self.template_of(p)
                        &&& view.active_executions@.map_values(
                            active_row_model_fn(),
                        ).to_multiset() == open_execs_of(self.executions@, plan_id).to_multiset()
                        &&& sorted_by_le(view.active_executions@)
                        &&& view.finished_executions@.map_values(
                            finished_row_model_fn(),
                        ).to_multiset() == finished_execs_of(
                            self.executions@,
                            plan_id,
                        ).to_multiset()
                        &&& sorted_by_le(view.finished_executions@)
                        &&& view.active_execution_link == (if view.active_executions@.len() > 0 {
                            Some(view.active_executions@[0].id)
                        } else {
                            Option::<u128>::None
                        })
                    })
                },
                Err(e) => e == StoreError::NotFound && !self.has_plan_id(plan_id),
            },
    {
        let p = match self.plan_index_by_id(plan_id) {
            None => {
                return Err(StoreError::NotFound);
            },
            Some(p) => p,
        };
        proof {
            self.lemma_plan_idx_of_id(p as int);
        }
        let ni = self.plans[p].items.len();
        let mut items: Vec<ActionPlanItem> = Vec::new();
        for k in 0..ni
            invariant
                self.wf(),
                p < self.plans@.len(),
                ni == self.plans@[p as int].items@.len(),
                items@.len() == k,
                forall|k2: int|
                    0 <= k2 < k ==> (#[trigger] items@[k2]).name@ == self.action_name_of(
                        self.plans@[p as int].items@[k2].action_id,
                    ),
        {
            let aid = self.plans[p].items[k].action_id;
            proof {
                assert(self.has_action_id(aid));
            }
            match self.action_index_by_id(aid) {
                Some(a) => {
                    proof {
                        self.lemma_action_idx_of_id(a as int);
                    }
                    items.push(ActionPlanItem { name: self.actions[a].name.clone() });
                },
                None => {
                    proof {
                        assert(false);
                    }
                    return Err(StoreError::NotFound);
                },
            }
        }
        let ne = self.executions.len();
        let mut active: Vec<PlanExecutionActive> = Vec::new();
        let mut finished: Vec<PlanExecutionFinished> = Vec::new();
        proof {
            assert(self.executions@.take(0).len() == 0);
            assert(active@.map_values(active_row_model_fn()) =~= open_execs_of(
                self.executions@.take(0),
                plan_id,
            ));
            assert(finished@.map_values(finished_row_model_fn()) =~= finished_execs_of(
                self.executions@.take(0),
                plan_id,
            ));
        }
        for e in 0..ne
            invariant
                ne == self.executions@.len(),
                active@.map_values(active_row_model_fn()) == open_execs_of(
                    self.executions@.take(e as int),
                    plan_id,
                ),
                finished@.map_values(finished_row_model_fn()) == finished_execs_of(
                    self.executions@.take(e as int),
                    plan_id,
                ),
        {
            proof {
                let cur = self.executions@.take(e + 1);
                assert(cur.drop_last() =~= self.executions@.take(e as int));
                assert(cur.last() == self.executions@[e as int]);
            }
            if self.executions[e].plan_id == plan_id {
                let fin = match self.executions[e].finished {
                    Some(v) => if v > 0 {
                        Some(v)
                    } else {
                        None
                    },
                    None => None,
                };
                match fin {
                    None => {
                        let ghost prev = active@.map_values(active_row_model_fn());
                        let row = PlanExecutionActive {
                            id: self.executions[e].id,
                            started: self.executions[e].started,
                        };
                        active.push(row);
                        proof {
                            assert(active@.map_values(active_row_model_fn()) =~= prev.push(
                                (row.id, row.started),
                            ));
                        }
                    },
                    Some(f) => {
                        let ghost prev = finished@.map_values(finished_row_model_fn());
                        let row = PlanExecutionFinished {
                            id: self.executions[e].id,
                            started: self.executions[e].started,
                            finished: f,
                        };
                        finished.push(row);
                        proof {
                            assert(finished@.map_values(finished_row_model_fn()) =~= prev.push(
                                (row.id, row.started, row.finished),
                            ));
                        }
                    },
                }
            }
        }
        proof {
            assert(self.executions@.take(ne as int) =~= self.executions@);
        }
        let ghost active_built = active@;
        let ghost finished_built = finished@;
        insertion_sort(&mut active);
        insertion_sort(&mut finished);
        proof {
            crate::order::lemma_map_values_multiset(active@, active_built, active_row_model_fn());
            crate::order::lemma_map_values_multiset(
                finished@,
                finished_built,
                finished_row_model_fn(),
            );
        }
        let link: Option<u128> = if active.len() > 0 {
            Some(active[0].id)
        } else {
            None
        };
        let view = ActionPlanShow {
            id: plan_id,
            name: self.plans[p].name.clone(),
            is_deleted: match self.plans[p].deleted_at {
                Some(v) => v > 0,
                None => false,
            },
            deleted_at: self.plans[p].deleted_at,
            items,
            active_executions: active,
            finished_executions: finished,
            active_execution_link: link,
        };
        proof {
            assert(view.items@.map_values(|it: ActionPlanItem| it.name@) =~= self.template_of(
                self.plans@[p as int],
            ));
        }
        Ok(view)
    }
}

/// One open execution on the executions page, with its plan's name.
pub struct UnfinishedExecutionListItem {
    pub id: u128,
    pub action_plan_name: String,
    pub started: i64,
}

/// One completed execution on the executions page, with its plan's name.
pub struct FinishedExecutionListItem {
    pub id: u128,
    pub action_plan_name: String,
    pub started: i64,
    pub finished: i64,
}

impl SortOrd for UnfinishedExecutionListItem {
    /// Latest started first.
    open spec fn le(self, other: Self) -> bool {
        self.started >= other.started
    }

    proof fn lemma_le_total(a: Self, b: Self) {
    }

    proof fn lemma_le_trans(a: Self, b: Self, c: Self) {
    }

    fn le_exec(&self, other: &Self) -> (r: bool) {
        self.started >= other.started
    }
}

impl SortOrd for FinishedExecutionListItem {
    /// Latest finished first.
    open spec fn le(self, other: Self) -> bool {
        self.finished >= other.finished
    }

    proof fn lemma_le_total(a: Self, b: Self) {
    }

    proof fn lemma_le_trans(a: Self, b: Self, c: Self) {
    }

    fn le_exec(&self, other: &Self) -> (r: bool) {
        self.finished >= other.finished
    }
}

/// The name of the plan an execution belongs to.
pub open spec fn plan_name_of(s: Store, pid: u128) -> Seq<char> {
    s.plan_of_id(pid).name@
}

/// All open executions, in store order, as (id, plan name, started).
pub open spec fn open_exec_rows(s: Store, execs: Seq<Execution>) -> Seq<(u128, Seq<char>, i64)>
    decreases execs.len(),
{
    if execs.len() == 0 {
        Seq::empty()
    } else {
        let rest = open_exec_rows(s, execs.drop_last());
        let e = execs.last();
        if !ts_is_set(e.finished) {
            rest.push((e.id, plan_name_of(s, e.plan_id), e.started))
        } else {
            rest
        }
    }
}

/// All completed executions, in store order, as (id, plan name, started,
/// finished).
pub open spec fn finished_exec_rows(s: Store, execs: Seq<Execution>) -> Seq<
    (u128, Seq<char>, i64, i64),
>
    decreases execs.len(),
{
    if execs.len() == 0 {
        Seq::empty()
    } else {
        let rest = finished_exec_rows(s, execs.drop_last());
        let e = execs.last();
        if ts_is_set(e.finished) {
            rest.push((e.id, plan_name_of(s, e.plan_id), e.started, e.finished->0))
        } else {
            rest
        }
    }
}

pub open spec fn unfinished_item_model_fn() -> spec_fn(UnfinishedExecutionListItem) -> (
    u128,
    Seq<char>,
    i64,
) {
    |r: UnfinishedExecutionListItem| (r.id, r.action_plan_name@, r.started)
}

pub open spec fn finished_item_model_fn() -> spec_fn(FinishedExecutionListItem) -> (
    u128,
    Seq<char>,
    i64,
    i64,
) {
    |r: FinishedExecutionListItem| (r.id, r.action_plan_name@, r.started, r.finished)
}

impl Store {
    /// The executions page: every open execution latest-started first, and
    /// every completed execution latest-finished first, each with its
    /// plan's name.
    pub fn list_executions(&self) -> (r: (
        Vec<UnfinishedExecutionListItem>,
        Vec<FinishedExecutionListItem>,
    ))
        requires
            self.wf(),
        ensures
            r.0@.map_values(unfinished_item_model_fn()).to_multiset() == open_exec_rows(
                *self,
                self.executions@,
            ).to_multiset(),
            sorted_by_le(r.0@),
            r.1@.map_values(finished_item_model_fn()).to_multiset() == finished_exec_rows(
                *self,
                self.executions@,
            ).to_multiset(),
            sorted_by_le(r.1@),
    {
        let ne = self.executions.len();
        let mut open_rows: Vec<UnfinishedExecutionListItem> = Vec::new();
        let mut done_rows: Vec<FinishedExecutionListItem> = Vec::new();
        proof {
            assert(self.executions@.take(0).len() == 0);
            assert(open_rows@.map_values(unfinished_item_model_fn()) =~= open_exec_rows(
                *self,
                self.executions@.take(0),
            ));
            assert(done_rows@.map_values(finished_item_model_fn()) =~= finished_exec_rows(
                *self,
                self.executions@.take(0),
            ));
        }
        for e in 0..ne
            invariant
                self.wf(),
                ne == self.executions@.len(),
                open_rows@.map_values(unfinished_item_model_fn()) == open_exec_rows(
                    *self,
                    self.executions@.take(e as int),
                ),
                done_rows@.map_values(finished_item_model_fn()) == finished_exec_rows(
                    *self,
                    self.executions@.take(e as int),
                ),
        {
            proof {
                let cur = self.executions@.take(e + 1);
                assert(cur.drop_last() =~= self.executions@.take(e as int));
                assert(cur.last() == self.executions@[e as int]);
                assert(self.has_plan_id(self.executions@[e as int].plan_id));
            }
            let pid = self.executions[e].plan_id;
            let name = match self.plan_index_by_id(pid) {
                Some(q) => {
                    proof {
                        self.lemma_plan_idx_of_id(q as int);
                    }
                    self.plans[q].name.clone()
                },
                None => {
                    proof {
                        assert(false);
                    }
                    return (open_rows, done_rows);
                },
            };
            let fin = match self.executions[e].finished {
                Some(v) => if v > 0 {
                    Some(v)
                } else {
                    None
                },
                None => None,
            };
            match fin {
                None => {
                    let ghost prev = open_rows@.map_values(unfinished_item_model_fn());
                    let row = UnfinishedExecutionListItem {
                        id: self.executions[e].id,
                        action_plan_name: name,
                        started: self.executions[e].started,
                    };
                    open_rows.push(row);
                    proof {
                        assert(open_rows@.map_values(unfinished_item_model_fn()) =~= prev.push(
                            (row.id, row.action_plan_name@, row.started),
                        ));
                    }
                },
                Some(f) => {
                    let ghost prev = done_rows@.map_values(finished_item_model_fn());
                    let row = FinishedExecutionListItem {
                        id: self.executions[e].id,
                        action_plan_name: name,
                        started: self.executions[e].started,
                        finished: f,
                    };
                    done_rows.push(row);
                    proof {
                        assert(done_rows@.map_values(finished_item_model_fn()) =~= prev.push(
                            (row.id, row.action_plan_name@, row.started, row.finished),
                        ));
                    }
                },
            }
        }
        proof {
            assert(self.executions@.take(ne as int) =~= self.executions@);
        }
        let ghost open_built = open_rows@;
        let ghost done_built = done_rows@;
        insertion_sort(&mut open_rows);
        insertion_sort(&mut done_rows);
        proof {
            crate::order::lemma_map_values_multiset(
                open_rows@,
                open_built,
                unfinished_item_model_fn(),
            );
            crate::order::lemma_map_values_multiset(
                done_rows@,
                done_built,
                finished_item_model_fn(),
            );
        }
        (open_rows, done_rows)
    }
}

/// One checklist line on the execution page.
pub struct ExecutionItemView {
    pub id: u128,
    pub name: String,
    pub is_finished: bool,
    pub finished: Option<i64>,
}

/// The execution page: the run with its plan, its checklist in order, and
/// which transitions are available.
pub struct ActionPlanExecutionShow {
    pub id: u128,
    pub action_plan_id: u128,
    pub action_plan_name: String,
    pub started: i64,
    pub finished: Option<i64>,
    pub is_completed: bool,
    pub can_reopen: bool,
    pub can_complete: bool,
    pub items: Vec<ExecutionItemView>,
}

impl Store {
    /// The execution page data: the checklist in order, and whether the run
    /// can be completed (all lines checked, at least one line) or reopened
    /// (completed within the reopen window as of `now`). `NotFound` when no
    /// execution carries the id.
    pub fn get_execution(&self, execution_id: u128, now: i64) -> (r: Result<
        ActionPlanExecutionShow,
        StoreError,
    >)
        requires
            self.wf(),
        ensures
            match r {
                Ok(view) => {
                    &&& self.has_execution_id(execution_id)
                    &&& ({
                        let ex = self.execution_of_id(execution_id);
                        &&& view.id == execution_id
                        &&& view.action_plan_id == ex.plan_id
                        &&& view.action_plan_name@ == plan_name_of(*self, ex.plan_id)
                        &&& view.started == ex.started
                        &&& view.finished == ex.finished
                        &&& view.is_completed == crate::executions::execution_completed(ex)
                        &&& view.can_reopen == (crate::executions::execution_completed(ex)
                            && crate::executions::within_reopen_window(ex.finished->0, now))
                        &&& view.can_complete == (ex.items@.len() > 0
                            && crate::executions::all_items_finished(ex))
                        &&& view.items@.len() == ex.items@.len()
                        &&& forall|k: int|
                            0 <= k < ex.items@.len() ==> {
                                let it = #[trigger] view.items@[k];
                                &&& it.id == ex.items@[k].id
                                &&& it.name@ == self.action_name_of(ex.items@[k].action_id)
                                &&& it.is_finished == ts_is_set(ex.items@[k].finished)
                                &&& it.finished == ex.items@[k].finished
                            }
                    })
                },
                Err(e) => e == StoreError::NotFound && !self.has_execution_id(execution_id),
            },
    {
        let e = match self.execution_index_by_id(execution_id) {
            None => {
                return Err(StoreError::NotFound);
            },
            Some(e) => e,
        };
        proof {
            self.lemma_execution_idx_of_id(e as int);
            assert(self.has_plan_id(self.executions@[e as int].plan_id));
        }
        let pid = self.executions[e].plan_id;
        let plan_name = match self.plan_index_by_id(pid) {
            Some(q) => {
                proof {
                    self.lemma_plan_idx_of_id(q as int);
                }
                self.plans[q].name.clone()
            },
            None => {
                proof {
                    assert(false);
                }
                return Err(StoreError::NotFound);
            },
        };
        let ni = self.executions[e].items.len();
        let mut items: Vec<ExecutionItemView> = Vec::new();
        let mut all_checked = true;
        for k in 0..ni
            invariant
                self.wf(),
                e < self.executions@.len(),
                ni == self.executions@[e as int].items@.len(),
                items@.len() == k,
                forall|k2: int|
                    0 <= k2 < k ==> {
                        let it = #[trigger] items@[k2];
                        &&& it.id == self.executions@[e as int].items@[k2].id
                        &&& it.name@ == self.action_name_of(
                            self.executions@[e as int].items@[k2].action_id,
                        )
                        &&& it.is_finished == ts_is_set(
                            self.executions@[e as int].items@[k2].finished,
                        )
                        &&& it.finished == self.executions@[e as int].items@[k2].finished
                    },
                all_checked == (forall|k2: int|
                    0 <= k2 < k ==> ts_is_set(
                        (#[trigger] self.executions@[e as int].items@[k2]).finished,
                    )),
        {
            let aid = self.executions[e].items[k].action_id;
            proof {
                assert(self.has_action_id(aid));
            }
            let name = match self.action_index_by_id(aid) {
                Some(a) => {
                    proof {
                        self.lemma_action_idx_of_id(a as int);
                    }
                    self.actions[a].name.clone()
                },
                None => {
                    proof {
                        assert(false);
                    }
                    return Err(StoreError::NotFound);
                },
            };
            let checked = match self.executions[e].items[k].finished {
                Some(v) => v > 0,
                None => false,
            };
            items.push(
                ExecutionItemView {
                    id: self.executions[e].items[k].id,
                    name,
                    is_finished: checked,
                    finished: self.executions[e].items[k].finished,
                },
            );
            all_checked = all_checked && checked;
        }
        let completed = match self.executions[e].finished {
            Some(v) => v > 0,
            None => false,
        };
        let can_reopen = if completed {
            let fv = match self.executions[e].finished {
                Some(v) => v,
                None => 0,
            };
            if now < fv {
                true
            } else {
                now - fv <= crate::executions::REOPEN_WINDOW_SECONDS
            }
        } else {
            false
        };
        Ok(
            ActionPlanExecutionShow {
                id: execution_id,
                action_plan_id: pid,
                action_plan_name: plan_name,
                started: self.executions[e].started,
                finished: self.executions[e].finished,
                is_completed: completed,
                can_reopen,
                can_complete: ni > 0 && all_checked,
                items,
            },
        )
    }
}

} // verus!
