use vstd::prelude::*;

verus! {

/// A reusable named unit of work. Actions are created on first use of a name
/// and shared by every plan item and execution item that refers to that name.
pub struct Action {
    pub id: u128,
    pub name: String,
}

/// One ordered slot in a plan's template, referencing an action. The slot's
/// order index is its position in the owning plan's item vector.
pub struct PlanItem {
    pub id: u128,
    pub action_id: u128,
}

/// A named, ordered template list of actions. `deleted_at` absent or <= 0
/// means the plan is active; a positive value marks it soft-deleted.
pub struct Plan {
    pub id: u128,
    pub name: String,
    pub deleted_at: Option<i64>,
    pub items: Vec<PlanItem>,
}

/// One ordered checklist line within an execution. `finished` absent or <= 0
/// means unchecked; a positive value is the time the line was checked. The
/// line references its action directly so that it survives template edits
/// that delete and recreate plan items.
pub struct ExecutionItem {
    pub id: u128,
    pub action_id: u128,
    pub finished: Option<i64>,
}

/// One time-stamped run of a plan's checklist. `finished` absent or <= 0
/// means the run is open; a positive value is its completion time.
pub struct Execution {
    pub id: u128,
    pub plan_id: u128,
    pub started: i64,
    pub finished: Option<i64>,
    pub items: Vec<ExecutionItem>,
}

/// The whole store: the action registry, the plan templates and the
/// executions. Each operation on it is atomic: it either reports success and
/// changes the store as its contract states, or reports an error and leaves
/// the store untouched.
pub struct Store {
    pub actions: Vec<Action>,
    pub plans: Vec<Plan>,
    pub executions: Vec<Execution>,
}

/// A timestamp field counts as set exactly when it is present and positive;
/// zero, negative and absent all mean "not set".
pub open spec fn ts_is_set(t: Option<i64>) -> bool {
    match t {
        Some(v) => v > 0,
        None => false,
    }
}

impl Store {
    /// A store with no rows in any table.
    pub open spec fn is_empty(self) -> bool {
        self.actions@.len() == 0 && self.plans@.len() == 0 && self.executions@.len() == 0
    }

    pub open spec fn has_action_id(self, aid: u128) -> bool {
        exists|i: int| 0 <= i < self.actions@.len() && (#[trigger] self.actions@[i]).id == aid
    }

    pub open spec fn has_action_name(self, n: Seq<char>) -> bool {
        exists|i: int| 0 <= i < self.actions@.len() && (#[trigger] self.actions@[i]).name@ == n
    }

    pub open spec fn action_idx_of_id(self, aid: u128) -> int {
        choose|i: int| 0 <= i < self.actions@.len() && (#[trigger] self.actions@[i]).id == aid
    }

    pub open spec fn action_idx_of_name(self, n: Seq<char>) -> int {
        choose|i: int| 0 <= i < self.actions@.len() && (#[trigger] self.actions@[i]).name@ == n
    }

    /// The name of the action with the given id (meaningful under `wf` when
    /// the id is present).
    pub open spec fn action_name_of(self, aid: u128) -> Seq<char> {
        self.actions@[self.action_idx_of_id(aid)].name@
    }

    /// The id of the action with the given name (meaningful under `wf` when
    /// the name is present).
    pub open spec fn action_id_of(self, n: Seq<char>) -> u128 {
        self.actions@[self.action_idx_of_name(n)].id
    }

    pub open spec fn has_plan_id(self, pid: u128) -> bool {
        exists|i: int| 0 <= i < self.plans@.len() && (#[trigger] self.plans@[i]).id == pid
    }

    pub open spec fn plan_idx_of_id(self, pid: u128) -> int {
        choose|i: int| 0 <= i < self.plans@.len() && (#[trigger] self.plans@[i]).id == pid
    }

    pub open spec fn plan_of_id(self, pid: u128) -> Plan {
        self.plans@[self.plan_idx_of_id(pid)]
    }

    pub open spec fn has_execution_id(self, eid: u128) -> bool {
        exists|i: int|
            0 <= i < self.executions@.len() && (#[trigger] self.executions@[i]).id == eid
    }

    pub open spec fn execution_idx_of_id(self, eid: u128) -> int {
        choose|i: int|
            0 <= i < self.executions@.len() && (#[trigger] self.executions@[i]).id == eid
    }

    pub open spec fn execution_of_id(self, eid: u128) -> Execution {
        self.executions@[self.execution_idx_of_id(eid)]
    }

    pub open spec fn has_plan_item_id(self, id: u128) -> bool {
        exists|p: int, k: int|
            0 <= p < self.plans@.len() && 0 <= k < self.plans@[p].items@.len()
                && (#[trigger] self.plans@[p].items@[k]).id == id
    }

    pub open spec fn has_execution_item_id(self, id: u128) -> bool {
        exists|e: int, k: int|
            0 <= e < self.executions@.len() && 0 <= k < self.executions@[e].items@.len()
                && (#[trigger] self.executions@[e].items@[k]).id == id
    }

    /// Whether any row of any table carries the given identifier. Freshly
    /// drawn identifiers are checked against this before use.
    pub open spec fn id_in_use(self, id: u128) -> bool {
        ||| self.has_action_id(id)
        ||| self.has_plan_id(id)
        ||| self.has_execution_id(id)
        ||| self.has_plan_item_id(id)
        ||| self.has_execution_item_id(id)
    }

    /// Whether some plan item references the action.
    pub open spec fn action_in_plan_use(self, aid: u128) -> bool {
        exists|p: int, k: int|
            0 <= p < self.plans@.len() && 0 <= k < self.plans@[p].items@.len()
                && (#[trigger] self.plans@[p].items@[k]).action_id == aid
    }

    /// Whether some execution item references the action.
    pub open spec fn action_in_execution_use(self, aid: u128) -> bool {
        exists|e: int, k: int|
            0 <= e < self.executions@.len() && 0 <= k < self.executions@[e].items@.len()
                && (#[trigger] self.executions@[e].items@[k]).action_id == aid
    }

    /// An action is referenced when a plan item or an execution item points at
    /// it; unreferenced actions are the ones the sweeper removes.
    pub open spec fn action_referenced(self, aid: u128) -> bool {
        self.action_in_plan_use(aid) || self.action_in_execution_use(aid)
    }

    /// The ordered action names of a plan's template.
    pub open spec fn template_of(self, p: Plan) -> Seq<Seq<char>> {
        p.items@.map_values(|it: PlanItem| self.action_name_of(it.action_id))
    }

    pub open spec fn actions_wf(self) -> bool {
        forall|i: int, j: int|
            0 <= i < j < self.actions@.len() ==> (#[trigger] self.actions@[i]).id != (
            #[trigger] self.actions@[j]).id && self.actions@[i].name@ != self.actions@[j].name@
    }

    pub open spec fn plans_wf(self) -> bool {
        &&& forall|i: int, j: int|
            0 <= i < j < self.plans@.len() ==> (#[trigger] self.plans@[i]).id != (
            #[trigger] self.plans@[j]).id
        &&& forall|p: int, k: int|
            0 <= p < self.plans@.len() && 0 <= k < self.plans@[p].items@.len()
                ==> self.has_action_id((#[trigger] self.plans@[p].items@[k]).action_id)
        &&& forall|p1: int, k1: int, p2: int, k2: int|
            0 <= p1 < self.plans@.len() && 0 <= k1 < self.plans@[p1].items@.len() && 0 <= p2
                < self.plans@.len() && 0 <= k2 < self.plans@[p2].items@.len() && (p1 != p2 || k1
                != k2) ==> (#[trigger] self.plans@[p1].items@[k1]).id != (
            #[trigger] self.plans@[p2].items@[k2]).id
    }

    pub open spec fn executions_wf(self) -> bool {
        &&& forall|i: int, j: int|
            0 <= i < j < self.executions@.len() ==> (#[trigger] self.executions@[i]).id != (
            #[trigger] self.executions@[j]).id
        &&& forall|e: int|
            0 <= e < self.executions@.len() ==> self.has_plan_id(
                (#[trigger] self.executions@[e]).plan_id,
            )
        &&& forall|e: int, k: int|
            0 <= e < self.executions@.len() && 0 <= k < self.executions@[e].items@.len()
                ==> self.has_action_id((#[trigger] self.executions@[e].items@[k]).action_id)
        &&& forall|e1: int, k1: int, e2: int, k2: int|
            0 <= e1 < self.executions@.len() && 0 <= k1 < self.executions@[e1].items@.len() && 0
                <= e2 < self.executions@.len() && 0 <= k2 < self.executions@[e2].items@.len() && (
            e1 != e2 || k1 != k2) ==> (#[trigger] self.executions@[e1].items@[k1]).id != (
            #[trigger] self.executions@[e2].items@[k2]).id
    }

    /// Well-formedness of the whole store: identifiers are unique within
    /// their kind, action names are unique, and every reference (item to
    /// action, execution to plan) resolves.
    pub open spec fn wf(self) -> bool {
        self.actions_wf() && self.plans_wf() && self.executions_wf()
    }

    /// Under unique action ids, `action_idx_of_id` finds exactly the index
    /// that carries the id.
    pub proof fn lemma_action_idx_of_id(self, i: int)
        requires
            self.actions_wf(),
            0 <= i < self.actions@.len(),
        ensures
            self.action_idx_of_id(self.actions@[i].id) == i,
            self.action_name_of(self.actions@[i].id) == self.actions@[i].name@,
            self.has_action_id(self.actions@[i].id),
    {
        assert(self.has_action_id(self.actions@[i].id));
        let j = self.action_idx_of_id(self.actions@[i].id);
        if i != j {
            if i < j {
                assert(self.actions@[i].id != self.actions@[j].id);
            } else {
                assert(self.actions@[j].id != self.actions@[i].id);
            }
        }
    }

    /// Under unique plan ids, `plan_idx_of_id` finds exactly the index that
    /// carries the id.
    pub proof fn lemma_plan_idx_of_id(self, i: int)
        requires
            self.plans_wf(),
            0 <= i < self.plans@.len(),
        ensures
            self.plan_idx_of_id(self.plans@[i].id) == i,
            self.plan_of_id(self.plans@[i].id) == self.plans@[i],
            self.has_plan_id(self.plans@[i].id),
    {
        assert(self.has_plan_id(self.plans@[i].id));
        let j = self.plan_idx_of_id(self.plans@[i].id);
        if i != j {
            if i < j {
                assert(self.plans@[i].id != self.plans@[j].id);
            } else {
                assert(self.plans@[j].id != self.plans@[i].id);
            }
        }
    }

    /// Under unique execution ids, `execution_idx_of_id` finds exactly the
    /// index that carries the id.
    pub proof fn lemma_execution_idx_of_id(self, i: int)
        requires
            self.executions_wf(),
            0 <= i < self.executions@.len(),
        ensures
            self.execution_idx_of_id(self.executions@[i].id) == i,
            self.execution_of_id(self.executions@[i].id) == self.executions@[i],
            self.has_execution_id(self.executions@[i].id),
    {
        assert(self.has_execution_id(self.executions@[i].id));
        let j = self.execution_idx_of_id(self.executions@[i].id);
        if i != j {
            if i < j {
                assert(self.executions@[i].id != self.executions@[j].id);
            } else {
                assert(self.executions@[j].id != self.executions@[i].id);
            }
        }
    }

    /// Creates an empty store.
    pub fn new() -> (r: Store)
        ensures
            r.is_empty(),
            r.wf(),
    {
        Store { actions: Vec::new(), plans: Vec::new(), executions: Vec::new() }
    }

    /// Looks an action up by exact name.
    pub fn action_index_by_name(&self, name: &String) -> (r: Option<usize>)
        ensures
            match r {
                Some(i) => i < self.actions@.len() && self.actions@[i as int].name@ == name@,
                None => !self.has_action_name(name@),
            },
    {
        let n = self.actions.len();
        for i in 0..n
            invariant
                n == self.actions@.len(),
                forall|j: int| 0 <= j < i ==> (#[trigger] self.actions@[j]).name@ != name@,
        {
            if self.actions[i].name.eq(name) {
                return Some(i);
            }
        }
        None
    }

    /// Looks an action up by id.
    pub fn action_index_by_id(&self, aid: u128) -> (r: Option<usize>)
        ensures
            match r {
                Some(i) => i < self.actions@.len() && self.actions@[i as int].id == aid,
                None => !self.has_action_id(aid),
            },
    {
        let n = self.actions.len();
        for i in 0..n
            invariant
                n == self.actions@.len(),
                forall|j: int| 0 <= j < i ==> (#[trigger] self.actions@[j]).id != aid,
        {
            if self.actions[i].id == aid {
                return Some(i);
            }
        }
        None
    }

    /// Looks a plan up by id.
    pub fn plan_index_by_id(&self, pid: u128) -> (r: Option<usize>)
        ensures
            match r {
                Some(i) => i < self.plans@.len() && self.plans@[i as int].id == pid,
                None => !self.has_plan_id(pid),
            },
    {
        let n = self.plans.len();
        for i in 0..n
            invariant
                n == self.plans@.len(),
                forall|j: int| 0 <= j < i ==> (#[trigger] self.plans@[j]).id != pid,
        {
            if self.plans[i].id == pid {
                return Some(i);
            }
        }
        None
    }

    /// Looks an execution up by id.
    pub fn execution_index_by_id(&self, eid: u128) -> (r: Option<usize>)
        ensures
            match r {
                Some(i) => i < self.executions@.len() && self.executions@[i as int].id == eid,
                None => !self.has_execution_id(eid),
            },
    {
        let n = self.executions.len();
        for i in 0..n
            invariant
                n == self.executions@.len(),
                forall|j: int| 0 <= j < i ==> (#[trigger] self.executions@[j]).id != eid,
        {
            if self.executions[i].id == eid {
                return Some(i);
            }
        }
        None
    }

    /// Whether any row of any table carries the given identifier.
    pub fn uses_id(&self, id: u128) -> (r: bool)
        ensures
            r == self.id_in_use(id),
    {
        let na = self.actions.len();
        for i in 0..na
            invariant
                na == self.actions@.len(),
                forall|j: int| 0 <= j < i ==> (#[trigger] self.actions@[j]).id != id,
        {
            if self.actions[i].id == id {
                return true;
            }
        }
        let np = self.plans.len();
        for p in 0..np
            invariant
                np == self.plans@.len(),
                !self.has_action_id(id),
                forall|j: int| 0 <= j < p ==> (#[trigger] self.plans@[j]).id != id,
                forall|j: int, k: int|
                    0 <= j < p && 0 <= k < self.plans@[j].items@.len() ==> (
                    #[trigger] self.plans@[j].items@[k]).id != id,
        {
            if self.plans[p].id == id {
                return true;
            }
            let ni = self.plans[p].items.len();
            for k in 0..ni
                invariant
                    np == self.plans@.len(),
                    p < np,
                    ni == self.plans@[p as int].items@.len(),
                    forall|j: int| 0 <= j < ni ==> (#[trigger] self.plans@[p as int].items@[j]).id
                        == self.plans@[p as int].items@[j].id,
                    forall|j: int| 0 <= j < k ==> (#[trigger] self.plans@[p as int].items@[j]).id
                        != id,
            {
                if self.plans[p].items[k].id == id {
                    return true;
                }
            }
        }
        let ne = self.executions.len();
        for e in 0..ne
            invariant
                ne == self.executions@.len(),
                !self.has_action_id(id),
                !self.has_plan_id(id),
                !self.has_plan_item_id(id),
                forall|j: int| 0 <= j < e ==> (#[trigger] self.executions@[j]).id != id,
                forall|j: int, k: int|
                    0 <= j < e && 0 <= k < self.executions@[j].items@.len() ==> (
                    #[trigger] self.executions@[j].items@[k]).id != id,
        {
            if self.executions[e].id == id {
                return true;
            }
            let ni = self.executions[e].items.len();
            for k in 0..ni
                invariant
                    ne == self.executions@.len(),
                    e < ne,
                    ni == self.executions@[e as int].items@.len(),
                    forall|j: int| 0 <= j < k ==> (
                    #[trigger] self.executions@[e as int].items@[j]).id != id,
            {
                if self.executions[e].items[k].id == id {
                    return true;
                }
            }
        }
        false
    }

    /// Whether some plan item or execution item references the action.
    pub fn is_action_referenced(&self, aid: u128) -> (r: bool)
        ensures
            r == self.action_referenced(aid),
    {
        let np = self.plans.len();
        for p in 0..np
            invariant
                np == self.plans@.len(),
                forall|j: int, k: int|
                    0 <= j < p && 0 <= k < self.plans@[j].items@.len() ==> (
                    #[trigger] self.plans@[j].items@[k]).action_id != aid,
        {
            let ni = self.plans[p].items.len();
            for k in 0..ni
                invariant
                    np == self.plans@.len(),
                    p < np,
                    ni == self.plans@[p as int].items@.len(),
                    forall|j: int| 0 <= j < k ==> (#[trigger] self.plans@[p as int].items@[j]).action_id
                        != aid,
            {
                if self.plans[p].items[k].action_id == aid {
                    return true;
                }
            }
        }
        let ne = self.executions.len();
        for e in 0..ne
            invariant
                ne == self.executions@.len(),
                !self.action_in_plan_use(aid),
                forall|j: int, k: int|
                    0 <= j < e && 0 <= k < self.executions@[j].items@.len() ==> (
                    #[trigger] self.executions@[j].items@[k]).action_id != aid,
        {
            let ni = self.executions[e].items.len();
            for k in 0..ni
                invariant
                    ne == self.executions@.len(),
                    e < ne,
                    ni == self.executions@[e as int].items@.len(),
                    forall|j: int| 0 <= j < k ==> (
                    #[trigger] self.executions@[e as int].items@[j]).action_id != aid,
            {
                if self.executions[e].items[k].action_id == aid {
                    return true;
                }
            }
        }
        false
    }
}

} // verus!
