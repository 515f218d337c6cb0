use vstd::prelude::*;

use crate::error::StoreError;
use crate::model::{Execution, ExecutionItem, Plan, PlanItem, Store};
use crate::reconcile::fresh_execution_item_id;
use crate::order::{
    SortOrd, bytes_lex_le, insertion_sort, lemma_bytes_lex_le_total, lemma_bytes_lex_le_trans,
    lemma_map_values_multiset, sorted_by_le, str_bytes_le,
};
use vstd::utf8::encode_utf8;

verus! {

/// One template slot in a snapshot document, by action name and order.
#[derive(Debug, PartialEq)]
pub struct BackupPlanItem {
    pub order_index: i64,
    pub action_name: String,
}

/// One plan in a snapshot document, with its deletion state and template.
#[derive(Debug, PartialEq)]
pub struct BackupActionPlan {
    pub id: u128,
    pub name: String,
    pub deleted_at: Option<i64>,
    pub items: Vec<BackupPlanItem>,
}

/// One checklist line in a snapshot document, by action name, order and
/// finished timestamp.
#[derive(Debug, PartialEq)]
pub struct BackupExecutionItem {
    pub order_index: i64,
    pub action_name: String,
    pub finished: Option<i64>,
}

/// One execution in a snapshot document.
#[derive(Debug, PartialEq)]
pub struct BackupExecution {
    pub id: u128,
    pub action_plan: u128,
    pub started: i64,
    pub finished: Option<i64>,
    pub items: Vec<BackupExecutionItem>,
}

/// A whole-store snapshot: one versioned document holding every plan and
/// every execution, with items recorded by action name. The unit of backup
/// and restore.
#[derive(Debug, PartialEq)]
pub struct BackupFile {
    pub version: i64,
    pub exported_at_unix: i64,
    pub action_plans: Vec<BackupActionPlan>,
    pub action_plan_executions: Vec<BackupExecution>,
}

/// The version of document this codec reads and writes.
pub const BACKUP_VERSION: i64 = 1;

/// An outcome notice for the backup page: a message and whether it reports
/// an error.
pub struct BackupNotice {
    pub message: String,
    pub is_error: bool,
}

impl BackupNotice {
    pub fn success(message: String) -> (r: BackupNotice)
        ensures
            r.message == message,
            !r.is_error,
    {
        BackupNotice { message, is_error: false }
    }

    pub fn error(message: String) -> (r: BackupNotice)
        ensures
            r.message == message,
            r.is_error,
    {
        BackupNotice { message, is_error: true }
    }
}

// The mathematical reading of document rows and store rows: plans and
// executions projected to plain values, with items by (order, action name).
// A store plan and a document plan describe the same template exactly when
// their readings are equal; internal ids of actions and items do not appear
// in the reading.
pub type PlanItemSnap = (int, Seq<char>);

pub type PlanSnap = (u128, Seq<char>, Option<i64>, Seq<PlanItemSnap>);

pub type ExecItemSnap = (int, Seq<char>, Option<i64>);

pub type ExecSnap = (u128, u128, i64, Option<i64>, Seq<ExecItemSnap>);

pub open spec fn plan_item_model(it: BackupPlanItem) -> PlanItemSnap {
    (it.order_index as int, it.action_name@)
}

pub open spec fn plan_model(bp: BackupActionPlan) -> PlanSnap {
    (
        bp.id,
        bp.name@,
        bp.deleted_at,
        bp.items@.map_values(|it: BackupPlanItem| plan_item_model(it)),
    )
}

pub open spec fn exec_item_model(it: BackupExecutionItem) -> ExecItemSnap {
    (it.order_index as int, it.action_name@, it.finished)
}

pub open spec fn exec_model(be: BackupExecution) -> ExecSnap {
    (
        be.id,
        be.action_plan,
        be.started,
        be.finished,
        be.items@.map_values(|it: BackupExecutionItem| exec_item_model(it)),
    )
}

pub open spec fn plan_model_fn() -> spec_fn(BackupActionPlan) -> PlanSnap {
    |bp: BackupActionPlan| plan_model(bp)
}

pub open spec fn exec_model_fn() -> spec_fn(BackupExecution) -> ExecSnap {
    |be: BackupExecution| exec_model(be)
}

/// The readings of a document's plans, in document order.
pub open spec fn doc_plan_models(doc: BackupFile) -> Seq<PlanSnap> {
    doc.action_plans@.map_values(plan_model_fn())
}

/// The readings of a document's executions, in document order.
pub open spec fn doc_exec_models(doc: BackupFile) -> Seq<ExecSnap> {
    doc.action_plan_executions@.map_values(exec_model_fn())
}

pub open spec fn store_plan_model(s: Store, p: Plan) -> PlanSnap {
    (
        p.id,
        p.name@,
        p.deleted_at,
        Seq::new(
            p.items@.len(),
            |k: int| (k, s.action_name_of(p.items@[k].action_id)),
        ),
    )
}

pub open spec fn store_exec_model(s: Store, e: Execution) -> ExecSnap {
    (
        e.id,
        e.plan_id,
        e.started,
        e.finished,
        Seq::new(
            e.items@.len(),
            |k: int| (k, s.action_name_of(e.items@[k].action_id), e.items@[k].finished),
        ),
    )
}

/// The readings of a store's plans, in store order.
pub open spec fn store_plan_models(s: Store) -> Seq<PlanSnap> {
    s.plans@.map_values(|p: Plan| store_plan_model(s, p))
}

/// The readings of a store's executions, in store order.
pub open spec fn store_exec_models(s: Store) -> Seq<ExecSnap> {
    s.executions@.map_values(|e: Execution| store_exec_model(s, e))
}

pub open spec fn doc_has_plan_id(doc: BackupFile, pid: u128) -> bool {
    exists|i: int|
        0 <= i < doc.action_plans@.len() && (#[trigger] doc.action_plans@[i]).id == pid
}

pub open spec fn plan_items_dense(bp: BackupActionPlan) -> bool {
    forall|k: int|
        0 <= k < bp.items@.len() ==> (#[trigger] bp.items@[k]).order_index as int == k
}

pub open spec fn exec_items_dense(be: BackupExecution) -> bool {
    forall|k: int|
        0 <= k < be.items@.len() ==> (#[trigger] be.items@[k]).order_index as int == k
}

/// Some plan's template or some execution's checklist is too long for its
/// slots to be numbered in `i64`. Export refuses such a store; nothing
/// smaller can fail it.
pub open spec fn oversized_item_list(s: Store) -> bool {
    ||| exists|p: int|
        0 <= p < s.plans@.len() && (#[trigger] s.plans@[p]).items@.len() > i64::MAX
    ||| exists|e: int|
        0 <= e < s.executions@.len() && (#[trigger] s.executions@[e]).items@.len() > i64::MAX
}

/// The document carries at least one item row, in some plan or in some
/// execution. Only item rows make import draw fresh ids, so only such a
/// document can fail with an internal error.
pub open spec fn doc_has_item_rows(doc: BackupFile) -> bool {
    ||| exists|p: int|
        0 <= p < doc.action_plans@.len() && (#[trigger] doc.action_plans@[p]).items@.len() > 0
    ||| exists|e: int|
        0 <= e < doc.action_plan_executions@.len() && (
        #[trigger] doc.action_plan_executions@[e]).items@.len() > 0
}

/// What import accepts: the supported version, unique plan ids, unique
/// execution ids, every execution pointing at a plan of the document, and
/// items listed in dense 0..n-1 order.
pub open spec fn valid_backup(doc: BackupFile) -> bool {
    &&& doc.version == BACKUP_VERSION
    &&& forall|i: int, j: int|
        0 <= i < j < doc.action_plans@.len() ==> (#[trigger] doc.action_plans@[i]).id != (
        #[trigger] doc.action_plans@[j]).id
    &&& forall|i: int, j: int|
        0 <= i < j < doc.action_plan_executions@.len() ==> (
        #[trigger] doc.action_plan_executions@[i]).id != (
        #[trigger] doc.action_plan_executions@[j]).id
    &&& forall|e: int|
        0 <= e < doc.action_plan_executions@.len() ==> doc_has_plan_id(
            doc,
            (#[trigger] doc.action_plan_executions@[e]).action_plan,
        )
    &&& forall|p: int|
        0 <= p < doc.action_plans@.len() ==> plan_items_dense(#[trigger] doc.action_plans@[p])
    &&& forall|e: int|
        0 <= e < doc.action_plan_executions@.len() ==> exec_items_dense(
            #[trigger] doc.action_plan_executions@[e],
        )
}

/// What export produces: a version-stamped document whose plans are the
/// store's plans sorted by name (by UTF-8 bytes, as the store's own name
/// order), whose executions are the store's executions sorted latest-started
/// first, and whose readings are a permutation of the store's readings.
pub open spec fn export_post(s: Store, exported_at: i64, doc: BackupFile) -> bool {
    &&& doc.version == BACKUP_VERSION
    &&& doc.exported_at_unix == exported_at
    &&& doc_plan_models(doc).to_multiset() == store_plan_models(s).to_multiset()
    &&& doc_exec_models(doc).to_multiset() == store_exec_models(s).to_multiset()
    &&& sorted_by_le(doc.action_plans@)
    &&& sorted_by_le(doc.action_plan_executions@)
}

impl SortOrd for BackupActionPlan {
    /// Plans are ordered by name, compared by UTF-8 bytes.
    open spec fn le(self, other: Self) -> bool {
        bytes_lex_le(encode_utf8(self.name@), encode_utf8(other.name@))
    }

    proof fn lemma_le_total(a: Self, b: Self) {
        lemma_bytes_lex_le_total(encode_utf8(a.name@), encode_utf8(b.name@));
    }

    proof fn lemma_le_trans(a: Self, b: Self, c: Self) {
        lemma_bytes_lex_le_trans(
            encode_utf8(a.name@),
            encode_utf8(b.name@),
            encode_utf8(c.name@),
        );
    }

    fn le_exec(&self, other: &Self) -> (r: bool) {
        str_bytes_le(self.name.as_str(), other.name.as_str())
    }
}

impl SortOrd for BackupExecution {
    /// Executions are ordered latest started first.
    open spec fn le(self, other: Self) -> bool {
        self.started >= other.started
    }

    proof fn lemma_le_total(a: Self, b: Self) {
    }

    proof fn lemma_le_trans(a: Self, b: Self, c: Self) {
    }

    fn le_exec(&self, other: &Self) -> (r: bool) {
        self.started >= other.started
    }
}

impl Store {
    /// Serializes the whole store as one versioned document: every plan with
    /// its deletion state and template (by action name and order), every
    /// execution with its checklist (by action name, order and finished
    /// timestamp). A pure read; the store is not touched. It can fail only
    /// when some item list is too long to number its slots in `i64`; on any
    /// smaller store success is owed.
    pub fn export_snapshot(&self, exported_at: i64) -> (r: Result<BackupFile, StoreError>)
        requires
            self.wf(),
        ensures
            match r {
                Ok(doc) => export_post(*self, exported_at, doc),
                Err(e) => e == StoreError::Internal && oversized_item_list(*self),
            },
    {
        let mut plans_out: Vec<BackupActionPlan> = Vec::new();
        let np = self.plans.len();
        for p in 0..np
            invariant
                self.wf(),
                np == self.plans@.len(),
                plans_out@.len() == p,
                forall|q: int|
                    0 <= q < p ==> plan_model(#[trigger] plans_out@[q]) == store_plan_model(
                        *self,
                        self.plans@[q],
                    ),
        {
            let ni = self.plans[p].items.len();
            if (ni as u64) > (i64::MAX as u64) {
                proof {
                    assert(self.plans@[p as int].items@.len() > i64::MAX);
                }
                return Err(StoreError::Internal);
            }
            let mut items_out: Vec<BackupPlanItem> = Vec::new();
            for k in 0..ni
                invariant
                    self.wf(),
                    p < self.plans@.len(),
                    ni == self.plans@[p as int].items@.len(),
                    ni as u64 <= i64::MAX as u64,
                    items_out@.len() == k,
                    forall|k2: int|
                        0 <= k2 < k ==> plan_item_model(#[trigger] items_out@[k2]) == (
                        k2,
                        self.action_name_of(self.plans@[p as int].items@[k2].action_id),
                        ),
            {
                let aid = self.plans[p].items[k].action_id;
                proof {
                    assert(self.has_action_id(aid));
                }
                let name = match self.action_index_by_id(aid) {
                    Some(a) => {
                        proof {
                            self.lemma_action_idx_of_id(a as int);
                        }
                        self.actions[a].name.clone()
                    },
                    None => {
                        proof {
                            assert(false);
                        }
                        return Err(StoreError::Internal);
                    },
                };
                items_out.push(BackupPlanItem { order_index: k as i64, action_name: name });
            }
            plans_out.push(
                BackupActionPlan {
                    id: self.plans[p].id,
                    name: self.plans[p].name.clone(),
                    deleted_at: self.plans[p].deleted_at,
                    items: items_out,
                },
            );
            proof {
                let bp = plans_out@.last();
                let sp = store_plan_model(*self, self.plans@[p as int]);
                assert(bp.items@.map_values(|it: BackupPlanItem| plan_item_model(it)) =~= sp.3);
                assert(plan_model(bp) == sp);
            }
        }
        let mut execs_out: Vec<BackupExecution> = Vec::new();
        let ne = self.executions.len();
        for e in 0..ne
            invariant
                self.wf(),
                ne == self.executions@.len(),
                execs_out@.len() == e,
                forall|q: int|
                    0 <= q < e ==> exec_model(#[trigger] execs_out@[q]) == store_exec_model(
                        *self,
                        self.executions@[q],
                    ),
        {
            let ni = self.executions[e].items.len();
            if (ni as u64) > (i64::MAX as u64) {
                proof {
                    assert(self.executions@[e as int].items@.len() > i64::MAX);
                }
                return Err(StoreError::Internal);
            }
            let mut items_out: Vec<BackupExecutionItem> = Vec::new();
            for k in 0..ni
                invariant
                    self.wf(),
                    e < self.executions@.len(),
                    ni == self.executions@[e as int].items@.len(),
                    ni as u64 <= i64::MAX as u64,
                    items_out@.len() == k,
                    forall|k2: int|
                        0 <= k2 < k ==> exec_item_model(#[trigger] items_out@[k2]) == (
                        k2,
                        self.action_name_of(self.executions@[e as int].items@[k2].action_id),
                        self.executions@[e as int].items@[k2].finished,
                        ),
            {
                let aid = self.executions[e].items[k].action_id;
                proof {
                    assert(self.has_action_id(aid));
                }
                let name = match self.action_index_by_id(aid) {
                    Some(a) => {
                        proof {
                            self.lemma_action_idx_of_id(a as int);
                        }
                        self.actions[a].name.clone()
                    },
                    None => {
                        proof {
                            assert(false);
                        }
                        return Err(StoreError::Internal);
                    },
                };
                items_out.push(
                    BackupExecutionItem {
                        order_index: k as i64,
                        action_name: name,
                        finished: self.executions[e].items[k].finished,
                    },
                );
            }
            execs_out.push(
                BackupExecution {
                    id: self.executions[e].id,
                    action_plan: self.executions[e].plan_id,
                    started: self.executions[e].started,
                    finished: self.executions[e].finished,
                    items: items_out,
                },
            );
            proof {
                let be = execs_out@.last();
                let se = store_exec_model(*self, self.executions@[e as int]);
                assert(be.items@.map_values(|it: BackupExecutionItem| exec_item_model(it))
                    =~= se.4);
                assert(exec_model(be) == se);
            }
        }
        let ghost plans_built = plans_out@;
        let ghost execs_built = execs_out@;
        insertion_sort(&mut plans_out);
        insertion_sort(&mut execs_out);
        proof {
            lemma_map_values_multiset(plans_out@, plans_built, plan_model_fn());
            lemma_map_values_multiset(execs_out@, execs_built, exec_model_fn());
            assert(plans_built.map_values(plan_model_fn()) =~= store_plan_models(*self));
            assert(execs_built.map_values(exec_model_fn()) =~= store_exec_models(*self));
        }
        Ok(
            BackupFile {
                version: BACKUP_VERSION,
                exported_at_unix: exported_at,
                action_plans: plans_out,
                action_plan_executions: execs_out,
            },
        )
    }
}

/// A document name: one carried by some plan item or execution item.
pub open spec fn doc_mentions_name(doc: BackupFile, n: Seq<char>) -> bool {
    ||| exists|p: int, k: int|
        0 <= p < doc.action_plans@.len() && 0 <= k < doc.action_plans@[p].items@.len() && (
        #[trigger] doc.action_plans@[p].items@[k]).action_name@ == n
    ||| exists|e: int, k: int|
        0 <= e < doc.action_plan_executions@.len() && 0 <= k
            < doc.action_plan_executions@[e].items@.len() && (
        #[trigger] doc.action_plan_executions@[e].items@[k]).action_name@ == n
}

/// The restored plan row reads exactly as the document plan.
pub open spec fn imported_plan_matches(s: Store, pl: Plan, bp: BackupActionPlan) -> bool {
    &&& pl.id == bp.id
    &&& pl.name@ == bp.name@
    &&& pl.deleted_at == bp.deleted_at
    &&& pl.items@.len() == bp.items@.len()
    &&& forall|k: int|
        0 <= k < pl.items@.len() ==> s.action_name_of((#[trigger] pl.items@[k]).action_id)
            == bp.items@[k].action_name@
}

/// The restored execution row reads exactly as the document execution.
pub open spec fn imported_exec_matches(s: Store, ex: Execution, be: BackupExecution) -> bool {
    &&& ex.id == be.id
    &&& ex.plan_id == be.action_plan
    &&& ex.started == be.started
    &&& ex.finished == be.finished
    &&& ex.items@.len() == be.items@.len()
    &&& forall|k: int|
        0 <= k < ex.items@.len() ==> s.action_name_of((#[trigger] ex.items@[k]).action_id)
            == be.items@[k].action_name@ && ex.items@[k].finished == be.items@[k].finished
}

/// What a successful import leaves behind: the store rebuilt from the
/// document alone. Plans and executions stand in document order and read
/// exactly as the document rows; the registry holds exactly one action per
/// name the document mentions, recreated with fresh ids.
pub open spec fn import_ok_post(doc: BackupFile, post: Store) -> bool {
    &&& post.plans@.len() == doc.action_plans@.len()
    &&& forall|p: int|
        0 <= p < doc.action_plans@.len() ==> imported_plan_matches(
            post,
            #[trigger] post.plans@[p],
            doc.action_plans@[p],
        )
    &&& post.executions@.len() == doc.action_plan_executions@.len()
    &&& forall|e: int|
        0 <= e < doc.action_plan_executions@.len() ==> imported_exec_matches(
            post,
            #[trigger] post.executions@[e],
            doc.action_plan_executions@[e],
        )
    &&& forall|n: Seq<char>| #[trigger] post.has_action_name(n) <==> doc_mentions_name(doc, n)
}

proof fn lemma_has_action_name_monotone(pre: Store, post: Store, n: Seq<char>)
    requires
        pre.has_action_name(n),
        post.actions@.len() >= pre.actions@.len(),
        post.actions@.take(pre.actions@.len() as int) == pre.actions@,
    ensures
        post.has_action_name(n),
{
    let i = choose|i: int|
        0 <= i < pre.actions@.len() && (#[trigger] pre.actions@[i]).name@ == n;
    assert(post.actions@.take(pre.actions@.len() as int)[i] == post.actions@[i]);
    assert(post.actions@[i].name@ == n);
}

/// Appending a plan with an unused plan id, resolvable items and fresh
/// unique item ids keeps the store well formed.
proof fn lemma_import_plan_push(pre: Store, post: Store)
    requires
        pre.wf(),
        post.actions == pre.actions,
        post.executions == pre.executions,
        post.plans@.len() == pre.plans@.len() + 1,
        post.plans@.take(pre.plans@.len() as int) == pre.plans@,
        !pre.has_plan_id(post.plans@.last().id),
        forall|k: int|
            0 <= k < post.plans@.last().items@.len() ==> pre.has_action_id(
                (#[trigger] post.plans@.last().items@[k]).action_id,
            ),
        forall|k: int|
            0 <= k < post.plans@.last().items@.len() ==> !pre.has_plan_item_id(
                (#[trigger] post.plans@.last().items@[k]).id,
            ),
        forall|k1: int, k2: int|
            0 <= k1 < k2 < post.plans@.last().items@.len() ==> (
            #[trigger] post.plans@.last().items@[k1]).id != (
            #[trigger] post.plans@.last().items@[k2]).id,
    ensures
        post.wf(),
{
    let plen = pre.plans@.len() as int;
    assert forall|q: int| 0 <= q < plen implies post.plans@[q] == pre.plans@[q] by {
        assert(post.plans@.take(plen)[q] == post.plans@[q]);
    }
    assert(post.actions_wf());
    assert forall|i: int, j: int| 0 <= i < j < post.plans@.len() implies (
    #[trigger] post.plans@[i]).id != (#[trigger] post.plans@[j]).id by {
        if j < plen {
            assert(pre.plans@[i].id != pre.plans@[j].id);
        } else {
            assert(post.plans@[j] == post.plans@.last());
            assert(post.plans@[i] == pre.plans@[i]);
        }
    }
    assert forall|q: int, k: int|
        0 <= q < post.plans@.len() && 0 <= k < post.plans@[q].items@.len() implies post.has_action_id(
        (#[trigger] post.plans@[q].items@[k]).action_id,
    ) by {
        if q < plen {
            assert(post.plans@[q] == pre.plans@[q]);
            assert(pre.has_action_id(pre.plans@[q].items@[k].action_id));
        } else {
            assert(post.plans@[q] == post.plans@.last());
        }
    }
    assert forall|p1: int, k1: int, p2: int, k2: int|
        0 <= p1 < post.plans@.len() && 0 <= k1 < post.plans@[p1].items@.len() && 0 <= p2
            < post.plans@.len() && 0 <= k2 < post.plans@[p2].items@.len() && (p1 != p2 || k1
            != k2) implies (#[trigger] post.plans@[p1].items@[k1]).id != (
    #[trigger] post.plans@[p2].items@[k2]).id by {
        if p1 < plen && p2 < plen {
            assert(post.plans@[p1] == pre.plans@[p1]);
            assert(post.plans@[p2] == pre.plans@[p2]);
            assert(pre.plans@[p1].items@[k1].id != pre.plans@[p2].items@[k2].id);
        } else if p1 < plen {
            assert(post.plans@[p1] == pre.plans@[p1]);
            assert(post.plans@[p2] == post.plans@.last());
            assert(pre.has_plan_item_id(pre.plans@[p1].items@[k1].id));
        } else if p2 < plen {
            assert(post.plans@[p2] == pre.plans@[p2]);
            assert(post.plans@[p1] == post.plans@.last());
            assert(pre.has_plan_item_id(pre.plans@[p2].items@[k2].id));
        } else {
            assert(post.plans@[p1] == post.plans@.last());
            assert(post.plans@[p2] == post.plans@.last());
        }
    }
    assert(post.plans_wf());
    assert forall|e: int| 0 <= e < post.executions@.len() implies post.has_plan_id(
        (#[trigger] post.executions@[e]).plan_id,
    ) by {
        assert(pre.has_plan_id(pre.executions@[e].plan_id));
        let i = choose|i: int|
            0 <= i < pre.plans@.len() && (#[trigger] pre.plans@[i]).id
                == pre.executions@[e].plan_id;
        assert(post.plans@[i].id == pre.plans@[i].id);
    }
    assert forall|e: int, k: int|
        0 <= e < post.executions@.len() && 0 <= k < post.executions@[e].items@.len() implies post.has_action_id(
        (#[trigger] post.executions@[e].items@[k]).action_id,
    ) by {
        assert(pre.has_action_id(pre.executions@[e].items@[k].action_id));
    }
    assert(post.executions_wf());
}

/// What a call to `import_snapshot` leaves behind. On success the store is
/// rebuilt from the document alone and the counts report how many plans and
/// executions were restored. A rejected document gives `Validation`, a
/// failed id draw `Internal`; either way the store is unchanged, so no
/// partial import is ever observable.
pub open spec fn import_post(
    pre: Store,
    post: Store,
    doc: BackupFile,
    r: Result<(usize, usize), StoreError>,
) -> bool {
    match r {
        Ok(counts) => {
            &&& valid_backup(doc)
            &&& counts.0 == doc.action_plans@.len()
            &&& counts.1 == doc.action_plan_executions@.len()
            &&& import_ok_post(doc, post)
        },
        Err(e) => {
            &&& post == pre
            &&& (e == StoreError::Validation || e == StoreError::Internal)
            &&& (e == StoreError::Validation <==> !valid_backup(doc))
            &&& (e == StoreError::Internal ==> doc_has_item_rows(doc))
        },
    }
}

impl Store {
    /// Restores the whole store from a snapshot document: validates it,
    /// then replaces every table with rows rebuilt from the document alone,
    /// recreating actions on demand by name. Atomic: on any error — a
    /// rejected document or a failed id draw — the store is unchanged.
    /// Only item rows draw ids, so a valid document without any cannot fail.
    /// Returns how many plans and executions were restored.
    pub fn import_snapshot(&mut self, doc: &BackupFile) -> (r: Result<(usize, usize), StoreError>)
        requires
            old(self).wf(),
        ensures
            final(self).wf(),
            import_post(*old(self), *final(self), *doc, r),
    {
        // validation: nothing is touched before every check has passed
        if doc.version != BACKUP_VERSION {
            return Err(StoreError::Validation);
        }
        let np = doc.action_plans.len();
        for i in 0..np
            invariant
                *self == *old(self),
                old(self).wf(),
                np == doc.action_plans@.len(),
                forall|a: int, b: int|
                    0 <= a < b < i ==> (#[trigger] doc.action_plans@[a]).id != (
                    #[trigger] doc.action_plans@[b]).id,
        {
            for j in 0..i
                invariant
                    *self == *old(self),
                    old(self).wf(),
                    np == doc.action_plans@.len(),
                    i < np,
                    forall|a: int, b: int|
                        0 <= a < b < i ==> (#[trigger] doc.action_plans@[a]).id != (
                        #[trigger] doc.action_plans@[b]).id,
                    forall|a: int|
                        0 <= a < j ==> (#[trigger] doc.action_plans@[a]).id
                            != doc.action_plans@[i as int].id,
            {
                if doc.action_plans[j].id == doc.action_plans[i].id {
                    return Err(StoreError::Validation);
                }
            }
        }
        let ne = doc.action_plan_executions.len();
        for i in 0..ne
            invariant
                *self == *old(self),
                old(self).wf(),
                ne == doc.action_plan_executions@.len(),
                forall|a: int, b: int|
                    0 <= a < b < i ==> (#[trigger] doc.action_plan_executions@[a]).id != (
                    #[trigger] doc.action_plan_executions@[b]).id,
        {
            for j in 0..i
                invariant
                    *self == *old(self),
                    old(self).wf(),
                    ne == doc.action_plan_executions@.len(),
                    i < ne,
                    forall|a: int, b: int|
                        0 <= a < b < i ==> (#[trigger] doc.action_plan_executions@[a]).id != (
                        #[trigger] doc.action_plan_executions@[b]).id,
                    forall|a: int|
                        0 <= a < j ==> (#[trigger] doc.action_plan_executions@[a]).id
                            != doc.action_plan_executions@[i as int].id,
            {
                if doc.action_plan_executions[j].id == doc.action_plan_executions[i].id {
                    return Err(StoreError::Validation);
                }
            }
        }
        for e in 0..ne
            invariant
                *self == *old(self),
                old(self).wf(),
                ne == doc.action_plan_executions@.len(),
                np == doc.action_plans@.len(),
                forall|a: int, b: int|
                    0 <= a < b < np ==> (#[trigger] doc.action_plans@[a]).id != (
                    #[trigger] doc.action_plans@[b]).id,
                forall|a: int, b: int|
                    0 <= a < b < ne ==> (#[trigger] doc.action_plan_executions@[a]).id != (
                    #[trigger] doc.action_plan_executions@[b]).id,
                forall|a: int|
                    0 <= a < e ==> doc_has_plan_id(
                        *doc,
                        (#[trigger] doc.action_plan_executions@[a]).action_plan,
                    ),
        {
            let mut found = false;
            let target = doc.action_plan_executions[e].action_plan;
            for p in 0..np
                invariant
                    *self == *old(self),
                    old(self).wf(),
                    np == doc.action_plans@.len(),
                    found ==> doc_has_plan_id(*doc, target),
                    !found ==> forall|a: int|
                        0 <= a < p ==> (#[trigger] doc.action_plans@[a]).id != target,
            {
                if doc.action_plans[p].id == target {
                    found = true;
                }
            }
            if !found {
                return Err(StoreError::Validation);
            }
        }
        for p in 0..np
            invariant
                *self == *old(self),
                old(self).wf(),
                np == doc.action_plans@.len(),
                ne == doc.action_plan_executions@.len(),
                forall|a: int, b: int|
                    0 <= a < b < np ==> (#[trigger] doc.action_plans@[a]).id != (
                    #[trigger] doc.action_plans@[b]).id,
                forall|a: int, b: int|
                    0 <= a < b < ne ==> (#[trigger] doc.action_plan_executions@[a]).id != (
                    #[trigger] doc.action_plan_executions@[b]).id,
                forall|a: int|
                    0 <= a < ne ==> doc_has_plan_id(
                        *doc,
                        (#[trigger] doc.action_plan_executions@[a]).action_plan,
                    ),
                forall|a: int| 0 <= a < p ==> plan_items_dense(#[trigger] doc.action_plans@[a]),
        {
            let ni = doc.action_plans[p].items.len();
            for k in 0..ni
                invariant
                    *self == *old(self),
                    old(self).wf(),
                    np == doc.action_plans@.len(),
                    p < np,
                    ni == doc.action_plans@[p as int].items@.len(),
                    forall|k2: int|
                        0 <= k2 < k ==> (
                        #[trigger] doc.action_plans@[p as int].items@[k2]).order_index as int
                            == k2,
            {
                let oi = doc.action_plans[p].items[k].order_index;
                if oi < 0 || (oi as u64) != (k as u64) {
                    return Err(StoreError::Validation);
                }
            }
        }
        for e in 0..ne
            invariant
                *self == *old(self),
                old(self).wf(),
                np == doc.action_plans@.len(),
                ne == doc.action_plan_executions@.len(),
                forall|a: int, b: int|
                    0 <= a < b < np ==> (#[trigger] doc.action_plans@[a]).id != (
                    #[trigger] doc.action_plans@[b]).id,
                forall|a: int, b: int|
                    0 <= a < b < ne ==> (#[trigger] doc.action_plan_executions@[a]).id != (
                    #[trigger] doc.action_plan_executions@[b]).id,
                forall|a: int|
                    0 <= a < ne ==> doc_has_plan_id(
                        *doc,
                        (#[trigger] doc.action_plan_executions@[a]).action_plan,
                    ),
                forall|a: int| 0 <= a < np ==> plan_items_dense(#[trigger] doc.action_plans@[a]),
                forall|a: int|
                    0 <= a < e ==> exec_items_dense(#[trigger] doc.action_plan_executions@[a]),
        {
            let ni = doc.action_plan_executions[e].items.len();
            for k in 0..ni
                invariant
                    *self == *old(self),
                    old(self).wf(),
                    ne == doc.action_plan_executions@.len(),
                    e < ne,
                    ni == doc.action_plan_executions@[e as int].items@.len(),
                    forall|k2: int|
                        0 <= k2 < k ==> (
                        #[trigger] doc.action_plan_executions@[e as int].items@[k2]).order_index
                            as int == k2,
            {
                let oi = doc.action_plan_executions[e].items[k].order_index;
                if oi < 0 || (oi as u64) != (k as u64) {
                    return Err(StoreError::Validation);
                }
            }
        }
        proof {
            assert(valid_backup(*doc));
        }
        match build_imported_store(doc) {
            Err(e) => Err(e),
            Ok(ns) => {
                *self = ns;
                Ok((np, ne))
            },
        }
    }
}

/// The registry sequence holds an action with this id.
pub open spec fn registry_has_id(acts: Seq<crate::model::Action>, aid: u128) -> bool {
    exists|i: int| 0 <= i < acts.len() && (#[trigger] acts[i]).id == aid
}

/// The name under which the registry sequence holds the id (meaningful when
/// ids are unique and the id is present).
pub open spec fn registry_name_of(acts: Seq<crate::model::Action>, aid: u128) -> Seq<char> {
    acts[choose|i: int| 0 <= i < acts.len() && (#[trigger] acts[i]).id == aid].name@
}

proof fn lemma_registry_idx(acts: Seq<crate::model::Action>, i: int)
    requires
        forall|a: int, b: int|
            0 <= a < b < acts.len() ==> (#[trigger] acts[a]).id != (#[trigger] acts[b]).id,
        0 <= i < acts.len(),
    ensures
        registry_has_id(acts, acts[i].id),
        registry_name_of(acts, acts[i].id) == acts[i].name@,
{
    assert(registry_has_id(acts, acts[i].id));
    let j = choose|j: int| 0 <= j < acts.len() && (#[trigger] acts[j]).id == acts[i].id;
    if i != j {
        if i < j {
            assert(acts[i].id != acts[j].id);
        } else {
            assert(acts[j].id != acts[i].id);
        }
    }
}

/// The plan row reads as the document plan, names resolved in the given
/// registry sequence.
pub open spec fn reg_plan_matches(
    acts: Seq<crate::model::Action>,
    pl: Plan,
    bp: BackupActionPlan,
) -> bool {
    &&& pl.id == bp.id
    &&& pl.name@ == bp.name@
    &&& pl.deleted_at == bp.deleted_at
    &&& pl.items@.len() == bp.items@.len()
    &&& forall|k: int|
        0 <= k < pl.items@.len() ==> registry_has_id(
            acts,
            (#[trigger] pl.items@[k]).action_id,
        ) && registry_name_of(acts, pl.items@[k].action_id) == bp.items@[k].action_name@
}

/// The execution row reads as the document execution, names resolved in the
/// given registry sequence.
pub open spec fn reg_exec_matches(
    acts: Seq<crate::model::Action>,
    ex: Execution,
    be: BackupExecution,
) -> bool {
    &&& ex.id == be.id
    &&& ex.plan_id == be.action_plan
    &&& ex.started == be.started
    &&& ex.finished == be.finished
    &&& ex.items@.len() == be.items@.len()
    &&& forall|k: int|
        0 <= k < ex.items@.len() ==> registry_has_id(acts, (#[trigger] ex.items@[k]).action_id)
            && registry_name_of(acts, ex.items@[k].action_id) == be.items@[k].action_name@
            && ex.items@[k].finished == be.items@[k].finished
}

/// Rebuilds a whole store from a validated document: first the registry
/// (one action per mentioned name), then the plans, then the executions.
fn build_imported_store(doc: &BackupFile) -> (r: Result<Store, StoreError>)
    requires
        valid_backup(*doc),
    ensures
        match r {
            Ok(ns) => ns.wf() && import_ok_post(*doc, ns),
            Err(e) => e == StoreError::Internal && doc_has_item_rows(*doc),
        },
{
    let np = doc.action_plans.len();
    let ne = doc.action_plan_executions.len();
    let mut ns = Store::new();
    // collect the registry: one action per name the document mentions
    for p in 0..np
        invariant
            valid_backup(*doc),
            np == doc.action_plans@.len(),
            ns.wf(),
            ns.plans@.len() == 0,
            ns.executions@.len() == 0,
            forall|i: int|
                0 <= i < ns.actions@.len() ==> doc_mentions_name(
                    *doc,
                    (#[trigger] ns.actions@[i]).name@,
                ),
            forall|p2: int, k2: int|
                0 <= p2 < p && 0 <= k2 < doc.action_plans@[p2].items@.len()
                    ==> ns.has_action_name(
                    (#[trigger] doc.action_plans@[p2].items@[k2]).action_name@,
                ),
    {
        let ni = doc.action_plans[p].items.len();
        for k in 0..ni
            invariant
                valid_backup(*doc),
                np == doc.action_plans@.len(),
                p < np,
                ni == doc.action_plans@[p as int].items@.len(),
                ns.wf(),
                ns.plans@.len() == 0,
                ns.executions@.len() == 0,
                forall|i: int|
                    0 <= i < ns.actions@.len() ==> doc_mentions_name(
                        *doc,
                        (#[trigger] ns.actions@[i]).name@,
                    ),
                forall|p2: int, k2: int|
                    0 <= p2 < p && 0 <= k2 < doc.action_plans@[p2].items@.len()
                        ==> ns.has_action_name(
                        (#[trigger] doc.action_plans@[p2].items@[k2]).action_name@,
                    ),
                forall|k2: int|
                    0 <= k2 < k ==> ns.has_action_name(
                        (#[trigger] doc.action_plans@[p as int].items@[k2]).action_name@,
                    ),
        {
            let ghost pre_ns = ns;
            match ns.ensure_action(&doc.action_plans[p].items[k].action_name) {
                Err(e) => {
                    proof {
                        assert(doc.action_plans@[p as int].items@.len() > 0);
                        assert(doc_has_item_rows(*doc));
                    }
                    return Err(e);
                },
                Ok(aid) => {
                    proof {
                        assert(doc_mentions_name(
                            *doc,
                            doc.action_plans@[p as int].items@[k as int].action_name@,
                        )) by {
                            assert(0 <= p < doc.action_plans@.len() && 0 <= k
                                < doc.action_plans@[p as int].items@.len());
                        }
                        assert(ns.actions@.take(pre_ns.actions@.len() as int)
                            =~= pre_ns.actions@);
                        lemma_collect_step(pre_ns, ns, *doc);
                        assert(ns.has_action_name(
                            doc.action_plans@[p as int].items@[k as int].action_name@,
                        ));
                    }
                },
            }
        }
    }
    for e in 0..ne
        invariant
            valid_backup(*doc),
            np == doc.action_plans@.len(),
            ne == doc.action_plan_executions@.len(),
            ns.wf(),
            ns.plans@.len() == 0,
            ns.executions@.len() == 0,
            forall|i: int|
                0 <= i < ns.actions@.len() ==> doc_mentions_name(
                    *doc,
                    (#[trigger] ns.actions@[i]).name@,
                ),
            forall|p2: int, k2: int|
                0 <= p2 < np && 0 <= k2 < doc.action_plans@[p2].items@.len()
                    ==> ns.has_action_name(
                    (#[trigger] doc.action_plans@[p2].items@[k2]).action_name@,
                ),
            forall|e2: int, k2: int|
                0 <= e2 < e && 0 <= k2 < doc.action_plan_executions@[e2].items@.len()
                    ==> ns.has_action_name(
                    (#[trigger] doc.action_plan_executions@[e2].items@[k2]).action_name@,
                ),
    {
        let ni = doc.action_plan_executions[e].items.len();
        for k in 0..ni
            invariant
                valid_backup(*doc),
                np == doc.action_plans@.len(),
                ne == doc.action_plan_executions@.len(),
                e < ne,
                ni == doc.action_plan_executions@[e as int].items@.len(),
                ns.wf(),
                ns.plans@.len() == 0,
                ns.executions@.len() == 0,
                forall|i: int|
                    0 <= i < ns.actions@.len() ==> doc_mentions_name(
                        *doc,
                        (#[trigger] ns.actions@[i]).name@,
                    ),
                forall|p2: int, k2: int|
                    0 <= p2 < np && 0 <= k2 < doc.action_plans@[p2].items@.len()
                        ==> ns.has_action_name(
                        (#[trigger] doc.action_plans@[p2].items@[k2]).action_name@,
                    ),
                forall|e2: int, k2: int|
                    0 <= e2 < e && 0 <= k2 < doc.action_plan_executions@[e2].items@.len()
                        ==> ns.has_action_name(
                        (#[trigger] doc.action_plan_executions@[e2].items@[k2]).action_name@,
                    ),
                forall|k2: int|
                    0 <= k2 < k ==> ns.has_action_name(
                        (#[trigger] doc.action_plan_executions@[e as int].items@[k2]).action_name@,
                    ),
        {
            let ghost pre_ns = ns;
            match ns.ensure_action(&doc.action_plan_executions[e].items[k].action_name) {
                Err(e2) => {
                    proof {
                        assert(doc.action_plan_executions@[e as int].items@.len() > 0);
                        assert(doc_has_item_rows(*doc));
                    }
                    return Err(e2);
                },
                Ok(aid) => {
                    proof {
                        assert(doc_mentions_name(
                            *doc,
                            doc.action_plan_executions@[e as int].items@[k as int].action_name@,
                        )) by {
                            assert(0 <= e < doc.action_plan_executions@.len() && 0 <= k
                                < doc.action_plan_executions@[e as int].items@.len());
                        }
                        assert(ns.actions@.take(pre_ns.actions@.len() as int)
                            =~= pre_ns.actions@);
                        lemma_collect_step(pre_ns, ns, *doc);
                        assert(ns.has_action_name(
                            doc.action_plan_executions@[e as int].items@[k as int].action_name@,
                        ));
                    }
                },
            }
        }
    }
    let ghost registry = ns.actions@;
    // build the plans against the settled registry
    for p in 0..np
        invariant
            valid_backup(*doc),
            np == doc.action_plans@.len(),
            ns.wf(),
            ns.actions@ == registry,
            ns.executions@.len() == 0,
            forall|i: int|
                0 <= i < ns.actions@.len() ==> doc_mentions_name(
                    *doc,
                    (#[trigger] ns.actions@[i]).name@,
                ),
            forall|p2: int, k2: int|
                0 <= p2 < np && 0 <= k2 < doc.action_plans@[p2].items@.len()
                    ==> ns.has_action_name(
                    (#[trigger] doc.action_plans@[p2].items@[k2]).action_name@,
                ),
            forall|e2: int, k2: int|
                0 <= e2 < ne && 0 <= k2 < doc.action_plan_executions@[e2].items@.len()
                    ==> ns.has_action_name(
                    (#[trigger] doc.action_plan_executions@[e2].items@[k2]).action_name@,
                ),
            ns.plans@.len() == p,
            forall|q: int|
                0 <= q < p ==> (#[trigger] ns.plans@[q]).id == doc.action_plans@[q].id,
            forall|q: int|
                0 <= q < p ==> reg_plan_matches(
                    registry,
                    #[trigger] ns.plans@[q],
                    doc.action_plans@[q],
                ),
    {
        let ghost pre_ns = ns;
        let ni = doc.action_plans[p].items.len();
        let mut items: Vec<PlanItem> = Vec::new();
        for k in 0..ni
            invariant
                valid_backup(*doc),
                np == doc.action_plans@.len(),
                p < np,
                ni == doc.action_plans@[p as int].items@.len(),
                ns == pre_ns,
                ns.wf(),
                ns.actions@ == registry,
                forall|p2: int, k2: int|
                    0 <= p2 < np && 0 <= k2 < doc.action_plans@[p2].items@.len()
                        ==> ns.has_action_name(
                        (#[trigger] doc.action_plans@[p2].items@[k2]).action_name@,
                    ),
                items@.len() == k,
                forall|j: int|
                    0 <= j < k ==> registry_has_id(registry, (#[trigger] items@[j]).action_id)
                        && registry_name_of(registry, items@[j].action_id)
                        == doc.action_plans@[p as int].items@[j].action_name@,
                forall|j: int| 0 <= j < k ==> !ns.has_plan_item_id((#[trigger] items@[j]).id),
                forall|j1: int, j2: int|
                    0 <= j1 < j2 < k ==> (#[trigger] items@[j1]).id != (#[trigger] items@[j2]).id,
        {
            proof {
                assert(ns.has_action_name(
                    doc.action_plans@[p as int].items@[k as int].action_name@,
                ));
            }
            let aid = match ns.action_index_by_name(&doc.action_plans[p].items[k].action_name) {
                Some(a) => {
                    proof {
                        lemma_registry_idx(registry, a as int);
                    }
                    ns.actions[a].id
                },
                None => {
                    proof {
                        assert(false);
                    }
                    return Err(StoreError::Internal);
                },
            };
            let iid = match crate::items::fresh_plan_item_id(&ns, &items) {
                None => {
                    proof {
                        assert(doc.action_plans@[p as int].items@.len() > 0);
                        assert(doc_has_item_rows(*doc));
                    }
                    return Err(StoreError::Internal);
                },
                Some(v) => v,
            };
            items.push(PlanItem { id: iid, action_id: aid });
        }
        ns.plans.push(
            Plan {
                id: doc.action_plans[p].id,
                name: doc.action_plans[p].name.clone(),
                deleted_at: doc.action_plans[p].deleted_at,
                items,
            },
        );
        proof {
            assert(ns.plans@.take(pre_ns.plans@.len() as int) =~= pre_ns.plans@);
            assert(!pre_ns.has_plan_id(ns.plans@.last().id)) by {
                if pre_ns.has_plan_id(ns.plans@.last().id) {
                    let q = choose|q: int|
                        0 <= q < pre_ns.plans@.len() && (#[trigger] pre_ns.plans@[q]).id
                            == ns.plans@.last().id;
                    assert(doc.action_plans@[q].id == doc.action_plans@[p as int].id);
                }
            }
            assert forall|k: int|
                0 <= k < ns.plans@.last().items@.len() implies pre_ns.has_action_id(
                (#[trigger] ns.plans@.last().items@[k]).action_id,
            ) by {
                assert(registry_has_id(registry, ns.plans@.last().items@[k].action_id));
                let i = choose|i: int|
                    0 <= i < registry.len() && (#[trigger] registry[i]).id
                        == ns.plans@.last().items@[k].action_id;
                assert(pre_ns.actions@[i].id == ns.plans@.last().items@[k].action_id);
            }
            lemma_import_plan_push(pre_ns, ns);
            assert forall|q: int| 0 <= q < ns.plans@.len() implies reg_plan_matches(
                registry,
                #[trigger] ns.plans@[q],
                doc.action_plans@[q],
            ) by {
                if q < pre_ns.plans@.len() {
                    assert(ns.plans@[q] == pre_ns.plans@[q]);
                } else {
                    assert(ns.plans@[q] == ns.plans@.last());
                }
            }
        }
    }
    // build the executions against the settled registry
    for e in 0..ne
        invariant
            valid_backup(*doc),
            np == doc.action_plans@.len(),
            ne == doc.action_plan_executions@.len(),
            ns.wf(),
            ns.actions@ == registry,
            forall|i: int|
                0 <= i < ns.actions@.len() ==> doc_mentions_name(
                    *doc,
                    (#[trigger] ns.actions@[i]).name@,
                ),
            ns.plans@.len() == np,
            forall|q: int|
                0 <= q < np ==> (#[trigger] ns.plans@[q]).id == doc.action_plans@[q].id,
            forall|q: int|
                0 <= q < np ==> reg_plan_matches(
                    registry,
                    #[trigger] ns.plans@[q],
                    doc.action_plans@[q],
                ),
            forall|e2: int, k2: int|
                0 <= e2 < ne && 0 <= k2 < doc.action_plan_executions@[e2].items@.len()
                    ==> ns.has_action_name(
                    (#[trigger] doc.action_plan_executions@[e2].items@[k2]).action_name@,
                ),
            ns.executions@.len() == e,
            forall|q: int|
                0 <= q < e ==> (#[trigger] ns.executions@[q]).id
                    == doc.action_plan_executions@[q].id,
            forall|q: int|
                0 <= q < e ==> reg_exec_matches(
                    registry,
                    #[trigger] ns.executions@[q],
                    doc.action_plan_executions@[q],
                ),
    {
        let ghost pre_ns = ns;
        let ni = doc.action_plan_executions[e].items.len();
        let mut items: Vec<ExecutionItem> = Vec::new();
        for k in 0..ni
            invariant
                valid_backup(*doc),
                ne == doc.action_plan_executions@.len(),
                e < ne,
                ni == doc.action_plan_executions@[e as int].items@.len(),
                ns == pre_ns,
                ns.wf(),
                ns.actions@ == registry,
                forall|e2: int, k2: int|
                    0 <= e2 < ne && 0 <= k2 < doc.action_plan_executions@[e2].items@.len()
                        ==> ns.has_action_name(
                        (#[trigger] doc.action_plan_executions@[e2].items@[k2]).action_name@,
                    ),
                items@.len() == k,
                forall|j: int|
                    0 <= j < k ==> registry_has_id(registry, (#[trigger] items@[j]).action_id)
                        && registry_name_of(registry, items@[j].action_id)
                        == doc.action_plan_executions@[e as int].items@[j].action_name@
                        && items@[j].finished
                        == doc.action_plan_executions@[e as int].items@[j].finished,
                forall|j: int| 0 <= j < k ==> !ns.has_execution_item_id(
                    (#[trigger] items@[j]).id,
                ),
                forall|j1: int, j2: int|
                    0 <= j1 < j2 < k ==> (#[trigger] items@[j1]).id != (#[trigger] items@[j2]).id,
        {
            proof {
                assert(ns.has_action_name(
                    doc.action_plan_executions@[e as int].items@[k as int].action_name@,
                ));
            }
            let aid = match ns.action_index_by_name(
                &doc.action_plan_executions[e].items[k].action_name,
            ) {
                Some(a) => {
                    proof {
                        lemma_registry_idx(registry, a as int);
                    }
                    ns.actions[a].id
                },
                None => {
                    proof {
                        assert(false);
                    }
                    return Err(StoreError::Internal);
                },
            };
            let iid = match fresh_execution_item_id(&ns, &items) {
                None => {
                    proof {
                        assert(doc.action_plan_executions@[e as int].items@.len() > 0);
                        assert(doc_has_item_rows(*doc));
                    }
                    return Err(StoreError::Internal);
                },
                Some(v) => v,
            };
            items.push(
                ExecutionItem {
                    id: iid,
                    action_id: aid,
                    finished: doc.action_plan_executions[e].items[k].finished,
                },
            );
        }
        ns.executions.push(
            Execution {
                id: doc.action_plan_executions[e].id,
                plan_id: doc.action_plan_executions[e].action_plan,
                started: doc.action_plan_executions[e].started,
                finished: doc.action_plan_executions[e].finished,
                items,
            },
        );
        proof {
            assert(ns.executions@.take(pre_ns.executions@.len() as int) =~= pre_ns.executions@);
            assert(!pre_ns.has_execution_id(ns.executions@.last().id)) by {
                if pre_ns.has_execution_id(ns.executions@.last().id) {
                    let q = choose|q: int|
                        0 <= q < pre_ns.executions@.len() && (#[trigger] pre_ns.executions@[q]).id
                            == ns.executions@.last().id;
                    assert(doc.action_plan_executions@[q].id
                        == doc.action_plan_executions@[e as int].id);
                }
            }
            assert(pre_ns.has_plan_id(ns.executions@.last().plan_id)) by {
                assert(doc_has_plan_id(*doc, doc.action_plan_executions@[e as int].action_plan));
                let q = choose|q: int|
                    0 <= q < doc.action_plans@.len() && (#[trigger] doc.action_plans@[q]).id
                        == doc.action_plan_executions@[e as int].action_plan;
                assert(pre_ns.plans@[q].id == doc.action_plans@[q].id);
            }
            assert forall|k: int|
                0 <= k < ns.executions@.last().items@.len() implies pre_ns.has_action_id(
                (#[trigger] ns.executions@.last().items@[k]).action_id,
            ) by {
                assert(registry_has_id(registry, ns.executions@.last().items@[k].action_id));
                let i = choose|i: int|
                    0 <= i < registry.len() && (#[trigger] registry[i]).id
                        == ns.executions@.last().items@[k].action_id;
                assert(pre_ns.actions@[i].id == ns.executions@.last().items@[k].action_id);
            }
            crate::executions::lemma_commit_execution_push(pre_ns, ns);
            assert forall|q: int| 0 <= q < ns.executions@.len() implies reg_exec_matches(
                registry,
                #[trigger] ns.executions@[q],
                doc.action_plan_executions@[q],
            ) by {
                if q < pre_ns.executions@.len() {
                    assert(ns.executions@[q] == pre_ns.executions@[q]);
                } else {
                    assert(ns.executions@[q] == ns.executions@.last());
                }
            }
        }
    }
    proof {
        // registry-level readings become store-level readings
        assert forall|a: int, b: int|
            0 <= a < b < registry.len() implies (#[trigger] registry[a]).id != (
        #[trigger] registry[b]).id by {
            assert(ns.actions@[a].id != ns.actions@[b].id);
        }
        assert forall|p: int| 0 <= p < doc.action_plans@.len() implies imported_plan_matches(
            ns,
            #[trigger] ns.plans@[p],
            doc.action_plans@[p],
        ) by {
            assert(reg_plan_matches(registry, ns.plans@[p], doc.action_plans@[p]));
            assert forall|k: int|
                0 <= k < ns.plans@[p].items@.len() implies ns.action_name_of(
                (#[trigger] ns.plans@[p].items@[k]).action_id,
            ) == doc.action_plans@[p].items@[k].action_name@ by {
                let aid = ns.plans@[p].items@[k].action_id;
                assert(registry_has_id(registry, aid));
                let i = choose|i: int|
                    0 <= i < registry.len() && (#[trigger] registry[i]).id == aid;
                lemma_registry_idx(registry, i);
                ns.lemma_action_idx_of_id(i);
            }
        }
        assert forall|e: int|
            0 <= e < doc.action_plan_executions@.len() implies imported_exec_matches(
            ns,
            #[trigger] ns.executions@[e],
            doc.action_plan_executions@[e],
        ) by {
            assert(reg_exec_matches(registry, ns.executions@[e], doc.action_plan_executions@[e]));
            assert forall|k: int|
                0 <= k < ns.executions@[e].items@.len() implies ns.action_name_of(
                (#[trigger] ns.executions@[e].items@[k]).action_id,
            ) == doc.action_plan_executions@[e].items@[k].action_name@ by {
                let aid = ns.executions@[e].items@[k].action_id;
                assert(registry_has_id(registry, aid));
                let i = choose|i: int|
                    0 <= i < registry.len() && (#[trigger] registry[i]).id == aid;
                lemma_registry_idx(registry, i);
                ns.lemma_action_idx_of_id(i);
            }
        }
        // the registry holds exactly the mentioned names
        assert forall|n: Seq<char>| #[trigger] ns.has_action_name(n) implies doc_mentions_name(
            *doc,
            n,
        ) by {
            let i = choose|i: int|
                0 <= i < ns.actions@.len() && (#[trigger] ns.actions@[i]).name@ == n;
            assert(doc_mentions_name(*doc, ns.actions@[i].name@));
        }
        assert forall|n: Seq<char>| doc_mentions_name(*doc, n) implies ns.has_action_name(
            n,
        ) by {
            if exists|p: int, k: int|
                0 <= p < doc.action_plans@.len() && 0 <= k < doc.action_plans@[p].items@.len()
                    && (#[trigger] doc.action_plans@[p].items@[k]).action_name@ == n {
                let (p, k) = choose|p: int, k: int|
                    0 <= p < doc.action_plans@.len() && 0 <= k
                        < doc.action_plans@[p].items@.len() && (
                    #[trigger] doc.action_plans@[p].items@[k]).action_name@ == n;
                assert(ns.has_action_name(doc.action_plans@[p].items@[k].action_name@));
            } else {
                let (e, k) = choose|e: int, k: int|
                    0 <= e < doc.action_plan_executions@.len() && 0 <= k
                        < doc.action_plan_executions@[e].items@.len() && (
                    #[trigger] doc.action_plan_executions@[e].items@[k]).action_name@ == n;
                assert(ns.has_action_name(
                    doc.action_plan_executions@[e].items@[k].action_name@,
                ));
            }
        }
    }
    Ok(ns)
}

/// One `ensure_action` step of registry collection keeps every invariant of
/// the collection loops: names already present stay present, and every
/// registry row still carries a mentioned name provided the added one is
/// mentioned.
proof fn lemma_collect_step(pre: Store, post: Store, doc: BackupFile)
    requires
        post.plans == pre.plans,
        post.executions == pre.executions,
        post.actions@.len() >= pre.actions@.len(),
        post.actions@.len() <= pre.actions@.len() + 1,
        post.actions@.take(pre.actions@.len() as int) == pre.actions@,
        forall|i: int|
            0 <= i < pre.actions@.len() ==> doc_mentions_name(
                doc,
                (#[trigger] pre.actions@[i]).name@,
            ),
        post.actions@.len() > pre.actions@.len() ==> doc_mentions_name(
            doc,
            post.actions@.last().name@,
        ),
    ensures
        forall|i: int|
            0 <= i < post.actions@.len() ==> doc_mentions_name(
                doc,
                (#[trigger] post.actions@[i]).name@,
            ),
        forall|n: Seq<char>| pre.has_action_name(n) ==> #[trigger] post.has_action_name(n),
{
    assert forall|i: int| 0 <= i < post.actions@.len() implies doc_mentions_name(
        doc,
        (#[trigger] post.actions@[i]).name@,
    ) by {
        if i < pre.actions@.len() {
            assert(post.actions@.take(pre.actions@.len() as int)[i] == post.actions@[i]);
            assert(post.actions@[i] == pre.actions@[i]);
        } else {
            assert(post.actions@[i] == post.actions@.last());
        }
    }
    assert forall|n: Seq<char>| pre.has_action_name(n) implies #[trigger] post.has_action_name(
        n,
    ) by {
        lemma_has_action_name_monotone(pre, post, n);
    }
}


/// Membership carries across equal multisets.
proof fn lemma_contains_of_multiset<A>(a: Seq<A>, b: Seq<A>, x: A)
    requires
        a.to_multiset() == b.to_multiset(),
        a.contains(x),
    ensures
        b.contains(x),
{
    a.to_multiset_ensures();
    b.to_multiset_ensures();
    assert(a.to_multiset().count(x) > 0);
    assert(b.to_multiset().count(x) > 0);
}

/// A permutation of rows with pairwise distinct ids has pairwise distinct
/// ids itself.
proof fn lemma_perm_distinct_ids<A>(a: Seq<A>, b: Seq<A>, idof: spec_fn(A) -> u128)
    requires
        a.to_multiset() == b.to_multiset(),
        forall|i: int, j: int| 0 <= i < j < b.len() ==> idof(#[trigger] b[i]) != idof(
            #[trigger] b[j],
        ),
    ensures
        forall|i: int, j: int| 0 <= i < j < a.len() ==> idof(#[trigger] a[i]) != idof(
            #[trigger] a[j],
        ),
{
    a.to_multiset_ensures();
    b.to_multiset_ensures();
    assert forall|i: int, j: int| 0 <= i < j < a.len() implies idof(#[trigger] a[i]) != idof(
        #[trigger] a[j],
    ) by {
        if idof(a[i]) == idof(a[j]) {
            if a[i] == a[j] {
                assert(b.no_duplicates()) by {
                    assert forall|x: int, y: int|
                        0 <= x < b.len() && 0 <= y < b.len() && x != y implies b[x] != b[y] by {
                        if b[x] == b[y] {
                            if x < y {
                                assert(idof(b[x]) != idof(b[y]));
                            } else {
                                assert(idof(b[y]) != idof(b[x]));
                            }
                        }
                    }
                }
                b.lemma_multiset_has_no_duplicates();
                a.lemma_multiset_has_no_duplicates_conv();
                assert(a[i] != a[j]);
            } else {
                assert(a.contains(a[i]) && a.contains(a[j]));
                lemma_contains_of_multiset(a, b, a[i]);
                lemma_contains_of_multiset(a, b, a[j]);
                let bi = choose|t: int| 0 <= t < b.len() && b[t] == a[i];
                let bj = choose|t: int| 0 <= t < b.len() && b[t] == a[j];
                assert(bi != bj);
                if bi < bj {
                    assert(idof(b[bi]) != idof(b[bj]));
                } else {
                    assert(idof(b[bj]) != idof(b[bi]));
                }
            }
        }
    }
}

/// Law: a snapshot round-trip restores the store. Exporting a well-formed
/// store yields a document that import accepts, and importing it (into any
/// store) rebuilds plans, items, executions and actions that read exactly
/// as the document does — the same readings as the original store, up to
/// the document's sort order and freshly drawn internal ids.
pub proof fn lemma_snapshot_round_trip(
    s: Store,
    exported_at: i64,
    doc: BackupFile,
    restored: Store,
)
    requires
        s.wf(),
        export_post(s, exported_at, doc),
        import_ok_post(doc, restored),
    ensures
        valid_backup(doc),
        store_plan_models(restored) == doc_plan_models(doc),
        store_exec_models(restored) == doc_exec_models(doc),
        store_plan_models(restored).to_multiset() == store_plan_models(s).to_multiset(),
        store_exec_models(restored).to_multiset() == store_exec_models(s).to_multiset(),
{
    let pm = doc_plan_models(doc);
    let em = doc_exec_models(doc);
    let spm = store_plan_models(s);
    let sem = store_exec_models(s);
    // the document inherits unique plan and execution ids from the store
    assert forall|i: int, j: int| 0 <= i < j < spm.len() implies (|m: PlanSnap| m.0)(
        #[trigger] spm[i],
    ) != (|m: PlanSnap| m.0)(#[trigger] spm[j]) by {
        assert(spm[i] == store_plan_model(s, s.plans@[i]));
        assert(spm[j] == store_plan_model(s, s.plans@[j]));
        assert(s.plans@[i].id != s.plans@[j].id);
    }
    lemma_perm_distinct_ids(pm, spm, |m: PlanSnap| m.0);
    assert forall|i: int, j: int| 0 <= i < j < doc.action_plans@.len() implies (
    #[trigger] doc.action_plans@[i]).id != (#[trigger] doc.action_plans@[j]).id by {
        assert(pm[i] == plan_model(doc.action_plans@[i]));
        assert(pm[j] == plan_model(doc.action_plans@[j]));
        assert((|m: PlanSnap| m.0)(pm[i]) != (|m: PlanSnap| m.0)(pm[j]));
    }
    assert forall|i: int, j: int| 0 <= i < j < sem.len() implies (|m: ExecSnap| m.0)(
        #[trigger] sem[i],
    ) != (|m: ExecSnap| m.0)(#[trigger] sem[j]) by {
        assert(sem[i] == store_exec_model(s, s.executions@[i]));
        assert(sem[j] == store_exec_model(s, s.executions@[j]));
        assert(s.executions@[i].id != s.executions@[j].id);
    }
    lemma_perm_distinct_ids(em, sem, |m: ExecSnap| m.0);
    assert forall|i: int, j: int|
        0 <= i < j < doc.action_plan_executions@.len() implies (
    #[trigger] doc.action_plan_executions@[i]).id != (
    #[trigger] doc.action_plan_executions@[j]).id by {
        assert(em[i] == exec_model(doc.action_plan_executions@[i]));
        assert(em[j] == exec_model(doc.action_plan_executions@[j]));
        assert((|m: ExecSnap| m.0)(em[i]) != (|m: ExecSnap| m.0)(em[j]));
    }
    // every document plan lists its items densely, because some store plan
    // has the same reading
    assert forall|p: int| 0 <= p < doc.action_plans@.len() implies plan_items_dense(
        #[trigger] doc.action_plans@[p],
    ) by {
        assert(pm[p] == plan_model(doc.action_plans@[p]));
        assert(pm.contains(pm[p]));
        lemma_contains_of_multiset(pm, spm, pm[p]);
        let q = choose|q: int| 0 <= q < spm.len() && spm[q] == pm[p];
        assert(spm[q] == store_plan_model(s, s.plans@[q]));
        let bp = doc.action_plans@[p];
        assert(plan_model(bp).3.len() == bp.items@.len());
        assert(store_plan_model(s, s.plans@[q]).3.len() == s.plans@[q].items@.len());
        assert(bp.items@.len() == s.plans@[q].items@.len());
        assert forall|k: int| 0 <= k < bp.items@.len() implies (
        #[trigger] bp.items@[k]).order_index as int == k by {
            assert(plan_model(bp).3[k] == plan_item_model(bp.items@[k]));
            assert(store_plan_model(s, s.plans@[q]).3[k] == (
                k,
                s.action_name_of(s.plans@[q].items@[k].action_id),
            ));
        }
    }
    assert forall|e: int| 0 <= e < doc.action_plan_executions@.len() implies exec_items_dense(
        #[trigger] doc.action_plan_executions@[e],
    ) by {
        assert(em[e] == exec_model(doc.action_plan_executions@[e]));
        assert(em.contains(em[e]));
        lemma_contains_of_multiset(em, sem, em[e]);
        let q = choose|q: int| 0 <= q < sem.len() && sem[q] == em[e];
        assert(sem[q] == store_exec_model(s, s.executions@[q]));
        let be = doc.action_plan_executions@[e];
        assert(exec_model(be).4.len() == be.items@.len());
        assert(store_exec_model(s, s.executions@[q]).4.len() == s.executions@[q].items@.len());
        assert(be.items@.len() == s.executions@[q].items@.len());
        assert forall|k: int| 0 <= k < be.items@.len() implies (
        #[trigger] be.items@[k]).order_index as int == k by {
            assert(exec_model(be).4[k] == exec_item_model(be.items@[k]));
            assert(store_exec_model(s, s.executions@[q]).4[k] == (
                k,
                s.action_name_of(s.executions@[q].items@[k].action_id),
                s.executions@[q].items@[k].finished,
            ));
        }
    }
    // every document execution points at a plan of the document, because
    // the corresponding store execution pointed at a store plan
    assert forall|e: int| 0 <= e < doc.action_plan_executions@.len() implies doc_has_plan_id(
        doc,
        (#[trigger] doc.action_plan_executions@[e]).action_plan,
    ) by {
        let pid = doc.action_plan_executions@[e].action_plan;
        assert(em[e] == exec_model(doc.action_plan_executions@[e]));
        assert(em.contains(em[e]));
        lemma_contains_of_multiset(em, sem, em[e]);
        let f = choose|f: int| 0 <= f < sem.len() && sem[f] == em[e];
        assert(sem[f] == store_exec_model(s, s.executions@[f]));
        assert(s.executions@[f].plan_id == pid);
        assert(s.has_plan_id(pid));
        let q = choose|q: int| 0 <= q < s.plans@.len() && (#[trigger] s.plans@[q]).id == pid;
        assert(spm[q] == store_plan_model(s, s.plans@[q]));
        assert(spm.contains(spm[q]));
        lemma_contains_of_multiset(spm, pm, spm[q]);
        let d = choose|d: int| 0 <= d < pm.len() && pm[d] == spm[q];
        assert(pm[d] == plan_model(doc.action_plans@[d]));
        assert(doc.action_plans@[d].id == pid);
    }
    assert(valid_backup(doc));
    // the restored store reads exactly as the document
    assert forall|p: int|
        0 <= p < doc.action_plans@.len() implies #[trigger] store_plan_models(restored)[p]
        == doc_plan_models(doc)[p] by {
        let pl = restored.plans@[p];
        let bp = doc.action_plans@[p];
        assert(imported_plan_matches(restored, pl, bp));
        assert(store_plan_models(restored)[p] == store_plan_model(restored, pl));
        assert(doc_plan_models(doc)[p] == plan_model(bp));
        assert(store_plan_model(restored, pl).3 =~= plan_model(bp).3) by {
            assert forall|k: int|
                0 <= k < pl.items@.len() implies store_plan_model(restored, pl).3[k]
                == plan_model(bp).3[k] by {
                assert(plan_model(bp).3[k] == plan_item_model(bp.items@[k]));
                assert(bp.items@[k].order_index as int == k);
                assert(restored.action_name_of(pl.items@[k].action_id)
                    == bp.items@[k].action_name@);
            }
        }
    }
    assert(store_plan_models(restored) =~= doc_plan_models(doc));
    assert forall|e: int|
        0 <= e < doc.action_plan_executions@.len() implies #[trigger] store_exec_models(
        restored,
    )[e] == doc_exec_models(doc)[e] by {
        let ex = restored.executions@[e];
        let be = doc.action_plan_executions@[e];
        assert(imported_exec_matches(restored, ex, be));
        assert(store_exec_models(restored)[e] == store_exec_model(restored, ex));
        assert(doc_exec_models(doc)[e] == exec_model(be));
        assert(store_exec_model(restored, ex).4 =~= exec_model(be).4) by {
            assert forall|k: int|
                0 <= k < ex.items@.len() implies store_exec_model(restored, ex).4[k]
                == exec_model(be).4[k] by {
                assert(exec_model(be).4[k] == exec_item_model(be.items@[k]));
                assert(be.items@[k].order_index as int == k);
                assert(restored.action_name_of(ex.items@[k].action_id)
                    == be.items@[k].action_name@);
                assert(ex.items@[k].finished == be.items@[k].finished);
            }
        }
    }
    assert(store_exec_models(restored) =~= doc_exec_models(doc));
}

/// Law: a document holding two plans with one id is rejected with
/// `Validation`, and no row is deleted or inserted.
pub proof fn lemma_duplicate_plan_id_rejected(
    pre: Store,
    post: Store,
    doc: BackupFile,
    r: Result<(usize, usize), StoreError>,
    i: int,
    j: int,
)
    requires
        import_post(pre, post, doc, r),
        0 <= i < j < doc.action_plans@.len(),
        doc.action_plans@[i].id == doc.action_plans@[j].id,
    ensures
        r == Err::<(usize, usize), StoreError>(StoreError::Validation),
        post == pre,
{
    assert(!valid_backup(doc));
}

} // verus!
