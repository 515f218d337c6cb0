//! A verified engine for recurring maintenance checklists. Plans are named,
//! ordered templates of reusable actions; executions are live checklist runs
//! spawned from a plan. The engine keeps templates, in-flight runs and the
//! shared action registry mutually consistent: template edits reconcile a
//! running checklist by action name, the run lifecycle is a time-gated state
//! machine, unreferenced actions are swept away, and the whole store round-
//! trips through one versioned snapshot document. Every operation is atomic
//! on its `Store` value and carries a contract that Verus has checked.

pub mod backup;
pub mod clock;
pub mod error;
pub mod executions;
pub mod ids;
pub mod items;
pub mod listing;
pub mod model;
pub mod order;
pub mod plans;
pub mod reconcile;
pub mod registry;
pub mod text;

pub use backup::{BackupActionPlan, BackupExecution, BackupExecutionItem, BackupFile,
    BackupNotice, BackupPlanItem};
pub use clock::{format_unix_timestamp, unix_now};
pub use error::StoreError;
pub use executions::{SetItemFinishedRequest, SetItemFinishedResponse};
pub use listing::{ActionPlanExecutionShow, ActionPlanItem, ActionPlanListItem,
    ActionPlanListQuery, ActionPlanShow, ExecutionItemView, FinishedExecutionListItem,
    PlanExecutionActive, PlanExecutionFinished, UnfinishedExecutionListItem};
pub use plans::ActionPlanForm;
pub use text::normalize_items;
pub use model::{Action, Execution, ExecutionItem, Plan, PlanItem, Store};
