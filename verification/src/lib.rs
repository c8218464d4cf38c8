//! A single-host batch job scheduler core.
//!
//! The library holds the decision logic of the scheduler: the resource
//! opinion rule table, the tick state machine over the todo stack and the
//! running set, the process-tree closure computation, the job-list and
//! process-table parsing, and the termination escalation tables. The
//! surrounding binary performs the process and file system work and feeds
//! the observed events back into these functions.
use vstd::prelude::*;

pub mod lifecycle;
pub mod sched;
pub mod task;
pub mod text;
pub mod tree;
