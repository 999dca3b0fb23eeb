//! General purpose imports for using the smartpool system.
pub mod setup;

pub use crate::channel::{Exec, ExecParam};
pub use crate::pool::{OwnedPool, Pool};
pub use crate::run::{run, try_run};
pub use crate::scheduler::Scheduler;
pub use crate::scoped::Scope;
