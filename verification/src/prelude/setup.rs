//! Imports for configuring a pool behavior.
pub use crate::channel::{
    BitAssigner, Channel, Exec, ExecParam, MultiChannel, NotEnoughBits, ShortestDeadlineFirst,
    VecDequeChannel,
};
pub use crate::pool::{
    ChannelParams, OwnedPool, Pool, PoolBehavior, PoolConfig, PriorityLevel, ScheduleAlgorithm,
};
pub use crate::run::{run, try_run};
pub use crate::scheduler::Scheduler;
pub use crate::scoped::Scope;
pub use crate::task::RunningTask;
