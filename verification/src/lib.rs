//! The verified core of a future-aware threadpool: the present bitfield and its status bits,
//! the task channels, the layout of a pool's priority levels, and the decisions that worker
//! threads, notification callbacks and the event scheduler make.
pub mod bits;
pub mod channel;
pub mod moment;
pub mod ordered;
pub mod pool;
pub mod prelude;
pub mod push;
pub mod run;
pub mod scheduler;
pub mod scoped;
pub mod shared;
pub mod status;
pub mod task;
