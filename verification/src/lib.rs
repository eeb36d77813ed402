//! Building blocks for comparing concurrency strategies on a CPU-bound
//! workload: the workload itself, data-parallel runs of it, a round-robin
//! worker pool with bounded queues, and schedulers that keep a bounded or an
//! unbounded number of operations in flight.

pub mod dispatch;
pub mod parallel;
pub mod pool;
pub mod scheduler;
pub mod workers;
pub mod workload;

pub use crate::parallel::{rayon_par_iter, rayon_scope};
pub use crate::workload::{do_something, fibonacci};
