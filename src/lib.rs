//! A small distributed batch-job scheduler: the scheduler's state machine,
//! the worker's bookkeeping and supervision decisions, the core-mask
//! allocator, the cgroup driver, the batch-comment parsers, the wire codec,
//! the rows of the job store, what the clients display, and the daemon's settings.

pub mod cgroups;
pub mod core_mask;
pub mod display;
pub mod model;
pub mod parse;
pub mod scheduler;
pub mod settings;
pub mod store;
pub mod text;
pub mod wire;
pub mod worker;
