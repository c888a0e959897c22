//! The verified core of a work-stealing thread pool: hardware topology,
//! worker placement plans, stealing plans, the job scheduler, pool
//! configuration and errors, and the splitting of parallel sources.

pub mod builder;
pub mod error;
pub mod external;
pub mod iter;
pub mod job;
pub mod layout;
pub mod panics;
pub mod scheduler;
pub mod steal;
pub mod storage;
pub mod text;
pub mod topology;

pub use builder::ThreadPoolBuilder;
pub use error::{AffinityError, BuildError};
pub use job::{IntoJob, Job, Priority};
pub use layout::{WorkerLayout, WorkerPlacement};
pub use steal::StealStats;
pub use storage::local::WorkerLocalError;
