//! A cooperative task scheduler with fixed capacity.

pub mod handler;
pub mod laws;
pub mod tables;
pub mod task;
pub mod ticks;

pub use handler::TaskHandler;
pub use tables::{MAX_ONE_OFF_TASKS, MAX_PERIODIC_TASKS};
