//! A pipeline scheduler: cron-like intervals, run-state locking and stage sequencing.
pub mod calendar;
pub mod error;
pub mod executor;
pub mod expression;
pub mod interval;
pub mod pipeline;
pub mod scheduler;
pub mod state;
