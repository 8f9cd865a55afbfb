//! The core of a task scheduler for several nodes: task definitions and
//! their dependency graph, the planning of schedule ticks, the life cycle
//! of scheduled instances with retries and timeouts, the execution log,
//! and a store that keeps all of it consistent.
//!
//! The engine runs no task itself and talks to no database: it decides
//! what is due, what may run and what follows from each claim, report and
//! timeout, on values that its caller hands in.

pub mod config;
pub mod cron;
pub mod engine;
pub mod error;
pub mod filters;
pub mod graph;
pub mod laws;
pub mod lifecycle;
pub mod logfile;
pub mod planner;
pub mod resolver;
pub mod store;
pub mod types;
