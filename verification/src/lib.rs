//! Scheduling and deadlock-avoidance logic of a small teaching kernel.
pub mod config;
pub mod dead_detect;
pub mod dead_detect_model;
pub mod manager;
pub mod syscall;
pub mod task;
pub mod task_order;
