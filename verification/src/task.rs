//! Kernel tasks.

pub mod print_queue;
