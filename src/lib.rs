//! A small multi-CPU cooperative scheduler: per-CPU FIFO run queues, an idle
//! fallback task on every CPU, and a driver that steps the CPUs round-robin.

pub mod cpu;
pub mod laws;
pub mod scheduler;
pub mod task;
