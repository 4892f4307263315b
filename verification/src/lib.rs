//! A generational index table: compact, copyable handles ("tiny pointers")
//! stand in for full machine references, and per-slot generation counters
//! detect any use of a handle whose slot has since been freed or reused.

pub mod dynamic_table;
