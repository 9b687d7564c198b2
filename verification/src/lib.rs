//! Bump arenas carved out of one shared buffer, and the benchmark that compares
//! them with other allocators.

pub mod align;
pub mod arena;
pub mod arena_string;
pub mod arena_table;
pub mod arena_vec;
pub mod bump;
pub mod bumpalo_table;
pub mod cores;
pub mod heap;
pub mod item;
pub mod memory;
pub mod platform;
pub mod schedule;
pub mod sizing;
pub mod stats;
pub mod words;
pub mod workload;
