//! Operating-system simulations with machine-checked contracts.
//!
//! The core is a partitioned address space (`area`): one range of addresses
//! tiled by free and used blocks (`block`), with placement strategies
//! (`algos`), coalescing on release, and compaction. `layout` holds the
//! invariant, `steps` the moves on lists of blocks with the proofs that they
//! keep it, and `laws` what follows for every address space. `cmd`,
//! `simulation` and `mem` read scripts of commands and run them.
//!
//! Beside it stand disk-head scheduling (`disk`), and the counters, queue
//! and process states of the thread exercises (`sem`, `cq`, `process`).

pub mod algos;
pub mod area;
pub mod block;
pub mod cmd;
pub mod cq;
pub mod disk;
pub mod laws;
pub mod layout;
pub mod mem;
pub mod process;
pub mod sem;
pub mod simulation;
pub mod sort;
pub mod steps;
pub mod text;
