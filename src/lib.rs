//! Discovering pending package updates and applying them, one package at a time or all at once.
//!
//! - `scan` reads the output of the pending-updates scan;
//! - `job` describes the outside commands and classifies how they ended;
//! - `update_row` is one pending update and its install control;
//! - `window` owns the list, the status line and the upgrade of everything, and decides what
//!   each click and each job outcome does to them.
pub mod job;
pub mod scan;
pub mod update_row;
pub mod window;
