//! Scheduling logic for running an indexed parallel computation block by block.
//!
//! The library decides how an input of known length is cut into consecutive
//! blocks (by a stream of requested sizes, or adaptively against a time
//! budget), how a block is halved for work stealing, and which reduction
//! combines two partial results.
pub mod producer;
pub mod schedule;
pub mod deadline;
pub mod two_levels;
pub mod list;
