//! Decision logic of a channel latency benchmark: the state machines that the
//! master, handler, client and load tasks follow, and the delay statistics
//! that they report.
pub mod stats;
pub mod plan;
pub mod rounds;
pub mod load;
pub mod delay_log;
