//! The benchmark's parameters: how many messages each process handles, how much
//! load it generates, and how often it reports progress.
use vstd::prelude::*;

verus! {

/// A process prints a progress line whenever its count is a multiple of this.
pub const REPORT_INTERVAL: usize = 100;

/// A cooperative load yields to the scheduler before every cycle whose index is
/// a multiple of this.
pub const YIELD_INTERVAL: usize = 100;

/// Messages that the master of the thread version waits for.
pub const THREAD_MASTER_TARGET: usize = 1000;

/// Messages that the client of the thread version sends.
pub const THREAD_CLIENT_MESSAGES: usize = 1000;

/// Load cycles that the client of the thread version runs before each send.
pub const THREAD_CLIENT_CYCLES: usize = 1000;

/// Replies that the master of the task version handles before it stops.
pub const TASK_MASTER_TARGET: usize = 2000;

/// Messages that the handler of the task version waits for.
pub const TASK_HANDLER_TARGET: usize = 2000;

/// Messages that each client of the task version sends.
pub const TASK_CLIENT_MESSAGES: usize = 1000;

/// Load cycles that a client of the task version runs before each send.
pub const TASK_CLIENT_CYCLES: usize = 2000;

/// Rounds that a background load task runs.
pub const LOAD_TASK_ROUNDS: usize = 2000;

/// Load cycles in each round of a background load task.
pub const LOAD_TASK_CYCLES: usize = 1000;

/// Capacity of the channel from the master to the handler.
pub const HANDLER_CHANNEL_CAPACITY: usize = 1;

/// Capacity of the channel from the first client to the master.
pub const FIRST_CLIENT_CHANNEL_CAPACITY: usize = 32;

/// Capacity of the channel from the second client to the master.
pub const SECOND_CLIENT_CHANNEL_CAPACITY: usize = 1;

} // verus!
