//! The mining settings the user is asked for: how many tasks run in
//! parallel, how many threads each uses, and whether the RPC node is chosen
//! automatically.

use vstd::prelude::*;
use crate::dashboard::AppConfig;

verus! {

/// The most mining tasks that may run in parallel.
pub const MAX_PARALLEL_TASKS: usize = 10;

/// Whether a thread count per task is accepted: at least one, and at most
/// twice the number of CPUs.
pub fn thread_count_valid(input: usize, cpu_count: usize) -> (valid: bool)
    ensures
        valid == (0 < input && input <= 2 * cpu_count),
{
    let limit: u128 = (cpu_count as u128) * 2;
    0 < input && (input as u128) <= limit
}

/// Whether a number of parallel tasks is accepted: one to ten.
pub fn task_count_valid(input: usize) -> (valid: bool)
    ensures
        valid == (0 < input && input <= MAX_PARALLEL_TASKS),
{
    0 < input && input <= MAX_PARALLEL_TASKS
}

/// The entry preselected in the node-choice menu, whose first entry is
/// "automatic" and second "manual": the current setting.
pub fn rpc_choice_default(auto_select_rpc: bool) -> (index: usize)
    ensures
        index == (if auto_select_rpc { 0usize } else { 1usize }),
{
    if auto_select_rpc {
        0
    } else {
        1
    }
}

/// Takes the answers of the settings dialog into `config`: the task and
/// thread counts, and automatic node choice when the first menu entry was
/// picked.
pub fn apply_mining_settings(config: &mut AppConfig, task_count: usize, thread_count: usize, rpc_choice: usize)
    ensures
        *final(config) == (AppConfig {
            task_count: task_count,
            thread_count: thread_count,
            auto_select_rpc: rpc_choice == 0,
            ..*old(config)
        }),
{
    config.task_count = task_count;
    config.thread_count = thread_count;
    config.auto_select_rpc = rpc_choice == 0;
}

} // verus!
