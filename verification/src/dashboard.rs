//! The state shown on the mining dashboard: configuration, wallet and
//! contract figures, the task list, counters, timing statistics, the log
//! and the measured RPC response times.
//!
//! Figures that are floating-point numbers (balances, hash rates, average
//! durations) are held as the bit patterns of `f64` values (`f64::to_bits`):
//! the library stores and moves them and never computes with them.

use vstd::prelude::*;
use std::collections::VecDeque;
use crate::u256::{Address, U256};
use crate::text::{contains_text, occurs_at, seq_contains, text_eq};

verus! {

/// `chrono::Local::now`, as milliseconds since the Unix epoch
/// (`DateTime::timestamp_millis`).
#[verifier::external_body]
fn now_millis() -> i64 {
    chrono::Local::now().timestamp_millis()
}

/// `num_cpus::get`: the number of CPUs available to the process, which its
/// documentation promises is at least one; which number it is depends on
/// the machine.
#[verifier::external_body]
fn available_cpus() -> (n: usize)
    ensures
        n >= 1,
{
    num_cpus::get()
}

/// Severity of a log line.
#[derive(Clone, Copy, Debug, PartialEq, Eq, Structural)]
pub enum LogLevel {
    Info,
    Success,
    Warning,
    Error,
}

/// One line of the log.
#[derive(Debug)]
pub struct LogMessage {
    /// When the line was added, in milliseconds since the Unix epoch.
    pub timestamp: i64,
    pub message: String,
    pub level: LogLevel,
}

/// One mining task as listed on the dashboard.
#[derive(Debug)]
pub struct TaskInfo {
    pub id: usize,
    pub nonce: Option<U256>,
    pub difficulty: Option<U256>,
    pub status: String,
    /// Hashes per second, as `f64` bits.
    pub hash_rate: Option<u64>,
    pub solution: Option<U256>,
}

impl Clone for LogMessage {
    fn clone(&self) -> (copy: Self)
        ensures
            copy == *self,
    {
        LogMessage { timestamp: self.timestamp, message: self.message.clone(), level: self.level }
    }
}

impl Clone for TaskInfo {
    fn clone(&self) -> (copy: Self)
        ensures
            copy == *self,
    {
        TaskInfo {
            id: self.id,
            nonce: self.nonce,
            difficulty: self.difficulty,
            status: self.status.clone(),
            hash_rate: self.hash_rate,
            solution: self.solution,
        }
    }
}

/// Totals of the mining run.
#[derive(Clone, Copy, Debug)]
pub struct MiningStatus {
    pub active_tasks: usize,
    pub total_tasks: usize,
    pub total_solutions_found: usize,
    /// Hashes per second, as `f64` bits.
    pub total_hash_rate: u64,
    /// Seconds the miner has been running.
    pub uptime: u64,
    /// Coins mined so far, as `f64` bits.
    pub total_mined: u64,
}

/// How long the stages of a task took on average, and how often they ran
/// and failed.
#[derive(Clone, Copy, Debug)]
pub struct TaskTimingStats {
    /// Milliseconds, as `f64` bits.
    pub avg_task_request_time_ms: u64,
    /// Seconds, as `f64` bits.
    pub avg_calculation_time_sec: u64,
    /// Seconds, as `f64` bits.
    pub avg_submission_time_sec: u64,
    pub total_tasks_requested: usize,
    pub total_tasks_calculated: usize,
    pub total_tasks_submitted: usize,
    pub total_requests_failed: usize,
    pub total_calculations_failed: usize,
    pub total_submissions_failed: usize,
    /// When the statistics last changed, in milliseconds since the Unix epoch.
    pub last_updated: i64,
}

impl Default for TaskTimingStats {
    /// Statistics with nothing recorded (all averages `0.0`, whose bit
    /// pattern is zero), stamped with the current time.
    fn default() -> (stats: Self)
        ensures
            stats.avg_task_request_time_ms == 0,
            stats.avg_calculation_time_sec == 0,
            stats.avg_submission_time_sec == 0,
            stats.total_tasks_requested == 0,
            stats.total_tasks_calculated == 0,
            stats.total_tasks_submitted == 0,
            stats.total_requests_failed == 0,
            stats.total_calculations_failed == 0,
            stats.total_submissions_failed == 0,
    {
        TaskTimingStats {
            avg_task_request_time_ms: 0,
            avg_calculation_time_sec: 0,
            avg_submission_time_sec: 0,
            total_tasks_requested: 0,
            total_tasks_calculated: 0,
            total_tasks_submitted: 0,
            total_requests_failed: 0,
            total_calculations_failed: 0,
            total_submissions_failed: 0,
            last_updated: now_millis(),
        }
    }
}

/// Whether the program keeps running.
#[derive(Clone, Copy, Debug, PartialEq, Eq, Structural)]
pub enum AppState {
    Running,
    Exiting,
}

/// The user's mining settings.
#[derive(Clone, Copy, Debug)]
pub struct AppConfig {
    /// Mining tasks run in parallel.
    pub task_count: usize,
    /// Threads each task hashes with.
    pub thread_count: usize,
    /// Whether the RPC node is chosen automatically.
    pub auto_select_rpc: bool,
    /// Whether the log follows its newest line.
    pub auto_scroll_logs: bool,
}

/// Half of `n`, rounded down.
pub open spec fn half_of(n: usize) -> usize {
    n / 2
}

impl Default for AppConfig {
    /// Three tasks, half the CPUs as threads per task, automatic node
    /// choice and log following.
    fn default() -> (config: Self)
        ensures
            config.task_count == 3,
            exists|cpus: usize| cpus >= 1 && config.thread_count == #[trigger] half_of(cpus),
            config.auto_select_rpc,
            config.auto_scroll_logs,
    {
        let cpus = available_cpus();
        assert(half_of(cpus) == cpus / 2);
        AppConfig {
            task_count: 3,
            thread_count: cpus / 2,
            auto_select_rpc: true,
            auto_scroll_logs: true,
        }
    }
}

/// The position of the first task with id `id`.
pub open spec fn task_position(tasks: Seq<TaskInfo>, id: usize) -> Option<int>
    decreases tasks.len(),
{
    if tasks.len() == 0 {
        None
    } else if tasks[0].id == id {
        Some(0)
    } else {
        match task_position(tasks.drop_first(), id) {
            Some(p) => Some(p + 1),
            None => None,
        }
    }
}

/// A task first seen with `status`, nothing else known yet.
pub open spec fn new_task(id: usize, status: String) -> TaskInfo {
    TaskInfo { id, nonce: None, difficulty: None, status, hash_rate: None, solution: None }
}

/// The status a task gets when its data arrives before any status.
pub open spec fn processing_status() -> Seq<char> {
    "处理中"@
}

/// The log after adding a line: the line goes last, and the oldest line
/// is dropped when the log would exceed `max_logs`.
pub open spec fn log_after_push(logs: Seq<LogMessage>, line: LogMessage, max_logs: usize) -> Seq<LogMessage> {
    let pushed = logs.push(line);
    if pushed.len() > max_logs {
        pushed.drop_first()
    } else {
        pushed
    }
}

/// The position of the first measurement for `url`.
pub open spec fn time_position(times: Seq<(String, u64)>, url: Seq<char>) -> Option<int>
    decreases times.len(),
{
    if times.len() == 0 {
        None
    } else if times[0].0@ == url {
        Some(0)
    } else {
        match time_position(times.drop_first(), url) {
            Some(p) => Some(p + 1),
            None => None,
        }
    }
}

/// The measured response time of `url`, if any.
pub open spec fn response_time_of(times: Seq<(String, u64)>, url: Seq<char>) -> Option<u64> {
    match time_position(times, url) {
        Some(p) => Some(times[p].1),
        None => None,
    }
}

/// The log position after scrolling by `delta` lines: back towards the
/// newest line for a negative `delta` (not below zero, and only when not
/// already there), further back for a positive one (saturating).
pub open spec fn scrolled(position: usize, delta: int) -> usize {
    if delta < 0 && position > 0 {
        if position + delta < 0 { 0 } else { (position + delta) as usize }
    } else if delta > 0 {
        if position + delta > usize::MAX { usize::MAX } else { (position + delta) as usize }
    } else {
        position
    }
}

/// The first position of `s` where `p` holds, with nothing earlier
/// satisfying it.
pub proof fn lemma_task_position(tasks: Seq<TaskInfo>, id: usize, i: int)
    requires
        0 <= i <= tasks.len(),
        forall|j: int| 0 <= j < i ==> tasks[j].id != id,
        i == tasks.len() || tasks[i].id == id,
    ensures
        task_position(tasks, id) == if i < tasks.len() { Some(i) } else { None::<int> },
    decreases i,
{
    if tasks.len() > 0 && i > 0 {
        let t = tasks.drop_first();
        assert forall|j: int| 0 <= j < i - 1 implies t[j].id != id by {
            assert(t[j] == tasks[j + 1]);
        }
        lemma_task_position(t, id, i - 1);
    }
}

/// Like `lemma_task_position`, for measured response times.
pub proof fn lemma_time_position(times: Seq<(String, u64)>, url: Seq<char>, i: int)
    requires
        0 <= i <= times.len(),
        forall|j: int| 0 <= j < i ==> times[j].0@ != url,
        i == times.len() || times[i].0@ == url,
    ensures
        time_position(times, url) == if i < times.len() { Some(i) } else { None::<int> },
    decreases i,
{
    if times.len() > 0 && i > 0 {
        let t = times.drop_first();
        assert forall|j: int| 0 <= j < i - 1 implies t[j].0@ != url by {
            assert(t[j] == times[j + 1]);
        }
        lemma_time_position(t, url, i - 1);
    }
}

/// `available[i]` has a measured time, no available url has a lower one,
/// and every available url before it has a higher one.
pub open spec fn is_fastest_rpc(times: Seq<(String, u64)>, available: Seq<&str>, i: int) -> bool {
    &&& 0 <= i < available.len()
    &&& response_time_of(times, available[i]@) is Some
    &&& forall|j: int| 0 <= j < available.len() ==> match #[trigger] response_time_of(times, available[j]@) {
        Some(t) => response_time_of(times, available[i]@)->0 <= t
            && (j < i ==> response_time_of(times, available[i]@)->0 < t),
        None => true,
    }
}

/// Statuses of tasks still in progress: being calculated, processed,
/// requested, submitted, or handed to the background submitter.
pub open spec fn is_active_status(status: Seq<char>) -> bool {
    ||| status == "计算中"@
    ||| status == "处理中"@
    ||| status == "请求中"@
    ||| seq_contains(status, "后台提交"@)
    ||| status == "提交中"@
}

/// Statuses of finished tasks: succeeded, submission failed, or error.
pub open spec fn is_finished_status(status: Seq<char>) -> bool {
    ||| status == "成功"@
    ||| status == "提交失败"@
    ||| status == "错误"@
}

/// `t` placed into `sorted` (ids non-increasing) after every task whose id
/// is at least its own.
pub open spec fn insert_by_id_desc(sorted: Seq<TaskInfo>, t: TaskInfo) -> Seq<TaskInfo>
    decreases sorted.len(),
{
    if sorted.len() == 0 {
        seq![t]
    } else if sorted.last().id >= t.id {
        sorted.push(t)
    } else {
        insert_by_id_desc(sorted.drop_last(), t).push(sorted.last())
    }
}

/// `tasks` in stable order of non-increasing id.
pub open spec fn sort_by_id_desc(tasks: Seq<TaskInfo>) -> Seq<TaskInfo>
    decreases tasks.len(),
{
    if tasks.len() == 0 {
        tasks
    } else {
        insert_by_id_desc(sort_by_id_desc(tasks.drop_last()), tasks.last())
    }
}

/// The task list after pruning: the tasks in progress in their order,
/// then the `max_tasks` finished tasks with the highest ids, highest first.
pub open spec fn cleaned_tasks(tasks: Seq<TaskInfo>, max_tasks: nat) -> Seq<TaskInfo> {
    let active = tasks.filter(|t: TaskInfo| is_active_status(t.status@));
    let finished = sort_by_id_desc(tasks.filter(|t: TaskInfo| is_finished_status(t.status@)));
    active + if max_tasks < finished.len() { finished.take(max_tasks as int) } else { finished }
}

/// Ids do not increase along `s`.
pub open spec fn ids_non_increasing(s: Seq<TaskInfo>) -> bool {
    forall|i: int, j: int| 0 <= i < j < s.len() ==> s[i].id >= s[j].id
}

/// Inserting where the scan from the back stops: `j` is past every task
/// with a smaller id and right after one with an id at least `t`'s.
proof fn lemma_insert_at(s: Seq<TaskInfo>, t: TaskInfo, j: int)
    requires
        0 <= j <= s.len(),
        forall|k: int| j <= k < s.len() ==> s[k].id < t.id,
        j == 0 || s[j - 1].id >= t.id,
    ensures
        insert_by_id_desc(s, t) == s.subrange(0, j).push(t) + s.subrange(j, s.len() as int),
    decreases s.len(),
{
    if s.len() == 0 {
        assert(seq![t] =~= s.subrange(0, j).push(t) + s.subrange(j, s.len() as int));
    } else if s.last().id >= t.id {
        assert(j == s.len());
        assert(s.push(t) =~= s.subrange(0, j).push(t) + s.subrange(j, s.len() as int));
    } else {
        let d = s.drop_last();
        assert(j < s.len());
        lemma_insert_at(d, t, j);
        assert(insert_by_id_desc(s, t) =~= s.subrange(0, j).push(t) + s.subrange(j, s.len() as int));
    }
}

/// Inserting into a sorted sequence keeps it sorted.
proof fn lemma_insert_sorted(s: Seq<TaskInfo>, t: TaskInfo)
    requires
        ids_non_increasing(s),
    ensures
        ids_non_increasing(insert_by_id_desc(s, t)),
        insert_by_id_desc(s, t).len() == s.len() + 1,
        forall|x: TaskInfo| #[trigger] insert_by_id_desc(s, t).contains(x) <==> (s.contains(x) || x == t),
    decreases s.len(),
{
    if s.len() == 0 {
        assert forall|x: TaskInfo| seq![t].contains(x) <==> (s.contains(x) || x == t) by {
            if x == t {
                assert(seq![t][0] == x);
            }
        }
    } else if s.last().id >= t.id {
        assert forall|x: TaskInfo| s.push(t).contains(x) <==> (s.contains(x) || x == t) by {
            if s.push(t).contains(x) {
                let k = choose|k: int| 0 <= k < s.push(t).len() && s.push(t)[k] == x;
                if k < s.len() {
                    assert(s[k] == x);
                }
            }
            if s.contains(x) {
                let k = choose|k: int| 0 <= k < s.len() && s[k] == x;
                assert(s.push(t)[k] == x);
            }
            if x == t {
                assert(s.push(t)[s.len() as int] == x);
            }
        }
    } else {
        let d = s.drop_last();
        assert(ids_non_increasing(d));
        lemma_insert_sorted(d, t);
        let r = insert_by_id_desc(d, t);
        assert forall|i: int| 0 <= i < r.len() implies r[i].id >= s.last().id by {
            let x = r[i];
            assert(r.contains(x));
            if x != t {
                assert(d.contains(x));
                let k = choose|k: int| 0 <= k < d.len() && d[k] == x;
                assert(s[k] == d[k]);
                assert(s[k].id >= s[s.len() - 1].id);
            }
        }
        assert forall|x: TaskInfo| r.push(s.last()).contains(x) <==> (s.contains(x) || x == t) by {
            if r.push(s.last()).contains(x) {
                let k = choose|k: int| 0 <= k < r.push(s.last()).len() && r.push(s.last())[k] == x;
                if k < r.len() {
                    assert(r[k] == x && r.contains(x));
                    if d.contains(x) {
                        let m = choose|m: int| 0 <= m < d.len() && d[m] == x;
                        assert(s[m] == x);
                    }
                } else {
                    assert(s[s.len() - 1] == x);
                }
            }
            if s.contains(x) {
                let m = choose|m: int| 0 <= m < s.len() && s[m] == x;
                if m < d.len() {
                    assert(d[m] == s[m]);
                    assert(d[m] == x && d.contains(x));
                    assert(r.contains(x));
                    let k = choose|k: int| 0 <= k < r.len() && r[k] == x;
                    assert(r.push(s.last())[k] == x);
                } else {
                    assert(r.push(s.last())[r.len() as int] == x);
                }
            }
            if x == t {
                assert(r.contains(t));
                let k = choose|k: int| 0 <= k < r.len() && r[k] == t;
                assert(r.push(s.last())[k] == x);
            }
        }
    }
}

/// The finished tasks that survive pruning are ordered newest (highest id)
/// first, and sorting loses or adds no task.
pub proof fn law_finished_tasks_newest_first(tasks: Seq<TaskInfo>)
    ensures
        ids_non_increasing(sort_by_id_desc(tasks)),
        sort_by_id_desc(tasks).len() == tasks.len(),
        forall|x: TaskInfo| sort_by_id_desc(tasks).contains(x) <==> tasks.contains(x),
    decreases tasks.len(),
{
    if tasks.len() > 0 {
        let d = tasks.drop_last();
        law_finished_tasks_newest_first(d);
        lemma_insert_sorted(sort_by_id_desc(d), tasks.last());
        assert forall|x: TaskInfo| sort_by_id_desc(tasks).contains(x) <==> tasks.contains(x) by {
            if tasks.contains(x) && x != tasks.last() {
                let k = choose|k: int| 0 <= k < tasks.len() && tasks[k] == x;
                assert(tasks.last() == tasks[tasks.len() - 1]);
                assert(k < tasks.len() - 1);
                assert(d[k] == x);
                assert(d.contains(x));
            }
            if d.contains(x) {
                let k = choose|k: int| 0 <= k < d.len() && d[k] == x;
                assert(tasks[k] == x);
            }
            if x == tasks.last() {
                assert(tasks[tasks.len() - 1] == x);
            }
        }
    }
}

/// No two listed tasks share an id.
pub open spec fn distinct_ids(tasks: Seq<TaskInfo>) -> bool {
    forall|i: int, j: int| 0 <= i < tasks.len() && 0 <= j < tasks.len() && i != j ==> tasks[i].id != tasks[j].id
}

/// No status is both in progress and finished.
proof fn lemma_status_classes_exclusive(status: Seq<char>)
    ensures
        !(is_active_status(status) && is_finished_status(status)),
{
    reveal_strlit("计算中");
    reveal_strlit("处理中");
    reveal_strlit("请求中");
    reveal_strlit("后台提交");
    reveal_strlit("提交中");
    reveal_strlit("成功");
    reveal_strlit("提交失败");
    reveal_strlit("错误");
    if is_finished_status(status) {
        assert(status.len() == 2 || status.len() == 4);
        assert(status.len() != 3);
        assert forall|i: int| !occurs_at(status, "后台提交"@, i) by {
            if occurs_at(status, "后台提交"@, i) {
                assert(i == 0);
                assert(status.len() == 4);
                assert(status == "提交失败"@);
                assert(status.subrange(0, 4)[0] == status[0]);
                assert(status[0] == '提');
                assert("后台提交"@[0] == '后');
            }
        }
        assert(!seq_contains(status, "后台提交"@));
    }
}

/// Filtering keeps ids distinct and only keeps listed tasks.
proof fn lemma_filter_distinct(s: Seq<TaskInfo>, p: spec_fn(TaskInfo) -> bool)
    requires
        distinct_ids(s),
    ensures
        distinct_ids(s.filter(p)),
    decreases s.len(),
{
    reveal_with_fuel(Seq::<_>::filter, 1);
    if s.len() > 0 {
        let d = s.drop_last();
        lemma_filter_distinct(d, p);
        if p(s.last()) {
            let f = d.filter(p);
            assert forall|i: int| 0 <= i < f.len() implies f[i].id != s.last().id by {
                assert(f.contains(f[i]));
                d.lemma_filter_contains_rev(p, f[i]);
                let m = choose|m: int| 0 <= m < d.len() && d[m] == f[i];
                assert(s[m] == d[m]);
            }
        }
    }
}

/// Inserting a task with a new id into sorted tasks with distinct ids
/// keeps the ids distinct.
proof fn lemma_insert_distinct(s: Seq<TaskInfo>, t: TaskInfo)
    requires
        ids_non_increasing(s),
        distinct_ids(s),
        forall|k: int| 0 <= k < s.len() ==> s[k].id != t.id,
    ensures
        distinct_ids(insert_by_id_desc(s, t)),
    decreases s.len(),
{
    if s.len() > 0 && s.last().id < t.id {
        let d = s.drop_last();
        assert(ids_non_increasing(d));
        lemma_insert_distinct(d, t);
        lemma_insert_sorted(d, t);
        let r = insert_by_id_desc(d, t);
        assert forall|i: int| 0 <= i < r.len() implies r[i].id != s.last().id by {
            assert(r.contains(r[i]));
            if r[i] != t {
                assert(d.contains(r[i]));
                let m = choose|m: int| 0 <= m < d.len() && d[m] == r[i];
                assert(s[m] == d[m]);
            }
        }
    }
}

/// Sorting keeps ids distinct.
proof fn lemma_sort_distinct(s: Seq<TaskInfo>)
    requires
        distinct_ids(s),
    ensures
        distinct_ids(sort_by_id_desc(s)),
    decreases s.len(),
{
    if s.len() > 0 {
        let d = s.drop_last();
        lemma_sort_distinct(d);
        law_finished_tasks_newest_first(d);
        let sd = sort_by_id_desc(d);
        assert forall|k: int| 0 <= k < sd.len() implies sd[k].id != s.last().id by {
            assert(sd.contains(sd[k]));
            assert(d.contains(sd[k]));
            let m = choose|m: int| 0 <= m < d.len() && d[m] == sd[k];
            assert(s[m] == d[m]);
        }
        lemma_insert_distinct(sd, s.last());
    }
}

/// The task list never holds two tasks with the same id: setting a status
/// and pruning both keep the ids distinct.
pub proof fn law_task_ids_stay_distinct(tasks: Seq<TaskInfo>, id: usize, status: String, max_tasks: nat)
    requires
        distinct_ids(tasks),
    ensures
        distinct_ids(tasks_with_status(tasks, id, status)),
        distinct_ids(cleaned_tasks(tasks, max_tasks)),
{
    lemma_task_position_found(tasks, id);
    let act_pred = |t: TaskInfo| is_active_status(t.status@);
    let fin_pred = |t: TaskInfo| is_finished_status(t.status@);
    let active = tasks.filter(act_pred);
    let finished = tasks.filter(fin_pred);
    let sorted = sort_by_id_desc(finished);
    let kept = if max_tasks < sorted.len() { sorted.take(max_tasks as int) } else { sorted };
    lemma_filter_distinct(tasks, act_pred);
    lemma_filter_distinct(tasks, fin_pred);
    lemma_sort_distinct(finished);
    law_finished_tasks_newest_first(finished);
    assert(distinct_ids(kept));
    assert forall|i: int, j: int| 0 <= i < active.len() && 0 <= j < kept.len() implies active[i].id != kept[j].id by {
        let a = active[i];
        let k = kept[j];
        tasks.lemma_filter_pred(act_pred, i);
        assert(active.contains(a));
        tasks.lemma_filter_contains_rev(act_pred, a);
        assert(sorted.contains(k)) by {
            if max_tasks < sorted.len() {
                assert(sorted[j] == k);
            }
        }
        assert(finished.contains(k));
        let q = choose|q: int| 0 <= q < finished.len() && finished[q] == k;
        tasks.lemma_filter_pred(fin_pred, q);
        tasks.lemma_filter_contains_rev(fin_pred, k);
        let ia = choose|m: int| 0 <= m < tasks.len() && tasks[m] == a;
        let ik = choose|m: int| 0 <= m < tasks.len() && tasks[m] == k;
        lemma_status_classes_exclusive(a.status@);
        if a.id == k.id {
            assert(ia == ik);
        }
    }
    let all = active + kept;
    assert(cleaned_tasks(tasks, max_tasks) == all);
    assert forall|i: int, j: int| 0 <= i < all.len() && 0 <= j < all.len() && i != j implies all[i].id != all[j].id by {
        if i < active.len() && j >= active.len() {
            assert(all[j] == kept[j - active.len()]);
        } else if j < active.len() && i >= active.len() {
            assert(all[i] == kept[i - active.len()]);
        } else if i >= active.len() {
            assert(all[i] == kept[i - active.len()]);
            assert(all[j] == kept[j - active.len()]);
        }
    }
}

/// Filtering keeps every element when all satisfy the predicate.
proof fn lemma_filter_all(s: Seq<TaskInfo>, p: spec_fn(TaskInfo) -> bool)
    requires
        forall|i: int| 0 <= i < s.len() ==> p(#[trigger] s[i]),
    ensures
        s.filter(p) == s,
    decreases s.len(),
{
    reveal_with_fuel(Seq::<_>::filter, 1);
    if s.len() > 0 {
        lemma_filter_all(s.drop_last(), p);
        assert(p(s[s.len() - 1]));
        assert(s.drop_last().push(s.last()) =~= s);
    } else {
        assert(s.filter(p) =~= s);
    }
}

/// Filtering keeps nothing when no element satisfies the predicate.
proof fn lemma_filter_none(s: Seq<TaskInfo>, p: spec_fn(TaskInfo) -> bool)
    requires
        forall|i: int| 0 <= i < s.len() ==> !p(#[trigger] s[i]),
    ensures
        s.filter(p) == Seq::<TaskInfo>::empty(),
    decreases s.len(),
{
    reveal_with_fuel(Seq::<_>::filter, 1);
    if s.len() > 0 {
        lemma_filter_none(s.drop_last(), p);
        assert(!p(s[s.len() - 1]));
    } else {
        assert(s.filter(p) =~= Seq::<TaskInfo>::empty());
    }
}

/// Sorting tasks that are already ordered by non-increasing id changes
/// nothing.
proof fn lemma_sort_sorted(s: Seq<TaskInfo>)
    requires
        ids_non_increasing(s),
    ensures
        sort_by_id_desc(s) == s,
    decreases s.len(),
{
    if s.len() > 0 {
        let d = s.drop_last();
        assert(ids_non_increasing(d));
        lemma_sort_sorted(d);
        if d.len() == 0 {
            assert(seq![s.last()] =~= s);
        } else {
            assert(d.last().id >= s.last().id);
            assert(d.push(s.last()) =~= s);
        }
    }
}

/// Pruning twice is pruning once, and pruning keeps at most `max_tasks`
/// finished tasks beside the tasks in progress.
pub proof fn law_clean_idempotent(tasks: Seq<TaskInfo>, max_tasks: nat)
    ensures
        cleaned_tasks(cleaned_tasks(tasks, max_tasks), max_tasks) == cleaned_tasks(tasks, max_tasks),
        cleaned_tasks(tasks, max_tasks).len()
            <= tasks.filter(|t: TaskInfo| is_active_status(t.status@)).len() + max_tasks,
{
    let act_pred = |t: TaskInfo| is_active_status(t.status@);
    let fin_pred = |t: TaskInfo| is_finished_status(t.status@);
    let active = tasks.filter(act_pred);
    let finished = tasks.filter(fin_pred);
    let sorted = sort_by_id_desc(finished);
    let kept = if max_tasks < sorted.len() { sorted.take(max_tasks as int) } else { sorted };
    let r = active + kept;
    assert(cleaned_tasks(tasks, max_tasks) == r);
    law_finished_tasks_newest_first(finished);
    assert(ids_non_increasing(kept));
    assert(kept.len() <= max_tasks);
    assert forall|i: int| 0 <= i < active.len() implies act_pred(#[trigger] active[i]) && !fin_pred(active[i]) by {
        tasks.lemma_filter_pred(act_pred, i);
        lemma_status_classes_exclusive(active[i].status@);
    }
    assert forall|j: int| 0 <= j < kept.len() implies fin_pred(#[trigger] kept[j]) && !act_pred(kept[j]) by {
        let k = kept[j];
        assert(sorted.contains(k)) by {
            if max_tasks < sorted.len() {
                assert(sorted[j] == k);
            }
        }
        assert(finished.contains(k));
        let q = choose|q: int| 0 <= q < finished.len() && finished[q] == k;
        tasks.lemma_filter_pred(fin_pred, q);
        lemma_status_classes_exclusive(k.status@);
    }
    Seq::filter_distributes_over_add(active, kept, act_pred);
    Seq::filter_distributes_over_add(active, kept, fin_pred);
    lemma_filter_all(active, act_pred);
    lemma_filter_none(kept, act_pred);
    lemma_filter_none(active, fin_pred);
    lemma_filter_all(kept, fin_pred);
    assert(r.filter(act_pred) =~= active);
    assert(r.filter(fin_pred) =~= kept);
    lemma_sort_sorted(kept);
    assert(cleaned_tasks(r, max_tasks) =~= r);
}

/// Puts `t` into `sorted` after every task whose id is at least its own.
fn insert_task_by_id_desc(sorted: &mut Vec<TaskInfo>, t: TaskInfo)
    ensures
        final(sorted)@ == insert_by_id_desc(old(sorted)@, t),
{
    let mut j = sorted.len();
    while j > 0 && sorted[j - 1].id < t.id
        invariant
            j <= sorted@.len(),
            sorted@ == old(sorted)@,
            forall|k: int| j <= k < sorted@.len() ==> sorted@[k].id < t.id,
        decreases j,
    {
        j -= 1;
    }
    proof {
        lemma_insert_at(sorted@, t, j as int);
    }
    sorted.insert(j, t);
    assert(sorted@ =~= old(sorted)@.subrange(0, j as int).push(t) + old(sorted)@.subrange(j as int, old(sorted)@.len() as int));
}

/// Whether a task with this status is still in progress.
pub fn is_active_task_status(status: &str) -> (active: bool)
    ensures
        active == is_active_status(status@),
{
    text_eq(status, "计算中") || text_eq(status, "处理中") || text_eq(status, "请求中")
        || contains_text(status, "后台提交") || text_eq(status, "提交中")
}

/// Whether a task with this status is finished.
pub fn is_finished_task_status(status: &str) -> (finished: bool)
    ensures
        finished == is_finished_status(status@),
{
    text_eq(status, "成功") || text_eq(status, "提交失败") || text_eq(status, "错误")
}

/// The task list after setting the status of task `id`: the first task
/// with that id gets the status, or a new task is listed.
pub open spec fn tasks_with_status(tasks: Seq<TaskInfo>, id: usize, status: String) -> Seq<TaskInfo> {
    match task_position(tasks, id) {
        Some(p) => tasks.update(p, TaskInfo { status: status, ..tasks[p] }),
        None => tasks.push(new_task(id, status)),
    }
}

/// The measurements after recording `ms` for `url`: the first measurement
/// of that url is replaced, or a new one is added.
pub open spec fn times_with(times: Seq<(String, u64)>, url: String, ms: u64) -> Seq<(String, u64)> {
    match time_position(times, url@) {
        Some(p) => times.update(p, (url, ms)),
        None => times.push((url, ms)),
    }
}

proof fn lemma_task_position_found(tasks: Seq<TaskInfo>, id: usize)
    ensures
        match task_position(tasks, id) {
            Some(p) => 0 <= p < tasks.len() && tasks[p].id == id && forall|j: int| 0 <= j < p ==> tasks[j].id != id,
            None => forall|j: int| 0 <= j < tasks.len() ==> tasks[j].id != id,
        },
    decreases tasks.len(),
{
    if tasks.len() > 0 && tasks[0].id != id {
        let t = tasks.drop_first();
        lemma_task_position_found(t, id);
        assert forall|j: int| 1 <= j < tasks.len() implies tasks[j] == t[j - 1] by {}
    }
}

proof fn lemma_time_position_found(times: Seq<(String, u64)>, url: Seq<char>)
    ensures
        match time_position(times, url) {
            Some(p) => 0 <= p < times.len() && times[p].0@ == url && forall|j: int| 0 <= j < p ==> times[j].0@ != url,
            None => forall|j: int| 0 <= j < times.len() ==> times[j].0@ != url,
        },
    decreases times.len(),
{
    if times.len() > 0 && times[0].0@ != url {
        let t = times.drop_first();
        lemma_time_position_found(t, url);
        assert forall|j: int| 1 <= j < times.len() implies times[j] == t[j - 1] by {}
    }
}

/// The log never grows beyond its capacity, and a line just added is the
/// newest one.
pub proof fn law_log_capacity(logs: Seq<LogMessage>, line: LogMessage, max_logs: usize)
    requires
        logs.len() <= max_logs,
    ensures
        log_after_push(logs, line, max_logs).len() <= max_logs,
        max_logs > 0 ==> log_after_push(logs, line, max_logs).last() == line,
{
}

/// Reading a url's response time right after recording it gives the
/// recorded time, and the times of other urls are unchanged.
pub proof fn law_response_time_read_after_write(times: Seq<(String, u64)>, url: String, ms: u64, other: Seq<char>)
    ensures
        response_time_of(times_with(times, url, ms), url@) == Some(ms),
        other != url@ ==> response_time_of(times_with(times, url, ms), other) == response_time_of(times, other),
{
    let after = times_with(times, url, ms);
    lemma_time_position_found(times, url@);
    lemma_time_position_found(times, other);
    match time_position(times, url@) {
        Some(p) => {
            lemma_time_position(after, url@, p);
            match time_position(times, other) {
                Some(q) => {
                    if other != url@ {
                        assert(q != p);
                        lemma_time_position(after, other, q);
                    }
                },
                None => {
                    if other != url@ {
                        lemma_time_position(after, other, after.len() as int);
                    }
                },
            }
        },
        None => {
            lemma_time_position(after, url@, times.len() as int);
            match time_position(times, other) {
                Some(q) => {
                    lemma_time_position(after, other, q);
                },
                None => {
                    if other != url@ {
                        lemma_time_position(after, other, after.len() as int);
                    }
                },
            }
        },
    }
}

/// After setting a task's status, the task with that id is listed with
/// that status.
pub proof fn law_update_task_sets_status(tasks: Seq<TaskInfo>, id: usize, status: String)
    ensures
        match task_position(tasks_with_status(tasks, id, status), id) {
            Some(p) => tasks_with_status(tasks, id, status)[p].status == status,
            None => false,
        },
{
    let after = tasks_with_status(tasks, id, status);
    lemma_task_position_found(tasks, id);
    match task_position(tasks, id) {
        Some(p) => {
            lemma_task_position(after, id, p);
        },
        None => {
            lemma_task_position(after, id, tasks.len() as int);
        },
    }
}

/// No url has two measurements.
pub open spec fn one_time_per_url(times: Seq<(String, u64)>) -> bool {
    forall|i: int, j: int| 0 <= i < times.len() && 0 <= j < times.len() && i != j ==> times[i].0@ != times[j].0@
}

/// Recording a response time keeps one measurement per url.
pub proof fn law_one_time_per_url(times: Seq<(String, u64)>, url: String, ms: u64)
    requires
        one_time_per_url(times),
    ensures
        one_time_per_url(times_with(times, url, ms)),
{
    lemma_time_position_found(times, url@);
}

/// Scrolling back by `d` lines and forward again by `d` returns to the
/// same position when the first scroll does not saturate.
pub proof fn law_scroll_roundtrip(position: usize, d: int)
    requires
        d > 0,
        position + d <= usize::MAX,
    ensures
        scrolled(scrolled(position, d), -d) == position,
{
}

/// The index of the first measurement of `url` in `times`.
pub fn find_measurement(times: &Vec<(String, u64)>, url: &str) -> (found: Option<usize>)
    ensures
        match found {
            Some(i) => i < times@.len() && time_position(times@, url@) == Some(i as int),
            None => time_position(times@, url@) is None,
        },
{
    let n = times.len();
    for i in 0..n
        invariant
            n == times@.len(),
            forall|j: int| 0 <= j < i ==> times@[j].0@ != url@,
    {
        if text_eq(times[i].0.as_str(), url) {
            proof {
                lemma_time_position(times@, url@, i as int);
            }
            return Some(i);
        }
    }
    proof {
        lemma_time_position(times@, url@, n as int);
    }
    None
}

/// Records `ms` as the response time of `url`, replacing its earlier
/// measurement (a map from url to time, kept as a list).
pub fn set_response_time(times: &mut Vec<(String, u64)>, url: String, ms: u64)
    ensures
        final(times)@ == times_with(old(times)@, url, ms),
{
    match find_measurement(times, url.as_str()) {
        Some(i) => {
            times.set(i, (url, ms));
        },
        None => {
            times.push((url, ms));
        },
    }
}

/// The dashboard state.
pub struct App {
    pub state: AppState,
    pub config: AppConfig,
    pub wallet_address: Option<Address>,
    /// As `f64` bits.
    pub wallet_balance: Option<u64>,
    /// The first balance seen, as `f64` bits.
    pub initial_wallet_balance: Option<u64>,
    pub contract_address: Option<Address>,
    /// As `f64` bits.
    pub contract_balance: Option<u64>,
    pub tasks: Vec<TaskInfo>,
    pub mining_status: MiningStatus,
    pub timing_stats: TaskTimingStats,
    pub logs: VecDeque<LogMessage>,
    pub max_logs: usize,
    pub current_rpc: Option<String>,
    /// Measured response times in milliseconds, at most one per url.
    pub rpc_response_times: Vec<(String, u64)>,
    pub log_scroll: usize,
}

impl App {
    /// The state at start: running, default settings, nothing known yet,
    /// room for 1000 log lines.
    pub fn new() -> (app: Self)
        ensures
            app.state == AppState::Running,
            app.config.task_count == 3,
            exists|cpus: usize| cpus >= 1 && app.config.thread_count == #[trigger] half_of(cpus),
            app.config.auto_select_rpc,
            app.config.auto_scroll_logs,
            app.wallet_address is None,
            app.wallet_balance is None,
            app.initial_wallet_balance is None,
            app.contract_address is None,
            app.contract_balance is None,
            app.tasks@.len() == 0,
            app.mining_status.active_tasks == 0,
            app.mining_status.total_tasks == 0,
            app.mining_status.total_solutions_found == 0,
            app.mining_status.total_hash_rate == 0,
            app.mining_status.uptime == 0,
            app.mining_status.total_mined == 0,
            app.timing_stats.total_tasks_requested == 0,
            app.timing_stats.total_tasks_calculated == 0,
            app.timing_stats.total_tasks_submitted == 0,
            app.timing_stats.total_requests_failed == 0,
            app.timing_stats.total_calculations_failed == 0,
            app.timing_stats.total_submissions_failed == 0,
            app.logs@.len() == 0,
            app.max_logs == 1000,
            app.current_rpc is None,
            app.rpc_response_times@.len() == 0,
            app.log_scroll == 0,
    {
        App {
            state: AppState::Running,
            config: AppConfig::default(),
            wallet_address: None,
            wallet_balance: None,
            initial_wallet_balance: None,
            contract_address: None,
            contract_balance: None,
            tasks: Vec::new(),
            mining_status: MiningStatus {
                active_tasks: 0,
                total_tasks: 0,
                total_solutions_found: 0,
                total_hash_rate: 0,
                uptime: 0,
                total_mined: 0,
            },
            timing_stats: TaskTimingStats::default(),
            logs: VecDeque::new(),
            max_logs: 1000,
            current_rpc: None,
            rpc_response_times: Vec::new(),
            log_scroll: 0,
        }
    }

    /// Adds a line to the log, stamped with the current time; drops the
    /// oldest line beyond `max_logs`, and jumps to the newest line when the
    /// log follows it.
    pub fn add_log(&mut self, message: String, level: LogLevel)
        ensures
            exists|line: LogMessage| {
                &&& line.message == message
                &&& line.level == level
                &&& final(self).logs@ == log_after_push(old(self).logs@, line, old(self).max_logs)
            },
            final(self).log_scroll == if old(self).config.auto_scroll_logs { 0 } else { old(self).log_scroll },
            final(self).max_logs == old(self).max_logs,
            final(self).tasks == old(self).tasks,
            final(self).config == old(self).config,
    {
        let line = LogMessage { timestamp: now_millis(), message, level };
        let ghost pushed_line = line;
        self.logs.push_back(line);
        if self.logs.len() > self.max_logs {
            self.logs.pop_front();
        }
        if self.config.auto_scroll_logs {
            self.log_scroll = 0;
        }
        assert(self.logs@ =~= log_after_push(old(self).logs@, pushed_line, old(self).max_logs));
    }

    /// The index of the first task with id `task_id`.
    fn find_task(&self, task_id: usize) -> (found: Option<usize>)
        ensures
            match found {
                Some(i) => i < self.tasks@.len() && task_position(self.tasks@, task_id) == Some(i as int),
                None => task_position(self.tasks@, task_id) is None,
            },
    {
        let n = self.tasks.len();
        for i in 0..n
            invariant
                n == self.tasks@.len(),
                forall|j: int| 0 <= j < i ==> self.tasks@[j].id != task_id,
        {
            if self.tasks[i].id == task_id {
                proof {
                    lemma_task_position(self.tasks@, task_id, i as int);
                }
                return Some(i);
            }
        }
        proof {
            lemma_task_position(self.tasks@, task_id, n as int);
        }
        None
    }

    /// Sets the status of task `task_id`, listing the task if it is new.
    pub fn update_task(&mut self, task_id: usize, status: String)
        ensures
            final(self).tasks@ == tasks_with_status(old(self).tasks@, task_id, status),
            final(self).logs == old(self).logs,
            final(self).mining_status == old(self).mining_status,
            final(self).config == old(self).config,
    {
        match self.find_task(task_id) {
            Some(i) => {
                let mut task = self.tasks[i].clone();
                task.status = status;
                self.tasks.set(i, task);
            },
            None => {
                self.tasks.push(TaskInfo {
                    id: task_id,
                    nonce: None,
                    difficulty: None,
                    status,
                    hash_rate: None,
                    solution: None,
                });
            },
        }
    }

    /// Sets the nonce and difficulty of task `task_id`, listing the task as
    /// being processed if it is new.
    pub fn update_task_data(&mut self, task_id: usize, nonce: U256, difficulty: U256)
        ensures
            match task_position(old(self).tasks@, task_id) {
                Some(p) => final(self).tasks@ == old(self).tasks@.update(
                    p,
                    TaskInfo { nonce: Some(nonce), difficulty: Some(difficulty), ..old(self).tasks@[p] },
                ),
                None => {
                    &&& final(self).tasks@.len() == old(self).tasks@.len() + 1
                    &&& final(self).tasks@.drop_last() == old(self).tasks@
                    &&& final(self).tasks@.last().id == task_id
                    &&& final(self).tasks@.last().nonce == Some(nonce)
                    &&& final(self).tasks@.last().difficulty == Some(difficulty)
                    &&& final(self).tasks@.last().status@ == processing_status()
                    &&& final(self).tasks@.last().hash_rate is None
                    &&& final(self).tasks@.last().solution is None
                },
            },
            final(self).logs == old(self).logs,
            final(self).mining_status == old(self).mining_status,
    {
        match self.find_task(task_id) {
            Some(i) => {
                let mut task = self.tasks[i].clone();
                task.nonce = Some(nonce);
                task.difficulty = Some(difficulty);
                self.tasks.set(i, task);
            },
            None => {
                let status = String::from_str("处理中");
                self.tasks.push(TaskInfo {
                    id: task_id,
                    nonce: Some(nonce),
                    difficulty: Some(difficulty),
                    status,
                    hash_rate: None,
                    solution: None,
                });
                assert(final(self).tasks@.drop_last() =~= old(self).tasks@);
            },
        }
    }

    /// Sets the hash rate (`f64` bits) of task `task_id`, if it is listed.
    pub fn update_task_hash_rate(&mut self, task_id: usize, hash_rate: u64)
        ensures
            final(self).tasks@ == match task_position(old(self).tasks@, task_id) {
                Some(p) => old(self).tasks@.update(p, TaskInfo { hash_rate: Some(hash_rate), ..old(self).tasks@[p] }),
                None => old(self).tasks@,
            },
            final(self).logs == old(self).logs,
    {
        match self.find_task(task_id) {
            Some(i) => {
                let mut task = self.tasks[i].clone();
                task.hash_rate = Some(hash_rate);
                self.tasks.set(i, task);
            },
            None => {},
        }
    }

    /// Sets the solution of task `task_id`, if it is listed.
    pub fn update_task_solution(&mut self, task_id: usize, solution: U256)
        ensures
            final(self).tasks@ == match task_position(old(self).tasks@, task_id) {
                Some(p) => old(self).tasks@.update(p, TaskInfo { solution: Some(solution), ..old(self).tasks@[p] }),
                None => old(self).tasks@,
            },
            final(self).logs == old(self).logs,
    {
        match self.find_task(task_id) {
            Some(i) => {
                let mut task = self.tasks[i].clone();
                task.solution = Some(solution);
                self.tasks.set(i, task);
            },
            None => {},
        }
    }

    /// Records the wallet and its balance (`f64` bits); the first balance
    /// seen is kept as the initial balance. (Working out the mined total
    /// from the balances is floating-point arithmetic, done by the caller.)
    pub fn update_wallet_info(&mut self, address: Address, balance: u64)
        ensures
            final(self).wallet_address == Some(address),
            final(self).wallet_balance == Some(balance),
            final(self).initial_wallet_balance == if old(self).wallet_balance is None && old(self).initial_wallet_balance is None {
                Some(balance)
            } else {
                old(self).initial_wallet_balance
            },
            final(self).tasks == old(self).tasks,
            final(self).logs == old(self).logs,
            final(self).mining_status == old(self).mining_status,
    {
        if self.wallet_balance.is_none() && self.initial_wallet_balance.is_none() {
            self.initial_wallet_balance = Some(balance);
        }
        self.wallet_address = Some(address);
        self.wallet_balance = Some(balance);
    }

    /// Records the mining contract and its balance (`f64` bits).
    pub fn update_contract_info(&mut self, address: Address, balance: u64)
        ensures
            final(self).contract_address == Some(address),
            final(self).contract_balance == Some(balance),
            final(self).wallet_balance == old(self).wallet_balance,
            final(self).tasks == old(self).tasks,
    {
        self.contract_address = Some(address);
        self.contract_balance = Some(balance);
    }

    /// Records the number of active tasks and the total hash rate (`f64` bits).
    pub fn update_mining_status(&mut self, active_tasks: usize, total_hash_rate: u64)
        ensures
            final(self).mining_status == (MiningStatus {
                active_tasks: active_tasks,
                total_hash_rate: total_hash_rate,
                ..old(self).mining_status
            }),
            final(self).tasks == old(self).tasks,
    {
        self.mining_status.active_tasks = active_tasks;
        self.mining_status.total_hash_rate = total_hash_rate;
    }

    /// One more second of running time.
    pub fn increment_uptime(&mut self)
        requires
            old(self).mining_status.uptime < u64::MAX,
        ensures
            final(self).mining_status == (MiningStatus { uptime: (old(self).mining_status.uptime + 1) as u64, ..old(self).mining_status }),
            final(self).tasks == old(self).tasks,
    {
        self.mining_status.uptime += 1;
    }

    /// One more solution found.
    pub fn add_solution_found(&mut self)
        requires
            old(self).mining_status.total_solutions_found < usize::MAX,
        ensures
            final(self).mining_status == (MiningStatus {
                total_solutions_found: (old(self).mining_status.total_solutions_found + 1) as usize,
                ..old(self).mining_status
            }),
            final(self).tasks == old(self).tasks,
    {
        self.mining_status.total_solutions_found += 1;
    }

    /// Records the response time of `rpc_url`, replacing an earlier one.
    pub fn update_rpc_response_time(&mut self, rpc_url: String, response_time_ms: u64)
        ensures
            final(self).rpc_response_times@ == times_with(old(self).rpc_response_times@, rpc_url, response_time_ms),
            final(self).tasks == old(self).tasks,
            final(self).logs == old(self).logs,
    {
        set_response_time(&mut self.rpc_response_times, rpc_url, response_time_ms);
    }

    /// Of `available_rpcs`, the one with the lowest measured response time
    /// (the first such); `None` when nothing has been measured or none of
    /// them has been.
    pub fn get_fastest_rpc<'a>(&self, available_rpcs: &[&'a str]) -> (fastest: Option<&'a str>)
        ensures
            match fastest {
                Some(s) => exists|i: int| #[trigger] is_fastest_rpc(self.rpc_response_times@, available_rpcs@, i) && s == available_rpcs@[i],
                None => self.rpc_response_times@.len() == 0 || forall|i: int| 0 <= i < available_rpcs@.len()
                    ==> response_time_of(self.rpc_response_times@, available_rpcs@[i]@) is None,
            },
    {
        if self.rpc_response_times.len() == 0 {
            return None;
        }
        let n = available_rpcs.len();
        let mut best: Option<(usize, u64)> = None;
        for i in 0..n
            invariant
                n == available_rpcs@.len(),
                match best {
                    Some((b, t)) => {
                        &&& b < i
                        &&& response_time_of(self.rpc_response_times@, available_rpcs@[b as int]@) == Some(t)
                        &&& forall|j: int| 0 <= j < i ==> match #[trigger] response_time_of(self.rpc_response_times@, available_rpcs@[j]@) {
                            Some(t2) => t <= t2 && (j < b ==> t < t2),
                            None => true,
                        }
                    },
                    None => forall|j: int| 0 <= j < i ==> #[trigger] response_time_of(self.rpc_response_times@, available_rpcs@[j]@) is None,
                },
        {
            match find_measurement(&self.rpc_response_times, available_rpcs[i]) {
                Some(k) => {
                    let t = self.rpc_response_times[k].1;
                    match best {
                        Some((_, bt)) => {
                            if t < bt {
                                best = Some((i, t));
                            }
                        },
                        None => {
                            best = Some((i, t));
                        },
                    }
                },
                None => {},
            }
        }
        match best {
            Some((b, _)) => {
                assert(is_fastest_rpc(self.rpc_response_times@, available_rpcs@, b as int));
                Some(available_rpcs[b])
            },
            None => None,
        }
    }

    /// Scrolls the log by `delta` lines (see `scrolled`).
    pub fn scroll_logs(&mut self, delta: isize)
        ensures
            final(self).log_scroll == scrolled(old(self).log_scroll, delta as int),
            final(self).logs == old(self).logs,
            final(self).tasks == old(self).tasks,
    {
        if delta < 0 && self.log_scroll > 0 {
            let magnitude: usize = ((-(delta + 1)) as usize) + 1;
            self.log_scroll = self.log_scroll.saturating_sub(magnitude);
        } else if delta > 0 {
            self.log_scroll = self.log_scroll.saturating_add(delta as usize);
        }
    }

    /// Jumps to the newest log line.
    pub fn reset_log_scroll(&mut self)
        ensures
            final(self).log_scroll == 0,
            final(self).logs == old(self).logs,
            final(self).tasks == old(self).tasks,
    {
        self.log_scroll = 0;
    }

    /// Replaces the settings.
    pub fn set_config(&mut self, config: AppConfig)
        ensures
            final(self).config == config,
            final(self).tasks == old(self).tasks,
            final(self).logs == old(self).logs,
    {
        self.config = config;
    }

    /// Records a task request: on success the new average request time
    /// (`f64` bits, worked out by the caller) and one more request, on
    /// failure one more failed request; stamps the statistics.
    pub fn record_task_request_time(&mut self, new_average_ms: u64, success: bool)
        requires
            success ==> old(self).timing_stats.total_tasks_requested < usize::MAX,
            !success ==> old(self).timing_stats.total_requests_failed < usize::MAX,
        ensures
            success ==> final(self).timing_stats.avg_task_request_time_ms == new_average_ms
                && final(self).timing_stats.total_tasks_requested == old(self).timing_stats.total_tasks_requested + 1
                && final(self).timing_stats.total_requests_failed == old(self).timing_stats.total_requests_failed,
            !success ==> final(self).timing_stats.avg_task_request_time_ms == old(self).timing_stats.avg_task_request_time_ms
                && final(self).timing_stats.total_tasks_requested == old(self).timing_stats.total_tasks_requested
                && final(self).timing_stats.total_requests_failed == old(self).timing_stats.total_requests_failed + 1,
            final(self).timing_stats.total_tasks_calculated == old(self).timing_stats.total_tasks_calculated,
            final(self).timing_stats.total_tasks_submitted == old(self).timing_stats.total_tasks_submitted,
            final(self).timing_stats.total_calculations_failed == old(self).timing_stats.total_calculations_failed,
            final(self).timing_stats.total_submissions_failed == old(self).timing_stats.total_submissions_failed,
            final(self).timing_stats.avg_calculation_time_sec == old(self).timing_stats.avg_calculation_time_sec,
            final(self).timing_stats.avg_submission_time_sec == old(self).timing_stats.avg_submission_time_sec,
            final(self).tasks == old(self).tasks,
    {
        if success {
            self.timing_stats.avg_task_request_time_ms = new_average_ms;
            self.timing_stats.total_tasks_requested += 1;
        } else {
            self.timing_stats.total_requests_failed += 1;
        }
        self.timing_stats.last_updated = now_millis();
    }

    /// Records a calculation: on success the new average calculation time
    /// (`f64` bits, worked out by the caller) and one more calculation, on
    /// failure one more failed calculation; stamps the statistics.
    pub fn record_calculation_time(&mut self, new_average_sec: u64, success: bool)
        requires
            success ==> old(self).timing_stats.total_tasks_calculated < usize::MAX,
            !success ==> old(self).timing_stats.total_calculations_failed < usize::MAX,
        ensures
            success ==> final(self).timing_stats.avg_calculation_time_sec == new_average_sec
                && final(self).timing_stats.total_tasks_calculated == old(self).timing_stats.total_tasks_calculated + 1
                && final(self).timing_stats.total_calculations_failed == old(self).timing_stats.total_calculations_failed,
            !success ==> final(self).timing_stats.avg_calculation_time_sec == old(self).timing_stats.avg_calculation_time_sec
                && final(self).timing_stats.total_tasks_calculated == old(self).timing_stats.total_tasks_calculated
                && final(self).timing_stats.total_calculations_failed == old(self).timing_stats.total_calculations_failed + 1,
            final(self).timing_stats.total_tasks_requested == old(self).timing_stats.total_tasks_requested,
            final(self).timing_stats.total_tasks_submitted == old(self).timing_stats.total_tasks_submitted,
            final(self).timing_stats.total_requests_failed == old(self).timing_stats.total_requests_failed,
            final(self).timing_stats.total_submissions_failed == old(self).timing_stats.total_submissions_failed,
            final(self).timing_stats.avg_task_request_time_ms == old(self).timing_stats.avg_task_request_time_ms,
            final(self).timing_stats.avg_submission_time_sec == old(self).timing_stats.avg_submission_time_sec,
            final(self).tasks == old(self).tasks,
    {
        if success {
            self.timing_stats.avg_calculation_time_sec = new_average_sec;
            self.timing_stats.total_tasks_calculated += 1;
        } else {
            self.timing_stats.total_calculations_failed += 1;
        }
        self.timing_stats.last_updated = now_millis();
    }

    /// Records a submission: on success the new average submission time
    /// (`f64` bits, worked out by the caller) and one more submission, on
    /// failure one more failed submission; stamps the statistics.
    pub fn record_submission_time(&mut self, new_average_sec: u64, success: bool)
        requires
            success ==> old(self).timing_stats.total_tasks_submitted < usize::MAX,
            !success ==> old(self).timing_stats.total_submissions_failed < usize::MAX,
        ensures
            success ==> final(self).timing_stats.avg_submission_time_sec == new_average_sec
                && final(self).timing_stats.total_tasks_submitted == old(self).timing_stats.total_tasks_submitted + 1
                && final(self).timing_stats.total_submissions_failed == old(self).timing_stats.total_submissions_failed,
            !success ==> final(self).timing_stats.avg_submission_time_sec == old(self).timing_stats.avg_submission_time_sec
                && final(self).timing_stats.total_tasks_submitted == old(self).timing_stats.total_tasks_submitted
                && final(self).timing_stats.total_submissions_failed == old(self).timing_stats.total_submissions_failed + 1,
            final(self).timing_stats.total_tasks_requested == old(self).timing_stats.total_tasks_requested,
            final(self).timing_stats.total_tasks_calculated == old(self).timing_stats.total_tasks_calculated,
            final(self).timing_stats.total_requests_failed == old(self).timing_stats.total_requests_failed,
            final(self).timing_stats.total_calculations_failed == old(self).timing_stats.total_calculations_failed,
            final(self).timing_stats.avg_task_request_time_ms == old(self).timing_stats.avg_task_request_time_ms,
            final(self).timing_stats.avg_calculation_time_sec == old(self).timing_stats.avg_calculation_time_sec,
            final(self).tasks == old(self).tasks,
    {
        if success {
            self.timing_stats.avg_submission_time_sec = new_average_sec;
            self.timing_stats.total_tasks_submitted += 1;
        } else {
            self.timing_stats.total_submissions_failed += 1;
        }
        self.timing_stats.last_updated = now_millis();
    }

    /// Prunes the task list: keeps the tasks in progress, in order,
    /// followed by the `max_tasks` finished tasks with the highest ids,
    /// highest first; drops every other task.
    pub fn clean_old_tasks(&mut self, max_tasks: usize)
        ensures
            final(self).tasks@ == cleaned_tasks(old(self).tasks@, max_tasks as nat),
            final(self).logs == old(self).logs,
            final(self).mining_status == old(self).mining_status,
    {
        let ghost act_pred = |t: TaskInfo| is_active_status(t.status@);
        let ghost fin_pred = |t: TaskInfo| is_finished_status(t.status@);
        let mut active_tasks: Vec<TaskInfo> = Vec::new();
        let mut completed_tasks: Vec<TaskInfo> = Vec::new();
        let n = self.tasks.len();
        for i in 0..n
            invariant
                n == self.tasks@.len(),
                self.tasks@ == old(self).tasks@,
                act_pred == (|t: TaskInfo| is_active_status(t.status@)),
                fin_pred == (|t: TaskInfo| is_finished_status(t.status@)),
                active_tasks@ == self.tasks@.subrange(0, i as int).filter(act_pred),
                completed_tasks@ == sort_by_id_desc(self.tasks@.subrange(0, i as int).filter(fin_pred)),
        {
            let ghost prefix = self.tasks@.subrange(0, i + 1);
            let ghost sub = self.tasks@.subrange(0, i as int);
            proof {
                assert(prefix.drop_last() =~= sub);
                assert(prefix.last() == self.tasks@[i as int]);
                reveal_with_fuel(Seq::<_>::filter, 1);
                assert(prefix.filter(act_pred) == if act_pred(prefix.last()) {
                    sub.filter(act_pred).push(prefix.last())
                } else {
                    sub.filter(act_pred)
                });
                assert(prefix.filter(fin_pred) == if fin_pred(prefix.last()) {
                    sub.filter(fin_pred).push(prefix.last())
                } else {
                    sub.filter(fin_pred)
                });
                if fin_pred(prefix.last()) {
                    assert(prefix.filter(fin_pred).drop_last() =~= sub.filter(fin_pred));
                }
            }
            if is_active_task_status(self.tasks[i].status.as_str()) {
                active_tasks.push(self.tasks[i].clone());
                assert(act_pred(prefix.last()));
            } else {
                assert(!act_pred(prefix.last()));
            }
            assert(active_tasks@ == prefix.filter(act_pred));
            if is_finished_task_status(self.tasks[i].status.as_str()) {
                insert_task_by_id_desc(&mut completed_tasks, self.tasks[i].clone());
                assert(fin_pred(prefix.last()));
                assert(prefix.filter(fin_pred).drop_last() == sub.filter(fin_pred));
                assert(prefix.filter(fin_pred).last() == prefix.last());
            } else {
                assert(!fin_pred(prefix.last()));
            }
            assert(completed_tasks@ == sort_by_id_desc(prefix.filter(fin_pred)));
        }
        assert(self.tasks@.subrange(0, n as int) =~= self.tasks@);
        let ghost sorted = completed_tasks@;
        completed_tasks.truncate(max_tasks);
        let ghost kept = completed_tasks@;
        assert(kept =~= if (max_tasks as nat) < sorted.len() { sorted.take(max_tasks as int) } else { sorted });
        let ghost active_before = active_tasks@;
        let m = completed_tasks.len();
        for k in 0..m
            invariant
                m == completed_tasks@.len(),
                completed_tasks@ == kept,
                active_tasks@ == active_before + kept.subrange(0, k as int),
        {
            active_tasks.push(completed_tasks[k].clone());
            assert(kept.subrange(0, k + 1) =~= kept.subrange(0, k as int).push(kept[k as int]));
        }
        assert(kept.subrange(0, m as int) =~= kept);
        self.tasks = active_tasks;
    }
}

} // verus!
