//! The rules that decide how a found solution is submitted: which errors
//! are retried, how the gas price is raised, and when a task is dropped.

use vstd::prelude::*;
use crate::u256::{u256_div, u256_le, u256_mul, u256_modulus, Address, U256};
use crate::hashing::mining_hash;
use crate::mining::{hash_accepted, verify_solution_locally};
use crate::text::{contains_text, seq_contains};

verus! {

/// Attempts made to send one solution before giving up.
pub const MAX_SUBMIT_ATTEMPTS: usize = 3;

/// Retries of a failed mining task before it is abandoned.
pub const MAX_TASK_RETRIES: usize = 5;

/// How a failed send of the submission transaction is handled.
#[derive(Clone, Copy, Debug, PartialEq, Eq, Structural)]
pub enum SubmitErrorKind {
    /// The transaction nonce was stale ("nonce too low" or "already known"):
    /// fetch the account's nonce and retry.
    StaleNonce,
    /// The gas price was too low ("underpriced"): raise it and retry.
    Underpriced,
    /// Anything else: give up.
    Fatal,
}

/// Sorts the error text of a failed send.
pub fn classify_submit_error(text: &str) -> (kind: SubmitErrorKind)
    ensures
        kind == (if seq_contains(text@, "nonce too low"@) || seq_contains(text@, "already known"@) {
            SubmitErrorKind::StaleNonce
        } else if seq_contains(text@, "underpriced"@) {
            SubmitErrorKind::Underpriced
        } else {
            SubmitErrorKind::Fatal
        }),
{
    if contains_text(text, "nonce too low") || contains_text(text, "already known") {
        SubmitErrorKind::StaleNonce
    } else if contains_text(text, "underpriced") {
        SubmitErrorKind::Underpriced
    } else {
        SubmitErrorKind::Fatal
    }
}

/// What a submission that ran out of attempts, or failed for good, is
/// reported as.
#[derive(Clone, Copy, Debug, PartialEq, Eq, Structural)]
pub enum SubmitFailureKind {
    /// The gas price stayed too low.
    GasTooLow,
    /// The nonce kept being refused.
    NonceProblem,
    /// The contract reverted: the task expired or was already solved.
    Reverted,
    /// Any other failure.
    Other,
}

/// Sorts the error text of a submission that failed.
pub fn classify_submit_failure(text: &str) -> (kind: SubmitFailureKind)
    ensures
        kind == (if seq_contains(text@, "underpriced"@) {
            SubmitFailureKind::GasTooLow
        } else if seq_contains(text@, "nonce too low"@) {
            SubmitFailureKind::NonceProblem
        } else if seq_contains(text@, "reverted"@) {
            SubmitFailureKind::Reverted
        } else {
            SubmitFailureKind::Other
        }),
{
    if contains_text(text, "underpriced") {
        SubmitFailureKind::GasTooLow
    } else if contains_text(text, "nonce too low") {
        SubmitFailureKind::NonceProblem
    } else if contains_text(text, "reverted") {
        SubmitFailureKind::Reverted
    } else {
        SubmitFailureKind::Other
    }
}

/// Extra percent of gas-price increase for the retry that follows
/// `retry_count` earlier retries: none, then 10, then 25.
pub open spec fn retry_factor_spec(retry_count: nat) -> nat {
    if retry_count == 0 {
        0
    } else if retry_count == 1 {
        10
    } else {
        25
    }
}

/// The percent that an underpriced gas price is multiplied by: 115 plus
/// the network and retry surcharges.
pub open spec fn increase_percent_spec(network_factor: nat, retry_count: nat) -> nat {
    (1150 + network_factor * 10 + retry_factor_spec(retry_count) * 10) / 10
}

/// The highest gas price that still leaves 40% of the reward as profit:
/// `reward * 60 / (estimated_gas * 100)`.
pub open spec fn max_acceptable_gas_price_spec(reward: nat, estimated_gas: nat) -> nat {
    (reward * 60) / (estimated_gas * 100)
}

/// The gas price after an "underpriced" refusal.
pub open spec fn raised_gas_price_spec(current: nat, network_factor: nat, retry_count: nat, reward: nat, estimated_gas: nat) -> nat {
    let raised = current * increase_percent_spec(network_factor, retry_count) / 100;
    let cap = max_acceptable_gas_price_spec(reward, estimated_gas);
    if raised <= cap {
        raised
    } else {
        cap
    }
}

/// Extra percent of gas-price increase for the retry after `retry_count`
/// earlier retries.
pub fn retry_factor(retry_count: usize) -> (factor: u64)
    ensures
        factor == retry_factor_spec(retry_count as nat),
{
    match retry_count {
        0 => 0,
        1 => 10,
        _ => 25,
    }
}

/// The percent an underpriced gas price is multiplied by (see
/// `increase_percent_spec`).
pub fn increase_percent(network_factor: u64, retry_count: usize) -> (percent: u64)
    requires
        network_factor <= 10,
    ensures
        percent == increase_percent_spec(network_factor as nat, retry_count as nat),
{
    let min_increase: u64 = 1150;
    (min_increase + network_factor * 10 + retry_factor(retry_count) * 10) / 10
}

/// `gas_price * percent / 100`, the price raised by a buffer.
pub fn apply_gas_buffer(gas_price: U256, percent: u64) -> (buffered: U256)
    requires
        gas_price@ * percent < u256_modulus(),
    ensures
        buffered@ == gas_price@ * percent / 100,
{
    let product = u256_mul(&gas_price, &U256::from_u64(percent));
    u256_div(&product, &U256::from_u64(100))
}

/// The gas price to retry with after an "underpriced" refusal: the current
/// price raised by `(1150 + 10 * network_factor + 10 * retry factor) / 10`
/// percent, but not above the price that keeps 40% of the reward.
pub fn raised_gas_price(current: U256, network_factor: u64, retry_count: usize, reward: U256, estimated_gas: U256) -> (price: U256)
    requires
        network_factor <= 10,
        estimated_gas@ > 0,
        estimated_gas@ * 100 < u256_modulus(),
        reward@ * 60 < u256_modulus(),
        current@ * increase_percent_spec(network_factor as nat, retry_count as nat) < u256_modulus(),
    ensures
        price@ == raised_gas_price_spec(current@, network_factor as nat, retry_count as nat, reward@, estimated_gas@),
{
    let percent = increase_percent(network_factor, retry_count);
    let min_profit_ratio: u64 = 40;
    let scaled_reward = u256_mul(&reward, &U256::from_u64(100 - min_profit_ratio));
    let scaled_gas = u256_mul(&estimated_gas, &U256::from_u64(100));
    let max_acceptable = u256_div(&scaled_reward, &scaled_gas);
    let raised = apply_gas_buffer(current, percent);
    if u256_le(&raised, &max_acceptable) {
        raised
    } else {
        max_acceptable
    }
}

/// The state of one solution's submission across attempts.
#[derive(Clone, Copy, Debug)]
pub struct SubmitState {
    /// Attempts that failed and were retried so far.
    pub retry_count: usize,
    /// The gas price of the next attempt.
    pub gas_price: U256,
    /// The account nonce of the next attempt.
    pub nonce: U256,
}

impl SubmitState {
    /// The state before the first attempt.
    pub fn new(gas_price: U256, nonce: U256) -> (state: Self)
        ensures
            state.retry_count == 0,
            state.gas_price == gas_price,
            state.nonce == nonce,
    {
        SubmitState { retry_count: 0, gas_price, nonce }
    }

    /// Whether another attempt may be made.
    pub fn can_attempt(&self) -> (may: bool)
        ensures
            may == (self.retry_count < MAX_SUBMIT_ATTEMPTS),
    {
        self.retry_count < MAX_SUBMIT_ATTEMPTS
    }

    /// A stale nonce was refused: the next attempt uses the fetched nonce.
    pub fn refresh_nonce(&mut self, fetched: U256)
        ensures
            final(self).nonce == fetched,
            final(self).gas_price == old(self).gas_price,
            final(self).retry_count == old(self).retry_count,
    {
        self.nonce = fetched;
    }

    /// The gas price was refused as too low: the next attempt uses the
    /// raised price.
    pub fn raise_gas_price(&mut self, network_factor: u64, reward: U256, estimated_gas: U256)
        requires
            network_factor <= 10,
            estimated_gas@ > 0,
            estimated_gas@ * 100 < u256_modulus(),
            reward@ * 60 < u256_modulus(),
            old(self).gas_price@ * increase_percent_spec(network_factor as nat, old(self).retry_count as nat) < u256_modulus(),
        ensures
            final(self).gas_price@ == raised_gas_price_spec(
                old(self).gas_price@,
                network_factor as nat,
                old(self).retry_count as nat,
                reward@,
                estimated_gas@,
            ),
            final(self).nonce == old(self).nonce,
            final(self).retry_count == old(self).retry_count,
    {
        self.gas_price = raised_gas_price(self.gas_price, network_factor, self.retry_count, reward, estimated_gas);
    }

    /// An attempt failed and will be retried.
    pub fn finish_attempt(&mut self)
        requires
            old(self).retry_count < MAX_SUBMIT_ATTEMPTS,
        ensures
            final(self).retry_count == old(self).retry_count + 1,
            final(self).nonce == old(self).nonce,
            final(self).gas_price == old(self).gas_price,
    {
        self.retry_count = self.retry_count + 1;
    }
}

/// A raised gas price never exceeds the price that keeps 40% of the reward.
pub proof fn law_raised_gas_price_capped(current: nat, network_factor: nat, retry_count: nat, reward: nat, estimated_gas: nat)
    ensures
        raised_gas_price_spec(current, network_factor, retry_count, reward, estimated_gas)
            <= max_acceptable_gas_price_spec(reward, estimated_gas),
{
}

/// Whether a mining task is still the one that was solved: the contract
/// still reports it active and with the same nonce.
pub fn task_still_current(nonce: U256, current_nonce: U256, active: bool) -> (current: bool)
    ensures
        current == (active && current_nonce@ == nonce@),
{
    active && u256_le(&current_nonce, &nonce) && u256_le(&nonce, &current_nonce)
}

/// Whether a failed task may be retried after `retry_count` retries.
pub fn may_retry_task(retry_count: usize) -> (may: bool)
    ensures
        may == (retry_count < MAX_TASK_RETRIES),
{
    retry_count < MAX_TASK_RETRIES
}

/// The task id that a worker takes next: its ids are spaced by the number
/// of workers.
pub fn next_task_id(current: usize, task_count: usize) -> (next: usize)
    requires
        current + task_count <= usize::MAX,
    ensures
        next == current + task_count,
{
    current + task_count
}

/// Whether the task list is pruned after reaching `task_id`: every tenth id.
pub fn cleanup_due(task_id: usize) -> (due: bool)
    ensures
        due == (task_id % 10 == 0),
{
    task_id % 10 == 0
}

/// Whether a confirmed receipt reports success (status 1).
pub fn receipt_succeeded(status: Option<u64>) -> (ok: bool)
    ensures
        ok == (status == Some(1u64)),
{
    match status {
        Some(s) => s == 1,
        None => false,
    }
}

/// What becomes of a found solution just before it is sent, given the task
/// the contract reports at that moment.
#[derive(Clone, Copy, Debug, PartialEq, Eq, Structural)]
pub enum SubmitGate {
    /// Send it (also when the task could not be read).
    Submit,
    /// The task is no longer active: skip it.
    TaskInactive,
    /// The solution no longer passes the local check for the current task:
    /// skip it.
    SolutionRejected,
}

/// Decides whether a found solution is still sent. `current_task` is the
/// contract's `(nonce, difficulty, active)` for the miner, `None` when it
/// could not be read; the solution is checked again against that nonce and
/// difficulty.
pub fn submission_gate(current_task: Option<(U256, U256, bool)>, address: Address, solution: U256) -> (gate: SubmitGate)
    requires
        current_task matches Some(t) ==> (t.2 ==> t.1@ > 0),
    ensures
        gate == match current_task {
            None => SubmitGate::Submit,
            Some(t) => if !t.2 {
                SubmitGate::TaskInactive
            } else if hash_accepted(mining_hash(t.0@, address@, solution@), t.1@) {
                SubmitGate::Submit
            } else {
                SubmitGate::SolutionRejected
            },
        },
{
    match current_task {
        None => SubmitGate::Submit,
        Some((nonce, difficulty, active)) => {
            if !active {
                return SubmitGate::TaskInactive;
            }
            match verify_solution_locally(nonce, address, solution, difficulty) {
                Ok(true) => SubmitGate::Submit,
                _ => SubmitGate::SolutionRejected,
            }
        },
    }
}

/// How a submission ended: the send failed for good, the transaction was
/// sent but never confirmed, or it was confirmed with a receipt status.
#[derive(Clone, Copy, Debug, PartialEq, Eq, Structural)]
pub enum SubmitResult {
    Failed,
    Unconfirmed,
    Receipt(Option<u64>),
}

/// The task status shown after a submission: "成功" (succeeded) for a
/// receipt with status 1, "交易失败" (transaction failed) for another
/// receipt, "确认失败" (not confirmed) and "提交失败" (submission failed).
pub open spec fn submit_result_status(result: SubmitResult) -> Seq<char> {
    match result {
        SubmitResult::Receipt(st) => if st == Some(1u64) { "成功"@ } else { "交易失败"@ },
        SubmitResult::Unconfirmed => "确认失败"@,
        SubmitResult::Failed => "提交失败"@,
    }
}

/// The task status shown after a submission (see `submit_result_status`).
pub fn task_status_after_submit(result: SubmitResult) -> (status: String)
    ensures
        status@ == submit_result_status(result),
{
    match result {
        SubmitResult::Receipt(st) => {
            if receipt_succeeded(st) {
                String::from_str("成功")
            } else {
                String::from_str("交易失败")
            }
        },
        SubmitResult::Unconfirmed => String::from_str("确认失败"),
        SubmitResult::Failed => String::from_str("提交失败"),
    }
}

/// The task status shown when a solution is not sent: "任务已失效" (task
/// expired) or "验证失败" (verification failed); `None` when it is sent.
pub open spec fn gate_status(gate: SubmitGate) -> Option<Seq<char>> {
    match gate {
        SubmitGate::Submit => None,
        SubmitGate::TaskInactive => Some("任务已失效"@),
        SubmitGate::SolutionRejected => Some("验证失败"@),
    }
}

/// The task status shown when a solution is not sent (see `gate_status`).
pub fn task_status_for_gate(gate: SubmitGate) -> (status: Option<String>)
    ensures
        match status {
            Some(t) => gate_status(gate) == Some(t@),
            None => gate_status(gate) is None,
        },
{
    match gate {
        SubmitGate::Submit => None,
        SubmitGate::TaskInactive => Some(String::from_str("任务已失效")),
        SubmitGate::SolutionRejected => Some(String::from_str("验证失败")),
    }
}

/// The increase percent is 115 plus the network factor plus a surcharge
/// that depends on the retry count alone: 0 on the first retry, 10 on the
/// second, 25 from the third on.
pub proof fn law_increase_percent_values(network_factor: nat, retry_count: nat)
    ensures
        increase_percent_spec(network_factor, retry_count)
            == 115 + network_factor + (if retry_count == 0 { 0nat } else if retry_count == 1 { 10nat } else { 25nat }),
{
    let r: nat = if retry_count == 0 { 0nat } else if retry_count == 1 { 10nat } else { 25nat };
    assert(retry_factor_spec(retry_count) == r);
    assert(1150 + network_factor * 10 + r * 10 == (115 + network_factor + r) * 10);
    vstd::arithmetic::div_mod::lemma_div_multiples_vanish((115 + network_factor + r) as int, 10);
}

} // verus!
