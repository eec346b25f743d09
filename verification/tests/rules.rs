use magnet_miner::dashboard::AppConfig;
use magnet_miner::mining::verify_solution_locally;
use magnet_miner::settings::{apply_mining_settings, rpc_choice_default, task_count_valid, thread_count_valid};
use magnet_miner::submission::{
    increase_percent, task_status_after_submit, task_status_for_gate, SubmitResult,
    apply_gas_buffer, classify_submit_error, classify_submit_failure, cleanup_due, may_retry_task,
    next_task_id, raised_gas_price, receipt_succeeded, retry_factor, submission_gate, task_still_current,
    SubmitErrorKind, SubmitFailureKind, SubmitGate, SubmitState, MAX_SUBMIT_ATTEMPTS,
};
use magnet_miner::u256::{Address, U256};
use magnet_miner::wallet::{
    chain_id_matches, contract_balance_sufficient, private_key_format_ok, wallet_balance_sufficient,
};

fn u(v: u64) -> U256 {
    U256::from_u64(v)
}

#[test]
fn submit_errors_are_classified() {
    assert_eq!(classify_submit_error("nonce too low: next nonce 5"), SubmitErrorKind::StaleNonce);
    assert_eq!(classify_submit_error("already known"), SubmitErrorKind::StaleNonce);
    assert_eq!(classify_submit_error("replacement transaction underpriced"), SubmitErrorKind::Underpriced);
    assert_eq!(classify_submit_error("execution reverted"), SubmitErrorKind::Fatal);
    assert_eq!(classify_submit_error(""), SubmitErrorKind::Fatal);
    // a stale nonce wins over a low price
    assert_eq!(classify_submit_error("underpriced / nonce too low"), SubmitErrorKind::StaleNonce);
}

#[test]
fn submit_failures_are_classified() {
    assert_eq!(classify_submit_failure("transaction underpriced"), SubmitFailureKind::GasTooLow);
    assert_eq!(classify_submit_failure("nonce too low"), SubmitFailureKind::NonceProblem);
    assert_eq!(classify_submit_failure("execution reverted: expired"), SubmitFailureKind::Reverted);
    assert_eq!(classify_submit_failure("timeout"), SubmitFailureKind::Other);
    assert_eq!(classify_submit_failure("underpriced and reverted"), SubmitFailureKind::GasTooLow);
}

#[test]
fn retry_factor_steps() {
    assert_eq!(retry_factor(0), 0);
    assert_eq!(retry_factor(1), 10);
    assert_eq!(retry_factor(2), 25);
    assert_eq!(retry_factor(9), 25);
}

#[test]
fn gas_buffer_is_percent() {
    assert_eq!(apply_gas_buffer(u(1_000_000_000), 110).0, u(1_100_000_000).0);
    assert_eq!(apply_gas_buffer(u(999), 112).0, u(1118).0);
    assert_eq!(apply_gas_buffer(u(0), 115).0, u(0).0);
}

#[test]
fn raised_gas_price_formula_and_cap() {
    let reward = u(3_000_000_000_000_000_000);
    let gas = u(150_000);
    // 115% with no surcharge
    assert_eq!(raised_gas_price(u(1_000_000_000), 0, 0, reward, gas).0, u(1_150_000_000).0);
    // (1150 + 100 + 250) / 10 = 150%
    assert_eq!(raised_gas_price(u(1_000_000_000), 10, 2, reward, gas).0, u(1_500_000_000).0);
    // (1150 + 50 + 100) / 10 = 130%
    assert_eq!(raised_gas_price(u(1_000_000_000), 5, 1, reward, gas).0, u(1_300_000_000).0);
    // capped at reward * 60 / (gas * 100) = 12_000_000_000_000
    assert_eq!(raised_gas_price(u(20_000_000_000_000), 0, 0, reward, gas).0, u(12_000_000_000_000).0);
}

#[test]
fn submit_state_allows_three_attempts() {
    let mut st = SubmitState::new(u(100), u(7));
    let mut attempts = 0;
    while st.can_attempt() {
        attempts += 1;
        st.finish_attempt();
    }
    assert_eq!(attempts, MAX_SUBMIT_ATTEMPTS);
    assert_eq!(st.retry_count, 3);
    let mut st = SubmitState::new(u(100), u(7));
    st.refresh_nonce(u(9));
    assert_eq!(st.nonce.0, u(9).0);
    st.raise_gas_price(0, u(3_000_000_000_000_000_000), u(150_000));
    assert_eq!(st.gas_price.0, u(115).0);
    assert_eq!(st.retry_count, 0);
}

#[test]
fn task_rules() {
    assert!(task_still_current(u(5), u(5), true));
    assert!(!task_still_current(u(5), u(6), true));
    assert!(!task_still_current(u(5), u(5), false));
    assert!(may_retry_task(0));
    assert!(may_retry_task(4));
    assert!(!may_retry_task(5));
    assert_eq!(next_task_id(2, 3), 5);
    assert!(cleanup_due(0));
    assert!(cleanup_due(20));
    assert!(!cleanup_due(21));
    assert!(receipt_succeeded(Some(1)));
    assert!(!receipt_succeeded(Some(0)));
    assert!(!receipt_succeeded(None));
}

#[test]
fn submission_gate_cases() {
    let addr = Address([3u8; 20]);
    let sol = u(11);
    assert_eq!(submission_gate(None, addr, sol), SubmitGate::Submit);
    assert_eq!(submission_gate(Some((u(1), u(0), false)), addr, sol), SubmitGate::TaskInactive);
    let ok = verify_solution_locally(u(1), addr, sol, u(2)) == Ok(true);
    let expected = if ok { SubmitGate::Submit } else { SubmitGate::SolutionRejected };
    assert_eq!(submission_gate(Some((u(1), u(2), true)), addr, sol), expected);
    assert_eq!(submission_gate(Some((u(1), U256::max_value(), true)), addr, sol), SubmitGate::SolutionRejected);
}

#[test]
fn private_key_form() {
    let good = format!("0x{}", "a1".repeat(32));
    assert!(private_key_format_ok(&good));
    let upper = format!("0x{}", "AbCdEf0123456789".repeat(4));
    assert!(private_key_format_ok(&upper));
    assert!(!private_key_format_ok(&format!("0x{}", "a".repeat(63))));
    assert!(!private_key_format_ok(&format!("0x{}", "a".repeat(65))));
    assert!(!private_key_format_ok(&format!("0X{}", "a".repeat(64))));
    assert!(!private_key_format_ok(&format!("0x{}g", "a".repeat(63))));
    assert!(!private_key_format_ok(&"a".repeat(66)));
    assert!(!private_key_format_ok(""));
}

#[test]
fn chain_and_balances() {
    assert!(chain_id_matches(u(114514)));
    assert!(!chain_id_matches(u(1)));
    assert!(!chain_id_matches(U256([114514, 1, 0, 0])));
    assert!(wallet_balance_sufficient(u(100_000_000_000_000_000)));
    assert!(!wallet_balance_sufficient(u(99_999_999_999_999_999)));
    assert!(wallet_balance_sufficient(U256::max_value()));
    assert!(contract_balance_sufficient(u(3_000_000_000_000_000_000)));
    assert!(!contract_balance_sufficient(u(2_999_999_999_999_999_999)));
}

#[test]
fn settings_validation() {
    assert!(!thread_count_valid(0, 4));
    assert!(thread_count_valid(1, 4));
    assert!(thread_count_valid(8, 4));
    assert!(!thread_count_valid(9, 4));
    assert!(!thread_count_valid(1, 0));
    assert!(thread_count_valid(usize::MAX, usize::MAX));
    assert!(!task_count_valid(0));
    assert!(task_count_valid(10));
    assert!(!task_count_valid(11));
    assert_eq!(rpc_choice_default(true), 0);
    assert_eq!(rpc_choice_default(false), 1);
}

#[test]
fn settings_are_applied() {
    let mut config = AppConfig::default();
    assert_eq!(config.task_count, 3);
    apply_mining_settings(&mut config, 5, 2, 1);
    assert_eq!(config.task_count, 5);
    assert_eq!(config.thread_count, 2);
    assert!(!config.auto_select_rpc);
    assert!(config.auto_scroll_logs);
    apply_mining_settings(&mut config, 1, 1, 0);
    assert!(config.auto_select_rpc);
}

#[test]
fn increase_percent_steps() {
    assert_eq!(increase_percent(0, 0), 115);
    assert_eq!(increase_percent(5, 1), 130);
    assert_eq!(increase_percent(10, 2), 150);
    assert_eq!(increase_percent(10, 7), 150);
}

#[test]
fn status_texts_after_submission() {
    assert_eq!(task_status_after_submit(SubmitResult::Receipt(Some(1))), "成功");
    assert_eq!(task_status_after_submit(SubmitResult::Receipt(Some(0))), "交易失败");
    assert_eq!(task_status_after_submit(SubmitResult::Receipt(None)), "交易失败");
    assert_eq!(task_status_after_submit(SubmitResult::Unconfirmed), "确认失败");
    assert_eq!(task_status_after_submit(SubmitResult::Failed), "提交失败");
    assert_eq!(task_status_for_gate(SubmitGate::Submit), None);
    assert_eq!(task_status_for_gate(SubmitGate::TaskInactive), Some("任务已失效".to_string()));
    assert_eq!(task_status_for_gate(SubmitGate::SolutionRejected), Some("验证失败".to_string()));
}
