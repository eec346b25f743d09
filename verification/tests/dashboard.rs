use magnet_miner::dashboard::{
    find_measurement, is_active_task_status, is_finished_task_status, set_response_time, App, AppConfig,
    AppState, LogLevel, TaskTimingStats,
};
use magnet_miner::u256::{Address, U256};

fn task_ids(app: &App) -> Vec<usize> {
    app.tasks.iter().map(|t| t.id).collect()
}

#[test]
fn new_app_is_empty_and_running() {
    let app = App::new();
    assert_eq!(app.state, AppState::Running);
    assert_eq!(app.config.task_count, 3);
    assert!(app.config.auto_select_rpc);
    assert!(app.tasks.is_empty());
    assert!(app.logs.is_empty());
    assert_eq!(app.max_logs, 1000);
    assert_eq!(app.mining_status.uptime, 0);
    assert_eq!(app.timing_stats.total_tasks_requested, 0);
    assert!(app.current_rpc.is_none());
    let stats = TaskTimingStats::default();
    assert_eq!(stats.avg_submission_time_sec, 0);
    assert_eq!(stats.total_submissions_failed, 0);
}

#[test]
fn log_keeps_newest_lines_up_to_capacity() {
    let mut app = App::new();
    app.max_logs = 2;
    app.log_scroll = 4;
    app.add_log("one".to_string(), LogLevel::Info);
    assert_eq!(app.log_scroll, 0, "following the log jumps to the newest line");
    app.add_log("two".to_string(), LogLevel::Warning);
    app.add_log("three".to_string(), LogLevel::Error);
    assert_eq!(app.logs.len(), 2);
    assert_eq!(app.logs[0].message, "two");
    assert_eq!(app.logs[1].message, "three");
    assert_eq!(app.logs[1].level, LogLevel::Error);
    app.config.auto_scroll_logs = false;
    app.log_scroll = 3;
    app.add_log("four".to_string(), LogLevel::Success);
    assert_eq!(app.log_scroll, 3);
}

#[test]
fn tasks_are_listed_and_updated() {
    let mut app = App::new();
    app.update_task(4, "请求中".to_string());
    app.update_task(4, "计算中".to_string());
    assert_eq!(app.tasks.len(), 1);
    assert_eq!(app.tasks[0].status, "计算中");
    app.update_task_data(9, U256::from_u64(1), U256::from_u64(2));
    assert_eq!(app.tasks[1].status, "处理中");
    assert_eq!(app.tasks[1].nonce.unwrap().0, [1, 0, 0, 0]);
    app.update_task_data(4, U256::from_u64(5), U256::from_u64(6));
    assert_eq!(app.tasks[0].difficulty.unwrap().0, [6, 0, 0, 0]);
    assert_eq!(app.tasks[0].status, "计算中");
    app.update_task_hash_rate(4, 42);
    app.update_task_hash_rate(100, 7);
    assert_eq!(app.tasks[0].hash_rate, Some(42));
    app.update_task_solution(9, U256::from_u64(77));
    assert_eq!(app.tasks[1].solution.unwrap().0, [77, 0, 0, 0]);
    assert_eq!(app.tasks.len(), 2);
}

#[test]
fn wallet_and_contract_info() {
    let mut app = App::new();
    let a = Address([1u8; 20]);
    app.update_wallet_info(a, 10);
    assert_eq!(app.initial_wallet_balance, Some(10));
    app.update_wallet_info(a, 25);
    assert_eq!(app.wallet_balance, Some(25));
    assert_eq!(app.initial_wallet_balance, Some(10));
    app.update_contract_info(Address([2u8; 20]), 99);
    assert_eq!(app.contract_balance, Some(99));
    assert_eq!(app.contract_address.unwrap().0, [2u8; 20]);
}

#[test]
fn counters() {
    let mut app = App::new();
    app.increment_uptime();
    app.increment_uptime();
    app.add_solution_found();
    app.update_mining_status(3, 1234);
    assert_eq!(app.mining_status.uptime, 2);
    assert_eq!(app.mining_status.total_solutions_found, 1);
    assert_eq!(app.mining_status.active_tasks, 3);
    assert_eq!(app.mining_status.total_hash_rate, 1234);
}

#[test]
fn response_times_read_after_write() {
    let mut app = App::new();
    assert_eq!(app.get_fastest_rpc(&["https://a"]), None);
    app.update_rpc_response_time("https://a".to_string(), 300);
    app.update_rpc_response_time("https://b".to_string(), 200);
    app.update_rpc_response_time("https://a".to_string(), 100);
    assert_eq!(app.rpc_response_times.len(), 2);
    assert_eq!(app.get_fastest_rpc(&["https://a", "https://b"]), Some("https://a"));
    assert_eq!(app.get_fastest_rpc(&["https://b", "https://c"]), Some("https://b"));
    assert_eq!(app.get_fastest_rpc(&["https://c"]), None);
    let mut times = Vec::new();
    set_response_time(&mut times, "x".to_string(), 5);
    set_response_time(&mut times, "x".to_string(), 8);
    assert_eq!(times, vec![("x".to_string(), 8)]);
    assert_eq!(find_measurement(&times, "x"), Some(0));
    assert_eq!(find_measurement(&times, "y"), None);
}

#[test]
fn log_scrolling() {
    let mut app = App::new();
    app.scroll_logs(5);
    assert_eq!(app.log_scroll, 5);
    app.scroll_logs(-2);
    assert_eq!(app.log_scroll, 3);
    app.scroll_logs(-10);
    assert_eq!(app.log_scroll, 0);
    app.scroll_logs(isize::MIN);
    assert_eq!(app.log_scroll, 0);
    app.log_scroll = usize::MAX - 1;
    app.scroll_logs(7);
    assert_eq!(app.log_scroll, usize::MAX);
    app.reset_log_scroll();
    assert_eq!(app.log_scroll, 0);
}

#[test]
fn config_and_timing() {
    let mut app = App::new();
    let config = AppConfig { task_count: 2, thread_count: 8, auto_select_rpc: false, auto_scroll_logs: false };
    app.set_config(config);
    assert_eq!(app.config.thread_count, 8);
    app.record_task_request_time(11, true);
    app.record_task_request_time(99, false);
    assert_eq!(app.timing_stats.avg_task_request_time_ms, 11);
    assert_eq!(app.timing_stats.total_tasks_requested, 1);
    assert_eq!(app.timing_stats.total_requests_failed, 1);
    app.record_calculation_time(3, true);
    app.record_calculation_time(0, false);
    assert_eq!(app.timing_stats.total_tasks_calculated, 1);
    assert_eq!(app.timing_stats.total_calculations_failed, 1);
    app.record_submission_time(4, false);
    assert_eq!(app.timing_stats.total_submissions_failed, 1);
    assert_eq!(app.timing_stats.avg_submission_time_sec, 0);
}

#[test]
fn status_classes() {
    assert!(is_active_task_status("计算中"));
    assert!(is_active_task_status("后台提交中"));
    assert!(is_active_task_status("提交中"));
    assert!(!is_active_task_status("成功"));
    assert!(is_finished_task_status("成功"));
    assert!(is_finished_task_status("提交失败"));
    assert!(is_finished_task_status("错误"));
    assert!(!is_finished_task_status("验证失败"));
}

#[test]
fn cleaning_keeps_running_tasks_and_newest_finished() {
    let mut app = App::new();
    let statuses = [
        (1, "成功"),
        (2, "计算中"),
        (7, "错误"),
        (3, "验证失败"),
        (5, "提交失败"),
        (4, "后台提交中"),
        (6, "成功"),
    ];
    for (id, st) in statuses {
        app.update_task(id, st.to_string());
    }
    app.clean_old_tasks(2);
    assert_eq!(task_ids(&app), vec![2, 4, 7, 6]);
    app.clean_old_tasks(0);
    assert_eq!(task_ids(&app), vec![2, 4]);
}
