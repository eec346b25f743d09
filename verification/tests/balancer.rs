use magnet_miner::load_balancer::{refresh_due, BalancerError, LoadBalancer, NodeStatus};

fn urls(v: &[&str]) -> Vec<String> {
    v.iter().map(|s| s.to_string()).collect()
}

fn find<'a>(nodes: &'a [NodeStatus], url: &str) -> &'a NodeStatus {
    nodes.iter().find(|n| n.url == url).unwrap()
}

#[test]
fn fresh_node_defaults() {
    let n = NodeStatus::new("https://a".to_string());
    assert_eq!(n.url, "https://a");
    assert_eq!(n.last_response_time, None);
    assert_eq!(n.avg_response_time, 1000);
    assert_eq!(n.success_count, 0);
    assert_eq!(n.fail_count, 0);
    assert_eq!(n.consecutive_failures, 0);
    assert!(n.is_active);
    assert!(!n.health_scored);
}

#[test]
fn moving_average_weighs_new_answers_thirty_percent() {
    let mut n = NodeStatus::new("https://a".to_string());
    n.record_success(200);
    assert_eq!(n.avg_response_time, 200);
    assert_eq!(n.last_response_time, Some(200));
    n.record_success(100);
    assert_eq!(n.avg_response_time, 170);
    assert_eq!(n.success_count, 2);
    assert!(n.health_scored);
}

#[test]
fn three_failures_take_node_out_and_success_clears_streak() {
    let mut n = NodeStatus::new("https://a".to_string());
    n.record_failure();
    n.record_failure();
    assert!(n.is_active);
    n.record_failure();
    assert!(!n.is_active);
    assert_eq!(n.consecutive_failures, 3);
    assert_eq!(n.fail_count, 3);
    n.reactivate();
    assert!(n.is_active);
    assert_eq!(n.consecutive_failures, 0);
    n.record_failure();
    n.record_success(50);
    assert_eq!(n.consecutive_failures, 0);
}

#[test]
fn balancer_knows_defaults_and_ignores_duplicates() {
    let mut lb = LoadBalancer::new(urls(&["https://a", "https://b", "https://a"]));
    assert_eq!(lb.get_all_nodes().len(), 2);
    lb.add_node("https://c".to_string());
    lb.add_node("https://b".to_string());
    lb.add_nodes(urls(&["https://d", "https://c", "https://e"]));
    let all: Vec<String> = lb.get_all_nodes().into_iter().map(|n| n.url).collect();
    assert_eq!(all, urls(&["https://a", "https://b", "https://c", "https://d", "https://e"]));
}

#[test]
fn records_go_to_the_named_node_only() {
    let mut lb = LoadBalancer::new(urls(&["https://a", "https://b"]));
    lb.record_node_success("https://a", 80);
    lb.record_node_failure("https://b");
    lb.record_node_success("https://unknown", 5);
    let all = lb.get_all_nodes();
    assert_eq!(find(&all, "https://a").avg_response_time, 80);
    assert_eq!(find(&all, "https://b").fail_count, 1);
    assert_eq!(all.len(), 2);
}

#[test]
fn fastest_active_node_is_selected() {
    let mut lb = LoadBalancer::new(urls(&["https://a", "https://b", "https://c"]));
    lb.record_node_success("https://a", 300);
    lb.record_node_success("https://b", 100);
    lb.record_node_success("https://c", 100);
    assert_eq!(lb.select_fastest_node(), Some("https://b".to_string()));
    for _ in 0..3 {
        lb.record_node_failure("https://b");
    }
    assert_eq!(lb.select_fastest_node(), Some("https://c".to_string()));
    assert_eq!(lb.get_active_nodes().len(), 2);
}

#[test]
fn best_node_takes_drawn_position_or_first() {
    let mut lb = LoadBalancer::new(urls(&["https://a", "https://b", "https://c"]));
    assert_eq!(lb.select_best_node(1), Some("https://b".to_string()));
    assert_eq!(lb.select_best_node(7), Some("https://a".to_string()));
    for _ in 0..3 {
        lb.record_node_failure("https://a");
    }
    // positions count nodes in rotation only
    assert_eq!(lb.select_best_node(0), Some("https://b".to_string()));
}

#[test]
fn no_node_in_rotation_recovers_first_default() {
    let mut lb = LoadBalancer::new(urls(&["https://a", "https://b"]));
    lb.add_node("https://x".to_string());
    for u in ["https://a", "https://b", "https://x"] {
        for _ in 0..3 {
            lb.record_node_failure(u);
        }
    }
    assert!(lb.get_active_nodes().is_empty());
    assert_eq!(lb.select_best_node(0), Some("https://a".to_string()));
    let active = lb.get_active_nodes();
    assert_eq!(active.len(), 1);
    assert_eq!(active[0].url, "https://a");
    assert_eq!(active[0].consecutive_failures, 0);
}

#[test]
fn no_defaults_and_no_rotation_means_no_node() {
    let mut lb = LoadBalancer::new(Vec::new());
    assert_eq!(lb.select_best_node(0), None);
    assert_eq!(lb.begin_request(0), Err(BalancerError::NoNodeAvailable));
    lb.add_node("https://x".to_string());
    assert_eq!(lb.begin_request(0), Ok("https://x".to_string()));
}

#[test]
fn fail_over_picks_another_node() {
    let mut lb = LoadBalancer::new(urls(&["https://a", "https://b"]));
    assert_eq!(lb.begin_request(0), Ok("https://a".to_string()));
    lb.record_node_failure("https://a");
    assert_eq!(lb.fail_over("https://a", 0), Err(BalancerError::AllNodesUnavailable));
    assert_eq!(lb.fail_over("https://a", 1), Ok("https://b".to_string()));
    let all = lb.get_all_nodes();
    assert_eq!(find(&all, "https://a").fail_count, 1);
}

#[test]
fn fail_over_without_backup() {
    let mut lb = LoadBalancer::new(Vec::new());
    lb.add_node("https://only".to_string());
    for _ in 0..3 {
        lb.record_node_failure("https://only");
    }
    assert_eq!(lb.fail_over("https://only", 0), Err(BalancerError::NoBackupAvailable));
}

#[test]
fn refresh_reactivates_and_records_probes() {
    let mut lb = LoadBalancer::new(urls(&["https://a", "https://b", "https://c"]));
    for _ in 0..3 {
        lb.record_node_failure("https://a");
    }
    lb.reactivate_inactive_nodes();
    assert_eq!(lb.get_active_nodes().len(), 3);
    let probes = vec![
        ("https://b".to_string(), Some(40u64)),
        ("https://zzz".to_string(), Some(1)),
        ("https://b".to_string(), Some(70)),
        ("https://c".to_string(), None),
    ];
    assert!(lb.probe_results_fit(&probes));
    lb.record_probe_results(&probes);
    let all = lb.get_all_nodes();
    let b = find(&all, "https://b");
    assert_eq!(b.success_count, 2);
    assert_eq!(b.avg_response_time, (40 * 7 + 70 * 3) / 10);
    let c = find(&all, "https://c");
    assert_eq!(c.fail_count, 1);
    assert_eq!(c.consecutive_failures, 1);
    assert_eq!(find(&all, "https://a").success_count, 0);
    assert_eq!(find(&all, "https://a").fail_count, 3);
    assert_eq!(all.len(), 3);
}

#[test]
fn failed_probes_take_node_out_after_three() {
    let mut lb = LoadBalancer::new(urls(&["https://a"]));
    for _ in 0..3 {
        lb.record_probe_results(&vec![("https://a".to_string(), None)]);
    }
    assert!(lb.get_active_nodes().is_empty());
}

#[test]
fn probe_fit_check_refuses_overflow() {
    let mut lb = LoadBalancer::new(urls(&["https://a"]));
    lb.record_node_success("https://a", u64::MAX / 10);
    assert!(lb.probe_results_fit(&vec![("https://a".to_string(), Some(u64::MAX / 10))]));
    assert!(!lb.probe_results_fit(&vec![("https://a".to_string(), Some(u64::MAX))]));
    assert!(lb.probe_results_fit(&vec![("https://unknown".to_string(), Some(u64::MAX))]));
}

#[test]
fn refresh_due_after_a_minute() {
    assert!(!refresh_due(0));
    assert!(!refresh_due(59_999));
    assert!(refresh_due(60_000));
    assert!(refresh_due(3_600_000));
}
