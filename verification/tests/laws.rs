use magnet_miner::dashboard::App;
use magnet_miner::display::format_clock;
use magnet_miner::hashing::{calculate_hash, encode_packed, Token};
use magnet_miner::load_balancer::NodeStatus;
use magnet_miner::mining::{accepts_hash, verify_solution};
use magnet_miner::rpc::{candidate_nodes, node_urls_from_lines, trim_text};
use magnet_miner::submission::raised_gas_price;
use magnet_miner::u256::{Address, U256};

#[test]
fn law_trim_twice_is_trim_once() {
    for s in ["  a  ", "\t\nhttps://x\u{2003}", "", "   ", "b c"] {
        let once = trim_text(s);
        assert_eq!(trim_text(&once), once);
    }
}

#[test]
fn law_node_file_yields_trimmed_http_urls() {
    let lines: Vec<String> = ["http", " https://a ", "x", "  ", "\thttp://b"].iter().map(|s| s.to_string()).collect();
    let nodes = node_urls_from_lines(&lines);
    assert_eq!(nodes.len(), 3);
    for n in &nodes {
        assert!(!n.is_empty());
        assert!(n.starts_with("http"));
        assert_eq!(n.trim(), n);
    }
}

#[test]
fn law_custom_node_always_offered() {
    let d = vec!["https://a".to_string()];
    let e = vec!["https://b".to_string()];
    for custom in ["https://a", "https://b", "https://new"] {
        let list = candidate_nodes(d.clone(), e.clone(), Some(custom.to_string()));
        assert!(list.iter().any(|u| u == custom));
        assert!(list.iter().any(|u| u == "https://a"));
        assert!(list.iter().any(|u| u == "https://b"));
    }
    assert_eq!(candidate_nodes(d, e, Some("https://new".to_string()))[0], "https://new");
}

#[test]
fn law_clock_fields_add_up() {
    for total in [0u64, 59, 60, 3599, 3600, 3725, 86_399, 1_000_000] {
        let text = format_clock(total);
        let parts: Vec<u64> = text.split(':').map(|p| p.parse().unwrap()).collect();
        assert_eq!(parts.len(), 3);
        assert_eq!(parts[0] * 3600 + parts[1] * 60 + parts[2], total);
        let fields: Vec<&str> = text.split(':').collect();
        assert_eq!(fields[1].len(), 2);
        assert_eq!(fields[2].len(), 2);
    }
}

#[test]
fn law_raised_price_never_above_cap() {
    let reward = U256::from_u64(3_000_000_000_000_000_000);
    let gas = U256::from_u64(150_000);
    let cap = 3_000_000_000_000_000_000u128 * 60 / (150_000 * 100);
    for current in [1u64, 1_000_000_000, 10_000_000_000_000, 100_000_000_000_000] {
        for retry in 0..4usize {
            let p = raised_gas_price(U256::from_u64(current), 10, retry, reward, gas);
            assert_eq!(p.0[1..], [0, 0, 0]);
            assert!((p.0[0] as u128) <= cap);
        }
    }
}

#[test]
fn law_local_acceptance_within_target() {
    let addr = Address([9u8; 20]);
    let nonce = U256::from_u64(77);
    for d in [1u64, 2, 3, 16, 1000] {
        for s in 0u64..64 {
            let hash = calculate_hash(nonce, addr, U256::from_u64(s));
            if accepts_hash(&hash, &U256::from_u64(d)) {
                assert!(verify_solution(nonce, addr, U256::from_u64(s), U256::from_u64(d)));
            }
        }
    }
}

#[test]
fn law_average_stays_between() {
    for (first, second) in [(100u64, 900u64), (900, 100), (500, 500), (0, 1000)] {
        let mut n = NodeStatus::new("https://n".to_string());
        n.record_success(first);
        n.record_success(second);
        assert!(n.avg_response_time >= first.min(second));
        assert!(n.avg_response_time <= first.max(second));
    }
}

#[test]
fn law_scroll_back_and_forth() {
    let mut app = App::new();
    app.log_scroll = 7;
    app.scroll_logs(5);
    app.scroll_logs(-5);
    assert_eq!(app.log_scroll, 7);
}

#[test]
fn law_task_ids_stay_distinct() {
    let mut app = App::new();
    for round in 0..3usize {
        for id in [3usize, 1, 3, 2, 1] {
            let status = if (id + round) % 2 == 0 { "成功" } else { "计算中" };
            app.update_task(id, status.to_string());
        }
        app.clean_old_tasks(1);
        let mut ids: Vec<usize> = app.tasks.iter().map(|t| t.id).collect();
        let n = ids.len();
        ids.sort();
        ids.dedup();
        assert_eq!(ids.len(), n);
    }
}

#[test]
fn law_packed_uint_reads_back() {
    for v in [0u64, 1, 255, 256, 0x0102_0304, u64::MAX] {
        let packed = encode_packed(&[Token::Uint(U256::from_u64(v))]).unwrap();
        let mut value: u128 = 0;
        for b in &packed {
            value = value * 256 + *b as u128;
        }
        assert_eq!(value, v as u128);
        assert!(!packed.is_empty());
        assert!(v == 0 || packed[0] != 0);
    }
}

#[test]
fn law_cleaning_twice_is_cleaning_once() {
    let mut app = App::new();
    let statuses = [(1usize, "成功"), (2, "计算中"), (7, "错误"), (3, "验证失败"), (5, "提交失败"), (4, "后台提交中"), (6, "成功")];
    for (id, st) in statuses {
        app.update_task(id, st.to_string());
    }
    for m in [0usize, 1, 2, 10] {
        let mut once = App::new();
        for (id, st) in statuses {
            once.update_task(id, st.to_string());
        }
        once.clean_old_tasks(m);
        let first: Vec<usize> = once.tasks.iter().map(|t| t.id).collect();
        once.clean_old_tasks(m);
        let second: Vec<usize> = once.tasks.iter().map(|t| t.id).collect();
        assert_eq!(first, second);
        assert!(first.len() <= 2 + m);
    }
}

#[test]
fn law_difficulty_one_and_lower_difficulty() {
    let addr = Address([4u8; 20]);
    for s in 0u64..20 {
        let nonce = U256::from_u64(s * 3);
        assert!(verify_solution(nonce, addr, U256::from_u64(s), U256::one()));
        for (d1, d2) in [(1u64, 2u64), (2, 16), (5, 1000)] {
            if verify_solution(nonce, addr, U256::from_u64(s), U256::from_u64(d2)) {
                assert!(verify_solution(nonce, addr, U256::from_u64(s), U256::from_u64(d1)));
            }
        }
    }
}
