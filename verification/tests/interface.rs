use std::time::Duration;

use magnet_miner::display::{format_clock, format_duration, status_tone, StatusTone};
use magnet_miner::event::{ends_forwarding, is_quit_key, poll_timeout_ms, tick_due, Event, EventHandler};
use magnet_miner::rpc::{candidate_nodes, default_rpc_nodes, fastest_measured, node_urls_from_lines, trim_text};

fn strings(v: &[&str]) -> Vec<String> {
    v.iter().map(|s| s.to_string()).collect()
}

#[test]
fn clock_text_examples() {
    assert_eq!(format_clock(3725), "1:02:05");
    assert_eq!(format_clock(0), "0:00:00");
    assert_eq!(format_clock(59), "0:00:59");
    assert_eq!(format_clock(3600), "1:00:00");
    assert_eq!(format_clock(360_000), "100:00:00");
    assert_eq!(format_clock(86_399), "23:59:59");
    assert_eq!(format_clock(u64::MAX), "5124095576030431:00:15");
}

#[test]
fn duration_counts_whole_seconds() {
    assert_eq!(format_duration(Duration::from_secs(3725)), "1:02:05");
    assert_eq!(format_duration(Duration::from_millis(59_999)), "0:00:59");
    assert_eq!(format_duration(Duration::from_secs(0)), "0:00:00");
}

#[test]
fn status_tones() {
    assert_eq!(status_tone("成功"), StatusTone::Success);
    assert_eq!(status_tone("处理中"), StatusTone::Busy);
    assert_eq!(status_tone("错误"), StatusTone::Failure);
    assert_eq!(status_tone("提交失败"), StatusTone::Plain);
    assert_eq!(status_tone(""), StatusTone::Plain);
}

#[test]
fn quit_keys() {
    assert!(is_quit_key(Some('q'), false));
    assert!(is_quit_key(Some('q'), true));
    assert!(is_quit_key(Some('c'), true));
    assert!(!is_quit_key(Some('c'), false));
    assert!(!is_quit_key(Some('x'), true));
    assert!(!is_quit_key(None, true));
}

#[test]
fn tick_timing() {
    assert!(tick_due(1000, 1000));
    assert!(tick_due(1500, 1000));
    assert!(!tick_due(999, 1000));
    assert_eq!(poll_timeout_ms(300, 1000), 700);
    assert_eq!(poll_timeout_ms(1000, 1000), 0);
    assert_eq!(poll_timeout_ms(1500, 1000), 0);
    let h = EventHandler::new(Duration::from_millis(250));
    assert_eq!(h.tick_rate(), Duration::from_millis(250));
}

#[test]
fn forwarding_stops_at_input() {
    assert!(ends_forwarding(&Event::Input(())));
    assert!(!ends_forwarding(&Event::<()>::Tick));
}

#[test]
fn trimming() {
    assert_eq!(trim_text("  https://a.io \t\n"), "https://a.io");
    assert_eq!(trim_text("\u{3000}x y\u{00a0}"), "x y");
    assert_eq!(trim_text("   "), "");
    assert_eq!(trim_text(""), "");
    assert_eq!(trim_text("abc"), "abc");
}

#[test]
fn node_file_lines() {
    let lines = strings(&["  https://x ", "", "# comment", "http://y", "ws://z", "\thttps://w\t", "   ", "HTTP://upper"]);
    assert_eq!(node_urls_from_lines(&lines), strings(&["https://x", "http://y", "https://w"]));
    assert!(node_urls_from_lines(&Vec::new()).is_empty());
}

#[test]
fn builtin_nodes() {
    let nodes = default_rpc_nodes();
    assert_eq!(
        nodes,
        strings(&[
            "https://node1.magnetchain.xyz",
            "https://node2.magnetchain.xyz",
            "https://node3.magnetchain.xyz",
            "https://node4.magnetchain.xyz",
        ])
    );
}

#[test]
fn candidates_put_new_custom_first() {
    let d = strings(&["https://a", "https://b"]);
    let e = strings(&["https://c"]);
    assert_eq!(
        candidate_nodes(d.clone(), e.clone(), Some("https://z".to_string())),
        strings(&["https://z", "https://a", "https://b", "https://c"])
    );
    assert_eq!(
        candidate_nodes(d.clone(), e.clone(), Some("https://c".to_string())),
        strings(&["https://a", "https://b", "https://c"])
    );
    assert_eq!(candidate_nodes(d, e, None), strings(&["https://a", "https://b", "https://c"]));
}

#[test]
fn fastest_measurement() {
    let times = vec![("a".to_string(), 300u64), ("b".to_string(), 100), ("c".to_string(), 100)];
    assert_eq!(fastest_measured(&times), Some(1));
    assert_eq!(fastest_measured(&vec![("x".to_string(), 5)]), Some(0));
    assert_eq!(fastest_measured(&Vec::new()), None);
}
