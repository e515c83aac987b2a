use loganalyzer::filter::{matches_status_filter, FilterConfig};
use loganalyzer::stats::{analyze, Aggregator};
use loganalyzer::parse::parse_log_line;
use loganalyzer::time::parse_filter_datetime;

fn line(ip: &str, time: &str, status: u16, bytes: &str) -> Option<String> {
    Some(format!("{} - - [{}] \"GET / HTTP/1.1\" {} {}", ip, time, status, bytes))
}

#[test]
fn status_classes() {
    let f = |s: &str| Some(s.to_string());
    assert!(matches_status_filter(200, &f("2xx")));
    assert!(matches_status_filter(299, &f("2xx")));
    assert!(!matches_status_filter(300, &f("2xx")));
    assert!(matches_status_filter(301, &f("3xx")));
    assert!(matches_status_filter(404, &f("4xx")));
    assert!(!matches_status_filter(500, &f("4xx")));
    assert!(matches_status_filter(599, &f("5xx")));
    assert!(!matches_status_filter(600, &f("5xx")));
    assert!(matches_status_filter(600, &f("6xx")));
    assert!(matches_status_filter(123, &f("whatever")));
    assert!(matches_status_filter(123, &None));
}

#[test]
fn upper_bound_is_inclusive() {
    let to = parse_filter_datetime("2023-10-10 14:00").unwrap();
    let config = FilterConfig { from: None, to: Some(to), status: None };
    let lines = vec![
        line("a", "10/Oct/2023:14:00:00 +0000", 200, "1"),
        line("b", "10/Oct/2023:14:00:01 +0000", 200, "1"),
        line("c", "10/Oct/2023:15:30:00 +0200", 200, "1"),
    ];
    let r = analyze(&lines, &config, 10);
    assert_eq!(r.total_requests, 2);
}

#[test]
fn filters_do_not_change_skipped_lines() {
    let lines = vec![
        line("a", "10/Oct/2023:12:00:00 +0000", 200, "1"),
        Some("garbage".to_string()),
        None,
        line("b", "10/Oct/2023:16:00:00 +0000", 500, "1"),
    ];
    let all = analyze(&lines, &FilterConfig { from: None, to: None, status: None }, 10);
    let from = parse_filter_datetime("2023-10-10 14:00").unwrap();
    let some = analyze(
        &lines,
        &FilterConfig { from: Some(from), to: None, status: Some("2xx".to_string()) },
        10,
    );
    assert_eq!(all.skipped_lines, 2);
    assert_eq!(some.skipped_lines, 2);
    assert_eq!(all.total_requests, 2);
    assert_eq!(some.total_requests, 0);
}

#[test]
fn counts_agree() {
    let lines = vec![
        line("a", "10/Oct/2023:12:00:00 +0000", 200, "10"),
        line("b", "10/Oct/2023:12:30:00 +0000", 404, "-"),
        line("a", "10/Oct/2023:13:00:00 +0000", 200, "5"),
    ];
    let r = analyze(&lines, &FilterConfig { from: None, to: None, status: None }, 10);
    let s: usize = r.requests_by_status.iter().map(|p| p.1).sum();
    let h: usize = r.requests_by_hour.iter().map(|p| p.1).sum();
    assert_eq!(r.total_requests, 3);
    assert_eq!(s, 3);
    assert_eq!(h, 3);
    assert_eq!(r.total_bytes, 15);
    assert_eq!(r.error_count, 1);
    assert_eq!(r.requests_by_hour[0], ("2023-10-10 12:00".to_string(), 2));
    assert_eq!(r.requests_by_hour[1], ("2023-10-10 13:00".to_string(), 1));
}

#[test]
fn ranking_with_ties() {
    let lines = vec![
        line("x", "10/Oct/2023:12:00:00 +0000", 200, "1"),
        line("y", "10/Oct/2023:12:00:00 +0000", 200, "1"),
        line("y", "10/Oct/2023:12:00:00 +0000", 200, "1"),
        line("z", "10/Oct/2023:12:00:00 +0000", 200, "1"),
        line("z", "10/Oct/2023:12:00:00 +0000", 200, "1"),
        line("z", "10/Oct/2023:12:00:00 +0000", 200, "1"),
        line("w", "10/Oct/2023:12:00:00 +0000", 200, "1"),
    ];
    let config = FilterConfig { from: None, to: None, status: None };
    let r = analyze(&lines, &config, 2);
    assert_eq!(r.top_ips.len(), 2);
    assert_eq!(r.top_ips[0].ip, "z");
    assert_eq!(r.top_ips[0].count, 3);
    assert_eq!(r.top_ips[1].ip, "y");
    let all = analyze(&lines, &config, 10);
    assert_eq!(all.top_ips.len(), 4);
    for k in 1..all.top_ips.len() {
        assert!(all.top_ips[k - 1].count >= all.top_ips[k].count);
    }
}

#[test]
fn same_input_same_report() {
    let lines = vec![
        line("a", "10/Oct/2023:12:00:00 +0000", 200, "1"),
        line("b", "11/Oct/2023:12:00:00 +0000", 302, "1"),
        line("b", "11/Oct/2023:12:00:00 +0000", 503, "7"),
    ];
    let config = FilterConfig { from: None, to: None, status: None };
    let r1 = format!("{:?}", analyze(&lines, &config, 5));
    let r2 = format!("{:?}", analyze(&lines, &config, 5));
    assert_eq!(r1, r2);
}

#[test]
fn aggregator_streams_lines() {
    let config = FilterConfig { from: None, to: None, status: Some("5xx".to_string()) };
    let mut agg = Aggregator::new();
    agg.consume(&line("a", "10/Oct/2023:12:00:00 +0000", 500, "3"), &config);
    agg.consume(&line("a", "10/Oct/2023:12:00:00 +0000", 200, "3"), &config);
    agg.consume(&None, &config);
    let e = parse_log_line("q - - [10/Oct/2023:12:00:00 +0000] \"x\" 404 4").unwrap();
    agg.update(&e);
    let r = agg.finalize(10);
    assert_eq!(r.total_requests, 2);
    assert_eq!(r.skipped_lines, 1);
    assert_eq!(r.error_count, 2);
    assert_eq!(r.total_bytes, 7);
}
