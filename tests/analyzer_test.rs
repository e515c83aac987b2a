use loganalyzer::filter::FilterConfig;
use loganalyzer::stats::{analyze, Report};
use loganalyzer::time::parse_filter_datetime;

fn sample_lines() -> Vec<Option<String>> {
    let raw = [
        r#"192.168.1.1 - - [10/Oct/2023:13:55:36 +0000] "GET /index.html HTTP/1.1" 200 2326 "-" "Mozilla/5.0""#,
        r#"192.168.1.2 - - [10/Oct/2023:13:58:12 +0000] "GET /about.html HTTP/1.1" 200 1500 "-" "Mozilla/5.0""#,
        r#"192.168.1.1 - - [10/Oct/2023:14:01:05 +0000] "GET /missing HTTP/1.1" 404 512 "-" "curl/8.0""#,
        r#"10.0.0.5 - frank [10/Oct/2023:14:05:44 +0000] "POST /login HTTP/1.1" 200 128"#,
        r#"192.168.1.3 - - [10/Oct/2023:14:10:00 +0000] "GET /admin HTTP/1.1" 403 - "-" "Mozilla/5.0""#,
        r#"192.168.1.1 - - [10/Oct/2023:14:20:31 +0000] "GET /api/data HTTP/1.1" 500 87 "-" "python-requests/2.31""#,
        r#"10.0.0.5 - - [10/Oct/2023:15:00:00 +0000] "GET /index.html HTTP/1.1" 200 2326 "-" "Mozilla/5.0""#,
        r#"192.168.1.2 - - [10/Oct/2023:15:30:15 +0000] "GET /style.css HTTP/1.1" 200 640 "https://example.com/" "Mozilla/5.0""#,
        r#"192.168.1.4 - - [10/Oct/2023:16:45:00 +0000] "GET /favicon.ico HTTP/1.1" 200 318 "-" "Mozilla/5.0""#,
        r#"192.168.1.1 - - [10/Oct/2023:17:02:59 +0000] "GET /index.html HTTP/1.1" 200 2326 "-" "Mozilla/5.0""#,
    ];
    raw.iter().map(|l| Some(l.to_string())).collect()
}

fn no_filter() -> FilterConfig {
    FilterConfig { from: None, to: None, status: None }
}

fn status_count(r: &Report, key: &str) -> Option<usize> {
    r.requests_by_status.iter().find(|p| p.0 == key).map(|p| p.1)
}

fn error_rate(r: &Report) -> f64 {
    if r.total_requests == 0 {
        0.0
    } else {
        r.error_count as f64 / r.total_requests as f64 * 100.0
    }
}

#[test]
fn test_empty_log_file() {
    let r = analyze(&Vec::new(), &no_filter(), 10);
    assert_eq!(r.total_requests, 0);
    assert_eq!(r.total_bytes, 0);
    assert_eq!(error_rate(&r), 0.0);
    assert!(r.top_ips.is_empty());
}

#[test]
fn test_invalid_log_lines() {
    let lines = vec![
        Some("this is not a log line".to_string()),
        Some("192.168.1.1 - - 10/Oct/2023:13:55:36 +0000 \"GET / HTTP/1.1\" 200 10".to_string()),
        Some("192.168.1.1 - - [10/Oct/2023:13:55:36 +0000] \"GET / HTTP/1.1\" abc 10".to_string()),
    ];
    let r = analyze(&lines, &no_filter(), 10);
    assert_eq!(r.total_requests, 0);
    assert_eq!(r.skipped_lines, 3);
}

#[test]
fn test_sample_log_basic_stats() {
    let r = analyze(&sample_lines(), &no_filter(), 10);
    assert_eq!(r.total_requests, 10);
    assert!(r.total_bytes > 0);
    assert!(status_count(&r, "200").is_some());
    assert!(status_count(&r, "404").is_some());
}

#[test]
fn test_datetime_filter() {
    let from = parse_filter_datetime("2023-10-10 14:00").unwrap();
    let config = FilterConfig { from: Some(from), to: None, status: None };
    let r = analyze(&sample_lines(), &config, 10);
    assert!(r.total_requests < 10);
    assert_eq!(r.total_requests, 8);
}

#[test]
fn test_status_filter() {
    let config = FilterConfig { from: None, to: None, status: Some("4xx".to_string()) };
    let r = analyze(&sample_lines(), &config, 10);
    for (status, _) in &r.requests_by_status {
        let status_code: u16 = status.parse().unwrap();
        assert!(status_code >= 400 && status_code < 500);
    }
    assert_eq!(r.total_requests, 2);
}

#[test]
fn test_top_ips() {
    let r = analyze(&sample_lines(), &no_filter(), 3);
    assert!(r.top_ips.len() <= 3);
    if r.top_ips.len() > 1 {
        assert!(r.top_ips[0].count >= r.top_ips[1].count);
    }
    assert_eq!(r.top_ips[0].ip, "192.168.1.1");
    assert_eq!(r.top_ips[0].count, 4);
}

#[test]
fn test_error_rate_calculation() {
    let r = analyze(&sample_lines(), &no_filter(), 10);
    assert!((error_rate(&r) - 30.0).abs() < 0.1);
    assert_eq!(status_count(&r, "200"), Some(7));
}
