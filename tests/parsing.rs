use loganalyzer::parse::parse_log_line;
use loganalyzer::text::decimal_text;
use loganalyzer::time::{hour_bucket, parse_filter_datetime, parse_log_timestamp};

#[test]
fn full_line_is_read() {
    let e = parse_log_line(
        r#"127.0.0.1 - - [10/Oct/2023:13:55:36 -0700] "GET / HTTP/1.1" 200 2326 "-" "Mozilla/5.0""#,
    )
    .unwrap();
    assert_eq!(e.ip, "127.0.0.1");
    assert_eq!(e.status, 200);
    assert_eq!(e.bytes, 2326);
    assert_eq!(e.timestamp.hour, 13);
    assert_eq!(e.timestamp.seconds, 1696971336);
}

#[test]
fn line_without_referer_and_agent_is_read() {
    let e = parse_log_line(r#"10.0.0.1 id user [01/Jan/2024:00:00:00 +0000] "" 301 17"#).unwrap();
    assert_eq!(e.ip, "10.0.0.1");
    assert_eq!(e.status, 301);
    assert_eq!(e.bytes, 17);
}

#[test]
fn dash_size_is_zero() {
    let e = parse_log_line(r#"1.2.3.4 - - [10/Oct/2023:13:55:36 +0000] "GET / HTTP/1.1" 304 -"#).unwrap();
    assert_eq!(e.bytes, 0);
}

#[test]
fn plus_sign_size_is_read() {
    let e = parse_log_line(r#"1.2.3.4 - - [10/Oct/2023:13:55:36 +0000] "GET / HTTP/1.1" 200 +15"#).unwrap();
    assert_eq!(e.bytes, 15);
}

#[test]
fn bad_size_rejects_line() {
    assert!(parse_log_line(r#"1.2.3.4 - - [10/Oct/2023:13:55:36 +0000] "GET / HTTP/1.1" 200 12k"#).is_none());
    assert!(parse_log_line(r#"1.2.3.4 - - [10/Oct/2023:13:55:36 +0000] "GET / HTTP/1.1" 200 -5"#).is_none());
}

#[test]
fn status_above_u16_rejects_line() {
    assert!(parse_log_line(r#"1.2.3.4 - - [10/Oct/2023:13:55:36 +0000] "GET / HTTP/1.1" 70000 1"#).is_none());
    let e = parse_log_line(r#"1.2.3.4 - - [10/Oct/2023:13:55:36 +0000] "GET / HTTP/1.1" 65535 1"#).unwrap();
    assert_eq!(e.status, 65535);
}

#[test]
fn bad_time_rejects_line() {
    assert!(parse_log_line(r#"1.2.3.4 - - [10/Foo/2023:13:55:36 +0000] "GET / HTTP/1.1" 200 1"#).is_none());
    assert!(parse_log_line(r#"1.2.3.4 - - [] "GET / HTTP/1.1" 200 1"#).is_none());
}

#[test]
fn structure_deviations_reject_line() {
    // missing closing quote of the request
    assert!(parse_log_line(r#"1.2.3.4 - - [10/Oct/2023:13:55:36 +0000] "GET / HTTP/1.1 200 1"#).is_none());
    // tab in place of a space
    assert!(parse_log_line("1.2.3.4\t- - [10/Oct/2023:13:55:36 +0000] \"GET\" 200 1").is_none());
    // trailing text after the size
    assert!(parse_log_line(r#"1.2.3.4 - - [10/Oct/2023:13:55:36 +0000] "GET" 200 1 extra"#).is_none());
    // only a referer, no user agent
    assert!(parse_log_line(r#"1.2.3.4 - - [10/Oct/2023:13:55:36 +0000] "GET" 200 1 "-""#).is_none());
    assert!(parse_log_line("").is_none());
}

#[test]
fn hour_bucket_uses_own_offset() {
    let t = parse_log_timestamp("10/Oct/2023:13:55:36 -0700").unwrap();
    assert_eq!(hour_bucket(&t), "2023-10-10 13:00");
    let u = parse_log_timestamp("05/Mar/0999:07:00:00 +0130").unwrap();
    assert_eq!(hour_bucket(&u), "0999-03-05 07:00");
}

#[test]
fn filter_time_reads_as_utc() {
    let t = parse_filter_datetime("2023-10-10 14:00").unwrap();
    assert_eq!(t.seconds, 1696946400);
    assert_eq!(t.nanos, 0);
}

#[test]
fn malformed_filter_time_is_an_error() {
    let e = parse_filter_datetime("2023/10/10 14:00").unwrap_err();
    assert!(e.starts_with("Invalid datetime format: "));
    assert!(e.len() > "Invalid datetime format: ".len());
}

#[test]
fn decimal_text_writes_digits() {
    assert_eq!(decimal_text(0), "0");
    assert_eq!(decimal_text(404), "404");
    assert_eq!(decimal_text(u64::MAX), "18446744073709551615");
}
