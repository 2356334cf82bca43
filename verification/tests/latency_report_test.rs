//! Benchmark report parsing and summary tests.

use cscp_connector::latency::{parse_latencies, summarize_latencies};

#[test]
fn test_parse_one_value_per_line() {
    assert_eq!(parse_latencies("1\n2\n3\n"), vec![1, 2, 3]);
    assert_eq!(parse_latencies("7"), vec![7]);
    assert_eq!(parse_latencies(""), Vec::<u64>::new());
    assert_eq!(parse_latencies("\n\n"), Vec::<u64>::new());
}

#[test]
fn test_parse_trims_and_skips() {
    let text = "12\n 34 \n\nabc\n+5\n-3\n4 5\n18446744073709551615\n18446744073709551616\n007\r\n";
    assert_eq!(parse_latencies(text), vec![12, 34, 5, 18446744073709551615, 7]);
}

#[test]
fn test_parse_unicode_white_space() {
    assert_eq!(parse_latencies("\u{a0}42\u{3000}\n\u{2009}9\u{85}"), vec![42, 9]);
    assert_eq!(parse_latencies("\u{2028}\n+\n"), Vec::<u64>::new());
}

#[test]
fn test_parse_matches_std() {
    let text = "0\n  18446744073709551615\t\n99999999999999999999\n1\u{1680}\n\u{b}3\u{c}\n++1\n+\n1a\n";
    let expected: Vec<u64> = text.lines().filter_map(|l| l.trim().parse::<u64>().ok()).collect();
    assert_eq!(parse_latencies(text), expected);
}

#[test]
fn test_summary() {
    let s = summarize_latencies("5\n1\nx\n3\n1\n").expect("four latencies");
    assert_eq!(s.sorted, vec![1, 1, 3, 5]);
    assert_eq!(s.max, 5);
    assert!(summarize_latencies("").is_none());
    assert!(summarize_latencies("none\n\n").is_none());
}
