use upchuk::check::{check_empty_message, check_plan, check_report_lines, format_check_progress, format_check_result, CheckOutcome};
use upchuk::codec::{parse_record, serialize_record};
use upchuk::dates::{format_date, today_date_string, u64_to_string};
use upchuk::listing::format_url_list;
use upchuk::record::UrlType;
use upchuk::store::{add_outcome_message, add_urls, get_urls, is_url_present, AddOutcome};

fn rec(url: &str, tag: Option<&str>, date: &str) -> UrlType {
    UrlType {
        url: url.to_string(),
        tag: tag.map(|t| t.to_string()),
        date: date.to_string(),
    }
}

#[test]
fn serialize_plain_record() {
    let r = rec("example.com", None, "2024-01-02");
    let line = serialize_record(&r);
    assert_eq!(line, "{\"url\":\"example.com\",\"tag\":null,\"date\":\"2024-01-02\"}");
}

#[test]
fn serialize_tagged_record() {
    let r = rec("example.com", Some("news"), "2024-01-02");
    let line = serialize_record(&r);
    assert_eq!(
        line,
        "{\"url\":\"example.com\",\"tag\":\"news\",\"date\":\"2024-01-02\"}"
    );
}

#[test]
fn serialize_escapes_specials() {
    let r = rec("a\"b\\c\nd", None, "2024-01-02");
    let line = serialize_record(&r);
    assert_eq!(
        line,
        "{\"url\":\"a\\\"b\\\\c\\u000ad\",\"tag\":null,\"date\":\"2024-01-02\"}"
    );
}

#[test]
fn round_trip_plain() {
    let r = rec("example.com", None, "2024-01-02");
    let line = serialize_record(&r);
    let back = parse_record(&line).expect("a serialized record parses");
    assert_eq!(back.url, "example.com");
    assert_eq!(back.tag, None);
    assert_eq!(back.date, "2024-01-02");
}

#[test]
fn round_trip_with_escapes_and_tag() {
    let r = rec("a\"b\\c\x07d", Some("t\u{1f}g"), "2024-12-31");
    let line = serialize_record(&r);
    let back = parse_record(&line).expect("a serialized record parses");
    assert_eq!(back.url, "a\"b\\c\x07d");
    assert_eq!(back.tag.as_deref(), Some("t\u{1f}g"));
    assert_eq!(back.date, "2024-12-31");
}

#[test]
fn parse_handwritten_line() {
    let back = parse_record("{\"url\":\"x\\\"y\",\"tag\":\"t\",\"date\":\"2023-05-06\"}")
        .expect("a well-formed line parses");
    assert_eq!(back.url, "x\"y");
    assert_eq!(back.tag.as_deref(), Some("t"));
    assert_eq!(back.date, "2023-05-06");
}

#[test]
fn parse_handwritten_control_escape() {
    let back = parse_record("{\"url\":\"a\\u0009b\",\"tag\":null,\"date\":\"d\"}")
        .expect("a well-formed line parses");
    assert_eq!(back.url, "a\tb");
    assert_eq!(back.tag, None);
}

#[test]
fn parse_rejects_malformed() {
    assert!(parse_record("").is_none());
    assert!(parse_record("not json").is_none());
    assert!(parse_record("{\"url\":\"a\",\"tag\":null}").is_none());
    assert!(parse_record("{\"url\":\"a\",\"tag\":null,\"date\":\"d\"} ").is_none());
    assert!(parse_record("{\"url\":\"a\\x\",\"tag\":null,\"date\":\"d\"}").is_none());
}

#[test]
fn read_skips_bad_line_keeps_good_ones() {
    let l1 = serialize_record(&rec("a.com", None, "2024-01-01"));
    let l2 = serialize_record(&rec("b.com", Some("t"), "2024-01-02"));
    let lines = vec![l1, "this line is not a record".to_string(), l2];
    let (records, skipped) = get_urls(&lines);
    assert_eq!(records.len(), 2);
    assert_eq!(records[0].url, "a.com");
    assert_eq!(records[1].url, "b.com");
    assert_eq!(skipped, vec![1usize]);
}

#[test]
fn read_empty_store() {
    let lines: Vec<String> = Vec::new();
    let (records, skipped) = get_urls(&lines);
    assert!(records.is_empty());
    assert!(skipped.is_empty());
}

#[test]
fn add_empty_url_is_silent_noop() {
    let existing: Vec<UrlType> = Vec::new();
    let outcome = add_urls(&existing, "", None, "2024-01-02");
    assert!(matches!(outcome, AddOutcome::EmptyUrl));
    assert!(add_outcome_message(&outcome).is_none());
}

#[test]
fn add_duplicate_twice_keeps_one_record() {
    let mut records: Vec<UrlType> = Vec::new();
    let first = add_urls(&records, "example.com", None, "2024-01-02");
    match first {
        AddOutcome::Added(r) => records.push(r),
        _ => panic!("first add is accepted"),
    }
    assert_eq!(records.len(), 1);
    let second = add_urls(&records, "example.com", None, "2024-01-03");
    assert!(matches!(second, AddOutcome::DuplicateUrl));
    assert_eq!(records.len(), 1);
    assert_eq!(records[0].url, "example.com");
    let msg = add_outcome_message(&second).expect("a duplicate is reported");
    assert_eq!(msg, "url is already present");
}

#[test]
fn add_trims_and_compares_trimmed() {
    let mut records: Vec<UrlType> = Vec::new();
    match add_urls(&records, "  example.com  ", None, "2024-01-02") {
        AddOutcome::Added(r) => {
            assert_eq!(r.url, "example.com");
            records.push(r);
        }
        _ => panic!("first add is accepted"),
    }
    let again = add_urls(&records, " example.com ", None, "2024-01-02");
    assert!(matches!(again, AddOutcome::DuplicateUrl));
}

#[test]
fn add_rejects_tag_with_space() {
    let existing: Vec<UrlType> = Vec::new();
    let outcome = add_urls(&existing, "example.com", Some("has space"), "2024-01-02");
    assert!(matches!(outcome, AddOutcome::InvalidTag));
    let msg = add_outcome_message(&outcome).expect("an invalid tag is reported");
    assert_eq!(msg, "tag cannot contain space");
}

#[test]
fn add_keeps_clean_tag() {
    let existing: Vec<UrlType> = Vec::new();
    match add_urls(&existing, "example.com", Some("news"), "2024-01-02") {
        AddOutcome::Added(r) => {
            assert_eq!(r.tag.as_deref(), Some("news"));
            assert_eq!(r.date, "2024-01-02");
        }
        _ => panic!("a clean tag is accepted"),
    }
}

#[test]
fn url_presence_is_exact() {
    let records = vec![rec("a.com", None, "d"), rec("b.com", None, "d")];
    assert!(is_url_present(&records, "a.com"));
    assert!(is_url_present(&records, "b.com"));
    assert!(!is_url_present(&records, "c.com"));
    assert!(!is_url_present(&records, "a.com "));
}

#[test]
fn list_empty_store() {
    let records: Vec<UrlType> = Vec::new();
    assert_eq!(format_url_list(&records), "No urls found\n");
}

#[test]
fn list_records_in_order() {
    let records = vec![
        rec("a.com", Some("t"), "2024-01-01"),
        rec("b.com", None, "2024-01-02"),
    ];
    let text = format_url_list(&records);
    assert_eq!(
        text,
        "URL: a.com\nTag: t\nDate: 2024-01-01\n---\nURL: b.com\nDate: 2024-01-02\n---\n"
    );
}

#[test]
fn check_plan_empty_store() {
    let records: Vec<UrlType> = Vec::new();
    assert!(check_plan(&records).is_none());
    assert_eq!(check_empty_message(), "No urls found, add urls before checking");
}

#[test]
fn check_plan_lists_every_url() {
    let records = vec![rec("a.com", None, "d"), rec("b.com", None, "d")];
    let plan = check_plan(&records).expect("a non-empty store is checked");
    assert_eq!(plan, vec!["a.com".to_string(), "b.com".to_string()]);
}

#[test]
fn check_progress_line() {
    let line = format_check_progress("a.com");
    assert_eq!(line, format!("[…] {:30} ⏳ Checking... ", "a.com"));
}

#[test]
fn check_result_lines() {
    let ok = CheckOutcome::Success { status: "200 OK".to_string(), millis: 123 };
    let line = format_check_result("a.com", &ok);
    assert_eq!(line, format!("\r[✓] {:30} ✔ {} in {}ms", "a.com", "200 OK", 123));
    let bad = CheckOutcome::Failure { reason: "dns error".to_string() };
    let line = format_check_result("b.com", &bad);
    assert_eq!(line, format!("\r[✗] {:30} ✖ Failed: {}", "b.com", "dns error"));
}

#[test]
fn check_failure_does_not_hide_later_success() {
    let records = vec![rec("down.example", None, "d"), rec("up.example", None, "d")];
    let outcomes = vec![
        CheckOutcome::Failure { reason: "connection refused".to_string() },
        CheckOutcome::Success { status: "200 OK".to_string(), millis: 5 },
    ];
    let lines = check_report_lines(&records, &outcomes);
    assert_eq!(lines.len(), 2);
    assert_eq!(
        lines[1],
        format!("\r[✓] {:30} ✔ {} in {}ms", "up.example", "200 OK", 5)
    );
}

#[test]
fn decimal_rendering() {
    assert_eq!(u64_to_string(0), "0");
    assert_eq!(u64_to_string(7), "7");
    assert_eq!(u64_to_string(12345), "12345");
    assert_eq!(u64_to_string(u64::MAX), "18446744073709551615");
}

#[test]
fn date_rendering() {
    assert_eq!(format_date(2024, 3, 7), "2024-03-07");
    assert_eq!(format_date(2024, 12, 31), "2024-12-31");
    assert_eq!(format_date(99, 1, 1), "0099-01-01");
}

#[test]
fn today_renders_as_a_date() {
    let today = today_date_string();
    let bytes: Vec<char> = today.chars().collect();
    assert!(bytes.len() >= 10);
    assert_eq!(bytes[bytes.len() - 3], '-');
    assert_eq!(bytes[bytes.len() - 6], '-');
    assert!(bytes[bytes.len() - 2].is_ascii_digit());
    assert!(bytes[bytes.len() - 1].is_ascii_digit());
}
