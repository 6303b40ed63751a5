use local_store::bounded_log::{
    append_record, append_to_text, initial_contents, next_log_text, split_lines, LogError,
};
use local_store::ip_logger::{
    ip_log_header, record_line, visit_record, MAX_LINES_IN_CSV, MAX_STAMP_SECS, MIN_STAMP_SECS,
};

fn text(s: &str) -> Vec<u8> {
    s.as_bytes().to_vec()
}

fn lines(s: &[u8]) -> Vec<String> {
    split_lines(&s.to_vec())
        .into_iter()
        .map(|l| String::from_utf8(l).unwrap())
        .collect()
}

fn log_once(existing: Option<&Vec<u8>>, ip: Option<&str>) -> Vec<u8> {
    let ip = ip.map(text);
    let record = visit_record(ip.as_ref(), 1_700_000_000).unwrap();
    next_log_text(existing, &ip_log_header(), &record, MAX_LINES_IN_CSV)
        .ok()
        .unwrap()
}

#[test]
fn test_logs_valid_ip() {
    let contents = String::from_utf8(log_once(None, Some("1.2.3.4"))).unwrap();
    assert!(
        contents.contains("ip address,timestamp\n"),
        "Header should be written"
    );
    assert!(contents.contains("1.2.3.4"), "IP should be written");
}

#[test]
fn test_logs_null_for_missing_ip() {
    let contents = String::from_utf8(log_once(None, None)).unwrap();
    assert!(
        contents.contains("ip address,timestamp\n"),
        "Header should be written"
    );
    assert!(contents.contains("null"), "Null IP should be logged");
}

#[test]
fn test_subsequent_entries_are_appended() {
    let first = log_once(None, Some("1.1.1.1"));
    let contents = String::from_utf8(log_once(Some(&first), Some("2.2.2.2"))).unwrap();
    let header = "ip address,timestamp\n";
    let index = contents.find(header).expect("Header should be written");
    assert!(contents.contains("1.1.1.1"), "First IP should be in file");
    assert!(contents.contains("2.2.2.2"), "Second IP should be in file");
    let contents = contents[0..index].to_string() + &contents[index + header.len()..];
    assert!(!contents.contains(header), "Only writes header once");
}

#[test]
fn test_file_line_length_is_capped() {
    let mut contents = log_once(None, Some("1.2.3.4"));
    for _ in 1..(MAX_LINES_IN_CSV + 10) {
        contents = log_once(Some(&contents), Some("1.2.3.4"));
    }
    let lines: Vec<&str> = std::str::from_utf8(&contents).unwrap().lines().collect();
    assert!(
        lines.len() == MAX_LINES_IN_CSV,
        "File line length was not capped"
    );
}

#[test]
fn eviction_keeps_the_newest_records_in_order() {
    let header = text("ip address,timestamp");
    let mut contents = initial_contents(&header);
    for i in 1..=1010 {
        let record = text(&format!("r{}", i));
        contents = append_to_text(&contents, &record, 1000);
    }
    let ls = lines(&contents);
    assert_eq!(ls.len(), 1000);
    assert_eq!(ls[0], "ip address,timestamp");
    for (k, l) in ls[1..].iter().enumerate() {
        assert_eq!(l, &format!("r{}", k + 12));
    }
    assert!(!ls.contains(&"r11".to_string()));
    assert!(!ls.contains(&"r1".to_string()));
}

#[test]
fn small_bound_keeps_header_and_one_older_record() {
    let mut contents = initial_contents(&text("h"));
    for r in ["a", "b", "c", "d"] {
        contents = append_to_text(&contents, &text(r), 3);
    }
    assert_eq!(contents, text("h\nc\nd"));
}

#[test]
fn bound_of_two_keeps_header_and_newest() {
    let mut contents = initial_contents(&text("h"));
    for r in ["a", "b", "c"] {
        contents = append_to_text(&contents, &text(r), 2);
    }
    assert_eq!(contents, text("h\nc"));
}

#[test]
fn lowered_bound_drops_many_lines_at_once() {
    let contents = text("h\n1\n2\n3\n4\n5\n");
    assert_eq!(append_to_text(&contents, &text("6"), 3), text("h\n5\n6"));
}

#[test]
fn empty_log_gets_a_leading_newline() {
    assert_eq!(append_to_text(&Vec::new(), &text("x"), 10), text("\nx"));
}

#[test]
fn split_lines_drops_line_endings() {
    assert_eq!(lines(b"a\r\nb\n\nc"), vec!["a", "b", "", "c"]);
    assert_eq!(lines(b"a\n"), vec!["a"]);
    assert_eq!(lines(b"a\r"), vec!["a\r"]);
    assert!(lines(b"").is_empty());
    assert_eq!(lines(b"\n"), vec![""]);
}

#[test]
fn open_last_line_is_closed_before_the_record() {
    assert_eq!(
        append_to_text(&text("h\nold"), &text("new"), 10),
        text("h\nold\nnew")
    );
}

#[test]
fn non_text_log_is_refused() {
    let contents = vec![b'h', 0xff, b'\n'];
    assert!(matches!(
        append_record(&contents, &text("x"), 10),
        Err(LogError::NotText)
    ));
    assert!(matches!(
        next_log_text(Some(&contents), &text("h"), &text("x"), 10),
        Err(LogError::NotText)
    ));
}

#[test]
fn missing_log_starts_with_header() {
    let out = next_log_text(None, &text("h"), &text("x"), 10).ok().unwrap();
    assert_eq!(out, text("h\nx"));
}

#[test]
fn records_hold_address_or_null_and_time() {
    assert_eq!(
        record_line(Some(&text("1.2.3.4")), &text("2024-01-02T03:04:05")),
        text("1.2.3.4,2024-01-02T03:04:05")
    );
    assert_eq!(record_line(None, &text("t")), text("null,t"));
    assert_eq!(
        visit_record(None, 0).unwrap(),
        text("null,1970-01-01T00:00:00")
    );
    assert_eq!(
        visit_record(Some(&text("9.9.9.9")), 1_700_000_000).unwrap(),
        text("9.9.9.9,2023-11-14T22:13:20")
    );
    assert!(visit_record(None, i64::MAX).is_none());
}

#[test]
fn header_is_the_column_labels() {
    assert_eq!(ip_log_header(), text("ip address,timestamp"));
}

#[test]
fn records_exist_exactly_inside_the_calendar() {
    assert!(visit_record(None, MIN_STAMP_SECS).is_some());
    assert!(visit_record(None, MIN_STAMP_SECS - 1).is_none());
    assert!(visit_record(None, MAX_STAMP_SECS).is_some());
    assert!(visit_record(None, MAX_STAMP_SECS + 1).is_none());
    assert!(visit_record(None, i64::MIN).is_none());
}

#[test]
fn header_of_an_existing_log_stays_first_and_alone() {
    let contents = text("h
a
b
c
");
    let out = append_to_text(&contents, &text("d"), 3);
    let ls = lines(&out);
    assert_eq!(ls[0], "h");
    assert!(ls[1..].iter().all(|l| l != "h"));
    assert_eq!(ls, vec!["h", "c", "d"]);
}
