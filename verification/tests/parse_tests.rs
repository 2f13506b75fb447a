use loglook::log_entries::LogEntry;
use loglook::parse_lines;

const GOOD_LINE: &str = "180.149.125.164 - - [25/Nov/2023:00:16:58 -0500] \"GET /stalker_portal/server/tools/auth_simple.php HTTP/1.1\" 404 209 \"-\" \"Mozilla/5.0 (Windows NT 5.1; Win64; x64) AppleWebKit/537.36 (KHTML, like Gecko) Chrome/60.0.3112.90 Safari/537.36\"";

#[test]
fn logline_to_logent_conv_test() {
    let line = GOOD_LINE.to_string();
    let le = LogEntry::parse(&line).unwrap();
    assert_eq!(le.line, line);
    assert_eq!(le.code, 404);
}

#[test]
fn detect_bad_line_test() {
    // removing open bracket on date
    let line = "180.149.125.164 - - 25/Nov/2023:00:16:58 -0500] \"GET /stalker_portal/server/tools/auth_simple.php HTTP/1.1\" 404 209 \"-\" \"Mozilla/5.0 (Windows NT 5.1; Win64; x64) AppleWebKit/537.36 (KHTML, like Gecko) Chrome/60.0.3112.90 Safari/537.36\"".to_string();
    assert!(LogEntry::parse(&line).is_err());
}

#[test]
fn detect_weird_remote_user_test() {
    let line = "158.220.106.204 - goolicker', '', (SELECT (NULL)));#  [15/Sep/2024:11:22:13 -0400] \"GET /VERM/VERM_AJAX_functions.php?function=log_custom_report&SNROY=U5YFS HTTP/1.1\" 404 197 \"-\" \"Mozilla/5.0 (Windows NT 10.0; Win64; x64) AppleWebKit/537.36 (KHTML, like Gecko) Chrome/124.0.6367.118 Safari/537.36\"".to_string();
    assert!(LogEntry::parse(&line).is_ok());
    let le = LogEntry::parse(&line).unwrap();
    assert_eq!(le.code, 404);
}

#[test]
fn parse_extracts_every_field() {
    let le = LogEntry::parse(GOOD_LINE).unwrap();
    assert_eq!(le.ip, "180.149.125.164");
    assert_eq!(le.time, 1700889418000);
    assert_eq!(le.method, "GET /stalker_portal/server/tools/auth_simple.php HTTP/1.1");
    assert_eq!(le.code, 404);
    assert_eq!(le.nbytes, 209);
    assert_eq!(le.referrer, "-");
    assert_eq!(
        le.ua,
        "Mozilla/5.0 (Windows NT 5.1; Win64; x64) AppleWebKit/537.36 (KHTML, like Gecko) Chrome/60.0.3112.90 Safari/537.36"
    );
}

#[test]
fn parse_weird_line_time_offset() {
    let line = "158.220.106.204 - goolicker', '', (SELECT (NULL)));#  [15/Sep/2024:11:22:13 -0400] \"GET /x HTTP/1.1\" 404 197 \"-\" \"agent\"";
    let le = LogEntry::parse(line).unwrap();
    assert_eq!(le.time, 1726413733000);
}

#[test]
fn parse_rejects_bad_timestamp() {
    // a 31st of February names no real instant
    let line = "1.2.3.4 - - [31/Feb/2023:00:16:58 -0500] \"GET / HTTP/1.1\" 200 1 \"-\" \"ua\"";
    assert!(LogEntry::parse(line).is_err());
}

#[test]
fn parse_rejects_nondigit_code() {
    let line = "1.2.3.4 - - [25/Nov/2023:00:16:58 -0500] \"GET / HTTP/1.1\" 4x4 1 \"-\" \"ua\"";
    assert!(LogEntry::parse(line).is_err());
}

// A line that fails to parse is excluded from the batch and from all
// counts without stopping the lines after it.
#[test]
fn bad_line_skipped_batch_continues() {
    let bad = "180.149.125.164 - - 25/Nov/2023:00:16:58 -0500] \"GET /a HTTP/1.1\" 404 209 \"-\" \"ua\"";
    let lines = vec![
        GOOD_LINE.to_string(),
        bad.to_string(),
        GOOD_LINE.to_string(),
    ];
    let (entries, bad_lines) = parse_lines(&lines);
    assert_eq!(entries.len(), 2);
    assert_eq!(bad_lines.len(), 1);
    assert_eq!(bad_lines[0], bad);
    assert_eq!(entries[0].code, 404);
    assert_eq!(entries[1].code, 404);
}

#[test]
fn logentry_display_text() {
    let le = LogEntry {
        ip: "1.2.3.4".to_string(),
        time: 1700889418000,
        method: "GET / HTTP/1.1".to_string(),
        code: 200,
        nbytes: 5,
        referrer: "-".to_string(),
        ua: "agent".to_string(),
        line: "raw".to_string(),
    };
    let text = le.to_display_string();
    assert_eq!(
        text,
        "  time: 2023-11-25T05:16:58Z\n  method: GET / HTTP/1.1\n  code: 200\n  nbytes: 5\n  referrer: -\n  user agent: agent\n  logged: raw:\nend\n"
    );
}
