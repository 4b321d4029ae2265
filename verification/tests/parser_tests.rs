use amplihack_logparse::error::ParseError;
use amplihack_logparse::parser::{
    parse_entry_type, parse_log_entry, parse_log_lines, parse_timestamp,
};
use amplihack_logparse::types::EntryType;

#[test]
fn test_parse_entry_type() {
    assert_eq!(parse_entry_type("INFO"), EntryType::Info);
    assert_eq!(parse_entry_type("info"), EntryType::Info);
    assert_eq!(parse_entry_type("ERROR"), EntryType::Error);
    assert_eq!(parse_entry_type("unknown"), EntryType::Unknown);
}

#[test]
fn test_parse_entry_type_full_table() {
    assert_eq!(parse_entry_type("WARN"), EntryType::Warning);
    assert_eq!(parse_entry_type("Warning"), EntryType::Warning);
    assert_eq!(parse_entry_type("agent"), EntryType::AgentInvocation);
    assert_eq!(parse_entry_type("Decision"), EntryType::Decision);
    assert_eq!(parse_entry_type(""), EntryType::Unknown);
}

#[test]
fn test_parse_timestamp() {
    let result = parse_timestamp("2025-10-18T14:30:45Z");
    assert!(result.is_ok());
}

#[test]
fn test_parse_timestamp_exact_value() {
    // 2025-10-18T14:30:45Z is 1760797845 seconds after the epoch.
    assert_eq!(parse_timestamp("2025-10-18T14:30:45Z").unwrap(), 1_760_797_845_000);
    // The naive fallback, taken as UTC, with a fractional part.
    assert_eq!(
        parse_timestamp("2025-10-18T11:25:37.950859").unwrap(),
        1_760_786_737_950
    );
    // An explicit offset shifts the instant.
    assert_eq!(parse_timestamp("2025-10-18T14:30:45+02:00").unwrap(), 1_760_790_645_000);
}

#[test]
fn test_parse_timestamp_rejects_garbage() {
    match parse_timestamp("not-a-time") {
        Err(ParseError::InvalidTimestamp(t)) => assert_eq!(t, "not-a-time"),
        other => panic!("expected InvalidTimestamp, got {:?}", other),
    }
}

#[test]
fn test_parse_log_entry() {
    let line = "[2025-10-18T14:30:45Z] INFO: Test message";
    let result = parse_log_entry(line);

    assert!(result.is_ok());
    let entry = result.unwrap();
    assert_eq!(entry.entry_type, EntryType::Info);
    assert_eq!(entry.message, "Test message");
}

#[test]
fn test_parse_log_entry_fields() {
    let entry = parse_log_entry("[2025-10-18T14:30:45Z] warning:  Disk low ").unwrap();
    assert_eq!(entry.entry_type, EntryType::Warning);
    assert_eq!(entry.message, "Disk low");
    assert_eq!(entry.timestamp_ms, 1_760_797_845_000);
    assert!(entry.agent_name.is_none());
    assert!(entry.duration_ms.is_none());
}

#[test]
fn test_parse_log_entry_without_colon() {
    let entry = parse_log_entry("[2025-10-18T14:30:45Z] just some text").unwrap();
    assert_eq!(entry.entry_type, EntryType::Unknown);
    assert_eq!(entry.message, "just some text");
}

#[test]
fn test_parse_log_entry_empty_message() {
    let entry = parse_log_entry("[2025-10-18T14:30:45Z] INFO: ").unwrap();
    assert_eq!(entry.entry_type, EntryType::Info);
    assert_eq!(entry.message, "");
}

#[test]
fn test_parse_malformed_entry() {
    let line = "This is not a valid log line";
    let result = parse_log_entry(line);
    assert!(result.is_err());
}

#[test]
fn test_parse_missing_bracket_fails() {
    match parse_log_entry("[2025-10-18T14:30:45Z INFO: no closing bracket") {
        Err(ParseError::MalformedEntry { details, .. }) => {
            assert_eq!(details, "No closing ']' for timestamp")
        }
        other => panic!("expected MalformedEntry, got {:?}", other),
    }
    match parse_log_entry("no opening bracket") {
        Err(ParseError::MalformedEntry { details, .. }) => {
            assert_eq!(details, "Line doesn't start with '['")
        }
        other => panic!("expected MalformedEntry, got {:?}", other),
    }
}

#[test]
fn test_parse_bad_timestamp_fails() {
    match parse_log_entry("[yesterday] INFO: x") {
        Err(ParseError::InvalidTimestamp(t)) => assert_eq!(t, "yesterday"),
        other => panic!("expected InvalidTimestamp, got {:?}", other),
    }
}

#[test]
fn test_parse_log_lines_resilient() {
    let lines: Vec<String> = vec![
        "[2025-10-18T14:30:45Z] INFO: first".to_string(),
        "".to_string(),
        "garbage line".to_string(),
        "   ".to_string(),
        "[2025-10-18T14:30:46Z] ERROR: second".to_string(),
        "[broken] WARN: third".to_string(),
    ];
    let (entries, warnings) = parse_log_lines(&lines);
    // Six lines: two blank, two malformed, so exactly two entries.
    assert_eq!(entries.len(), 2);
    assert_eq!(entries[0].message, "first");
    assert_eq!(entries[1].message, "second");
    assert_eq!(warnings.len(), 2);
    assert_eq!(warnings[0].line, 3);
    assert_eq!(warnings[1].line, 6);
}

#[test]
fn test_error_display() {
    let err = ParseError::InvalidTimestamp("bad timestamp".to_string());
    assert_eq!(err.message(), "Invalid timestamp format: bad timestamp");
}

#[test]
fn test_error_messages() {
    let err = ParseError::MalformedEntry {
        line: 42,
        details: "No closing ']' for timestamp".to_string(),
    };
    assert_eq!(
        err.message(),
        "Malformed log entry at line 42: No closing ']' for timestamp"
    );
    assert_eq!(
        ParseError::FileNotFound("logs/a.log".to_string()).message(),
        "File not found: logs/a.log"
    );
    assert_eq!(ParseError::Io("broken pipe".to_string()).message(), "IO error: broken pipe");
}
