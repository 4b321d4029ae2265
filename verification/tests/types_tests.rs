use amplihack_logparse::query::filter_entries;
use amplihack_logparse::types::{AgentStats, EntryType, LogEntry};

fn entry(
    timestamp_ms: i64,
    entry_type: EntryType,
    message: &str,
    agent_name: Option<&str>,
) -> LogEntry {
    LogEntry {
        timestamp_ms,
        entry_type,
        message: message.to_string(),
        agent_name: agent_name.map(|s| s.to_string()),
        duration_ms: None,
    }
}

#[test]
fn test_agent_stats_ownership() {
    let mut stats = AgentStats::new("test-agent".to_string());

    stats.add_duration(100);
    stats.add_duration(200);

    assert_eq!(stats.invocation_count, 2);
    assert_eq!(stats.total_duration_ms, 300);
    let avg = stats.total_duration_ms as f64 / stats.invocation_count as f64;
    assert_eq!(avg, 150.0);
}

#[test]
fn test_log_entry_creation() {
    let message = String::from("Test message");
    let entry = LogEntry {
        timestamp_ms: 1_760_797_845_000,
        entry_type: EntryType::Info,
        message,
        agent_name: None,
        duration_ms: None,
    };

    assert_eq!(entry.message, "Test message");
}

#[test]
fn test_filter_entries_by_text_case_insensitive() {
    let entries = vec![
        entry(0, EntryType::Info, "Deploy STARTED now", None),
        entry(1, EntryType::Info, "unrelated", None),
        entry(2, EntryType::Info, "deploy started again", None),
    ];
    let hits = filter_entries(&entries, None, Some("Started"));
    assert_eq!(hits.len(), 2);
    assert_eq!(hits[0].message, "Deploy STARTED now");
    assert_eq!(hits[1].message, "deploy started again");
}

#[test]
fn test_filter_entries_by_agent() {
    let entries = vec![
        entry(0, EntryType::AgentInvocation, "a", Some("builder-primary")),
        entry(1, EntryType::AgentInvocation, "b", Some("tester")),
        entry(2, EntryType::Info, "c", None),
    ];
    let hits = filter_entries(&entries, Some("builder"), None);
    assert_eq!(hits.len(), 1);
    assert_eq!(hits[0].agent_name.as_deref(), Some("builder-primary"));

    let all = filter_entries(&entries, None, None);
    assert_eq!(all.len(), 3);
}
