use amplihack_logparse::analyzer::{
    count_entry_types, AgentAnalyzer, Analyzer, LogPattern, PatternAnalyzer, TimingAnalyzer,
};
use amplihack_logparse::types::{
    create_session_from_entries, EntryType, LogEntry, LogSession, TimingStats,
};

fn entry(
    timestamp_ms: i64,
    entry_type: EntryType,
    message: &str,
    agent_name: Option<&str>,
    duration_ms: Option<u64>,
) -> LogEntry {
    LogEntry {
        timestamp_ms,
        entry_type,
        message: message.to_string(),
        agent_name: agent_name.map(|s| s.to_string()),
        duration_ms,
    }
}

fn create_test_session() -> LogSession {
    let entries = vec![
        entry(0, EntryType::Info, "Start", None, None),
        entry(10_000, EntryType::AgentInvocation, "Agent called", Some("test-agent"), Some(100)),
        entry(20_000, EntryType::AgentInvocation, "Agent called again", Some("test-agent"), Some(200)),
        entry(30_000, EntryType::Info, "End", None, None),
    ];
    LogSession {
        id: "test-session".to_string(),
        entries,
        start_time_ms: 0,
        end_time_ms: Some(30_000),
    }
}

#[test]
fn test_timing_analyzer() {
    let analyzer = TimingAnalyzer::new();
    let session = create_test_session();

    let result = analyzer.analyze(&session);
    assert!(result.is_ok());

    let stats = result.unwrap();
    assert_eq!(stats.entry_count, 4);
    // Thirty seconds end to end, ten seconds between entries on average.
    assert_eq!(stats.total_duration_ms as f64 / 1000.0, 30.0);
    let avg_secs = stats.gap_total_ms as f64 / 1000.0 / (stats.entry_count - 1) as f64;
    assert_eq!(avg_secs, 10.0);
}

#[test]
fn test_agent_analyzer() {
    let analyzer = AgentAnalyzer::new();
    let session = create_test_session();

    let result = analyzer.analyze(&session);
    assert!(result.is_ok());

    let stats = result.unwrap();
    assert_eq!(stats.len(), 1);

    let agent_stats = &stats[0];
    assert_eq!(agent_stats.name, "test-agent");
    assert_eq!(agent_stats.invocation_count, 2);
    assert_eq!(agent_stats.total_duration_ms, 300);
    let avg = agent_stats.total_duration_ms as f64 / agent_stats.invocation_count as f64;
    assert_eq!(avg, 150.0);
}

#[test]
fn test_agent_analyzer_stateful() {
    let mut analyzer = AgentAnalyzer::new();
    let session = create_test_session();

    analyzer.process_entries(&session.entries);

    let stats = analyzer.get_agent_stats("test-agent");
    assert!(stats.is_some());

    let stats = stats.unwrap();
    assert_eq!(stats.invocation_count, 2);
    assert_eq!(stats.total_duration_ms, 300);

    analyzer.clear();
    assert!(analyzer.get_agent_stats("test-agent").is_none());
}

#[test]
fn test_agent_analyzer_counts_without_duration() {
    let mut analyzer = AgentAnalyzer::new();
    let entries = vec![
        entry(0, EntryType::AgentInvocation, "a", Some("x"), Some(100)),
        entry(1, EntryType::AgentInvocation, "b", Some("x"), None),
        entry(2, EntryType::AgentInvocation, "c", Some("y"), None),
    ];
    analyzer.process_entries(&entries);
    let x = analyzer.get_agent_stats("x").unwrap();
    assert_eq!(x.invocation_count, 2);
    assert_eq!(x.total_duration_ms, 100);
    let y = analyzer.get_agent_stats("y").unwrap();
    assert_eq!(y.invocation_count, 1);
    assert_eq!(y.total_duration_ms, 0);
}

#[test]
fn test_pattern_analyzer_error_burst() {
    let analyzer = PatternAnalyzer::new();

    let entries = vec![
        entry(0, EntryType::Error, "Error 1", None, None),
        entry(100, EntryType::Error, "Error 2", None, None),
        entry(200, EntryType::Error, "Error 3", None, None),
    ];

    let session = LogSession {
        id: "error-session".to_string(),
        entries,
        start_time_ms: 0,
        end_time_ms: Some(200),
    };

    let result = analyzer.analyze(&session);
    assert!(result.is_ok());

    let analysis = result.unwrap();
    let has_error_burst = analysis
        .patterns
        .iter()
        .any(|p| matches!(p, LogPattern::ErrorBurst { .. }));

    assert!(has_error_burst);
}

#[test]
fn test_error_burst_window_values() {
    // Three errors over 200 ms: 3 / 0.2 s = 15 errors per second, past
    // the default threshold of 5.
    let analyzer = PatternAnalyzer::new();
    let entries = vec![
        entry(0, EntryType::Error, "Error 1", None, None),
        entry(100, EntryType::Error, "Error 2", None, None),
        entry(200, EntryType::Error, "Error 3", None, None),
    ];
    let session = create_session_from_entries("error-session", entries);
    let analysis = analyzer.analyze(&session).unwrap();
    assert_eq!(
        analysis.patterns[0],
        LogPattern::ErrorBurst { count: 3, duration_ms: 200 }
    );
}

#[test]
fn test_error_burst_threshold_boundary() {
    // Three errors over 600 ms reach exactly 5 errors per second, which
    // meets the default threshold; over 601 ms they fall short of it.
    let analyzer = PatternAnalyzer::new();
    let at = |last_ms: i64| {
        let entries = vec![
            entry(0, EntryType::Error, "e", None, None),
            entry(1, EntryType::Error, "e", None, None),
            entry(last_ms, EntryType::Error, "e", None, None),
        ];
        let session = create_session_from_entries("s", entries);
        analyzer.analyze(&session).unwrap().patterns
    };
    assert!(at(600).iter().any(|p| matches!(p, LogPattern::ErrorBurst { .. })));
    assert!(!at(601).iter().any(|p| matches!(p, LogPattern::ErrorBurst { .. })));
}

#[test]
fn test_long_gap_detection() {
    let analyzer = PatternAnalyzer::new();
    let entries = vec![
        entry(0, EntryType::Info, "a", None, None),
        entry(400_000, EntryType::Info, "b", None, None),
        entry(400_500, EntryType::Info, "c", None, None),
    ];
    let session = create_session_from_entries("gap-session", entries);
    let analysis = analyzer.analyze(&session).unwrap();
    let gaps: Vec<_> = analysis
        .patterns
        .iter()
        .filter(|p| matches!(p, LogPattern::LongGap { .. }))
        .collect();
    assert_eq!(gaps.len(), 1);
    assert_eq!(*gaps[0], LogPattern::LongGap { duration_ms: 400_000 });
}

#[test]
fn test_agent_activity_detection() {
    let analyzer = PatternAnalyzer::with_thresholds(5000, 300_000, 2);
    let entries = vec![
        entry(0, EntryType::AgentInvocation, "a", Some("busy"), None),
        entry(1, EntryType::AgentInvocation, "b", Some("busy"), None),
        entry(2, EntryType::AgentInvocation, "c", Some("quiet"), None),
    ];
    let session = create_session_from_entries("activity-session", entries);
    let analysis = analyzer.analyze(&session).unwrap();
    let acts: Vec<_> = analysis
        .patterns
        .iter()
        .filter(|p| matches!(p, LogPattern::AgentActivity { .. }))
        .collect();
    assert_eq!(acts.len(), 1);
    assert_eq!(
        *acts[0],
        LogPattern::AgentActivity { agent: "busy".to_string(), count: 2 }
    );
}

#[test]
fn test_pattern_analyzer_no_agent_activity() {
    let analyzer = PatternAnalyzer::new();

    let entries = vec![entry(0, EntryType::Info, "No agents here", None, None)];

    let session = LogSession {
        id: "no-agent-session".to_string(),
        entries,
        start_time_ms: 0,
        end_time_ms: Some(10_000),
    };

    let result = analyzer.analyze(&session);
    assert!(result.is_ok());

    let analysis = result.unwrap();
    let has_no_agent = analysis
        .patterns
        .iter()
        .any(|p| matches!(p, LogPattern::NoAgentActivity));

    assert!(has_no_agent);
}

#[test]
fn test_no_agent_marker_is_single_and_exclusive() {
    let analyzer = PatternAnalyzer::new();
    let entries = vec![
        entry(0, EntryType::Info, "a", None, None),
        entry(50, EntryType::Warning, "b", None, None),
    ];
    let session = create_session_from_entries("quiet-session", entries);
    let analysis = analyzer.analyze(&session).unwrap();
    let markers = analysis
        .patterns
        .iter()
        .filter(|p| matches!(p, LogPattern::NoAgentActivity))
        .count();
    assert_eq!(markers, 1);
    assert!(!analysis
        .patterns
        .iter()
        .any(|p| matches!(p, LogPattern::AgentActivity { .. })));
}

#[test]
fn test_analyzer_trait_polymorphism() {
    let timing: Box<dyn Analyzer<Output = TimingStats>> = Box::new(TimingAnalyzer::new());
    let session = create_test_session();

    let result = timing.analyze(&session);
    assert!(result.is_ok());
    assert_eq!(timing.name(), "TimingAnalyzer");
}

#[test]
fn test_zero_entries_session() {
    let analyzer = TimingAnalyzer::new();
    let session = LogSession {
        id: "empty".to_string(),
        entries: vec![],
        start_time_ms: 0,
        end_time_ms: None,
    };

    let result = analyzer.analyze(&session);
    assert!(result.is_ok());

    let stats = result.unwrap();
    assert_eq!(stats.entry_count, 0);
    assert_eq!(stats.total_duration_ms as f64 / 1000.0, 0.0);
}

#[test]
fn test_single_entry_session() {
    let analyzer = TimingAnalyzer::new();

    let session = LogSession {
        id: "single".to_string(),
        entries: vec![entry(12345, EntryType::Info, "Only one", None, None)],
        start_time_ms: 12345,
        end_time_ms: None,
    };

    let result = analyzer.analyze(&session);
    assert!(result.is_ok());

    let stats = result.unwrap();
    assert_eq!(stats.entry_count, 1);
    assert_eq!(stats.gap_total_ms as f64 / 1000.0, 0.0);
}

#[test]
fn test_analyzers_idempotent() {
    let session = create_test_session();

    let timing = TimingAnalyzer::new();
    assert_eq!(timing.analyze(&session).unwrap(), timing.analyze(&session).unwrap());

    let agents = AgentAnalyzer::new();
    let a1 = agents.analyze(&session).unwrap();
    let a2 = agents.analyze(&session).unwrap();
    assert_eq!(a1.len(), a2.len());
    for (s1, s2) in a1.iter().zip(a2.iter()) {
        assert_eq!(s1.name, s2.name);
        assert_eq!(s1.invocation_count, s2.invocation_count);
        assert_eq!(s1.total_duration_ms, s2.total_duration_ms);
    }

    let patterns = PatternAnalyzer::new();
    assert_eq!(
        patterns.analyze(&session).unwrap().patterns,
        patterns.analyze(&session).unwrap().patterns
    );
}

#[test]
fn test_count_entry_types_sorted() {
    let entries = vec![
        entry(0, EntryType::Error, "a", None, None),
        entry(1, EntryType::Error, "b", None, None),
        entry(2, EntryType::Error, "c", None, None),
        entry(3, EntryType::Info, "d", None, None),
        entry(4, EntryType::Info, "e", None, None),
        entry(5, EntryType::Decision, "f", None, None),
    ];
    let counts = count_entry_types(&entries);
    assert_eq!(counts.len(), 3);
    assert_eq!(counts[0], (EntryType::Error, 3));
    assert_eq!(counts[1], (EntryType::Info, 2));
    assert_eq!(counts[2], (EntryType::Decision, 1));
}

#[test]
fn test_create_session_from_entries() {
    let entries = vec![
        entry(500, EntryType::Info, "a", None, None),
        entry(900, EntryType::Info, "b", None, None),
    ];
    let session = create_session_from_entries("abc", entries);
    assert_eq!(session.id, "abc");
    assert_eq!(session.start_time_ms, 500);
    assert_eq!(session.end_time_ms, Some(900));
    assert_eq!(session.entries.len(), 2);

    let empty = create_session_from_entries("empty", vec![]);
    assert_eq!(empty.end_time_ms, None);
}
