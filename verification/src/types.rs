//! Core data model: log entries, sessions, and aggregate statistics.

use vstd::prelude::*;

verus! {

/// The kind of a parsed log entry.
#[derive(Debug, Clone, Copy, PartialEq, Eq, Hash, Structural)]
pub enum EntryType {
    /// An agent was invoked.
    AgentInvocation,
    /// General informational message.
    Info,
    /// Warning message.
    Warning,
    /// Error message.
    Error,
    /// Decision record.
    Decision,
    /// Unrecognized level, or a line without a level.
    Unknown,
}

/// One parsed log record. Timestamps are UTC instants in milliseconds
/// since the epoch; durations are non-negative milliseconds.
#[derive(Debug, Clone)]
pub struct LogEntry {
    /// Timestamp of the entry, milliseconds since the Unix epoch (UTC).
    pub timestamp_ms: i64,
    /// Kind of the entry.
    pub entry_type: EntryType,
    /// Message text.
    pub message: String,
    /// Agent name, when this entry records an agent invocation.
    pub agent_name: Option<String>,
    /// Duration in milliseconds, when known.
    pub duration_ms: Option<u64>,
}

/// Mathematical image of a `LogEntry`.
pub ghost struct EntryV {
    pub timestamp_ms: int,
    pub entry_type: EntryType,
    pub message: Seq<char>,
    pub agent_name: Option<Seq<char>>,
    pub duration_ms: Option<int>,
}

impl View for LogEntry {
    type V = EntryV;

    open spec fn view(&self) -> EntryV {
        EntryV {
            timestamp_ms: self.timestamp_ms as int,
            entry_type: self.entry_type,
            message: self.message@,
            agent_name: match self.agent_name {
                Some(n) => Some(n@),
                None => None,
            },
            duration_ms: match self.duration_ms {
                Some(d) => Some(d as int),
                None => None,
            },
        }
    }
}

impl DeepView for LogEntry {
    type V = EntryV;

    open spec fn deep_view(&self) -> EntryV {
        self.view()
    }
}

/// An ordered collection of entries with an identifier and a start /
/// optional end instant. Entries keep the order of appearance in the
/// source; they are never re-sorted.
#[derive(Debug, Clone)]
pub struct LogSession {
    /// Session identifier.
    pub id: String,
    /// All entries of the session, in order of appearance.
    pub entries: Vec<LogEntry>,
    /// Session start instant, milliseconds since the Unix epoch (UTC).
    pub start_time_ms: i64,
    /// Session end instant, when known.
    pub end_time_ms: Option<i64>,
}

/// Aggregate statistics for one agent. The running average duration is
/// `total_duration_ms / invocation_count`; it is not stored, since this
/// crate keeps all statistics in exact integers.
#[derive(Debug, Clone)]
pub struct AgentStats {
    /// Agent name.
    pub name: String,
    /// Number of invocations seen, with or without a duration.
    pub invocation_count: u64,
    /// Sum of the known durations, milliseconds.
    pub total_duration_ms: u128,
}

/// Mathematical image of an `AgentStats`.
pub ghost struct AgentStatsV {
    pub name: Seq<char>,
    pub invocation_count: int,
    pub total_duration_ms: int,
}

impl View for AgentStats {
    type V = AgentStatsV;

    open spec fn view(&self) -> AgentStatsV {
        AgentStatsV {
            name: self.name@,
            invocation_count: self.invocation_count as int,
            total_duration_ms: self.total_duration_ms as int,
        }
    }
}

impl DeepView for AgentStats {
    type V = AgentStatsV;

    open spec fn deep_view(&self) -> AgentStatsV {
        self.view()
    }
}

impl AgentStats {
    /// Fresh statistics for an agent: zero invocations, zero duration.
    pub fn new(name: String) -> (r: AgentStats)
        ensures
            r.name@ == name@,
            r.invocation_count == 0,
            r.total_duration_ms == 0,
    {
        AgentStats { name, invocation_count: 0, total_duration_ms: 0 }
    }

    /// Record one invocation with a known duration: the count rises by
    /// one and the duration joins the total.
    pub fn add_duration(&mut self, duration_ms: u64)
        requires
            old(self).invocation_count < u64::MAX,
            old(self).total_duration_ms + duration_ms <= u128::MAX,
        ensures
            final(self).name@ == old(self).name@,
            final(self).invocation_count == old(self).invocation_count + 1,
            final(self).total_duration_ms == old(self).total_duration_ms + duration_ms,
    {
        self.invocation_count = self.invocation_count + 1;
        self.total_duration_ms = self.total_duration_ms + duration_ms as u128;
    }
}

/// Timing statistics of one session, derived afresh on each analysis.
/// All quantities are exact milliseconds; the average gap between
/// consecutive entries is `gap_total_ms / (entry_count - 1)` when the
/// session has at least two entries.
#[derive(Debug, Clone, PartialEq, Eq, Structural)]
pub struct TimingStats {
    /// Largest timestamp minus smallest timestamp, in milliseconds;
    /// zero for an empty session.
    pub total_duration_ms: i128,
    /// Number of entries in the session.
    pub entry_count: usize,
    /// Sum of the timestamp deltas of consecutive entries, in sequence
    /// order, in milliseconds; zero when fewer than two entries.
    pub gap_total_ms: i128,
}

/// Relies on chrono's `Utc::now` and `DateTime::timestamp_millis`. The
/// result depends on the clock, so nothing is promised of it.
#[verifier::external_body]
fn now_ms() -> i64 {
    chrono::Utc::now().timestamp_millis()
}

/// Wraps entries into a session: the start instant is the first
/// entry's timestamp, the end instant the last entry's. An empty
/// session has no end instant and starts at the current clock reading.
pub fn create_session_from_entries(id: &str, entries: Vec<LogEntry>) -> (r: LogSession)
    ensures
        r.id@ == id@,
        r.entries@ == entries@,
        entries@.len() > 0 ==> r.start_time_ms == entries@[0].timestamp_ms && r.end_time_ms
            == Some(entries@[entries@.len() - 1].timestamp_ms),
        entries@.len() == 0 ==> r.end_time_ms is None,
{
    let n = entries.len();
    let start = if n > 0 {
        entries[0].timestamp_ms
    } else {
        now_ms()
    };
    let end = if n > 0 {
        Some(entries[n - 1].timestamp_ms)
    } else {
        None
    };
    LogSession { id: String::from_str(id), entries, start_time_ms: start, end_time_ms: end }
}

} // verus!
