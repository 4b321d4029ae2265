//! Line parsing: one raw text line becomes a typed `LogEntry`, or a
//! classified error. A batch of lines is parsed resiliently: a bad line
//! becomes a warning and is dropped, never a failure of the batch.
//!
//! The expected line shape is `[<timestamp>] LEVEL: message`. The
//! timestamp is parsed by a layered fallback: RFC 3339 with offset
//! first, then a naive date-time taken as UTC, then the naive form with
//! a literal trailing `Z`.

use vstd::prelude::*;

use crate::error::{ParseError, ParseErrorV, ParseResult};
use crate::text::{eq_upper, find_char, spec_find, spec_trim, spec_upper_seq, str_trim};
use crate::types::{EntryType, EntryV, LogEntry};

verus! {

/// The instant, in milliseconds since the Unix epoch, that chrono's
/// RFC 3339 / ISO 8601 parser reads out of a text, if any. The outcome
/// depends on the text alone.
pub uninterp spec fn rfc3339_ms_of(s: Seq<char>) -> Option<int>;

/// The instant, in milliseconds since the Unix epoch, that chrono reads
/// out of a text under a given format, taking the result as UTC, if
/// any. The outcome depends on the text and the format alone.
pub uninterp spec fn naive_format_ms_of(s: Seq<char>, fmt: Seq<char>) -> Option<int>;

/// The instant, in milliseconds since the Unix epoch, that chrono reads
/// out of a text under a given format carrying an offset, if any. The
/// outcome depends on the text and the format alone.
pub uninterp spec fn offset_format_ms_of(s: Seq<char>, fmt: Seq<char>) -> Option<int>;

/// Relies on chrono's `impl FromStr for DateTime<Utc>` (RFC 3339 /
/// ISO 8601 with offset) and `DateTime::timestamp_millis`, which
/// returns the non-leap milliseconds since the Unix epoch.
#[verifier::external_body]
fn parse_rfc3339_ms(s: &str) -> (r: Option<i64>)
    ensures
        match r {
            Some(v) => rfc3339_ms_of(s@) == Some(v as int),
            None => rfc3339_ms_of(s@) is None,
        },
{
    s.parse::<chrono::DateTime<chrono::Utc>>().ok().map(|dt| dt.timestamp_millis())
}

/// Relies on chrono's `NaiveDateTime::parse_from_str`, which parses
/// under the given format and has no offset to apply, on
/// `NaiveDateTime::and_utc`, which reads the naive value as UTC, and on
/// `DateTime::timestamp_millis`.
#[verifier::external_body]
fn parse_naive_format_ms(s: &str, fmt: &str) -> (r: Option<i64>)
    ensures
        match r {
            Some(v) => naive_format_ms_of(s@, fmt@) == Some(v as int),
            None => naive_format_ms_of(s@, fmt@) is None,
        },
{
    chrono::NaiveDateTime::parse_from_str(s, fmt).ok().map(|n| n.and_utc().timestamp_millis())
}

/// Relies on chrono's `DateTime::parse_from_str`, which parses under
/// the given format into a date-time with the offset the text carries,
/// and on `DateTime::timestamp_millis`, which is offset-independent.
#[verifier::external_body]
fn parse_offset_format_ms(s: &str, fmt: &str) -> (r: Option<i64>)
    ensures
        match r {
            Some(v) => offset_format_ms_of(s@, fmt@) == Some(v as int),
            None => offset_format_ms_of(s@, fmt@) is None,
        },
{
    chrono::DateTime::parse_from_str(s, fmt).ok().map(|dt| dt.timestamp_millis())
}

/// The layered timestamp reading: RFC 3339 with offset first, then the
/// naive form taken as UTC, then the naive form with a literal `Z`.
pub open spec fn spec_timestamp_ms(s: Seq<char>) -> Option<int> {
    if rfc3339_ms_of(s) is Some {
        rfc3339_ms_of(s)
    } else if naive_format_ms_of(s, "%Y-%m-%dT%H:%M:%S%.f"@) is Some {
        naive_format_ms_of(s, "%Y-%m-%dT%H:%M:%S%.f"@)
    } else {
        offset_format_ms_of(s, "%Y-%m-%dT%H:%M:%S%.fZ"@)
    }
}

/// Reads a timestamp text into milliseconds since the Unix epoch, by
/// the layered fallback of `spec_timestamp_ms`.
pub fn parse_timestamp(s: &str) -> (r: ParseResult<i64>)
    ensures
        match r {
            Ok(ms) => spec_timestamp_ms(s@) == Some(ms as int),
            Err(e) => spec_timestamp_ms(s@) is None && e@ == ParseErrorV::InvalidTimestamp(s@),
        },
{
    if let Some(v) = parse_rfc3339_ms(s) {
        return Ok(v);
    }
    if let Some(v) = parse_naive_format_ms(s, "%Y-%m-%dT%H:%M:%S%.f") {
        return Ok(v);
    }
    if let Some(v) = parse_offset_format_ms(s, "%Y-%m-%dT%H:%M:%S%.fZ") {
        return Ok(v);
    }
    Err(ParseError::InvalidTimestamp(String::from_str(s)))
}

/// The entry kind a level keyword names: the keyword, folded to ASCII
/// upper case, is matched against the fixed table; anything else is
/// `Unknown`.
pub open spec fn spec_level_kind_of(level: Seq<char>) -> EntryType {
    let u = spec_upper_seq(level);
    if u == "INFO"@ {
        EntryType::Info
    } else if u == "WARN"@ || u == "WARNING"@ {
        EntryType::Warning
    } else if u == "ERROR"@ {
        EntryType::Error
    } else if u == "AGENT"@ {
        EntryType::AgentInvocation
    } else if u == "DECISION"@ {
        EntryType::Decision
    } else {
        EntryType::Unknown
    }
}

/// Maps a level keyword to its entry kind, ASCII-case-insensitively.
pub fn parse_entry_type(s: &str) -> (t: EntryType)
    ensures
        t == spec_level_kind_of(s@),
{
    if eq_upper(s, "INFO") {
        EntryType::Info
    } else if eq_upper(s, "WARN") || eq_upper(s, "WARNING") {
        EntryType::Warning
    } else if eq_upper(s, "ERROR") {
        EntryType::Error
    } else if eq_upper(s, "AGENT") {
        EntryType::AgentInvocation
    } else if eq_upper(s, "DECISION") {
        EntryType::Decision
    } else {
        EntryType::Unknown
    }
}

/// What parsing one line yields: the entry, or the classified error.
///
/// A line must start with `[`; the text up to the first `]` is the
/// timestamp; the remainder is trimmed, and split at its first `:` into
/// a level keyword and a message, both trimmed. Without a `:` the whole
/// trimmed remainder is the message and the kind is `Unknown`. Agent
/// name and duration are never extracted at this layer.
pub open spec fn spec_parse_line(s: Seq<char>) -> Result<EntryV, ParseErrorV> {
    if s.len() == 0 || s[0] != '[' {
        Err(
            ParseErrorV::MalformedEntry {
                line: 0,
                details: "Line doesn't start with '['"@,
            },
        )
    } else {
        match spec_find(s, ']') {
            None => Err(
                ParseErrorV::MalformedEntry {
                    line: 0,
                    details: "No closing ']' for timestamp"@,
                },
            ),
            Some(j) => {
                let ts = s.subrange(1, j);
                match spec_timestamp_ms(ts) {
                    None => Err(ParseErrorV::InvalidTimestamp(ts)),
                    Some(ms) => {
                        let rest = spec_trim(s.subrange(j + 1, s.len() as int));
                        match spec_find(rest, ':') {
                            Some(k) => Ok(
                                EntryV {
                                    timestamp_ms: ms,
                                    entry_type: spec_level_kind_of(spec_trim(rest.subrange(0, k))),
                                    message: spec_trim(rest.subrange(k + 1, rest.len() as int)),
                                    agent_name: None,
                                    duration_ms: None,
                                },
                            ),
                            None => Ok(
                                EntryV {
                                    timestamp_ms: ms,
                                    entry_type: EntryType::Unknown,
                                    message: rest,
                                    agent_name: None,
                                    duration_ms: None,
                                },
                            ),
                        }
                    },
                }
            },
        }
    }
}

/// Parses one line into a `LogEntry`, or fails with the classified
/// error; no partial entry is ever produced.
pub fn parse_log_entry(line: &str) -> (r: ParseResult<LogEntry>)
    ensures
        match r {
            Ok(e) => spec_parse_line(line@) == Ok::<EntryV, ParseErrorV>(e@),
            Err(pe) => spec_parse_line(line@) == Err::<EntryV, ParseErrorV>(pe@),
        },
{
    let len = line.unicode_len();
    if len == 0 || line.get_char(0) != '[' {
        return Err(
            ParseError::MalformedEntry {
                line: 0,
                details: String::from_str("Line doesn't start with '['"),
            },
        );
    }
    let j = match find_char(line, ']') {
        Some(j) => j,
        None => {
            return Err(
                ParseError::MalformedEntry {
                    line: 0,
                    details: String::from_str("No closing ']' for timestamp"),
                },
            );
        },
    };
    proof {
        crate::text::lemma_find_first(line@, ']');
    }
    let timestamp_str = line.substring_char(1, j);
    let ms = match parse_timestamp(timestamp_str) {
        Ok(ms) => ms,
        Err(e) => {
            return Err(e);
        },
    };
    let rest = str_trim(line.substring_char(j + 1, len));
    let rest_len = rest.unicode_len();
    match find_char(rest, ':') {
        Some(k) => {
            proof {
                crate::text::lemma_find_first(rest@, ':');
            }
            let level = str_trim(rest.substring_char(0, k));
            let entry_type = parse_entry_type(level);
            let msg = str_trim(rest.substring_char(k + 1, rest_len));
            Ok(
                LogEntry {
                    timestamp_ms: ms,
                    entry_type,
                    message: String::from_str(msg),
                    agent_name: None,
                    duration_ms: None,
                },
            )
        },
        None => Ok(
            LogEntry {
                timestamp_ms: ms,
                entry_type: EntryType::Unknown,
                message: String::from_str(rest),
                agent_name: None,
                duration_ms: None,
            },
        ),
    }
}

/// A non-fatal diagnostic for one line that failed to parse.
#[derive(Debug, Clone)]
pub struct LineWarning {
    /// One-based number of the failing line.
    pub line: usize,
    /// Why the line was dropped.
    pub error: ParseError,
}

/// Mathematical image of a `LineWarning`.
pub ghost struct WarningV {
    pub line: int,
    pub error: ParseErrorV,
}

impl View for LineWarning {
    type V = WarningV;

    open spec fn view(&self) -> WarningV {
        WarningV { line: self.line as int, error: self.error@ }
    }
}

impl DeepView for LineWarning {
    type V = WarningV;

    open spec fn deep_view(&self) -> WarningV {
        self.view()
    }
}

/// Whether a line holds only space characters.
pub open spec fn spec_is_blank(s: Seq<char>) -> bool {
    spec_trim(s).len() == 0
}

/// The entries that batch parsing keeps: blank lines are skipped, lines
/// that parse contribute their entry in order, failing lines are
/// dropped.
pub open spec fn spec_parsed_entries(lines: Seq<Seq<char>>) -> Seq<EntryV>
    decreases lines.len(),
{
    if lines.len() == 0 {
        Seq::empty()
    } else {
        let pre = spec_parsed_entries(lines.drop_last());
        let l = lines.last();
        if spec_is_blank(l) {
            pre
        } else {
            match spec_parse_line(l) {
                Ok(e) => pre.push(e),
                Err(_) => pre,
            }
        }
    }
}

/// The warnings that batch parsing reports: one per non-blank line that
/// fails, carrying its one-based line number and the classified error.
pub open spec fn spec_warnings(lines: Seq<Seq<char>>) -> Seq<WarningV>
    decreases lines.len(),
{
    if lines.len() == 0 {
        Seq::empty()
    } else {
        let pre = spec_warnings(lines.drop_last());
        let l = lines.last();
        if spec_is_blank(l) {
            pre
        } else {
            match spec_parse_line(l) {
                Ok(_) => pre,
                Err(pe) => pre.push(WarningV { line: lines.len() as int, error: pe }),
            }
        }
    }
}

/// The number of blank lines in the batch.
pub open spec fn spec_blank_count(lines: Seq<Seq<char>>) -> int
    decreases lines.len(),
{
    if lines.len() == 0 {
        0
    } else {
        spec_blank_count(lines.drop_last()) + if spec_is_blank(lines.last()) {
            1int
        } else {
            0int
        }
    }
}

/// Resilience, counted: every line is either blank, kept as an entry,
/// or reported as a warning. With `n` lines of which `k` are malformed
/// and `b` blank, exactly `n - k - b` entries come out.
pub proof fn lemma_resilient_count(lines: Seq<Seq<char>>)
    ensures
        spec_parsed_entries(lines).len() + spec_warnings(lines).len() + spec_blank_count(lines)
            == lines.len(),
    decreases lines.len(),
{
    if lines.len() > 0 {
        lemma_resilient_count(lines.drop_last());
    }
}

/// Parses a batch of lines in order, resiliently: blank lines are
/// skipped silently; a line that fails to parse becomes a warning and
/// is dropped; every line that parses contributes its entry. The batch
/// itself never fails.
pub fn parse_log_lines(lines: &Vec<String>) -> (r: (Vec<LogEntry>, Vec<LineWarning>))
    ensures
        r.0.deep_view() == spec_parsed_entries(lines.deep_view()),
        r.1.deep_view() == spec_warnings(lines.deep_view()),
{
    let mut entries: Vec<LogEntry> = Vec::new();
    let mut warnings: Vec<LineWarning> = Vec::new();
    let n = lines.len();
    let mut i: usize = 0;
    while i < n
        invariant
            0 <= i <= n,
            n == lines@.len(),
            entries.deep_view() == spec_parsed_entries(lines.deep_view().subrange(0, i as int)),
            warnings.deep_view() == spec_warnings(lines.deep_view().subrange(0, i as int)),
        decreases n - i,
    {
        let ghost pre = lines.deep_view().subrange(0, i as int);
        let ghost cur = lines.deep_view().subrange(0, i + 1);
        proof {
            assert(cur.drop_last() =~= pre);
            assert(cur.last() == lines.deep_view()[i as int]);
        }
        let line = &lines[i];
        let trimmed = str_trim(line.as_str());
        if trimmed.unicode_len() > 0 {
            match parse_log_entry(line.as_str()) {
                Ok(entry) => {
                    entries.push(entry);
                    proof {
                        assert(entries.deep_view() =~= spec_parsed_entries(cur));
                        assert(warnings.deep_view() =~= spec_warnings(cur));
                    }
                },
                Err(e) => {
                    warnings.push(LineWarning { line: i + 1, error: e });
                    proof {
                        assert(entries.deep_view() =~= spec_parsed_entries(cur));
                        assert(warnings.deep_view() =~= spec_warnings(cur));
                    }
                },
            }
        } else {
            proof {
                assert(entries.deep_view() =~= spec_parsed_entries(cur));
                assert(warnings.deep_view() =~= spec_warnings(cur));
            }
        }
        i = i + 1;
    }
    proof {
        assert(lines.deep_view().subrange(0, n as int) =~= lines.deep_view());
    }
    (entries, warnings)
}

} // verus!
