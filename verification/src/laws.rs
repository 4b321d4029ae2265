//! The library's laws: statements that relate several functions, proved
//! once and for all over the same specifications the functions'
//! contracts use.

use vstd::prelude::*;

use crate::analyzer::{
    spec_agent_stats, spec_bursts, spec_distinct_agents, spec_gap_total_ms, spec_has_agents,
    spec_long_gaps, spec_merge_agents, spec_no_agent_marker, spec_patterns, spec_total_duration_ms,
    LogPatternV,
};
use crate::error::ParseErrorV;
use crate::parser::{spec_level_kind_of, spec_parse_line, spec_timestamp_ms};
use crate::text::{
    is_space_char, lemma_find_first, lemma_find_unique, lemma_trim_id, lemma_trim_lead_space,
    spec_find, spec_trim, spec_trim_back, spec_trim_front,
};
use crate::types::{EntryV, TimingStats};

verus! {

/// A well-formed line `[<ts>] <level>: <msg>` — a parsable timestamp
/// without `]`, a level without `:` and without spaces at its ends, a
/// non-blank message without spaces at its ends — parses to the entry
/// whose kind is the level's image under the fixed mapping table and
/// whose message is exactly `msg`.
pub proof fn lemma_parse_round_trip(ts: Seq<char>, level: Seq<char>, msg: Seq<char>)
    requires
        spec_timestamp_ms(ts) is Some,
        forall|k: int| 0 <= k < ts.len() ==> ts[k] != ']',
        forall|k: int| 0 <= k < level.len() ==> level[k] != ':',
        level.len() > 0 ==> !is_space_char(level[0]) && !is_space_char(level.last()),
        msg.len() > 0 ==> !is_space_char(msg[0]) && !is_space_char(msg.last()),
    ensures
        spec_parse_line(seq!['['] + ts + seq![']', ' '] + level + seq![':', ' '] + msg)
            == Ok::<EntryV, ParseErrorV>(
            EntryV {
                timestamp_ms: spec_timestamp_ms(ts).unwrap(),
                entry_type: spec_level_kind_of(level),
                message: msg,
                agent_name: None,
                duration_ms: None,
            },
        ),
{
    let line = seq!['['] + ts + seq![']', ' '] + level + seq![':', ' '] + msg;
    let j = 1 + ts.len() as int;
    assert(line[0] == '[');
    assert(line[j] == ']');
    assert forall|k: int| 0 <= k < j implies line[k] != ']' by {
        if k > 0 {
            assert(line[k] == ts[k - 1]);
        }
    }
    lemma_find_unique(line, ']', j);
    assert(line.subrange(1, j) =~= ts);
    let inner = level + seq![':', ' '] + msg;
    assert(line.subrange(j + 1, line.len() as int) =~= seq![' '] + inner);
    lemma_trim_lead_space(inner);
    assert(!is_space_char(inner[0])) by {
        if level.len() > 0 {
            assert(inner[0] == level[0]);
        } else {
            assert(inner[0] == ':');
        }
    }
    let rest = spec_trim(line.subrange(j + 1, line.len() as int));
    if msg.len() > 0 {
        assert(!is_space_char(inner.last())) by {
            assert(inner.last() == msg.last());
        }
        lemma_trim_id(inner);
        assert(rest == inner);
    } else {
        // The line ends `<level>: `; back-trimming folds the one
        // trailing space away.
        assert(inner.last() == ' ');
        assert(inner.drop_last() =~= level + seq![':']);
        let stripped = level + seq![':'];
        assert(!is_space_char(stripped[0])) by {
            if level.len() > 0 {
                assert(stripped[0] == level[0]);
            } else {
                assert(stripped[0] == ':');
            }
        }
        assert(!is_space_char(stripped.last()));
        lemma_trim_id(stripped);
        assert(spec_trim_front(inner) == inner);
        assert(spec_trim_back(inner) == spec_trim_back(stripped));
        assert(rest == stripped);
    }
    let k = level.len() as int;
    assert(rest[k] == ':');
    assert forall|k2: int| 0 <= k2 < k implies rest[k2] != ':' by {
        assert(rest[k2] == level[k2]);
    }
    lemma_find_unique(rest, ':', k);
    assert(rest.subrange(0, k) =~= level);
    lemma_trim_id(level);
    if msg.len() > 0 {
        assert(rest.subrange(k + 1, rest.len() as int) =~= seq![' '] + msg);
        lemma_trim_lead_space(msg);
        lemma_trim_id(msg);
    } else {
        assert(rest.subrange(k + 1, rest.len() as int) =~= msg);
        lemma_trim_id(msg);
    }
}

/// A line that is empty, does not start with `[`, or has no closing
/// `]`, always fails parsing: no entry comes out of it.
pub proof fn lemma_malformed_line_fails(s: Seq<char>)
    requires
        s.len() == 0 || s[0] != '[' || (forall|k: int| 0 <= k < s.len() ==> s[k] != ']'),
    ensures
        spec_parse_line(s) is Err,
{
    if s.len() > 0 && s[0] == '[' {
        lemma_find_first(s, ']');
        if spec_find(s, ']') is Some {
            assert(false);
        }
    }
}

/// An empty session has zero total duration, and a session with fewer
/// than two entries has a zero gap sum, hence a zero average gap.
pub proof fn lemma_sparse_session_timing(s: Seq<EntryV>)
    ensures
        s.len() == 0 ==> spec_total_duration_ms(s) == 0,
        s.len() < 2 ==> spec_gap_total_ms(s) == 0,
{
}

/// Every burst pattern is an `ErrorBurst`.
proof fn lemma_bursts_shape(times: Seq<int>, thr: int)
    ensures
        forall|j: int| 0 <= j < spec_bursts(times, thr).len() ==> (#[trigger] spec_bursts(
            times,
            thr,
        )[j]) is ErrorBurst,
    decreases times.len(),
{
    if times.len() >= 3 {
        lemma_bursts_shape(times.drop_last(), thr);
    }
}

/// Every gap pattern is a `LongGap`.
proof fn lemma_gaps_shape(s: Seq<EntryV>, thr: int)
    ensures
        forall|j: int| 0 <= j < spec_long_gaps(s, thr).len() ==> (#[trigger] spec_long_gaps(
            s,
            thr,
        )[j]) is LongGap,
    decreases s.len(),
{
    if s.len() >= 2 {
        lemma_gaps_shape(s.drop_last(), thr);
    }
}

/// Entries without agent names leave the sighting list as it was.
proof fn lemma_merge_no_agents(names: Seq<Seq<char>>, s: Seq<EntryV>)
    requires
        forall|j: int| 0 <= j < s.len() ==> (#[trigger] s[j]).agent_name is None,
    ensures
        spec_merge_agents(names, s) == names,
    decreases s.len(),
{
    if s.len() > 0 {
        assert(forall|j: int| 0 <= j < s.drop_last().len() ==> (#[trigger] s.drop_last()[j]).agent_name is None);
        lemma_merge_no_agents(names, s.drop_last());
    }
}

/// A session with at least one entry and no agent names anywhere yields
/// exactly one no-agent-activity marker — at the end of the report —
/// and no agent-activity pattern at all.
pub proof fn lemma_no_agent_session(s: Seq<EntryV>, burst_thr: int, gap_thr: int, act_thr: int)
    requires
        s.len() >= 1,
        forall|j: int| 0 <= j < s.len() ==> (#[trigger] s[j]).agent_name is None,
    ensures
        spec_patterns(s, burst_thr, gap_thr, act_thr).len() >= 1,
        spec_patterns(s, burst_thr, gap_thr, act_thr).last() == LogPatternV::NoAgentActivity,
        forall|j: int|
            0 <= j < spec_patterns(s, burst_thr, gap_thr, act_thr).len() - 1 ==> !((
            #[trigger] spec_patterns(s, burst_thr, gap_thr, act_thr)[j]) is NoAgentActivity) && !(
            spec_patterns(s, burst_thr, gap_thr, act_thr)[j] is AgentActivity),
{
    assert(!spec_has_agents(s));
    assert(spec_no_agent_marker(s) == seq![LogPatternV::NoAgentActivity]);
    lemma_merge_no_agents(Seq::empty(), s);
    assert(spec_distinct_agents(s) == Seq::<Seq<char>>::empty());
    lemma_bursts_shape(crate::analyzer::spec_error_times(s), burst_thr);
    lemma_gaps_shape(s, gap_thr);
}

/// Analyzers are deterministic: any two timing results that meet the
/// timing analyzer's contract on one session are the same value, so
/// re-running the analyzer on an unchanged session changes nothing.
pub proof fn lemma_timing_idempotent(s: Seq<EntryV>, r1: TimingStats, r2: TimingStats)
    requires
        r1.total_duration_ms == spec_total_duration_ms(s) && r1.entry_count == s.len()
            && r1.gap_total_ms == spec_gap_total_ms(s),
        r2.total_duration_ms == spec_total_duration_ms(s) && r2.entry_count == s.len()
            && r2.gap_total_ms == spec_gap_total_ms(s),
    ensures
        r1 == r2,
{
}

/// Any two per-agent reports that meet the agent analyzer's contract on
/// one session are the same sequence, so re-running the analyzer on an
/// unchanged session changes nothing.
pub proof fn lemma_agent_idempotent(
    s: Seq<EntryV>,
    r1: Seq<crate::types::AgentStatsV>,
    r2: Seq<crate::types::AgentStatsV>,
)
    requires
        r1 == spec_agent_stats(s),
        r2 == spec_agent_stats(s),
    ensures
        r1 == r2,
{
}

/// Any two pattern reports that meet the pattern analyzer's contract on
/// one session under the same thresholds are the same sequence, so
/// re-running the analyzer on an unchanged session changes nothing.
pub proof fn lemma_pattern_idempotent(
    s: Seq<EntryV>,
    burst_thr: int,
    gap_thr: int,
    act_thr: int,
    r1: Seq<LogPatternV>,
    r2: Seq<LogPatternV>,
)
    requires
        r1 == spec_patterns(s, burst_thr, gap_thr, act_thr),
        r2 == spec_patterns(s, burst_thr, gap_thr, act_thr),
    ensures
        r1 == r2,
{
}

} // verus!
