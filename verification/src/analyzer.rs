//! Analyzers over one session: timing statistics, per-agent aggregates,
//! and pattern detection. Every analyzer borrows the session read-only,
//! never mutates it, and never fails: an empty session degrades to
//! zeroed or empty statistics.

use vstd::prelude::*;
use vstd::pervasive::VecAdditionalExecFns;

use crate::error::ParseResult;
use crate::types::{AgentStats, AgentStatsV, EntryType, EntryV, LogEntry, LogSession, TimingStats};

verus! {

/// An analyzer consumes a borrowed session and produces a typed result.
pub trait Analyzer {
    /// The type of result this analyzer produces.
    type Output;

    /// The analyzer's name as a character sequence.
    spec fn spec_name(&self) -> Seq<char>;

    /// Analyzes a log session.
    fn analyze(&self, session: &LogSession) -> ParseResult<Self::Output>;

    /// The analyzer's name, for reporting.
    fn name(&self) -> (r: &str)
        ensures
            r@ == self.spec_name(),
    ;
}

/// The smallest timestamp among the entries.
pub open spec fn spec_min_ts(s: Seq<EntryV>) -> int
    recommends
        s.len() > 0,
    decreases s.len(),
{
    if s.len() <= 1 {
        s[0].timestamp_ms
    } else {
        let m = spec_min_ts(s.drop_last());
        if s.last().timestamp_ms < m {
            s.last().timestamp_ms
        } else {
            m
        }
    }
}

/// The largest timestamp among the entries.
pub open spec fn spec_max_ts(s: Seq<EntryV>) -> int
    recommends
        s.len() > 0,
    decreases s.len(),
{
    if s.len() <= 1 {
        s[0].timestamp_ms
    } else {
        let m = spec_max_ts(s.drop_last());
        if s.last().timestamp_ms > m {
            s.last().timestamp_ms
        } else {
            m
        }
    }
}

/// Largest minus smallest timestamp; zero without entries.
pub open spec fn spec_total_duration_ms(s: Seq<EntryV>) -> int {
    if s.len() == 0 {
        0
    } else {
        spec_max_ts(s) - spec_min_ts(s)
    }
}

/// Sum of the timestamp deltas of consecutive entries, in sequence
/// order — not re-sorted by time; zero with fewer than two entries.
pub open spec fn spec_gap_total_ms(s: Seq<EntryV>) -> int
    decreases s.len(),
{
    if s.len() < 2 {
        0
    } else {
        spec_gap_total_ms(s.drop_last()) + (s.last().timestamp_ms - s[s.len() - 2].timestamp_ms)
    }
}

/// Computes `TimingStats` for a session.
pub struct TimingAnalyzer;

impl TimingAnalyzer {
    /// Creates a new timing analyzer.
    pub fn new() -> (r: TimingAnalyzer) {
        TimingAnalyzer
    }
}

impl Default for TimingAnalyzer {
    fn default() -> (r: Self) {
        TimingAnalyzer::new()
    }
}

impl Analyzer for TimingAnalyzer {
    type Output = TimingStats;

    open spec fn spec_name(&self) -> Seq<char> {
        "TimingAnalyzer"@
    }

    /// Always succeeds; the result's fields are exactly the session's
    /// timing quantities, in milliseconds.
    fn analyze(&self, session: &LogSession) -> (r: ParseResult<TimingStats>)
        ensures
            r matches Ok(stats) && stats == (TimingStats {
                total_duration_ms: spec_total_duration_ms(session.entries.deep_view()) as i128,
                entry_count: session.entries@.len() as usize,
                gap_total_ms: spec_gap_total_ms(session.entries.deep_view()) as i128,
            }),
    {
        let ghost s = session.entries.deep_view();
        let entries = &session.entries;
        let n = entries.len();
        if n == 0 {
            return Ok(TimingStats { total_duration_ms: 0, entry_count: 0, gap_total_ms: 0 });
        }
        let first = entries[0].timestamp_ms;
        let mut min_ts = first;
        let mut max_ts = first;
        let mut gap_total: i128 = 0;
        let mut prev = first;
        let mut i: usize = 1;
        proof {
            assert(s.subrange(0, 1).len() == 1);
            assert(s.subrange(0, 1)[0] == s[0]);
        }
        while i < n
            invariant
                1 <= i <= n,
                n == entries@.len(),
                s == entries.deep_view(),
                s.len() == n,
                min_ts == spec_min_ts(s.subrange(0, i as int)),
                max_ts == spec_max_ts(s.subrange(0, i as int)),
                gap_total == spec_gap_total_ms(s.subrange(0, i as int)),
                prev == s[i - 1].timestamp_ms,
                first == s[0].timestamp_ms,
                gap_total == prev - first,
            decreases n - i,
        {
            let ghost pre = s.subrange(0, i as int);
            let ghost cur = s.subrange(0, i + 1);
            proof {
                assert(cur.drop_last() =~= pre);
                assert(cur.last() == s[i as int]);
                assert(cur[cur.len() - 2] == s[i - 1]);
            }
            let t = entries[i].timestamp_ms;
            if t < min_ts {
                min_ts = t;
            }
            if t > max_ts {
                max_ts = t;
            }
            gap_total = gap_total + (t as i128 - prev as i128);
            prev = t;
            i = i + 1;
        }
        proof {
            assert(s.subrange(0, n as int) =~= s);
        }
        Ok(
            TimingStats {
                total_duration_ms: max_ts as i128 - min_ts as i128,
                entry_count: n,
                gap_total_ms: gap_total,
            },
        )
    }

    fn name(&self) -> (r: &str) {
        proof {
            reveal_strlit("TimingAnalyzer");
        }
        "TimingAnalyzer"
    }
}

/// Whether the durations an entry carries fit the machine range they
/// were read from.
spec fn entry_duration_bounded(e: EntryV) -> bool {
    match e.duration_ms {
        Some(d) => 0 <= d <= u64::MAX,
        None => true,
    }
}

/// Whether every entry's duration is in machine range.
spec fn entries_bounded(s: Seq<EntryV>) -> bool {
    forall|j: int| 0 <= j < s.len() ==> entry_duration_bounded(#[trigger] s[j])
}

/// How many entries carry the given agent name.
pub open spec fn spec_agent_count(s: Seq<EntryV>, name: Seq<char>) -> int
    decreases s.len(),
{
    if s.len() == 0 {
        0
    } else {
        spec_agent_count(s.drop_last(), name) + if s.last().agent_name == Some(name) {
            1int
        } else {
            0int
        }
    }
}

/// The sum of the known durations of the entries carrying the given
/// agent name; an entry without a duration contributes nothing.
pub open spec fn spec_agent_total(s: Seq<EntryV>, name: Seq<char>) -> int
    decreases s.len(),
{
    if s.len() == 0 {
        0
    } else {
        spec_agent_total(s.drop_last(), name) + if s.last().agent_name == Some(name) {
            match s.last().duration_ms {
                Some(d) => d,
                None => 0,
            }
        } else {
            0int
        }
    }
}

/// The agent names of `s` in order of first sighting, appended to
/// `names` when not already present.
pub open spec fn spec_merge_agents(names: Seq<Seq<char>>, s: Seq<EntryV>) -> Seq<Seq<char>>
    decreases s.len(),
{
    if s.len() == 0 {
        names
    } else {
        let pre = spec_merge_agents(names, s.drop_last());
        match s.last().agent_name {
            None => pre,
            Some(n) => if pre.contains(n) {
                pre
            } else {
                pre.push(n)
            },
        }
    }
}

/// The distinct agent names of `s`, in order of first sighting.
pub open spec fn spec_distinct_agents(s: Seq<EntryV>) -> Seq<Seq<char>> {
    spec_merge_agents(Seq::empty(), s)
}

/// The per-agent aggregates of `s`: one element per distinct agent
/// name, in order of first sighting, carrying that agent's invocation
/// count and duration total.
pub open spec fn spec_agent_stats(s: Seq<EntryV>) -> Seq<AgentStatsV> {
    let names = spec_distinct_agents(s);
    Seq::new(
        names.len(),
        |k: int|
            AgentStatsV {
                name: names[k],
                invocation_count: spec_agent_count(s, names[k]),
                total_duration_ms: spec_agent_total(s, names[k]),
            },
    )
}

/// An agent's invocation count lies between zero and the entry count.
proof fn lemma_agent_count_bounds(s: Seq<EntryV>, name: Seq<char>)
    ensures
        0 <= spec_agent_count(s, name) <= s.len(),
    decreases s.len(),
{
    if s.len() > 0 {
        lemma_agent_count_bounds(s.drop_last(), name);
    }
}

/// An agent's duration total lies between zero and the entry count
/// times the largest single duration.
proof fn lemma_agent_total_bounds(s: Seq<EntryV>, name: Seq<char>)
    requires
        entries_bounded(s),
    ensures
        0 <= spec_agent_total(s, name) <= s.len() * u64::MAX,
    decreases s.len(),
{
    if s.len() > 0 {
        assert(entries_bounded(s.drop_last()));
        lemma_agent_total_bounds(s.drop_last(), name);
        assert((s.len() - 1) * u64::MAX + u64::MAX == s.len() * u64::MAX) by (nonlinear_arith);
    }
}

/// Counting over a prefix never exceeds counting over the whole.
proof fn lemma_agent_count_prefix(s: Seq<EntryV>, i: int, name: Seq<char>)
    requires
        0 <= i <= s.len(),
    ensures
        spec_agent_count(s.subrange(0, i), name) <= spec_agent_count(s, name),
    decreases s.len() - i,
{
    if i == s.len() {
        assert(s.subrange(0, i) =~= s);
    } else {
        let cur = s.subrange(0, i + 1);
        assert(cur.drop_last() =~= s.subrange(0, i));
        lemma_agent_count_prefix(s, i + 1, name);
    }
}

/// Totalling over a prefix never exceeds totalling over the whole.
proof fn lemma_agent_total_prefix(s: Seq<EntryV>, i: int, name: Seq<char>)
    requires
        0 <= i <= s.len(),
        entries_bounded(s),
    ensures
        spec_agent_total(s.subrange(0, i), name) <= spec_agent_total(s, name),
    decreases s.len() - i,
{
    if i == s.len() {
        assert(s.subrange(0, i) =~= s);
    } else {
        let cur = s.subrange(0, i + 1);
        assert(cur.drop_last() =~= s.subrange(0, i));
        assert(cur.last() == s[i]);
        lemma_agent_total_prefix(s, i + 1, name);
    }
}

/// Accumulates per-agent statistics; the accumulator may be fed several
/// entry batches and keeps its state until cleared.
pub struct AgentAnalyzer {
    stats: Vec<AgentStats>,
}

impl AgentAnalyzer {
    /// The accumulated statistics, one element per agent seen.
    pub closed spec fn stats_seq(&self) -> Seq<AgentStatsV> {
        self.stats.deep_view()
    }

    /// The accumulated agent names, in order of first sighting.
    pub open spec fn names(&self) -> Seq<Seq<char>> {
        self.stats_seq().map_values(|a: AgentStatsV| a.name)
    }

    /// Each agent has exactly one accumulator.
    pub open spec fn wf(&self) -> bool {
        forall|k1: int, k2: int|
            0 <= k1 < k2 < self.stats_seq().len() ==> (#[trigger] self.stats_seq()[k1]).name != (
            #[trigger] self.stats_seq()[k2]).name
    }

    /// Creates an empty accumulator.
    pub fn new() -> (r: AgentAnalyzer)
        ensures
            r.wf(),
            r.stats_seq() == Seq::<AgentStatsV>::empty(),
    {
        AgentAnalyzer { stats: Vec::new() }
    }

    /// Folds one batch of entries into the accumulator. Every entry
    /// carrying an agent name counts one invocation for that agent; an
    /// entry that also carries a duration adds it to the agent's total.
    /// Agents first seen here are appended in order of first sighting.
    pub fn process_entries(&mut self, entries: &Vec<LogEntry>)
        requires
            old(self).wf(),
            forall|k: int|
                0 <= k < old(self).stats_seq().len() ==> (#[trigger] old(self).stats_seq()[k])
                    .invocation_count + spec_agent_count(
                    entries.deep_view(),
                    old(self).stats_seq()[k].name,
                ) <= u64::MAX && old(self).stats_seq()[k].total_duration_ms + spec_agent_total(
                    entries.deep_view(),
                    old(self).stats_seq()[k].name,
                ) <= u128::MAX,
        ensures
            final(self).wf(),
            final(self).names() == spec_merge_agents(old(self).names(), entries.deep_view()),
            forall|k: int|
                0 <= k < old(self).stats_seq().len() ==> {
                    let o = #[trigger] old(self).stats_seq()[k];
                    let f = final(self).stats_seq()[k];
                    f.name == o.name && f.invocation_count == o.invocation_count
                        + spec_agent_count(entries.deep_view(), o.name) && f.total_duration_ms
                        == o.total_duration_ms + spec_agent_total(entries.deep_view(), o.name)
                },
            forall|k: int|
                old(self).stats_seq().len() <= k < final(self).stats_seq().len() ==> {
                    let f = #[trigger] final(self).stats_seq()[k];
                    f.invocation_count == spec_agent_count(entries.deep_view(), f.name)
                        && f.total_duration_ms == spec_agent_total(entries.deep_view(), f.name)
                        && !old(self).names().contains(f.name)
                },
    {
        let ghost dv = entries.deep_view();
        let ghost base = old(self).stats_seq();
        proof {
            assert forall|j: int| 0 <= j < dv.len() implies entry_duration_bounded(
                #[trigger] dv[j],
            ) by {
                assert(dv[j] == entries@[j].deep_view());
            }
        }
        let n = entries.len();
        let mut i: usize = 0;
        while i < n
            invariant
                0 <= i <= n,
                n == entries@.len(),
                dv == entries.deep_view(),
                dv.len() == n,
                entries_bounded(dv),
                base == old(self).stats_seq(),
                self.wf(),
                base.len() <= self.stats_seq().len(),
                self.names() == spec_merge_agents(old(self).names(), dv.subrange(0, i as int)),
                forall|k: int|
                    0 <= k < base.len() ==> (#[trigger] base[k]).invocation_count
                        + spec_agent_count(dv, base[k].name) <= u64::MAX && base[k].total_duration_ms
                        + spec_agent_total(dv, base[k].name) <= u128::MAX,
                forall|k: int|
                    0 <= k < base.len() ==> {
                        let o = #[trigger] base[k];
                        let f = self.stats_seq()[k];
                        f.name == o.name && f.invocation_count == o.invocation_count
                            + spec_agent_count(dv.subrange(0, i as int), o.name)
                            && f.total_duration_ms == o.total_duration_ms + spec_agent_total(
                            dv.subrange(0, i as int),
                            o.name,
                        )
                    },
                forall|k: int|
                    base.len() <= k < self.stats_seq().len() ==> {
                        let f = #[trigger] self.stats_seq()[k];
                        f.invocation_count == spec_agent_count(dv.subrange(0, i as int), f.name)
                            && f.total_duration_ms == spec_agent_total(
                            dv.subrange(0, i as int),
                            f.name,
                        ) && !old(self).names().contains(f.name)
                    },
                forall|nm: Seq<char>|
                    !self.names().contains(nm) ==> #[trigger] spec_agent_count(
                        dv.subrange(0, i as int),
                        nm,
                    ) == 0 && spec_agent_total(dv.subrange(0, i as int), nm) == 0,
            decreases n - i,
        {
            let ghost pre = dv.subrange(0, i as int);
            let ghost cur = dv.subrange(0, i + 1);
            let ghost stats0 = self.stats_seq();
            let ghost names0 = self.names();
            proof {
                assert(cur.drop_last() =~= pre);
                assert(cur.last() == dv[i as int]);
                assert(dv[i as int] == entries@[i as int].deep_view());
                assert(entries_bounded(cur));
            }
            match &entries[i].agent_name {
                None => {
                    proof {
                        assert(cur.last().agent_name is None);
                        assert forall|nm2: Seq<char>|
                            !self.names().contains(nm2) implies #[trigger] spec_agent_count(
                            cur,
                            nm2,
                        ) == 0 && spec_agent_total(cur, nm2) == 0 by {
                            assert(spec_agent_count(pre, nm2) == 0);
                            assert(spec_agent_total(pre, nm2) == 0);
                        }
                    }
                },
                Some(name) => {
                    let ghost nm = name@;
                    let dur = entries[i].duration_ms;
                    let ghost dval: int = match dur {
                        Some(d) => d as int,
                        None => 0,
                    };
                    proof {
                        assert(cur.last().agent_name == Some(nm));
                        assert(spec_agent_count(cur, nm) == spec_agent_count(pre, nm) + 1);
                        assert(spec_agent_total(cur, nm) == spec_agent_total(pre, nm) + dval);
                    }
                    match Self::find_stat(&self.stats, name.as_str()) {
                        Some(k) => {
                            proof {
                                assert(stats0[k as int] == self.stats@[k as int].deep_view());
                                assert(stats0[k as int].name == nm);
                                assert(names0[k as int] == nm);
                                assert(names0.contains(nm));
                                if k >= base.len() {
                                    lemma_agent_count_bounds(cur, nm);
                                    lemma_agent_total_bounds(cur, nm);
                                    assert(stats0[k as int].invocation_count + 1
                                        == spec_agent_count(cur, nm));
                                    assert(spec_agent_count(cur, nm) <= cur.len());
                                    assert(stats0[k as int].total_duration_ms + dval
                                        == spec_agent_total(cur, nm));
                                    assert(cur.len() * u64::MAX <= u128::MAX) by (nonlinear_arith)
                                        requires
                                            0 <= cur.len() <= u64::MAX,
                                    ;
                                } else {
                                    lemma_agent_count_prefix(dv, i + 1, nm);
                                    lemma_agent_total_prefix(dv, i + 1, nm);
                                    assert(base[k as int].name == nm);
                                    assert(stats0[k as int].invocation_count + 1
                                        == base[k as int].invocation_count + spec_agent_count(
                                        cur,
                                        nm,
                                    ));
                                    assert(spec_agent_count(cur, nm) <= spec_agent_count(dv, nm));
                                    assert(stats0[k as int].total_duration_ms + dval
                                        == base[k as int].total_duration_ms + spec_agent_total(
                                        cur,
                                        nm,
                                    ));
                                    assert(spec_agent_total(cur, nm) <= spec_agent_total(dv, nm));
                                }
                            }
                            let c = self.stats[k].invocation_count;
                            let t = self.stats[k].total_duration_ms;
                            let nm_owned = self.stats[k].name.clone();
                            let nt: u128 = match dur {
                                Some(d) => t + d as u128,
                                None => t,
                            };
                            self.stats.set(
                                k,
                                AgentStats {
                                    name: nm_owned,
                                    invocation_count: c + 1,
                                    total_duration_ms: nt,
                                },
                            );
                            proof {
                                assert(self.stats_seq() =~= stats0.update(
                                    k as int,
                                    AgentStatsV {
                                        name: nm,
                                        invocation_count: c as int + 1,
                                        total_duration_ms: t as int + dval,
                                    },
                                ));
                                assert(self.names() =~= names0);
                                assert(spec_merge_agents(old(self).names(), cur) == names0);
                                assert forall|nm2: Seq<char>|
                                    !self.names().contains(nm2) implies #[trigger] spec_agent_count(
                                    cur,
                                    nm2,
                                ) == 0 && spec_agent_total(cur, nm2) == 0 by {
                                    assert(!names0.contains(nm2));
                                    assert(spec_agent_count(pre, nm2) == 0);
                                    assert(spec_agent_total(pre, nm2) == 0);
                                    assert(nm2 != nm);
                                }
                            }
                        },
                        None => {
                            proof {
                                assert forall|j: int| 0 <= j < names0.len() implies #[trigger]
                                names0[j] != nm by {
                                    assert(names0[j] == stats0[j].name);
                                }
                                assert(!names0.contains(nm));
                                assert(spec_agent_count(pre, nm) == 0);
                                assert(spec_agent_total(pre, nm) == 0);
                            }
                            let nt: u128 = match dur {
                                Some(d) => d as u128,
                                None => 0,
                            };
                            self.stats.push(
                                AgentStats {
                                    name: name.clone(),
                                    invocation_count: 1,
                                    total_duration_ms: nt,
                                },
                            );
                            proof {
                                assert(self.stats_seq() =~= stats0.push(
                                    AgentStatsV {
                                        name: nm,
                                        invocation_count: 1,
                                        total_duration_ms: dval,
                                    },
                                ));
                                assert(self.names() =~= names0.push(nm));
                                assert(spec_merge_agents(old(self).names(), cur) == names0.push(
                                    nm,
                                ));
                                assert forall|nm2: Seq<char>|
                                    !self.names().contains(nm2) implies #[trigger] spec_agent_count(
                                    cur,
                                    nm2,
                                ) == 0 && spec_agent_total(cur, nm2) == 0 by {
                                    assert(self.names()[self.names().len() - 1] == nm);
                                    assert(self.names().contains(nm));
                                    assert(nm2 != nm);
                                    if names0.contains(nm2) {
                                        let j = choose|j: int|
                                            0 <= j < names0.len() && names0[j] == nm2;
                                        assert(self.names()[j] == nm2);
                                        assert(self.names().contains(nm2));
                                        assert(false);
                                    }
                                    assert(spec_agent_count(pre, nm2) == 0);
                                    assert(spec_agent_total(pre, nm2) == 0);
                                }
                            }
                        },
                    }
                },
            }
            proof {
                assert forall|nm2: Seq<char>|
                    !self.names().contains(nm2) implies #[trigger] spec_agent_count(
                    dv.subrange(0, i + 1),
                    nm2,
                ) == 0 && spec_agent_total(dv.subrange(0, i + 1), nm2) == 0 by {
                    assert(dv.subrange(0, i + 1) =~= cur);
                    assert(spec_agent_count(cur, nm2) == 0);
                    assert(spec_agent_total(cur, nm2) == 0);
                }
            }
            i = i + 1;
        }
        proof {
            assert(dv.subrange(0, n as int) =~= dv);
        }
    }

    /// Copies of all accumulated statistics, in order of first
    /// sighting of each agent.
    pub fn get_all_stats(&self) -> (r: Vec<AgentStats>)
        ensures
            r.deep_view() == self.stats_seq(),
    {
        let mut out: Vec<AgentStats> = Vec::new();
        let m = self.stats.len();
        let mut k: usize = 0;
        while k < m
            invariant
                0 <= k <= m,
                m == self.stats@.len(),
                out@.len() == k,
                forall|j: int| 0 <= j < k ==> (#[trigger] out@[j]).deep_view()
                    == self.stats_seq()[j],
            decreases m - k,
        {
            proof {
                assert(self.stats_seq()[k as int] == self.stats@[k as int].deep_view());
            }
            let ghost o0 = out@;
            out.push(
                AgentStats {
                    name: self.stats[k].name.clone(),
                    invocation_count: self.stats[k].invocation_count,
                    total_duration_ms: self.stats[k].total_duration_ms,
                },
            );
            proof {
                assert(out@ == o0.push(out@[k as int]));
                assert forall|j: int| 0 <= j < k + 1 implies (#[trigger] out@[j]).deep_view()
                    == self.stats_seq()[j] by {
                    if j < k {
                        assert(out@[j] == o0[j]);
                    }
                }
            }
            k = k + 1;
        }
        proof {
            assert forall|j: int| 0 <= j < m implies out.deep_view()[j] == self.stats_seq()[j] by {
                assert(out.deep_view()[j] == out@[j].deep_view());
            }
            assert(out.deep_view() =~= self.stats_seq());
        }
        out
    }

    /// The accumulated statistics for one agent, when that agent has
    /// been seen.
    pub fn get_agent_stats(&self, agent_name: &str) -> (r: Option<&AgentStats>)
        ensures
            match r {
                Some(st) => self.names().contains(agent_name@) && st.deep_view().name
                    == agent_name@ && self.stats_seq().contains(st.deep_view()),
                None => !self.names().contains(agent_name@),
            },
    {
        match Self::find_stat(&self.stats, agent_name) {
            Some(k) => {
                proof {
                    assert(self.stats_seq()[k as int] == self.stats@[k as int].deep_view());
                    assert(self.names()[k as int] == agent_name@);
                }
                Some(&self.stats[k])
            },
            None => {
                proof {
                    assert forall|j: int| 0 <= j < self.names().len() implies #[trigger]
                    self.names()[j] != agent_name@ by {
                        assert(self.names()[j] == self.stats_seq()[j].name);
                    }
                }
                None
            },
        }
    }

    /// Forgets all accumulated statistics.
    pub fn clear(&mut self)
        ensures
            final(self).wf(),
            final(self).stats_seq() == Seq::<AgentStatsV>::empty(),
    {
        self.stats = Vec::new();
    }

    /// Runs the per-agent aggregation on one batch of entries with a
    /// fresh accumulator.
    pub fn aggregate(entries: &Vec<LogEntry>) -> (r: Vec<AgentStats>)
        ensures
            r.deep_view() == spec_agent_stats(entries.deep_view()),
    {
        let ghost dv = entries.deep_view();
        let mut temp = AgentAnalyzer::new();
        proof {
            assert(temp.names() =~= Seq::<Seq<char>>::empty());
        }
        temp.process_entries(entries);
        let out = temp.get_all_stats();
        proof {
            assert(temp.names().len() == temp.stats_seq().len());
            assert(out.deep_view() =~= spec_agent_stats(dv));
        }
        out
    }

    /// The position of the accumulator for `name`, if one exists.
    fn find_stat(stats: &Vec<AgentStats>, name: &str) -> (r: Option<usize>)
        ensures
            match r {
                Some(k) => k < stats@.len() && stats@[k as int].name@ == name@,
                None => forall|k: int| 0 <= k < stats@.len() ==> (#[trigger] stats@[k]).name@
                    != name@,
            },
    {
        let m = stats.len();
        let mut k: usize = 0;
        while k < m
            invariant
                0 <= k <= m,
                m == stats@.len(),
                forall|j: int| 0 <= j < k ==> (#[trigger] stats@[j]).name@ != name@,
            decreases m - k,
        {
            if crate::text::str_eq(stats[k].name.as_str(), name) {
                return Some(k);
            }
            k = k + 1;
        }
        None
    }
}

impl Default for AgentAnalyzer {
    fn default() -> (r: Self)
        ensures
            r.wf(),
            r.stats_seq() == Seq::<AgentStatsV>::empty(),
    {
        AgentAnalyzer::new()
    }
}

impl Analyzer for AgentAnalyzer {
    type Output = Vec<AgentStats>;

    open spec fn spec_name(&self) -> Seq<char> {
        "AgentAnalyzer"@
    }

    /// Always succeeds; the result holds one aggregate per distinct
    /// agent name of the session, in order of first sighting, with that
    /// agent's invocation count and duration total. The accumulated
    /// state of `self` plays no part and is left untouched.
    fn analyze(&self, session: &LogSession) -> (r: ParseResult<Vec<AgentStats>>)
        ensures
            r matches Ok(v) && v.deep_view() == spec_agent_stats(session.entries.deep_view()),
    {
        Ok(Self::aggregate(&session.entries))
    }

    fn name(&self) -> (r: &str) {
        proof {
            reveal_strlit("AgentAnalyzer");
        }
        "AgentAnalyzer"
    }
}

/// A pattern detected in a session's entries. Durations are exact
/// milliseconds.
#[derive(Debug, Clone, PartialEq)]
pub enum LogPattern {
    /// Three error entries in rapid succession.
    ErrorBurst { count: usize, duration_ms: i128 },
    /// A long pause between two adjacent entries.
    LongGap { duration_ms: i128 },
    /// An agent invoked at least as often as the activity threshold.
    AgentActivity { agent: String, count: usize },
    /// A non-empty session in which no entry names an agent.
    NoAgentActivity,
}

/// Mathematical image of a `LogPattern`.
pub ghost enum LogPatternV {
    ErrorBurst { count: int, duration_ms: int },
    LongGap { duration_ms: int },
    AgentActivity { agent: Seq<char>, count: int },
    NoAgentActivity,
}

impl View for LogPattern {
    type V = LogPatternV;

    open spec fn view(&self) -> LogPatternV {
        match self {
            LogPattern::ErrorBurst { count, duration_ms } => LogPatternV::ErrorBurst {
                count: *count as int,
                duration_ms: *duration_ms as int,
            },
            LogPattern::LongGap { duration_ms } => LogPatternV::LongGap {
                duration_ms: *duration_ms as int,
            },
            LogPattern::AgentActivity { agent, count } => LogPatternV::AgentActivity {
                agent: agent@,
                count: *count as int,
            },
            LogPattern::NoAgentActivity => LogPatternV::NoAgentActivity,
        }
    }
}

impl DeepView for LogPattern {
    type V = LogPatternV;

    open spec fn deep_view(&self) -> LogPatternV {
        self.view()
    }
}

/// The ordered pattern report of one session: error bursts first, then
/// long gaps, then agent-activity patterns, then at most one
/// no-agent-activity marker.
#[derive(Debug, Clone)]
pub struct PatternAnalysis {
    /// The detected patterns, in the fixed detector order.
    pub patterns: Vec<LogPattern>,
}

/// The timestamps of the error-kind entries, in sequence order.
pub open spec fn spec_error_times(s: Seq<EntryV>) -> Seq<int>
    decreases s.len(),
{
    if s.len() == 0 {
        Seq::empty()
    } else {
        let pre = spec_error_times(s.drop_last());
        if s.last().entry_type == EntryType::Error {
            pre.push(s.last().timestamp_ms)
        } else {
            pre
        }
    }
}

/// Whether a window of three errors, first at `t0` and last at `t2`,
/// is a burst under a rate threshold of `thr_millis` thousandths of an
/// error per second: the elapsed time is positive and three errors over
/// it reach the rate.
pub open spec fn spec_burst_qualifies(t0: int, t2: int, thr_millis: int) -> bool {
    t2 - t0 > 0 && thr_millis * (t2 - t0) <= 3_000_000
}

/// One burst pattern per qualifying window of three consecutive error
/// timestamps, in window order; overlapping windows each report.
pub open spec fn spec_bursts(times: Seq<int>, thr_millis: int) -> Seq<LogPatternV>
    decreases times.len(),
{
    if times.len() < 3 {
        Seq::empty()
    } else {
        let pre = spec_bursts(times.drop_last(), thr_millis);
        let t0 = times[times.len() - 3];
        let t2 = times.last();
        if spec_burst_qualifies(t0, t2, thr_millis) {
            pre.push(LogPatternV::ErrorBurst { count: 3, duration_ms: t2 - t0 })
        } else {
            pre
        }
    }
}

/// One long-gap pattern per adjacent pair of entries, in sequence
/// order, whose timestamp delta exceeds `thr_ms` milliseconds.
pub open spec fn spec_long_gaps(s: Seq<EntryV>, thr_ms: int) -> Seq<LogPatternV>
    decreases s.len(),
{
    if s.len() < 2 {
        Seq::empty()
    } else {
        let pre = spec_long_gaps(s.drop_last(), thr_ms);
        let gap = s.last().timestamp_ms - s[s.len() - 2].timestamp_ms;
        if gap > thr_ms {
            pre.push(LogPatternV::LongGap { duration_ms: gap })
        } else {
            pre
        }
    }
}

/// One activity pattern per agent from `names` whose invocation count
/// in `s` reaches `thr`, in the order of `names`.
pub open spec fn spec_activity_from(names: Seq<Seq<char>>, s: Seq<EntryV>, thr: int) -> Seq<
    LogPatternV,
>
    decreases names.len(),
{
    if names.len() == 0 {
        Seq::empty()
    } else {
        let pre = spec_activity_from(names.drop_last(), s, thr);
        let n = names.last();
        if spec_agent_count(s, n) >= thr {
            pre.push(LogPatternV::AgentActivity { agent: n, count: spec_agent_count(s, n) })
        } else {
            pre
        }
    }
}

/// One activity pattern per distinct agent whose invocation count
/// reaches `thr`, in order of first sighting.
pub open spec fn spec_agent_activity(s: Seq<EntryV>, thr: int) -> Seq<LogPatternV> {
    spec_activity_from(spec_distinct_agents(s), s, thr)
}

/// Whether some entry names an agent.
pub open spec fn spec_has_agents(s: Seq<EntryV>) -> bool {
    exists|j: int| 0 <= j < s.len() && (#[trigger] s[j]).agent_name is Some
}

/// Exactly one marker when the session has entries and none names an
/// agent; nothing otherwise.
pub open spec fn spec_no_agent_marker(s: Seq<EntryV>) -> Seq<LogPatternV> {
    if s.len() > 0 && !spec_has_agents(s) {
        seq![LogPatternV::NoAgentActivity]
    } else {
        Seq::empty()
    }
}

/// The full pattern report: bursts, then gaps, then agent activity,
/// then the no-agent marker.
pub open spec fn spec_patterns(s: Seq<EntryV>, burst_thr: int, gap_thr: int, act_thr: int) -> Seq<
    LogPatternV,
> {
    spec_bursts(spec_error_times(s), burst_thr) + spec_long_gaps(s, gap_thr)
        + spec_agent_activity(s, act_thr) + spec_no_agent_marker(s)
}

/// Detects patterns in a session under three thresholds. All thresholds
/// are exact integers: the error-burst rate in thousandths of an error
/// per second, the long-gap bound in milliseconds, and the
/// agent-activity bound as an invocation count.
pub struct PatternAnalyzer {
    /// Error-burst rate threshold, thousandths of an error per second.
    error_burst_threshold_millis: u32,
    /// Long-gap threshold, milliseconds.
    long_gap_threshold_ms: u64,
    /// Agent-activity threshold, invocation count.
    agent_activity_threshold: usize,
}

impl PatternAnalyzer {
    /// The error-burst rate threshold, thousandths of an error per second.
    pub closed spec fn burst_thr(&self) -> int {
        self.error_burst_threshold_millis as int
    }

    /// The long-gap threshold, milliseconds.
    pub closed spec fn gap_thr(&self) -> int {
        self.long_gap_threshold_ms as int
    }

    /// The agent-activity threshold, an invocation count.
    pub closed spec fn act_thr(&self) -> int {
        self.agent_activity_threshold as int
    }

    /// The default thresholds: five errors per second, a five-minute
    /// gap, ten invocations.
    pub fn new() -> (r: PatternAnalyzer)
        ensures
            r.burst_thr() == 5000,
            r.gap_thr() == 300_000,
            r.act_thr() == 10,
    {
        PatternAnalyzer {
            error_burst_threshold_millis: 5000,
            long_gap_threshold_ms: 300_000,
            agent_activity_threshold: 10,
        }
    }

    /// Custom thresholds: the burst rate in thousandths of an error per
    /// second, the gap bound in milliseconds, the activity bound as a
    /// count.
    pub fn with_thresholds(
        error_burst_threshold_millis: u32,
        long_gap_threshold_ms: u64,
        agent_activity_threshold: usize,
    ) -> (r: PatternAnalyzer)
        ensures
            r.burst_thr() == error_burst_threshold_millis as int,
            r.gap_thr() == long_gap_threshold_ms as int,
            r.act_thr() == agent_activity_threshold as int,
    {
        PatternAnalyzer {
            error_burst_threshold_millis,
            long_gap_threshold_ms,
            agent_activity_threshold,
        }
    }
}

impl PatternAnalyzer {
    /// One burst per qualifying window of three consecutive error-kind
    /// entries, scanned over the error-kind subsequence in order.
    fn detect_error_bursts(&self, entries: &Vec<LogEntry>) -> (r: Vec<LogPattern>)
        ensures
            r.deep_view() == spec_bursts(
                spec_error_times(entries.deep_view()),
                self.burst_thr(),
            ),
    {
        let ghost dv = entries.deep_view();
        let ghost terr = spec_error_times(dv);
        let mut times: Vec<i64> = Vec::new();
        let n = entries.len();
        let mut i: usize = 0;
        while i < n
            invariant
                0 <= i <= n,
                n == entries@.len(),
                dv == entries.deep_view(),
                times@.len() == spec_error_times(dv.subrange(0, i as int)).len(),
                forall|j: int| 0 <= j < times@.len() ==> (#[trigger] times@[j]) as int
                    == spec_error_times(dv.subrange(0, i as int))[j],
            decreases n - i,
        {
            let ghost pre = dv.subrange(0, i as int);
            let ghost cur = dv.subrange(0, i + 1);
            proof {
                assert(cur.drop_last() =~= pre);
                assert(cur.last() == dv[i as int]);
                assert(dv[i as int] == entries@[i as int].deep_view());
            }
            let ghost t0 = times@;
            if entries[i].entry_type == EntryType::Error {
                times.push(entries[i].timestamp_ms);
                proof {
                    assert(times@ == t0.push(times@[times@.len() - 1]));
                }
            }
            i = i + 1;
        }
        proof {
            assert(dv.subrange(0, n as int) =~= dv);
        }
        let m = times.len();
        let mut out: Vec<LogPattern> = Vec::new();
        if m < 3 {
            proof {
                assert(out.deep_view() =~= spec_bursts(terr, self.burst_thr()));
            }
            return out;
        }
        let mut w: usize = 0;
        while w < m - 2
            invariant
                0 <= w <= m - 2,
                3 <= m == times@.len() == terr.len(),
                forall|j: int| 0 <= j < m ==> (#[trigger] times@[j]) as int == terr[j],
                out@.len() == spec_bursts(terr.subrange(0, w + 2), self.burst_thr()).len(),
                forall|j: int| 0 <= j < out@.len() ==> (#[trigger] out@[j]).deep_view()
                    == spec_bursts(terr.subrange(0, w + 2), self.burst_thr())[j],
            decreases m - w,
        {
            let ghost pre_t = terr.subrange(0, w + 2);
            let ghost cur_t = terr.subrange(0, w + 3);
            proof {
                assert(cur_t.drop_last() =~= pre_t);
                assert(cur_t.last() == terr[w + 2]);
                assert(cur_t[cur_t.len() - 3] == terr[w as int]);
            }
            let t0 = times[w];
            let t2 = times[w + 2];
            let dur: i128 = t2 as i128 - t0 as i128;
            if dur > 0 {
                let thr: i128 = self.error_burst_threshold_millis as i128;
                proof {
                    assert(thr * dur <= i128::MAX && thr * dur >= i128::MIN) by (nonlinear_arith)
                        requires
                            0 <= thr <= u32::MAX,
                            0 < dur <= i64::MAX as i128 - i64::MIN as i128,
                    ;
                }
                let prod: i128 = thr * dur;
                if prod <= 3_000_000 {
                    let ghost o0 = out@;
                    out.push(LogPattern::ErrorBurst { count: 3, duration_ms: dur });
                    proof {
                        assert(out@ == o0.push(out@[out@.len() - 1]));
                        assert(spec_burst_qualifies(terr[w as int], terr[w + 2], self.burst_thr()));
                        assert(spec_bursts(cur_t, self.burst_thr()) == spec_bursts(
                            pre_t,
                            self.burst_thr(),
                        ).push(
                            LogPatternV::ErrorBurst {
                                count: 3,
                                duration_ms: terr[w + 2] - terr[w as int],
                            },
                        ));
                    }
                } else {
                    proof {
                        assert(!spec_burst_qualifies(
                            terr[w as int],
                            terr[w + 2],
                            self.burst_thr(),
                        ));
                    }
                }
            } else {
                proof {
                    assert(!spec_burst_qualifies(terr[w as int], terr[w + 2], self.burst_thr()));
                }
            }
            w = w + 1;
        }
        proof {
            assert(terr.subrange(0, m as int) =~= terr);
            assert forall|j: int| 0 <= j < out@.len() implies out.deep_view()[j] == spec_bursts(
                terr,
                self.burst_thr(),
            )[j] by {
                assert(out.deep_view()[j] == out@[j].deep_view());
            }
            assert(out.deep_view() =~= spec_bursts(terr, self.burst_thr()));
        }
        out
    }

    /// One long-gap pattern per adjacent pair whose delta exceeds the
    /// gap threshold, in sequence order.
    fn detect_long_gaps(&self, entries: &Vec<LogEntry>) -> (r: Vec<LogPattern>)
        ensures
            r.deep_view() == spec_long_gaps(entries.deep_view(), self.gap_thr()),
    {
        let ghost dv = entries.deep_view();
        let mut out: Vec<LogPattern> = Vec::new();
        let n = entries.len();
        if n < 2 {
            proof {
                assert(out.deep_view() =~= spec_long_gaps(dv, self.gap_thr()));
            }
            return out;
        }
        let mut i: usize = 1;
        while i < n
            invariant
                1 <= i <= n,
                n == entries@.len(),
                dv == entries.deep_view(),
                out@.len() == spec_long_gaps(dv.subrange(0, i as int), self.gap_thr()).len(),
                forall|j: int| 0 <= j < out@.len() ==> (#[trigger] out@[j]).deep_view()
                    == spec_long_gaps(dv.subrange(0, i as int), self.gap_thr())[j],
            decreases n - i,
        {
            let ghost pre = dv.subrange(0, i as int);
            let ghost cur = dv.subrange(0, i + 1);
            proof {
                assert(cur.drop_last() =~= pre);
                assert(cur.last() == dv[i as int]);
                assert(cur[cur.len() - 2] == dv[i - 1]);
                assert(dv[i as int] == entries@[i as int].deep_view());
                assert(dv[i - 1] == entries@[i - 1].deep_view());
            }
            let gap: i128 = entries[i].timestamp_ms as i128 - entries[i - 1].timestamp_ms as i128;
            if gap > self.long_gap_threshold_ms as i128 {
                let ghost o0 = out@;
                out.push(LogPattern::LongGap { duration_ms: gap });
                proof {
                    assert(out@ == o0.push(out@[out@.len() - 1]));
                }
            }
            i = i + 1;
        }
        proof {
            assert(dv.subrange(0, n as int) =~= dv);
            assert forall|j: int| 0 <= j < out@.len() implies out.deep_view()[j] == spec_long_gaps(
                dv,
                self.gap_thr(),
            )[j] by {
                assert(out.deep_view()[j] == out@[j].deep_view());
            }
            assert(out.deep_view() =~= spec_long_gaps(dv, self.gap_thr()));
        }
        out
    }

    /// One activity pattern per agent whose invocation count reaches
    /// the activity threshold, in order of first sighting.
    fn detect_agent_activity(&self, entries: &Vec<LogEntry>) -> (r: Vec<LogPattern>)
        ensures
            r.deep_view() == spec_agent_activity(entries.deep_view(), self.act_thr()),
    {
        let ghost dv = entries.deep_view();
        let ghost names = spec_distinct_agents(dv);
        let stats = AgentAnalyzer::aggregate(entries);
        let mut out: Vec<LogPattern> = Vec::new();
        let m = stats.len();
        proof {
            assert(stats.deep_view().len() == names.len());
        }
        let mut k: usize = 0;
        while k < m
            invariant
                0 <= k <= m,
                m == stats@.len() == names.len(),
                dv == entries.deep_view(),
                names == spec_distinct_agents(dv),
                stats.deep_view() == spec_agent_stats(dv),
                out@.len() == spec_activity_from(
                    names.subrange(0, k as int),
                    dv,
                    self.act_thr(),
                ).len(),
                forall|j: int| 0 <= j < out@.len() ==> (#[trigger] out@[j]).deep_view()
                    == spec_activity_from(names.subrange(0, k as int), dv, self.act_thr())[j],
            decreases m - k,
        {
            let ghost pre_n = names.subrange(0, k as int);
            let ghost cur_n = names.subrange(0, k + 1);
            proof {
                assert(cur_n.drop_last() =~= pre_n);
                assert(cur_n.last() == names[k as int]);
                assert(stats.deep_view()[k as int] == stats@[k as int].deep_view());
                assert(stats.deep_view()[k as int] == spec_agent_stats(dv)[k as int]);
                assert(stats@[k as int].deep_view().name == names[k as int]);
                assert(stats@[k as int].deep_view().invocation_count == spec_agent_count(
                    dv,
                    names[k as int],
                ));
                lemma_agent_count_bounds(dv, names[k as int]);
                assert(dv.len() == entries@.len());
            }
            let count = stats[k].invocation_count;
            proof {
                vstd::std_specs::vec::axiom_spec_len(entries);
                assert(count as int == spec_agent_count(dv, names[k as int]));
                assert(count as int <= entries@.len());
                assert(count <= usize::MAX as u64);
            }
            if count >= self.agent_activity_threshold as u64 {
                let ghost o0 = out@;
                out.push(
                    LogPattern::AgentActivity {
                        agent: stats[k].name.clone(),
                        count: count as usize,
                    },
                );
                proof {
                    assert(out@ == o0.push(out@[out@.len() - 1]));
                }
            }
            k = k + 1;
        }
        proof {
            assert(names.subrange(0, m as int) =~= names);
            assert forall|j: int| 0 <= j < out@.len() implies out.deep_view()[j]
                == spec_activity_from(names, dv, self.act_thr())[j] by {
                assert(out.deep_view()[j] == out@[j].deep_view());
            }
            assert(out.deep_view() =~= spec_activity_from(names, dv, self.act_thr()));
        }
        out
    }

    /// The no-agent marker: present exactly when the session has
    /// entries and none names an agent.
    fn detect_no_agent_activity(&self, entries: &Vec<LogEntry>) -> (r: Option<LogPattern>)
        ensures
            match r {
                Some(p) => p@ == LogPatternV::NoAgentActivity && spec_no_agent_marker(
                    entries.deep_view(),
                ) =~= seq![LogPatternV::NoAgentActivity],
                None => spec_no_agent_marker(entries.deep_view()) =~= Seq::<LogPatternV>::empty(),
            },
    {
        let ghost dv = entries.deep_view();
        let n = entries.len();
        let mut i: usize = 0;
        while i < n
            invariant
                0 <= i <= n,
                n == entries@.len(),
                dv == entries.deep_view(),
                forall|j: int| 0 <= j < i ==> (#[trigger] dv[j]).agent_name is None,
            decreases n - i,
        {
            proof {
                assert(dv[i as int] == entries@[i as int].deep_view());
            }
            if entries[i].agent_name.is_some() {
                proof {
                    assert(dv[i as int].agent_name is Some);
                    assert(spec_has_agents(dv));
                }
                return None;
            }
            i = i + 1;
        }
        if n > 0 {
            proof {
                assert(!spec_has_agents(dv));
            }
            Some(LogPattern::NoAgentActivity)
        } else {
            None
        }
    }
}

impl Default for PatternAnalyzer {
    fn default() -> (r: Self)
        ensures
            r.burst_thr() == 5000,
            r.gap_thr() == 300_000,
            r.act_thr() == 10,
    {
        PatternAnalyzer::new()
    }
}

impl Analyzer for PatternAnalyzer {
    type Output = PatternAnalysis;

    open spec fn spec_name(&self) -> Seq<char> {
        "PatternAnalyzer"@
    }

    /// Always succeeds; the report concatenates the four detectors'
    /// findings in the fixed order: error bursts, long gaps, agent
    /// activity, then the no-agent marker.
    fn analyze(&self, session: &LogSession) -> (r: ParseResult<PatternAnalysis>)
        ensures
            r matches Ok(a) && a.patterns.deep_view() == spec_patterns(
                session.entries.deep_view(),
                self.burst_thr(),
                self.gap_thr(),
                self.act_thr(),
            ),
    {
        let ghost dv = session.entries.deep_view();
        let mut patterns = self.detect_error_bursts(&session.entries);
        let mut gaps = self.detect_long_gaps(&session.entries);
        let mut acts = self.detect_agent_activity(&session.entries);
        let ghost braw = patterns@;
        let ghost bdeep = patterns.deep_view();
        let ghost graw = gaps@;
        let ghost gdeep = gaps.deep_view();
        let ghost araw = acts@;
        let ghost adeep = acts.deep_view();
        patterns.append(&mut gaps);
        patterns.append(&mut acts);
        let marker = self.detect_no_agent_activity(&session.entries);
        let ghost craw = patterns@;
        let ghost target = spec_patterns(dv, self.burst_thr(), self.gap_thr(), self.act_thr());
        if let Some(p) = marker {
            patterns.push(p);
            proof {
                assert(patterns@ == craw.push(patterns@[patterns@.len() - 1]));
            }
        }
        proof {
            assert(craw == braw + graw + araw);
            assert forall|j: int| 0 <= j < patterns@.len() implies (
            #[trigger] patterns.deep_view()[j]) == target[j] by {
                assert(patterns.deep_view()[j] == patterns@[j].deep_view());
                if j < braw.len() {
                    assert(patterns@[j] == braw[j]);
                    assert(bdeep[j] == braw[j].deep_view());
                } else if j < braw.len() + graw.len() {
                    assert(patterns@[j] == graw[j - braw.len()]);
                    assert(gdeep[j - braw.len()] == graw[j - braw.len()].deep_view());
                } else if j < braw.len() + graw.len() + araw.len() {
                    assert(patterns@[j] == araw[j - braw.len() - graw.len()]);
                    assert(adeep[j - braw.len() - graw.len()] == araw[j - braw.len()
                        - graw.len()].deep_view());
                }
            }
            assert(patterns.deep_view() =~= target);
        }
        Ok(PatternAnalysis { patterns })
    }

    fn name(&self) -> (r: &str) {
        proof {
            reveal_strlit("PatternAnalyzer");
        }
        "PatternAnalyzer"
    }
}

/// Fans one session out to several analyzers of one homogeneous output
/// type and collects (name, result) pairs. Purely a convenience; adds
/// no analysis of its own.
pub struct CompositeAnalyzer<A: Analyzer<Output = String>> {
    analyzers: Vec<A>,
}

impl<A: Analyzer<Output = String>> CompositeAnalyzer<A> {
    /// The registered analyzers, in registration order.
    pub closed spec fn spec_analyzers(&self) -> Seq<A> {
        self.analyzers@
    }

    /// Creates an empty runner.
    pub fn new() -> (r: Self)
        ensures
            r.spec_analyzers() == Seq::<A>::empty(),
    {
        CompositeAnalyzer { analyzers: Vec::new() }
    }

    /// Registers one analyzer at the end.
    pub fn add_analyzer(&mut self, analyzer: A)
        ensures
            final(self).spec_analyzers() == old(self).spec_analyzers().push(analyzer),
    {
        self.analyzers.push(analyzer);
    }

    /// Runs every registered analyzer on the session, in registration
    /// order, pairing each analyzer's name with its result.
    pub fn run_all(&self, session: &LogSession) -> (r: Vec<(String, ParseResult<String>)>)
        ensures
            r@.len() == self.spec_analyzers().len(),
            forall|j: int| 0 <= j < r@.len() ==> (#[trigger] r@[j]).0@
                == self.spec_analyzers()[j].spec_name(),
    {
        let mut out: Vec<(String, ParseResult<String>)> = Vec::new();
        let m = self.analyzers.len();
        let mut k: usize = 0;
        while k < m
            invariant
                0 <= k <= m,
                m == self.analyzers@.len(),
                out@.len() == k,
                forall|j: int| 0 <= j < k ==> (#[trigger] out@[j]).0@
                    == self.analyzers@[j].spec_name(),
            decreases m - k,
        {
            let a = &self.analyzers[k];
            let name = String::from_str(a.name());
            let result = a.analyze(session);
            out.push((name, result));
            k = k + 1;
        }
        out
    }
}

impl<A: Analyzer<Output = String>> Default for CompositeAnalyzer<A> {
    fn default() -> (r: Self)
        ensures
            r.spec_analyzers() == Seq::<A>::empty(),
    {
        CompositeAnalyzer::new()
    }
}

/// How many entries have the given kind.
pub open spec fn spec_type_count(s: Seq<EntryV>, t: EntryType) -> int
    decreases s.len(),
{
    if s.len() == 0 {
        0
    } else {
        spec_type_count(s.drop_last(), t) + if s.last().entry_type == t {
            1int
        } else {
            0int
        }
    }
}

/// A kind's tally lies between zero and the entry count.
proof fn lemma_type_count_bounds(s: Seq<EntryV>, t: EntryType)
    ensures
        0 <= spec_type_count(s, t) <= s.len(),
    decreases s.len(),
{
    if s.len() > 0 {
        lemma_type_count_bounds(s.drop_last(), t);
    }
}

/// Pairs sorted by tally, largest first.
pub open spec fn tc_sorted(s: Seq<(EntryType, usize)>) -> bool {
    forall|j1: int, j2: int| 0 <= j1 < j2 < s.len() ==> (#[trigger] s[j1]).1 >= (
    #[trigger] s[j2]).1
}

/// Each kind occurs at most once.
pub open spec fn tc_distinct(s: Seq<(EntryType, usize)>) -> bool {
    forall|j1: int, j2: int| 0 <= j1 < j2 < s.len() ==> (#[trigger] s[j1]).0 != (
    #[trigger] s[j2]).0
}

/// Each pair carries its kind's true, positive tally.
pub open spec fn tc_correct(s: Seq<(EntryType, usize)>, dv: Seq<EntryV>) -> bool {
    forall|j: int| 0 <= j < s.len() ==> (#[trigger] s[j]).1 == spec_type_count(dv, s[j].0) && s[j].1
        > 0
}

/// Whether a kind occurs among the pairs.
pub open spec fn tc_has(s: Seq<(EntryType, usize)>, t: EntryType) -> bool {
    exists|j: int| 0 <= j < s.len() && (#[trigger] s[j]).0 == t
}

/// Inserts one (kind, tally) pair into a tally-descending list, keeping
/// it sorted; ties go after the earlier entries.
fn insert_sorted(
    out: &mut Vec<(EntryType, usize)>,
    t: EntryType,
    c: usize,
    Ghost(dv): Ghost<Seq<EntryV>>,
)
    requires
        c == spec_type_count(dv, t),
        c > 0,
        tc_sorted(old(out)@),
        tc_distinct(old(out)@),
        tc_correct(old(out)@, dv),
        !tc_has(old(out)@, t),
    ensures
        tc_sorted(final(out)@),
        tc_distinct(final(out)@),
        tc_correct(final(out)@, dv),
        forall|t2: EntryType| tc_has(final(out)@, t2) <==> tc_has(old(out)@, t2) || t2 == t,
{
    let ghost o0 = out@;
    let m = out.len();
    let mut p: usize = 0;
    while p < m && out[p].1 >= c
        invariant
            0 <= p <= m,
            m == out@.len(),
            out@ == o0,
            forall|j: int| 0 <= j < p ==> (#[trigger] out@[j]).1 >= c,
        decreases m - p,
    {
        p = p + 1;
    }
    proof {
        if p < m {
            assert(o0[p as int].1 < c);
        }
    }
    out.insert(p, (t, c));
    proof {
        o0.insert_ensures(p as int, (t, c));
        assert(out@ == o0.insert(p as int, (t, c)));
        assert forall|j1: int, j2: int| 0 <= j1 < j2 < out@.len() implies (#[trigger] out@[j1]).1
            >= (#[trigger] out@[j2]).1 && out@[j1].0 != out@[j2].0 by {
            if j1 < p && j2 < p {
                assert(out@[j1] == o0[j1]);
                assert(out@[j2] == o0[j2]);
            } else if j1 < p && j2 == p {
                assert(out@[j1] == o0[j1]);
                assert(out@[j2] == (t, c));
                assert(!tc_has(o0, t) ==> o0[j1].0 != t);
            } else if j1 < p && j2 > p {
                assert(out@[j1] == o0[j1]);
                assert(out@[j2] == o0[j2 - 1]);
            } else if j1 == p && j2 > p {
                assert(out@[j1] == (t, c));
                assert(out@[j2] == o0[j2 - 1]);
                assert(o0[j2 - 1].1 <= o0[p as int].1);
                assert(o0[j2 - 1].0 != t);
            } else {
                assert(out@[j1] == o0[j1 - 1]);
                assert(out@[j2] == o0[j2 - 1]);
            }
        }
        assert forall|j: int| 0 <= j < out@.len() implies (#[trigger] out@[j]).1 == spec_type_count(
            dv,
            out@[j].0,
        ) && out@[j].1 > 0 by {
            if j < p {
                assert(out@[j] == o0[j]);
            } else if j > p {
                assert(out@[j] == o0[j - 1]);
            }
        }
        assert forall|t2: EntryType| tc_has(out@, t2) <==> tc_has(o0, t2) || t2 == t by {
            if tc_has(o0, t2) {
                let j = choose|j: int| 0 <= j < o0.len() && o0[j].0 == t2;
                if j < p {
                    assert(out@[j].0 == t2);
                } else {
                    assert(out@[j + 1].0 == t2);
                }
                assert(tc_has(out@, t2));
            }
            if t2 == t {
                assert(out@[p as int].0 == t2);
                assert(tc_has(out@, t2));
            }
            if tc_has(out@, t2) {
                let j = choose|j: int| 0 <= j < out@.len() && out@[j].0 == t2;
                if j < p {
                    assert(o0[j].0 == t2);
                    assert(tc_has(o0, t2));
                } else if j > p {
                    assert(o0[j - 1].0 == t2);
                    assert(tc_has(o0, t2));
                }
            }
        }
    }
}

/// Tallies the entries by kind: one pair per kind that occurs, carrying
/// how often it occurs, sorted by tally, largest first; the order of
/// equal tallies is unspecified.
pub fn count_entry_types(entries: &Vec<LogEntry>) -> (r: Vec<(EntryType, usize)>)
    ensures
        tc_sorted(r@),
        tc_distinct(r@),
        tc_correct(r@, entries.deep_view()),
        forall|t: EntryType| tc_has(r@, t) <==> spec_type_count(entries.deep_view(), t) > 0,
{
    let ghost dv = entries.deep_view();
    let n = entries.len();
    let mut c_agent: usize = 0;
    let mut c_info: usize = 0;
    let mut c_warn: usize = 0;
    let mut c_error: usize = 0;
    let mut c_decision: usize = 0;
    let mut c_unknown: usize = 0;
    let mut i: usize = 0;
    while i < n
        invariant
            0 <= i <= n,
            n == entries@.len(),
            dv == entries.deep_view(),
            c_agent == spec_type_count(dv.subrange(0, i as int), EntryType::AgentInvocation),
            c_info == spec_type_count(dv.subrange(0, i as int), EntryType::Info),
            c_warn == spec_type_count(dv.subrange(0, i as int), EntryType::Warning),
            c_error == spec_type_count(dv.subrange(0, i as int), EntryType::Error),
            c_decision == spec_type_count(dv.subrange(0, i as int), EntryType::Decision),
            c_unknown == spec_type_count(dv.subrange(0, i as int), EntryType::Unknown),
        decreases n - i,
    {
        let ghost pre = dv.subrange(0, i as int);
        let ghost cur = dv.subrange(0, i + 1);
        proof {
            assert(cur.drop_last() =~= pre);
            assert(cur.last() == dv[i as int]);
            assert(dv[i as int] == entries@[i as int].deep_view());
            lemma_type_count_bounds(pre, EntryType::AgentInvocation);
            lemma_type_count_bounds(pre, EntryType::Info);
            lemma_type_count_bounds(pre, EntryType::Warning);
            lemma_type_count_bounds(pre, EntryType::Error);
            lemma_type_count_bounds(pre, EntryType::Decision);
            lemma_type_count_bounds(pre, EntryType::Unknown);
        }
        match entries[i].entry_type {
            EntryType::AgentInvocation => {
                c_agent = c_agent + 1;
            },
            EntryType::Info => {
                c_info = c_info + 1;
            },
            EntryType::Warning => {
                c_warn = c_warn + 1;
            },
            EntryType::Error => {
                c_error = c_error + 1;
            },
            EntryType::Decision => {
                c_decision = c_decision + 1;
            },
            EntryType::Unknown => {
                c_unknown = c_unknown + 1;
            },
        }
        i = i + 1;
    }
    proof {
        assert(dv.subrange(0, n as int) =~= dv);
    }
    let mut out: Vec<(EntryType, usize)> = Vec::new();
    if c_agent > 0 {
        insert_sorted(&mut out, EntryType::AgentInvocation, c_agent, Ghost(dv));
    }
    if c_info > 0 {
        insert_sorted(&mut out, EntryType::Info, c_info, Ghost(dv));
    }
    if c_warn > 0 {
        insert_sorted(&mut out, EntryType::Warning, c_warn, Ghost(dv));
    }
    if c_error > 0 {
        insert_sorted(&mut out, EntryType::Error, c_error, Ghost(dv));
    }
    if c_decision > 0 {
        insert_sorted(&mut out, EntryType::Decision, c_decision, Ghost(dv));
    }
    if c_unknown > 0 {
        insert_sorted(&mut out, EntryType::Unknown, c_unknown, Ghost(dv));
    }
    proof {
        assert forall|t: EntryType| tc_has(out@, t) <==> spec_type_count(dv, t) > 0 by {}
    }
    out
}

} // verus!
