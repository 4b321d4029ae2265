//! Entry filtering: selects the entries whose agent name contains a
//! given text and whose message contains a given text, the latter
//! compared case-insensitively.

use vstd::prelude::*;

use crate::types::{EntryV, LogEntry};

verus! {

/// Whether `needle` occurs contiguously inside `hay`.
pub open spec fn spec_contains_sub(hay: Seq<char>, needle: Seq<char>) -> bool {
    exists|off: int|
        0 <= off <= hay.len() - needle.len() && #[trigger] hay.subrange(off, off + needle.len())
            == needle
}

/// Whether `needle` occurs in `hay` at position `off`.
fn matches_at(hay: &str, needle: &str, off: usize) -> (r: bool)
    requires
        off + needle@.len() <= hay@.len() <= usize::MAX,
    ensures
        r == (hay@.subrange(off as int, off + needle@.len()) == needle@),
{
    let nl = needle.unicode_len();
    let mut j: usize = 0;
    while j < nl
        invariant
            0 <= j <= nl,
            nl == needle@.len(),
            off + nl <= hay@.len() <= usize::MAX,
            forall|j2: int| 0 <= j2 < j ==> hay@[off + j2] == needle@[j2],
        decreases nl - j,
    {
        if hay.get_char(off + j) != needle.get_char(j) {
            assert(hay@.subrange(off as int, off + needle@.len())[j as int] != needle@[j as int]);
            return false;
        }
        j = j + 1;
    }
    assert(hay@.subrange(off as int, off + needle@.len()) =~= needle@);
    true
}

/// Whether `needle` occurs contiguously inside `hay`.
pub fn str_contains(hay: &str, needle: &str) -> (r: bool)
    ensures
        r == spec_contains_sub(hay@, needle@),
{
    let hl = hay.unicode_len();
    let nl = needle.unicode_len();
    if nl > hl {
        return false;
    }
    if nl == 0 {
        proof {
            assert(hay@.subrange(0, 0 + needle@.len() as int) =~= needle@);
            assert(spec_contains_sub(hay@, needle@));
        }
        return true;
    }
    let mut off: usize = 0;
    while off <= hl - nl
        invariant
            0 <= off,
            1 <= nl <= hl,
            hl == hay@.len(),
            nl == needle@.len(),
            forall|o: int| 0 <= o < off ==> #[trigger] hay@.subrange(o, o + needle@.len())
                != needle@,
        decreases hl - nl + 1 - off,
    {
        if matches_at(hay, needle, off) {
            return true;
        }
        off = off + 1;
    }
    false
}

/// The lower-case image that the standard library's case folding gives
/// a text; the outcome depends on the characters alone.
pub uninterp spec fn lower_of(s: Seq<char>) -> Seq<char>;

/// Relies on `str::to_lowercase`, whose result is a function of the
/// characters alone.
#[verifier::external_body]
fn lowercase(s: &str) -> (r: String)
    ensures
        r@ == lower_of(s@),
{
    s.to_lowercase()
}

/// The view of an optional text filter.
pub open spec fn opt_text_view(o: Option<&str>) -> Option<Seq<char>> {
    match o {
        Some(s) => Some(s@),
        None => None,
    }
}

/// Whether one entry passes both filters: its agent name must contain
/// the agent text, and its message, folded to lower case, must contain
/// the lower-cased search text. An absent filter passes everything; an
/// agent filter rejects entries without an agent name.
pub open spec fn spec_entry_matches(
    e: EntryV,
    agent: Option<Seq<char>>,
    needle: Option<Seq<char>>,
) -> bool {
    (match agent {
        Some(a) => match e.agent_name {
            Some(n) => spec_contains_sub(n, a),
            None => false,
        },
        None => true,
    }) && (match needle {
        Some(t) => spec_contains_sub(lower_of(e.message), lower_of(t)),
        None => true,
    })
}

/// The entries that pass both filters, in their original order.
pub open spec fn spec_filter_matching(
    s: Seq<EntryV>,
    agent: Option<Seq<char>>,
    needle: Option<Seq<char>>,
) -> Seq<EntryV>
    decreases s.len(),
{
    if s.len() == 0 {
        Seq::empty()
    } else {
        let pre = spec_filter_matching(s.drop_last(), agent, needle);
        if spec_entry_matches(s.last(), agent, needle) {
            pre.push(s.last())
        } else {
            pre
        }
    }
}

/// Selects the entries whose agent name contains `agent` and whose
/// message contains `contains` case-insensitively; an absent filter
/// passes everything. Order is kept.
pub fn filter_entries(entries: &Vec<LogEntry>, agent: Option<&str>, contains: Option<&str>) -> (r:
    Vec<LogEntry>)
    ensures
        r.deep_view() == spec_filter_matching(
            entries.deep_view(),
            opt_text_view(agent),
            opt_text_view(contains),
        ),
{
    let ghost dv = entries.deep_view();
    let ghost ga = opt_text_view(agent);
    let ghost gt = opt_text_view(contains);
    let low_needle: Option<String> = match contains {
        Some(t) => Some(lowercase(t)),
        None => None,
    };
    let mut out: Vec<LogEntry> = Vec::new();
    let n = entries.len();
    let mut i: usize = 0;
    while i < n
        invariant
            0 <= i <= n,
            n == entries@.len(),
            dv == entries.deep_view(),
            ga == opt_text_view(agent),
            gt == opt_text_view(contains),
            match (contains, &low_needle) {
                (Some(t), Some(lw)) => lw@ == lower_of(t@),
                (None, None) => true,
                _ => false,
            },
            out@.len() == spec_filter_matching(dv.subrange(0, i as int), ga, gt).len(),
            forall|j: int| 0 <= j < out@.len() ==> (#[trigger] out@[j]).deep_view()
                == spec_filter_matching(dv.subrange(0, i as int), ga, gt)[j],
        decreases n - i,
    {
        let ghost pre = dv.subrange(0, i as int);
        let ghost cur = dv.subrange(0, i + 1);
        proof {
            assert(cur.drop_last() =~= pre);
            assert(cur.last() == dv[i as int]);
            assert(dv[i as int] == entries@[i as int].deep_view());
        }
        let e = &entries[i];
        let agent_ok: bool = match (agent, &e.agent_name) {
            (Some(a), Some(name)) => str_contains(name.as_str(), a),
            (Some(_), None) => false,
            (None, _) => true,
        };
        let text_ok: bool = match &low_needle {
            Some(lw) => str_contains(lowercase(e.message.as_str()).as_str(), lw.as_str()),
            None => true,
        };
        proof {
            assert((agent_ok && text_ok) == spec_entry_matches(cur.last(), ga, gt));
        }
        if agent_ok && text_ok {
            let ghost o0 = out@;
            out.push(
                LogEntry {
                    timestamp_ms: e.timestamp_ms,
                    entry_type: e.entry_type,
                    message: e.message.clone(),
                    agent_name: match &e.agent_name {
                        Some(s) => Some(s.clone()),
                        None => None,
                    },
                    duration_ms: e.duration_ms,
                },
            );
            proof {
                assert(out@ == o0.push(out@[out@.len() - 1]));
                assert(out@[out@.len() - 1].deep_view() == cur.last());
            }
        }
        i = i + 1;
    }
    proof {
        assert(dv.subrange(0, n as int) =~= dv);
        assert forall|j: int| 0 <= j < out@.len() implies out.deep_view()[j]
            == spec_filter_matching(dv, ga, gt)[j] by {
            assert(out.deep_view()[j] == out@[j].deep_view());
        }
        assert(out.deep_view() =~= spec_filter_matching(dv, ga, gt));
    }
    out
}

} // verus!
