//! The `tracklist` command: a deduplicated list of the samples used in
//! arrangement view, in order of first use, with their timestamps.

pub mod metadata;
pub mod template;

use vstd::prelude::*;

use crate::project::{identity_of, SampleRef, SampleRefModel};
use crate::seqs::{lemma_views_push, views};
use crate::text::{
    chars_of, decimal, extend_from_range, push_char, push_decimal, push_zero_padded,
    string_from_chars, zero_padded,
};
use template::{template_tokens, Template};

verus! {

/// The label template used when none is given: `{ARTIST} - {TITLE}`.
pub const DEFAULT_TEMPLATE: &'static str = "{ARTIST} - {TITLE}";

/// The label template `--full-paths` stands for: `{PATH}`.
pub const FULL_PATHS_TEMPLATE: &'static str = "{PATH}";

/// Options of the `tracklist` command.
#[derive(Debug, Clone)]
pub struct TracklistOptions {
    pub project_path: String,
    pub output: Option<String>,
    pub full_paths: bool,
    pub track_template: Option<String>,
}

/// The template source the options select: the user's template when given,
/// else `{PATH}` with full paths, else the default.
pub open spec fn template_source(opts: TracklistOptions) -> Seq<char> {
    match opts.track_template {
        Some(s) => s@,
        None => if opts.full_paths {
            FULL_PATHS_TEMPLATE@
        } else {
            DEFAULT_TEMPLATE@
        },
    }
}

/// The label template the options select.
pub fn resolve_template(opts: &TracklistOptions) -> (t: Template)
    ensures
        t@ == template_tokens(template_source(*opts)),
{
    match &opts.track_template {
        Some(s) => Template::parse(s.as_str()),
        None => if opts.full_paths {
            Template::parse(FULL_PATHS_TEMPLATE)
        } else {
            Template::parse(DEFAULT_TEMPLATE)
        },
    }
}

/// Law: `--full-paths` is the template `{PATH}`. Options that set full paths
/// and give no template select the same template as options whose template
/// is `{PATH}`, whatever else either sets.
pub proof fn law_full_paths_is_path_template(a: TracklistOptions, b: TracklistOptions)
    requires
        a.full_paths,
        a.track_template is None,
        b.track_template matches Some(t) && t@ == "{PATH}"@,
    ensures
        template_tokens(template_source(a)) == template_tokens(template_source(b)),
{
    reveal_strlit("{PATH}");
}

/// One line of a tracklist: its 1-based number, where it starts (in
/// milliseconds from the start of the project) and its label.
#[derive(Debug, Clone, PartialEq)]
pub struct TracklistEntry {
    pub index: usize,
    pub start_ms: u64,
    pub label: String,
}

/// A tracklist and the total length of the project, in milliseconds.
#[derive(Debug, Clone, PartialEq)]
pub struct Tracklist {
    pub entries: Vec<TracklistEntry>,
    pub total_ms: u64,
}

// ----- Deduplication ----------------------------------------------------------

/// Whether `ids[k]` is the first occurrence of its value.
pub open spec fn is_first(ids: Seq<Seq<char>>, k: int) -> bool {
    forall|m: int| 0 <= m < k ==> #[trigger] ids[m] != ids[k]
}

/// The indices below `n` that hold the first occurrence of their value, in
/// increasing order.
pub open spec fn first_indices(ids: Seq<Seq<char>>, n: int) -> Seq<int>
    decreases n,
{
    if n <= 0 {
        Seq::empty()
    } else if is_first(ids, n - 1) {
        first_indices(ids, n - 1).push(n - 1)
    } else {
        first_indices(ids, n - 1)
    }
}

/// The identities of a list of samples.
pub open spec fn identities(s: Seq<SampleRefModel>) -> Seq<Seq<char>> {
    s.map_values(|r: SampleRefModel| identity_of(r))
}

/// The positions of the samples that are the first with their identity (the
/// first occurrence wins), in order.
pub fn first_occurrences(samples: &Vec<SampleRef>) -> (r: Vec<usize>)
    ensures
        r@.map_values(|k: usize| k as int) == first_indices(
            identities(views(samples@)),
            samples@.len() as int,
        ),
{
    let ghost ids = identities(views(samples@));
    let mut r: Vec<usize> = Vec::new();
    let mut k: usize = 0;
    assert(r@.map_values(|k: usize| k as int) =~= Seq::<int>::empty());
    while k < samples.len()
        invariant
            ids == identities(views(samples@)),
            ids.len() == samples@.len(),
            k <= samples@.len(),
            r@.map_values(|k: usize| k as int) == first_indices(ids, k as int),
        decreases samples@.len() - k,
    {
        let id = samples[k].identity();
        assert(ids[k as int] == identity_of(samples@[k as int]@));
        let mut m: usize = 0;
        let mut seen = false;
        while m < k
            invariant
                ids == identities(views(samples@)),
                ids.len() == samples@.len(),
                k < samples@.len(),
                m <= k,
                id@ == ids[k as int],
                seen == exists|p: int| 0 <= p < m && ids[p] == ids[k as int],
            decreases k - m,
        {
            assert(ids[m as int] == identity_of(samples@[m as int]@));
            if crate::text::str_equals(samples[m].identity(), id) {
                seen = true;
                assert(ids[m as int] == ids[k as int]);
            }
            m = m + 1;
        }
        let ghost before = r@;
        if !seen {
            r.push(k);
            assert(r@.map_values(|k: usize| k as int) =~= before.map_values(|k: usize| k as int).push(
                k as int,
            ));
        }
        k = k + 1;
    }
    r
}

/// Whether position `k` shares its identity with a kept position at or
/// before it.
pub open spec fn kept_at_or_before(ids: Seq<Seq<char>>, n: int, k: int) -> bool {
    exists|a: int|
        0 <= a < first_indices(ids, n).len() && #[trigger] first_indices(ids, n)[a] <= k
            && ids[first_indices(ids, n)[a]] == ids[k]
}

proof fn lemma_first_indices_sorted(ids: Seq<Seq<char>>, n: int)
    ensures
        forall|a: int|
            0 <= a < first_indices(ids, n).len() ==> 0 <= #[trigger] first_indices(ids, n)[a] < n
                && is_first(ids, first_indices(ids, n)[a]),
        forall|a: int, b: int|
            0 <= a < b < first_indices(ids, n).len() ==> #[trigger] first_indices(ids, n)[a]
                < #[trigger] first_indices(ids, n)[b],
    decreases n,
{
    if n > 0 {
        lemma_first_indices_sorted(ids, n - 1);
        let prev = first_indices(ids, n - 1);
        if is_first(ids, n - 1) {
            let cur = prev.push(n - 1);
            assert(first_indices(ids, n) == cur);
            assert forall|a: int, b: int| 0 <= a < b < cur.len() implies #[trigger] cur[a]
                < #[trigger] cur[b] by {
                if b == prev.len() {
                    assert(cur[a] == prev[a]);
                } else {
                    assert(cur[a] == prev[a] && cur[b] == prev[b]);
                }
            }
            assert forall|a: int| 0 <= a < cur.len() implies 0 <= #[trigger] cur[a] < n && is_first(
                ids,
                cur[a],
            ) by {
                if a < prev.len() {
                    assert(cur[a] == prev[a]);
                }
            }
        }
    }
}

/// The kept position that stands for position `k`.
proof fn lemma_first_indices_cover(ids: Seq<Seq<char>>, n: int, k: int) -> (a: int)
    requires
        0 <= k < n <= ids.len(),
    ensures
        0 <= a < first_indices(ids, n).len(),
        first_indices(ids, n)[a] <= k,
        ids[first_indices(ids, n)[a]] == ids[k],
    decreases n,
{
    let prev = first_indices(ids, n - 1);
    if is_first(ids, n - 1) {
        assert(first_indices(ids, n) == prev.push(n - 1));
        if k == n - 1 {
            prev.len() as int
        } else {
            let a = lemma_first_indices_cover(ids, n - 1, k);
            a
        }
    } else {
        assert(first_indices(ids, n) == prev);
        if k == n - 1 {
            let m = choose|m: int| 0 <= m < n - 1 && #[trigger] ids[m] == ids[n - 1];
            lemma_first_indices_cover(ids, n - 1, m)
        } else {
            lemma_first_indices_cover(ids, n - 1, k)
        }
    }
}

proof fn lemma_first_indices_distinct(ids: Seq<Seq<char>>, n: int)
    ensures
        forall|a: int, b: int|
            0 <= a < b < first_indices(ids, n).len() ==> ids[#[trigger] first_indices(ids, n)[a]]
                != ids[#[trigger] first_indices(ids, n)[b]],
{
    lemma_first_indices_sorted(ids, n);
    let f = first_indices(ids, n);
    assert forall|a: int, b: int| 0 <= a < b < f.len() implies ids[#[trigger] f[a]] != ids[#[trigger] f[b]] by {
        assert(f[a] < f[b]);
        assert(is_first(ids, f[b]));
        let m = f[a];
        assert(0 <= m < f[b]);
        assert(ids[m] != ids[f[b]]);
    }
}

proof fn lemma_first_indices_cover_all(ids: Seq<Seq<char>>, n: int)
    requires
        0 <= n <= ids.len(),
    ensures
        forall|k: int| 0 <= k < n ==> #[trigger] kept_at_or_before(ids, n, k),
{
    let f = first_indices(ids, n);
    assert forall|k: int| 0 <= k < n implies #[trigger] kept_at_or_before(ids, n, k) by {
        let a = lemma_first_indices_cover(ids, n, k);
        assert(0 <= a < f.len() && f[a] <= k && ids[f[a]] == ids[k]);
    }
}

/// Law: deduplication keeps exactly the first occurrence of every identity.
/// The kept positions are increasing, each is the first with its identity
/// (so their identities are pairwise distinct), and every position of the
/// input shares its identity with a kept position at or before it.
pub proof fn law_first_occurrence_wins(ids: Seq<Seq<char>>, n: int)
    requires
        0 <= n <= ids.len(),
    ensures
        forall|a: int, b: int|
            0 <= a < b < first_indices(ids, n).len() ==> #[trigger] first_indices(ids, n)[a]
                < #[trigger] first_indices(ids, n)[b],
        forall|a: int, b: int|
            0 <= a < b < first_indices(ids, n).len() ==> ids[#[trigger] first_indices(ids, n)[a]]
                != ids[#[trigger] first_indices(ids, n)[b]],
        forall|a: int|
            0 <= a < first_indices(ids, n).len() ==> 0 <= #[trigger] first_indices(ids, n)[a] < n
                && is_first(ids, first_indices(ids, n)[a]),
        forall|k: int| 0 <= k < n ==> #[trigger] kept_at_or_before(ids, n, k),
{
    lemma_first_indices_cover_all(ids, n);
    lemma_first_indices_sorted(ids, n);
    lemma_first_indices_distinct(ids, n);
}

// ----- Formatting ---------------------------------------------------------------

/// `MM:SS:mmm` for a duration in milliseconds; the minutes grow past two
/// digits when needed.
pub open spec fn timestamp_text(ms: nat) -> Seq<char> {
    zero_padded(ms / 60000, 2) + seq![':'] + zero_padded((ms % 60000) / 1000, 2) + seq![':']
        + zero_padded(ms % 1000, 3)
}

/// Format a duration in milliseconds as `MM:SS:mmm`.
pub fn format_timestamp_ms(total_ms: u64) -> (r: String)
    ensures
        r@ == timestamp_text(total_ms as nat),
{
    let minutes = total_ms / 60000;
    let secs = (total_ms % 60000) / 1000;
    let millis = total_ms % 1000;
    let mut out: Vec<char> = Vec::new();
    push_zero_padded(&mut out, minutes, 2);
    out.push(':');
    push_zero_padded(&mut out, secs, 2);
    out.push(':');
    push_zero_padded(&mut out, millis, 3);
    assert(out@ =~= timestamp_text(total_ms as nat));
    string_from_chars(&out)
}

/// The line of one entry: `N. MM:SS:mmm - label`.
pub open spec fn entry_line(e: TracklistEntry) -> Seq<char> {
    decimal(e.index as nat) + ". "@ + timestamp_text(e.start_ms as nat) + " - "@ + e.label@
        + seq!['\n']
}

/// The lines of the entries, in order.
pub open spec fn entry_lines(es: Seq<TracklistEntry>) -> Seq<char>
    decreases es.len(),
{
    if es.len() == 0 {
        Seq::empty()
    } else {
        entry_lines(es.drop_last()) + entry_line(es.last())
    }
}

/// The text of a tracklist: one line per entry, a blank line, then the total
/// length.
pub open spec fn tracklist_text(tl: Tracklist) -> Seq<char> {
    entry_lines(tl.entries@) + seq!['\n'] + "Total Length: "@ + timestamp_text(tl.total_ms as nat)
        + seq!['\n']
}

/// Law: a timestamp shows whole minutes, then the seconds and milliseconds
/// left over: `m` minutes, `sec` seconds and `ms` milliseconds show as
/// `MM:SS:mmm`, each part zero-padded (the minutes grow past two digits).
pub proof fn law_timestamp_parts(m: nat, sec: nat, ms: nat)
    requires
        sec < 60,
        ms < 1000,
    ensures
        timestamp_text(m * 60000 + sec * 1000 + ms) == zero_padded(m, 2) + seq![':'] + zero_padded(
            sec,
            2,
        ) + seq![':'] + zero_padded(ms, 3),
{
    let total = m * 60000 + sec * 1000 + ms;
    let rem = sec * 1000 + ms;
    assert(rem < 60000) by (nonlinear_arith)
        requires
            sec < 60,
            ms < 1000,
            rem == sec * 1000 + ms,
    ;
    vstd::arithmetic::div_mod::lemma_fundamental_div_mod_converse(
        total as int,
        60000,
        m as int,
        rem as int,
    );
    vstd::arithmetic::div_mod::lemma_fundamental_div_mod_converse(
        rem as int,
        1000,
        sec as int,
        ms as int,
    );
    vstd::arithmetic::div_mod::lemma_fundamental_div_mod_converse(total as int, 1000, (m * 60 + sec) as int, ms as int);
}

proof fn lemma_entry_lines_prefix(es: Seq<TracklistEntry>, j: int)
    requires
        0 <= j <= es.len(),
    ensures
        entry_lines(es.take(j)).is_prefix_of(entry_lines(es)),
    decreases es.len(),
{
    if j == es.len() {
        assert(es.take(j) =~= es);
    } else {
        lemma_entry_lines_prefix(es.drop_last(), j);
        assert(es.drop_last().take(j) =~= es.take(j));
    }
}

/// Law: a tracklist lists every entry on a line of its own, in order (its
/// number, `. `, its start time, ` - `, its label), and ends with a blank
/// line and `Total Length: ` followed by the total length.
pub proof fn law_tracklist_lists_each_entry(tl: Tracklist)
    ensures
        (seq!['\n'] + "Total Length: "@ + timestamp_text(tl.total_ms as nat) + seq!['\n']).is_suffix_of(
            tracklist_text(tl),
        ),
        forall|k: int|
            0 <= k < tl.entries@.len() ==> {
                let off = entry_lines(tl.entries@.take(k)).len() as int;
                let e = #[trigger] tl.entries@[k];
                let line = decimal(e.index as nat) + ". "@ + timestamp_text(e.start_ms as nat)
                    + " - "@ + e.label@ + seq!['\n'];
                tracklist_text(tl).subrange(off, off + line.len()) == line
            },
{
    let es = tl.entries@;
    let lines = entry_lines(es);
    let tail = seq!['\n'] + "Total Length: "@ + timestamp_text(tl.total_ms as nat) + seq!['\n'];
    assert(tracklist_text(tl) =~= lines + tail);
    assert(tail =~= (lines + tail).subrange(lines.len() as int, (lines + tail).len() as int));
    assert forall|k: int| 0 <= k < es.len() implies {
        let off = entry_lines(es.take(k)).len() as int;
        let e = #[trigger] es[k];
        let line = decimal(e.index as nat) + ". "@ + timestamp_text(e.start_ms as nat) + " - "@
            + e.label@ + seq!['\n'];
        tracklist_text(tl).subrange(off, off + line.len()) == line
    } by {
        lemma_entry_lines_prefix(es, k + 1);
        let pre = es.take(k + 1);
        assert(pre.drop_last() =~= es.take(k));
        assert(pre.last() == es[k]);
        let a = entry_lines(es.take(k));
        let line = entry_line(es[k]);
        assert(entry_lines(pre) == a + line);
        let full = lines + tail;
        assert(full.subrange(a.len() as int, (a.len() + line.len()) as int) =~= line) by {
            assert forall|x: int| 0 <= x < line.len() implies full[a.len() + x] == line[x] by {
                assert(entry_lines(pre)[a.len() + x] == line[x]);
                assert(lines[a.len() + x] == entry_lines(pre)[a.len() + x]);
            }
        }
    }
}

/// Format a tracklist using the standard `MM:SS:mmm` timestamp format.
pub fn format_tracklist(tracklist: &Tracklist) -> (r: String)
    ensures
        r@ == tracklist_text(*tracklist),
{
    let mut out = String::new();
    let mut k: usize = 0;
    while k < tracklist.entries.len()
        invariant
            k <= tracklist.entries@.len(),
            out@ == entry_lines(tracklist.entries@.subrange(0, k as int)),
        decreases tracklist.entries@.len() - k,
    {
        let e = &tracklist.entries[k];
        let ghost before = out@;
        let mut num: Vec<char> = Vec::new();
        push_decimal(&mut num, e.index as u64);
        out.append(string_from_chars(&num).as_str());
        out.append(". ");
        out.append(format_timestamp_ms(e.start_ms).as_str());
        out.append(" - ");
        out.append(e.label.as_str());
        push_char(&mut out, '\n');
        proof {
            let pre = tracklist.entries@.subrange(0, k + 1);
            assert(pre.drop_last() =~= tracklist.entries@.subrange(0, k as int));
            assert(num@ =~= decimal(e.index as nat));
            assert(out@ =~= before + entry_line(*e));
        }
        k = k + 1;
    }
    assert(tracklist.entries@.subrange(0, k as int) =~= tracklist.entries@);
    push_char(&mut out, '\n');
    out.append("Total Length: ");
    out.append(format_timestamp_ms(tracklist.total_ms).as_str());
    push_char(&mut out, '\n');
    out
}

impl Tracklist {
    /// A tracklist numbering the given `(start_ms, label)` pairs from 1, in
    /// order.
    pub fn numbered(items: Vec<(u64, String)>, total_ms: u64) -> (tl: Tracklist)
        requires
            items@.len() < usize::MAX,
        ensures
            tl.total_ms == total_ms,
            tl.entries@.len() == items@.len(),
            forall|k: int|
                0 <= k < items@.len() ==> {
                    &&& (#[trigger] tl.entries@[k]).index == k + 1
                    &&& tl.entries@[k].start_ms == items@[k].0
                    &&& tl.entries@[k].label@ == items@[k].1@
                },
    {
        let mut entries: Vec<TracklistEntry> = Vec::new();
        let mut k: usize = 0;
        while k < items.len()
            invariant
                k <= items@.len() < usize::MAX,
                entries@.len() == k,
                forall|m: int|
                    0 <= m < k ==> {
                        &&& (#[trigger] entries@[m]).index == m + 1
                        &&& entries@[m].start_ms == items@[m].0
                        &&& entries@[m].label@ == items@[m].1@
                    },
            decreases items@.len() - k,
        {
            entries.push(
                TracklistEntry { index: k + 1, start_ms: items[k].0, label: items[k].1.clone() },
            );
            k = k + 1;
        }
        Tracklist { entries, total_ms }
    }
}

} // verus!
