//! The `prune` command: audio files inside the project directory that the
//! project does not reference.

use vstd::prelude::*;

use crate::numbers::{human_size_text, push_human_size};
use crate::paths::{
    extension, path_extension, path_less, path_starts_with, path_strip_prefix, precedes,
    starts_with, strip_prefix,
};
use crate::seqs::{lemma_views_push, views};
use crate::text::{
    ascii_lower, chars_equal, chars_of, decimal, opt_view, push_decimal, push_text,
    str_equals, string_from_chars, to_ascii_lower,
};

verus! {

/// Options of the `prune` command.
#[derive(Debug, Clone)]
pub struct PruneOptions {
    pub project_path: String,
    pub output: Option<String>,
    pub delete: bool,
}

/// A file the project does not reference.
#[derive(Debug, Clone, PartialEq)]
pub struct PruneCandidate {
    /// Absolute (canonical) path of the unreferenced file on disk.
    pub absolute: String,
    /// Display path relative to the project directory.
    pub relative: String,
    pub size_bytes: u64,
}

/// The analysis sidecar Ableton keeps next to an audio file: `<file>.asd`.
pub open spec fn asd_sidecar(path: Seq<char>) -> Seq<char> {
    path + ".asd"@
}

/// Record `path` as referenced, together with its `.asd` sidecar.
pub fn add_with_asd(set: &mut Vec<String>, path: String)
    ensures
        views(final(set)@) == views(old(set)@).push(path@).push(asd_sidecar(path@)),
{
    let mut asd = path.clone();
    asd.append(".asd");
    let ghost before = set@;
    set.push(path);
    set.push(asd);
    assert(views(set@) =~= views(before).push(path@).push(asd_sidecar(path@)));
}

/// The mathematical form of a candidate.
pub struct PruneCandidateModel {
    pub absolute: Seq<char>,
    pub relative: Seq<char>,
    pub size_bytes: u64,
}

impl View for PruneCandidate {
    type V = PruneCandidateModel;

    open spec fn view(&self) -> PruneCandidateModel {
        PruneCandidateModel {
            absolute: self.absolute@,
            relative: self.relative@,
            size_bytes: self.size_bytes,
        }
    }
}

impl PruneCandidate {
    /// A copy of this candidate.
    pub fn duplicate(&self) -> (r: PruneCandidate)
        ensures
            r@ == self@,
    {
        PruneCandidate {
            absolute: self.absolute.clone(),
            relative: self.relative.clone(),
            size_bytes: self.size_bytes,
        }
    }
}

// ----- Referenced files -----------------------------------------------------

/// Where one sample reference lies on disk: the canonical form of its
/// relative path (joined to the project directory) and of its absolute path,
/// each `None` when the path is absent or does not resolve.
#[derive(Debug, Clone)]
pub struct ResolvedRef {
    pub relative: Option<String>,
    pub absolute: Option<String>,
}

pub struct ResolvedRefModel {
    pub relative: Option<Seq<char>>,
    pub absolute: Option<Seq<char>>,
}

impl View for ResolvedRef {
    type V = ResolvedRefModel;

    open spec fn view(&self) -> ResolvedRefModel {
        ResolvedRefModel { relative: opt_view(self.relative), absolute: opt_view(self.absolute) }
    }
}

/// The file a reference stands for inside `dir`: its relative form when that
/// lies under `dir`, else its absolute form when that does, else none.
pub open spec fn inside_dir(r: ResolvedRefModel, dir: Seq<char>) -> Option<Seq<char>> {
    if r.relative is Some && path_starts_with(r.relative->0, dir) {
        r.relative
    } else if r.absolute is Some && path_starts_with(r.absolute->0, dir) {
        r.absolute
    } else {
        None
    }
}

/// The referenced paths: for each reference, in order, the file it stands
/// for inside `dir` followed by that file's `.asd` sidecar.
pub open spec fn referenced_of(rs: Seq<ResolvedRefModel>, dir: Seq<char>) -> Seq<Seq<char>>
    decreases rs.len(),
{
    if rs.len() == 0 {
        Seq::empty()
    } else {
        let prev = referenced_of(rs.drop_last(), dir);
        match inside_dir(rs.last(), dir) {
            Some(p) => prev.push(p).push(asd_sidecar(p)),
            None => prev,
        }
    }
}

fn inside(r: &ResolvedRef, dir: &str) -> (o: Option<String>)
    ensures
        opt_view(o) == inside_dir(r@, dir@),
{
    if let Some(p) = &r.relative {
        if starts_with(p.as_str(), dir) {
            return Some(p.clone());
        }
    }
    if let Some(p) = &r.absolute {
        if starts_with(p.as_str(), dir) {
            return Some(p.clone());
        }
    }
    None
}

/// The paths inside `project_dir` that the project references, each with
/// its `.asd` sidecar. A reference counts by its relative path when that
/// resolves under the project directory, else by its absolute path when that
/// does; references to files elsewhere are ignored.
pub fn referenced_paths(resolved: &Vec<ResolvedRef>, project_dir: &str) -> (r: Vec<String>)
    ensures
        views(r@) == referenced_of(views(resolved@), project_dir@),
{
    let ghost rs = views(resolved@);
    let mut out: Vec<String> = Vec::new();
    let mut k: usize = 0;
    while k < resolved.len()
        invariant
            rs == views(resolved@),
            k <= resolved@.len(),
            views(out@) == referenced_of(rs.subrange(0, k as int), project_dir@),
        decreases resolved@.len() - k,
    {
        proof {
            assert(rs.subrange(0, k + 1).drop_last() =~= rs.subrange(0, k as int));
            assert(rs.subrange(0, k + 1).last() == resolved@[k as int]@);
        }
        match inside(&resolved[k], project_dir) {
            Some(p) => add_with_asd(&mut out, p),
            None => {},
        }
        k = k + 1;
    }
    assert(rs.subrange(0, k as int) =~= rs);
    out
}

// ----- Candidates -------------------------------------------------------------

/// A file the walk found: its path as walked, its canonical path and its
/// size in bytes.
#[derive(Debug, Clone)]
pub struct FoundFile {
    pub path: String,
    pub absolute: String,
    pub size_bytes: u64,
}

pub struct FoundFileModel {
    pub path: Seq<char>,
    pub absolute: Seq<char>,
    pub size_bytes: u64,
}

impl View for FoundFile {
    type V = FoundFileModel;

    open spec fn view(&self) -> FoundFileModel {
        FoundFileModel { path: self.path@, absolute: self.absolute@, size_bytes: self.size_bytes }
    }
}

/// Whether a found file is a candidate: its walked path has an audio or
/// `.asd` extension and its canonical path is not referenced.
pub open spec fn is_candidate(f: FoundFileModel, refs: Seq<Seq<char>>) -> bool {
    prune_eligible(f.path) && !refs.contains(f.absolute)
}

/// The candidate a found file makes: shown by its path relative to `dir`,
/// or by its full path when it does not lie under `dir`.
pub open spec fn candidate_for(f: FoundFileModel, dir: Seq<char>) -> PruneCandidateModel {
    PruneCandidateModel {
        absolute: f.absolute,
        relative: match path_strip_prefix(f.absolute, dir) {
            Some(r) => r,
            None => f.absolute,
        },
        size_bytes: f.size_bytes,
    }
}

/// The candidates the found files make, in order: the files with an audio
/// or `.asd` extension whose canonical path is not referenced.
pub open spec fn unreferenced_of(
    found: Seq<FoundFileModel>,
    refs: Seq<Seq<char>>,
    dir: Seq<char>,
) -> Seq<PruneCandidateModel>
    decreases found.len(),
{
    if found.len() == 0 {
        Seq::empty()
    } else {
        let prev = unreferenced_of(found.drop_last(), refs, dir);
        if is_candidate(found.last(), refs) {
            prev.push(candidate_for(found.last(), dir))
        } else {
            prev
        }
    }
}

/// Whether `v` holds `s`.
fn contains_text(v: &Vec<String>, s: &str) -> (r: bool)
    ensures
        r == views(v@).contains(s@),
{
    let ghost vs = views(v@);
    let mut k: usize = 0;
    while k < v.len()
        invariant
            vs == views(v@),
            k <= v@.len(),
            forall|m: int| 0 <= m < k ==> vs[m] != s@,
        decreases v@.len() - k,
    {
        if str_equals(v[k].as_str(), s) {
            assert(vs[k as int] == s@);
            return true;
        }
        k = k + 1;
    }
    false
}

fn candidate(f: &FoundFile, dir: &str) -> (c: PruneCandidate)
    ensures
        c@ == candidate_for(f@, dir@),
{
    let relative = match strip_prefix(f.absolute.as_str(), dir) {
        Some(r) => r,
        None => f.absolute.clone(),
    };
    PruneCandidate { absolute: f.absolute.clone(), relative, size_bytes: f.size_bytes }
}

/// The found files with an audio or `.asd` extension that no reference
/// names, as candidates, in the order they were found. Other files are never
/// candidates.
pub fn unreferenced_candidates(found: &Vec<FoundFile>, referenced: &Vec<String>, project_dir: &str) -> (r:
    Vec<PruneCandidate>)
    ensures
        views(r@) == unreferenced_of(views(found@), views(referenced@), project_dir@),
{
    let ghost fs = views(found@);
    let ghost refs = views(referenced@);
    let mut out: Vec<PruneCandidate> = Vec::new();
    let mut k: usize = 0;
    while k < found.len()
        invariant
            fs == views(found@),
            refs == views(referenced@),
            k <= found@.len(),
            views(out@) == unreferenced_of(fs.subrange(0, k as int), refs, project_dir@),
        decreases found@.len() - k,
    {
        proof {
            assert(fs.subrange(0, k + 1).drop_last() =~= fs.subrange(0, k as int));
            assert(fs.subrange(0, k + 1).last() == found@[k as int]@);
        }
        let f = &found[k];
        if is_prune_eligible_extension(f.path.as_str()) && !contains_text(
            referenced,
            f.absolute.as_str(),
        ) {
            let c = candidate(f, project_dir);
            let ghost before = out@;
            out.push(c);
            proof {
                lemma_views_push(before, c);
            }
        }
        k = k + 1;
    }
    assert(fs.subrange(0, k as int) =~= fs);
    out
}

// ----- Order of the report --------------------------------------------------

/// Where a stable insertion puts `c` into `s`: after every element that `c`
/// does not come before, scanning from the end.
pub open spec fn insert_pos(s: Seq<PruneCandidateModel>, c: PruneCandidateModel) -> int
    decreases s.len(),
{
    if s.len() == 0 {
        0
    } else if path_less(c.relative, s.last().relative) {
        insert_pos(s.drop_last(), c)
    } else {
        s.len() as int
    }
}

/// The candidates in the order of their relative paths (`Path`'s order), a
/// stable sort: candidates whose paths are equal keep their order.
pub open spec fn sorted_by_relative(s: Seq<PruneCandidateModel>) -> Seq<PruneCandidateModel>
    decreases s.len(),
{
    if s.len() == 0 {
        Seq::empty()
    } else {
        let r = sorted_by_relative(s.drop_last());
        r.insert(insert_pos(r, s.last()), s.last())
    }
}

proof fn lemma_insert_pos_bounds(s: Seq<PruneCandidateModel>, c: PruneCandidateModel)
    ensures
        0 <= insert_pos(s, c) <= s.len(),
    decreases s.len(),
{
    if s.len() > 0 && path_less(c.relative, s.last().relative) {
        lemma_insert_pos_bounds(s.drop_last(), c);
    }
}

proof fn lemma_sorted_len(s: Seq<PruneCandidateModel>)
    ensures
        sorted_by_relative(s).len() == s.len(),
    decreases s.len(),
{
    if s.len() > 0 {
        lemma_sorted_len(s.drop_last());
        lemma_insert_pos_bounds(sorted_by_relative(s.drop_last()), s.last());
    }
}

/// The candidates sorted by their relative paths, in `Path`'s order; the
/// sort is stable.
pub fn sort_by_relative(candidates: Vec<PruneCandidate>) -> (r: Vec<PruneCandidate>)
    ensures
        views(r@) == sorted_by_relative(views(candidates@)),
{
    let ghost cs = views(candidates@);
    let mut out: Vec<PruneCandidate> = Vec::new();
    let mut k: usize = 0;
    while k < candidates.len()
        invariant
            cs == views(candidates@),
            k <= candidates@.len(),
            views(out@) == sorted_by_relative(cs.subrange(0, k as int)),
        decreases candidates@.len() - k,
    {
        let c = candidates[k].duplicate();
        proof {
            assert(c@ == cs[k as int]);
        }
        let ghost sorted = views(out@);
        let mut j: usize = out.len();
        assert(sorted.subrange(0, j as int) =~= sorted);
        while j > 0 && precedes(c.relative.as_str(), out[j - 1].relative.as_str())
            invariant
                sorted == views(out@),
                j <= out@.len(),
                insert_pos(sorted.subrange(0, j as int), c@) == insert_pos(sorted, c@),
            decreases j,
        {
            proof {
                let pre = sorted.subrange(0, j as int);
                assert(pre.drop_last() =~= sorted.subrange(0, j - 1));
                assert(pre.last() == out@[j - 1]@);
            }
            j = j - 1;
        }
        proof {
            let pre = sorted.subrange(0, j as int);
            if j > 0 {
                assert(pre.last() == out@[j - 1]@);
            }
            assert(insert_pos(pre, c@) == j);
            let s2 = cs.subrange(0, k + 1);
            assert(s2.drop_last() =~= cs.subrange(0, k as int));
            assert(s2.last() == c@);
        }
        let ghost before = out@;
        out.insert(j, c);
        proof {
            assert(views(out@) =~= sorted.insert(j as int, c@));
        }
        k = k + 1;
    }
    assert(cs.subrange(0, k as int) =~= cs);
    out
}

// ----- Laws -------------------------------------------------------------------

/// Whether `x` is the file reference `i` stands for inside `dir` (a path
/// under `dir`), or that file's `.asd` sidecar.
pub open spec fn stands_for(rs: Seq<ResolvedRefModel>, dir: Seq<char>, i: int, x: Seq<char>) -> bool {
    0 <= i < rs.len() && match inside_dir(rs[i], dir) {
        Some(p) => path_starts_with(p, dir) && (x == p || x == asd_sidecar(p)),
        None => false,
    }
}

/// Whether some reference stands for `x` inside `dir`.
pub open spec fn some_reference_stands_for(
    rs: Seq<ResolvedRefModel>,
    dir: Seq<char>,
    x: Seq<char>,
) -> bool {
    exists|i: int| #[trigger] stands_for(rs, dir, i, x)
}

/// Law: only files inside the project directory count as referenced. Every
/// referenced path is one that some reference resolves to under the project
/// directory, or the `.asd` sidecar of such a path.
pub proof fn law_referenced_inside_project(rs: Seq<ResolvedRefModel>, dir: Seq<char>)
    ensures
        forall|k: int|
            0 <= k < referenced_of(rs, dir).len() ==> some_reference_stands_for(
                rs,
                dir,
                #[trigger] referenced_of(rs, dir)[k],
            ),
    decreases rs.len(),
{
    if rs.len() > 0 {
        let prev = rs.drop_last();
        law_referenced_inside_project(prev, dir);
        let out = referenced_of(rs, dir);
        let before = referenced_of(prev, dir);
        assert forall|k: int| 0 <= k < out.len() implies some_reference_stands_for(
            rs,
            dir,
            #[trigger] out[k],
        ) by {
            if k < before.len() {
                assert(some_reference_stands_for(prev, dir, before[k]));
                let i = choose|i: int| #[trigger] stands_for(prev, dir, i, before[k]);
                assert(prev[i] == rs[i]);
                assert(out[k] == before[k]);
                assert(stands_for(rs, dir, i, out[k]));
            } else {
                assert(stands_for(rs, dir, rs.len() - 1, out[k]));
            }
        }
    }
}

/// Law: a referenced audio file keeps its sidecar. For every reference that
/// resolves inside the project directory, both the file and its `.asd`
/// sidecar are referenced.
pub proof fn law_sidecar_kept_with_audio(rs: Seq<ResolvedRefModel>, dir: Seq<char>)
    ensures
        forall|i: int|
            0 <= i < rs.len() && (#[trigger] inside_dir(rs[i], dir)) is Some ==> referenced_of(
                rs,
                dir,
            ).contains(inside_dir(rs[i], dir)->0) && referenced_of(rs, dir).contains(
                asd_sidecar(inside_dir(rs[i], dir)->0),
            ),
    decreases rs.len(),
{
    if rs.len() > 0 {
        let prev = rs.drop_last();
        law_sidecar_kept_with_audio(prev, dir);
        let out = referenced_of(rs, dir);
        let before = referenced_of(prev, dir);
        assert forall|i: int| 0 <= i < rs.len() && (#[trigger] inside_dir(rs[i], dir)) is Some implies out.contains(
            inside_dir(rs[i], dir)->0,
        ) && out.contains(asd_sidecar(inside_dir(rs[i], dir)->0)) by {
            let p = inside_dir(rs[i], dir)->0;
            if i < rs.len() - 1 {
                assert(prev[i] == rs[i]);
                assert(inside_dir(prev[i], dir) is Some);
                let a = choose|a: int| 0 <= a < before.len() && before[a] == p;
                let b = choose|b: int| 0 <= b < before.len() && before[b] == asd_sidecar(p);
                assert(out[a] == p);
                assert(out[b] == asd_sidecar(p));
            } else {
                assert(out[out.len() - 2] == p);
                assert(out[out.len() - 1] == asd_sidecar(p));
            }
        }
    }
}

/// Law: the candidates are exactly the unreferenced audio files found. Each
/// candidate comes from a found file with an audio or `.asd` extension whose
/// path is not referenced (so no other file type is ever pruned), and every
/// such found file is a candidate.
pub proof fn law_candidates_are_exactly_unreferenced(
    found: Seq<FoundFileModel>,
    refs: Seq<Seq<char>>,
    dir: Seq<char>,
)
    ensures
        forall|k: int|
            0 <= k < unreferenced_of(found, refs, dir).len() ==> !refs.contains(
                (#[trigger] unreferenced_of(found, refs, dir)[k]).absolute,
            ) && exists|j: int|
                0 <= j < found.len() && is_candidate(found[j], refs) && unreferenced_of(
                    found,
                    refs,
                    dir,
                )[k] == candidate_for(#[trigger] found[j], dir),
        forall|j: int|
            0 <= j < found.len() && is_candidate(#[trigger] found[j], refs) ==> unreferenced_of(
                found,
                refs,
                dir,
            ).contains(candidate_for(found[j], dir)),
    decreases found.len(),
{
    if found.len() > 0 {
        let prev = found.drop_last();
        law_candidates_are_exactly_unreferenced(prev, refs, dir);
        let out = unreferenced_of(found, refs, dir);
        let before = unreferenced_of(prev, refs, dir);
        assert forall|k: int| 0 <= k < out.len() implies !refs.contains((#[trigger] out[k]).absolute)
            && exists|j: int| 0 <= j < found.len() && is_candidate(found[j], refs) && out[k]
            == candidate_for(#[trigger] found[j], dir) by {
            if k < before.len() {
                assert(out[k] == before[k]);
                let j = choose|j: int| 0 <= j < prev.len() && is_candidate(prev[j], refs) && before[k]
                    == candidate_for(#[trigger] prev[j], dir);
                assert(prev[j] == found[j]);
            } else {
                assert(out[k] == candidate_for(found[found.len() - 1], dir));
            }
        }
        assert forall|j: int| 0 <= j < found.len() && is_candidate(#[trigger] found[j], refs)
            implies out.contains(candidate_for(found[j], dir)) by {
            if j < found.len() - 1 {
                assert(prev[j] == found[j]);
                let a = choose|a: int| 0 <= a < before.len() && before[a] == candidate_for(prev[j], dir);
                assert(out[a] == before[a]);
            } else {
                assert(out[out.len() - 1] == candidate_for(found[j], dir));
            }
        }
    }
}

/// Law: sorting the report neither drops nor adds a candidate: the sorted
/// candidates are the same multiset as the candidates.
pub proof fn law_sort_keeps_candidates(s: Seq<PruneCandidateModel>)
    ensures
        sorted_by_relative(s).to_multiset() == s.to_multiset(),
    decreases s.len(),
{
    if s.len() == 0 {
        assert(sorted_by_relative(s) =~= s);
    } else {
        let prev = s.drop_last();
        law_sort_keeps_candidates(prev);
        let r = sorted_by_relative(prev);
        lemma_sorted_len(prev);
        lemma_insert_pos_bounds(r, s.last());
        vstd::seq_lib::to_multiset_insert(r, insert_pos(r, s.last()), s.last());
        vstd::seq_lib::to_multiset_build(prev, s.last());
        assert(prev.push(s.last()) =~= s);
    }
}

/// Law: a referenced file and its `.asd` sidecar are never pruned. Whatever
/// the walk finds, no candidate is a file that a reference resolves to inside
/// the project directory, nor that file's sidecar.
pub proof fn law_referenced_never_pruned(
    rs: Seq<ResolvedRefModel>,
    found: Seq<FoundFileModel>,
    dir: Seq<char>,
)
    ensures
        forall|i: int, k: int|
            0 <= i < rs.len() && (#[trigger] inside_dir(rs[i], dir)) is Some && 0 <= k
                < unreferenced_of(found, referenced_of(rs, dir), dir).len() ==> (#[trigger] unreferenced_of(
                found,
                referenced_of(rs, dir),
                dir,
            )[k]).absolute != inside_dir(rs[i], dir)->0 && unreferenced_of(
                found,
                referenced_of(rs, dir),
                dir,
            )[k].absolute != asd_sidecar(inside_dir(rs[i], dir)->0),
{
    law_sidecar_kept_with_audio(rs, dir);
    law_candidates_are_exactly_unreferenced(found, referenced_of(rs, dir), dir);
}

/// Audio extensions considered as prune candidates (lower case).
pub open spec fn is_audio_ext(l: Seq<char>) -> bool {
    l == "wav"@ || l == "aiff"@ || l == "aif"@ || l == "flac"@ || l == "mp3"@ || l == "ogg"@ || l
        == "m4a"@
}

/// Whether an extension (absent when the path has none) makes a file
/// prunable: an audio extension or `asd`, ignoring ASCII case.
pub open spec fn eligible_ext(ext: Option<Seq<char>>) -> bool {
    match ext {
        Some(e) => ascii_lower(e) == "asd"@ || is_audio_ext(ascii_lower(e)),
        None => false,
    }
}

/// Law: the prunable extensions are exactly `wav`, `aiff`, `aif`, `flac`,
/// `mp3`, `ogg`, `m4a` and the `asd` sidecar, in any ASCII case; a file with
/// no extension never is.
pub proof fn law_prunable_extensions(e: Seq<char>)
    ensures
        eligible_ext(Some(e)) <==> {
            let l = ascii_lower(e);
            l == "wav"@ || l == "aiff"@ || l == "aif"@ || l == "flac"@ || l == "mp3"@ || l
                == "ogg"@ || l == "m4a"@ || l == "asd"@
        },
        !eligible_ext(None),
{
}

/// Whether a file may be pruned: an audio extension or an `.asd` sidecar,
/// ignoring ASCII case.
pub open spec fn prune_eligible(p: Seq<char>) -> bool {
    eligible_ext(path_extension(p))
}

fn is(l: &Vec<char>, lit: &str) -> (r: bool)
    ensures
        r == (l@ == lit@),
{
    chars_equal(l, &chars_of(lit))
}

/// Whether an extension (absent when the path has none) is an audio
/// extension or `asd`, ignoring ASCII case.
pub fn is_prune_eligible_ext(ext: Option<&str>) -> (r: bool)
    ensures
        r == eligible_ext(
            match ext {
                Some(e) => Some(e@),
                None => None,
            },
        ),
{
    let e = match ext {
        Some(e) => e,
        None => return false,
    };
    let lower = to_ascii_lower(&chars_of(e));
    if is(&lower, "asd") {
        return true;
    }
    is(&lower, "wav") || is(&lower, "aiff") || is(&lower, "aif") || is(&lower, "flac") || is(
        &lower,
        "mp3",
    ) || is(&lower, "ogg") || is(&lower, "m4a")
}

/// Whether `path` has an audio extension or is an `.asd` sidecar.
pub fn is_prune_eligible_extension(path: &str) -> (r: bool)
    ensures
        r == prune_eligible(path@),
{
    let ext = extension(path);
    match &ext {
        Some(e) => is_prune_eligible_ext(Some(e.as_str())),
        None => is_prune_eligible_ext(None),
    }
}

/// Directory names that Ableton owns and the walk skips.
pub open spec fn skipped_dir(name: Seq<char>) -> bool {
    name == "Backup"@ || name == "Ableton Project Info"@
}

/// Whether a sub-directory with this name is skipped.
pub fn is_skipped_dir_name(name: &str) -> (r: bool)
    ensures
        r == skipped_dir(name@),
{
    let cs = chars_of(name);
    is(&cs, "Backup") || is(&cs, "Ableton Project Info")
}

/// A byte count in human units.
pub fn human_size(bytes: u64) -> (r: String)
    ensures
        r@ == human_size_text(bytes as nat),
{
    let mut out: Vec<char> = Vec::new();
    push_human_size(&mut out, bytes);
    assert(out@ =~= human_size_text(bytes as nat));
    string_from_chars(&out)
}

/// The summed size of the candidates.
pub open spec fn total_size(cs: Seq<PruneCandidate>) -> nat
    decreases cs.len(),
{
    if cs.len() == 0 {
        0
    } else {
        total_size(cs.drop_last()) + cs.last().size_bytes as nat
    }
}

pub proof fn lemma_total_size_prefix(cs: Seq<PruneCandidate>, k: int)
    requires
        0 <= k <= cs.len(),
    ensures
        total_size(cs.subrange(0, k)) <= total_size(cs),
    decreases cs.len() - k,
{
    if k < cs.len() {
        lemma_total_size_prefix(cs, k + 1);
        assert(cs.subrange(0, k + 1).drop_last() =~= cs.subrange(0, k));
    } else {
        assert(cs.subrange(0, k) =~= cs);
    }
}

/// One listed file: `  <relative> (<size>)`.
pub open spec fn candidate_line(c: PruneCandidate) -> Seq<char> {
    "  "@ + c.relative@ + " ("@ + human_size_text(c.size_bytes as nat) + ")\n"@
}

pub open spec fn candidate_lines(cs: Seq<PruneCandidate>) -> Seq<char>
    decreases cs.len(),
{
    if cs.len() == 0 {
        Seq::empty()
    } else {
        candidate_lines(cs.drop_last()) + candidate_line(cs.last())
    }
}

/// `s` unless there is exactly one.
pub open spec fn plural(n: nat) -> Seq<char> {
    if n == 1 {
        Seq::empty()
    } else {
        "s"@
    }
}

pub open spec fn nothing_found() -> Seq<char> {
    "No unreferenced audio files found.\n"@
}

/// The dry-run report.
pub open spec fn dry_run_text(cs: Seq<PruneCandidate>) -> Seq<char> {
    if cs.len() == 0 {
        nothing_found()
    } else {
        "Unreferenced files:\n"@ + candidate_lines(cs) + "\n"@ + decimal(cs.len()) + " file"@
            + plural(cs.len()) + ", "@ + human_size_text(total_size(cs)) + " total.\n"@
            + "Run with --delete to remove.\n"@
    }
}

/// The report after deleting.
pub open spec fn deleted_text(cs: Seq<PruneCandidate>) -> Seq<char> {
    if cs.len() == 0 {
        nothing_found()
    } else {
        "Deleted files:\n"@ + candidate_lines(cs) + "\n"@ + "Deleted "@ + decimal(cs.len())
            + " file"@ + plural(cs.len()) + " ("@ + human_size_text(total_size(cs)) + ").\n"@
    }
}

/// The sum of the sizes of `cs[0..n]`, added up one by one.
pub open spec fn sizes_up_to(cs: Seq<PruneCandidate>, n: int) -> int
    decreases n,
{
    if n <= 0 {
        0
    } else {
        sizes_up_to(cs, n - 1) + cs[n - 1].size_bytes
    }
}

proof fn lemma_total_is_sum(cs: Seq<PruneCandidate>)
    ensures
        total_size(cs) == sizes_up_to(cs, cs.len() as int),
    decreases cs.len(),
{
    if cs.len() > 0 {
        lemma_total_is_sum(cs.drop_last());
        lemma_sizes_prefix(cs, cs.len() - 1);
        assert(sizes_up_to(cs, cs.len() as int) == sizes_up_to(cs, cs.len() - 1)
            + cs[cs.len() - 1].size_bytes);
    }
}

proof fn lemma_sizes_prefix(cs: Seq<PruneCandidate>, n: int)
    requires
        0 <= n <= cs.len() - 1,
    ensures
        sizes_up_to(cs.drop_last(), n) == sizes_up_to(cs, n),
    decreases n,
{
    if n > 0 {
        lemma_sizes_prefix(cs, n - 1);
    }
}

/// Law: both reports end with the summed size of all the candidates. The
/// dry-run report ends `, <size> total.` followed by the hint to delete, and
/// the report after deleting ends ` (<size>).`, where `<size>` is the sum of
/// every candidate's `size_bytes` in human units; both state the number of
/// files.
pub proof fn law_reports_show_the_summed_size(cs: Seq<PruneCandidate>)
    requires
        cs.len() > 0,
    ensures
        (", "@ + human_size_text(sizes_up_to(cs, cs.len() as int) as nat) + " total.\n"@
            + "Run with --delete to remove.\n"@).is_suffix_of(dry_run_text(cs)),
        (" ("@ + human_size_text(sizes_up_to(cs, cs.len() as int) as nat) + ").\n"@).is_suffix_of(
            deleted_text(cs),
        ),
        ("\n"@ + decimal(cs.len()) + " file"@ + plural(cs.len())).is_suffix_of(
            dry_run_text(cs).subrange(
                0,
                dry_run_text(cs).len() - (", "@ + human_size_text(total_size(cs)) + " total.\n"@
                    + "Run with --delete to remove.\n"@).len(),
            ),
        ),
{
    lemma_total_is_sum(cs);
    let tail = ", "@ + human_size_text(total_size(cs)) + " total.\n"@ + "Run with --delete to remove.\n"@;
    let head = "Unreferenced files:\n"@ + candidate_lines(cs) + "\n"@ + decimal(cs.len()) + " file"@
        + plural(cs.len());
    assert(dry_run_text(cs) =~= head + tail);
    assert(tail =~= (head + tail).subrange(head.len() as int, (head + tail).len() as int));
    assert((head + tail).subrange(0, head.len() as int) =~= head);
    let mid = "\n"@ + decimal(cs.len()) + " file"@ + plural(cs.len());
    let pre = "Unreferenced files:\n"@ + candidate_lines(cs);
    assert(head =~= pre + mid);
    assert(mid =~= head.subrange(pre.len() as int, head.len() as int));
    let dtail = " ("@ + human_size_text(total_size(cs)) + ").\n"@;
    let dhead = "Deleted files:\n"@ + candidate_lines(cs) + "\n"@ + "Deleted "@ + decimal(cs.len())
        + " file"@ + plural(cs.len());
    assert(deleted_text(cs) =~= dhead + dtail);
    assert(dtail =~= (dhead + dtail).subrange(dhead.len() as int, (dhead + dtail).len() as int));
}

/// Appends the listing lines and returns the summed size.
fn push_candidate_lines(out: &mut Vec<char>, candidates: &[PruneCandidate]) -> (total: u64)
    requires
        total_size(candidates@) <= u64::MAX,
    ensures
        final(out)@ == old(out)@ + candidate_lines(candidates@),
        total as nat == total_size(candidates@),
{
    let mut total: u64 = 0;
    let mut k: usize = 0;
    while k < candidates.len()
        invariant
            k <= candidates@.len(),
            total_size(candidates@) <= u64::MAX,
            out@ == old(out)@ + candidate_lines(candidates@.subrange(0, k as int)),
            total as nat == total_size(candidates@.subrange(0, k as int)),
        decreases candidates@.len() - k,
    {
        let c = &candidates[k];
        let ghost before = out@;
        push_text(out, "  ");
        push_text(out, c.relative.as_str());
        push_text(out, " (");
        push_human_size(out, c.size_bytes);
        push_text(out, ")\n");
        proof {
            let pre = candidates@.subrange(0, k + 1);
            assert(pre.drop_last() =~= candidates@.subrange(0, k as int));
            assert(out@ =~= before + candidate_line(*c));
            lemma_total_size_prefix(candidates@, k + 1);
        }
        total = total + c.size_bytes;
        k = k + 1;
    }
    assert(candidates@.subrange(0, k as int) =~= candidates@);
    total
}

fn push_plural(out: &mut Vec<char>, n: usize)
    ensures
        final(out)@ == old(out)@ + plural(n as nat),
{
    if n != 1 {
        push_text(out, "s");
    } else {
        assert(old(out)@ + plural(n as nat) =~= old(out)@);
    }
}

/// The dry-run report: the unreferenced files, their count and total size.
pub fn format_dry_run(candidates: &[PruneCandidate]) -> (r: String)
    requires
        total_size(candidates@) <= u64::MAX,
    ensures
        r@ == dry_run_text(candidates@),
{
    if candidates.len() == 0 {
        return "No unreferenced audio files found.\n".to_owned();
    }
    let mut out: Vec<char> = Vec::new();
    push_text(&mut out, "Unreferenced files:\n");
    let total = push_candidate_lines(&mut out, candidates);
    push_text(&mut out, "\n");
    push_decimal(&mut out, candidates.len() as u64);
    push_text(&mut out, " file");
    push_plural(&mut out, candidates.len());
    push_text(&mut out, ", ");
    push_human_size(&mut out, total);
    push_text(&mut out, " total.\n");
    push_text(&mut out, "Run with --delete to remove.\n");
    assert(out@ =~= dry_run_text(candidates@));
    string_from_chars(&out)
}

/// The report after deleting the files.
pub fn format_deleted(candidates: &[PruneCandidate]) -> (r: String)
    requires
        total_size(candidates@) <= u64::MAX,
    ensures
        r@ == deleted_text(candidates@),
{
    if candidates.len() == 0 {
        return "No unreferenced audio files found.\n".to_owned();
    }
    let mut out: Vec<char> = Vec::new();
    push_text(&mut out, "Deleted files:\n");
    let total = push_candidate_lines(&mut out, candidates);
    push_text(&mut out, "\n");
    push_text(&mut out, "Deleted ");
    push_decimal(&mut out, candidates.len() as u64);
    push_text(&mut out, " file");
    push_plural(&mut out, candidates.len());
    push_text(&mut out, " (");
    push_human_size(&mut out, total);
    push_text(&mut out, ").\n");
    assert(out@ =~= deleted_text(candidates@));
    string_from_chars(&out)
}

} // verus!
