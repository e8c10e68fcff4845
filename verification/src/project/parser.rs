//! Interpretation of the decompressed Ableton Live `.als` XML as a
//! [`Project`].

use vstd::prelude::*;

use super::{
    identity_of, AudioClip, AudioClipModel, AudioTrack, AudioTrackModel, Project, ProjectModel,
    SampleRef, SampleRefModel, TempoEvent, TempoEventModel, TempoSource, TempoSourceModel,
};
use crate::error::{concat2, concat3, Error, ErrorModel};
use crate::numbers::{float_error, float_parse_error};
use crate::paths::{file_name, path_file_name};
use crate::seqs::{lemma_views_empty, lemma_views_push, views};
use crate::text::{opt_view, str_equals};
use crate::xml::{
    attr, attribute, child, child_value_attr, end_of, find_child, find_child_value_attr,
    find_descendant, find_root_element, first_named_in, is_named, named, next_of, next_sibling,
    node_end, nodes_view, parse_xml, root_element, xml_parse_result, XmlNode, XmlNodeModel,
};

verus! {

// ----- Models of the parse --------------------------------------------------

/// A result seen through the views of its two sides.
pub open spec fn result_view<T: View>(r: Result<T, Error>) -> Result<T::V, ErrorModel> {
    match r {
        Ok(v) => Ok(v@),
        Err(e) => Err(e@),
    }
}

/// An option seen through the view of its value.
pub open spec fn option_view<T: View>(o: Option<T>) -> Option<T::V> {
    match o {
        Some(v) => Some(v@),
        None => None,
    }
}

/// The text unless it is empty (`.filter(|s| !s.is_empty())`).
pub open spec fn non_empty(o: Option<Seq<char>>) -> Option<Seq<char>> {
    match o {
        Some(s) => if s.len() > 0 {
            Some(s)
        } else {
            None
        },
        None => None,
    }
}

/// The text, or empty (`unwrap_or_default`).
pub open spec fn or_empty(o: Option<Seq<char>>) -> Seq<char> {
    match o {
        Some(s) => s,
        None => Seq::empty(),
    }
}

/// The sample a `<SampleRef>` node describes through its `<FileRef>`: the
/// absolute and relative paths when non-empty, and the name (falling back to
/// the final component of the absolute path, else of the relative path).
pub open spec fn sample_ref_at(t: Seq<XmlNodeModel>, i: int) -> Option<SampleRefModel> {
    match child(t, i, "FileRef"@) {
        None => None,
        Some(f) => {
            let abs = non_empty(child_value_attr(t, f, "Path"@, "Value"@));
            let rel = non_empty(child_value_attr(t, f, "RelativePath"@, "Value"@));
            let name = match child_value_attr(t, f, "Name"@, "Value"@) {
                Some(n) => n,
                None => match (if abs is Some {
                    abs
                } else {
                    rel
                }) {
                    Some(p) => or_empty(path_file_name(p)),
                    None => Seq::empty(),
                },
            };
            Some(SampleRefModel { name, absolute_path: abs, relative_path: rel })
        },
    }
}

/// The clip an `<AudioClip>` node describes.
pub open spec fn clip_at(t: Seq<XmlNodeModel>, c: int) -> Result<AudioClipModel, ErrorModel> {
    match child_value_attr(t, c, "CurrentStart"@, "Value"@) {
        None => Err(ErrorModel::MissingElement("AudioClip/CurrentStart"@)),
        Some(start) => match float_error(start) {
            Some(fe) => Err(ErrorModel::Malformed("invalid CurrentStart: "@ + fe)),
            None => match child_value_attr(t, c, "CurrentEnd"@, "Value"@) {
                None => Err(ErrorModel::MissingElement("AudioClip/CurrentEnd"@)),
                Some(end) => match float_error(end) {
                    Some(fe) => Err(ErrorModel::Malformed("invalid CurrentEnd: "@ + fe)),
                    None => {
                        let name = or_empty(child_value_attr(t, c, "Name"@, "Value"@));
                        match child(t, c, "SampleRef"@) {
                            None => Err(ErrorModel::MissingElement("AudioClip/SampleRef"@)),
                            Some(sr) => match sample_ref_at(t, sr) {
                                None => Err(ErrorModel::MissingElement("SampleRef/FileRef"@)),
                                Some(s) => Ok(
                                    AudioClipModel {
                                        name,
                                        start_beats: start,
                                        end_beats: end,
                                        sample: s,
                                    },
                                ),
                            },
                        }
                    },
                },
            },
        },
    }
}

/// The `<AudioClip>` children of a node from sibling `j` on (before `e`),
/// appended to `acc`; the first failing clip is the error.
pub open spec fn clips_from(t: Seq<XmlNodeModel>, e: int, j: int, acc: Seq<AudioClipModel>) -> Result<
    Seq<AudioClipModel>,
    ErrorModel,
>
    decreases e - j,
{
    if j < 0 || j >= e || j >= t.len() {
        Ok(acc)
    } else if is_named(t, j, "AudioClip"@) {
        match clip_at(t, j) {
            Err(er) => Err(er),
            Ok(c) => clips_from(t, e, next_sibling(t, e, j), acc.push(c)),
        }
    } else {
        clips_from(t, e, next_sibling(t, e, j), acc)
    }
}

/// `AudioTrack > DeviceChain > MainSequencer > Sample > ArrangerAutomation >
/// Events`, when every step exists.
pub open spec fn track_events(t: Seq<XmlNodeModel>, tr: int) -> Option<int> {
    match child(t, tr, "DeviceChain"@) {
        None => None,
        Some(a) => match child(t, a, "MainSequencer"@) {
            None => None,
            Some(b) => match child(t, b, "Sample"@) {
                None => None,
                Some(c) => match child(t, c, "ArrangerAutomation"@) {
                    None => None,
                    Some(d) => child(t, d, "Events"@),
                },
            },
        },
    }
}

/// The arrangement clips of a track; none when the path to them is missing.
pub open spec fn track_clips(t: Seq<XmlNodeModel>, tr: int) -> Result<Seq<AudioClipModel>, ErrorModel> {
    match track_events(t, tr) {
        None => Ok(Seq::empty()),
        Some(ev) => clips_from(t, node_end(t, ev), ev + 1, Seq::empty()),
    }
}

/// The track an `<AudioTrack>` node describes.
pub open spec fn track_at(t: Seq<XmlNodeModel>, tr: int) -> Result<AudioTrackModel, ErrorModel> {
    let id = or_empty(attr(t, tr, "Id"@));
    let name = match child(t, tr, "Name"@) {
        Some(n) => or_empty(child_value_attr(t, n, "EffectiveName"@, "Value"@)),
        None => Seq::empty(),
    };
    match track_clips(t, tr) {
        Err(e) => Err(e),
        Ok(cs) => Ok(AudioTrackModel { id, name, clips: cs }),
    }
}

/// The `<AudioTrack>` children from sibling `j` on, appended to `acc`.
pub open spec fn tracks_from(t: Seq<XmlNodeModel>, e: int, j: int, acc: Seq<AudioTrackModel>) -> Result<
    Seq<AudioTrackModel>,
    ErrorModel,
>
    decreases e - j,
{
    if j < 0 || j >= e || j >= t.len() {
        Ok(acc)
    } else if is_named(t, j, "AudioTrack"@) {
        match track_at(t, j) {
            Err(er) => Err(er),
            Ok(tr) => tracks_from(t, e, next_sibling(t, e, j), acc.push(tr)),
        }
    } else {
        tracks_from(t, e, next_sibling(t, e, j), acc)
    }
}

/// The audio tracks of a `<LiveSet>`.
pub open spec fn audio_tracks_of(t: Seq<XmlNodeModel>, ls: int) -> Result<Seq<AudioTrackModel>, ErrorModel> {
    match child(t, ls, "Tracks"@) {
        None => Err(ErrorModel::MissingElement("Tracks"@)),
        Some(tn) => tracks_from(t, node_end(t, tn), tn + 1, Seq::empty()),
    }
}

/// The `<FloatEvent>` children from sibling `j` on, as tempo events.
pub open spec fn events_from(t: Seq<XmlNodeModel>, e: int, j: int, acc: Seq<TempoEventModel>) -> Result<
    Seq<TempoEventModel>,
    ErrorModel,
>
    decreases e - j,
{
    if j < 0 || j >= e || j >= t.len() {
        Ok(acc)
    } else if is_named(t, j, "FloatEvent"@) {
        match attr(t, j, "Time"@) {
            Some(beat) if float_error(beat) is None => match attr(t, j, "Value"@) {
                Some(bpm) if float_error(bpm) is None => events_from(
                    t,
                    e,
                    next_sibling(t, e, j),
                    acc.push(TempoEventModel { beat, bpm }),
                ),
                _ => Err(ErrorModel::Malformed("FloatEvent missing Value"@)),
            },
            _ => Err(ErrorModel::Malformed("FloatEvent missing Time"@)),
        }
    } else {
        events_from(t, e, next_sibling(t, e, j), acc)
    }
}

/// Whether `k` is an `<Events>` element whose parent is `<Automation>`.
pub open spec fn is_automation_events(t: Seq<XmlNodeModel>, k: int) -> bool {
    is_named(t, k, "Events"@) && match t[k].parent {
        Some(p) => is_named(t, p as int, "Automation"@),
        None => false,
    }
}

/// The first automation `<Events>` node at or after `j`, before `e`.
pub open spec fn automation_events_in(t: Seq<XmlNodeModel>, e: int, j: int) -> Option<int>
    decreases e - j,
{
    if j < 0 || j >= e || j >= t.len() {
        None
    } else if is_automation_events(t, j) {
        Some(j)
    } else {
        automation_events_in(t, e, j + 1)
    }
}

/// The `Value` of the first `<PointeeId>` in the subtree of `env`.
pub open spec fn pointee_of(t: Seq<XmlNodeModel>, env: int) -> Option<Seq<char>> {
    match first_named_in(t, node_end(t, env), env, "PointeeId"@) {
        Some(p) => attr(t, p, "Value"@),
        None => None,
    }
}

/// The events of an automation envelope.
pub open spec fn envelope_events(t: Seq<XmlNodeModel>, env: int) -> Result<Seq<TempoEventModel>, ErrorModel> {
    match automation_events_in(t, node_end(t, env), env) {
        None => Ok(Seq::empty()),
        Some(ev) => events_from(t, node_end(t, ev), ev + 1, Seq::empty()),
    }
}

/// The events of the first `<AutomationEnvelope>` sibling from `j` on whose
/// pointee is `target`; `None` when there is no such envelope.
pub open spec fn envelopes_from(t: Seq<XmlNodeModel>, e: int, j: int, target: Seq<char>) -> Result<
    Option<Seq<TempoEventModel>>,
    ErrorModel,
>
    decreases e - j,
{
    if j < 0 || j >= e || j >= t.len() {
        Ok(None)
    } else if is_named(t, j, "AutomationEnvelope"@) && pointee_of(t, j) == Some(target) {
        match envelope_events(t, j) {
            Err(er) => Err(er),
            Ok(evs) => Ok(Some(evs)),
        }
    } else {
        envelopes_from(t, e, next_sibling(t, e, j), target)
    }
}

/// The tempo automation events on the master track for `target`.
pub open spec fn tempo_automation(t: Seq<XmlNodeModel>, master: int, target: Seq<char>) -> Result<
    Option<Seq<TempoEventModel>>,
    ErrorModel,
> {
    match child(t, master, "AutomationEnvelopes"@) {
        None => Ok(None),
        Some(a) => match child(t, a, "Envelopes"@) {
            None => Ok(None),
            Some(en) => envelopes_from(t, node_end(t, en), en + 1, target),
        },
    }
}

/// The tempo of a `<LiveSet>`: the manual BPM of
/// `MasterTrack/DeviceChain/Mixer/Tempo`, and the automation envelope that
/// targets the tempo's `AutomationTarget` when there is one.
pub open spec fn tempo_of(t: Seq<XmlNodeModel>, ls: int) -> Result<TempoSourceModel, ErrorModel> {
    match child(t, ls, "MasterTrack"@) {
        None => Err(ErrorModel::MissingElement("MasterTrack"@)),
        Some(master) => match child(t, master, "DeviceChain"@) {
            None => Err(ErrorModel::MissingElement("MasterTrack/DeviceChain"@)),
            Some(dc) => match child(t, dc, "Mixer"@) {
                None => Err(ErrorModel::MissingElement("MasterTrack/DeviceChain/Mixer"@)),
                Some(mixer) => match child(t, mixer, "Tempo"@) {
                    None => Err(ErrorModel::MissingElement("MasterTrack/DeviceChain/Mixer/Tempo"@)),
                    Some(tempo) => match child_value_attr(t, tempo, "Manual"@, "Value"@) {
                        None => Err(ErrorModel::MissingElement("Tempo/Manual"@)),
                        Some(manual) => match float_error(manual) {
                            Some(fe) => Err(
                                ErrorModel::Malformed("invalid tempo Manual value: "@ + fe),
                            ),
                            None => {
                                let target = match child(t, tempo, "AutomationTarget"@) {
                                    Some(a) => attr(t, a, "Id"@),
                                    None => None,
                                };
                                match target {
                                    Some(id) => match tempo_automation(t, master, id) {
                                        Err(er) => Err(er),
                                        Ok(Some(evs)) => Ok(
                                            TempoSourceModel::Automated {
                                                events: evs,
                                                fallback_bpm: manual,
                                            },
                                        ),
                                        Ok(None) => Ok(TempoSourceModel::Constant { bpm: manual }),
                                    },
                                    None => Ok(TempoSourceModel::Constant { bpm: manual }),
                                }
                            },
                        },
                    },
                },
            },
        },
    }
}

/// Whether some reference in `acc` has identity `id`.
pub open spec fn has_identity(acc: Seq<SampleRefModel>, id: Seq<char>) -> bool {
    exists|k: int| 0 <= k < acc.len() && identity_of(#[trigger] acc[k]) == id
}

/// `acc` with `o` appended unless it is absent or its identity is present.
pub open spec fn add_unique(acc: Seq<SampleRefModel>, o: Option<SampleRefModel>) -> Seq<SampleRefModel> {
    match o {
        Some(r) => if has_identity(acc, identity_of(r)) {
            acc
        } else {
            acc.push(r)
        },
        None => acc,
    }
}

/// The samples of every `<SampleRef>` in `j..e` (document order), deduped by
/// identity, appended to `acc`.
pub open spec fn refs_from(t: Seq<XmlNodeModel>, e: int, j: int, acc: Seq<SampleRefModel>) -> Seq<
    SampleRefModel,
>
    decreases e - j,
{
    if j < 0 || j >= e || j >= t.len() {
        acc
    } else {
        refs_from(
            t,
            e,
            j + 1,
            if is_named(t, j, "SampleRef"@) {
                add_unique(acc, sample_ref_at(t, j))
            } else {
                acc
            },
        )
    }
}

/// The project a parsed document describes.
pub open spec fn project_of(t: Seq<XmlNodeModel>) -> Result<ProjectModel, ErrorModel> {
    let root = root_element(t);
    let root_name = match root {
        Some(r) => t[r].name,
        None => Seq::empty(),
    };
    if root is Some && root_name == "Ableton"@ {
        match child(t, root->0, "LiveSet"@) {
            None => Err(ErrorModel::MissingElement("LiveSet"@)),
            Some(ls) => match tempo_of(t, ls) {
                Err(e) => Err(e),
                Ok(tempo) => match audio_tracks_of(t, ls) {
                    Err(e) => Err(e),
                    Ok(tracks) => Ok(
                        ProjectModel {
                            tempo,
                            audio_tracks: tracks,
                            all_sample_refs: refs_from(t, node_end(t, ls), ls, Seq::empty()),
                        },
                    ),
                },
            },
        }
    } else {
        Err(ErrorModel::Malformed("expected root <Ableton>, got <"@ + root_name + ">"@))
    }
}

/// The project the `.als` XML text describes.
pub open spec fn parsed_project(xml: Seq<char>) -> Result<ProjectModel, ErrorModel> {
    match xml_parse_result(xml) {
        Err(m) => Err(ErrorModel::Xml(m)),
        Ok(t) => project_of(t),
    }
}

/// Whether no two references share an identity.
pub open spec fn unique_identities(s: Seq<SampleRefModel>) -> bool {
    forall|a: int, b: int|
        0 <= a < b < s.len() ==> identity_of(#[trigger] s[a]) != identity_of(#[trigger] s[b])
}

proof fn lemma_refs_from_unique(t: Seq<XmlNodeModel>, e: int, j: int, acc: Seq<SampleRefModel>)
    requires
        unique_identities(acc),
    ensures
        unique_identities(refs_from(t, e, j, acc)),
        forall|k: int| 0 <= k < acc.len() ==> #[trigger] refs_from(t, e, j, acc)[k] == acc[k],
        acc.len() <= refs_from(t, e, j, acc).len(),
    decreases e - j,
{
    if 0 <= j < e && j < t.len() {
        let next = if is_named(t, j, "SampleRef"@) {
            add_unique(acc, sample_ref_at(t, j))
        } else {
            acc
        };
        if next != acc {
            let r = sample_ref_at(t, j)->0;
            assert(next == acc.push(r));
            assert forall|a: int, b: int| 0 <= a < b < next.len() implies identity_of(
                #[trigger] next[a],
            ) != identity_of(#[trigger] next[b]) by {
                if b == acc.len() {
                    assert(next[a] == acc[a]);
                    if identity_of(acc[a]) == identity_of(r) {
                        assert(has_identity(acc, identity_of(r)));
                    }
                } else {
                    assert(next[a] == acc[a] && next[b] == acc[b]);
                }
            }
        }
        lemma_refs_from_unique(t, e, j + 1, next);
        assert forall|k: int| 0 <= k < acc.len() implies #[trigger] refs_from(t, e, j, acc)[k]
            == acc[k] by {
            assert(refs_from(t, e, j + 1, next)[k] == next[k]);
            if next != acc {
                assert(next[k] == acc[k]);
            }
        }
    }
}

/// Law: the project's sample references never repeat an identity (each
/// sample is listed once, at its first discovery).
pub proof fn law_sample_refs_unique(t: Seq<XmlNodeModel>)
    ensures
        project_of(t) matches Ok(p) ==> unique_identities(p.all_sample_refs),
{
    if let Ok(p) = project_of(t) {
        let root = root_element(t)->0;
        let ls = child(t, root, "LiveSet"@)->0;
        lemma_refs_from_unique(t, node_end(t, ls), ls, Seq::empty());
    }
}

/// Whether `s` is the sample of some `<SampleRef>` node strictly between
/// `lo` and `hi`.
pub open spec fn sample_node_in(t: Seq<XmlNodeModel>, lo: int, hi: int, s: SampleRefModel) -> bool {
    exists|sr: int|
        lo < sr < hi && is_named(t, sr, "SampleRef"@) && #[trigger] sample_ref_at(t, sr) == Some(s)
}

/// Whether every clip of a track has its sample node strictly between `lo`
/// and `hi`.
pub open spec fn clips_sourced_in(t: Seq<XmlNodeModel>, lo: int, hi: int, cs: Seq<AudioClipModel>) -> bool {
    forall|m: int| 0 <= m < cs.len() ==> sample_node_in(t, lo, hi, #[trigger] cs[m].sample)
}

proof fn lemma_widen(t: Seq<XmlNodeModel>, lo: int, hi: int, lo2: int, hi2: int, s: SampleRefModel)
    requires
        sample_node_in(t, lo, hi, s),
        lo2 <= lo,
        hi <= hi2,
    ensures
        sample_node_in(t, lo2, hi2, s),
{
    let sr = choose|sr: int|
        lo < sr < hi && is_named(t, sr, "SampleRef"@) && #[trigger] sample_ref_at(t, sr) == Some(s);
    assert(lo2 < sr < hi2 && is_named(t, sr, "SampleRef"@) && sample_ref_at(t, sr) == Some(s));
}

proof fn lemma_clip_source(t: Seq<XmlNodeModel>, c: int)
    requires
        0 <= c < t.len(),
    ensures
        clip_at(t, c) matches Ok(cm) ==> sample_node_in(t, c, node_end(t, c), cm.sample),
{
    if let Ok(cm) = clip_at(t, c) {
        crate::xml::lemma_child_inside(t, c, "SampleRef"@);
        let sr = child(t, c, "SampleRef"@)->0;
        assert(sample_ref_at(t, sr) == Some(cm.sample));
    }
}

proof fn lemma_clips_from_sources(
    t: Seq<XmlNodeModel>,
    p: int,
    j: int,
    acc: Seq<AudioClipModel>,
    lo: int,
    hi: int,
)
    requires
        crate::xml::nested(t),
        0 <= p < j,
        p < t.len(),
        lo <= p,
        node_end(t, p) <= hi,
        clips_sourced_in(t, lo, hi, acc),
    ensures
        clips_from(t, node_end(t, p), j, acc) matches Ok(res) ==> clips_sourced_in(t, lo, hi, res),
    decreases node_end(t, p) - j,
{
    let e = node_end(t, p);
    if j < e && j < t.len() {
        let nj = next_sibling(t, e, j);
        if is_named(t, j, "AudioClip"@) {
            if let Ok(cm) = clip_at(t, j) {
                lemma_clip_source(t, j);
                assert(node_end(t, j) <= node_end(t, p));
                lemma_widen(t, j, node_end(t, j), lo, hi, cm.sample);
                let acc2 = acc.push(cm);
                assert forall|m: int| 0 <= m < acc2.len() implies sample_node_in(
                    t,
                    lo,
                    hi,
                    #[trigger] acc2[m].sample,
                ) by {
                    if m < acc.len() {
                        assert(acc2[m] == acc[m]);
                    }
                }
                lemma_clips_from_sources(t, p, nj, acc2, lo, hi);
            }
        } else {
            lemma_clips_from_sources(t, p, nj, acc, lo, hi);
        }
    }
}

/// Every clip of a track has its sample node inside the track's subtree.
proof fn lemma_track_sources(t: Seq<XmlNodeModel>, tr: int)
    requires
        crate::xml::nested(t),
        0 <= tr < t.len(),
    ensures
        track_at(t, tr) matches Ok(tm) ==> clips_sourced_in(t, tr, node_end(t, tr), tm.clips),
{
    if let Ok(tm) = track_at(t, tr) {
        match track_events(t, tr) {
            None => {
                assert(tm.clips.len() == 0);
            },
            Some(ev) => {
                crate::xml::lemma_child_inside(t, tr, "DeviceChain"@);
                let a = child(t, tr, "DeviceChain"@)->0;
                crate::xml::lemma_child_inside(t, a, "MainSequencer"@);
                let b = child(t, a, "MainSequencer"@)->0;
                crate::xml::lemma_child_inside(t, b, "Sample"@);
                let c = child(t, b, "Sample"@)->0;
                crate::xml::lemma_child_inside(t, c, "ArrangerAutomation"@);
                let d = child(t, c, "ArrangerAutomation"@)->0;
                crate::xml::lemma_child_inside(t, d, "Events"@);
                assert(node_end(t, a) <= node_end(t, tr));
                assert(node_end(t, b) <= node_end(t, a));
                assert(node_end(t, c) <= node_end(t, b));
                assert(node_end(t, d) <= node_end(t, c));
                assert(node_end(t, ev) <= node_end(t, d));
                lemma_clips_from_sources(t, ev, ev + 1, Seq::empty(), tr, node_end(t, tr));
            },
        }
    }
}

proof fn lemma_tracks_from_sources(
    t: Seq<XmlNodeModel>,
    p: int,
    j: int,
    acc: Seq<AudioTrackModel>,
    lo: int,
    hi: int,
)
    requires
        crate::xml::nested(t),
        0 <= p < j,
        p < t.len(),
        lo <= p,
        node_end(t, p) <= hi,
        forall|k: int| 0 <= k < acc.len() ==> clips_sourced_in(t, lo, hi, #[trigger] acc[k].clips),
    ensures
        tracks_from(t, node_end(t, p), j, acc) matches Ok(res) ==> forall|k: int|
            0 <= k < res.len() ==> clips_sourced_in(t, lo, hi, #[trigger] res[k].clips),
    decreases node_end(t, p) - j,
{
    let e = node_end(t, p);
    if j < e && j < t.len() {
        let nj = next_sibling(t, e, j);
        if is_named(t, j, "AudioTrack"@) {
            if let Ok(tm) = track_at(t, j) {
                lemma_track_sources(t, j);
                assert(node_end(t, j) <= node_end(t, p));
                assert forall|m: int| 0 <= m < tm.clips.len() implies sample_node_in(
                    t,
                    lo,
                    hi,
                    #[trigger] tm.clips[m].sample,
                ) by {
                    lemma_widen(t, j, node_end(t, j), lo, hi, tm.clips[m].sample);
                }
                let acc2 = acc.push(tm);
                assert forall|k: int| 0 <= k < acc2.len() implies clips_sourced_in(
                    t,
                    lo,
                    hi,
                    #[trigger] acc2[k].clips,
                ) by {
                    if k < acc.len() {
                        assert(acc2[k] == acc[k]);
                    }
                }
                lemma_tracks_from_sources(t, p, nj, acc2, lo, hi);
            }
        } else {
            lemma_tracks_from_sources(t, p, nj, acc, lo, hi);
        }
    }
}

proof fn lemma_refs_from_keeps(t: Seq<XmlNodeModel>, e: int, j: int, acc: Seq<SampleRefModel>, id: Seq<char>)
    requires
        has_identity(acc, id),
    ensures
        has_identity(refs_from(t, e, j, acc), id),
    decreases e - j,
{
    if 0 <= j < e && j < t.len() {
        let next = if is_named(t, j, "SampleRef"@) {
            add_unique(acc, sample_ref_at(t, j))
        } else {
            acc
        };
        let k = choose|k: int| 0 <= k < acc.len() && identity_of(#[trigger] acc[k]) == id;
        if next != acc {
            assert(next[k] == acc[k]);
        }
        assert(has_identity(next, id));
        lemma_refs_from_keeps(t, e, j + 1, next, id);
    }
}

proof fn lemma_refs_from_contains(
    t: Seq<XmlNodeModel>,
    e: int,
    j: int,
    acc: Seq<SampleRefModel>,
    sr: int,
    s: SampleRefModel,
)
    requires
        0 <= j <= sr < e,
        sr < t.len(),
        is_named(t, sr, "SampleRef"@),
        sample_ref_at(t, sr) == Some(s),
    ensures
        has_identity(refs_from(t, e, j, acc), identity_of(s)),
    decreases sr - j,
{
    let next = if is_named(t, j, "SampleRef"@) {
        add_unique(acc, sample_ref_at(t, j))
    } else {
        acc
    };
    if j == sr {
        if !has_identity(acc, identity_of(s)) {
            assert(next == acc.push(s));
            assert(identity_of(next[acc.len() as int]) == identity_of(s));
        }
        assert(has_identity(next, identity_of(s)));
        lemma_refs_from_keeps(t, e, j + 1, next, identity_of(s));
    } else {
        lemma_refs_from_contains(t, e, j + 1, next, sr, s);
    }
}

/// The children of a node from sibling `j` on (before `e`) that are
/// elements named `name`, in document order.
pub open spec fn named_children(t: Seq<XmlNodeModel>, e: int, j: int, name: Seq<char>) -> Seq<int>
    decreases e - j,
{
    if j < 0 || j >= e || j >= t.len() {
        Seq::empty()
    } else if is_named(t, j, name) {
        seq![j] + named_children(t, e, next_sibling(t, e, j), name)
    } else {
        named_children(t, e, next_sibling(t, e, j), name)
    }
}

proof fn lemma_clips_from_children(
    t: Seq<XmlNodeModel>,
    e: int,
    j: int,
    acc: Seq<AudioClipModel>,
)
    ensures
        clips_from(t, e, j, acc) matches Ok(cs) ==> {
            let kids = named_children(t, e, j, "AudioClip"@);
            &&& cs.len() == acc.len() + kids.len()
            &&& cs.subrange(0, acc.len() as int) == acc
            &&& forall|k: int|
                0 <= k < kids.len() ==> clip_at(t, #[trigger] kids[k]) == Ok::<
                    AudioClipModel,
                    ErrorModel,
                >(cs[acc.len() + k])
        },
        (forall|k: int|
            0 <= k < named_children(t, e, j, "AudioClip"@).len() ==> (#[trigger] clip_at(
                t,
                named_children(t, e, j, "AudioClip"@)[k],
            )) is Ok) ==> clips_from(t, e, j, acc) is Ok,
    decreases e - j,
{
    if j < 0 || j >= e || j >= t.len() {
        assert(acc.subrange(0, acc.len() as int) =~= acc);
    } else {
        let nx = next_sibling(t, e, j);
        let kids = named_children(t, e, j, "AudioClip"@);
        let rest = named_children(t, e, nx, "AudioClip"@);
        if is_named(t, j, "AudioClip"@) {
            assert(kids =~= seq![j] + rest);
            assert(kids[0] == j);
            match clip_at(t, j) {
                Ok(c) => {
                    let acc2 = acc.push(c);
                    lemma_clips_from_children(t, e, nx, acc2);
                    if let Ok(cs) = clips_from(t, e, j, acc) {
                        assert(cs.subrange(0, acc.len() as int) =~= cs.subrange(
                            0,
                            acc2.len() as int,
                        ).subrange(0, acc.len() as int));
                        assert(cs[acc.len() as int] == acc2[acc.len() as int]);
                        assert forall|k: int| 0 <= k < kids.len() implies clip_at(
                            t,
                            #[trigger] kids[k],
                        ) == Ok::<AudioClipModel, ErrorModel>(cs[acc.len() + k]) by {
                            if k > 0 {
                                assert(kids[k] == rest[k - 1]);
                            }
                        }
                    }
                    if forall|k: int| 0 <= k < kids.len() ==> (#[trigger] clip_at(t, kids[k])) is Ok {
                        assert forall|k: int| 0 <= k < rest.len() implies (#[trigger] clip_at(
                            t,
                            rest[k],
                        )) is Ok by {
                            assert(rest[k] == kids[k + 1]);
                        }
                    }
                },
                Err(_) => {
                    assert(clip_at(t, kids[0]) is Err);
                },
            }
        } else {
            lemma_clips_from_children(t, e, nx, acc);
        }
    }
}

/// Law: a track's clips are its arrangement clip elements, one for one.
/// When the track has an arrangement `Events` node, every `<AudioClip>`
/// child of it yields one clip, in document order, so the track has as many
/// clips as there are such children; and when each of them describes a
/// valid clip, reading the track's clips succeeds.
pub proof fn law_track_clips_are_its_clip_elements(t: Seq<XmlNodeModel>, tr: int)
    ensures
        track_events(t, tr) matches Some(ev) ==> {
            let kids = named_children(t, node_end(t, ev), ev + 1, "AudioClip"@);
            &&& track_clips(t, tr) matches Ok(cs) ==> cs.len() == kids.len() && forall|k: int|
                0 <= k < kids.len() ==> clip_at(t, #[trigger] kids[k]) == Ok::<
                    AudioClipModel,
                    ErrorModel,
                >(cs[k])
            &&& (forall|k: int| 0 <= k < kids.len() ==> (#[trigger] clip_at(t, kids[k])) is Ok)
                ==> track_clips(t, tr) is Ok
        },
        track_events(t, tr) is None ==> track_clips(t, tr) == Ok::<Seq<AudioClipModel>, ErrorModel>(
            Seq::empty(),
        ),
{
    if let Some(ev) = track_events(t, tr) {
        lemma_clips_from_children(t, node_end(t, ev), ev + 1, Seq::empty());
    }
}

proof fn lemma_tracks_from_children(
    t: Seq<XmlNodeModel>,
    e: int,
    j: int,
    acc: Seq<AudioTrackModel>,
)
    ensures
        tracks_from(t, e, j, acc) matches Ok(ts) ==> {
            let kids = named_children(t, e, j, "AudioTrack"@);
            &&& ts.len() == acc.len() + kids.len()
            &&& ts.subrange(0, acc.len() as int) == acc
            &&& forall|k: int|
                0 <= k < kids.len() ==> track_at(t, #[trigger] kids[k]) == Ok::<
                    AudioTrackModel,
                    ErrorModel,
                >(ts[acc.len() + k])
        },
    decreases e - j,
{
    if j < 0 || j >= e || j >= t.len() {
        assert(acc.subrange(0, acc.len() as int) =~= acc);
    } else {
        let nx = next_sibling(t, e, j);
        let kids = named_children(t, e, j, "AudioTrack"@);
        let rest = named_children(t, e, nx, "AudioTrack"@);
        if is_named(t, j, "AudioTrack"@) {
            assert(kids =~= seq![j] + rest);
            if let Ok(tr) = track_at(t, j) {
                let acc2 = acc.push(tr);
                lemma_tracks_from_children(t, e, nx, acc2);
                if let Ok(ts) = tracks_from(t, e, j, acc) {
                    assert(ts.subrange(0, acc.len() as int) =~= ts.subrange(
                        0,
                        acc2.len() as int,
                    ).subrange(0, acc.len() as int));
                    assert(ts[acc.len() as int] == acc2[acc.len() as int]);
                    assert forall|k: int| 0 <= k < kids.len() implies track_at(
                        t,
                        #[trigger] kids[k],
                    ) == Ok::<AudioTrackModel, ErrorModel>(ts[acc.len() + k]) by {
                        if k > 0 {
                            assert(kids[k] == rest[k - 1]);
                        }
                    }
                }
            }
        } else {
            lemma_tracks_from_children(t, e, nx, acc);
        }
    }
}

/// Law: the project's audio tracks are the `<AudioTrack>` children of
/// `Tracks`, one for one, in document order; other kinds of track are left
/// out.
pub proof fn law_audio_tracks_are_the_track_elements(t: Seq<XmlNodeModel>, ls: int)
    ensures
        child(t, ls, "Tracks"@) matches Some(tn) ==> (audio_tracks_of(t, ls) matches Ok(ts) ==> {
            let kids = named_children(t, node_end(t, tn), tn + 1, "AudioTrack"@);
            &&& ts.len() == kids.len()
            &&& forall|k: int|
                0 <= k < kids.len() ==> track_at(t, #[trigger] kids[k]) == Ok::<
                    AudioTrackModel,
                    ErrorModel,
                >(ts[k])
        }),
{
    if let Some(tn) = child(t, ls, "Tracks"@) {
        lemma_tracks_from_children(t, node_end(t, tn), tn + 1, Seq::empty());
    }
}

proof fn lemma_events_from_children(
    t: Seq<XmlNodeModel>,
    e: int,
    j: int,
    acc: Seq<TempoEventModel>,
)
    ensures
        events_from(t, e, j, acc) matches Ok(es) ==> {
            let kids = named_children(t, e, j, "FloatEvent"@);
            &&& es.len() == acc.len() + kids.len()
            &&& es.subrange(0, acc.len() as int) == acc
            &&& forall|k: int|
                0 <= k < kids.len() ==> attr(t, #[trigger] kids[k], "Time"@) == Some(
                    es[acc.len() + k].beat,
                ) && attr(t, kids[k], "Value"@) == Some(es[acc.len() + k].bpm)
        },
    decreases e - j,
{
    if j < 0 || j >= e || j >= t.len() {
        assert(acc.subrange(0, acc.len() as int) =~= acc);
    } else {
        let nx = next_sibling(t, e, j);
        let kids = named_children(t, e, j, "FloatEvent"@);
        let rest = named_children(t, e, nx, "FloatEvent"@);
        if is_named(t, j, "FloatEvent"@) {
            assert(kids =~= seq![j] + rest);
            if let (Some(beat), Some(bpm)) = (attr(t, j, "Time"@), attr(t, j, "Value"@)) {
                if float_error(beat) is None && float_error(bpm) is None {
                    let acc2 = acc.push(TempoEventModel { beat, bpm });
                    lemma_events_from_children(t, e, nx, acc2);
                    if let Ok(es) = events_from(t, e, j, acc) {
                        assert(es.subrange(0, acc.len() as int) =~= es.subrange(
                            0,
                            acc2.len() as int,
                        ).subrange(0, acc.len() as int));
                        assert(es[acc.len() as int] == acc2[acc.len() as int]);
                        assert forall|k: int| 0 <= k < kids.len() implies attr(
                            t,
                            #[trigger] kids[k],
                            "Time"@,
                        ) == Some(es[acc.len() + k].beat) && attr(t, kids[k], "Value"@) == Some(
                            es[acc.len() + k].bpm,
                        ) by {
                            if k > 0 {
                                assert(kids[k] == rest[k - 1]);
                            }
                        }
                    }
                }
            }
        } else {
            lemma_events_from_children(t, e, nx, acc);
        }
    }
}

/// Law: the events of a tempo envelope are its `<FloatEvent>` elements, one
/// for one, in document order: each event's beat is the element's `Time`
/// and its BPM the element's `Value`.
pub proof fn law_tempo_events_are_the_float_events(t: Seq<XmlNodeModel>, env: int)
    ensures
        automation_events_in(t, node_end(t, env), env) matches Some(ev) ==> (envelope_events(
            t,
            env,
        ) matches Ok(es) ==> {
            let kids = named_children(t, node_end(t, ev), ev + 1, "FloatEvent"@);
            &&& es.len() == kids.len()
            &&& forall|k: int|
                0 <= k < kids.len() ==> attr(t, #[trigger] kids[k], "Time"@) == Some(es[k].beat)
                    && attr(t, kids[k], "Value"@) == Some(es[k].bpm)
        }),
{
    if let Some(ev) = automation_events_in(t, node_end(t, env), env) {
        lemma_events_from_children(t, node_end(t, ev), ev + 1, Seq::empty());
    }
}

/// Whether the sample of every arrangement clip of `p` has its identity
/// among the project's sample references.
pub open spec fn clip_samples_referenced(p: ProjectModel) -> bool {
    forall|k: int, m: int|
        0 <= k < p.audio_tracks.len() && 0 <= m < p.audio_tracks[k].clips.len() ==> has_identity(
            p.all_sample_refs,
            identity_of(#[trigger] p.audio_tracks[k].clips[m].sample),
        )
}

/// Law: the project's sample references include (and supersede) the sample
/// of every arrangement clip: each clip's sample identity is among them.
pub proof fn law_clip_samples_are_referenced(t: Seq<XmlNodeModel>)
    requires
        crate::xml::nested(t),
    ensures
        project_of(t) matches Ok(p) ==> clip_samples_referenced(p),
{
    if let Ok(p) = project_of(t) {
        let root = root_element(t)->0;
        crate::xml::lemma_element_from_bounds(t, node_end(t, 0), 1);
        crate::xml::lemma_child_inside(t, root, "LiveSet"@);
        let ls = child(t, root, "LiveSet"@)->0;
        crate::xml::lemma_child_inside(t, ls, "Tracks"@);
        let tn = child(t, ls, "Tracks"@)->0;
        assert(node_end(t, tn) <= node_end(t, ls));
        lemma_tracks_from_sources(t, tn, tn + 1, Seq::empty(), ls, node_end(t, ls));
        assert forall|k: int, m: int|
            0 <= k < p.audio_tracks.len() && 0 <= m < p.audio_tracks[k].clips.len() implies has_identity(
            p.all_sample_refs,
            identity_of(#[trigger] p.audio_tracks[k].clips[m].sample),
        ) by {
            let s = p.audio_tracks[k].clips[m].sample;
            assert(clips_sourced_in(t, ls, node_end(t, ls), p.audio_tracks[k].clips));
            assert(sample_node_in(t, ls, node_end(t, ls), s));
            let sr = choose|sr: int|
                ls < sr < node_end(t, ls) && is_named(t, sr, "SampleRef"@) && #[trigger] sample_ref_at(t, sr)
                    == Some(s);
            lemma_refs_from_contains(t, node_end(t, ls), ls, Seq::empty(), sr, s);
        }
    }
}

// ----- Executable parse -----------------------------------------------------

/// A result holding a vector, seen through the views of its elements.
pub open spec fn result_views<T: View>(r: Result<Vec<T>, Error>) -> Result<Seq<T::V>, ErrorModel> {
    match r {
        Ok(v) => Ok(views(v@)),
        Err(e) => Err(e@),
    }
}

fn non_empty_text(o: Option<String>) -> (r: Option<String>)
    ensures
        opt_view(r) == non_empty(opt_view(o)),
{
    match o {
        Some(s) => if s.as_str().is_empty() {
            None
        } else {
            Some(s)
        },
        None => None,
    }
}

fn text_or_empty(o: Option<String>) -> (r: String)
    ensures
        r@ == or_empty(opt_view(o)),
{
    match o {
        Some(s) => s,
        None => String::new(),
    }
}

/// The sample a `<SampleRef>` node describes, if it has a `<FileRef>`.
fn parse_sample_ref_node(nodes: &Vec<XmlNode>, i: usize) -> (r: Option<SampleRef>)
    requires
        i < nodes@.len(),
    ensures
        option_view(r) == sample_ref_at(nodes_view(nodes@), i as int),
{
    let f = match find_child(nodes, i, "FileRef") {
        Some(f) => f,
        None => return None,
    };
    let absolute_path = non_empty_text(find_child_value_attr(nodes, f, "Path", "Value"));
    let relative_path = non_empty_text(find_child_value_attr(nodes, f, "RelativePath", "Value"));
    let name = match find_child_value_attr(nodes, f, "Name", "Value") {
        Some(n) => n,
        None => {
            let p = match &absolute_path {
                Some(a) => Some(a),
                None => relative_path.as_ref(),
            };
            match p {
                Some(p) => text_or_empty(file_name(p.as_str())),
                None => String::new(),
            }
        },
    };
    Some(SampleRef { name, absolute_path, relative_path })
}

/// The sample of an `<AudioClip>`.
fn parse_sample_ref(nodes: &Vec<XmlNode>, clip: usize) -> (r: Result<SampleRef, Error>)
    requires
        clip < nodes@.len(),
    ensures
        result_view(r) == (match child(nodes_view(nodes@), clip as int, "SampleRef"@) {
            None => Err(ErrorModel::MissingElement("AudioClip/SampleRef"@)),
            Some(sr) => match sample_ref_at(nodes_view(nodes@), sr) {
                None => Err(ErrorModel::MissingElement("SampleRef/FileRef"@)),
                Some(s) => Ok(s),
            },
        }),
{
    let sr = match find_child(nodes, clip, "SampleRef") {
        Some(sr) => sr,
        None => return Err(Error::MissingElement("AudioClip/SampleRef")),
    };
    match parse_sample_ref_node(nodes, sr) {
        Some(s) => Ok(s),
        None => Err(Error::MissingElement("SampleRef/FileRef")),
    }
}

/// The clip an `<AudioClip>` node describes.
fn parse_audio_clip(nodes: &Vec<XmlNode>, c: usize) -> (r: Result<AudioClip, Error>)
    requires
        c < nodes@.len(),
    ensures
        result_view(r) == clip_at(nodes_view(nodes@), c as int),
{
    let start_beats = match find_child_value_attr(nodes, c, "CurrentStart", "Value") {
        Some(v) => v,
        None => return Err(Error::MissingElement("AudioClip/CurrentStart")),
    };
    if let Some(fe) = float_parse_error(start_beats.as_str()) {
        return Err(Error::Malformed(concat2("invalid CurrentStart: ", fe.as_str())));
    }
    let end_beats = match find_child_value_attr(nodes, c, "CurrentEnd", "Value") {
        Some(v) => v,
        None => return Err(Error::MissingElement("AudioClip/CurrentEnd")),
    };
    if let Some(fe) = float_parse_error(end_beats.as_str()) {
        return Err(Error::Malformed(concat2("invalid CurrentEnd: ", fe.as_str())));
    }
    let name = text_or_empty(find_child_value_attr(nodes, c, "Name", "Value"));
    let sample = match parse_sample_ref(nodes, c) {
        Ok(v) => v,
        Err(e) => return Err(e),
    };
    Ok(AudioClip { name, start_beats, end_beats, sample })
}

/// The `Events` node holding a track's arrangement clips.
fn find_track_events(nodes: &Vec<XmlNode>, tr: usize) -> (r: Option<usize>)
    requires
        tr < nodes@.len(),
    ensures
        match r {
            Some(k) => track_events(nodes_view(nodes@), tr as int) == Some(k as int) && k
                < nodes@.len(),
            None => track_events(nodes_view(nodes@), tr as int) is None,
        },
{
    let a = match find_child(nodes, tr, "DeviceChain") {
        Some(v) => v,
        None => return None,
    };
    let b = match find_child(nodes, a, "MainSequencer") {
        Some(v) => v,
        None => return None,
    };
    let c = match find_child(nodes, b, "Sample") {
        Some(v) => v,
        None => return None,
    };
    let d = match find_child(nodes, c, "ArrangerAutomation") {
        Some(v) => v,
        None => return None,
    };
    find_child(nodes, d, "Events")
}

/// The arrangement clips of a track.
fn parse_track_clips(nodes: &Vec<XmlNode>, tr: usize) -> (r: Result<Vec<AudioClip>, Error>)
    requires
        tr < nodes@.len(),
    ensures
        result_views(r) == track_clips(nodes_view(nodes@), tr as int),
{
    let ghost t = nodes_view(nodes@);
    let mut clips: Vec<AudioClip> = Vec::new();
    let ev = match find_track_events(nodes, tr) {
        Some(ev) => ev,
        None => {
            proof {
                lemma_views_empty(clips@);
            }
            return Ok(clips);
        },
    };
    let e = end_of(nodes, ev);
    let mut j = ev + 1;
    proof {
        lemma_views_empty(clips@);
    }
    while j < e
        invariant
            t == nodes_view(nodes@),
            e as int == node_end(t, ev as int),
            e <= nodes@.len(),
            track_events(t, tr as int) == Some(ev as int),
            clips_from(t, e as int, j as int, views(clips@)) == clips_from(
                t,
                e as int,
                ev + 1,
                Seq::empty(),
            ),
        decreases e - j,
    {
        if named(nodes, j, "AudioClip") {
            let c = match parse_audio_clip(nodes, j) {
        Ok(v) => v,
        Err(e) => return Err(e),
    };
            proof {
                lemma_views_push(clips@, c);
            }
            clips.push(c);
        }
        j = next_of(nodes, e, j);
    }
    Ok(clips)
}

/// The track an `<AudioTrack>` node describes.
fn parse_audio_track(nodes: &Vec<XmlNode>, tr: usize) -> (r: Result<AudioTrack, Error>)
    requires
        tr < nodes@.len(),
    ensures
        result_view(r) == track_at(nodes_view(nodes@), tr as int),
{
    let id = text_or_empty(attribute(nodes, tr, "Id"));
    let name = match find_child(nodes, tr, "Name") {
        Some(n) => text_or_empty(find_child_value_attr(nodes, n, "EffectiveName", "Value")),
        None => String::new(),
    };
    let clips = match parse_track_clips(nodes, tr) {
        Ok(v) => v,
        Err(e) => return Err(e),
    };
    Ok(AudioTrack { id, name, clips })
}

/// The audio tracks of a `<LiveSet>`, in file order.
fn parse_audio_tracks(nodes: &Vec<XmlNode>, ls: usize) -> (r: Result<Vec<AudioTrack>, Error>)
    requires
        ls < nodes@.len(),
    ensures
        result_views(r) == audio_tracks_of(nodes_view(nodes@), ls as int),
{
    let ghost t = nodes_view(nodes@);
    let tn = match find_child(nodes, ls, "Tracks") {
        Some(tn) => tn,
        None => return Err(Error::MissingElement("Tracks")),
    };
    let mut tracks: Vec<AudioTrack> = Vec::new();
    let e = end_of(nodes, tn);
    let mut j = tn + 1;
    proof {
        lemma_views_empty(tracks@);
    }
    while j < e
        invariant
            t == nodes_view(nodes@),
            e as int == node_end(t, tn as int),
            e <= nodes@.len(),
            child(t, ls as int, "Tracks"@) == Some(tn as int),
            tracks_from(t, e as int, j as int, views(tracks@)) == tracks_from(
                t,
                e as int,
                tn + 1,
                Seq::empty(),
            ),
        decreases e - j,
    {
        if named(nodes, j, "AudioTrack") {
            let tr = match parse_audio_track(nodes, j) {
        Ok(v) => v,
        Err(e) => return Err(e),
    };
            proof {
                lemma_views_push(tracks@, tr);
            }
            tracks.push(tr);
        }
        j = next_of(nodes, e, j);
    }
    Ok(tracks)
}

/// The `<FloatEvent>` children of an automation `<Events>` node.
fn parse_float_events(nodes: &Vec<XmlNode>, ev: usize) -> (r: Result<Vec<TempoEvent>, Error>)
    requires
        ev < nodes@.len(),
    ensures
        result_views(r) == events_from(
            nodes_view(nodes@),
            node_end(nodes_view(nodes@), ev as int),
            ev + 1,
            Seq::empty(),
        ),
{
    let ghost t = nodes_view(nodes@);
    let mut points: Vec<TempoEvent> = Vec::new();
    let e = end_of(nodes, ev);
    let mut j = ev + 1;
    proof {
        lemma_views_empty(points@);
    }
    while j < e
        invariant
            t == nodes_view(nodes@),
            e as int == node_end(t, ev as int),
            e <= nodes@.len(),
            events_from(t, e as int, j as int, views(points@)) == events_from(
                t,
                e as int,
                ev + 1,
                Seq::empty(),
            ),
        decreases e - j,
    {
        if named(nodes, j, "FloatEvent") {
            let beat = match attribute(nodes, j, "Time") {
                Some(b) => {
                    if float_parse_error(b.as_str()).is_some() {
                        return Err(Error::Malformed("FloatEvent missing Time".to_owned()));
                    }
                    b
                },
                None => return Err(Error::Malformed("FloatEvent missing Time".to_owned())),
            };
            let bpm = match attribute(nodes, j, "Value") {
                Some(b) => {
                    if float_parse_error(b.as_str()).is_some() {
                        return Err(Error::Malformed("FloatEvent missing Value".to_owned()));
                    }
                    b
                },
                None => return Err(Error::Malformed("FloatEvent missing Value".to_owned())),
            };
            let p = TempoEvent { beat, bpm };
            proof {
                lemma_views_push(points@, p);
            }
            points.push(p);
        }
        j = next_of(nodes, e, j);
    }
    Ok(points)
}

fn is_automation_events_node(nodes: &Vec<XmlNode>, k: usize) -> (r: bool)
    requires
        k < nodes@.len(),
    ensures
        r == is_automation_events(nodes_view(nodes@), k as int),
{
    if !named(nodes, k, "Events") {
        return false;
    }
    match nodes[k].parent {
        Some(p) => p < nodes.len() && named(nodes, p, "Automation"),
        None => false,
    }
}

/// The events of an automation envelope: those of its first `<Events>` whose
/// parent is `<Automation>`, none when there is no such node.
fn parse_envelope_events(nodes: &Vec<XmlNode>, env: usize) -> (r: Result<Vec<TempoEvent>, Error>)
    requires
        env < nodes@.len(),
    ensures
        result_views(r) == envelope_events(nodes_view(nodes@), env as int),
{
    let ghost t = nodes_view(nodes@);
    let e = end_of(nodes, env);
    let mut k = env;
    while k < e
        invariant
            t == nodes_view(nodes@),
            e as int == node_end(t, env as int),
            e <= nodes@.len(),
            env <= k,
            automation_events_in(t, e as int, k as int) == automation_events_in(
                t,
                e as int,
                env as int,
            ),
        decreases e - k,
    {
        if is_automation_events_node(nodes, k) {
            return parse_float_events(nodes, k);
        }
        k = k + 1;
    }
    let v: Vec<TempoEvent> = Vec::new();
    proof {
        lemma_views_empty(v@);
    }
    Ok(v)
}

/// The `Value` of the first `<PointeeId>` in the subtree of `env`.
fn find_pointee(nodes: &Vec<XmlNode>, env: usize) -> (r: Option<String>)
    requires
        env < nodes@.len(),
    ensures
        opt_view(r) == pointee_of(nodes_view(nodes@), env as int),
{
    match find_descendant(nodes, env, "PointeeId") {
        Some(p) => attribute(nodes, p, "Value"),
        None => None,
    }
}

/// Locate the events of the tempo automation envelope on the master track
/// whose target id is `target`.
fn find_tempo_automation_events(nodes: &Vec<XmlNode>, master: usize, target: &str) -> (r: Result<
    Option<Vec<TempoEvent>>,
    Error,
>)
    requires
        master < nodes@.len(),
    ensures
        (match r {
            Ok(Some(v)) => Ok(Some(views(v@))),
            Ok(None) => Ok(None),
            Err(e) => Err(e@),
        }) == tempo_automation(nodes_view(nodes@), master as int, target@),
{
    let ghost t = nodes_view(nodes@);
    let a = match find_child(nodes, master, "AutomationEnvelopes") {
        Some(a) => a,
        None => return Ok(None),
    };
    let en = match find_child(nodes, a, "Envelopes") {
        Some(en) => en,
        None => return Ok(None),
    };
    let e = end_of(nodes, en);
    let mut j = en + 1;
    while j < e
        invariant
            t == nodes_view(nodes@),
            e as int == node_end(t, en as int),
            e <= nodes@.len(),
            child(t, master as int, "AutomationEnvelopes"@) == Some(a as int),
            child(t, a as int, "Envelopes"@) == Some(en as int),
            envelopes_from(t, e as int, j as int, target@) == envelopes_from(
                t,
                e as int,
                en + 1,
                target@,
            ),
        decreases e - j,
    {
        if named(nodes, j, "AutomationEnvelope") {
            let matches = match find_pointee(nodes, j) {
                Some(p) => str_equals(p.as_str(), target),
                None => false,
            };
            if matches {
                let evs = match parse_envelope_events(nodes, j) {
        Ok(v) => v,
        Err(e) => return Err(e),
    };
                return Ok(Some(evs));
            }
        }
        j = next_of(nodes, e, j);
    }
    Ok(None)
}

/// The tempo of a `<LiveSet>`.
fn parse_tempo(nodes: &Vec<XmlNode>, ls: usize) -> (r: Result<TempoSource, Error>)
    requires
        ls < nodes@.len(),
    ensures
        result_view(r) == tempo_of(nodes_view(nodes@), ls as int),
{
    let master = match find_child(nodes, ls, "MasterTrack") {
        Some(n) => n,
        None => return Err(Error::MissingElement("MasterTrack")),
    };
    let dc = match find_child(nodes, master, "DeviceChain") {
        Some(n) => n,
        None => return Err(Error::MissingElement("MasterTrack/DeviceChain")),
    };
    let mixer = match find_child(nodes, dc, "Mixer") {
        Some(n) => n,
        None => return Err(Error::MissingElement("MasterTrack/DeviceChain/Mixer")),
    };
    let tempo = match find_child(nodes, mixer, "Tempo") {
        Some(n) => n,
        None => return Err(Error::MissingElement("MasterTrack/DeviceChain/Mixer/Tempo")),
    };
    let manual = match find_child_value_attr(nodes, tempo, "Manual", "Value") {
        Some(v) => v,
        None => return Err(Error::MissingElement("Tempo/Manual")),
    };
    if let Some(fe) = float_parse_error(manual.as_str()) {
        return Err(Error::Malformed(concat2("invalid tempo Manual value: ", fe.as_str())));
    }
    let target = match find_child(nodes, tempo, "AutomationTarget") {
        Some(a) => attribute(nodes, a, "Id"),
        None => None,
    };
    if let Some(id) = target {
        match find_tempo_automation_events(nodes, master, id.as_str()) {
            Err(e) => return Err(e),
            Ok(Some(events)) => return Ok(TempoSource::Automated { events, fallback_bpm: manual }),
            Ok(None) => {},
        }
    }
    Ok(TempoSource::Constant { bpm: manual })
}

/// Whether some reference in `refs` has identity `id`.
fn contains_identity(refs: &Vec<SampleRef>, id: &str) -> (r: bool)
    ensures
        r == has_identity(views(refs@), id@),
{
    let ghost v = views(refs@);
    let mut k: usize = 0;
    while k < refs.len()
        invariant
            v == views(refs@),
            k <= refs@.len(),
            forall|m: int| 0 <= m < k ==> identity_of(#[trigger] v[m]) != id@,
        decreases refs@.len() - k,
    {
        if str_equals(refs[k].identity(), id) {
            assert(identity_of(v[k as int]) == id@);
            return true;
        }
        k = k + 1;
    }
    false
}

/// Walk every `<SampleRef>` under `live_set`, parse the underlying
/// `<FileRef>`, and dedupe by identity. Discovery order is preserved.
fn collect_all_sample_refs(nodes: &Vec<XmlNode>, ls: usize) -> (r: Vec<SampleRef>)
    requires
        ls < nodes@.len(),
    ensures
        views(r@) == refs_from(
            nodes_view(nodes@),
            node_end(nodes_view(nodes@), ls as int),
            ls as int,
            Seq::empty(),
        ),
{
    let ghost t = nodes_view(nodes@);
    let mut out: Vec<SampleRef> = Vec::new();
    let e = end_of(nodes, ls);
    let mut j = ls;
    proof {
        lemma_views_empty(out@);
    }
    while j < e
        invariant
            t == nodes_view(nodes@),
            e as int == node_end(t, ls as int),
            e <= nodes@.len(),
            refs_from(t, e as int, j as int, views(out@)) == refs_from(
                t,
                e as int,
                ls as int,
                Seq::empty(),
            ),
        decreases e - j,
    {
        if named(nodes, j, "SampleRef") {
            if let Some(sample) = parse_sample_ref_node(nodes, j) {
                if !contains_identity(&out, sample.identity()) {
                    proof {
                        lemma_views_push(out@, sample);
                    }
                    out.push(sample);
                }
            }
        }
        j = j + 1;
    }
    out
}

/// Interpret a parsed document as a project.
pub fn parse_nodes(nodes: &Vec<XmlNode>) -> (r: Result<Project, Error>)
    ensures
        result_view(r) == project_of(nodes_view(nodes@)),
{
    let ghost t = nodes_view(nodes@);
    let root = find_root_element(nodes);
    let root_name = match root {
        Some(k) => nodes[k].name.clone(),
        None => String::new(),
    };
    let ls = match root {
        Some(k) => {
            if !str_equals(root_name.as_str(), "Ableton") {
                return Err(
                    Error::Malformed(
                        concat3("expected root <Ableton>, got <", root_name.as_str(), ">"),
                    ),
                );
            }
            match find_child(nodes, k, "LiveSet") {
                Some(ls) => ls,
                None => return Err(Error::MissingElement("LiveSet")),
            }
        },
        None => {
            return Err(
                Error::Malformed(concat3("expected root <Ableton>, got <", root_name.as_str(), ">")),
            )
        },
    };
    let tempo = match parse_tempo(nodes, ls) {
        Ok(v) => v,
        Err(e) => return Err(e),
    };
    let audio_tracks = match parse_audio_tracks(nodes, ls) {
        Ok(v) => v,
        Err(e) => return Err(e),
    };
    let all_sample_refs = collect_all_sample_refs(nodes, ls);
    Ok(Project { tempo, audio_tracks, all_sample_refs })
}

/// Parse the decompressed Ableton Live `.als` XML into a [`Project`].
pub fn parse(xml: &str) -> (r: Result<Project, Error>)
    ensures
        result_view(r) == parsed_project(xml@),
        r matches Ok(p) ==> clip_samples_referenced(p@),
{
    let nodes = match parse_xml(xml) {
        Ok(v) => v,
        Err(m) => return Err(Error::Xml(m)),
    };
    proof {
        law_clip_samples_are_referenced(nodes_view(nodes@));
    }
    parse_nodes(&nodes)
}

} // verus!
