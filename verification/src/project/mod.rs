//! The project model: audio tracks, their arrangement clips, and every
//! sample the project references.
//!
//! Beat positions and tempo values are kept as the decimal text the project
//! file holds; they have been checked to parse as numbers.

pub mod loader;
pub mod parser;

use vstd::prelude::*;

use crate::text::{clone_opt, opt_view};
use crate::paths::{file_name, path_file_name};
use crate::seqs::{lemma_views_push, views};

verus! {

/// A reference to a sample file.
#[derive(Debug, Clone, PartialEq, Eq, Hash)]
pub struct SampleRef {
    pub name: String,
    pub absolute_path: Option<String>,
    pub relative_path: Option<String>,
}

/// The mathematical form of a sample reference.
pub struct SampleRefModel {
    pub name: Seq<char>,
    pub absolute_path: Option<Seq<char>>,
    pub relative_path: Option<Seq<char>>,
}

impl View for SampleRef {
    type V = SampleRefModel;

    open spec fn view(&self) -> SampleRefModel {
        SampleRefModel {
            name: self.name@,
            absolute_path: opt_view(self.absolute_path),
            relative_path: opt_view(self.relative_path),
        }
    }
}

/// Identity used for deduplication: the absolute path, else the relative
/// path, else the name.
pub open spec fn identity_of(s: SampleRefModel) -> Seq<char> {
    match s.absolute_path {
        Some(p) => p,
        None => match s.relative_path {
            Some(p) => p,
            None => s.name,
        },
    }
}

/// The label shown for a sample: with `full_paths`, the absolute path, else
/// the relative path when known; otherwise the final component of the
/// absolute path, else of the relative path, else the name.
pub open spec fn display_label_of(s: SampleRefModel, full_paths: bool) -> Seq<char> {
    if full_paths && s.absolute_path is Some {
        s.absolute_path->0
    } else if full_paths && s.relative_path is Some {
        s.relative_path->0
    } else if s.absolute_path is Some && path_file_name(s.absolute_path->0) is Some {
        path_file_name(s.absolute_path->0)->0
    } else if s.relative_path is Some && path_file_name(s.relative_path->0) is Some {
        path_file_name(s.relative_path->0)->0
    } else {
        s.name
    }
}

/// Law: a sample is known by its absolute path when it has one, else by its
/// relative path, else by its name; and with full paths requested its label
/// is the absolute path when known, else the relative path when known.
pub proof fn law_identity_prefers_absolute_then_relative(s: SampleRefModel)
    ensures
        s.absolute_path matches Some(a) ==> identity_of(s) == a,
        s.absolute_path is None && s.relative_path is Some ==> identity_of(s) == s.relative_path->0,
        (s.absolute_path is None && s.relative_path is None) ==> identity_of(s) == s.name,
        s.absolute_path matches Some(a) ==> display_label_of(s, true) == a,
        s.absolute_path is None && s.relative_path is Some ==> display_label_of(s, true)
            == s.relative_path->0,
        (s.absolute_path is None && s.relative_path is None) ==> display_label_of(s, true)
            == s.name && display_label_of(s, false) == s.name,
{
}

impl SampleRef {
    /// Stable identity used for deduplication. Prefers absolute path, falls
    /// back to relative path, finally to the sample's name.
    pub fn identity(&self) -> (r: &str)
        ensures
            r@ == identity_of(self@),
    {
        if let Some(p) = self.absolute_path.as_ref() {
            return p.as_str();
        }
        if let Some(p) = self.relative_path.as_ref() {
            return p.as_str();
        }
        self.name.as_str()
    }

    /// Display label for output. With `full_paths=true`, returns the absolute
    /// path string when known; otherwise returns the file basename.
    pub fn display_label(&self, full_paths: bool) -> (r: String)
        ensures
            r@ == display_label_of(self@, full_paths),
    {
        if full_paths {
            if let Some(p) = self.absolute_path.as_ref() {
                return p.clone();
            }
            if let Some(p) = self.relative_path.as_ref() {
                return p.clone();
            }
        }
        if let Some(p) = self.absolute_path.as_ref() {
            if let Some(name) = file_name(p.as_str()) {
                return name;
            }
        }
        if let Some(p) = self.relative_path.as_ref() {
            if let Some(name) = file_name(p.as_str()) {
                return name;
            }
        }
        self.name.clone()
    }
}

/// An arrangement-view audio clip. Positions are the decimal text of the
/// project file, in beats.
#[derive(Debug, Clone, PartialEq)]
pub struct AudioClip {
    pub name: String,
    pub start_beats: String,
    pub end_beats: String,
    pub sample: SampleRef,
}

pub struct AudioClipModel {
    pub name: Seq<char>,
    pub start_beats: Seq<char>,
    pub end_beats: Seq<char>,
    pub sample: SampleRefModel,
}

impl View for AudioClip {
    type V = AudioClipModel;

    open spec fn view(&self) -> AudioClipModel {
        AudioClipModel {
            name: self.name@,
            start_beats: self.start_beats@,
            end_beats: self.end_beats@,
            sample: self.sample@,
        }
    }
}

/// An audio track and its arrangement clips, in file order.
#[derive(Debug, Clone, PartialEq)]
pub struct AudioTrack {
    pub id: String,
    pub name: String,
    pub clips: Vec<AudioClip>,
}

pub struct AudioTrackModel {
    pub id: Seq<char>,
    pub name: Seq<char>,
    pub clips: Seq<AudioClipModel>,
}

impl View for AudioTrack {
    type V = AudioTrackModel;

    open spec fn view(&self) -> AudioTrackModel {
        AudioTrackModel {
            id: self.id@,
            name: self.name@,
            clips: views(self.clips@),
        }
    }
}

/// One point of a tempo automation envelope: a beat position and a BPM
/// value, as decimal text.
#[derive(Debug, Clone, PartialEq)]
pub struct TempoEvent {
    pub beat: String,
    pub bpm: String,
}

pub struct TempoEventModel {
    pub beat: Seq<char>,
    pub bpm: Seq<char>,
}

impl View for TempoEvent {
    type V = TempoEventModel;

    open spec fn view(&self) -> TempoEventModel {
        TempoEventModel { beat: self.beat@, bpm: self.bpm@ }
    }
}

/// Where the project's tempo comes from: a single manual BPM, or the events
/// of the tempo automation envelope together with the manual BPM used when no
/// event sets the initial value.
#[derive(Debug, Clone, PartialEq)]
pub enum TempoSource {
    Constant { bpm: String },
    Automated { events: Vec<TempoEvent>, fallback_bpm: String },
}

pub enum TempoSourceModel {
    Constant { bpm: Seq<char> },
    Automated { events: Seq<TempoEventModel>, fallback_bpm: Seq<char> },
}

impl View for TempoSource {
    type V = TempoSourceModel;

    open spec fn view(&self) -> TempoSourceModel {
        match self {
            TempoSource::Constant { bpm } => TempoSourceModel::Constant { bpm: bpm@ },
            TempoSource::Automated { events, fallback_bpm } => TempoSourceModel::Automated {
                events: views(events@),
                fallback_bpm: fallback_bpm@,
            },
        }
    }
}

/// A parsed project.
#[derive(Debug, Clone, PartialEq)]
pub struct Project {
    pub tempo: TempoSource,
    pub audio_tracks: Vec<AudioTrack>,
    /// Every `<SampleRef>` in the document, deduped by identity, in discovery
    /// order. Covers clip samples as well as instrument samples (Sampler,
    /// Simpler, Impulse), drum racks, convolution IRs, etc.
    pub all_sample_refs: Vec<SampleRef>,
}

pub struct ProjectModel {
    pub tempo: TempoSourceModel,
    pub audio_tracks: Seq<AudioTrackModel>,
    pub all_sample_refs: Seq<SampleRefModel>,
}

impl View for Project {
    type V = ProjectModel;

    open spec fn view(&self) -> ProjectModel {
        ProjectModel {
            tempo: self.tempo@,
            audio_tracks: views(self.audio_tracks@),
            all_sample_refs: views(self.all_sample_refs@),
        }
    }
}

/// Every audio clip across all tracks, in track order then clip order.
pub open spec fn all_clips_of(tracks: Seq<AudioTrackModel>) -> Seq<AudioClipModel>
    decreases tracks.len(),
{
    if tracks.len() == 0 {
        Seq::empty()
    } else {
        all_clips_of(tracks.drop_last()) + tracks.last().clips
    }
}

impl SampleRef {
    /// A copy of this reference.
    pub fn duplicate(&self) -> (r: SampleRef)
        ensures
            r@ == self@,
    {
        SampleRef {
            name: self.name.clone(),
            absolute_path: clone_opt(&self.absolute_path),
            relative_path: clone_opt(&self.relative_path),
        }
    }
}

impl AudioClip {
    /// A copy of this clip.
    pub fn duplicate(&self) -> (r: AudioClip)
        ensures
            r@ == self@,
    {
        AudioClip {
            name: self.name.clone(),
            start_beats: self.start_beats.clone(),
            end_beats: self.end_beats.clone(),
            sample: self.sample.duplicate(),
        }
    }
}

impl Project {
    /// All audio clips across all tracks, in track order then clip order.
    pub fn all_clips(&self) -> (r: Vec<AudioClip>)
        ensures
            views(r@) == all_clips_of(self@.audio_tracks),
    {
        let mut r: Vec<AudioClip> = Vec::new();
        let mut k: usize = 0;
        while k < self.audio_tracks.len()
            invariant
                k <= self.audio_tracks@.len(),
                views(r@) == all_clips_of(
                    self@.audio_tracks.subrange(0, k as int),
                ),
            decreases self.audio_tracks@.len() - k,
        {
            let clips = &self.audio_tracks[k].clips;
            let ghost before = views(r@);
            let mut m: usize = 0;
            while m < clips.len()
                invariant
                    m <= clips@.len(),
                    views(r@) == before + views(clips@.subrange(0, m as int)),
                decreases clips@.len() - m,
            {
                let ghost prev = r@;
                let item = clips[m].duplicate();
                r.push(item);
                proof {
                    lemma_views_push(prev, item);
                    assert(clips@.subrange(0, m + 1) =~= clips@.subrange(0, m as int).push(
                        clips@[m as int],
                    ));
                    lemma_views_push(clips@.subrange(0, m as int), clips@[m as int]);
                }
                m = m + 1;
            }
            proof {
                let pre = self@.audio_tracks.subrange(0, k + 1);
                assert(pre.drop_last() =~= self@.audio_tracks.subrange(0, k as int));
                assert(clips@.subrange(0, m as int) =~= clips@);
            }
            k = k + 1;
        }
        assert(self@.audio_tracks.subrange(0, k as int) =~= self@.audio_tracks);
        r
    }
}

} // verus!
