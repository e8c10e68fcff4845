use ableton_cli::project::{AudioClip, AudioTrack, Project, SampleRef, TempoSource};

fn sample(abs: Option<&str>, rel: Option<&str>, name: &str) -> SampleRef {
    SampleRef {
        name: name.to_string(),
        absolute_path: abs.map(String::from),
        relative_path: rel.map(String::from),
    }
}

#[test]
fn identity_prefers_absolute_path() {
    let s = sample(Some("/a/b.wav"), Some("b.wav"), "b.wav");
    assert_eq!(s.identity(), "/a/b.wav");
}

#[test]
fn identity_falls_back_to_relative_then_name() {
    let s = sample(None, Some("b.wav"), "b.wav");
    assert_eq!(s.identity(), "b.wav");
    let s = sample(None, None, "only-name");
    assert_eq!(s.identity(), "only-name");
}

#[test]
fn display_label_basename_default() {
    let s = sample(Some("/a/b.wav"), None, "b.wav");
    assert_eq!(s.display_label(false), "b.wav");
}

#[test]
fn display_label_full_path_when_requested() {
    let s = sample(Some("/a/b.wav"), None, "b.wav");
    assert_eq!(s.display_label(true), "/a/b.wav");
}

#[test]
fn display_label_full_path_falls_back_to_relative() {
    let s = sample(None, Some("rel/b.wav"), "b.wav");
    assert_eq!(s.display_label(true), "rel/b.wav");
}

#[test]
fn display_label_falls_back_to_name_when_no_paths() {
    let s = sample(None, None, "synthetic");
    assert_eq!(s.display_label(false), "synthetic");
    assert_eq!(s.display_label(true), "synthetic");
}

#[test]
fn display_label_uses_basename_of_relative_path() {
    // The basename comes from the path, not from the name.
    let s = sample(None, Some("Samples/Imported/kick.wav"), "other-name");
    assert_eq!(s.display_label(false), "kick.wav");
}

#[test]
fn display_label_falls_back_to_relative_when_absolute_has_no_file_name() {
    let s = sample(Some("/"), Some("rel/x.wav"), "n");
    assert_eq!(s.display_label(false), "x.wav");
}

#[test]
fn identity_of_empty_sample_is_empty_name() {
    let s = sample(None, None, "");
    assert_eq!(s.identity(), "");
}

#[test]
fn all_clips_keeps_track_then_clip_order() {
    let clip = |name: &str| AudioClip {
        name: name.to_string(),
        start_beats: "0".to_string(),
        end_beats: "4".to_string(),
        sample: sample(Some("/a.wav"), None, "a.wav"),
    };
    let project = Project {
        tempo: TempoSource::Constant { bpm: "120".to_string() },
        audio_tracks: vec![
            AudioTrack { id: "1".into(), name: "t1".into(), clips: vec![clip("a"), clip("b")] },
            AudioTrack { id: "2".into(), name: "t2".into(), clips: vec![] },
            AudioTrack { id: "3".into(), name: "t3".into(), clips: vec![clip("c")] },
        ],
        all_sample_refs: vec![],
    };
    let names: Vec<String> = project.all_clips().into_iter().map(|c| c.name).collect();
    assert_eq!(names, vec!["a", "b", "c"]);
}
