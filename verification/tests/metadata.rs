use ableton_cli::commands::tracklist::metadata::{
    choose_tags, clean_string, derive_filename, derive_path, extract_from_file, extract_with_tags, RawTags,
};
use ableton_cli::project::SampleRef;

fn sample_with_paths(name: &str, abs: Option<&str>, rel: Option<&str>) -> SampleRef {
    SampleRef {
        name: name.to_string(),
        absolute_path: abs.map(String::from),
        relative_path: rel.map(String::from),
    }
}

#[test]
fn filename_from_absolute_path_strips_extension() {
    let s = sample_with_paths("ignored", Some("/proj/track.mp3"), None);
    let m = extract_with_tags(&s, None);
    assert_eq!(m.filename, "track");
}

#[test]
fn filename_from_relative_path_when_no_absolute() {
    let s = sample_with_paths("ignored", None, Some("Samples/clip.wav"));
    let m = extract_with_tags(&s, None);
    assert_eq!(m.filename, "clip");
}

#[test]
fn filename_falls_back_to_name_when_no_paths() {
    let s = sample_with_paths("just.flac", None, None);
    let m = extract_with_tags(&s, None);
    assert_eq!(m.filename, "just");
}

#[test]
fn filename_falls_back_to_name_without_extension() {
    let s = sample_with_paths("plain_name", None, None);
    let m = extract_with_tags(&s, None);
    assert_eq!(m.filename, "plain_name");
}

#[test]
fn path_prefers_absolute_over_relative() {
    let s = sample_with_paths("x", Some("/a/b.mp3"), Some("rel/b.mp3"));
    let m = extract_with_tags(&s, None);
    assert_eq!(m.path.as_deref(), Some("/a/b.mp3"));
}

#[test]
fn path_uses_relative_when_no_absolute() {
    let s = sample_with_paths("x", None, Some("rel/b.mp3"));
    let m = extract_with_tags(&s, None);
    assert_eq!(m.path.as_deref(), Some("rel/b.mp3"));
}

#[test]
fn extract_returns_tagless_when_file_missing() {
    let s = sample_with_paths("ignored", Some("/definitely/does/not/exist.mp3"), None);
    let m = extract_with_tags(&s, None);
    assert_eq!(m.filename, "exist");
    assert!(m.artist.is_none());
    assert!(m.title.is_none());
}

#[test]
fn clean_string_trims_and_drops_empty() {
    assert_eq!(clean_string(Some("  Alice  ".into())).as_deref(), Some("Alice"));
    assert_eq!(clean_string(Some("   ".into())), None);
    assert_eq!(clean_string(Some("".into())), None);
    assert_eq!(clean_string(None), None);
}

#[test]
fn clean_string_trims_unicode_white_space_only() {
    assert_eq!(
        clean_string(Some("\u{3000}\tBob\u{a0}\n".into())).as_deref(),
        Some("Bob")
    );
    assert_eq!(clean_string(Some("\u{200b}x".into())).as_deref(), Some("\u{200b}x"));
}

#[test]
fn tags_are_cleaned_field_by_field() {
    let s = sample_with_paths("n", Some("/p/song.wav"), None);
    let tags = RawTags {
        artist: Some(" Alice ".into()),
        title: Some("Track One".into()),
        album: Some("   ".into()),
        year: Some(2024),
        track: Some(7),
        ..RawTags::default()
    };
    let m = extract_with_tags(&s, Some(&tags));
    assert_eq!(m.artist.as_deref(), Some("Alice"));
    assert_eq!(m.title.as_deref(), Some("Track One"));
    assert_eq!(m.album, None);
    assert_eq!(m.year.as_deref(), Some("2024"));
    assert_eq!(m.track.as_deref(), Some("7"));
    assert_eq!(m.genre, None);
    assert_eq!(m.filename, "song");
    assert_eq!(m.path.as_deref(), Some("/p/song.wav"));
}

#[test]
fn derive_helpers_follow_path_preference() {
    let s = sample_with_paths("name.aif", Some("/a/x.wav"), Some("r/y.wav"));
    assert_eq!(derive_filename(&s), "x");
    assert_eq!(derive_path(&s).as_deref(), Some("/a/x.wav"));
    let s = sample_with_paths("name.aif", None, None);
    assert_eq!(derive_filename(&s), "name");
    assert_eq!(derive_path(&s), None);
}

fn chunk(id: &[u8; 4], body: &[u8]) -> Vec<u8> {
    let mut out = id.to_vec();
    out.extend_from_slice(&(body.len() as u32).to_le_bytes());
    out.extend_from_slice(body);
    if body.len() % 2 == 1 {
        out.push(0);
    }
    out
}

/// A tiny PCM WAV file whose RIFF INFO list names an artist and a title.
fn tagged_wav(artist: &str, title: &str) -> Vec<u8> {
    let mut fmt = Vec::new();
    fmt.extend_from_slice(&1u16.to_le_bytes());
    fmt.extend_from_slice(&1u16.to_le_bytes());
    fmt.extend_from_slice(&44100u32.to_le_bytes());
    fmt.extend_from_slice(&88200u32.to_le_bytes());
    fmt.extend_from_slice(&2u16.to_le_bytes());
    fmt.extend_from_slice(&16u16.to_le_bytes());
    let mut info = b"INFO".to_vec();
    info.extend(chunk(b"IART", format!("{artist}\0").as_bytes()));
    info.extend(chunk(b"INAM", format!("{title}\0").as_bytes()));
    let mut body = b"WAVE".to_vec();
    body.extend(chunk(b"fmt ", &fmt));
    body.extend(chunk(b"data", &[0u8; 4]));
    body.extend(chunk(b"LIST", &info));
    chunk(b"RIFF", &body)
}

#[test]
fn extract_from_file_reads_tags_from_the_bytes() {
    let s = sample_with_paths("n", Some("/p/song.wav"), None);
    let bytes = tagged_wav(" Alice ", "Track One");
    let m = extract_from_file(&s, Some(("/p/song.wav", &bytes)));
    assert_eq!(m.artist.as_deref(), Some("Alice"));
    assert_eq!(m.title.as_deref(), Some("Track One"));
    assert_eq!(m.album, None);
    assert_eq!(m.filename, "song");
    assert_eq!(m.path.as_deref(), Some("/p/song.wav"));
}

#[test]
fn extract_from_file_without_readable_tags_keeps_filename_only() {
    let s = sample_with_paths("n", Some("/p/song.wav"), None);
    let garbage = b"not audio at all".to_vec();
    for file in [None, Some(("/p/song.wav", garbage.as_slice())), Some(("/p/song.xyz", garbage.as_slice()))] {
        let m = extract_from_file(&s, file);
        assert_eq!(m.artist, None);
        assert_eq!(m.title, None);
        assert_eq!(m.filename, "song");
        assert_eq!(m.path.as_deref(), Some("/p/song.wav"));
    }
}

#[test]
fn primary_tag_wins_over_first_tag() {
    let primary = RawTags { artist: Some("P".into()), ..RawTags::default() };
    let first = RawTags { artist: Some("F".into()), ..RawTags::default() };
    assert_eq!(choose_tags(Some(primary.clone()), Some(first.clone())), Some(primary));
    assert_eq!(choose_tags(None, Some(first.clone())), Some(first));
    assert_eq!(choose_tags(None, None), None);
}
