use ableton_cli::commands::tracklist::metadata::TrackMetadata;
use ableton_cli::commands::tracklist::{
    first_occurrences, format_timestamp_ms, format_tracklist, resolve_template, Tracklist,
    TracklistEntry, TracklistOptions,
};
use ableton_cli::project::SampleRef;

#[test]
fn resolve_template_defaults_to_artist_title() {
    let opts = TracklistOptions {
        project_path: String::new(),
        output: None,
        full_paths: false,
        track_template: None,
    };
    let t = resolve_template(&opts);
    // Render with empty metadata → falls back to filename.
    let m = TrackMetadata::for_test("song", None);
    assert_eq!(t.render(&m), "song");
}

#[test]
fn resolve_template_full_paths_uses_path_token() {
    let opts = TracklistOptions {
        project_path: String::new(),
        output: None,
        full_paths: true,
        track_template: None,
    };
    let t = resolve_template(&opts);
    let m = TrackMetadata::for_test("song", Some("/proj/song.mp3".into()));
    assert_eq!(t.render(&m), "/proj/song.mp3");
}

#[test]
fn resolve_template_user_supplied_overrides_default() {
    let opts = TracklistOptions {
        project_path: String::new(),
        output: None,
        full_paths: false,
        track_template: Some("{FILENAME}".into()),
    };
    let t = resolve_template(&opts);
    let m = TrackMetadata::for_test("song", None);
    assert_eq!(t.render(&m), "song");
}

#[test]
fn resolve_template_default_renders_artist_title() {
    let opts = TracklistOptions {
        project_path: String::new(),
        output: None,
        full_paths: false,
        track_template: None,
    };
    let mut m = TrackMetadata::for_test("song", None);
    m.artist = Some("Bob".into());
    m.title = Some("Track Two".into());
    assert_eq!(resolve_template(&opts).render(&m), "Bob - Track Two");
}

#[test]
fn format_tracklist_matches_expected_layout() {
    let tl = Tracklist {
        entries: vec![
            TracklistEntry { index: 1, start_ms: 0, label: "sometrack.mp3".into() },
            TracklistEntry { index: 2, start_ms: 1300, label: "sometrack2.m4a".into() },
            TracklistEntry { index: 3, start_ms: 3236, label: "somtrakc3.wav".into() },
        ],
        total_ms: 6303,
    };
    let formatted = format_tracklist(&tl);
    let expected = "1. 00:00:000 - sometrack.mp3\n\
        2. 00:01:300 - sometrack2.m4a\n\
        3. 00:03:236 - somtrakc3.wav\n\
        \n\
        Total Length: 00:06:303\n";
    assert_eq!(formatted, expected);
}

#[test]
fn format_tracklist_empty_has_only_total() {
    let tl = Tracklist { entries: vec![], total_ms: 0 };
    assert_eq!(format_tracklist(&tl), "\nTotal Length: 00:00:000\n");
}

#[test]
fn timestamp_ms_basic() {
    assert_eq!(format_timestamp_ms(0), "00:00:000");
    assert_eq!(format_timestamp_ms(1300), "00:01:300");
    assert_eq!(format_timestamp_ms(63236), "01:03:236");
}

#[test]
fn timestamp_ms_long_durations_grow_minutes() {
    // 100 minutes 1 second 5 ms.
    assert_eq!(format_timestamp_ms(100 * 60_000 + 1005), "100:01:005");
    assert_eq!(format_timestamp_ms(59_999), "00:59:999");
}

fn sample(abs: Option<&str>, rel: Option<&str>, name: &str) -> SampleRef {
    SampleRef {
        name: name.to_string(),
        absolute_path: abs.map(String::from),
        relative_path: rel.map(String::from),
    }
}

#[test]
fn first_occurrences_keep_first_of_each_identity() {
    let samples = vec![
        sample(Some("/a.wav"), None, "a.wav"),
        sample(Some("/a.wav"), Some("x"), "other"),
        sample(Some("/b.wav"), None, "b.wav"),
        sample(None, Some("/a.wav"), "a.wav"),
        sample(None, None, "/b.wav"),
        sample(None, None, "c"),
    ];
    assert_eq!(first_occurrences(&samples), vec![0, 2, 5]);
    assert_eq!(first_occurrences(&vec![]), Vec::<usize>::new());
}

#[test]
fn numbered_tracklist_counts_from_one() {
    let tl = Tracklist::numbered(vec![(0, "a".into()), (500, "b".into())], 900);
    assert_eq!(tl.total_ms, 900);
    assert_eq!(
        tl.entries,
        vec![
            TracklistEntry { index: 1, start_ms: 0, label: "a".into() },
            TracklistEntry { index: 2, start_ms: 500, label: "b".into() },
        ]
    );
}

#[test]
fn full_paths_renders_like_the_path_template() {
    let full = TracklistOptions {
        project_path: String::new(),
        output: None,
        full_paths: true,
        track_template: None,
    };
    let explicit = TracklistOptions {
        project_path: String::new(),
        output: Some("/out.txt".into()),
        full_paths: false,
        track_template: Some("{PATH}".into()),
    };
    let mut m = TrackMetadata::for_test("song", Some("/proj/song.mp3".into()));
    m.artist = Some("Bob".into());
    assert_eq!(resolve_template(&full).render(&m), resolve_template(&explicit).render(&m));
    assert_eq!(resolve_template(&full).render(&m), "/proj/song.mp3");
}
