use ableton_cli::commands::tracklist::metadata::TrackMetadata;
use ableton_cli::commands::tracklist::template::{Field, Template};

fn meta_minimal() -> TrackMetadata {
    TrackMetadata::for_test("song", None)
}

fn meta_full() -> TrackMetadata {
    let mut m = TrackMetadata::for_test("song", Some("/proj/song.mp3".into()));
    m.artist = Some("Alice".into());
    m.title = Some("Track One".into());
    m.album = Some("Album X".into());
    m.album_artist = Some("Alice & Friends".into());
    m.year = Some("2024".into());
    m.track = Some("3".into());
    m.genre = Some("House".into());
    m.composer = Some("Alice".into());
    m.comment = Some("note".into());
    m
}

#[test]
fn parses_and_renders_artist_title() {
    let t = Template::parse("{ARTIST} - {TITLE}");
    assert_eq!(t.render(&meta_full()), "Alice - Track One");
}

#[test]
fn renders_with_missing_title_falls_back_to_artist_only() {
    let mut m = meta_full();
    m.title = None;
    let t = Template::parse("{ARTIST} - {TITLE}");
    assert_eq!(t.render(&m), "Alice");
}

#[test]
fn renders_with_no_metadata_falls_back_to_filename() {
    let t = Template::parse("{ARTIST} - {TITLE}");
    assert_eq!(t.render(&meta_minimal()), "song");
}

#[test]
fn renders_leading_separator_after_empty_field_is_stripped() {
    let mut m = meta_full();
    m.album = None;
    let t = Template::parse("{ALBUM} | {ARTIST} - {TITLE}");
    assert_eq!(t.render(&m), "Alice - Track One");
}

#[test]
fn renders_interior_empty_field_collapses() {
    let mut m = meta_full();
    m.album = None;
    let t = Template::parse("{ARTIST} - {ALBUM} - {TITLE}");
    assert_eq!(t.render(&m), "Alice - Track One");
}

#[test]
fn renders_trailing_separator_after_empty_field_is_stripped() {
    let mut m = meta_full();
    m.title = None;
    m.album = None;
    let t = Template::parse("{ARTIST} - {TITLE} - {ALBUM}");
    assert_eq!(t.render(&m), "Alice");
}

#[test]
fn renders_case_insensitive_tokens() {
    let t = Template::parse("{artist} - {Title}");
    assert_eq!(t.render(&meta_full()), "Alice - Track One");
}

#[test]
fn renders_unknown_token_as_empty() {
    let mut m = meta_full();
    m.title = None;
    let t = Template::parse("{ARTIST}{FOO}");
    assert_eq!(t.render(&m), "Alice");
}

#[test]
fn renders_adjacent_tokens_without_separator() {
    let t = Template::parse("{ARTIST}{TITLE}");
    assert_eq!(t.render(&meta_full()), "AliceTrack One");
}

#[test]
fn renders_literal_braces_when_no_valid_token() {
    let t = Template::parse("{notavalidtoken{ARTIST}");
    // `{notavalidtoken` is preserved as a literal; the trailing `{ARTIST}`
    // is a valid token.
    assert_eq!(t.render(&meta_full()), "{notavalidtokenAlice");
}

#[test]
fn renders_unterminated_token_as_literal() {
    let t = Template::parse("hello {ARTIST");
    assert_eq!(t.render(&meta_full()), "hello {ARTIST");
}

#[test]
fn renders_path_token() {
    let t = Template::parse("{PATH}");
    assert_eq!(t.render(&meta_full()), "/proj/song.mp3");
}

#[test]
fn renders_filename_token_always_populated() {
    let t = Template::parse("{FILENAME}");
    assert_eq!(t.render(&meta_full()), "song");
}

#[test]
fn renders_empty_template_falls_back_to_filename() {
    let t = Template::parse("");
    assert_eq!(t.render(&meta_full()), "song");
}

#[test]
fn renders_year_and_track_tokens() {
    let t = Template::parse("{TRACK}. {ARTIST} ({YEAR})");
    assert_eq!(t.render(&meta_full()), "3. Alice (2024)");
}

#[test]
fn field_names_are_case_insensitive_and_exhaustive() {
    assert_eq!(Field::from_name("artist"), Field::Artist);
    assert_eq!(Field::from_name("Title"), Field::Title);
    assert_eq!(Field::from_name("ALBUM"), Field::Album);
    assert_eq!(Field::from_name("albumArtist"), Field::AlbumArtist);
    assert_eq!(Field::from_name("year"), Field::Year);
    assert_eq!(Field::from_name("track"), Field::Track);
    assert_eq!(Field::from_name("genre"), Field::Genre);
    assert_eq!(Field::from_name("composer"), Field::Composer);
    assert_eq!(Field::from_name("comment"), Field::Comment);
    assert_eq!(Field::from_name("filename"), Field::Filename);
    assert_eq!(Field::from_name("path"), Field::Path);
    assert_eq!(Field::from_name("ALBUM_ARTIST"), Field::Unknown);
    assert_eq!(Field::from_name(""), Field::Unknown);
}

#[test]
fn token_names_must_start_with_a_letter() {
    // `{1}` stays literal text; `{_x}` too.
    let t = Template::parse("{1} {_x} {ARTIST}");
    assert_eq!(t.render(&meta_full()), "{1} {_x} Alice");
}

#[test]
fn interior_run_without_empty_field_is_kept_verbatim() {
    let t = Template::parse("{ARTIST} --  {TITLE}");
    assert_eq!(t.render(&meta_full()), "Alice --  Track One");
}

#[test]
fn interior_run_with_empty_field_keeps_first_mark() {
    let mut m = meta_full();
    m.album = None;
    let t = Template::parse("{ARTIST} ,{ALBUM}| {TITLE}");
    assert_eq!(t.render(&m), "Alice , Track One");
    let t = Template::parse("{ARTIST}  {ALBUM}  {TITLE}");
    assert_eq!(t.render(&m), "Alice Track One");
}

#[test]
fn empty_field_value_counts_as_missing() {
    let mut m = meta_full();
    m.title = Some(String::new());
    let t = Template::parse("{ARTIST} - {TITLE}");
    assert_eq!(t.render(&m), "Alice");
}

#[test]
fn separators_only_template_falls_back_to_filename() {
    // Law: when everything is separators or empty fields, the filename wins.
    let t = Template::parse(" - {ALBUM} | ");
    assert_eq!(t.render(&meta_minimal()), "song");
}

#[test]
fn cleaned_label_never_starts_or_ends_with_separator() {
    let mut m = meta_full();
    m.artist = None;
    m.comment = None;
    let t = Template::parse("-- {ARTIST} ; {TITLE} ; {COMMENT} --");
    let out = t.render(&m);
    assert_eq!(out, "Track One");
    assert!(!out.contains('\u{1}'));
}

#[test]
fn path_characters_are_not_separators() {
    let t = Template::parse("{PATH}: {ARTIST}");
    assert_eq!(t.render(&meta_full()), "/proj/song.mp3: Alice");
}

#[test]
fn token_names_differing_in_case_parse_alike() {
    assert_eq!(Template::parse("{artist} - {Title}"), Template::parse("{ARTIST} - {TITLE}"));
    assert_eq!(Template::parse("x{aLbUm_1}y"), Template::parse("x{ALBUM_1}y"));
    assert_ne!(Template::parse("{artist}"), Template::parse("{artists}"));
}

#[test]
fn pieces_follow_the_token_occurrences() {
    // `{1x}` and `{a b}` are not tokens and stay in the literal text.
    let t = Template::parse("{1x}{a b}[{TITLE}]{ARTIST}");
    let m = meta_full();
    assert_eq!(t.render(&m), "{1x}{a b}[Track One]Alice");
    assert_eq!(Template::parse("no tokens here").render(&m), "no tokens here");
}

#[test]
fn cleaning_a_rendered_label_again_changes_nothing() {
    let mut m = meta_full();
    m.album = None;
    let label = Template::parse(" - {ARTIST} -- {ALBUM} | {TITLE} ,").render(&m);
    assert_eq!(label, "Alice - Track One");
    assert_eq!(Template::parse(&label).render(&m), label);
}

#[test]
fn an_interior_run_with_an_empty_field_becomes_one_separator() {
    let mut m = meta_full();
    m.album = None;
    assert_eq!(Template::parse("{ARTIST} ,{ALBUM}; {TITLE}").render(&m), "Alice , Track One");
    assert_eq!(Template::parse("{ARTIST}  {ALBUM}\t{TITLE}").render(&m), "Alice Track One");
}
