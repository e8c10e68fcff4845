use std::io::Write;

use ableton_cli::error::Error;
use ableton_cli::project::loader::{
    decode_als, has_als_extension, is_als_extension, resolve_als_target, DirEntryInfo, PathKind,
};
use flate2::write::GzEncoder;
use flate2::Compression;

fn entry(path: &str, is_file: bool) -> Result<DirEntryInfo, String> {
    Ok(DirEntryInfo { path: path.to_string(), is_file })
}

#[test]
fn als_extension_is_case_insensitive() {
    assert!(has_als_extension("/x/song.als"));
    assert!(has_als_extension("/x/Song.ALS"));
    assert!(!has_als_extension("/x/song.als.bak"));
    assert!(!has_als_extension("/x/als"));
    assert!(!has_als_extension("notes.txt"));
}

// What the file system reports is described by the kind of the path and
// the listing of a directory.

#[test]
fn resolve_direct_file() {
    let resolved = resolve_als_target("/tmp/p/song.als", PathKind::File, &Ok(vec![])).unwrap();
    assert_eq!(resolved, "/tmp/p/song.als");
}

#[test]
fn resolve_uppercase_extension() {
    let resolved = resolve_als_target("/tmp/p/Song.ALS", PathKind::File, &Ok(vec![])).unwrap();
    assert_eq!(resolved, "/tmp/p/Song.ALS");
}

#[test]
fn resolve_folder_with_single_als() {
    let listing = Ok(vec![entry("/tmp/p/song.als", true)]);
    let resolved = resolve_als_target("/tmp/p", PathKind::Directory, &listing).unwrap();
    assert_eq!(resolved, "/tmp/p/song.als");
}

#[test]
fn resolve_folder_with_no_als_errors() {
    let listing = Ok(vec![entry("/tmp/p/readme.txt", true)]);
    let err = resolve_als_target("/tmp/p", PathKind::Directory, &listing).unwrap_err();
    assert!(matches!(err, Error::NoAlsInFolder(_)));
}

#[test]
fn resolve_folder_with_multiple_als_errors() {
    let listing = Ok(vec![entry("/tmp/p/a.als", true), entry("/tmp/p/b.als", true)]);
    let err = resolve_als_target("/tmp/p", PathKind::Directory, &listing).unwrap_err();
    assert!(matches!(err, Error::MultipleAlsInFolder(_)));
}

#[test]
fn resolve_nonexistent_path_errors() {
    let err =
        resolve_als_target("/definitely/does/not/exist.als", PathKind::Missing, &Ok(vec![]))
            .unwrap_err();
    assert!(matches!(err, Error::PathNotFound(_)));
}

#[test]
fn resolve_non_als_file_errors() {
    let err = resolve_als_target("/tmp/p/notes.txt", PathKind::File, &Ok(vec![])).unwrap_err();
    assert!(matches!(err, Error::NotAnAlsTarget(_)));
}

#[test]
fn resolve_folder_skips_subfolders_and_other_files() {
    let one = Ok(vec![
        entry("/d/readme.txt", true),
        entry("/d/sub.als", false),
        entry("/d/song.als", true),
    ]);
    assert_eq!(resolve_als_target("/d", PathKind::Directory, &one), Ok("/d/song.als".to_string()));
    let two = Ok(vec![entry("/d/a.als", true), entry("/d/b.ALS", true)]);
    assert_eq!(
        resolve_als_target("/d", PathKind::Directory, &two),
        Err(Error::MultipleAlsInFolder("/d".to_string()))
    );
    assert_eq!(
        resolve_als_target("/dev/x", PathKind::Other, &Ok(vec![])),
        Err(Error::NotAnAlsTarget("/dev/x".to_string()))
    );
}

#[test]
fn resolve_folder_reports_listing_errors() {
    let failed: Result<Vec<Result<DirEntryInfo, String>>, String> = Err("denied".to_string());
    assert_eq!(
        resolve_als_target("/d", PathKind::Directory, &failed),
        Err(Error::Io { path: "/d".to_string(), message: "denied".to_string() })
    );
    let bad_entry = Ok(vec![entry("/d/a.als", true), Err("gone".to_string())]);
    assert_eq!(
        resolve_als_target("/d", PathKind::Directory, &bad_entry),
        Err(Error::Io { path: "/d".to_string(), message: "gone".to_string() })
    );
}

fn gzip(text: &str) -> Vec<u8> {
    let mut encoder = GzEncoder::new(Vec::new(), Compression::default());
    encoder.write_all(text.as_bytes()).unwrap();
    encoder.finish().unwrap()
}

#[test]
fn read_als_xml_returns_decompressed_contents() {
    let payload = "<Ableton><LiveSet/></Ableton>";
    assert_eq!(decode_als("song.als", &gzip(payload)), Ok(payload.to_string()));
}

#[test]
fn read_als_xml_errors_on_invalid_gzip() {
    let err = decode_als("bad.als", b"not gzip data").unwrap_err();
    assert!(matches!(err, Error::Gunzip { ref path, .. } if path == "bad.als"));
}

#[test]
fn als_extension_text_is_compared_ignoring_case() {
    assert!(is_als_extension(Some("als")));
    assert!(is_als_extension(Some("AlS")));
    assert!(!is_als_extension(Some("alsx")));
    assert!(!is_als_extension(Some("")));
    assert!(!is_als_extension(None));
}
