use ableton_cli::output::WriterTarget;

#[test]
fn from_optional_path_picks_target() {
    match WriterTarget::from_optional_path(None) {
        WriterTarget::Stdout => {}
        _ => panic!("expected Stdout"),
    }
    match WriterTarget::from_optional_path(Some("/x".to_string())) {
        WriterTarget::File(p) => assert_eq!(p, "/x"),
        _ => panic!("expected File"),
    }
}
