use ableton_cli::error::Error;

#[test]
fn error_messages_match_command_line_wording() {
    assert_eq!(
        Error::PathNotFound("/no/such".into()).message(),
        "path does not exist: /no/such"
    );
    assert_eq!(
        Error::NoAlsInFolder("/d".into()).message(),
        "no .als file found in folder: /d"
    );
    assert_eq!(
        Error::MultipleAlsInFolder("/d".into()).message(),
        "multiple .als files found in folder; expected exactly one: /d"
    );
    assert_eq!(
        Error::NotAnAlsTarget("/n.txt".into()).message(),
        "expected an .als file or a folder containing one: /n.txt"
    );
    assert_eq!(
        Error::Io { path: "/p".into(), message: "denied".into() }.message(),
        "failed to read file /p: denied"
    );
    assert_eq!(
        Error::Gunzip { path: "/p.als".into(), message: "bad".into() }.message(),
        "failed to gunzip .als file /p.als: bad"
    );
    assert_eq!(Error::Xml("oops".into()).message(), "invalid XML in .als file: oops");
    assert_eq!(
        Error::Malformed("x".into()).message(),
        "malformed Ableton project: x"
    );
    assert_eq!(
        Error::MissingElement("LiveSet").message(),
        "missing required element: LiveSet"
    );
    assert_eq!(Error::Output("full".into()).message(), "failed to write output: full");
}
