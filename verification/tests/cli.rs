use ableton_cli::cli::{Cli, Command, Invocation, PruneArgs, TracklistArgs};

#[test]
fn tracklist_arguments_become_tracklist_options() {
    let cli = Cli {
        command: Command::Tracklist(TracklistArgs {
            path: "/p.als".to_string(),
            output: Some("/out.txt".to_string()),
            full_paths: true,
            track_template: None,
        }),
    };
    match cli.invocation() {
        Invocation::Tracklist(opts) => {
            assert_eq!(opts.project_path, "/p.als");
            assert_eq!(opts.output.as_deref(), Some("/out.txt"));
            assert!(opts.full_paths);
            assert!(opts.track_template.is_none());
        }
        _ => panic!("expected tracklist"),
    }
}

#[test]
fn tracklist_template_argument_is_handed_on() {
    let cli = Cli {
        command: Command::Tracklist(TracklistArgs {
            path: "/p.als".to_string(),
            output: None,
            full_paths: false,
            track_template: Some("{TITLE}".to_string()),
        }),
    };
    match cli.invocation() {
        Invocation::Tracklist(opts) => {
            assert!(opts.output.is_none());
            assert!(!opts.full_paths);
            assert_eq!(opts.track_template.as_deref(), Some("{TITLE}"));
        }
        _ => panic!("expected tracklist"),
    }
}

#[test]
fn prune_arguments_become_prune_options() {
    let cli = Cli {
        command: Command::Prune(PruneArgs {
            path: "/some/proj".to_string(),
            output: None,
            delete: true,
        }),
    };
    match cli.invocation() {
        Invocation::Prune(opts) => {
            assert_eq!(opts.project_path, "/some/proj");
            assert!(opts.output.is_none());
            assert!(opts.delete);
        }
        _ => panic!("expected prune"),
    }
}
