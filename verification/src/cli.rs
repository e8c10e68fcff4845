//! The command line as values: the subcommand with its arguments, and the
//! options each argument set stands for.

use vstd::prelude::*;

use crate::commands::prune::PruneOptions;
use crate::commands::tracklist::TracklistOptions;

verus! {

/// A parsed command line.
#[derive(Debug)]
pub struct Cli {
    pub command: Command,
}

/// The subcommands.
#[derive(Debug)]
pub enum Command {
    /// Build a tracklist of unique samples used in arrangement view, sorted
    /// by their first occurrence on the timeline.
    Tracklist(TracklistArgs),
    /// List (and optionally delete) audio files in the project directory
    /// that are not referenced by the project. Dry-run by default.
    Prune(PruneArgs),
}

/// Arguments of `tracklist`.
#[derive(Debug)]
pub struct TracklistArgs {
    /// Path to an .als file or a folder containing exactly one .als file.
    pub path: String,
    /// Write the tracklist to a file instead of stdout.
    pub output: Option<String>,
    /// Use absolute sample paths instead of file basenames.
    pub full_paths: bool,
    /// Template for each entry's label.
    pub track_template: Option<String>,
}

/// Arguments of `prune`.
#[derive(Debug)]
pub struct PruneArgs {
    /// Path to an .als file or a folder containing exactly one .als file.
    pub path: String,
    /// Write the report to a file instead of stdout.
    pub output: Option<String>,
    /// Actually delete unreferenced files.
    pub delete: bool,
}

/// What a command line asks to run: a command with its options.
#[derive(Debug)]
pub enum Invocation {
    Tracklist(TracklistOptions),
    Prune(PruneOptions),
}

/// The options that `tracklist` arguments stand for.
pub open spec fn tracklist_options_of(a: TracklistArgs) -> TracklistOptions {
    TracklistOptions {
        project_path: a.path,
        output: a.output,
        full_paths: a.full_paths,
        track_template: a.track_template,
    }
}

/// The options that `prune` arguments stand for.
pub open spec fn prune_options_of(a: PruneArgs) -> PruneOptions {
    PruneOptions { project_path: a.path, output: a.output, delete: a.delete }
}

/// The invocation a command line stands for.
pub open spec fn invocation_of(c: Command) -> Invocation {
    match c {
        Command::Tracklist(a) => Invocation::Tracklist(tracklist_options_of(a)),
        Command::Prune(a) => Invocation::Prune(prune_options_of(a)),
    }
}

/// Law: the command line runs the subcommand it names with its arguments
/// unchanged. `prune` deletes only when `--delete` was given (a dry run
/// otherwise), writes where `-o` says, and works on the given path;
/// `tracklist` keeps its path, output, `--full-paths` and template.
pub proof fn law_arguments_are_handed_on(c: Command)
    ensures
        c matches Command::Prune(a) ==> (invocation_of(c) matches Invocation::Prune(o) && o.delete
            == a.delete && o.project_path == a.path && o.output == a.output),
        (c matches Command::Prune(a) && !a.delete) ==> (invocation_of(c) matches Invocation::Prune(o)
            && !o.delete),
        c matches Command::Tracklist(a) ==> (invocation_of(c) matches Invocation::Tracklist(o)
            && o.project_path == a.path && o.output == a.output && o.full_paths == a.full_paths
            && o.track_template == a.track_template),
{
}

impl Cli {
    /// The command to run and its options: each argument is handed on as it
    /// was given.
    pub fn invocation(self) -> (inv: Invocation)
        ensures
            inv == invocation_of(self.command),
            match self.command {
                Command::Tracklist(a) => inv matches Invocation::Tracklist(o) && o.project_path
                    == a.path && o.output == a.output && o.full_paths == a.full_paths
                    && o.track_template == a.track_template,
                Command::Prune(a) => inv matches Invocation::Prune(o) && o.project_path == a.path
                    && o.output == a.output && o.delete == a.delete,
            },
    {
        match self.command {
            Command::Tracklist(args) => Invocation::Tracklist(
                TracklistOptions {
                    project_path: args.path,
                    output: args.output,
                    full_paths: args.full_paths,
                    track_template: args.track_template,
                },
            ),
            Command::Prune(args) => Invocation::Prune(
                PruneOptions { project_path: args.path, output: args.output, delete: args.delete },
            ),
        }
    }
}

} // verus!
