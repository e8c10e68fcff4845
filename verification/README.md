# ableton_cli

A command-line utility for inspecting Ableton Live projects (`.als`, gzipped
XML), with its logic written in Verus and proved against its contracts.

- `tracklist` prints a deduplicated list of the audio samples used in
  arrangement view, in order of first use, with `MM:SS:mmm` timestamps that
  follow the project's tempo automation.
- `prune` lists, and with `--delete` removes, the audio files inside the
  project directory that the project does not reference.

## Layout

- `src/` is the verified library.
  - `xml` models a parsed document as a list of nodes in document order and
    answers the queries the parser asks of it; `project::parser` reads the
    project (audio tracks, arrangement clips, tempo, every sample reference)
    from it, with the whole parse stated as a function of the document.
  - `project::loader` decides which `.als` file a path names and decodes it.
  - `commands::tracklist` deduplicates samples (first occurrence wins),
    renders labels from a template and formats the list;
    `commands::tracklist::template` is the template engine and
    `commands::tracklist::metadata` reads a sample file's tags from its
    bytes with `lofty`.
  - `commands::prune` decides which files are referenced and which are
    candidates, orders them and formats the reports.
  - `cli` holds the command line as values; `numbers`, `text` and `paths`
    hold the character-level helpers.
- `app/` is the executable: argument parsing with `clap`, file-system access,
  and the floating-point tempo map that turns beats into seconds.
- `tests/` exercises the library on concrete values.

The laws the library promises (deduplication keeps the first occurrence of
each sample, references outside the project directory never count, a
referenced file and its `.asd` sidecar are never pruned, cleaning a label
leaves no separator at either end, and more) are public proof
functions whose names begin with `law_`.
