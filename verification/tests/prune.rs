use ableton_cli::commands::prune::{
    add_with_asd, format_deleted, format_dry_run, human_size, is_prune_eligible_extension,
    is_prune_eligible_ext, is_skipped_dir_name, referenced_paths, sort_by_relative, unreferenced_candidates, FoundFile, PruneCandidate,
    ResolvedRef,
};

#[test]
fn human_size_thresholds() {
    assert_eq!(human_size(0), "0 B");
    assert_eq!(human_size(512), "512 B");
    assert_eq!(human_size(2 * 1024), "2.0 KB");
    assert_eq!(human_size(5 * 1024 * 1024), "5.00 MB");
    assert_eq!(human_size(3 * 1024 * 1024 * 1024), "3.00 GB");
}

fn reference_human_size(bytes: u64) -> String {
    const KB: f64 = 1024.0;
    const MB: f64 = KB * 1024.0;
    const GB: f64 = MB * 1024.0;
    let b = bytes as f64;
    if b >= GB {
        format!("{:.2} GB", b / GB)
    } else if b >= MB {
        format!("{:.2} MB", b / MB)
    } else if b >= KB {
        format!("{:.1} KB", b / KB)
    } else {
        format!("{bytes} B")
    }
}

#[test]
fn human_size_agrees_with_float_formatting() {
    let mut probes: Vec<u64> = vec![
        1023, 1024, 1025, 1075, 1076, 1126, 1127, 1280, 1331, 1332, 1536, 1792, 10239, 10240,
        1048575, 1048576, 1053818, 1059061, 1064304, 1073741823, 1073741824, 1078110208,
        u64::MAX, u64::MAX - 1, 1 << 53, (1 << 53) + 1, (1 << 53) + 3, (1 << 54) + 2,
        (1 << 54) + 6, 9_999_999_999_999, 123_456_789_012_345_678,
    ];
    // Ties at one and two decimals, and values around them.
    for k in 0..2000u64 {
        probes.push(1024 + k * 51);
        probes.push(1024 * 1024 + k * 5243);
        probes.push(1024 * 1024 * 1024 + k * 5_368_709);
        probes.push(k * 512 + 1024);
    }
    for b in probes {
        assert_eq!(human_size(b), reference_human_size(b), "bytes = {b}");
    }
}

#[test]
fn is_prune_eligible_recognizes_audio_and_asd() {
    assert!(is_prune_eligible_extension("x.wav"));
    assert!(is_prune_eligible_extension("x.WAV"));
    assert!(is_prune_eligible_extension("x.aiff"));
    assert!(is_prune_eligible_extension("x.aif"));
    assert!(is_prune_eligible_extension("x.flac"));
    assert!(is_prune_eligible_extension("x.mp3"));
    assert!(is_prune_eligible_extension("x.ogg"));
    assert!(is_prune_eligible_extension("x.m4a"));
    assert!(is_prune_eligible_extension("x.wav.asd"));
    assert!(!is_prune_eligible_extension("x.txt"));
    assert!(!is_prune_eligible_extension("noext"));
    assert!(!is_prune_eligible_extension("x.als"));
}

#[test]
fn skipped_directories_are_ableton_owned() {
    assert!(is_skipped_dir_name("Backup"));
    assert!(is_skipped_dir_name("Ableton Project Info"));
    assert!(!is_skipped_dir_name("Samples"));
    assert!(!is_skipped_dir_name("backup"));
}

#[test]
fn add_with_asd_records_sidecar() {
    let mut set = Vec::new();
    add_with_asd(&mut set, "/p/Samples/kept.wav".to_string());
    assert_eq!(set, vec!["/p/Samples/kept.wav".to_string(), "/p/Samples/kept.wav.asd".to_string()]);
}

#[test]
fn format_dry_run_renders_summary() {
    let c = vec![PruneCandidate {
        absolute: "/abs/orphan.wav".to_string(),
        relative: "Samples/orphan.wav".to_string(),
        size_bytes: 2048,
    }];
    let s = format_dry_run(&c);
    assert!(s.contains("Unreferenced files:"));
    assert!(s.contains("Samples/orphan.wav"));
    assert!(s.contains("2.0 KB"));
    assert!(s.contains("1 file,"));
    assert!(s.contains("Run with --delete"));
}

#[test]
fn format_dry_run_exact_text_for_two_files() {
    let c = vec![
        PruneCandidate { absolute: "/p/a.wav".into(), relative: "a.wav".into(), size_bytes: 100 },
        PruneCandidate {
            absolute: "/p/b.wav".into(),
            relative: "Samples/b.wav".into(),
            size_bytes: 3 * 1024 * 1024,
        },
    ];
    assert_eq!(
        format_dry_run(&c),
        "Unreferenced files:\n  a.wav (100 B)\n  Samples/b.wav (3.00 MB)\n\n2 files, 3.00 MB total.\nRun with --delete to remove.\n"
    );
}

#[test]
fn format_dry_run_empty_says_so() {
    let s = format_dry_run(&[]);
    assert_eq!(s, "No unreferenced audio files found.\n");
}

#[test]
fn format_deleted_renders_summary() {
    let c = vec![PruneCandidate {
        absolute: "/abs/a.wav".to_string(),
        relative: "a.wav".to_string(),
        size_bytes: 100,
    }];
    let s = format_deleted(&c);
    assert!(s.contains("Deleted files:"));
    assert!(s.contains("Deleted 1 file"));
    assert_eq!(s, "Deleted files:\n  a.wav (100 B)\n\nDeleted 1 file (100 B).\n");
}

#[test]
fn format_deleted_empty_says_so() {
    let s = format_deleted(&[]);
    assert_eq!(s, "No unreferenced audio files found.\n");
}

fn found(path: &str, size_bytes: u64) -> FoundFile {
    FoundFile { path: path.to_string(), absolute: path.to_string(), size_bytes }
}

fn resolved(rel: Option<&str>, abs: Option<&str>) -> ResolvedRef {
    ResolvedRef { relative: rel.map(String::from), absolute: abs.map(String::from) }
}

#[test]
fn referenced_paths_prefer_relative_inside_project() {
    let refs = vec![
        resolved(Some("/proj/Samples/a.wav"), Some("/elsewhere/a.wav")),
        resolved(Some("/other/b.wav"), Some("/proj/b.wav")),
        resolved(Some("/lib/c.wav"), Some("/lib/c.wav")),
        resolved(None, None),
    ];
    assert_eq!(
        referenced_paths(&refs, "/proj"),
        vec![
            "/proj/Samples/a.wav".to_string(),
            "/proj/Samples/a.wav.asd".to_string(),
            "/proj/b.wav".to_string(),
            "/proj/b.wav.asd".to_string(),
        ]
    );
}

#[test]
fn referenced_paths_match_whole_components_only() {
    let refs = vec![resolved(None, Some("/project-old/a.wav"))];
    assert!(referenced_paths(&refs, "/proj").is_empty());
}

#[test]
fn unreferenced_candidates_skip_referenced_files() {
    let found = vec![
        found("/proj/a.wav", 10),
        found("/proj/a.wav.asd", 1),
        found("/proj/Samples/b.wav", 20),
        found("/proj/Samples/b.wav.asd", 2),
    ];
    let referenced = referenced_paths(&vec![resolved(Some("/proj/a.wav"), None)], "/proj");
    let candidates = unreferenced_candidates(&found, &referenced, "/proj");
    assert_eq!(
        candidates,
        vec![
            PruneCandidate {
                absolute: "/proj/Samples/b.wav".into(),
                relative: "Samples/b.wav".into(),
                size_bytes: 20,
            },
            PruneCandidate {
                absolute: "/proj/Samples/b.wav.asd".into(),
                relative: "Samples/b.wav.asd".into(),
                size_bytes: 2,
            },
        ]
    );
}

#[test]
fn unreferenced_candidate_outside_project_keeps_full_path() {
    let found = vec![found("/else/x.wav", 3)];
    let candidates = unreferenced_candidates(&found, &Vec::new(), "/proj");
    assert_eq!(candidates.len(), 1);
    assert_eq!(candidates[0].relative, "/else/x.wav");
}

// What the file system reports for a project in `/proj`: each reference is
// described by the canonical forms of its paths that resolve.

#[test]
fn referenced_paths_resolves_relative_inside_project() {
    // `Samples/kept.wav` exists inside the project directory.
    let refs = vec![resolved(Some("/proj/Samples/kept.wav"), None)];
    let set = referenced_paths(&refs, "/proj");
    assert!(set.contains(&"/proj/Samples/kept.wav".to_string()));
    assert!(set.contains(&"/proj/Samples/kept.wav.asd".to_string()));
}

#[test]
fn referenced_paths_excludes_external_absolute_refs() {
    // An absolute reference to a file in another directory.
    let refs = vec![resolved(None, Some("/tmp/library/library.wav"))];
    let set = referenced_paths(&refs, "/proj");
    assert!(set.is_empty(), "external refs must not be added: {set:?}");
}

#[test]
fn referenced_paths_ignores_unresolvable_refs() {
    // `Samples/missing.wav` and `C:/Windows/style/path.wav` do not resolve.
    let refs = vec![resolved(None, None), resolved(None, None)];
    let set = referenced_paths(&refs, "/proj");
    assert!(set.is_empty());
}

#[test]
fn find_candidates_flags_orphan_only() {
    let walked = [
        "/proj/Samples/kept.wav",
        "/proj/Samples/kept.wav.asd",
        "/proj/Samples/orphan.wav",
        "/proj/Samples/notes.txt",
    ];
    let found: Vec<FoundFile> = walked.iter().map(|p| found(p, 1)).collect();
    let set = referenced_paths(&vec![resolved(Some("/proj/Samples/kept.wav"), None)], "/proj");
    let cands = unreferenced_candidates(&found, &set, "/proj");
    let names: Vec<_> = cands.iter().map(|c| c.relative.clone()).collect();
    assert_eq!(names, vec!["Samples/orphan.wav".to_string()]);
}

#[test]
fn candidates_keep_to_audio_and_sidecar_files() {
    let files = vec![
        found("/proj/notes.txt", 5),
        found("/proj/set.als", 5),
        found("/proj/loop.FLAC", 7),
        found("/proj/loop.flac.asd", 1),
    ];
    let cands = unreferenced_candidates(&files, &Vec::new(), "/proj");
    let names: Vec<_> = cands.iter().map(|c| c.relative.clone()).collect();
    assert_eq!(names, vec!["loop.FLAC".to_string(), "loop.flac.asd".to_string()]);
}

#[test]
fn candidate_extension_is_judged_on_the_walked_path() {
    // A link named like audio whose target has another name still counts.
    let files = vec![FoundFile {
        path: "/proj/link.wav".into(),
        absolute: "/proj/data/target.bin".into(),
        size_bytes: 4,
    }];
    let cands = unreferenced_candidates(&files, &Vec::new(), "/proj");
    assert_eq!(cands.len(), 1);
    assert_eq!(cands[0].relative, "data/target.bin");
}

#[test]
fn eligible_extension_texts() {
    for ext in ["wav", "WAV", "aiff", "Aif", "flac", "mp3", "ogg", "M4A", "asd", "ASD"] {
        assert!(is_prune_eligible_ext(Some(ext)), "{ext}");
    }
    for ext in ["txt", "als", "wave", "", "mp4"] {
        assert!(!is_prune_eligible_ext(Some(ext)), "{ext}");
    }
    assert!(!is_prune_eligible_ext(None));
}

fn cand(relative: &str, size_bytes: u64) -> PruneCandidate {
    PruneCandidate { absolute: format!("/proj/{relative}"), relative: relative.into(), size_bytes }
}

#[test]
fn report_order_follows_path_components() {
    let sorted = sort_by_relative(vec![
        cand("b/x.wav", 1),
        cand("a.wav", 2),
        cand("a/b.wav", 3),
        cand("A.wav", 4),
    ]);
    let names: Vec<_> = sorted.iter().map(|c| c.relative.as_str()).collect();
    // `a` sorts before `a.wav` as a component, unlike the plain text order.
    assert_eq!(names, vec!["A.wav", "a/b.wav", "a.wav", "b/x.wav"]);
}

#[test]
fn report_order_is_stable_for_equal_paths() {
    let sorted = sort_by_relative(vec![cand("x/./y.wav", 1), cand("x/y.wav", 2), cand("w.wav", 3)]);
    let sizes: Vec<_> = sorted.iter().map(|c| c.size_bytes).collect();
    assert_eq!(sizes, vec![3, 1, 2]);
}
