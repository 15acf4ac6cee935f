use file_mover::engine::{
    join_path, relocate_events, validate_input, FileObs, Mode, RelocationRequest,
};
use file_mover::events::{EngineError, FileEvent};

fn b(s: &str) -> Vec<u8> {
    s.as_bytes().to_vec()
}

fn request(mode: Mode, input: &str, extensions: &str, output: &str) -> RelocationRequest {
    RelocationRequest {
        input_path: b(input),
        output_path: b(output),
        extensions: b(extensions),
        mode,
    }
}

fn observed(src: &str, name: &str, probes: Vec<bool>, rename_ok: bool) -> FileObs {
    FileObs {
        src_path: b(src),
        name: Some(b(name)),
        probes,
        rename_ok,
        rename_error: if rename_ok { b("") } else { b("cross-device link") },
    }
}

#[test]
fn directory_run_with_collision() {
    let req = request(Mode::DirectoryTree, "/src", "", "/dst");
    let files = vec![
        observed("/src/a.txt", "a.txt", vec![true, false], true),
        observed("/src/b.txt", "b.txt", vec![false], true),
        observed("/src/sub/c.txt", "c.txt", vec![false], true),
    ];
    let (events, result) = relocate_events(&req, true, false, true, &files);
    assert_eq!(result, Ok(()));
    assert_eq!(
        events,
        vec![
            FileEvent::Moved { src: b("/src/a.txt"), dst: b("/dst/a_1.txt") },
            FileEvent::Moved { src: b("/src/b.txt"), dst: b("/dst/b.txt") },
            FileEvent::Moved { src: b("/src/sub/c.txt"), dst: b("/dst/c.txt") },
            FileEvent::Completed,
        ]
    );
}

#[test]
fn single_file_ineligible_still_completes() {
    let req = request(Mode::SingleFile, "/src/report.pdf", "jpg", "/dst");
    let files = vec![observed("/src/report.pdf", "report.pdf", vec![], true)];
    let (events, result) = relocate_events(&req, true, true, false, &files);
    assert_eq!(result, Ok(()));
    assert_eq!(events, vec![FileEvent::Completed]);
}

#[test]
fn missing_directory_fails_after_output_creation() {
    let req = request(Mode::DirectoryTree, "/no/such/dir", "", "/dst");
    let (events, result) = relocate_events(&req, true, false, false, &vec![]);
    assert_eq!(result, Err(EngineError::InvalidInput));
    assert_eq!(
        events,
        vec![FileEvent::InvalidInput { message: b("/no/such/dir is not a valid directory.") }]
    );
}

#[test]
fn missing_file_fails_with_file_message() {
    let req = request(Mode::SingleFile, "/no/file.pdf", "", "/dst");
    let (events, result) = relocate_events(&req, true, false, false, &vec![]);
    assert_eq!(result, Err(EngineError::InvalidInput));
    assert_eq!(
        events,
        vec![FileEvent::InvalidInput { message: b("/no/file.pdf is not a valid file.") }]
    );
}

#[test]
fn output_dir_failure_aborts_before_any_event() {
    let req = request(Mode::DirectoryTree, "/src", "", "");
    let (events, result) = relocate_events(&req, false, false, true, &vec![]);
    assert_eq!(result, Err(EngineError::Io));
    assert!(events.is_empty());
}

#[test]
fn one_outcome_per_eligible_file() {
    let req = request(Mode::DirectoryTree, "/src", "txt", "/dst");
    let files = vec![
        observed("/src/ok.txt", "ok.txt", vec![false], true),
        observed("/src/bad.txt", "bad.txt", vec![false], false),
        observed("/src/skip.pdf", "skip.pdf", vec![], true),
    ];
    let (events, result) = relocate_events(&req, true, false, true, &files);
    assert_eq!(result, Ok(()));
    for src in ["/src/ok.txt", "/src/bad.txt"] {
        let outcomes = events
            .iter()
            .filter(|e| match e {
                FileEvent::Moved { src: s, .. } => *s == b(src),
                FileEvent::MoveError { src: s, .. } => *s == b(src),
                _ => false,
            })
            .count();
        assert_eq!(outcomes, 1, "exactly one outcome for {}", src);
    }
    let pdf_mentions = events
        .iter()
        .filter(|e| match e {
            FileEvent::Moved { src: s, .. } => *s == b("/src/skip.pdf"),
            FileEvent::MoveError { src: s, .. } => *s == b("/src/skip.pdf"),
            _ => false,
        })
        .count();
    assert_eq!(pdf_mentions, 0);
}

#[test]
fn move_error_does_not_stop_the_batch() {
    let req = request(Mode::DirectoryTree, "/src", "", "/dst");
    let files = vec![
        observed("/src/a", "a", vec![false], false),
        observed("/src/b", "b", vec![false], true),
    ];
    let (events, result) = relocate_events(&req, true, false, true, &files);
    assert_eq!(result, Ok(()));
    assert_eq!(
        events,
        vec![
            FileEvent::MoveError { src: b("/src/a"), message: b("cross-device link") },
            FileEvent::Moved { src: b("/src/b"), dst: b("/dst/b") },
            FileEvent::Completed,
        ]
    );
}

#[test]
fn completed_is_always_last_and_unique() {
    let req = request(Mode::DirectoryTree, "/src", "", "/dst");
    let files = vec![
        observed("/src/a", "a", vec![false], true),
        observed("/src/b", "b", vec![false], false),
    ];
    let (events, result) = relocate_events(&req, true, false, true, &files);
    assert_eq!(result, Ok(()));
    assert_eq!(events.last(), Some(&FileEvent::Completed));
    let completions = events.iter().filter(|e| **e == FileEvent::Completed).count();
    assert_eq!(completions, 1);
}

#[test]
fn invalid_name_is_skipped_with_a_warning() {
    let req = request(Mode::DirectoryTree, "/src", "", "/dst");
    let files = vec![FileObs {
        src_path: b("/src/strange"),
        name: None,
        probes: vec![],
        rename_ok: false,
        rename_error: b(""),
    }];
    let (events, result) = relocate_events(&req, true, false, true, &files);
    assert_eq!(result, Ok(()));
    assert_eq!(
        events,
        vec![
            FileEvent::SkippedInvalidName { src: b("/src/strange") },
            FileEvent::Completed,
        ]
    );
}

#[test]
fn dots_only_filter_moves_everything() {
    let req = request(Mode::DirectoryTree, "/src", "..", "/dst");
    let files = vec![
        observed("/src/a.pdf", "a.pdf", vec![false], true),
        observed("/src/README", "README", vec![false], true),
    ];
    let (events, result) = relocate_events(&req, true, false, true, &files);
    assert_eq!(result, Ok(()));
    assert_eq!(
        events,
        vec![
            FileEvent::Moved { src: b("/src/a.pdf"), dst: b("/dst/a.pdf") },
            FileEvent::Moved { src: b("/src/README"), dst: b("/dst/README") },
            FileEvent::Completed,
        ]
    );
}

#[test]
fn blank_filter_moves_extensionless_files() {
    let req = request(Mode::DirectoryTree, "/src", "", "/dst");
    let files = vec![observed("/src/README", "README", vec![false], true)];
    let (events, result) = relocate_events(&req, true, false, true, &files);
    assert_eq!(result, Ok(()));
    assert_eq!(
        events,
        vec![
            FileEvent::Moved { src: b("/src/README"), dst: b("/dst/README") },
            FileEvent::Completed,
        ]
    );
}

#[test]
fn collision_of_extensionless_file_gets_plain_suffix() {
    let req = request(Mode::DirectoryTree, "/src", "", "/dst");
    let files = vec![observed("/src/README", "README", vec![true, true, false], true)];
    let (events, _result) = relocate_events(&req, true, false, true, &files);
    assert_eq!(
        events[0],
        FileEvent::Moved { src: b("/src/README"), dst: b("/dst/README_2") }
    );
}

#[test]
fn validate_input_accepts_matching_mode() {
    assert!(validate_input(Mode::SingleFile, &b("/f"), true, false).is_none());
    assert!(validate_input(Mode::DirectoryTree, &b("/d"), false, true).is_none());
}

#[test]
fn validate_input_rejects_mismatch() {
    let (event, err) = validate_input(Mode::DirectoryTree, &b("/d"), true, false).unwrap();
    assert_eq!(err, EngineError::InvalidInput);
    assert_eq!(event, FileEvent::InvalidInput { message: b("/d is not a valid directory.") });
}

#[test]
fn join_path_inserts_separator_once() {
    assert_eq!(join_path(&b("/dst"), &b("a.txt")), b("/dst/a.txt"));
    assert_eq!(join_path(&b("/dst/"), &b("a.txt")), b("/dst/a.txt"));
    assert_eq!(join_path(&b(""), &b("a.txt")), b("a.txt"));
}
