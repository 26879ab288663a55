use rex::command_queue::{CommandQueue, QueueMessage};
use rex::errors::{ArgumentError, ProgramError, RuntimeError};
use rex::exit_code::{get_exit_code, get_exit_code_string};
use rex::strutil::{contains_str, join_strings, replace_str};

fn queue(template: &str) -> CommandQueue {
    CommandQueue::new(template.to_string(), false, false, 200).expect("valid template")
}

#[test]
fn test_template_with_both_placeholders_rejected() {
    let r = CommandQueue::new("run {file} {files}".to_string(), false, false, 200);
    assert!(matches!(r, Err(ArgumentError::CommandParseError(_, _))));
}

#[test]
fn test_empty_template_rejected() {
    let r = CommandQueue::new(String::new(), false, false, 200);
    assert!(matches!(r, Err(ArgumentError::EmptyCommand)));
}

#[test]
fn test_per_file_mode_one_invocation_per_path() {
    // N changed paths within the quiet window: N invocations, one path
    // each, ids 0..N-1 in dispatch order.
    let mut q = queue("run {file}");
    q.push(&"/w/a".to_string(), &"/w".to_string(), 0);
    q.push(&"/w/b".to_string(), &"/w".to_string(), 10);
    q.push(&"/w/c".to_string(), &"/w".to_string(), 20);
    let (raise, invs) = q.execute(false);
    assert!(!raise);
    assert_eq!(invs.len(), 3);
    for (i, inv) in invs.iter().enumerate() {
        assert_eq!(inv.command_number, i);
        assert_eq!(inv.paths.len(), 1);
    }
    assert_eq!(invs[0].command_line, "run /w/a".to_string());
    assert_eq!(invs[1].command_line, "run /w/b".to_string());
    assert_eq!(invs[2].command_line, "run /w/c".to_string());
    assert_eq!(invs[0].files, vec!["a".to_string()]);
    assert_eq!(q.command_count, 3);
    assert_eq!(q.files.len(), 0);
}

#[test]
fn test_batch_mode_single_invocation() {
    // N changed paths within the quiet window: exactly 1 invocation
    // containing all N paths.
    let mut q = queue("run {files}");
    q.push(&"/w/a".to_string(), &"/w".to_string(), 0);
    q.push(&"/w/b".to_string(), &"/w".to_string(), 10);
    q.push(&"/w/c".to_string(), &"/w".to_string(), 20);
    let (_, invs) = q.execute(false);
    assert_eq!(invs.len(), 1);
    assert_eq!(invs[0].command_number, 0);
    assert_eq!(invs[0].command_line, "run /w/a /w/b /w/c".to_string());
    assert_eq!(
        invs[0].paths,
        vec!["/w/a".to_string(), "/w/b".to_string(), "/w/c".to_string()]
    );
    assert_eq!(q.command_count, 1);
}

#[test]
fn test_literal_template_runs_unchanged() {
    let mut q = queue("make test");
    q.push(&"/w/a".to_string(), &"/w".to_string(), 0);
    let (_, invs) = q.execute(false);
    assert_eq!(invs.len(), 1);
    assert_eq!(invs[0].command_line, "make test".to_string());
}

#[test]
fn test_push_coalesces_duplicates() {
    let mut q = queue("run {file}");
    q.push(&"/w/a".to_string(), &"/w".to_string(), 0);
    q.push(&"/w/a".to_string(), &"/w".to_string(), 5);
    q.push(&"/w/a".to_string(), &"/other".to_string(), 6);
    assert_eq!(q.files.len(), 2);
}

#[test]
fn test_debounce_single_flush_covers_both() {
    // Two additions 50 ms apart with a 200 ms quiet window, then 250 ms of
    // silence: exactly one flush, covering both paths.
    let mut q = queue("run {files}");
    q.push(&"/w/a".to_string(), &"/w".to_string(), 0);
    q.push(&"/w/b".to_string(), &"/w".to_string(), 50);
    assert!(!q.should_flush(100));
    assert!(!q.should_flush(250));
    assert!(q.should_flush(300));
    let (_, invs) = q.execute(false);
    assert_eq!(invs.len(), 1);
    assert_eq!(invs[0].paths.len(), 2);
    // Nothing is pending afterwards: no second flush.
    assert!(!q.should_flush(600));
    let (_, again) = q.execute(false);
    assert_eq!(again.len(), 0);
}

#[test]
fn test_restart_backoff_delays_flush() {
    let mut q = queue("run {files}");
    q.push(&"/w/a".to_string(), &"/w".to_string(), 0);
    assert!(q.should_flush(201));
    let keep = q.run(&QueueMessage::RestartBackoff, 150);
    assert!(keep);
    assert!(!q.should_flush(201));
    assert!(q.should_flush(351));
}

#[test]
fn test_abort_message_stops_loop() {
    let mut q = queue("run {files}");
    assert!(q.run(&QueueMessage::AddFile("/w/a".to_string(), "/w".to_string()), 0));
    assert!(!q.run(&QueueMessage::Abort, 10));
}

#[test]
fn test_prune_drops_missing_files() {
    let mut q = queue("run {files}");
    q.push(&"/w/a".to_string(), &"/w".to_string(), 0);
    q.push(&"/w/b".to_string(), &"/w".to_string(), 1);
    q.push(&"/w/c".to_string(), &"/w".to_string(), 2);
    q.prune(&vec![true, false, true]);
    assert_eq!(q.files.len(), 2);
    assert_eq!(q.files[0].0, "/w/a".to_string());
    assert_eq!(q.files[1].0, "/w/c".to_string());
}

#[test]
fn test_prune_keeps_all_when_deletions_tracked() {
    let mut q = CommandQueue::new("run {files}".to_string(), true, false, 200).expect("template");
    q.push(&"/w/a".to_string(), &"/w".to_string(), 0);
    q.push(&"/w/b".to_string(), &"/w".to_string(), 1);
    q.prune(&vec![false, false]);
    assert_eq!(q.files.len(), 2);
}

#[test]
fn test_abort_previous_raised_only_with_live_workers() {
    let mut q = CommandQueue::new("run {files}".to_string(), false, true, 200).expect("template");
    q.push(&"/w/a".to_string(), &"/w".to_string(), 0);
    let (raise, _) = q.execute(true);
    assert!(raise);
    q.push(&"/w/b".to_string(), &"/w".to_string(), 500);
    let (raise, _) = q.execute(false);
    assert!(!raise);
}

#[test]
fn test_get_exit_code() {
    assert_eq!(get_exit_code(Some(0), None), Some(0));
    assert_eq!(get_exit_code(Some(1), Some(9)), Some(1));
    assert_eq!(get_exit_code(None, Some(9)), Some(137));
    assert_eq!(get_exit_code(None, None), None);
}

#[test]
fn test_get_exit_code_string() {
    assert_eq!(get_exit_code_string(Some(0)), "0  ".to_string());
    assert_eq!(get_exit_code_string(Some(130)), "130".to_string());
    assert_eq!(get_exit_code_string(Some(-1)), "-1 ".to_string());
    assert_eq!(get_exit_code_string(Some(1234)), "1234".to_string());
    assert_eq!(get_exit_code_string(None), "?? ".to_string());
}

#[test]
fn test_error_messages() {
    let e = ProgramError::ArgumentError(ArgumentError::EmptyCommand);
    assert_eq!(e.message(), "Argument error: Command to execute is empty".to_string());
    let e = ArgumentError::InvalidRegex("fo(".to_string(), "invalid pattern".to_string());
    assert_eq!(
        e.message(),
        "Invalid regular expression: fo( invalid pattern".to_string()
    );
}

#[test]
fn test_runtime_error_messages() {
    let e = ProgramError::RuntimeError(RuntimeError::ChannelReceiveError("closed".to_string()));
    assert_eq!(e.message(), "Runtime error: Channel Error: closed".to_string());
    let e = RuntimeError::FileError("/a".to_string(), "denied".to_string());
    assert_eq!(e.message(), "File error: /a denied".to_string());
}

#[test]
fn test_string_helpers() {
    assert!(contains_str("run {file} now", "{file}"));
    assert!(!contains_str("run {files} now", "{file}"));
    assert_eq!(replace_str("a {f} b {f}", "{f}", "x"), "a x b x".to_string());
    assert_eq!(replace_str("abc", "zz", "x"), "abc".to_string());
    assert_eq!(
        join_strings(&vec!["a".to_string(), "b".to_string(), "c".to_string()], " "),
        "a b c".to_string()
    );
    assert_eq!(join_strings(&Vec::new(), " "), String::new());
}
