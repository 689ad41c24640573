use dracon_sync::git::ops::{
    append_stderr_line, askpass_script_body, child_status_result, child_timeout_message,
    idle_deadline, is_git_push_progress_line, libc_o_excl_o_nofollow, process_group_arg,
    watch_step, AskpassScript, WatchStep, POLL_INTERVAL_MS,
};

#[test]
fn test_git_push_progress_predicate_detects_pack_progress() {
    assert!(is_git_push_progress_line("Compressing objects:  50% (123/246)"));
    assert!(is_git_push_progress_line(
        "Writing objects:  10% (1/10), 1.23 KiB | 1.23 MiB/s"
    ));
    assert!(is_git_push_progress_line("remote: Resolving deltas: 100% (10/10)"));
    assert!(!is_git_push_progress_line("fatal: could not read Username"));
}

#[test]
fn error_lines_are_no_progress() {
    assert!(!is_git_push_progress_line(
        "error: RPC failed; curl 56 GnuTLS recv error, 0 bytes of body are still expected"
    ));
    assert!(!is_git_push_progress_line("remote: error: delta base missing"));
    assert!(!is_git_push_progress_line("FATAL: 12 bytes"));
    assert!(is_git_push_progress_line("Total 3 (delta 1), reused 0 (delta 0), pack-reused 0"));
    assert!(is_git_push_progress_line("Receiving objects: 100% (5/5), 1.2 KiB"));
}

#[test]
fn test_git_askpass_script_rejects_single_quote() {
    assert!(askpass_script_body("abc'def").is_none(), "single-quote token must be rejected");
}

#[test]
fn askpass_script_prints_the_token() {
    assert_eq!(
        askpass_script_body("ghp_abc123XYZtestToken00000"),
        Some("#!/bin/sh\nprintf '%s\\n' 'ghp_abc123XYZtestToken00000'\n".to_string())
    );
    let guard = AskpassScript::new("/tmp/x.sh".to_string());
    assert_eq!(guard.path, "/tmp/x.sh");
}

#[test]
fn open_flags_are_excl_and_nofollow() {
    assert_eq!(libc_o_excl_o_nofollow(), 0x80 | 0x20000);
}

#[test]
fn failure_and_timeout_messages() {
    assert_eq!(child_status_result(true, "git push", "/r", "exit status: 0", "x"), Ok(()));
    assert_eq!(
        child_status_result(false, "git push", "/r", "exit status: 1", ""),
        Err("git push failed in /r with status exit status: 1".to_string())
    );
    assert_eq!(
        child_status_result(false, "git push", "/r", "exit status: 128", "fatal: no"),
        Err("git push failed in /r with status exit status: 128: fatal: no".to_string())
    );
    assert_eq!(
        child_timeout_message("git pull", "/repo", 120),
        "git pull timeout in /repo after 120s"
    );
}

#[test]
fn stderr_lines_are_joined_by_newlines() {
    let mut s = String::new();
    append_stderr_line(&mut s, "one");
    append_stderr_line(&mut s, "two");
    append_stderr_line(&mut s, "");
    assert_eq!(s, "one\ntwo\n");
}

#[test]
fn the_watcher_kills_at_the_deadline() {
    assert_eq!(watch_step(1_000, 1_000), WatchStep::Kill);
    assert_eq!(watch_step(1_000, 2_000), WatchStep::Kill);
    assert_eq!(watch_step(1_000, 900), WatchStep::Wait(100));
    assert_eq!(watch_step(10_000, 0), WatchStep::Wait(POLL_INTERVAL_MS));
    assert_eq!(POLL_INTERVAL_MS, 100);
    assert_eq!(watch_step(10_000, 9_950), WatchStep::Wait(50));
    assert_eq!(idle_deadline(5_000, 60), 65_000);
    assert_eq!(idle_deadline(0, 0), 0);
}

#[test]
fn process_group_argument() {
    assert_eq!(process_group_arg(4242), "-4242");
    assert_eq!(process_group_arg(0), "-0");
}
