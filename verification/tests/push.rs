use dracon_sync::git::push::{
    has_pack_size_marker, https_fallback_refspec, https_push_attempts, is_pack_too_large,
    is_permanent_push_rejection, is_push_rejected, ssh_push_refspec, HttpsForge, PushAction,
    PushRetry,
};

#[test]
fn test_is_permanent_push_rejection_recognises_gitlab_protected_branch() {
    let msg = "GitLab: You are not allowed to push code to protected branches on this project.\npre-receive hook declined";
    assert!(is_permanent_push_rejection(msg));
}

#[test]
fn test_is_permanent_push_rejection_recognises_github_protected_branch() {
    let msg = "remote: error: GH006: Protected branch update failed for main.\n! [remote rejected] main -> main (protected branch hook declined)";
    assert!(is_permanent_push_rejection(msg));
}

#[test]
fn test_is_permanent_push_rejection_ignores_transient_errors() {
    let msg = "non-fast-forward";
    assert!(!is_permanent_push_rejection(msg));
    let msg = "connection timed out";
    assert!(!is_permanent_push_rejection(msg));
}

#[test]
fn test_is_push_rejected_still_works() {
    assert!(is_push_rejected("[rejected] main -> main (non-fast-forward)"));
    assert!(!is_push_rejected("connection timed out"));
}

#[test]
fn test_is_pack_too_large_recognises_github_gh001() {
    let msg = "remote: error: GH001: Large files detected.\nremote: error: File static/assets/music/theme.mp3 is 2500.00 MB; this exceeds GitHub's file size limit.";
    assert!(is_pack_too_large(msg));
}

#[test]
fn test_is_pack_too_large_recognises_pack_exceeds() {
    let msg = "remote: error: pack exceeds the maximum allowed size of 2 GB";
    assert!(is_pack_too_large(msg));
}

#[test]
fn test_is_pack_too_large_case_insensitive() {
    let msg = "REMOTE ERROR: PACK IS TOO LARGE";
    assert!(is_pack_too_large(msg));
}

#[test]
fn test_is_pack_too_large_ignores_transient_errors() {
    assert!(!is_pack_too_large("non-fast-forward"));
    assert!(!is_pack_too_large("connection timed out"));
    assert!(!is_pack_too_large("protected branch hook declined"));
}

#[test]
fn size_markers_are_looked_for_in_lowered_text_only() {
    assert!(has_pack_size_marker("remote error: pack is too large"));
    assert!(!has_pack_size_marker("REMOTE ERROR: PACK IS TOO LARGE"));
    // The lowercasing goes through the Unicode mapping.
    assert!(is_pack_too_large("Large Files Detected"));
}

#[test]
fn refspecs() {
    assert_eq!(ssh_push_refspec(true), "HEAD");
    assert_eq!(ssh_push_refspec(false), "HEAD:refs/heads/main");
    assert_eq!(
        https_fallback_refspec("connection reset", Some("dev")),
        Some("HEAD:refs/heads/dev".to_string())
    );
    assert_eq!(
        https_fallback_refspec("connection reset", None),
        Some("HEAD:refs/heads/main".to_string())
    );
    assert_eq!(https_fallback_refspec("connection reset", Some("-x")), None);
    assert_eq!(https_fallback_refspec("pre-receive hook declined", Some("dev")), None);
    assert_eq!(https_fallback_refspec("GH001: Large files detected", Some("dev")), None);
}

#[test]
fn https_attempts_need_urls_and_tokens() {
    let a = https_push_attempts(
        Some("https://github.com/o/r.git"),
        Some("https://gitlab.com/o/r.git"),
        None,
        Some("https://codeberg.org/o/r.git"),
        Some("tok"),
    );
    assert_eq!(a.len(), 2);
    assert_eq!(a[0].forge, HttpsForge::GitHub);
    assert_eq!(a[0].token, None);
    assert_eq!(a[1].forge, HttpsForge::Codeberg);
    assert_eq!(a[1].url, "https://codeberg.org/o/r.git");
    assert_eq!(a[1].token, Some("tok".to_string()));
    assert_eq!(a[1].forge.label_suffix(), "-codeberg-https");
    assert!(https_push_attempts(None, None, Some("t"), None, Some("t")).is_empty());
}

#[test]
fn retry_schedule_pulls_once_then_backs_off() {
    let mut r = PushRetry::new(3);
    assert_eq!(r.attempts, 3);
    // A rejected push asks for one pull.
    assert_eq!(r.after_push_failure("! [rejected] HEAD -> main (fetch first)"), PushAction::Pull);
    // After a good pull the same attempt pushes again at once.
    assert_eq!(r.after_pull(true), PushAction::Push);
    assert_eq!(r.attempt, 1);
    // A second rejection does not pull again: it waits.
    assert_eq!(r.after_push_failure("[rejected]"), PushAction::SleepThenPush(1));
    assert_eq!(r.attempt, 2);
    assert_eq!(r.after_push_failure("[rejected]"), PushAction::SleepThenPush(2));
    assert_eq!(r.attempt, 3);
    // The last attempt falls back to the other transports.
    assert_eq!(r.after_push_failure("connection timed out"), PushAction::Fallback);
}

#[test]
fn a_good_pull_does_not_use_up_the_only_attempt() {
    let mut r = PushRetry::new(1);
    assert_eq!(r.after_push_failure("! [rejected] HEAD -> main (fetch first)"), PushAction::Pull);
    assert_eq!(r.after_pull(true), PushAction::Push);
    assert_eq!(r.after_push_failure("connection timed out"), PushAction::Fallback);
}

#[test]
fn a_failed_pull_moves_on() {
    let mut r = PushRetry::new(2);
    assert_eq!(r.after_push_failure("non-fast-forward"), PushAction::Pull);
    assert_eq!(r.after_pull(false), PushAction::SleepThenPush(1));
    assert_eq!(r.attempt, 2);
    let mut last = PushRetry::new(1);
    assert_eq!(last.after_push_failure("non-fast-forward"), PushAction::Pull);
    assert_eq!(last.after_pull(false), PushAction::Fallback);
}

#[test]
fn retry_schedule_stops_on_final_errors() {
    let mut r = PushRetry::new(5);
    assert_eq!(r.after_push_failure("Permission denied (publickey)."), PushAction::Fail);
    assert_eq!(r.after_push_failure("remote: error: GH001: Large files detected"), PushAction::Fail);
    assert_eq!(r.attempt, 1);
}

#[test]
fn zero_retries_still_push_once() {
    let mut r = PushRetry::new(0);
    assert_eq!(r.attempts, 1);
    assert_eq!(r.after_push_failure("connection timed out"), PushAction::Fallback);
}

#[test]
fn backoff_is_capped() {
    let mut r = PushRetry::new(10);
    let mut waits = Vec::new();
    loop {
        match r.after_push_failure("timeout") {
            PushAction::SleepThenPush(s) => waits.push(s),
            PushAction::Fallback => break,
            other => panic!("unexpected {:?}", other),
        }
    }
    assert_eq!(waits, vec![1, 2, 3, 4, 5, 5, 5, 5, 5]);
}
