use dracon_sync::hooks::{
    auto_gc_enabled, hooks_dir, label, maybe_auto_gc, parse_count_objects_garbage_bytes,
    plan_hook_install, preserved_hook_name, HookAction, HOOK_MARKER, PRE_PUSH_HOOK,
    PRE_REBASE_HOOK,
};

#[test]
fn garbage_parse_kib_to_bytes() {
    let out = "count: 0\nsize: 0\nin-pack: 10\npacks: 1\nsize-pack: 64\nprune-packable: 0\ngarbage: 1\nsize-garbage: 2048\n";
    assert_eq!(parse_count_objects_garbage_bytes(out), 2048 * 1024);
    assert_eq!(parse_count_objects_garbage_bytes("count: 0\n"), 0);
}

#[test]
fn garbage_value_that_does_not_parse_is_zero() {
    assert_eq!(parse_count_objects_garbage_bytes("size-garbage: lots\nsize-garbage: 5\n"), 0);
    assert_eq!(parse_count_objects_garbage_bytes("size-garbage:   7  \n"), 7 * 1024);
}

#[test]
fn auto_gc_disabled_at_zero_threshold() {
    assert!(!auto_gc_enabled(0));
    assert_eq!(maybe_auto_gc(0, Some("size-garbage: 999999\n")), None);
    assert_eq!(maybe_auto_gc(0, Some("size-garbage: 18446744073709551615\n")), None);
}

#[test]
fn auto_gc_runs_at_or_over_the_threshold() {
    let out = "size-garbage: 2048\n";
    assert_eq!(maybe_auto_gc(2048 * 1024, Some(out)), Some(2048 * 1024));
    assert_eq!(maybe_auto_gc(2048 * 1024 + 1, Some(out)), None);
    assert_eq!(maybe_auto_gc(1, None), None);
}

#[test]
fn installs_both_hooks_fresh() {
    assert_eq!(plan_hook_install(None, PRE_PUSH_HOOK), HookAction::Installed);
    assert_eq!(plan_hook_install(None, PRE_REBASE_HOOK), HookAction::Installed);
    assert!(PRE_PUSH_HOOK.contains(HOOK_MARKER));
    assert!(PRE_REBASE_HOOK.contains(HOOK_MARKER));
    assert!(PRE_PUSH_HOOK.contains("merge-base --is-ancestor"));
    assert!(PRE_REBASE_HOOK.contains("branch -r --contains"));
}

#[test]
fn ensure_is_idempotent() {
    assert_eq!(plan_hook_install(Some(PRE_PUSH_HOOK), PRE_PUSH_HOOK), HookAction::Current);
}

#[test]
fn preserves_foreign_hook_via_chaining() {
    assert_eq!(
        plan_hook_install(Some("#!/bin/sh\necho foreign\n"), PRE_PUSH_HOOK),
        HookAction::ChainedForeign
    );
    assert_eq!(preserved_hook_name("pre-push"), "pre-push.pre-dracon");
    assert!(PRE_PUSH_HOOK.contains("pre-dracon"));
    // An unreadable hook reads as empty: foreign.
    assert_eq!(plan_hook_install(Some(""), PRE_PUSH_HOOK), HookAction::ChainedForeign);
}

#[test]
fn updates_stale_managed_hook() {
    assert_eq!(
        plan_hook_install(Some("#!/bin/sh\n# dracon-sync-managed\n# old version\n"), PRE_PUSH_HOOK),
        HookAction::Updated
    );
}

#[test]
fn action_labels() {
    assert_eq!(label(HookAction::Installed), "installed");
    assert_eq!(label(HookAction::Updated), "updated");
    assert_eq!(label(HookAction::ChainedForeign), "chained foreign hook + installed");
    assert_eq!(label(HookAction::Current), "current");
}

#[test]
fn hooks_dir_resolution() {
    assert_eq!(hooks_dir("/r", ".git/hooks\n"), Some("/r/.git/hooks".to_string()));
    assert_eq!(hooks_dir("/r/", ".git/hooks"), Some("/r/.git/hooks".to_string()));
    assert_eq!(hooks_dir("/r", "/home/u/.config/git/hooks\n"), Some("/home/u/.config/git/hooks".to_string()));
    assert_eq!(hooks_dir("/r", "  \n"), None);
}

#[test]
fn pre_push_hook_script_guards_non_ff_and_deletion() {
    // The managed pre-push hook refuses non-fast-forward updates and
    // deletions, and honours the escape hatch.
    assert!(PRE_PUSH_HOOK.contains("git merge-base --is-ancestor \"$remote_sha\" \"$local_sha\""));
    assert!(PRE_PUSH_HOOK.contains("non-fast-forward"));
    assert!(PRE_PUSH_HOOK.contains("if [ -n \"$DRACON_ALLOW_REWRITE\" ]; then exit 0; fi"));
    assert!(PRE_PUSH_HOOK.contains("refusing to delete"));
}
