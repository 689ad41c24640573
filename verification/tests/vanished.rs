use dracon_sync::vanished::{
    detect_vanished_repos, mark_seen, seen_ledger_path, update_seen_ledger, SeenLedger, SeenRepo,
    VANISHED_ENTRY_TTL_SECS,
};

fn get(l: &SeenLedger, k: &str) -> Option<SeenRepo> {
    l.entries.iter().find(|(p, _)| p == k).map(|(_, e)| *e)
}

#[test]
fn ledger_tracks_vanishing_and_return() {
    let mut l = SeenLedger::new();
    mark_seen(&mut l, "/r/a", 100);
    mark_seen(&mut l, "/r/b", 100);
    // b is gone in the next pass.
    update_seen_ledger(&mut l, &["/r/a".to_string()], 200);
    assert_eq!(get(&l, "/r/a"), Some(SeenRepo { last_seen_secs: 200, first_vanished_secs: None }));
    assert_eq!(get(&l, "/r/b"), Some(SeenRepo { last_seen_secs: 100, first_vanished_secs: Some(200) }));
    // Still gone: the first stamp stays.
    update_seen_ledger(&mut l, &["/r/a".to_string()], 300);
    assert_eq!(get(&l, "/r/b"), Some(SeenRepo { last_seen_secs: 100, first_vanished_secs: Some(200) }));
    let v = detect_vanished_repos(&l, 300);
    assert_eq!(v.len(), 1);
    assert_eq!(v[0].path, "/r/b");
    assert_eq!(v[0].last_seen_secs, 100);
    assert_eq!(v[0].first_vanished_secs, 200);
    // Back again: cleared.
    update_seen_ledger(&mut l, &["/r/a".to_string(), "/r/b".to_string()], 400);
    assert_eq!(get(&l, "/r/b"), Some(SeenRepo { last_seen_secs: 400, first_vanished_secs: None }));
    assert!(detect_vanished_repos(&l, 400).is_empty());
}

#[test]
fn update_leaves_new_paths_to_mark_seen() {
    let mut l = SeenLedger::new();
    update_seen_ledger(&mut l, &["/r/new".to_string()], 100);
    assert!(l.entries.is_empty());
    mark_seen(&mut l, "/r/new", 100);
    mark_seen(&mut l, "/r/new", 100);
    assert_eq!(l.entries.len(), 1);
    assert_eq!(get(&l, "/r/new"), Some(SeenRepo { last_seen_secs: 100, first_vanished_secs: None }));
}

#[test]
fn vanished_entries_expire_after_the_ttl_and_sort_by_path() {
    let mut l = SeenLedger::new();
    mark_seen(&mut l, "/z", 0);
    mark_seen(&mut l, "/m", 0);
    mark_seen(&mut l, "/a", 0);
    update_seen_ledger(&mut l, &[], 1_000);
    let v = detect_vanished_repos(&l, 1_000);
    let paths: Vec<&str> = v.iter().map(|r| r.path.as_str()).collect();
    assert_eq!(paths, vec!["/a", "/m", "/z"]);
    assert_eq!(detect_vanished_repos(&l, 1_000 + VANISHED_ENTRY_TTL_SECS - 1).len(), 3);
    assert!(detect_vanished_repos(&l, 1_000 + VANISHED_ENTRY_TTL_SECS).is_empty());
    // A clock behind the stamp counts as no time passed.
    assert_eq!(detect_vanished_repos(&l, 5).len(), 3);
}

#[test]
fn ledger_file_sits_beside_the_policy() {
    assert_eq!(seen_ledger_path("/etc/dracon/policy.toml"), "/etc/dracon/repos-seen-ledger.json");
    assert_eq!(seen_ledger_path("policy.toml"), "repos-seen-ledger.json");
    assert_eq!(seen_ledger_path("/"), "repos-seen-ledger.json");
    assert_eq!(VANISHED_ENTRY_TTL_SECS, 7_776_000);
}
