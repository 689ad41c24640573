use dracon_sync::git::status::{
    branch_remote_key, count_all_head_commits, count_unpushed_vs_mirrors, has_origin_remote,
    has_tracking_upstream, is_repo_ready, is_stable_empty_repo, mirror_count_ranges,
    upstream_tracking_ref, DotGitKind,
};

fn strings(items: &[&str]) -> Vec<String> {
    items.iter().map(|s| s.to_string()).collect()
}

const CONFIG: &str = "[core]\n\tbare = false\n[remote \"origin\"]\n\turl = git@github.com:o/r.git\n[branch \"main\"]\n\tremote = origin\n\tmerge = refs/heads/main\n[branch \"wip\"]\n\tremote = origin\n";

#[test]
fn origin_remote_in_config() {
    assert!(has_origin_remote(CONFIG));
    assert!(has_origin_remote("  [remote \"origin\"]  \n"));
    assert!(!has_origin_remote("[remote \"github\"]\n"));
}

#[test]
fn tracking_upstream_in_config() {
    assert!(has_tracking_upstream(CONFIG, Some("main")));
    assert!(!has_tracking_upstream(CONFIG, Some("wip")));
    assert!(!has_tracking_upstream(CONFIG, Some("other")));
    assert!(!has_tracking_upstream(CONFIG, None));
}

#[test]
fn upstream_tracking_refs() {
    assert_eq!(branch_remote_key("main"), "branch.main.remote");
    assert_eq!(
        upstream_tracking_ref("main", "origin\n"),
        Some("refs/remotes/origin/main".to_string())
    );
    assert_eq!(upstream_tracking_ref("main", "  \n"), None);
    assert_eq!(upstream_tracking_ref("main", "a/b"), None);
    assert_eq!(upstream_tracking_ref("main", "a..b"), None);
    assert_eq!(upstream_tracking_ref("main", ".hidden"), None);
}

#[test]
fn readiness() {
    assert!(!is_repo_ready(DotGitKind::Missing, None, Some("abc")));
    assert!(!is_repo_ready(DotGitKind::Dir, None, Some("abc")));
    assert!(!is_repo_ready(DotGitKind::Dir, Some("  \n"), Some("abc")));
    assert!(is_repo_ready(DotGitKind::Dir, Some("ref: refs/heads/main\n"), Some("abc\n")));
    assert!(!is_repo_ready(DotGitKind::Dir, Some("ref: refs/heads/main\n"), None));
    assert!(is_repo_ready(DotGitKind::File, None, Some("abc")));
    assert!(!is_repo_ready(DotGitKind::File, None, Some(" \n")));
}

#[test]
fn stable_empty_repo() {
    let none: Vec<String> = Vec::new();
    assert!(is_stable_empty_repo(true, Some("ref: refs/heads/main\n"), &strings(&["HEAD", "config"]), &none));
    assert!(!is_stable_empty_repo(false, Some("ref: refs/heads/main\n"), &none, &none));
    assert!(!is_stable_empty_repo(true, Some("0123abcd\n"), &none, &none));
    assert!(!is_stable_empty_repo(true, None, &none, &none));
    assert!(!is_stable_empty_repo(true, Some("ref: refs/heads/main"), &strings(&["index.lock"]), &none));
    assert!(!is_stable_empty_repo(true, Some("ref: refs/heads/main"), &none, &strings(&["tmp_pack_x1"])));
}

#[test]
fn commit_counts() {
    assert_eq!(count_all_head_commits(Some("42\n")), 42);
    assert_eq!(count_all_head_commits(Some("garbage")), 0);
    assert_eq!(count_all_head_commits(None), 0);
    assert_eq!(mirror_count_ranges().len(), 3);
    assert_eq!(mirror_count_ranges()[0], "refs/remotes/github/main..HEAD");
    assert_eq!(
        count_unpushed_vs_mirrors(&[None, Some("0\n".to_string()), Some("7\n".to_string())]),
        7
    );
    assert_eq!(count_unpushed_vs_mirrors(&[Some("x".to_string()), None]), 0);
    assert_eq!(count_unpushed_vs_mirrors(&[Some("3".to_string()), Some("9".to_string())]), 3);
}
