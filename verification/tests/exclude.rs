use dracon_sync::exclude::{
    can_restore_entry, excluded_dir_names_set, gitignore_with_patterns,
    has_sync_relevant_dirty_entries, is_build_output_dir_name, is_excluded_change_path,
    is_excluded_dir_name, is_excluded_file, is_gitlink, is_gitlink_unchanged, is_large_untracked, matches_file_pattern,
    matches_untracked_exclude, matches_untracked_patterns, normalized_dir_name, plan_tracked_excluded_removal,
    should_stage_entry, ChangeStatus, DiffEntry, DiskState, ObservedEntry,
};

fn entry(path: &str, status: ChangeStatus) -> DiffEntry {
    DiffEntry { path: path.to_string(), status }
}

fn set(items: &[&str]) -> Vec<String> {
    items.iter().map(|s| s.to_string()).collect()
}

#[test]
fn test_is_excluded_dir_name_exact() {
    let excluded = set(&["target", "node_modules", ".cache"]);
    assert!(is_excluded_dir_name("target", &excluded));
    assert!(is_excluded_dir_name("node_modules", &excluded));
    assert!(is_excluded_dir_name(".cache", &excluded));
    assert!(!is_excluded_dir_name("src", &excluded));
}

#[test]
fn test_is_excluded_dir_name_pattern() {
    let excluded = set(&[".tmp-"]);
    assert!(is_excluded_dir_name(".tmp-abc", &excluded));
    assert!(is_excluded_dir_name(".tmp-123", &excluded));
}

#[test]
fn test_is_excluded_dir_name_trailing_hyphen() {
    let excluded = set(&[".tmp-"]);
    assert!(is_excluded_dir_name(".tmp-file", &excluded));
    assert!(is_excluded_dir_name(".tmp-abc", &excluded));
    assert!(is_excluded_dir_name(".tmp-123", &excluded));
    assert!(!is_excluded_dir_name(".tmpfile", &excluded));
}

#[test]
fn test_is_excluded_dir_name_empty_excluded_set() {
    let excluded: Vec<String> = Vec::new();
    assert!(!is_excluded_dir_name("target", &excluded));
    assert!(!is_excluded_dir_name("node_modules", &excluded));
}

#[test]
fn test_is_excluded_dir_name_case_insensitive_matching() {
    let excluded = set(&["Target"]);
    assert!(is_excluded_dir_name("target", &excluded));
    assert!(is_excluded_dir_name("Target", &excluded));
}

#[test]
fn test_is_excluded_dir_name_star_prefix() {
    let excluded = set(&["build*"]);
    assert!(is_excluded_dir_name("build", &excluded));
    assert!(is_excluded_dir_name("build-debug", &excluded));
    assert!(!is_excluded_dir_name("abuild", &excluded));
}

#[test]
fn test_is_excluded_change_path_simple() {
    let excluded = set(&["target", "node_modules"]);
    assert!(is_excluded_change_path("target/file.txt", &excluded));
    assert!(is_excluded_change_path("target/deep/nested/file.txt", &excluded));
    assert!(is_excluded_change_path("node_modules/package/index.js", &excluded));
    assert!(!is_excluded_change_path("src/file.txt", &excluded));
    assert!(!is_excluded_change_path("source/file.txt", &excluded));
}

#[test]
fn test_matches_file_pattern_exact() {
    assert!(matches_file_pattern("test.txt", "test.txt"));
    assert!(!matches_file_pattern("test.txt", "Test.txt"));
}

#[test]
fn test_matches_file_pattern_extension() {
    assert!(matches_file_pattern("test.txt", "*.txt"));
    assert!(matches_file_pattern("test.md", "*.md"));
    assert!(!matches_file_pattern("test.txt", "*.md"));
}

#[test]
fn test_matches_file_pattern_prefix() {
    assert!(matches_file_pattern("test.output", "test.*"));
    assert!(matches_file_pattern("test.txt", "test.*"));
    assert!(!matches_file_pattern("other.output", "test.*"));
}

#[test]
fn test_matches_file_pattern_glob() {
    assert!(matches_file_pattern("build-debug", "build*"));
    assert!(matches_file_pattern("build-release", "build*"));
    assert!(matches_file_pattern("build", "build*"));
    assert!(!matches_file_pattern("abuild", "build*"));
}

#[test]
fn test_is_excluded_file_simple() {
    let patterns = vec!["*.log".to_string(), "*.tmp".to_string()];
    assert!(is_excluded_file("error.log", &patterns));
    assert!(is_excluded_file("temp.tmp", &patterns));
    assert!(!is_excluded_file("file.txt", &patterns));
    assert!(!is_excluded_file("error.log.bak", &patterns));
}

#[test]
fn test_is_excluded_file_no_match() {
    let patterns: Vec<String> = vec![];
    assert!(!is_excluded_file("file.txt", &patterns));
}

#[test]
fn test_is_excluded_file_empty_path() {
    let patterns = vec!["*.txt".to_string()];
    assert!(!is_excluded_file("", &patterns));
}

#[test]
fn test_normalized_dir_name_various() {
    assert_eq!(normalized_dir_name("TARGET"), "target");
    assert_eq!(normalized_dir_name("//node_modules//"), "node_modules");
    assert_eq!(normalized_dir_name(".Git"), ".git");
}

#[test]
fn test_matches_file_pattern_exact_match() {
    assert!(matches_file_pattern("Cargo.lock", "Cargo.lock"));
    assert!(!matches_file_pattern("Cargo.toml", "Cargo.lock"));
}

#[test]
fn test_matches_file_pattern_extension_wildcard() {
    assert!(matches_file_pattern("test.rs", "*.rs"));
    assert!(matches_file_pattern("lib.rs", "*.rs"));
    assert!(!matches_file_pattern("test.txt", "*.rs"));
}

#[test]
fn test_matches_file_pattern_prefix_wildcard() {
    assert!(matches_file_pattern("test.log", "test.*"));
    assert!(matches_file_pattern("test.log.bak", "test.*"));
    assert!(!matches_file_pattern("other.log", "test.*"));
}

#[test]
fn test_matches_file_pattern_middle_wildcard() {
    assert!(matches_file_pattern("data.json.gz", "*.json.gz"));
    assert!(matches_file_pattern("test.backup.json.gz", "*.backup.json.gz"));
    assert!(!matches_file_pattern("data.json", "*.json.gz"));
}

#[test]
fn test_is_excluded_file_pattern_matching() {
    let patterns = vec!["*.log".to_string(), "*.tmp".to_string()];
    assert!(is_excluded_file("debug.log", &patterns));
    assert!(is_excluded_file("data.tmp", &patterns));
    assert!(!is_excluded_file("data.rs", &patterns));
}

#[test]
fn excluded_dir_names_set_normalizes_sorts_and_dedups() {
    let names = set(&["Target", "/node_modules/", "target", "//", ".Cache"]);
    assert_eq!(
        excluded_dir_names_set(&names),
        set(&[".cache", "node_modules", "target"])
    );
}

#[test]
fn dot_hyphen_pattern_matches_its_prefix_only() {
    let excluded = set(&[".tmp-"]);
    assert!(!is_excluded_dir_name("abcd-e", &excluded));
    assert!(!is_excluded_dir_name("abcd-x", &excluded));
    assert!(!is_excluded_dir_name("node-modules", &excluded));
    assert!(!is_excluded_dir_name(".tmp", &excluded));
    assert!(is_excluded_dir_name("/.TMP-Build/", &excluded));
}

#[test]
fn change_path_components_skip_empty_and_dot() {
    let excluded = set(&["target"]);
    assert!(is_excluded_change_path("./a//target/./x", &excluded));
    assert!(is_excluded_change_path("/target", &excluded));
    assert!(!is_excluded_change_path("targets/x", &excluded));
}

#[test]
fn file_name_of_directory_like_paths() {
    let patterns = vec!["*".to_string()];
    assert!(is_excluded_file("a/b/", &patterns));
    assert!(!is_excluded_file("a/..", &vec!["..".to_string()]));
}

#[test]
fn untracked_exclude_basename_and_globs() {
    let patterns = vec!["note.md".to_string()];
    assert!(matches_untracked_exclude("/repo", "/repo/sub/note.md", &patterns));
    let globs = vec!["**/scratch/**".to_string()];
    assert!(matches_untracked_exclude("/repo", "/repo/foo/scratch/bar.txt", &globs));
    assert!(matches_untracked_exclude("/repo", "foo/scratch/bar.txt", &globs));
    assert!(!matches_untracked_exclude("/repo", "/repo/foo/other/bar.txt", &globs));
    let prefix = vec![".demon/**".to_string()];
    assert!(matches_untracked_exclude("/repo", "/repo/.demon/x/y", &prefix));
    let seg = vec!["**/*.png".to_string()];
    assert!(matches_untracked_exclude("/repo", "/repo/web/a.png", &seg));
}

#[test]
fn build_output_dir_names() {
    for n in [".output", "dist-new", "x.output", "gen_output", "output-3", "generated"] {
        assert!(is_build_output_dir_name(n), "{n}");
    }
    for n in ["src", "outputs", "generator"] {
        assert!(!is_build_output_dir_name(n), "{n}");
    }
}

#[test]
fn test_can_restore_entry_modified() {
    assert!(can_restore_entry(&entry("src/main.rs", ChangeStatus::Modified)));
}

#[test]
fn test_can_restore_entry_deleted() {
    assert!(!can_restore_entry(&entry("src/main.rs", ChangeStatus::Deleted)));
}

#[test]
fn test_can_restore_entry_added() {
    assert!(!can_restore_entry(&entry("newfile.txt", ChangeStatus::Added)));
}

#[test]
fn test_is_large_untracked_added_file() {
    // 200 bytes > 100 bytes threshold
    assert!(is_large_untracked(&entry("large.bin", ChangeStatus::Added), DiskState::File { len: 200 }, 100));
}

#[test]
fn test_is_large_untracked_modified_file() {
    assert!(!is_large_untracked(&entry("small.txt", ChangeStatus::Modified), DiskState::File { len: 50 }, 100));
}

#[test]
fn test_is_large_untracked_nonexistent_file() {
    assert!(!is_large_untracked(&entry("nonexistent.txt", ChangeStatus::Added), DiskState::Missing, 100));
}

#[test]
fn test_has_sync_relevant_dirty_entries_modified() {
    let entries = vec![ObservedEntry {
        entry: entry("test.txt", ChangeStatus::Modified),
        disk: DiskState::File { len: 7 },
    }];
    let excluded: Vec<String> = Vec::new();
    assert!(has_sync_relevant_dirty_entries("/repo", &entries, &excluded, &[], 100 * 1024 * 1024, &[]));
}

#[test]
fn test_has_sync_relevant_dirty_entries_excluded_dir_ignored() {
    let entries = vec![ObservedEntry {
        entry: entry("target/file.txt", ChangeStatus::Added),
        disk: DiskState::File { len: 7 },
    }];
    let excluded = set(&["target"]);
    assert!(
        !has_sync_relevant_dirty_entries("/repo", &entries, &excluded, &[], 100 * 1024 * 1024, &[]),
        "untracked file in excluded dir should be ignored (not large, not restorable)"
    );
}

#[test]
fn test_has_sync_relevant_dirty_entries_empty() {
    let entries: Vec<ObservedEntry> = vec![];
    let excluded: Vec<String> = Vec::new();
    assert!(!has_sync_relevant_dirty_entries("/repo", &entries, &excluded, &[], 100 * 1024 * 1024, &[]));
}

#[test]
fn test_remove_tracked_excluded_paths_none_found() {
    // `git ls-files -z` of a repository holding only test.txt.
    let excluded = set(&["nonexistent"]);
    assert!(
        plan_tracked_excluded_removal("test.txt\0", &excluded).is_none(),
        "should return None when no tracked excluded paths found"
    );
}

#[test]
fn tracked_excluded_paths_are_planned() {
    let excluded = set(&["target"]);
    let plan = plan_tracked_excluded_removal("src/a.rs\0target/x.o\0web/dist-new/b.js\0", &excluded)
        .expect("a plan");
    assert_eq!(plan.to_remove, set(&["target/x.o", "web/dist-new/b.js"]));
    assert_eq!(plan.dirs, set(&["dist-new", "target"]));
    assert_eq!(plan.gitignore_patterns, set(&["dist-new/", "target/"]));
}

#[test]
fn test_append_to_gitignore_creates_new_file() {
    let patterns = set(&["target/", "*.log"]);
    let content = gitignore_with_patterns("", &patterns).expect("content to write");
    assert!(content.contains("target/"));
    assert!(content.contains("*.log"));
}

#[test]
fn test_append_to_gitignore_deduplicates() {
    let patterns = set(&["target/"]);
    match gitignore_with_patterns("target/\n", &patterns) {
        None => {}
        Some(content) => {
            let count = content.lines().filter(|l| *l == "target/").count();
            assert_eq!(count, 1, "should not duplicate existing pattern");
        }
    }
}

#[test]
fn gitignore_update_twice_adds_once() {
    let patterns = set(&["  target/ ", "*.log", ""]);
    let once = gitignore_with_patterns("node_modules/\r\n", &patterns).expect("content to write");
    assert_eq!(once, "node_modules/\n\n# Large files (auto-added by dracon-sync)\ntarget/\n*.log");
    assert!(gitignore_with_patterns(&once, &patterns).is_none());
    let block = "a\n--- BEGIN DRACON MANAGED BLOCK ---\n--- END DRACON MANAGED BLOCK ---\n";
    let once = gitignore_with_patterns(block, &patterns).expect("content to write");
    assert!(gitignore_with_patterns(&once, &patterns).is_none());
}

#[test]
fn test_append_to_gitignore_empty_patterns() {
    let patterns: Vec<String> = vec![];
    assert!(
        gitignore_with_patterns("", &patterns).is_none(),
        "should not create .gitignore for empty patterns"
    );
}

#[test]
fn test_should_stage_entry_tracked_modified_excluded_by_pattern() {
    let e = entry("web/test-results/slice13.png", ChangeStatus::Modified);
    let excluded: Vec<String> = Vec::new();
    let patterns = set(&["**/test-results/**"]);
    assert!(
        !should_stage_entry("/repo", &e, &excluded, &[], 100 * 1024 * 1024, &patterns, DiskState::File { len: 7 }),
        "test-results PNG should be excluded by auto_commit_exclude_patterns"
    );
}

#[test]
fn test_should_stage_entry_tracked_modified_no_match() {
    let e = entry("src/main.rs", ChangeStatus::Modified);
    let excluded: Vec<String> = Vec::new();
    let patterns = set(&["**/test-results/**"]);
    assert!(should_stage_entry("/repo", &e, &excluded, &[], 100 * 1024 * 1024, &patterns, DiskState::File { len: 11 }));
}

#[test]
fn test_should_stage_entry_empty_patterns_list() {
    let e = entry("src/main.rs", ChangeStatus::Modified);
    let excluded: Vec<String> = Vec::new();
    assert!(should_stage_entry("/repo", &e, &excluded, &[], 100 * 1024 * 1024, &[], DiskState::File { len: 11 }));
}

#[test]
fn stage_decisions_by_disk_state() {
    let excluded: Vec<String> = Vec::new();
    let big = entry("big.bin", ChangeStatus::Added);
    assert!(!should_stage_entry("/r", &big, &excluded, &[], 100, &[], DiskState::File { len: 101 }));
    assert!(should_stage_entry("/r", &big, &excluded, &[], 100, &[], DiskState::File { len: 100 }));
    let sub = entry("sub", ChangeStatus::Modified);
    assert!(!should_stage_entry("/r", &sub, &excluded, &[], 100, &[], DiskState::Dir { gitlink_unchanged: true }));
    assert!(should_stage_entry("/r", &sub, &excluded, &[], 100, &[], DiskState::Dir { gitlink_unchanged: false }));
    let gone = entry("gone", ChangeStatus::Deleted);
    assert!(should_stage_entry("/r", &gone, &excluded, &[], 100, &[], DiskState::Missing));
    let lost = entry("lost", ChangeStatus::Modified);
    assert!(!should_stage_entry("/r", &lost, &excluded, &[], 100, &[], DiskState::Missing));
}

#[test]
fn test_is_gitlink_returns_true_for_tracked_gitlink() {
    assert!(is_gitlink("160000 commit 0123456789abcdef0123456789abcdef01234567\tsubmod\n"));
}

#[test]
fn test_is_gitlink_returns_false_for_regular_file() {
    assert!(!is_gitlink("100644 blob 0123456789abcdef0123456789abcdef01234567\tregular.txt\n"));
}

#[test]
fn test_is_gitlink_returns_false_for_missing_path() {
    assert!(!is_gitlink(""));
}

#[test]
fn untracked_patterns_match_relative_to_the_repository() {
    // The repository's own path is not part of what the patterns see.
    assert!(!matches_untracked_exclude("/home/build", "/home/build/src/a.rs", &set(&["build/**"])));
    assert!(matches_untracked_exclude("/home/u", "/home/u/build/out.o", &set(&["build/**"])));
    assert!(matches_untracked_patterns("a.rs", "src/a.rs", &set(&["*.rs"])));
    assert!(!matches_untracked_patterns("a.rs", "src/a.rs", &set(&["**/tests/**"])));
    assert!(matches_untracked_patterns("x.png", "web/tests/shots/x.png", &set(&["**/tests/**"])));
}

#[test]
fn path_globs_match_whole_segments() {
    let scratch = set(&["**/scratch/**"]);
    assert!(!matches_untracked_exclude("/repo", "/repo/foo/scratchpad.txt", &scratch));
    assert!(!matches_untracked_exclude("/repo", "/repo/myscratch/a.txt", &scratch));
    assert!(matches_untracked_exclude("/repo", "/repo/scratch/a.txt", &scratch));
    let results = set(&["**/test-results/**"]);
    assert!(matches_untracked_patterns("slice13.png", "web/test-results/slice13.png", &results));
    let chrome = set(&["**/chrome-*/**"]);
    assert!(matches_untracked_patterns("p.png", "a/chrome-shots/b/p.png", &chrome));
    assert!(!matches_untracked_patterns("p.png", "a/chromeshots/p.png", &chrome));
    let named = set(&["**/node_modules"]);
    assert!(matches_untracked_patterns("x.js", "web/node_modules/x.js", &named));
}

#[test]
fn test_is_gitlink_returns_false_for_untracked_dir_with_dotgit() {
    // `git ls-tree HEAD -- nested_subrepo` prints nothing for a path
    // the parent does not track.
    assert!(!is_gitlink(""));
    assert!(!is_gitlink("040000 tree 0123456789abcdef0123456789abcdef01234567\tnested_subrepo\n"));
}

#[test]
fn test_is_gitlink_unchanged_false_when_shared_main_ahead_of_parent() {
    let main_sha_before = "3f786850e387550fdab836ed7e6dc881de23001b";
    let ls_tree = format!("160000 commit {}\tnested/foo\n", main_sha_before);
    let nested_head = format!("{}\n", main_sha_before);
    let new_sha = "deadbeefdeadbeefdeadbeefdeadbeefdeadbeef";
    // The shared gitdir's main moved ahead of the parent's gitlink.
    assert!(
        !is_gitlink_unchanged(Some(&ls_tree), Some(&format!("{}\n", new_sha)), Some(&nested_head)),
        "is_gitlink_unchanged must return false when the shared main ref is ahead of the parent's gitlink"
    );
    // Shared main equal to the parent's gitlink: unchanged.
    assert!(
        is_gitlink_unchanged(Some(&ls_tree), Some(&format!("{}\n", main_sha_before)), Some(&nested_head)),
        "is_gitlink_unchanged must return true when shared main == parent gitlink"
    );
    // No shared gitdir: the nested checkout's HEAD decides.
    assert!(is_gitlink_unchanged(Some(&ls_tree), None, Some(&nested_head)));
    assert!(!is_gitlink_unchanged(Some(&ls_tree), None, Some(new_sha)));
    // Not a gitlink at all.
    assert!(!is_gitlink_unchanged(Some("100644 blob abc\tf\n"), None, Some("abc")));
}
