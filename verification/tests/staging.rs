use dracon_sync::git::staging::{
    build_filter_branch_args, build_filter_repo_args, choose_rewrite_tool,
    excluded_paths_to_unstage, is_excluded_change_path, large_blobs_ahead,
    oversized_paths_to_unstage, reset_batches, restore_paths, rewrite_ahead_paths,
    rewrite_was_noop_then_cleanup, top_level_dir, RewriteTool,
};

fn strings(items: &[&str]) -> Vec<String> {
    items.iter().map(|s| s.to_string()).collect()
}

#[test]
fn test_f31_noop_rewrite_deletes_backup_branch() {
    // Empty paths_to_remove means rewrite_ahead_paths short-circuits to None.
    assert!(rewrite_ahead_paths(&[], "test/backup", 1_700_000_000).is_none());

    // A path that matches nothing: the rewrite runs with a backup branch...
    let plan = rewrite_ahead_paths(
        &["nonexistent/should/not/match.xyz".to_string()],
        "test/backup",
        1_700_000_000,
    )
    .expect("a plan");
    assert_eq!(plan.backup_branch, "test/backup-1700000000");
    // ...and since HEAD's tree equals the backup's tree afterwards, the
    // rewrite was a no-op: the backup branch is deleted (None).
    let tree = "4b825dc642cb6eb9a060e54bf8d69288fbee4904\n";
    assert_eq!(
        rewrite_was_noop_then_cleanup(&plan.backup_branch, Some(tree), Some(tree.trim())),
        None
    );
    // A rewrite that changed the tree keeps its backup.
    assert_eq!(
        rewrite_was_noop_then_cleanup(&plan.backup_branch, Some(tree), Some("abc\n")),
        Some("test/backup-1700000000".to_string())
    );
    // When a tree cannot be read, the backup is kept.
    assert_eq!(
        rewrite_was_noop_then_cleanup(&plan.backup_branch, None, Some(tree)),
        Some("test/backup-1700000000".to_string())
    );
}

#[test]
fn test_build_filter_branch_args_shape() {
    let args = build_filter_branch_args(&[
        "assets/big.mp4".to_string(),
        "docs/my file.pdf".to_string(),
    ]);
    assert_eq!(args[0], "filter-branch");
    assert_eq!(args[1], "--force");
    assert_eq!(args[2], "--index-filter");
    let filter = &args[3];
    assert!(
        filter.starts_with("git rm -r --cached --ignore-unmatch -- "),
        "index-filter must contain the pathspec inside the command: {}",
        filter
    );
    assert!(filter.contains("'assets/big.mp4'"));
    assert!(filter.contains("'docs/my file.pdf'"));
    assert_eq!(args[4], "--");
    assert_eq!(args[5], "--all");
    assert_eq!(args.len(), 6);
}

#[test]
fn test_build_filter_branch_args_escapes_single_quotes() {
    let args = build_filter_branch_args(&["we'ird.bin".to_string()]);
    assert!(args[3].contains("'we'\\''ird.bin'"), "got: {}", args[3]);
}

#[test]
fn filter_branch_filter_text_is_exact() {
    let args = build_filter_branch_args(&strings(&["a", "b c"]));
    assert_eq!(args[3], "git rm -r --cached --ignore-unmatch -- 'a' 'b c'");
}

#[test]
fn filter_repo_args_name_each_path() {
    assert_eq!(
        build_filter_repo_args(&strings(&["x", "y/z"])),
        strings(&["filter-repo", "--invert-paths", "--force", "--path", "x", "--path", "y/z"])
    );
    assert_eq!(choose_rewrite_tool(true, true), Some(RewriteTool::FilterRepo));
    assert_eq!(choose_rewrite_tool(false, true), Some(RewriteTool::FilterBranch));
    assert_eq!(choose_rewrite_tool(false, false), None);
}

#[test]
fn top_level_dir_is_the_first_piece() {
    assert_eq!(top_level_dir("web/games/x"), Some("web".to_string()));
    assert_eq!(top_level_dir("file.txt"), Some("file.txt".to_string()));
    assert_eq!(top_level_dir(""), Some("".to_string()));
    assert_eq!(top_level_dir("/abs"), Some("".to_string()));
}

#[test]
fn staged_paths_in_excluded_dirs_exact_names() {
    let excluded = strings(&["target", "node_modules"]);
    assert!(is_excluded_change_path("target/x", &excluded));
    assert!(is_excluded_change_path("a/node_modules/b", &excluded));
    assert!(!is_excluded_change_path("Target/x", &excluded));
    assert!(!is_excluded_change_path("targets/x", &excluded));
    let staged = strings(&["src/a.rs", "target/b.o", "../target/c", "node_modules/d.js"]);
    assert_eq!(
        excluded_paths_to_unstage(&staged, &excluded),
        strings(&["target/b.o", "node_modules/d.js"])
    );
}

#[test]
fn oversized_paths_need_a_known_size_over_the_limit() {
    let staged = vec![
        ("big.bin".to_string(), Some(200u64)),
        ("small.txt".to_string(), Some(100u64)),
        ("gone.bin".to_string(), None),
        ("/abs/big".to_string(), Some(500u64)),
    ];
    assert_eq!(oversized_paths_to_unstage(&staged, 100), strings(&["big.bin"]));
}

#[test]
fn reset_batches_of_fifty() {
    let paths: Vec<String> = (0..120).map(|i| format!("p{}", i)).collect();
    let batches = reset_batches(&paths);
    assert_eq!(batches.len(), 3);
    assert_eq!(batches[0].len(), 50);
    assert_eq!(batches[1].len(), 50);
    assert_eq!(batches[2].len(), 20);
    assert_eq!(batches[2][0], "p100");
    assert!(reset_batches(&[]).is_empty());
}

#[test]
fn large_blobs_sorted_by_size() {
    let out = "a1 blob 500 big/one.bin\n\
               b2 tree 9000 dir\n\
               c3 blob 50 small.txt\n\
               d4 blob 300 mid.bin\n\
               e5 blob notanumber x\n\
               f6 blob 500 big/two.bin\n\
               g7 blob 700\n";
    assert_eq!(
        large_blobs_ahead(out, 100),
        vec![
            (300, "mid.bin".to_string()),
            (500, "big/one.bin".to_string()),
            (500, "big/two.bin".to_string()),
        ]
    );
    assert!(large_blobs_ahead("", 0).is_empty());
}

#[test]
fn restore_plan_refuses_unsafe_paths() {
    assert!(matches!(restore_paths(&[]), Ok(None)));
    assert_eq!(
        restore_paths(&strings(&["ok.txt", "../evil", "/abs"])).err(),
        Some("../evil".to_string())
    );
    let plan = restore_paths(&strings(&["a.txt", "b/c.txt"])).unwrap().unwrap();
    assert_eq!(
        plan.restore_args,
        strings(&["restore", "--staged", "--worktree", "--", "a.txt", "b/c.txt"])
    );
    assert_eq!(plan.reset_args, strings(&["reset", "HEAD", "--", "a.txt", "b/c.txt"]));
    assert_eq!(plan.checkout_args[1], strings(&["checkout", "--", "b/c.txt"]));
}
