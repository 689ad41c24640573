use dracon_sync::git::discovery::{
    count_nested_repo_untracked_entries, discover_git_repos, excluded_by_lowered, is_excluded_repo,
    is_git_worktree_file_content, is_nested_repo_path, is_safe_branch_name, is_safe_git_path,
    nested_repo_probe_path, read_parent_gitlink_shas, walk_entry_step, walks_dir_at_depth,
    WalkStep,
};
use dracon_sync::git::submodules::{list_submodules, SubmoduleEntry};

fn strings(items: &[&str]) -> Vec<String> {
    items.iter().map(|s| s.to_string()).collect()
}

#[test]
fn count_nested_repo_untracked_entries_zero_when_no_entries() {
    assert_eq!(count_nested_repo_untracked_entries(&[]), 0);
}

#[test]
fn count_nested_repo_untracked_entries_counts_nested_repo_dirs() {
    // child_a and child_b hold a `.git`; the other entries do not.
    let entries = vec![
        ("child_a".to_string(), true),
        ("child_a/inner.txt".to_string(), false),
        ("child_b".to_string(), true),
        ("scratch.txt".to_string(), false),
    ];
    assert_eq!(
        count_nested_repo_untracked_entries(&entries),
        2,
        "must count both nested-repo dirs (child_a, child_b) and ignore child_a/inner.txt and scratch.txt",
    );
}

#[test]
fn count_nested_repo_untracked_entries_handles_trailing_slash() {
    assert_eq!(nested_repo_probe_path("child/"), Some("child".to_string()));
    let entries = vec![("child/".to_string(), true)];
    assert_eq!(
        count_nested_repo_untracked_entries(&entries),
        1,
        "trailing slash must not prevent detection of the nested repo",
    );
}

#[test]
fn count_nested_repo_untracked_entries_counts_submodule_dot_git_file() {
    assert!(is_git_worktree_file_content("gitdir: /fake/path/.git/modules/sub\n"));
    let entries = vec![("sub".to_string(), true)];
    assert_eq!(
        count_nested_repo_untracked_entries(&entries),
        1,
        "a sub/ where sub/.git is a file must also count as a nested repo",
    );
}

#[test]
fn count_nested_repo_untracked_entries_keeps_plain_untracked_dirs() {
    let entries = vec![
        ("scratch_dir".to_string(), false),
        ("scratch_dir/note.txt".to_string(), false),
        ("a.txt".to_string(), false),
    ];
    assert_eq!(
        count_nested_repo_untracked_entries(&entries),
        0,
        "plain untracked dirs without .git must not be subtracted",
    );
}

#[test]
fn is_nested_repo_path_rejects_unsafe_paths() {
    // Even when a `.git` would be found, unsafe entries never count.
    assert!(!is_nested_repo_path("/etc/passwd", true));
    assert!(!is_nested_repo_path("../etc", true));
    assert!(!is_nested_repo_path("", true));
    assert!(!is_nested_repo_path(".", true));
    assert_eq!(nested_repo_probe_path("/etc/passwd"), None);
    assert_eq!(nested_repo_probe_path("../etc"), None);
}

#[test]
fn safe_git_paths() {
    assert!(is_safe_git_path("src/main.rs"));
    assert!(!is_safe_git_path("a/b/../c"));
    assert!(!is_safe_git_path("a/b/../../../etc"));
    assert!(is_safe_git_path("a/..b/c"));
    assert!(!is_safe_git_path("/abs"));
    assert!(!is_safe_git_path("../x"));
    assert!(!is_safe_git_path("a/../x"));
    assert!(!is_safe_git_path("-rf"));
}

#[test]
fn safe_branch_names() {
    assert!(is_safe_branch_name("main"));
    assert!(is_safe_branch_name("feature/x-1"));
    assert!(!is_safe_branch_name(""));
    assert!(!is_safe_branch_name("-x"));
    assert!(!is_safe_branch_name("a..b"));
    assert!(!is_safe_branch_name("a b"));
    assert!(!is_safe_branch_name("end."));
    assert!(!is_safe_branch_name("x~1"));
}

#[test]
fn gitlinks_from_stage_output() {
    let out = "100644 aaaa 0\tREADME.md\n160000 bbbb 0\tsub/a\n160000 cccc 0\tsub/b\n";
    assert_eq!(
        read_parent_gitlink_shas(out),
        vec![
            ("sub/a".to_string(), "bbbb".to_string()),
            ("sub/b".to_string(), "cccc".to_string())
        ]
    );
}

#[test]
fn walk_steps() {
    let excluded = strings(&["target", "node_modules"]);
    assert_eq!(walk_entry_step("src", false, false, false, &excluded), WalkStep::Skip);
    assert_eq!(walk_entry_step("link", true, true, true, &excluded), WalkStep::Skip);
    assert_eq!(walk_entry_step("target", true, false, true, &excluded), WalkStep::Skip);
    assert_eq!(walk_entry_step("objects", true, false, false, &excluded), WalkStep::Skip);
    assert_eq!(walk_entry_step("repo", true, false, true, &excluded), WalkStep::RecordAndDescend);
    assert_eq!(walk_entry_step(".hidden", true, false, true, &excluded), WalkStep::RecordAndDescend);
    assert_eq!(walk_entry_step(".hidden", true, false, false, &excluded), WalkStep::Skip);
    assert_eq!(walk_entry_step("plain", true, false, false, &excluded), WalkStep::Descend);
    assert!(walks_dir_at_depth(0));
    assert!(walks_dir_at_depth(3));
    assert!(!walks_dir_at_depth(4));
    assert!(!walks_dir_at_depth(5));
}

#[test]
fn excluded_repos_by_path_or_name_ignoring_case() {
    let excl = strings(&["Secret", "/home/u/Work/Big"]);
    assert!(is_excluded_repo("/home/u/code/secret", &excl));
    assert!(is_excluded_repo("/home/u/work/big", &excl));
    assert!(!is_excluded_repo("/home/u/code/public", &excl));
}

#[test]
fn discovery_filters_and_adds_the_system_repo() {
    let found = strings(&["/w/a", "/w/skip", "/w/b"]);
    let excl = strings(&["skip"]);
    assert_eq!(
        discover_git_repos(&found, &excl, Some("/sys/dot"), true),
        strings(&["/w/a", "/w/b", "/sys/dot"])
    );
    // Already listed (same path, other spelling): not added twice.
    assert_eq!(
        discover_git_repos(&found, &excl, Some("/w/a/"), true),
        strings(&["/w/a", "/w/b"])
    );
    // Not a repository, or excluded: not added.
    assert_eq!(discover_git_repos(&found, &excl, Some("/sys/dot"), false), strings(&["/w/a", "/w/b"]));
    assert_eq!(discover_git_repos(&found, &excl, Some("/x/SKIP"), true), strings(&["/w/a", "/w/b"]));
}

fn stage_line(sha: &str, path: &str) -> String {
    format!("160000 {} 0\t{}\n", sha, path)
}

#[test]
fn list_submodules_returns_empty_when_no_gitmodules() {
    assert_eq!(list_submodules("", ""), Vec::<SubmoduleEntry>::new());
}

#[test]
fn list_submodules_parses_gitmodules_with_index_shas() {
    let gitmodules = "[submodule \"web-games-polis\"]\n\
                      \tpath = web/games/wip/polis\n\
                      \turl = git@github.com:DraconDev/web-games-polis.git\n\
                      \turl = git@gitlab.com:DraconDev/web-games-polis.git\n\
                      \turl = git@codeberg.org:dracondev/web-games-polis.git\n\
                      [submodule \"web-games-deathrun\"]\n\
                      \tpath = web/games/wip/deathrun\n\
                      \turl = git@github.com:DraconDev/web-games-deathrun.git\n\
                      [submodule \"web-games-junk-runner\"]\n\
                      \tpath = web/games/wip/junk-runner\n\
                      \turl = git@github.com:DraconDev/web-games-junk-runner.git\n";
    let head_sha = "0123456789abcdef0123456789abcdef01234567";
    let mut stage = String::from("100644 1111111111111111111111111111111111111111 0\tREADME.md\n");
    for path in ["web/games/wip/polis", "web/games/wip/deathrun", "web/games/wip/junk-runner"] {
        stage.push_str(&stage_line(head_sha, path));
    }
    let entries = list_submodules(gitmodules, &stage);
    assert_eq!(entries.len(), 3, "expected 3 submodules, got {:?}", entries);

    assert_eq!(entries[0].name, "web-games-deathrun");
    assert_eq!(entries[0].path, "web/games/wip/deathrun");
    assert_eq!(entries[0].url, "git@github.com:DraconDev/web-games-deathrun.git");
    assert_eq!(entries[0].sha, head_sha);

    assert_eq!(entries[1].name, "web-games-junk-runner");
    assert_eq!(entries[1].path, "web/games/wip/junk-runner");
    assert_eq!(entries[1].sha, head_sha);

    assert_eq!(entries[2].name, "web-games-polis");
    assert_eq!(entries[2].path, "web/games/wip/polis");
    assert_eq!(
        entries[2].url,
        "git@github.com:DraconDev/web-games-polis.git",
        "first URL wins when multiple are declared"
    );
    assert_eq!(entries[2].sha, head_sha);
}

#[test]
fn list_submodules_returns_empty_sha_when_not_in_index() {
    let gitmodules = "[submodule \"web-games-junk-runner\"]\n\
                      \tpath = web/games/wip/junk-runner\n\
                      \turl = git@github.com:DraconDev/web-games-junk-runner.git\n";
    let entries = list_submodules(gitmodules, "100644 aaaa 0\tREADME.md\n");
    assert_eq!(entries.len(), 1);
    assert_eq!(entries[0].name, "web-games-junk-runner");
    assert_eq!(
        entries[0].sha, "",
        "missing-from-index submodules must surface as sha = '' (caller skips them)"
    );
}

#[test]
fn list_submodules_handles_broken_gitmodules() {
    assert_eq!(
        list_submodules("this is not\na valid gitconfig [[[\n", ""),
        Vec::<SubmoduleEntry>::new()
    );
}

#[test]
fn list_submodules_ignores_unknown_sections() {
    let gitmodules = "[core]\n\
                      \trepositoryformatversion = 0\n\
                      [submodule \"web-games-polis\"]\n\
                      \tpath = web/games/wip/polis\n\
                      \turl = git@github.com:DraconDev/web-games-polis.git\n";
    let entries = list_submodules(gitmodules, "");
    assert_eq!(entries.len(), 1);
    assert_eq!(entries[0].name, "web-games-polis");
}

#[test]
fn list_submodules_skips_incomplete_and_takes_last_path() {
    let gitmodules = "# comment\n\
                      [submodule \"no-url\"]\n\
                      \tpath = a\n\
                      [submodule \"twice\"]\n\
                      \tpath = first\n\
                      \tpath = \"second\"\n\
                      \turl = u\n";
    let entries = list_submodules(gitmodules, &stage_line("abc", "second"));
    assert_eq!(
        entries,
        vec![SubmoduleEntry {
            name: "twice".to_string(),
            path: "second".to_string(),
            url: "u".to_string(),
            sha: "abc".to_string(),
        }]
    );
}

#[test]
fn lowered_exclusions_compare_exactly() {
    let excl = strings(&["secret", "/home/u/work/big"]);
    assert!(excluded_by_lowered("/home/u/code/secret", "secret", &excl));
    assert!(excluded_by_lowered("/home/u/work/big", "big", &excl));
    assert!(!excluded_by_lowered("/home/u/code/Secret", "Secret", &excl));
}
