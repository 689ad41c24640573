//! Repository status read from git's files and command output: remotes
//! and upstreams in `.git/config`, readiness of HEAD, a freshly
//! initialised repository, and counts of unpushed commits.

use vstd::prelude::*;
use crate::text::{
    chars_of, contains, contains_of, ends_with, ends_with_of, find, find_of, lemma_find, lines,
    lines_of, matches_at, one, parse_u64, parse_u64_of, push_all, slice_copy, starts_with,
    starts_with_of, string_of, string_views, trim, trim_of, trim_start, trim_start_of, two, views,
};

verus! {

broadcast use vstd::string::group_string_axioms;

// ---------------------------------------------------------------------
// Remotes and upstreams in `.git/config`
// ---------------------------------------------------------------------

/// A config file declares the `origin` remote when one of its lines,
/// trimmed, is `[remote "origin"]`.
pub open spec fn declares_origin(config: Seq<char>) -> bool {
    exists|k: int| 0 <= k < lines(config).len() && trim(#[trigger] lines(config)[k]) == "[remote \"origin\"]"@
}

/// Whether the text of `.git/config` declares the `origin` remote.
pub fn has_origin_remote(config: &str) -> (b: bool)
    ensures
        b == declares_origin(config@),
{
    let ls = lines_of(&chars_of(config));
    let header = chars_of("[remote \"origin\"]");
    let ghost lv = views(ls@);
    let mut i: usize = 0;
    while i < ls.len()
        invariant
            i <= ls@.len(),
            lv == views(ls@),
            lv == lines(config@),
            header@ == "[remote \"origin\"]"@,
            forall|m: int| 0 <= m < i ==> trim(#[trigger] lv[m]) != "[remote \"origin\"]"@,
        decreases ls@.len() - i,
    {
        assert(lv[i as int] == ls@[i as int]@);
        if eq_chars(&trim_of(&ls[i]), &header) {
            assert(trim(lines(config@)[i as int]) == "[remote \"origin\"]"@);
            return true;
        }
        i = i + 1;
    }
    false
}

fn eq_chars(a: &[char], b: &[char]) -> (r: bool)
    ensures
        r == (a@ == b@),
{
    crate::text::eq(a, b)
}

/// The section header of a branch in `.git/config`.
pub open spec fn branch_section(branch: Seq<char>) -> Seq<char> {
    "[branch \""@ + branch + "\"]"@
}

/// The text of the first section of `branch`, up to the next `[`.
pub open spec fn branch_config(config: Seq<char>, branch: Seq<char>) -> Option<Seq<char>> {
    let section = branch_section(branch);
    match find(config, section) {
        None => None,
        Some(pos) => {
            let after = config.skip(pos + section.len());
            let next = match find(after, seq!['[']) {
                Some(k) => k,
                None => after.len() as int,
            };
            Some(after.take(next))
        },
    }
}

/// The branch has an upstream when its section sets both `remote = `
/// and `merge = `; with no current branch there is none.
pub open spec fn tracks_upstream(config: Seq<char>, branch: Option<Seq<char>>) -> bool {
    match branch {
        None => false,
        Some(b) => match branch_config(config, b) {
            None => false,
            Some(bc) => contains(bc, "remote = "@) && contains(bc, "merge = "@),
        },
    }
}

/// Whether the text of `.git/config` gives `branch` (the current
/// branch, if any) an upstream.
pub fn has_tracking_upstream(config: &str, branch: Option<&str>) -> (b: bool)
    ensures
        b == tracks_upstream(
            config@,
            match branch {
                Some(s) => Some(s@),
                None => None,
            },
        ),
{
    let br = match branch {
        Some(s) => s,
        None => {
            return false;
        },
    };
    let c = chars_of(config);
    let mut section = chars_of("[branch \"");
    push_all(&mut section, &chars_of(br));
    push_all(&mut section, &chars_of("\"]"));
    assert(section@ == branch_section(br@));
    proof {
        lemma_find(c@, section@);
    }
    let pos = match find_of(&c, &section) {
        Some(p) => p,
        None => {
            return false;
        },
    };
    assert(matches_at(c@, section@, pos as int));
    let n = c.len();
    let after = slice_copy(&c, pos + section.len(), n);
    assert(after@ =~= c@.skip(pos + section@.len()));
    let next = match find_of(&after, &one('[')) {
        Some(k) => {
            proof {
                lemma_find(after@, seq!['[']);
            }
            assert(matches_at(after@, seq!['['], k as int));
            k
        },
        None => after.len(),
    };
    let bc = slice_copy(&after, 0, next);
    assert(bc@ =~= after@.take(next as int));
    contains_of(&bc, &chars_of("remote = ")) && contains_of(&bc, &chars_of("merge = "))
}

/// The config key that names the remote of `branch`.
pub fn branch_remote_key(branch: &str) -> (r: String)
    ensures
        r@ == "branch."@ + branch@ + ".remote"@,
{
    let mut v = chars_of("branch.");
    push_all(&mut v, &chars_of(branch));
    push_all(&mut v, &chars_of(".remote"));
    string_of(&v)
}

/// The remote-tracking ref of `branch`, from the output of `git config
/// --get branch.<branch>.remote`: `None` when the remote is empty, or
/// could leave `refs/remotes/` (holds `..` or `/`, or starts with `.`).
pub open spec fn tracking_ref(branch: Seq<char>, remote_output: Seq<char>) -> Option<Seq<char>> {
    let remote = trim(remote_output);
    if remote.len() == 0 || contains(remote, seq!['.', '.']) || remote.contains('/') || starts_with(
        remote,
        seq!['.'],
    ) {
        None
    } else {
        Some("refs/remotes/"@ + remote + seq!['/'] + branch)
    }
}

/// The ref whose absence means the upstream was never pushed (see
/// [`tracking_ref`]).
pub fn upstream_tracking_ref(branch: &str, remote_output: &str) -> (r: Option<String>)
    ensures
        r is Some <==> tracking_ref(branch@, remote_output@) is Some,
        r matches Some(s) ==> tracking_ref(branch@, remote_output@) == Some(s@),
{
    let remote = trim_of(&chars_of(remote_output));
    if remote.len() == 0 || contains_of(&remote, &two('.', '.')) || crate::text::in_set(
        '/',
        &remote,
    ) || starts_with_of(&remote, &one('.')) {
        return None;
    }
    let mut v = chars_of("refs/remotes/");
    push_all(&mut v, &remote);
    v.push('/');
    push_all(&mut v, &chars_of(branch));
    assert(v@ =~= "refs/remotes/"@ + remote@ + seq!['/'] + branch@);
    Some(string_of(&v))
}

// ---------------------------------------------------------------------
// Readiness
// ---------------------------------------------------------------------

/// What `<repo>/.git` is.
#[derive(Debug, Clone, Copy, PartialEq, Eq)]
pub enum DotGitKind {
    Missing,
    Dir,
    /// A `gitdir:` pointer of a worktree or submodule.
    File,
}

/// A repository is ready when `.git` exists, a `.git` directory has a
/// non-blank `HEAD` file, and `git rev-parse HEAD` succeeded with a
/// non-blank hash.
pub open spec fn repo_ready(
    dot_git: DotGitKind,
    head_file: Option<Seq<char>>,
    rev_parse_head: Option<Seq<char>>,
) -> bool {
    &&& dot_git != DotGitKind::Missing
    &&& (dot_git == DotGitKind::Dir ==> head_file is Some && trim(head_file->0).len() > 0)
    &&& rev_parse_head is Some
    &&& trim(rev_parse_head->0).len() > 0
}

/// Whether the repository is ready for work, given what `.git` is, the
/// text of `.git/HEAD` (`None` when missing or unreadable) and the
/// output of a successful `git rev-parse HEAD` (`None` on failure).
pub fn is_repo_ready(dot_git: DotGitKind, head_file: Option<&str>, rev_parse_head: Option<&str>) -> (b:
    bool)
    ensures
        b == repo_ready(
            dot_git,
            match head_file {
                Some(s) => Some(s@),
                None => None,
            },
            match rev_parse_head {
                Some(s) => Some(s@),
                None => None,
            },
        ),
{
    match dot_git {
        DotGitKind::Missing => {
            return false;
        },
        DotGitKind::Dir => match head_file {
            None => {
                return false;
            },
            Some(h) => {
                if trim_of(&chars_of(h)).len() == 0 {
                    return false;
                }
            },
        },
        DotGitKind::File => {},
    }
    match rev_parse_head {
        None => false,
        Some(out) => trim_of(&chars_of(out)).len() > 0,
    }
}

/// A freshly initialised repository nobody is working on: `.git` is a
/// directory, `HEAD` is a symbolic ref (`ref: refs/...`), no `*.lock`
/// file lies in `.git`, and no `tmp_pack_*` in `.git/objects/pack`.
pub open spec fn stable_empty_repo(
    dot_git_is_dir: bool,
    head: Option<Seq<char>>,
    git_dir_entries: Seq<Seq<char>>,
    pack_dir_entries: Seq<Seq<char>>,
) -> bool {
    &&& dot_git_is_dir
    &&& head is Some
    &&& starts_with(trim_start(head->0), "ref: refs/"@)
    &&& forall|k: int| 0 <= k < git_dir_entries.len() ==> !ends_with(#[trigger] git_dir_entries[k], ".lock"@)
    &&& forall|k: int|
        0 <= k < pack_dir_entries.len() ==> !starts_with(#[trigger] pack_dir_entries[k], "tmp_pack_"@)
}

/// Whether the repository is a stable empty one (see
/// [`stable_empty_repo`]), given whether `.git` is a directory, the
/// text of `.git/HEAD` (`None` when unreadable), and the names of the
/// entries of `.git` and of `.git/objects/pack` (empty when unreadable).
pub fn is_stable_empty_repo(
    dot_git_is_dir: bool,
    head: Option<&str>,
    git_dir_entries: &[String],
    pack_dir_entries: &[String],
) -> (b: bool)
    ensures
        b == stable_empty_repo(
            dot_git_is_dir,
            match head {
                Some(s) => Some(s@),
                None => None,
            },
            string_views(git_dir_entries@),
            string_views(pack_dir_entries@),
        ),
{
    if !dot_git_is_dir {
        return false;
    }
    let h = match head {
        Some(s) => s,
        None => {
            return false;
        },
    };
    if !starts_with_of(&trim_start_of(&chars_of(h)), &chars_of("ref: refs/")) {
        return false;
    }
    let ghost gv = string_views(git_dir_entries@);
    let lock = chars_of(".lock");
    let mut i: usize = 0;
    while i < git_dir_entries.len()
        invariant
            i <= git_dir_entries@.len(),
            gv == string_views(git_dir_entries@),
            lock@ == ".lock"@,
            forall|k: int| 0 <= k < i ==> !ends_with(#[trigger] gv[k], ".lock"@),
        decreases git_dir_entries@.len() - i,
    {
        assert(gv[i as int] == git_dir_entries@[i as int]@);
        if ends_with_of(&chars_of(git_dir_entries[i].as_str()), &lock) {
            return false;
        }
        i = i + 1;
    }
    let ghost pv = string_views(pack_dir_entries@);
    let tmp = chars_of("tmp_pack_");
    let mut j: usize = 0;
    while j < pack_dir_entries.len()
        invariant
            j <= pack_dir_entries@.len(),
            pv == string_views(pack_dir_entries@),
            tmp@ == "tmp_pack_"@,
            forall|k: int| 0 <= k < j ==> !starts_with(#[trigger] pv[k], "tmp_pack_"@),
        decreases pack_dir_entries@.len() - j,
    {
        assert(pv[j as int] == pack_dir_entries@[j as int]@);
        if starts_with_of(&chars_of(pack_dir_entries[j].as_str()), &tmp) {
            return false;
        }
        j = j + 1;
    }
    true
}

// ---------------------------------------------------------------------
// Unpushed commits
// ---------------------------------------------------------------------

/// The count printed by `git rev-list --count`, or 0 when the command
/// failed (`None`) or printed no number.
pub open spec fn printed_count(out: Option<Seq<char>>) -> u64 {
    match out {
        None => 0,
        Some(o) => match parse_u64(trim(o)) {
            Some(n) => n,
            None => 0,
        },
    }
}

fn printed_count_of(out: Option<&str>) -> (n: u64)
    ensures
        n == printed_count(
            match out {
                Some(s) => Some(s@),
                None => None,
            },
        ),
{
    match out {
        None => 0,
        Some(o) => match parse_u64_of(&trim_of(&chars_of(o))) {
            Some(n) => n,
            None => 0,
        },
    }
}

/// The commits reachable from HEAD, from the output of `git rev-list
/// --count HEAD` (`None` when it failed); 0 when unknown.
pub fn count_all_head_commits(rev_list_output: Option<&str>) -> (n: u64)
    ensures
        n == printed_count(
            match rev_list_output {
                Some(s) => Some(s@),
                None => None,
            },
        ),
{
    printed_count_of(rev_list_output)
}

/// The ranges counted against the mirrors, in order of preference.
pub fn mirror_count_ranges() -> (r: Vec<String>)
    ensures
        string_views(r@) == seq![
            "refs/remotes/github/main..HEAD"@,
            "refs/remotes/gitlab/main..HEAD"@,
            "refs/remotes/codeberg/main..HEAD"@,
        ],
{
    let mut r: Vec<String> = Vec::new();
    r.push(string_of(&chars_of("refs/remotes/github/main..HEAD")));
    r.push(string_of(&chars_of("refs/remotes/gitlab/main..HEAD")));
    r.push(string_of(&chars_of("refs/remotes/codeberg/main..HEAD")));
    assert(string_views(r@) =~= seq![
        "refs/remotes/github/main..HEAD"@,
        "refs/remotes/gitlab/main..HEAD"@,
        "refs/remotes/codeberg/main..HEAD"@,
    ]);
    r
}

/// The first positive count among the outputs, or 0.
pub open spec fn first_positive_count(outs: Seq<Option<Seq<char>>>) -> u64
    decreases outs.len(),
{
    if outs.len() == 0 {
        0
    } else if printed_count(outs[0]) > 0 {
        printed_count(outs[0])
    } else {
        first_positive_count(outs.drop_first())
    }
}

pub open spec fn opt_views(v: Seq<Option<String>>) -> Seq<Option<Seq<char>>> {
    v.map_values(
        |o: Option<String>|
            match o {
                Some(s) => Some(s@),
                None => None,
            },
    )
}

/// The commits not pushed to any mirror: the first positive count
/// among the outputs of `git rev-list --count <range>` for the ranges
/// of [`mirror_count_ranges`] (`None` where the command failed).
pub fn count_unpushed_vs_mirrors(outputs: &[Option<String>]) -> (n: u64)
    ensures
        n == first_positive_count(opt_views(outputs@)),
{
    let ghost ov = opt_views(outputs@);
    let mut i: usize = 0;
    assert(ov.skip(0) =~= ov);
    while i < outputs.len()
        invariant
            i <= outputs@.len(),
            ov == opt_views(outputs@),
            first_positive_count(ov) == first_positive_count(ov.skip(i as int)),
        decreases outputs@.len() - i,
    {
        let c = match &outputs[i] {
            Some(s) => printed_count_of(Some(s.as_str())),
            None => printed_count_of(None),
        };
        assert(ov.skip(i as int)[0] == ov[i as int]);
        if c > 0 {
            return c;
        }
        assert(ov.skip(i as int).drop_first() =~= ov.skip(i + 1));
        i = i + 1;
    }
    assert(ov.skip(i as int).len() == 0);
    0
}

} // verus!
