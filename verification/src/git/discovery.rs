//! Repository discovery: which directories the walk of the watch roots
//! records, which repositories are excluded, which untracked entries
//! are nested repositories, and the gitlinks a parent's index tracks.

use vstd::prelude::*;
use crate::path::{
    components, components_of, file_name, file_name_of, is_absolute, same_path, same_path_of,
};
use crate::sys::{to_lowercase, unicode_lowercase};
use crate::text::{
    chars_of, contains, contains_of, ends_with, ends_with_of, eq, in_set,
    lemma_string_views_push, lines, lines_of, one, split, split_of, starts_with,
    starts_with_of, string_of, string_views, trim, trim_end_set, trim_end_set_of, trim_of,
    views, words, words_of, two,
};

verus! {

broadcast use vstd::string::group_string_axioms;

// ---------------------------------------------------------------------
// Safe names
// ---------------------------------------------------------------------

/// A relative path none of whose components is `..` and whose text
/// does not start with `-` (so git cannot read it as an option): such a
/// path cannot lead out of the directory it is joined to.
pub open spec fn safe_git_path(p: Seq<char>) -> bool {
    &&& !is_absolute(p)
    &&& !components(p).contains(seq!['.', '.'])
    &&& !starts_with(p, seq!['-'])
}

fn safe_git_path_of(p: &[char]) -> (b: bool)
    ensures
        b == safe_git_path(p@),
{
    if p.len() > 0 && p[0] == '/' {
        return false;
    }
    let cs = components_of(p);
    let ghost cv = views(cs@);
    let dd = two('.', '.');
    let mut i: usize = 0;
    while i < cs.len()
        invariant
            i <= cs@.len(),
            cv == views(cs@),
            cv == components(p@),
            dd@ == seq!['.', '.'],
            forall|j: int| 0 <= j < i ==> cv[j] != seq!['.', '.'],
        decreases cs@.len() - i,
    {
        assert(cv[i as int] == cs@[i as int]@);
        if eq(&cs[i], &dd) {
            assert(cv.contains(seq!['.', '.']));
            return false;
        }
        i = i + 1;
    }
    !starts_with_of(p, &one('-'))
}

/// Whether `path` is safe to hand to git: relative, with no `..`
/// component, not starting with `-`.
pub fn is_safe_git_path(path: &str) -> (b: bool)
    ensures
        b == safe_git_path(path@),
{
    safe_git_path_of(&chars_of(path))
}

/// A branch name without option-like start, `..`, control line
/// breaks, NUL, trailing `.`, or any of `\ ~ ^ : ? * [` and space.
pub open spec fn safe_branch_name(b: Seq<char>) -> bool {
    &&& b.len() > 0
    &&& !starts_with(b, seq!['-'])
    &&& !contains(b, seq!['.', '.'])
    &&& !b.contains('\n') && !b.contains('\r') && !b.contains('\0')
    &&& !ends_with(b, seq!['.'])
    &&& !b.contains('\\') && !b.contains('~') && !b.contains('^') && !b.contains(':')
    &&& !b.contains('?') && !b.contains('*') && !b.contains('[')
    &&& !b.contains(' ')
}

/// A character of a plain branch name: an ASCII letter or digit, `-`,
/// `_`, `/` or `.`.
pub open spec fn plain_branch_char(c: char) -> bool {
    ('a' <= c && c <= 'z') || ('A' <= c && c <= 'Z') || ('0' <= c && c <= '9') || c == '-' || c
        == '_' || c == '/' || c == '.'
}

/// A plain branch name: non-empty, made of plain characters, not
/// starting with `-`, not ending with `.`, without `..`.
pub open spec fn plain_branch_name(b: Seq<char>) -> bool {
    &&& b.len() > 0
    &&& forall|i: int| 0 <= i < b.len() ==> plain_branch_char(#[trigger] b[i])
    &&& b[0] != '-'
    &&& b.last() != '.'
    &&& !contains(b, seq!['.', '.'])
}

/// Every plain branch name is safe: single dots inside a name (as in
/// `release-1.2`), digits, `-`, `_` and `/` are all accepted; only a
/// leading `-`, a trailing `.`, `..` and the characters git or a shell
/// would read specially are refused.
pub proof fn lemma_plain_branch_names_are_safe(b: Seq<char>)
    ensures
        plain_branch_name(b) ==> safe_branch_name(b),
{
    if plain_branch_name(b) {
        assert forall|c: char| !plain_branch_char(c) implies !b.contains(c) by {
            if b.contains(c) {
                let i = choose|i: int| 0 <= i < b.len() && b[i] == c;
                assert(plain_branch_char(b[i]));
            }
        }
        assert(!plain_branch_char('\n') && !plain_branch_char('\r') && !plain_branch_char('\0'));
        assert(!plain_branch_char('\\') && !plain_branch_char('~') && !plain_branch_char('^'));
        assert(!plain_branch_char(':') && !plain_branch_char('?') && !plain_branch_char('*'));
        assert(!plain_branch_char('[') && !plain_branch_char(' '));
        assert(!starts_with(b, seq!['-'])) by {
            if starts_with(b, seq!['-']) {
                assert(b.take(1)[0] == b[0]);
            }
        }
        assert(!ends_with(b, seq!['.'])) by {
            if ends_with(b, seq!['.']) {
                assert(b.skip(b.len() - 1)[0] == b.last());
            }
        }
    }
}

/// Whether `branch` is safe to use in git commands.
pub fn is_safe_branch_name(branch: &str) -> (b: bool)
    ensures
        b == safe_branch_name(branch@),
{
    let v = chars_of(branch);
    if v.len() == 0 {
        return false;
    }
    if starts_with_of(&v, &one('-')) {
        return false;
    }
    if contains_of(&v, &two('.', '.')) {
        return false;
    }
    if in_set('\n', &v) || in_set('\r', &v) || in_set('\0', &v) {
        return false;
    }
    if ends_with_of(&v, &one('.')) {
        return false;
    }
    if in_set('\\', &v) || in_set('~', &v) || in_set('^', &v) || in_set(':', &v) {
        return false;
    }
    if in_set('?', &v) || in_set('*', &v) || in_set('[', &v) {
        return false;
    }
    !in_set(' ', &v)
}

// ---------------------------------------------------------------------
// Nested repositories among untracked entries
// ---------------------------------------------------------------------

/// The path to probe for a `.git` entry when `entry` (an untracked path
/// from `git ls-files --others`) may be a nested repository: the entry
/// without trailing `/`, unless that is empty, `.`, or unsafe.
pub open spec fn nested_repo_candidate(entry: Seq<char>) -> Option<Seq<char>> {
    let t = trim_end_set(entry, seq!['/']);
    if t.len() == 0 || t == seq!['.'] || !safe_git_path(t) {
        None
    } else {
        Some(t)
    }
}

/// The relative path whose `<repo>/<path>/.git` decides whether `entry`
/// is a nested repository (see [`nested_repo_candidate`]).
pub fn nested_repo_probe_path(entry: &str) -> (r: Option<String>)
    ensures
        r is Some <==> nested_repo_candidate(entry@) is Some,
        r matches Some(v) ==> nested_repo_candidate(entry@) == Some(v@),
{
    let t = trim_end_set_of(&chars_of(entry), &one('/'));
    let dot = t.len() == 1 && t[0] == '.';
    assert(dot <==> t@ == seq!['.']) by {
        if t@ == seq!['.'] {
            assert(t@.len() == 1 && t@[0] == '.');
        }
        if dot {
            assert(t@ =~= seq!['.']);
        }
    }
    if t.len() == 0 || dot || !safe_git_path_of(&t) {
        None
    } else {
        Some(string_of(&t))
    }
}

/// Whether `entry` is the path of a nested repository, given whether a
/// `.git` entry exists under its probe path (see
/// [`nested_repo_probe_path`]).
pub fn is_nested_repo_path(entry: &str, probe_has_dot_git: bool) -> (b: bool)
    ensures
        b == (nested_repo_candidate(entry@) is Some && probe_has_dot_git),
{
    nested_repo_probe_path(entry).is_some() && probe_has_dot_git
}

/// How many untracked entries are nested repositories; each entry comes
/// with whether its probe path holds a `.git` entry.
pub fn count_nested_repo_untracked_entries(entries: &[(String, bool)]) -> (n: usize)
    ensures
        n == entries@.filter(
            |e: (String, bool)| nested_repo_candidate(e.0@) is Some && e.1,
        ).len(),
{
    let ghost pred = |e: (String, bool)| nested_repo_candidate(e.0@) is Some && e.1;
    let mut n: usize = 0;
    let mut i: usize = 0;
    assert(entries@.take(0) =~= Seq::<(String, bool)>::empty());
    reveal_with_fuel(Seq::<_>::filter, 1);
    while i < entries.len()
        invariant
            i <= entries@.len(),
            pred == (|e: (String, bool)| nested_repo_candidate(e.0@) is Some && e.1),
            n == entries@.take(i as int).filter(pred).len(),
            n <= i,
        decreases entries@.len() - i,
    {
        reveal_with_fuel(Seq::<_>::filter, 1);
        assert(entries@.take(i + 1).drop_last() =~= entries@.take(i as int));
        assert(entries@.take(i + 1).last() == entries@[i as int]);
        if is_nested_repo_path(entries[i].0.as_str(), entries[i].1) {
            assert(pred(entries@[i as int]));
            n = n + 1;
        } else {
            assert(!pred(entries@[i as int]));
        }
        i = i + 1;
    }
    assert(entries@.take(entries@.len() as int) =~= entries@);
    n
}

/// Whether the content of a `.git` file makes it a worktree/submodule
/// pointer (`gitdir:` after leading whitespace).
pub fn is_git_worktree_file_content(content: &str) -> (b: bool)
    ensures
        b == starts_with(trim(content@), "gitdir:"@),
{
    starts_with_of(&trim_of(&chars_of(content)), &chars_of("gitdir:"))
}


// ---------------------------------------------------------------------
// Gitlinks in the parent's index
// ---------------------------------------------------------------------

/// The `(path, sha)` of one `git ls-files --stage` line when it is a
/// gitlink: `<mode> <sha> <stage>\t<path>` with mode `160000`.
pub open spec fn gitlink_of_stage_line(line: Seq<char>) -> Option<(Seq<char>, Seq<char>)> {
    let ps = split(line, '\t');
    if ps.len() < 2 {
        None
    } else {
        let w = words(ps[0]);
        if w.len() < 2 {
            None
        } else if w[0] == seq!['1', '6', '0', '0', '0', '0'] {
            Some((ps[1], w[1]))
        } else {
            None
        }
    }
}

/// The gitlinks of `git ls-files --stage` output, in order.
pub open spec fn gitlinks_of_stage_output(out: Seq<char>) -> Seq<(Seq<char>, Seq<char>)> {
    lines(out).filter_map(|l: Seq<char>| gitlink_of_stage_line(l))
}

pub open spec fn pair_views(v: Seq<(String, String)>) -> Seq<(Seq<char>, Seq<char>)> {
    v.map_values(|p: (String, String)| (p.0@, p.1@))
}

fn gitlink_mode() -> (v: Vec<char>)
    ensures
        v@ == seq!['1', '6', '0', '0', '0', '0'],
{
    let mut v: Vec<char> = Vec::new();
    v.push('1');
    v.push('6');
    v.push('0');
    v.push('0');
    v.push('0');
    v.push('0');
    assert(v@ =~= seq!['1', '6', '0', '0', '0', '0']);
    v
}

fn gitlink_of_stage_line_of(line: &[char]) -> (r: Option<(String, String)>)
    ensures
        r is Some <==> gitlink_of_stage_line(line@) is Some,
        r matches Some(p) ==> gitlink_of_stage_line(line@) == Some((p.0@, p.1@)),
{
    let ps = split_of(line, '\t');
    if ps.len() < 2 {
        return None;
    }
    assert(views(ps@)[0] == ps@[0]@);
    assert(views(ps@)[1] == ps@[1]@);
    let w = words_of(&ps[0]);
    if w.len() < 2 {
        return None;
    }
    assert(views(w@)[0] == w@[0]@);
    assert(views(w@)[1] == w@[1]@);
    if eq(&w[0], &gitlink_mode()) {
        Some((string_of(&ps[1]), string_of(&w[1])))
    } else {
        None
    }
}

/// The `(path, sha)` pairs of the gitlinks (mode `160000`) listed by
/// `git ls-files --stage`, in listing order.
pub fn read_parent_gitlink_shas(ls_files_stage_output: &str) -> (r: Vec<(String, String)>)
    ensures
        pair_views(r@) == gitlinks_of_stage_output(ls_files_stage_output@),
{
    let ls = lines_of(&chars_of(ls_files_stage_output));
    let ghost lv = views(ls@);
    let ghost f = |l: Seq<char>| gitlink_of_stage_line(l);
    let mut out: Vec<(String, String)> = Vec::new();
    let mut i: usize = 0;
    assert(lv.take(0) =~= Seq::<Seq<char>>::empty());
    assert(pair_views(out@) =~= Seq::<(Seq<char>, Seq<char>)>::empty());
    while i < ls.len()
        invariant
            i <= ls@.len(),
            lv == views(ls@),
            lv == lines(ls_files_stage_output@),
            f == (|l: Seq<char>| gitlink_of_stage_line(l)),
            pair_views(out@) == lv.take(i as int).filter_map(f),
        decreases ls@.len() - i,
    {
        assert(lv.take(i + 1).drop_last() =~= lv.take(i as int));
        assert(lv.take(i + 1).last() == ls@[i as int]@);
        match gitlink_of_stage_line_of(&ls[i]) {
            Some(p) => {
                let ghost before = out@;
                out.push(p);
                assert(pair_views(out@) =~= pair_views(before) + seq![(p.0@, p.1@)]);
            },
            None => {},
        }
        i = i + 1;
    }
    assert(lv.take(lv.len() as int) =~= lv);
    out
}

// ---------------------------------------------------------------------
// Walking the watch roots
// ---------------------------------------------------------------------

/// How many levels below a watch root the walk finds repositories.
pub const MAX_DISCOVERY_DEPTH: usize = 4;

/// Whether the walk reads the directory found at `depth` below a root
/// (the root itself is at depth 0). The entries of a directory read at
/// depth `d` lie `d + 1` levels below the root, so the walk reads the
/// directories above the last level and finds repositories up to
/// [`MAX_DISCOVERY_DEPTH`] levels deep.
pub fn walks_dir_at_depth(depth: usize) -> (b: bool)
    ensures
        b == (depth < MAX_DISCOVERY_DEPTH),
{
    depth < MAX_DISCOVERY_DEPTH
}

/// What the walk does with one entry of a directory.
#[derive(Debug, Clone, Copy, PartialEq, Eq)]
pub enum WalkStep {
    /// Not a directory worth entering.
    Skip,
    /// Walk into it.
    Descend,
    /// A repository: record it, and walk into it for nested ones.
    RecordAndDescend,
}

/// The decision for an entry called `name`: only real directories
/// count; the excluded names and git's `objects` are skipped; a
/// directory with a `.git` directory or worktree file is a repository;
/// other hidden directories are skipped.
pub open spec fn walk_step(
    name: Seq<char>,
    is_dir: bool,
    is_symlink: bool,
    has_repo_marker: bool,
    excluded: Seq<Seq<char>>,
) -> WalkStep {
    if !is_dir || is_symlink {
        WalkStep::Skip
    } else if excluded.contains(name) || name == "objects"@ {
        WalkStep::Skip
    } else if has_repo_marker {
        WalkStep::RecordAndDescend
    } else if starts_with(name, seq!['.']) {
        WalkStep::Skip
    } else {
        WalkStep::Descend
    }
}

/// The walk's decision for one directory entry (see [`walk_step`]);
/// `excluded_dir_names` is matched exactly.
pub fn walk_entry_step(
    name: &str,
    is_dir: bool,
    is_symlink: bool,
    has_repo_marker: bool,
    excluded_dir_names: &[String],
) -> (r: WalkStep)
    ensures
        r == walk_step(name@, is_dir, is_symlink, has_repo_marker, string_views(excluded_dir_names@)),
{
    if !is_dir || is_symlink {
        return WalkStep::Skip;
    }
    let n = chars_of(name);
    let ghost ex = string_views(excluded_dir_names@);
    let mut i: usize = 0;
    while i < excluded_dir_names.len()
        invariant
            i <= excluded_dir_names@.len(),
            ex == string_views(excluded_dir_names@),
            n@ == name@,
            forall|k: int| 0 <= k < i ==> ex[k] != name@,
        decreases excluded_dir_names@.len() - i,
    {
        if eq(&chars_of(excluded_dir_names[i].as_str()), &n) {
            assert(ex[i as int] == name@);
            return WalkStep::Skip;
        }
        i = i + 1;
    }
    assert(!ex.contains(name@));
    if eq(&n, &chars_of("objects")) {
        return WalkStep::Skip;
    }
    if has_repo_marker {
        return WalkStep::RecordAndDescend;
    }
    if starts_with_of(&n, &one('.')) {
        WalkStep::Skip
    } else {
        WalkStep::Descend
    }
}

// ---------------------------------------------------------------------
// Excluded repositories and the system repository
// ---------------------------------------------------------------------

/// The lowercased file name of a path, or empty when it has none.
pub open spec fn lowercase_file_name(p: Seq<char>) -> Seq<char> {
    match file_name(p) {
        Some(n) => unicode_lowercase(n),
        None => Seq::empty(),
    }
}

/// A repository is excluded when an `exclude_repos` entry equals,
/// ignoring case, its whole path or its directory name.
pub open spec fn repo_excluded(p: Seq<char>, excl: Seq<Seq<char>>) -> bool {
    exists|i: int|
        0 <= i < excl.len() && (unicode_lowercase(#[trigger] excl[i]) == unicode_lowercase(p)
            || unicode_lowercase(excl[i]) == lowercase_file_name(p))
}

fn lowercase_file_name_of(p: &[char]) -> (r: Vec<char>)
    ensures
        r@ == lowercase_file_name(p@),
{
    match file_name_of(p) {
        Some(n) => chars_of(to_lowercase(string_of(&n).as_str()).as_str()),
        None => Vec::new(),
    }
}

/// Whether an already lowercased exclusion list names a repository by
/// its lowercased path or lowercased directory name.
pub fn excluded_by_lowered(path_lower: &str, name_lower: &str, excludes_lower: &[String]) -> (b:
    bool)
    ensures
        b == exists|i: int|
            0 <= i < excludes_lower@.len() && ((#[trigger] string_views(excludes_lower@)[i])
                == path_lower@ || string_views(excludes_lower@)[i] == name_lower@),
{
    let abs = chars_of(path_lower);
    let name = chars_of(name_lower);
    let ghost ex = string_views(excludes_lower@);
    let mut i: usize = 0;
    while i < excludes_lower.len()
        invariant
            i <= excludes_lower@.len(),
            ex == string_views(excludes_lower@),
            abs@ == path_lower@,
            name@ == name_lower@,
            forall|k: int| 0 <= k < i ==> #[trigger] ex[k] != path_lower@ && ex[k] != name_lower@,
        decreases excludes_lower@.len() - i,
    {
        let e = chars_of(excludes_lower[i].as_str());
        assert(ex[i as int] == e@);
        if eq(&e, &abs) || eq(&e, &name) {
            return true;
        }
        i = i + 1;
    }
    false
}

/// Whether `path` is excluded by `exclude_repos` (see [`repo_excluded`]).
pub fn is_excluded_repo(path: &str, exclude_repos: &[String]) -> (b: bool)
    ensures
        b == repo_excluded(path@, string_views(exclude_repos@)),
{
    let abs = to_lowercase(path);
    let name = string_of(&lowercase_file_name_of(&chars_of(path)));
    let ghost ex = string_views(exclude_repos@);
    let mut lowered: Vec<String> = Vec::new();
    let mut i: usize = 0;
    while i < exclude_repos.len()
        invariant
            i <= exclude_repos@.len(),
            ex == string_views(exclude_repos@),
            lowered@.len() == i,
            forall|k: int| 0 <= k < i ==> (#[trigger] lowered@[k])@ == unicode_lowercase(ex[k]),
        decreases exclude_repos@.len() - i,
    {
        assert(ex[i as int] == exclude_repos@[i as int]@);
        lowered.push(to_lowercase(exclude_repos[i].as_str()));
        i = i + 1;
    }
    let r = excluded_by_lowered(abs.as_str(), name.as_str(), &lowered);
    proof {
        if r {
            let k = choose|k: int|
                0 <= k < lowered@.len() && ((#[trigger] string_views(lowered@)[k]) == abs@
                    || string_views(lowered@)[k] == name@);
            assert(string_views(lowered@)[k] == lowered@[k]@);
            assert(unicode_lowercase(ex[k]) == unicode_lowercase(path@) || unicode_lowercase(ex[k])
                == lowercase_file_name(path@));
        } else {
            assert forall|k: int| 0 <= k < ex.len() implies !(unicode_lowercase(#[trigger] ex[k])
                == unicode_lowercase(path@) || unicode_lowercase(ex[k]) == lowercase_file_name(path@)) by {
                assert(string_views(lowered@)[k] == lowered@[k]@);
            }
        }
    }
    r
}

/// The repositories of `found` that are not excluded, in order.
pub open spec fn kept_repos(found: Seq<Seq<char>>, excl: Seq<Seq<char>>) -> Seq<Seq<char>> {
    found.filter(|r: Seq<char>| !repo_excluded(r, excl))
}

/// The discovered repositories: those of `found` (the repositories met
/// by walking the roots, roots first) that are not excluded, then the
/// system repository when it is a repository, not excluded, and not
/// already listed as the same path.
pub open spec fn discovered_repos(
    found: Seq<Seq<char>>,
    excl: Seq<Seq<char>>,
    system: Option<Seq<char>>,
    system_is_repo: bool,
) -> Seq<Seq<char>> {
    let kept = kept_repos(found, excl);
    match system {
        Some(s) => if system_is_repo && !(exists|k: int|
            0 <= k < kept.len() && same_path(#[trigger] kept[k], s)) && !repo_excluded(s, excl) {
            kept.push(s)
        } else {
            kept
        },
        None => kept,
    }
}

/// No discovered repository is excluded; every repository found under
/// the roots that is not excluded is discovered; and an existing system
/// repository that is not excluded is always among the discovered
/// ones (itself, or a listed entry naming the same path).
pub proof fn lemma_discovery_respects_exclusions(
    found: Seq<Seq<char>>,
    excl: Seq<Seq<char>>,
    system: Option<Seq<char>>,
    system_is_repo: bool,
)
    ensures
        ({
            let d = discovered_repos(found, excl, system, system_is_repo);
            &&& forall|k: int| 0 <= k < d.len() ==> !repo_excluded(#[trigger] d[k], excl)
            &&& forall|k: int|
                0 <= k < found.len() && !repo_excluded(#[trigger] found[k], excl) ==> d.contains(
                    found[k],
                )
            &&& (system is Some && system_is_repo && !repo_excluded(system->0, excl)) ==> (exists|
                k: int,
            | 0 <= k < d.len() && same_path(#[trigger] d[k], system->0))
        }),
{
    let keep = |r: Seq<char>| !repo_excluded(r, excl);
    let kept = kept_repos(found, excl);
    let d = discovered_repos(found, excl, system, system_is_repo);
    broadcast use vstd::seq_lib::group_filter_ensures;

    assert forall|k: int| 0 <= k < found.len() && !repo_excluded(#[trigger] found[k], excl) implies d.contains(found[k]) by {
        assert(keep(found[k]));
        assert(kept.contains(found[k]));
        let j = choose|j: int| 0 <= j < kept.len() && kept[j] == found[k];
        assert(d[j] == kept[j]);
    }
    assert forall|k: int| 0 <= k < d.len() implies !repo_excluded(#[trigger] d[k], excl) by {
        if k < kept.len() {
            assert(d[k] == kept[k]);
            assert(keep(kept[k]));
        }
    }
    match system {
        Some(s) => {
            if system_is_repo && !repo_excluded(s, excl) && !(exists|k: int|
                0 <= k < kept.len() && same_path(#[trigger] kept[k], s)) {
                assert(d[kept.len() as int] == s);
                assert(same_path(d[kept.len() as int], s));
            } else if system_is_repo && !repo_excluded(s, excl) {
                let k = choose|k: int| 0 <= k < kept.len() && same_path(#[trigger] kept[k], s);
                assert(d[k] == kept[k]);
            }
        },
        None => {},
    }
}

/// Filters the repositories found under the watch roots and adds the
/// system repository (see [`discovered_repos`]); `system_is_repo` says
/// whether `system_repo` exists with a `.git` entry.
pub fn discover_git_repos(
    found: &[String],
    exclude_repos: &[String],
    system_repo: Option<&str>,
    system_is_repo: bool,
) -> (r: Vec<String>)
    ensures
        string_views(r@) == discovered_repos(
            string_views(found@),
            string_views(exclude_repos@),
            match system_repo {
                Some(s) => Some(s@),
                None => None,
            },
            system_is_repo,
        ),
{
    let ghost fv = string_views(found@);
    let ghost ex = string_views(exclude_repos@);
    let ghost keep = |r: Seq<char>| !repo_excluded(r, ex);
    let mut out: Vec<String> = Vec::new();
    let mut i: usize = 0;
    assert(fv.take(0) =~= Seq::<Seq<char>>::empty());
    assert(string_views(out@) =~= Seq::<Seq<char>>::empty());
    reveal_with_fuel(Seq::<_>::filter, 1);
    while i < found.len()
        invariant
            i <= found@.len(),
            fv == string_views(found@),
            ex == string_views(exclude_repos@),
            keep == (|r: Seq<char>| !repo_excluded(r, ex)),
            string_views(out@) == fv.take(i as int).filter(keep),
        decreases found@.len() - i,
    {
        reveal_with_fuel(Seq::<_>::filter, 1);
        assert(fv.take(i + 1).drop_last() =~= fv.take(i as int));
        assert(fv.take(i + 1).last() == found@[i as int]@);
        if !is_excluded_repo(found[i].as_str(), exclude_repos) {
            let r = found[i].clone();
            proof {
                lemma_string_views_push(out@, r);
            }
            out.push(r);
        }
        i = i + 1;
    }
    assert(fv.take(fv.len() as int) =~= fv);
    let ghost kept = string_views(out@);
    assert(kept == kept_repos(fv, ex));
    if let Some(system) = system_repo {
        if system_is_repo {
            let sv = chars_of(system);
            let mut listed = false;
            let mut k: usize = 0;
            while k < out.len() && !listed
                invariant
                    k <= out@.len(),
                    kept == string_views(out@),
                    sv@ == system@,
                    listed ==> exists|m: int| 0 <= m < kept.len() && same_path(#[trigger] kept[m], system@),
                    !listed ==> forall|m: int| 0 <= m < k ==> !same_path(#[trigger] kept[m], system@),
                decreases out@.len() - k,
            {
                if same_path_of(&chars_of(out[k].as_str()), &sv) {
                    listed = true;
                    assert(same_path(kept[k as int], system@));
                }
                k = k + 1;
            }
            if !listed && !is_excluded_repo(system, exclude_repos) {
                let s = string_of(&sv);
                proof {
                    lemma_string_views_push(out@, s);
                }
                out.push(s);
            }
        }
    }
    out
}

} // verus!
