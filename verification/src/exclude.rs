//! Which changed paths the sync leaves out: excluded directory names,
//! file-name patterns, path globs, build-output directories.

use vstd::prelude::*;
use crate::ordered::{sorted_insert, strictly_sorted};
use crate::path::{components, components_of, file_name_or_empty, file_name_or_empty_of};
use crate::sys::{path_strip_prefix, path_strip_prefix_result};
use crate::text::{
    chars_of, contains, contains_of, ends_with, ends_with_of, eq, in_set, replace_char,
    replace_char_of, one, two, three, lemma_string_views_push, split, split_of, starts_with,
    starts_with_of, string_of, string_views, strip_prefix, strip_prefix_of, to_ascii_lower,
    to_ascii_lower_of, trim_set, trim_set_of, views, words, words_of, slice_copy, trim,
    trim_of, lines, lines_of, join, join_of, lemma_views_push,
};

verus! {

broadcast use vstd::string::group_string_axioms;

// ---------------------------------------------------------------------
// Directory names
// ---------------------------------------------------------------------

/// A directory name with surrounding `/` removed, ASCII-lowercased.
pub open spec fn normalized(v: Seq<char>) -> Seq<char> {
    to_ascii_lower(trim_set(v, seq!['/']))
}

fn slash() -> (v: Vec<char>)
    ensures
        v@ == seq!['/'],
{
    let mut v: Vec<char> = Vec::new();
    v.push('/');
    assert(v@ =~= seq!['/']);
    v
}

fn normalized_of(v: &[char]) -> (r: Vec<char>)
    ensures
        r@ == normalized(v@),
{
    let t = trim_set_of(v, &slash());
    to_ascii_lower_of(&t)
}

/// The normalized form of a directory name: `/` stripped from both
/// ends, ASCII letters lowercased.
pub fn normalized_dir_name(value: &str) -> (r: String)
    ensures
        r@ == normalized(value@),
{
    let v = chars_of(value);
    string_of(&normalized_of(&v))
}

/// Whether directory `name` is excluded by the single `pattern`:
/// - equal after normalizing both;
/// - a pattern `.xxx-` (starting with `.`, ending with `-`) excludes a
///   name whose normalized form starts with the normalized pattern
///   (`.tmp-` excludes `.tmp-file`, not `.tmpfile` nor `.tmp`);
/// - a pattern `xxx*` excludes a name whose normalized form starts with
///   `xxx` (the pattern as written, not normalized).
pub open spec fn dir_pattern_matches(name: Seq<char>, pattern: Seq<char>) -> bool {
    let n = normalized(name);
    let np = normalized(pattern);
    ||| np == n
    ||| ends_with(pattern, seq!['-']) && starts_with(pattern, seq!['.']) && starts_with(n, np)
    ||| ends_with(pattern, seq!['*']) && starts_with(n, pattern.drop_last())
}

/// Some pattern of `excluded` excludes directory `name`.
pub open spec fn dir_name_excluded(name: Seq<char>, excluded: Seq<Seq<char>>) -> bool {
    exists|i: int| 0 <= i < excluded.len() && dir_pattern_matches(name, #[trigger] excluded[i])
}

fn dir_pattern_matches_of(name: &[char], pattern: &[char]) -> (b: bool)
    ensures
        b == dir_pattern_matches(name@, pattern@),
{
    let n = normalized_of(name);
    let np = normalized_of(pattern);
    if eq(&np, &n) {
        return true;
    }
    if ends_with_of(pattern, &one('-')) && starts_with_of(pattern, &one('.')) && starts_with_of(
        &n,
        &np,
    ) {
        return true;
    }
    if pattern.len() > 0 && pattern[pattern.len() - 1] == '*' {
        let head = slice_copy(pattern, 0, pattern.len() - 1);
        assert(head@ =~= pattern@.drop_last());
        assert(ends_with(pattern@, seq!['*'])) by {
            assert(pattern@.skip(pattern@.len() - 1) =~= seq!['*']);
        }
        if starts_with_of(&n, &head) {
            return true;
        }
    } else {
        assert(!ends_with(pattern@, seq!['*'])) by {
            if ends_with(pattern@, seq!['*']) {
                assert(pattern@.skip(pattern@.len() - 1)[0] == pattern@[pattern@.len() - 1]);
            }
        }
    }
    false
}

fn dir_name_excluded_of(name: &[char], excluded: &[String]) -> (b: bool)
    ensures
        b == dir_name_excluded(name@, string_views(excluded@)),
{
    let ghost ex = string_views(excluded@);
    let mut i: usize = 0;
    while i < excluded.len()
        invariant
            i <= excluded@.len(),
            ex == string_views(excluded@),
            forall|j: int| 0 <= j < i ==> !dir_pattern_matches(name@, #[trigger] ex[j]),
        decreases excluded@.len() - i,
    {
        let p = chars_of(excluded[i].as_str());
        if dir_pattern_matches_of(name, &p) {
            assert(ex[i as int] == p@);
            return true;
        }
        i = i + 1;
    }
    false
}

/// Whether directory `name` is excluded by some pattern of
/// `excluded_dir_names` (see [`dir_pattern_matches`]).
pub fn is_excluded_dir_name(name: &str, excluded_dir_names: &[String]) -> (b: bool)
    ensures
        b == dir_name_excluded(name@, string_views(excluded_dir_names@)),
{
    dir_name_excluded_of(&chars_of(name), excluded_dir_names)
}

/// The names of the set of excluded directories: each configured name
/// normalized, empty ones dropped.
pub open spec fn dir_names_set(names: Seq<Seq<char>>) -> Set<Seq<char>> {
    Set::new(
        |d: Seq<char>|
            exists|i: int|
                0 <= i < names.len() && d == normalized(#[trigger] names[i]) && d.len() > 0,
    )
}

/// The excluded-directory set of a policy: the configured names,
/// normalized, without empty ones, in ascending order without repeats.
pub fn excluded_dir_names_set(exclude_dir_names: &[String]) -> (r: Vec<String>)
    ensures
        strictly_sorted(string_views(r@)),
        string_views(r@).to_set() == dir_names_set(string_views(exclude_dir_names@)),
{
    let ghost names = string_views(exclude_dir_names@);
    let mut acc: Vec<Vec<char>> = Vec::new();
    let mut i: usize = 0;
    assert(views(acc@).to_set() =~= Set::<Seq<char>>::empty());
    while i < exclude_dir_names.len()
        invariant
            i <= exclude_dir_names@.len(),
            names == string_views(exclude_dir_names@),
            strictly_sorted(views(acc@)),
            views(acc@).to_set() == Set::new(
                |d: Seq<char>|
                    exists|j: int|
                        0 <= j < i && d == normalized(#[trigger] names[j]) && d.len() > 0,
            ),
        decreases exclude_dir_names@.len() - i,
    {
        let d = normalized_of(&chars_of(exclude_dir_names[i].as_str()));
        let ghost before = views(acc@).to_set();
        if d.len() > 0 {
            sorted_insert(&mut acc, d);
        }
        assert(views(acc@).to_set() =~= Set::new(
            |e: Seq<char>|
                exists|j: int| 0 <= j < i + 1 && e == normalized(#[trigger] names[j]) && e.len() > 0,
        )) by {
            assert(names[i as int] == exclude_dir_names@[i as int]@);
            assert forall|e: Seq<char>|
                (exists|j: int| 0 <= j < i + 1 && e == normalized(#[trigger] names[j]) && e.len() > 0)
                    implies views(acc@).to_set().contains(e) by {
                let j = choose|j: int| 0 <= j < i + 1 && e == normalized(#[trigger] names[j]) && e.len() > 0;
                if j < i {
                    assert(before.contains(e));
                }
            }
        }
        i = i + 1;
    }
    let mut out: Vec<String> = Vec::new();
    let mut k: usize = 0;
    while k < acc.len()
        invariant
            k <= acc@.len(),
            string_views(out@) == views(acc@).take(k as int),
        decreases acc@.len() - k,
    {
        let sk = string_of(&acc[k]);
        proof {
            lemma_string_views_push(out@, sk);
        }
        out.push(sk);
        k = k + 1;
        assert(string_views(out@) =~= views(acc@).take(k as int));
    }
    assert(views(acc@).take(acc@.len() as int) =~= views(acc@));
    assert(dir_names_set(names) =~= views(acc@).to_set());
    out
}

// ---------------------------------------------------------------------
// Changed paths and file names
// ---------------------------------------------------------------------

/// Some component of `path` is an excluded directory name.
pub open spec fn change_path_excluded(path: Seq<char>, excluded: Seq<Seq<char>>) -> bool {
    exists|k: int|
        0 <= k < components(path).len() && dir_name_excluded(
            #[trigger] components(path)[k],
            excluded,
        )
}

fn change_path_excluded_of(path: &[char], excluded: &[String]) -> (b: bool)
    ensures
        b == change_path_excluded(path@, string_views(excluded@)),
{
    let comps = components_of(path);
    let ghost cs = components(path@);
    let mut k: usize = 0;
    while k < comps.len()
        invariant
            k <= comps@.len(),
            views(comps@) == cs,
            cs == components(path@),
            forall|j: int|
                0 <= j < k ==> !dir_name_excluded(#[trigger] cs[j], string_views(excluded@)),
        decreases comps@.len() - k,
    {
        assert(cs[k as int] == comps@[k as int]@);
        if dir_name_excluded_of(&comps[k], excluded) {
            return true;
        }
        k = k + 1;
    }
    false
}

/// Whether some component of the relative `path` is an excluded
/// directory name.
pub fn is_excluded_change_path(path: &str, excluded_dir_names: &[String]) -> (b: bool)
    ensures
        b == change_path_excluded(path@, string_views(excluded_dir_names@)),
{
    change_path_excluded_of(&chars_of(path), excluded_dir_names)
}

/// Whether file name `f` matches `pattern`: equal; `*.ext` by suffix;
/// `name.*` by prefix; or a pattern with exactly one `*` by the text
/// before it as prefix and the text after it as suffix.
pub open spec fn file_pattern_matches(f: Seq<char>, p: Seq<char>) -> bool {
    ||| p == f
    ||| starts_with(p, seq!['*', '.']) && ends_with(f, p.skip(1))
    ||| ends_with(p, seq!['.', '*']) && starts_with(f, p.drop_last())
    ||| {
        &&& p.contains('*')
        &&& split(p, '*').len() == 2
        &&& starts_with(f, split(p, '*')[0])
        &&& ends_with(f, split(p, '*')[1])
    }
}

fn file_pattern_matches_of(f: &[char], p: &[char]) -> (b: bool)
    ensures
        b == file_pattern_matches(f@, p@),
{
    if eq(p, f) {
        return true;
    }
    if starts_with_of(p, &two('*', '.')) {
        let ext = slice_copy(p, 1, p.len());
        assert(ext@ =~= p@.skip(1));
        if ends_with_of(f, &ext) {
            return true;
        }
    }
    if ends_with_of(p, &two('.', '*')) {
        let prefix = slice_copy(p, 0, p.len() - 1);
        assert(prefix@ =~= p@.drop_last());
        if starts_with_of(f, &prefix) {
            return true;
        }
    }
    if in_set('*', p) {
        let parts = split_of(p, '*');
        if parts.len() == 2 {
            assert(views(parts@)[0] == parts@[0]@);
            assert(views(parts@)[1] == parts@[1]@);
            if starts_with_of(f, &parts[0]) && ends_with_of(f, &parts[1]) {
                return true;
            }
        }
    }
    false
}

/// Whether `file_name` matches `pattern` (see [`file_pattern_matches`]).
pub fn matches_file_pattern(file_name: &str, pattern: &str) -> (b: bool)
    ensures
        b == file_pattern_matches(file_name@, pattern@),
{
    file_pattern_matches_of(&chars_of(file_name), &chars_of(pattern))
}

/// Some pattern matches the file name of `path` (the empty name when the
/// path has none).
pub open spec fn file_excluded(path: Seq<char>, patterns: Seq<Seq<char>>) -> bool {
    exists|i: int|
        0 <= i < patterns.len() && file_pattern_matches(
            file_name_or_empty(path),
            #[trigger] patterns[i],
        )
}

fn any_pattern_matches(f: &[char], patterns: &[String]) -> (b: bool)
    ensures
        b == exists|i: int|
            0 <= i < patterns@.len() && file_pattern_matches(
                f@,
                #[trigger] string_views(patterns@)[i],
            ),
{
    let ghost ps = string_views(patterns@);
    let mut i: usize = 0;
    while i < patterns.len()
        invariant
            i <= patterns@.len(),
            ps == string_views(patterns@),
            forall|j: int| 0 <= j < i ==> !file_pattern_matches(f@, #[trigger] ps[j]),
        decreases patterns@.len() - i,
    {
        let p = chars_of(patterns[i].as_str());
        assert(ps[i as int] == p@);
        if file_pattern_matches_of(f, &p) {
            return true;
        }
        i = i + 1;
    }
    false
}

fn file_excluded_of(path: &[char], patterns: &[String]) -> (b: bool)
    ensures
        b == file_excluded(path@, string_views(patterns@)),
{
    let f = file_name_or_empty_of(path);
    any_pattern_matches(&f, patterns)
}

/// Whether the file name of `file_path` matches one of
/// `excluded_patterns`.
pub fn is_excluded_file(file_path: &str, excluded_patterns: &[String]) -> (b: bool)
    ensures
        b == file_excluded(file_path@, string_views(excluded_patterns@)),
{
    file_excluded_of(&chars_of(file_path), excluded_patterns)
}


// ---------------------------------------------------------------------
// Untracked/auto-commit exclude patterns
// ---------------------------------------------------------------------

/// The path of `file` relative to `repo` (or `file` itself when `repo`
/// is no prefix of it), with `\` turned into `/`.
pub open spec fn rel_path(repo: Seq<char>, file: Seq<char>) -> Seq<char> {
    let r = match path_strip_prefix_result(file, repo) {
        Some(x) => x,
        None => file,
    };
    replace_char(r, '\\', seq!['/'])
}

/// Whether the path segments `ss` match the glob segments `ps`: a `**`
/// segment stands for any number of path segments (none included), any
/// other segment matches one path segment as a file pattern (see
/// [`file_pattern_matches`]).
pub open spec fn glob_segs(ps: Seq<Seq<char>>, ss: Seq<Seq<char>>) -> bool
    decreases ps.len() + ss.len(),
{
    if ps.len() == 0 {
        ss.len() == 0
    } else if ps[0] == seq!['*', '*'] {
        ||| glob_segs(ps.drop_first(), ss)
        ||| ss.len() > 0 && glob_segs(ps, ss.drop_first())
    } else {
        &&& ss.len() > 0
        &&& file_pattern_matches(ss[0], ps[0])
        &&& glob_segs(ps.drop_first(), ss.drop_first())
    }
}

/// Whether the path glob `p` matches the relative path `rel` or one of
/// the directories that hold it: the `/`-separated segments of `p`
/// match the first `n` segments of `rel`, for some `n >= 1`.
pub open spec fn path_glob_matches(p: Seq<char>, rel: Seq<char>) -> bool {
    exists|n: int|
        1 <= n <= split(rel, '/').len() && #[trigger] glob_segs(split(p, '/'), split(rel, '/').take(n))
}

/// Whether one untracked-exclude pattern matches: a pattern without `/`
/// by the file name; a `**/...` or `.../**` pattern as a path glob on
/// the relative path (see [`path_glob_matches`]), so `**/scratch/**`
/// needs a segment equal to `scratch`.
pub open spec fn untracked_pattern_matches(name: Seq<char>, rel: Seq<char>, p: Seq<char>) -> bool {
    ||| !p.contains('/') && file_pattern_matches(name, p)
    ||| {
        &&& starts_with(p, seq!['*', '*', '/']) || contains(p, seq!['/', '*', '*'])
        &&& path_glob_matches(p, rel)
    }
}

pub open spec fn untracked_excluded(repo: Seq<char>, file: Seq<char>, patterns: Seq<Seq<char>>) -> bool {
    exists|i: int|
        0 <= i < patterns.len() && untracked_pattern_matches(
            file_name_or_empty(file),
            rel_path(repo, file),
            #[trigger] patterns[i],
        )
}

fn is_double_star(seg: &Vec<char>) -> (b: bool)
    ensures
        b == (seg@ == seq!['*', '*']),
{
    let r = seg.len() == 2 && seg[0] == '*' && seg[1] == '*';
    proof {
        if r {
            assert(seg@ =~= seq!['*', '*']);
        }
    }
    r
}

fn glob_segs_at(ps: &Vec<Vec<char>>, ss: &Vec<Vec<char>>, i: usize, j: usize, e: usize) -> (b: bool)
    requires
        i <= ps@.len(),
        j <= e <= ss@.len(),
    ensures
        b == glob_segs(views(ps@).skip(i as int), views(ss@).subrange(j as int, e as int)),
    decreases (ps@.len() - i) + (e - j),
{
    let ghost pv = views(ps@).skip(i as int);
    let ghost sv = views(ss@).subrange(j as int, e as int);
    if i == ps.len() {
        return e == j;
    }
    assert(pv[0] == ps@[i as int]@);
    assert(pv.drop_first() =~= views(ps@).skip(i + 1));
    if is_double_star(&ps[i]) {
        if glob_segs_at(ps, ss, i + 1, j, e) {
            return true;
        }
        if j < e {
            assert(sv.drop_first() =~= views(ss@).subrange(j + 1, e as int));
            return glob_segs_at(ps, ss, i, j + 1, e);
        }
        false
    } else {
        if j == e {
            return false;
        }
        assert(sv[0] == ss@[j as int]@);
        assert(sv.drop_first() =~= views(ss@).subrange(j + 1, e as int));
        if !file_pattern_matches_of(&ss[j], &ps[i]) {
            return false;
        }
        glob_segs_at(ps, ss, i + 1, j + 1, e)
    }
}

fn path_glob_matches_of(p: &[char], rel: &[char]) -> (b: bool)
    ensures
        b == path_glob_matches(p@, rel@),
{
    let ps = split_of(p, '/');
    let ss = split_of(rel, '/');
    let ghost pv = split(p@, '/');
    let ghost sv = split(rel@, '/');
    assert(views(ps@).skip(0) =~= pv);
    let mut k: usize = 0;
    while k < ss.len()
        invariant
            k <= ss@.len(),
            views(ps@) == pv,
            views(ss@) == sv,
            pv == split(p@, '/'),
            sv == split(rel@, '/'),
            views(ps@).skip(0) == pv,
            forall|m: int| 1 <= m <= k ==> !#[trigger] glob_segs(pv, sv.take(m)),
        decreases ss@.len() - k,
    {
        assert(views(ss@).subrange(0, k + 1) =~= sv.take(k + 1));
        if glob_segs_at(&ps, &ss, 0, 0, k + 1) {
            return true;
        }
        k = k + 1;
    }
    false
}

fn untracked_pattern_matches_of(name: &[char], rel: &[char], p: &[char]) -> (b: bool)
    ensures
        b == untracked_pattern_matches(name@, rel@, p@),
{
    if !in_set('/', p) {
        if file_pattern_matches_of(name, p) {
            return true;
        }
    }
    if starts_with_of(p, &three('*', '*', '/')) || contains_of(p, &three('/', '*', '*')) {
        return path_glob_matches_of(p, rel);
    }
    false
}

/// Whether one of the untracked-exclude `patterns` matches a file with
/// name `file_name` at `rel_path` (relative to its repository, with `/`
/// separators); see [`untracked_pattern_matches`].
pub fn matches_untracked_patterns(file_name: &str, rel_path: &str, patterns: &[String]) -> (b: bool)
    ensures
        b == exists|i: int|
            0 <= i < patterns@.len() && untracked_pattern_matches(
                file_name@,
                rel_path@,
                #[trigger] string_views(patterns@)[i],
            ),
{
    let name = chars_of(file_name);
    let rel = chars_of(rel_path);
    let ghost ps = string_views(patterns@);
    let mut i: usize = 0;
    while i < patterns.len()
        invariant
            i <= patterns@.len(),
            ps == string_views(patterns@),
            name@ == file_name@,
            rel@ == rel_path@,
            forall|j: int| 0 <= j < i ==> !untracked_pattern_matches(name@, rel@, #[trigger] ps[j]),
        decreases patterns@.len() - i,
    {
        let p = chars_of(patterns[i].as_str());
        assert(ps[i as int] == p@);
        if untracked_pattern_matches_of(&name, &rel, &p) {
            return true;
        }
        i = i + 1;
    }
    false
}

/// Whether `file_path` matches one of the untracked-exclude `patterns`
/// (see [`untracked_pattern_matches`]), by its file name or by its path
/// relative to `repo`.
pub fn matches_untracked_exclude(repo: &str, file_path: &str, patterns: &[String]) -> (b: bool)
    ensures
        b == untracked_excluded(repo@, file_path@, string_views(patterns@)),
{
    let file = chars_of(file_path);
    let name = file_name_or_empty_of(&file);
    let stripped: Vec<char> = match path_strip_prefix(file_path, repo) {
        Some(x) => chars_of(x.as_str()),
        None => file,
    };
    let rel = replace_char_of(&stripped, '\\', &one('/'));
    assert(rel@ == rel_path(repo@, file_path@));
    matches_untracked_patterns(string_of(&name).as_str(), string_of(&rel).as_str(), patterns)
}

// ---------------------------------------------------------------------
// Build-output directories
// ---------------------------------------------------------------------

/// Common build or generated output directory names.
pub open spec fn build_output_dir(name: Seq<char>) -> bool {
    ||| name == ".output"@ || name == ".out"@ || name == "output"@ || name == "generated"@
    ||| name == "gen"@ || name == ".next"@ || name == "dist-new"@
    ||| ends_with(name, ".output"@) || ends_with(name, "_output"@)
    ||| starts_with(name, "output-"@)
}

fn build_output_dir_of(name: &[char]) -> (b: bool)
    ensures
        b == build_output_dir(name@),
{
    eq(name, &chars_of(".output")) || eq(name, &chars_of(".out")) || eq(name, &chars_of("output"))
        || eq(name, &chars_of("generated")) || eq(name, &chars_of("gen")) || eq(
        name,
        &chars_of(".next"),
    ) || eq(name, &chars_of("dist-new")) || ends_with_of(name, &chars_of(".output"))
        || ends_with_of(name, &chars_of("_output")) || starts_with_of(
        name,
        &chars_of("output-"),
    )
}

/// Whether `name` is a common build/generated output directory name.
pub fn is_build_output_dir_name(name: &str) -> (b: bool)
    ensures
        b == build_output_dir(name@),
{
    build_output_dir_of(&chars_of(name))
}


// ---------------------------------------------------------------------
// Changed entries: what to stage, restore, or ignore
// ---------------------------------------------------------------------

/// The change status of a diff entry.
#[derive(Clone, Copy, PartialEq, Eq, Debug, Structural)]
pub enum ChangeStatus {
    Modified,
    Added,
    Deleted,
    Renamed,
    TypeChange,
    Unknown,
}

/// One changed path of a repository, relative to its root.
#[derive(Clone, Debug)]
pub struct DiffEntry {
    pub path: String,
    pub status: ChangeStatus,
}

/// What the file system holds at a changed path (metadata follows
/// symlinks).
#[derive(Clone, Copy, PartialEq, Eq, Debug, Structural)]
pub enum DiskState {
    /// Nothing there (metadata fails).
    Missing,
    /// A regular file of `len` bytes.
    File { len: u64 },
    /// A directory; `gitlink_unchanged` tells whether it is a gitlink
    /// whose pointer equals what the parent tracks.
    Dir { gitlink_unchanged: bool },
    /// Anything else.
    Other,
}

/// A changed entry together with what is on disk for it.
#[derive(Clone, Debug)]
pub struct ObservedEntry {
    pub entry: DiffEntry,
    pub disk: DiskState,
}

/// Whether an entry is staged by the sync.
pub open spec fn stage_decision(
    repo: Seq<char>,
    path: Seq<char>,
    status: ChangeStatus,
    excluded_dirs: Seq<Seq<char>>,
    excluded_files: Seq<Seq<char>>,
    max_bytes: u64,
    auto_exclude: Seq<Seq<char>>,
    disk: DiskState,
) -> bool {
    if change_path_excluded(path, excluded_dirs) {
        false
    } else if file_excluded(path, excluded_files) {
        false
    } else if auto_exclude.len() > 0 && untracked_excluded(repo, path, auto_exclude) {
        false
    } else if status == ChangeStatus::TypeChange {
        true
    } else {
        match disk {
            DiskState::File { len } => len <= max_bytes,
            DiskState::Dir { gitlink_unchanged } => !gitlink_unchanged,
            DiskState::Other => true,
            DiskState::Missing => status == ChangeStatus::Deleted,
        }
    }
}

/// What every staged entry satisfies: no component of its path is an
/// excluded directory, its file name matches no excluded file pattern
/// (so a name ending in `.log` is never staged while `*.log` is
/// excluded), no auto-commit exclude pattern matches it, a file is no
/// larger than the limit, and a missing path is a deletion (type changes
/// aside).
pub proof fn lemma_staged_entries_pass_every_filter(
    repo: Seq<char>,
    path: Seq<char>,
    status: ChangeStatus,
    excluded_dirs: Seq<Seq<char>>,
    excluded_files: Seq<Seq<char>>,
    max_bytes: u64,
    auto_exclude: Seq<Seq<char>>,
    disk: DiskState,
)
    requires
        stage_decision(
            repo,
            path,
            status,
            excluded_dirs,
            excluded_files,
            max_bytes,
            auto_exclude,
            disk,
        ),
    ensures
        forall|k: int, j: int|
            0 <= k < components(path).len() && 0 <= j < excluded_dirs.len() ==> #[trigger] components(
                path,
            )[k] != #[trigger] excluded_dirs[j],
        forall|i: int|
            0 <= i < excluded_files.len() ==> !file_pattern_matches(
                file_name_or_empty(path),
                #[trigger] excluded_files[i],
            ),
        forall|i: int, ext: Seq<char>|
            0 <= i < excluded_files.len() && #[trigger] excluded_files[i] == seq!['*'] + ext
                && ext.len() > 0 && ext[0] == '.' ==> !#[trigger] ends_with(
                file_name_or_empty(path),
                ext,
            ),
        auto_exclude.len() > 0 ==> !untracked_excluded(repo, path, auto_exclude),
        status != ChangeStatus::TypeChange ==> match disk {
            DiskState::File { len } => len <= max_bytes,
            DiskState::Missing => status == ChangeStatus::Deleted,
            DiskState::Dir { gitlink_unchanged } => !gitlink_unchanged,
            DiskState::Other => true,
        },
{
    assert forall|k: int, j: int|
        0 <= k < components(path).len() && 0 <= j < excluded_dirs.len() implies #[trigger] components(
            path,
        )[k] != #[trigger] excluded_dirs[j] by {
        if components(path)[k] == excluded_dirs[j] {
            assert(dir_pattern_matches(components(path)[k], excluded_dirs[j]));
            assert(dir_name_excluded(components(path)[k], excluded_dirs));
        }
    }
    assert forall|i: int, ext: Seq<char>|
        0 <= i < excluded_files.len() && #[trigger] excluded_files[i] == seq!['*'] + ext
            && ext.len() > 0 && ext[0] == '.' implies !#[trigger] ends_with(
            file_name_or_empty(path),
            ext,
        ) by {
        let p = excluded_files[i];
        assert(p.take(2) =~= seq!['*', '.']);
        assert(p.skip(1) =~= ext);
        if ends_with(file_name_or_empty(path), ext) {
            assert(file_pattern_matches(file_name_or_empty(path), p));
        }
    }
}

/// An entry that no exclusion applies to is staged when it is a file
/// within the size limit, a changed directory that is not an unchanged
/// gitlink, a deletion, or a type change.
pub proof fn lemma_unexcluded_entries_are_staged(
    repo: Seq<char>,
    path: Seq<char>,
    status: ChangeStatus,
    excluded_dirs: Seq<Seq<char>>,
    excluded_files: Seq<Seq<char>>,
    max_bytes: u64,
    auto_exclude: Seq<Seq<char>>,
    disk: DiskState,
)
    requires
        forall|k: int|
            0 <= k < components(path).len() ==> !dir_name_excluded(
                #[trigger] components(path)[k],
                excluded_dirs,
            ),
        forall|i: int|
            0 <= i < excluded_files.len() ==> !file_pattern_matches(
                file_name_or_empty(path),
                #[trigger] excluded_files[i],
            ),
        auto_exclude.len() == 0 || !untracked_excluded(repo, path, auto_exclude),
        ({
            ||| status == ChangeStatus::TypeChange
            ||| disk matches DiskState::File { len } && len <= max_bytes
            ||| disk matches DiskState::Dir { gitlink_unchanged } && !gitlink_unchanged
            ||| disk is Other
            ||| disk is Missing && status == ChangeStatus::Deleted
        }),
    ensures
        stage_decision(
            repo,
            path,
            status,
            excluded_dirs,
            excluded_files,
            max_bytes,
            auto_exclude,
            disk,
        ),
{
}

/// Whether the sync stages `entry`: not under an excluded directory,
/// not matching an excluded file pattern or an auto-commit exclude
/// pattern; then a type change always, a file only up to
/// `max_stage_file_bytes`, a directory unless it is an unchanged
/// gitlink, a missing path only when it is a deletion.
pub fn should_stage_entry(
    repo: &str,
    entry: &DiffEntry,
    excluded_dir_names: &[String],
    excluded_file_patterns: &[String],
    max_stage_file_bytes: u64,
    auto_commit_exclude_patterns: &[String],
    disk: DiskState,
) -> (b: bool)
    ensures
        b == stage_decision(
            repo@,
            entry.path@,
            entry.status,
            string_views(excluded_dir_names@),
            string_views(excluded_file_patterns@),
            max_stage_file_bytes,
            string_views(auto_commit_exclude_patterns@),
            disk,
        ),
{
    let path = chars_of(entry.path.as_str());
    if change_path_excluded_of(&path, excluded_dir_names) {
        return false;
    }
    if file_excluded_of(&path, excluded_file_patterns) {
        return false;
    }
    if auto_commit_exclude_patterns.len() > 0 && matches_untracked_exclude(
        repo,
        entry.path.as_str(),
        auto_commit_exclude_patterns,
    ) {
        return false;
    }
    if entry.status == ChangeStatus::TypeChange {
        return true;
    }
    match disk {
        DiskState::File { len } => len <= max_stage_file_bytes,
        DiskState::Dir { gitlink_unchanged } => !gitlink_unchanged,
        DiskState::Other => true,
        DiskState::Missing => entry.status == ChangeStatus::Deleted,
    }
}

/// Whether a change can be undone by restoring from the index.
pub open spec fn restorable(status: ChangeStatus) -> bool {
    status == ChangeStatus::Modified || status == ChangeStatus::TypeChange || status
        == ChangeStatus::Renamed
}

/// Whether `entry` can be restored: modified, type-changed or renamed.
pub fn can_restore_entry(entry: &DiffEntry) -> (b: bool)
    ensures
        b == restorable(entry.status),
{
    match entry.status {
        ChangeStatus::Modified | ChangeStatus::TypeChange | ChangeStatus::Renamed => true,
        _ => false,
    }
}

pub open spec fn large_untracked(status: ChangeStatus, disk: DiskState, threshold: u64) -> bool {
    status == ChangeStatus::Added && match disk {
        DiskState::File { len } => len > threshold,
        _ => false,
    }
}

/// Whether `entry` is a newly added regular file larger than
/// `threshold` bytes.
pub fn is_large_untracked(entry: &DiffEntry, disk: DiskState, threshold: u64) -> (b: bool)
    ensures
        b == large_untracked(entry.status, disk, threshold),
{
    if entry.status != ChangeStatus::Added {
        return false;
    }
    match disk {
        DiskState::File { len } => len > threshold,
        _ => false,
    }
}

/// Whether one observed entry needs the sync's attention.
pub open spec fn sync_relevant(
    repo: Seq<char>,
    e: ObservedEntry,
    excluded_dirs: Seq<Seq<char>>,
    excluded_files: Seq<Seq<char>>,
    max_bytes: u64,
    auto_exclude: Seq<Seq<char>>,
) -> bool {
    if e.disk == (DiskState::Dir { gitlink_unchanged: true }) {
        false
    } else {
        stage_decision(
            repo,
            e.entry.path@,
            e.entry.status,
            excluded_dirs,
            excluded_files,
            max_bytes,
            auto_exclude,
            e.disk,
        ) || restorable(e.entry.status) || large_untracked(e.entry.status, e.disk, max_bytes)
    }
}

/// Whether some dirty entry is worth a sync pass: one that would be
/// staged, restored, or moved to `.gitignore` as a large untracked file
/// (an unchanged gitlink never counts).
pub fn has_sync_relevant_dirty_entries(
    repo: &str,
    entries: &[ObservedEntry],
    excluded_dir_names: &[String],
    excluded_file_patterns: &[String],
    max_stage_file_bytes: u64,
    auto_commit_exclude_patterns: &[String],
) -> (b: bool)
    ensures
        b == exists|i: int|
            0 <= i < entries@.len() && sync_relevant(
                repo@,
                #[trigger] entries@[i],
                string_views(excluded_dir_names@),
                string_views(excluded_file_patterns@),
                max_stage_file_bytes,
                string_views(auto_commit_exclude_patterns@),
            ),
{
    let mut i: usize = 0;
    while i < entries.len()
        invariant
            i <= entries@.len(),
            forall|j: int|
                0 <= j < i ==> !sync_relevant(
                    repo@,
                    #[trigger] entries@[j],
                    string_views(excluded_dir_names@),
                    string_views(excluded_file_patterns@),
                    max_stage_file_bytes,
                    string_views(auto_commit_exclude_patterns@),
                ),
        decreases entries@.len() - i,
    {
        let e = &entries[i];
        let skip = match e.disk {
            DiskState::Dir { gitlink_unchanged } => gitlink_unchanged,
            _ => false,
        };
        if !skip {
            if should_stage_entry(
                repo,
                &e.entry,
                excluded_dir_names,
                excluded_file_patterns,
                max_stage_file_bytes,
                auto_commit_exclude_patterns,
                e.disk,
            ) || can_restore_entry(&e.entry) || is_large_untracked(
                &e.entry,
                e.disk,
                max_stage_file_bytes,
            ) {
                return true;
            }
        }
        i = i + 1;
    }
    false
}

/// The paths of the observed entries that are large untracked files,
/// in order: the `.gitignore` patterns of `handle_large_untracked`.
pub fn large_untracked_patterns(entries: &[ObservedEntry], threshold: u64) -> (r: Vec<String>)
    ensures
        r@.map_values(|s: String| s@) == entries@.filter(
            |e: ObservedEntry| large_untracked(e.entry.status, e.disk, threshold),
        ).map_values(|e: ObservedEntry| e.entry.path@),
{
    let ghost pred = |e: ObservedEntry| large_untracked(e.entry.status, e.disk, threshold);
    let mut out: Vec<String> = Vec::new();
    let mut i: usize = 0;
    assert(entries@.take(0) =~= Seq::<ObservedEntry>::empty());
    reveal_with_fuel(Seq::<_>::filter, 1);
    while i < entries.len()
        invariant
            i <= entries@.len(),
            pred == (|e: ObservedEntry| large_untracked(e.entry.status, e.disk, threshold)),
            out@.map_values(|s: String| s@) == entries@.take(i as int).filter(pred).map_values(
                |e: ObservedEntry| e.entry.path@,
            ),
        decreases entries@.len() - i,
    {
        reveal_with_fuel(Seq::<_>::filter, 1);
        assert(entries@.take(i + 1).drop_last() =~= entries@.take(i as int));
        assert(entries@.take(i + 1).last() == entries@[i as int]);
        if is_large_untracked(&entries[i].entry, entries[i].disk, threshold) {
            assert(pred(entries@[i as int]));
            let p = entries[i].entry.path.clone();
            let ghost before = out@;
            out.push(p);
            assert(out@.map_values(|s: String| s@) =~= before.map_values(|s: String| s@).push(
                p@,
            ));
            assert(entries@.take(i + 1).filter(pred) =~= entries@.take(i as int).filter(
                pred,
            ).push(entries@[i as int]));
            assert(entries@.take(i + 1).filter(pred).map_values(
                |e: ObservedEntry| e.entry.path@,
            ) =~= entries@.take(i as int).filter(pred).map_values(
                |e: ObservedEntry| e.entry.path@,
            ).push(entries@[i as int].entry.path@));
        } else {
            assert(!pred(entries@[i as int]));
            assert(entries@.take(i + 1).filter(pred) =~= entries@.take(i as int).filter(pred));
        }
        i = i + 1;
    }
    assert(entries@.take(entries@.len() as int) =~= entries@);
    out
}


// ---------------------------------------------------------------------
// `.gitignore` updates
// ---------------------------------------------------------------------

pub open spec fn large_files_header() -> Seq<char> {
    "# Large files (auto-added by dracon-sync)"@
}

pub open spec fn block_begin_marker() -> Seq<char> {
    "--- BEGIN DRACON MANAGED BLOCK ---"@
}

pub open spec fn block_end_marker() -> Seq<char> {
    "--- END DRACON MANAGED BLOCK ---"@
}

/// Some line of `ls`, trimmed, equals `p`.
pub open spec fn has_trimmed_line(ls: Seq<Seq<char>>, p: Seq<char>) -> bool {
    exists|i: int| 0 <= i < ls.len() && trim(#[trigger] ls[i]) == p
}

/// The trimmed patterns that are non-empty and not yet a (trimmed) line.
pub open spec fn new_patterns(ls: Seq<Seq<char>>, patterns: Seq<Seq<char>>) -> Seq<Seq<char>> {
    patterns.map_values(|p: Seq<char>| trim(p)).filter(
        |p: Seq<char>| p.len() > 0 && !has_trimmed_line(ls, p),
    )
}

/// The first line at or after `i` that contains `m`.
pub open spec fn first_containing_from(ls: Seq<Seq<char>>, m: Seq<char>, i: int) -> Option<int>
    decreases ls.len() - i,
{
    if i < 0 || i >= ls.len() {
        None
    } else if contains(ls[i], m) {
        Some(i)
    } else {
        first_containing_from(ls, m, i + 1)
    }
}

pub proof fn lemma_first_containing_bounds(ls: Seq<Seq<char>>, m: Seq<char>, i: int)
    requires
        0 <= i,
    ensures
        first_containing_from(ls, m, i) matches Some(k) ==> i <= k < ls.len() && contains(
            ls[k],
            m,
        ),
    decreases ls.len() - i,
{
    if i < ls.len() && !contains(ls[i], m) {
        lemma_first_containing_bounds(ls, m, i + 1);
    }
}

pub open spec fn first_containing(ls: Seq<Seq<char>>, m: Seq<char>) -> Option<int> {
    first_containing_from(ls, m, 0)
}

/// Some line in `ls[lo..hi]` contains `m`.
pub open spec fn some_line_contains(ls: Seq<Seq<char>>, m: Seq<char>, lo: int, hi: int) -> bool {
    exists|i: int| lo <= i < hi && contains(#[trigger] ls[i], m)
}

/// The new `.gitignore` text, or `None` when every pattern is already
/// there. Inside a managed block (BEGIN..END markers) the patterns go
/// just before the END line; otherwise they are appended after a blank
/// line. A large-files header line precedes them unless one is present
/// (inside the block, resp. anywhere). Lines are joined with `\n`.
pub open spec fn gitignore_update(current: Seq<char>, patterns: Seq<Seq<char>>) -> Option<Seq<char>> {
    let ls = lines(current);
    let added = new_patterns(ls, patterns);
    if added.len() == 0 {
        None
    } else {
        match (first_containing(ls, block_begin_marker()), first_containing(ls, block_end_marker())) {
            (Some(b), Some(e)) => {
                let ins = if some_line_contains(ls, large_files_header(), b, e) {
                    added
                } else {
                    seq![large_files_header()] + added
                };
                Some(join(ls.take(e) + ins + ls.skip(e), seq!['\n']))
            },
            _ => {
                let app = if some_line_contains(ls, large_files_header(), 0, ls.len() as int) {
                    added
                } else {
                    seq![Seq::<char>::empty(), large_files_header()] + added
                };
                Some(join(ls + app, seq!['\n']))
            },
        }
    }
}

/// A `.gitignore` update whose patterns are all present already (each,
/// trimmed, is blank or equal to a trimmed line of the file) changes
/// nothing: no new text, so nothing is written and no line repeats.
pub proof fn lemma_gitignore_present_patterns_unchanged(
    current: Seq<char>,
    patterns: Seq<Seq<char>>,
)
    requires
        forall|i: int|
            0 <= i < patterns.len() ==> trim(#[trigger] patterns[i]).len() == 0 || has_trimmed_line(
                lines(current),
                trim(patterns[i]),
            ),
    ensures
        gitignore_update(current, patterns) is None,
        gitignore_update_defined(current, patterns),
{
    let ls = lines(current);
    let t = patterns.map_values(|p: Seq<char>| trim(p));
    let pred = |p: Seq<char>| p.len() > 0 && !has_trimmed_line(ls, p);
    assert forall|i: int| 0 <= i < t.len() implies !pred(#[trigger] t[i]) by {
        assert(t[i] == trim(patterns[i]));
    }
    crate::forge::lemma_filter_none(t, pred);
    assert(new_patterns(ls, patterns).len() == 0);
}

/// The lines of a text joined with `'\n'`, when none holds `'\n'`:
/// every line but the last comes back less a final `'\r'`, the last
/// one comes back unless it is empty; trimmed, each is as before.
proof fn lemma_lines_of_join(v: Seq<Seq<char>>, j: int)
    requires
        v.len() >= 1,
        forall|k: int| 0 <= k < v.len() ==> !(#[trigger] v[k]).contains('\n'),
        0 <= j < v.len(),
        j < v.len() - 1 || v[j].len() > 0,
    ensures
        has_trimmed_line(lines(join(v, seq!['\n'])), trim(v[j])),
{
    let new = join(v, seq!['\n']);
    crate::text::lemma_split_join(v);
    let ls = lines(new);
    if j < v.len() - 1 {
        assert(ls[j] == crate::text::strip_cr(v[j]));
        crate::text::lemma_trim_strip_cr(v[j]);
        assert(trim(ls[j]) == trim(v[j]));
    } else {
        assert(ls[j] == v[j]);
    }
}

/// Updating a `.gitignore` twice with the same patterns changes it once:
/// the text written by an update already holds every pattern, so a
/// second update finds nothing to add (patterns that, trimmed, hold a
/// line break excepted: written out they become several lines).
pub proof fn lemma_gitignore_update_idempotent(current: Seq<char>, patterns: Seq<Seq<char>>)
    requires
        gitignore_update_defined(current, patterns),
        forall|i: int| 0 <= i < patterns.len() ==> !trim(#[trigger] patterns[i]).contains('\n'),
    ensures
        gitignore_update(current, patterns) matches Some(new) ==> gitignore_update(new, patterns)
            is None,
{
    let ls = lines(current);
    let added = new_patterns(ls, patterns);
    let tp = patterns.map_values(|p: Seq<char>| trim(p));
    let pred = |p: Seq<char>| p.len() > 0 && !has_trimmed_line(ls, p);
    if added.len() > 0 {
        crate::text::lemma_lines_no_newline(current);
        assert(!large_files_header().contains('\n')) by {
            reveal_strlit("# Large files (auto-added by dracon-sync)");
        }
        assert forall|k: int| 0 <= k < added.len() implies !(#[trigger] added[k]).contains('\n')
            && added[k].len() > 0 by {
            assert(added.contains(added[k]));
            tp.lemma_filter_contains_rev(pred, added[k]);
            let i = choose|i: int| 0 <= i < tp.len() && tp[i] == added[k];
            assert(tp[i] == trim(patterns[i]));
        }
        let e0: Seq<char> = Seq::empty();
        assert(!e0.contains('\n'));
        let list = match (first_containing(ls, block_begin_marker()), first_containing(ls, block_end_marker())) {
            (Some(b), Some(e)) => {
                let ins = if some_line_contains(ls, large_files_header(), b, e) {
                    added
                } else {
                    seq![large_files_header()] + added
                };
                ls.take(e) + ins + ls.skip(e)
            },
            _ => {
                let app = if some_line_contains(ls, large_files_header(), 0, ls.len() as int) {
                    added
                } else {
                    seq![Seq::<char>::empty(), large_files_header()] + added
                };
                ls + app
            },
        };
        let new = join(list, seq!['\n']);
        assert(gitignore_update(current, patterns) == Some(new));
        // Where each old line and each added pattern sits in the new list.
        let (off_old, off_add, e) = match (first_containing(ls, block_begin_marker()), first_containing(ls, block_end_marker())) {
            (Some(b), Some(e)) => {
                lemma_first_containing_bounds(ls, block_end_marker(), 0);
                let ins_len = if some_line_contains(ls, large_files_header(), b, e) {
                    added.len() as int
                } else {
                    (added.len() + 1) as int
                };
                (ins_len, e + ins_len - added.len(), e)
            },
            _ => {
                let pre = if some_line_contains(ls, large_files_header(), 0, ls.len() as int) {
                    0int
                } else {
                    2int
                };
                (0int, ls.len() + pre, ls.len() as int)
            },
        };
        assert(0 <= e <= ls.len());
        assert forall|m: int| 0 <= m < ls.len() implies list[if m < e { m } else { m + off_old }] == #[trigger] ls[m] by {}
        assert forall|k: int| 0 <= k < added.len() implies list[off_add + k] == #[trigger] added[k] by {}
        assert forall|k: int| 0 <= k < list.len() implies !(#[trigger] list[k]).contains('\n') by {}
        assert forall|i: int|
            0 <= i < patterns.len() implies trim(#[trigger] patterns[i]).len() == 0 || has_trimmed_line(
            lines(new),
            trim(patterns[i]),
        ) by {
            let t = trim(patterns[i]);
            assert(tp[i] == t);
            if t.len() > 0 {
                if has_trimmed_line(ls, t) {
                    let m = choose|m: int| 0 <= m < ls.len() && trim(#[trigger] ls[m]) == t;
                    let j = if m < e { m } else { m + off_old };
                    assert(list[j] == ls[m]);
                    assert(ls[m].len() > 0);
                    lemma_lines_of_join(list, j);
                } else {
                    tp.lemma_filter_contains(pred, i);
                    assert(added.contains(t));
                    let k = choose|k: int| 0 <= k < added.len() && added[k] == t;
                    assert(list[off_add + k] == added[k]);
                    crate::text::lemma_trimmed(patterns[i]);
                    lemma_lines_of_join(list, off_add + k);
                }
            }
        }
        lemma_gitignore_present_patterns_unchanged(new, patterns);
    }
}

/// The inputs on which the update is defined: where the END marker's
/// first line comes before the BEGIN marker's, the block slice would be
/// reversed.
pub open spec fn gitignore_update_defined(current: Seq<char>, patterns: Seq<Seq<char>>) -> bool {
    let ls = lines(current);
    new_patterns(ls, patterns).len() > 0 ==> match (
        first_containing(ls, block_begin_marker()),
        first_containing(ls, block_end_marker()),
    ) {
        (Some(b), Some(e)) => b <= e,
        _ => true,
    }
}

fn first_containing_of(ls: &Vec<Vec<char>>, m: &[char]) -> (r: Option<usize>)
    ensures
        r matches Some(k) ==> first_containing(views(ls@), m@) == Some(k as int),
        r is None ==> first_containing(views(ls@), m@) is None,
{
    let mut i: usize = 0;
    while i < ls.len()
        invariant
            i <= ls@.len(),
            first_containing(views(ls@), m@) == first_containing_from(views(ls@), m@, i as int),
        decreases ls@.len() - i,
    {
        assert(views(ls@)[i as int] == ls@[i as int]@);
        if contains_of(&ls[i], m) {
            return Some(i);
        }
        i = i + 1;
    }
    None
}

fn some_line_contains_of(ls: &Vec<Vec<char>>, m: &[char], lo: usize, hi: usize) -> (b: bool)
    requires
        lo <= hi <= ls@.len(),
    ensures
        b == some_line_contains(views(ls@), m@, lo as int, hi as int),
{
    let mut i = lo;
    while i < hi
        invariant
            lo <= i <= hi <= ls@.len(),
            forall|j: int| lo <= j < i ==> !contains(#[trigger] views(ls@)[j], m@),
        decreases hi - i,
    {
        assert(views(ls@)[i as int] == ls@[i as int]@);
        if contains_of(&ls[i], m) {
            return true;
        }
        i = i + 1;
    }
    false
}

fn has_trimmed_line_of(ls: &Vec<Vec<char>>, p: &[char]) -> (b: bool)
    ensures
        b == has_trimmed_line(views(ls@), p@),
{
    let mut i: usize = 0;
    while i < ls.len()
        invariant
            i <= ls@.len(),
            forall|j: int| 0 <= j < i ==> trim(#[trigger] views(ls@)[j]) != p@,
        decreases ls@.len() - i,
    {
        assert(views(ls@)[i as int] == ls@[i as int]@);
        if eq(&trim_of(&ls[i]), p) {
            return true;
        }
        i = i + 1;
    }
    false
}

fn new_patterns_of(ls: &Vec<Vec<char>>, patterns: &[String]) -> (r: Vec<Vec<char>>)
    ensures
        views(r@) == new_patterns(views(ls@), string_views(patterns@)),
{
    let ghost ps = string_views(patterns@).map_values(|p: Seq<char>| trim(p));
    let ghost pred = |p: Seq<char>| p.len() > 0 && !has_trimmed_line(views(ls@), p);
    let mut out: Vec<Vec<char>> = Vec::new();
    let mut i: usize = 0;
    assert(ps.take(0) =~= Seq::<Seq<char>>::empty());
    reveal_with_fuel(Seq::<_>::filter, 1);
    while i < patterns.len()
        invariant
            i <= patterns@.len(),
            ps == string_views(patterns@).map_values(|p: Seq<char>| trim(p)),
            pred == (|p: Seq<char>| p.len() > 0 && !has_trimmed_line(views(ls@), p)),
            views(out@) == ps.take(i as int).filter(pred),
        decreases patterns@.len() - i,
    {
        reveal_with_fuel(Seq::<_>::filter, 1);
        assert(ps.take(i + 1).drop_last() =~= ps.take(i as int));
        let t = trim_of(&chars_of(patterns[i].as_str()));
        assert(ps.take(i + 1).last() == t@);
        if t.len() > 0 && !has_trimmed_line_of(ls, &t) {
            assert(pred(t@));
            proof {
                lemma_views_push(out@, t);
            }
            out.push(t);
        } else {
            assert(!pred(t@));
        }
        i = i + 1;
    }
    assert(ps.take(patterns@.len() as int) =~= ps);
    out
}

fn append_views(out: &mut Vec<Vec<char>>, src: &Vec<Vec<char>>, lo: usize, hi: usize)
    requires
        lo <= hi <= src@.len(),
    ensures
        views(final(out)@) == views(old(out)@) + views(src@).subrange(lo as int, hi as int),
{
    let mut i = lo;
    while i < hi
        invariant
            lo <= i <= hi <= src@.len(),
            views(out@) == views(old(out)@) + views(src@).subrange(lo as int, i as int),
        decreases hi - i,
    {
        let x = src[i].clone();
        proof {
            lemma_views_push(out@, x);
        }
        out.push(x);
        i = i + 1;
        assert(views(out@) =~= views(old(out)@) + views(src@).subrange(lo as int, i as int));
    }
}

/// Whether [`gitignore_with_patterns`] can work on `current`: when
/// patterns are to be added and both markers of a managed block are
/// present, the block's end may not come before its begin.
pub fn gitignore_update_is_defined(current: &str, patterns: &[String]) -> (b: bool)
    ensures
        b == gitignore_update_defined(current@, string_views(patterns@)),
{
    let ls = lines_of(&chars_of(current));
    let added = new_patterns_of(&ls, patterns);
    if added.len() == 0 {
        return true;
    }
    let begin = first_containing_of(&ls, &chars_of("--- BEGIN DRACON MANAGED BLOCK ---"));
    let end = first_containing_of(&ls, &chars_of("--- END DRACON MANAGED BLOCK ---"));
    match (begin, end) {
        (Some(b), Some(e)) => b <= e,
        _ => true,
    }
}

/// The new content of a `.gitignore` holding `current` once `patterns`
/// are added (see [`gitignore_update`]); `None` when nothing is to be
/// added.
pub fn gitignore_with_patterns(current: &str, patterns: &[String]) -> (r: Option<String>)
    requires
        gitignore_update_defined(current@, string_views(patterns@)),
    ensures
        r is Some <==> gitignore_update(current@, string_views(patterns@)) is Some,
        r matches Some(v) ==> gitignore_update(current@, string_views(patterns@)) == Some(v@),
{
    let ls = lines_of(&chars_of(current));
    let added = new_patterns_of(&ls, patterns);
    if added.len() == 0 {
        return None;
    }
    let header = chars_of("# Large files (auto-added by dracon-sync)");
    let begin = first_containing_of(&ls, &chars_of("--- BEGIN DRACON MANAGED BLOCK ---"));
    let end = first_containing_of(&ls, &chars_of("--- END DRACON MANAGED BLOCK ---"));
    let mut out: Vec<Vec<char>> = Vec::new();
    let ghost lv = views(ls@);
    proof {
        lemma_first_containing_bounds(lv, block_begin_marker(), 0);
        lemma_first_containing_bounds(lv, block_end_marker(), 0);
    }
    match (begin, end) {
        (Some(b), Some(e)) => {
            let present = some_line_contains_of(&ls, &header, b, e);
            append_views(&mut out, &ls, 0, e);
            if !present {
                proof {
                    lemma_views_push(out@, header);
                }
                out.push(header);
            }
            append_views(&mut out, &added, 0, added.len());
            append_views(&mut out, &ls, e, ls.len());
            assert(lv.subrange(0, e as int) =~= lv.take(e as int));
            assert(lv.subrange(e as int, lv.len() as int) =~= lv.skip(e as int));
            assert(views(added@).subrange(0, added@.len() as int) =~= views(added@));
            let ghost ins = if present {
                views(added@)
            } else {
                seq![header@] + views(added@)
            };
            assert(views(out@) =~= lv.take(e as int) + ins + lv.skip(e as int));
        },
        _ => {
            let present = some_line_contains_of(&ls, &header, 0, ls.len());
            append_views(&mut out, &ls, 0, ls.len());
            if !present {
                let blank: Vec<char> = Vec::new();
                proof {
                    lemma_views_push(out@, blank);
                }
                out.push(blank);
                proof {
                    lemma_views_push(out@, header);
                }
                out.push(header);
            }
            append_views(&mut out, &added, 0, added.len());
            assert(lv.subrange(0, lv.len() as int) =~= lv);
            assert(views(added@).subrange(0, added@.len() as int) =~= views(added@));
            let ghost app = if present {
                views(added@)
            } else {
                seq![Seq::<char>::empty(), header@] + views(added@)
            };
            assert(views(out@) =~= lv + app);
        },
    }
    Some(string_of(&join_of(&out, &one('\n'))))
}


// ---------------------------------------------------------------------
// Tracked files inside excluded or build-output directories
// ---------------------------------------------------------------------

/// The first component that is an excluded directory name.
pub open spec fn first_excluded_component(cs: Seq<Seq<char>>, excluded: Seq<Seq<char>>) -> Option<
    Seq<char>,
>
    decreases cs.len(),
{
    if cs.len() == 0 {
        None
    } else if dir_name_excluded(cs[0], excluded) {
        Some(cs[0])
    } else {
        first_excluded_component(cs.drop_first(), excluded)
    }
}

/// The first component that is a build-output directory name.
pub open spec fn first_build_component(cs: Seq<Seq<char>>) -> Option<Seq<char>>
    decreases cs.len(),
{
    if cs.len() == 0 {
        None
    } else if build_output_dir(cs[0]) {
        Some(cs[0])
    } else {
        first_build_component(cs.drop_first())
    }
}

/// The directory that makes tracked `file` unwanted: its first excluded
/// component, else its first build-output component.
pub open spec fn tracked_exclusion_dir(file: Seq<char>, excluded: Seq<Seq<char>>) -> Option<
    Seq<char>,
> {
    let cs = components(file);
    match first_excluded_component(cs, excluded) {
        Some(d) => Some(d),
        None => first_build_component(cs),
    }
}

proof fn lemma_first_excluded_component(cs: Seq<Seq<char>>, excluded: Seq<Seq<char>>)
    ensures
        first_excluded_component(cs, excluded) matches Some(d) ==> cs.contains(d) && dir_name_excluded(
            d,
            excluded,
        ),
    decreases cs.len(),
{
    if cs.len() > 0 && !dir_name_excluded(cs[0], excluded) {
        lemma_first_excluded_component(cs.drop_first(), excluded);
        if let Some(d) = first_excluded_component(cs.drop_first(), excluded) {
            let k = choose|k: int| 0 <= k < cs.drop_first().len() && cs.drop_first()[k] == d;
            assert(cs[k + 1] == d);
        }
    }
}

proof fn lemma_first_build_component(cs: Seq<Seq<char>>)
    ensures
        first_build_component(cs) matches Some(d) ==> cs.contains(d) && build_output_dir(d),
    decreases cs.len(),
{
    if cs.len() > 0 && !build_output_dir(cs[0]) {
        lemma_first_build_component(cs.drop_first());
        if let Some(d) = first_build_component(cs.drop_first()) {
            let k = choose|k: int| 0 <= k < cs.drop_first().len() && cs.drop_first()[k] == d;
            assert(cs[k + 1] == d);
        }
    }
}

/// Every component of a path is non-empty.
pub proof fn lemma_components_nonempty(p: Seq<char>)
    ensures
        forall|k: int| 0 <= k < components(p).len() ==> (#[trigger] components(p)[k]).len() > 0,
{
    let ps = crate::text::split(p, '/');
    crate::text::lemma_split_len(p, '/');
    let keep = |q: Seq<char>| crate::path::is_kept_piece(q);
    broadcast use vstd::seq_lib::group_filter_ensures;

    let cs = components(p);
    assert forall|k: int| 0 <= k < cs.len() implies (#[trigger] cs[k]).len() > 0 by {
        if p.len() > 0 && p[0] == '/' {
            if k > 0 {
                assert(cs[k] == ps.drop_first().filter(keep)[k - 1]);
            }
        } else if ps[0] == seq!['.'] {
            if k > 0 {
                assert(cs[k] == ps.drop_first().filter(keep)[k - 1]);
            }
        } else {
            assert(cs[k] == ps.filter(keep)[k]);
        }
    }
}

/// The directory that makes a tracked file unwanted is one of its
/// components, non-empty, and an excluded directory name or a
/// build-output directory name; so are all directories of the clean-up
/// plan (see [`plan_tracked_excluded_removal`]).
pub proof fn lemma_tracked_exclusion_dir_is_unwanted(file: Seq<char>, excluded: Seq<Seq<char>>)
    ensures
        tracked_exclusion_dir(file, excluded) matches Some(d) ==> {
            &&& components(file).contains(d)
            &&& d.len() > 0
            &&& dir_name_excluded(d, excluded) || build_output_dir(d)
        },
{
    let cs = components(file);
    lemma_first_excluded_component(cs, excluded);
    lemma_first_build_component(cs);
    lemma_components_nonempty(file);
}

/// The file names of `git ls-files -z` output.
pub open spec fn nul_separated(out: Seq<char>) -> Seq<Seq<char>> {
    split(out, '\0').filter(|f: Seq<char>| f.len() > 0)
}

/// What to do about tracked files in unwanted directories.
pub struct TrackedExclusionPlan {
    /// The unwanted directory names, ascending, without repeats.
    pub dirs: Vec<String>,
    /// The `.gitignore` patterns: each directory name followed by `/`.
    pub gitignore_patterns: Vec<String>,
    /// The tracked files to remove from the index, in listing order.
    pub to_remove: Vec<String>,
}

fn first_excluded_component_of(cs: &Vec<Vec<char>>, excluded: &[String]) -> (r: Option<usize>)
    ensures
        r matches Some(k) ==> k < cs@.len() && first_excluded_component(
            views(cs@),
            string_views(excluded@),
        ) == Some(cs@[k as int]@),
        r is None ==> first_excluded_component(views(cs@), string_views(excluded@)) is None,
{
    let ghost ex = string_views(excluded@);
    let mut i: usize = 0;
    assert(views(cs@).skip(0) =~= views(cs@));
    while i < cs.len()
        invariant
            i <= cs@.len(),
            ex == string_views(excluded@),
            first_excluded_component(views(cs@), ex) == first_excluded_component(
                views(cs@).skip(i as int),
                ex,
            ),
        decreases cs@.len() - i,
    {
        assert(views(cs@).skip(i as int)[0] == cs@[i as int]@);
        assert(views(cs@).skip(i as int).drop_first() =~= views(cs@).skip(i + 1));
        if dir_name_excluded_of(&cs[i], excluded) {
            return Some(i);
        }
        i = i + 1;
    }
    None
}

fn first_build_component_of(cs: &Vec<Vec<char>>) -> (r: Option<usize>)
    ensures
        r matches Some(k) ==> k < cs@.len() && first_build_component(views(cs@)) == Some(
            cs@[k as int]@,
        ),
        r is None ==> first_build_component(views(cs@)) is None,
{
    let mut i: usize = 0;
    assert(views(cs@).skip(0) =~= views(cs@));
    while i < cs.len()
        invariant
            i <= cs@.len(),
            first_build_component(views(cs@)) == first_build_component(views(cs@).skip(i as int)),
        decreases cs@.len() - i,
    {
        assert(views(cs@).skip(i as int)[0] == cs@[i as int]@);
        assert(views(cs@).skip(i as int).drop_first() =~= views(cs@).skip(i + 1));
        if build_output_dir_of(&cs[i]) {
            return Some(i);
        }
        i = i + 1;
    }
    None
}

fn tracked_exclusion_dir_of(file: &[char], excluded: &[String]) -> (r: Option<Vec<char>>)
    ensures
        r is Some <==> tracked_exclusion_dir(file@, string_views(excluded@)) is Some,
        r matches Some(d) ==> tracked_exclusion_dir(file@, string_views(excluded@)) == Some(d@),
{
    let cs = components_of(file);
    match first_excluded_component_of(&cs, excluded) {
        Some(k) => Some(cs[k].clone()),
        None => match first_build_component_of(&cs) {
            Some(k) => Some(cs[k].clone()),
            None => None,
        },
    }
}

/// Plans the clean-up of tracked files that live in excluded or
/// build-output directories, from the output of `git ls-files -z`:
/// `None` when there is none; otherwise the directories, their
/// `.gitignore` patterns and the files to untrack.
pub fn plan_tracked_excluded_removal(ls_files_output: &str, excluded_dir_names: &[String]) -> (r:
    Option<TrackedExclusionPlan>)
    ensures
        ({
            let files = nul_separated(ls_files_output@);
            let ex = string_views(excluded_dir_names@);
            let unwanted = files.filter(|f: Seq<char>| tracked_exclusion_dir(f, ex) is Some);
            &&& r is None <==> unwanted.len() == 0
            &&& r matches Some(plan) ==> {
                &&& string_views(plan.to_remove@) == unwanted
                &&& strictly_sorted(string_views(plan.dirs@))
                &&& string_views(plan.dirs@).to_set() == Set::new(
                    |d: Seq<char>|
                        exists|i: int|
                            0 <= i < files.len() && tracked_exclusion_dir(#[trigger] files[i], ex)
                                == Some(d),
                )
                &&& string_views(plan.gitignore_patterns@) == string_views(plan.dirs@).map_values(
                    |d: Seq<char>| d.push('/'),
                )
            }
        }),
{
    let ghost ex = string_views(excluded_dir_names@);
    let ghost files = nul_separated(ls_files_output@);
    let ghost has_dir = |f: Seq<char>| tracked_exclusion_dir(f, ex) is Some;
    let pieces = split_of(&chars_of(ls_files_output), '\0');
    let ghost ps = views(pieces@);
    let ghost nonempty = |f: Seq<char>| f.len() > 0;
    let mut dirs: Vec<Vec<char>> = Vec::new();
    let mut to_remove: Vec<String> = Vec::new();
    let mut i: usize = 0;
    assert(ps.take(0) =~= Seq::<Seq<char>>::empty());
    assert(views(dirs@).to_set() =~= Set::<Seq<char>>::empty());
    reveal_with_fuel(Seq::<_>::filter, 1);
    while i < pieces.len()
        invariant
            i <= pieces@.len(),
            ps == views(pieces@),
            ps == split(ls_files_output@, '\0'),
            ex == string_views(excluded_dir_names@),
            nonempty == (|f: Seq<char>| f.len() > 0),
            has_dir == (|f: Seq<char>| tracked_exclusion_dir(f, ex) is Some),
            strictly_sorted(views(dirs@)),
            string_views(to_remove@) == ps.take(i as int).filter(nonempty).filter(has_dir),
            views(dirs@).to_set() == Set::new(
                |d: Seq<char>|
                    exists|j: int|
                        0 <= j < ps.take(i as int).filter(nonempty).len() && tracked_exclusion_dir(
                            #[trigger] ps.take(i as int).filter(nonempty)[j],
                            ex,
                        ) == Some(d),
            ),
        decreases pieces@.len() - i,
    {
        reveal_with_fuel(Seq::<_>::filter, 1);
        let ghost pre = ps.take(i as int).filter(nonempty);
        assert(ps.take(i + 1).drop_last() =~= ps.take(i as int));
        assert(ps.take(i + 1).last() == pieces@[i as int]@);
        let ghost old_set = views(dirs@).to_set();
        if pieces[i].len() > 0 {
            assert(nonempty(pieces@[i as int]@));
            let ghost post = pre.push(pieces@[i as int]@);
            assert(ps.take(i + 1).filter(nonempty) == post);
            assert(post.drop_last() =~= pre);
            assert(post.last() == pieces@[i as int]@);
            match tracked_exclusion_dir_of(&pieces[i], excluded_dir_names) {
                Some(d) => {
                    assert(has_dir(pieces@[i as int]@));
                    let ghost dv = d@;
                    sorted_insert(&mut dirs, d);
                    let f = string_of(&pieces[i]);
                    proof {
                        lemma_string_views_push(to_remove@, f);
                    }
                    to_remove.push(f);
                    assert(post.filter(has_dir) =~= pre.filter(has_dir).push(pieces@[i as int]@));
                    assert(views(dirs@).to_set() =~= Set::new(
                        |e: Seq<char>|
                            exists|j: int|
                                0 <= j < post.len() && tracked_exclusion_dir(#[trigger] post[j], ex)
                                    == Some(e),
                    )) by {
                        assert(post[pre.len() as int] == pieces@[i as int]@);
                        assert forall|e: Seq<char>|
                            (exists|j: int|
                                0 <= j < post.len() && tracked_exclusion_dir(#[trigger] post[j], ex)
                                    == Some(e)) implies views(dirs@).to_set().contains(e) by {
                            let j = choose|j: int|
                                0 <= j < post.len() && tracked_exclusion_dir(#[trigger] post[j], ex)
                                    == Some(e);
                            if j < pre.len() {
                                assert(post[j] == pre[j]);
                                assert(old_set.contains(e));
                            }
                        }
                        assert forall|e: Seq<char>| views(dirs@).to_set().contains(e) implies (exists|j: int|
                            0 <= j < post.len() && tracked_exclusion_dir(#[trigger] post[j], ex)
                                == Some(e)) by {
                            if e != dv {
                                assert(old_set.contains(e));
                                let j = choose|j: int|
                                    0 <= j < pre.len() && tracked_exclusion_dir(#[trigger] pre[j], ex)
                                        == Some(e);
                                assert(post[j] == pre[j]);
                            } else {
                                assert(tracked_exclusion_dir(post[pre.len() as int], ex) == Some(e));
                            }
                        }
                    }
                },
                None => {
                    assert(!has_dir(pieces@[i as int]@));
                    assert(post.filter(has_dir) =~= pre.filter(has_dir));
                    assert(views(dirs@).to_set() =~= Set::new(
                        |e: Seq<char>|
                            exists|j: int|
                                0 <= j < post.len() && tracked_exclusion_dir(#[trigger] post[j], ex)
                                    == Some(e),
                    )) by {
                        assert forall|e: Seq<char>|
                            (exists|j: int|
                                0 <= j < post.len() && tracked_exclusion_dir(#[trigger] post[j], ex)
                                    == Some(e)) implies views(dirs@).to_set().contains(e) by {
                            let j = choose|j: int|
                                0 <= j < post.len() && tracked_exclusion_dir(#[trigger] post[j], ex)
                                    == Some(e);
                            if j < pre.len() {
                                assert(post[j] == pre[j]);
                            }
                        }
                        assert forall|e: Seq<char>| views(dirs@).to_set().contains(e) implies (exists|j: int|
                            0 <= j < post.len() && tracked_exclusion_dir(#[trigger] post[j], ex)
                                == Some(e)) by {
                            let j = choose|j: int|
                                0 <= j < pre.len() && tracked_exclusion_dir(#[trigger] pre[j], ex)
                                    == Some(e);
                            assert(post[j] == pre[j]);
                        }
                    }
                },
            }
        } else {
            assert(!nonempty(pieces@[i as int]@));
            assert(ps.take(i + 1).filter(nonempty) == pre);
        }
        i = i + 1;
    }
    assert(ps.take(pieces@.len() as int) =~= ps);
    assert(files == ps.filter(nonempty));
    if to_remove.len() == 0 {
        return None;
    }
    let mut dir_strings: Vec<String> = Vec::new();
    let mut patterns: Vec<String> = Vec::new();
    let mut k: usize = 0;
    while k < dirs.len()
        invariant
            k <= dirs@.len(),
            string_views(dir_strings@) == views(dirs@).take(k as int),
            string_views(patterns@) == views(dirs@).take(k as int).map_values(
                |d: Seq<char>| d.push('/'),
            ),
        decreases dirs@.len() - k,
    {
        let ds = string_of(&dirs[k]);
        let mut pv = dirs[k].clone();
        pv.push('/');
        let p = string_of(&pv);
        proof {
            lemma_string_views_push(dir_strings@, ds);
            lemma_string_views_push(patterns@, p);
        }
        dir_strings.push(ds);
        patterns.push(p);
        assert(views(dirs@).take(k + 1) =~= views(dirs@).take(k as int).push(dirs@[k as int]@));
        assert(views(dirs@).take(k + 1).map_values(|d: Seq<char>| d.push('/')) =~= views(
            dirs@,
        ).take(k as int).map_values(|d: Seq<char>| d.push('/')).push(dirs@[k as int]@.push('/')));
        k = k + 1;
    }
    assert(views(dirs@).take(dirs@.len() as int) =~= views(dirs@));
    Some(TrackedExclusionPlan { dirs: dir_strings, gitignore_patterns: patterns, to_remove })
}


// ---------------------------------------------------------------------
// Gitlinks (submodule pointers)
// ---------------------------------------------------------------------

pub open spec fn gitlink_mode_prefix() -> Seq<char> {
    seq!['1', '6', '0', '0', '0', '0', ' ']
}

/// Whether `git ls-tree HEAD -- <path>` output lists a gitlink (mode
/// `160000`).
pub fn is_gitlink(ls_tree_output: &str) -> (b: bool)
    ensures
        b == starts_with(ls_tree_output@, gitlink_mode_prefix()),
{
    let mut m: Vec<char> = Vec::new();
    m.push('1');
    m.push('6');
    m.push('0');
    m.push('0');
    m.push('0');
    m.push('0');
    m.push(' ');
    assert(m@ =~= gitlink_mode_prefix());
    starts_with_of(&chars_of(ls_tree_output), &m)
}

/// The SHA a gitlink listing records: the third whitespace-separated
/// field of a `160000 commit <sha>\t<path>` line.
pub open spec fn tracked_gitlink_sha(out: Seq<char>) -> Option<Seq<char>> {
    if starts_with(out, gitlink_mode_prefix()) && words(out).len() >= 3 {
        Some(words(out)[2])
    } else {
        None
    }
}

fn tracked_gitlink_sha_of(out: &str) -> (r: Option<Vec<char>>)
    ensures
        r is Some <==> tracked_gitlink_sha(out@) is Some,
        r matches Some(v) ==> tracked_gitlink_sha(out@) == Some(v@),
{
    if !is_gitlink(out) {
        return None;
    }
    let ws = words_of(&chars_of(out));
    if ws.len() >= 3 {
        assert(views(ws@)[2] == ws@[2]@);
        Some(ws[2].clone())
    } else {
        None
    }
}

/// Whether the pointer of a gitlink is unchanged. `ls_tree_output` is
/// the parent's `git ls-tree HEAD -- <path>` output (`None` when git
/// could not run), `shared_main_ref` the content of the shared gitdir's
/// `refs/heads/main` (when the submodule has one), `submodule_head` the
/// output of `git rev-parse HEAD` in the submodule checkout. Unchanged
/// means: a gitlink is listed; the shared `main` ref, when present and
/// non-empty, equals the tracked SHA; and the checkout HEAD equals it.
pub open spec fn gitlink_pointer_unchanged(
    ls_tree_output: Option<Seq<char>>,
    shared_main_ref: Option<Seq<char>>,
    submodule_head: Option<Seq<char>>,
) -> bool {
    match ls_tree_output {
        None => false,
        Some(out) => match tracked_gitlink_sha(out) {
            None => false,
            Some(sha) => {
                let stale = match shared_main_ref {
                    Some(m) => trim(m).len() > 0 && trim(m) != sha,
                    None => false,
                };
                !stale && match submodule_head {
                    Some(h) => trim(h) == sha,
                    None => false,
                }
            },
        },
    }
}

pub open spec fn opt_view(o: Option<&str>) -> Option<Seq<char>> {
    match o {
        Some(s) => Some(s@),
        None => None,
    }
}

/// Whether a gitlink's pointer is unchanged (see
/// [`gitlink_pointer_unchanged`]).
pub fn is_gitlink_unchanged(
    ls_tree_output: Option<&str>,
    shared_main_ref: Option<&str>,
    submodule_head: Option<&str>,
) -> (b: bool)
    ensures
        b == gitlink_pointer_unchanged(
            opt_view(ls_tree_output),
            opt_view(shared_main_ref),
            opt_view(submodule_head),
        ),
{
    let out = match ls_tree_output {
        None => return false,
        Some(o) => o,
    };
    let sha = match tracked_gitlink_sha_of(out) {
        None => return false,
        Some(v) => v,
    };
    if let Some(m) = shared_main_ref {
        let t = trim_of(&chars_of(m));
        if t.len() > 0 && !eq(&t, &sha) {
            return false;
        }
    }
    match submodule_head {
        None => false,
        Some(h) => eq(&trim_of(&chars_of(h)), &sha),
    }
}

/// The target of a `.git` file (`gitdir: <path>`), trimmed.
pub open spec fn gitdir_pointer_target(content: Seq<char>) -> Option<Seq<char>> {
    match strip_prefix(trim(content), "gitdir:"@) {
        Some(rest) => Some(trim(rest)),
        None => None,
    }
}

/// The path a `.git` file points to (`gitdir: <path>`), or `None` when
/// the content is no gitdir pointer.
pub fn gitdir_pointer(content: &str) -> (r: Option<String>)
    ensures
        r is Some <==> gitdir_pointer_target(content@) is Some,
        r matches Some(v) ==> gitdir_pointer_target(content@) == Some(v@),
{
    let t = trim_of(&chars_of(content));
    match strip_prefix_of(&t, &chars_of("gitdir:")) {
        Some(rest) => Some(string_of(&trim_of(&rest))),
        None => None,
    }
}

} // verus!
