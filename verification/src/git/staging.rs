//! Staging decisions: which staged paths are taken out of the index,
//! which blobs ahead of the upstream are too large, how a history
//! rewrite is invoked, and whether it changed anything.

use vstd::prelude::*;
use crate::git::discovery::{is_safe_git_path, safe_git_path};
use crate::path::{components, components_of};
use crate::text::{
    chars_of, decimal, decimal_of, eq, join, join_of, lemma_string_views_push, lemma_views_push,
    lines, lines_of, one, parse_u64, parse_u64_of, push_all, replace_char, replace_char_of,
    split, split_of, string_of, string_views, trim, trim_of, views, words, words_of,
};

verus! {

broadcast use vstd::string::group_string_axioms;

// ---------------------------------------------------------------------
// Paths taken out of the index
// ---------------------------------------------------------------------

/// The first `/`-separated piece of a path (`split('/').next()`).
pub fn top_level_dir(path: &str) -> (r: Option<String>)
    ensures
        (r matches Some(s) && s@ == split(path@, '/')[0]),
{
    let ps = split_of(&chars_of(path), '/');
    proof {
        crate::text::lemma_split_len(path@, '/');
    }
    assert(views(ps@)[0] == ps@[0]@);
    Some(string_of(&ps[0]))
}

/// A staged path is excluded when one of its components is, exactly,
/// one of the excluded directory names.
pub open spec fn staged_path_excluded(path: Seq<char>, excluded: Seq<Seq<char>>) -> bool {
    exists|k: int| 0 <= k < components(path).len() && excluded.contains(#[trigger] components(path)[k])
}

/// Whether a staged `path` lies in an excluded directory (exact names).
pub fn is_excluded_change_path(path: &str, excluded_dir_names: &[String]) -> (b: bool)
    ensures
        b == staged_path_excluded(path@, string_views(excluded_dir_names@)),
{
    let cs = components_of(&chars_of(path));
    let ghost cv = views(cs@);
    let ghost ex = string_views(excluded_dir_names@);
    let mut k: usize = 0;
    while k < cs.len()
        invariant
            k <= cs@.len(),
            cv == views(cs@),
            cv == components(path@),
            ex == string_views(excluded_dir_names@),
            forall|m: int| 0 <= m < k ==> !ex.contains(#[trigger] cv[m]),
        decreases cs@.len() - k,
    {
        let mut i: usize = 0;
        while i < excluded_dir_names.len()
            invariant
                i <= excluded_dir_names@.len(),
                k < cs@.len(),
                cv == views(cs@),
                cv == components(path@),
                ex == string_views(excluded_dir_names@),
                forall|m: int| 0 <= m < i ==> ex[m] != cv[k as int],
            decreases excluded_dir_names@.len() - i,
        {
            if eq(&chars_of(excluded_dir_names[i].as_str()), &cs[k]) {
                assert(ex[i as int] == cv[k as int]);
                assert(ex.contains(components(path@)[k as int]));
                return true;
            }
            i = i + 1;
        }
        assert(!ex.contains(cv[k as int]));
        k = k + 1;
    }
    false
}

/// The staged paths that are unstaged for lying in an excluded
/// directory: safe ones only, in order.
pub open spec fn excluded_staged(staged: Seq<Seq<char>>, excluded: Seq<Seq<char>>) -> Seq<
    Seq<char>,
> {
    staged.filter(|p: Seq<char>| safe_git_path(p) && staged_path_excluded(p, excluded))
}

/// The staged paths to unstage because they lie in an excluded
/// directory; unsafe paths are skipped.
pub fn excluded_paths_to_unstage(staged: &[String], excluded_dir_names: &[String]) -> (r: Vec<
    String,
>)
    ensures
        string_views(r@) == excluded_staged(string_views(staged@), string_views(excluded_dir_names@)),
{
    let ghost sv = string_views(staged@);
    let ghost ex = string_views(excluded_dir_names@);
    let ghost keep = |p: Seq<char>| safe_git_path(p) && staged_path_excluded(p, ex);
    let mut out: Vec<String> = Vec::new();
    let mut i: usize = 0;
    assert(sv.take(0) =~= Seq::<Seq<char>>::empty());
    assert(string_views(out@) =~= Seq::<Seq<char>>::empty());
    reveal_with_fuel(Seq::<_>::filter, 1);
    while i < staged.len()
        invariant
            i <= staged@.len(),
            sv == string_views(staged@),
            ex == string_views(excluded_dir_names@),
            keep == (|p: Seq<char>| safe_git_path(p) && staged_path_excluded(p, ex)),
            string_views(out@) == sv.take(i as int).filter(keep),
        decreases staged@.len() - i,
    {
        reveal_with_fuel(Seq::<_>::filter, 1);
        assert(sv.take(i + 1).drop_last() =~= sv.take(i as int));
        assert(sv.take(i + 1).last() == staged@[i as int]@);
        if is_safe_git_path(staged[i].as_str()) && is_excluded_change_path(
            staged[i].as_str(),
            excluded_dir_names,
        ) {
            let p = staged[i].clone();
            proof {
                lemma_string_views_push(out@, p);
            }
            out.push(p);
        }
        i = i + 1;
    }
    assert(sv.take(sv.len() as int) =~= sv);
    out
}

/// The staged paths unstaged for their size: safe ones whose file size
/// is known and above `max_bytes`, in order.
pub open spec fn oversized_staged(staged: Seq<(Seq<char>, Option<u64>)>, max_bytes: u64) -> Seq<
    Seq<char>,
> {
    staged.filter_map(
        |e: (Seq<char>, Option<u64>)|
            if safe_git_path(e.0) && e.1 is Some && e.1->0 > max_bytes {
                Some(e.0)
            } else {
                None
            },
    )
}

/// The staged paths to unstage for being larger than `max_bytes`;
/// each comes with its file size, or `None` when it could not be read.
pub fn oversized_paths_to_unstage(staged: &[(String, Option<u64>)], max_bytes: u64) -> (r: Vec<
    String,
>)
    ensures
        string_views(r@) == oversized_staged(
            staged@.map_values(|e: (String, Option<u64>)| (e.0@, e.1)),
            max_bytes,
        ),
{
    let ghost sv = staged@.map_values(|e: (String, Option<u64>)| (e.0@, e.1));
    let ghost f = |e: (Seq<char>, Option<u64>)|
        if safe_git_path(e.0) && e.1 is Some && e.1->0 > max_bytes {
            Some(e.0)
        } else {
            None
        };
    let mut out: Vec<String> = Vec::new();
    let mut i: usize = 0;
    assert(sv.take(0) =~= Seq::<(Seq<char>, Option<u64>)>::empty());
    assert(string_views(out@) =~= Seq::<Seq<char>>::empty());
    while i < staged.len()
        invariant
            i <= staged@.len(),
            sv == staged@.map_values(|e: (String, Option<u64>)| (e.0@, e.1)),
            f == (|e: (Seq<char>, Option<u64>)|
                if safe_git_path(e.0) && e.1 is Some && e.1->0 > max_bytes {
                    Some(e.0)
                } else {
                    None
                }),
            string_views(out@) == sv.take(i as int).filter_map(f),
        decreases staged@.len() - i,
    {
        assert(sv.take(i + 1).drop_last() =~= sv.take(i as int));
        assert(sv.take(i + 1).last() == (staged@[i as int].0@, staged@[i as int].1));
        let big = match staged[i].1 {
            Some(n) => n > max_bytes,
            None => false,
        };
        if is_safe_git_path(staged[i].0.as_str()) && big {
            let p = staged[i].0.clone();
            proof {
                lemma_string_views_push(out@, p);
            }
            out.push(p);
            assert(string_views(out@) =~= sv.take(i + 1).filter_map(f));
        }
        i = i + 1;
    }
    assert(sv.take(sv.len() as int) =~= sv);
    out
}

/// How many paths one `git reset -q HEAD --` names at most.
pub const RESET_BATCH: usize = 50;

/// The batch with index `k` of `paths`.
pub open spec fn batch(paths: Seq<Seq<char>>, k: int) -> Seq<Seq<char>> {
    paths.subrange(
        RESET_BATCH * k,
        if RESET_BATCH * k + RESET_BATCH <= paths.len() {
            RESET_BATCH * k + RESET_BATCH
        } else {
            paths.len() as int
        },
    )
}

/// `paths` cut into consecutive batches of `RESET_BATCH` (the last one
/// may be shorter), one `git reset` each.
pub fn reset_batches(paths: &[String]) -> (r: Vec<Vec<String>>)
    ensures
        r@.len() == (paths@.len() + RESET_BATCH - 1) / (RESET_BATCH as int),
        forall|k: int| 0 <= k < r@.len() ==> string_views(#[trigger] r@[k]@) == batch(
            string_views(paths@),
            k,
        ),
{
    let ghost pv = string_views(paths@);
    let n = paths.len();
    let mut out: Vec<Vec<String>> = Vec::new();
    let mut lo: usize = 0;
    while lo < n
        invariant
            n == paths@.len(),
            pv == string_views(paths@),
            lo <= n,
            lo < n ==> lo == RESET_BATCH * out@.len(),
            out@.len() == (lo + RESET_BATCH - 1) / (RESET_BATCH as int),
            lo == n ==> n <= RESET_BATCH * out@.len(),
            forall|k: int| 0 <= k < out@.len() ==> string_views(#[trigger] out@[k]@) == batch(pv, k),
        decreases n - lo,
    {
        let hi = if n - lo > RESET_BATCH {
            lo + RESET_BATCH
        } else {
            n
        };
        let mut chunk: Vec<String> = Vec::new();
        let mut i = lo;
        while i < hi
            invariant
                lo <= i <= hi <= n,
                n == paths@.len(),
                pv == string_views(paths@),
                string_views(chunk@) == pv.subrange(lo as int, i as int),
            decreases hi - i,
        {
            let p = paths[i].clone();
            proof {
                lemma_string_views_push(chunk@, p);
            }
            chunk.push(p);
            assert(pv.subrange(lo as int, i + 1) =~= pv.subrange(lo as int, i as int).push(pv[i as int]));
            i = i + 1;
        }
        let ghost k = out@.len() as int;
        assert(string_views(chunk@) == batch(pv, k));
        out.push(chunk);
        lo = hi;
    }
    out
}

// ---------------------------------------------------------------------
// Large blobs ahead of the upstream
// ---------------------------------------------------------------------

/// One line of `git cat-file --batch-check='%(objectname) %(objecttype)
/// %(objectsize) %(rest)'`: a blob larger than `min_bytes`, with its
/// size and the first word of its path.
pub open spec fn large_blob_of_line(line: Seq<char>, min_bytes: u64) -> Option<(u64, Seq<char>)> {
    let w = words(line);
    if w.len() < 4 || w[1] != "blob"@ {
        None
    } else {
        match parse_u64(w[2]) {
            Some(size) => if size > min_bytes {
                Some((size, w[3]))
            } else {
                None
            },
            None => None,
        }
    }
}

/// The large blobs listed in the batch-check output, in listing order.
pub open spec fn large_blobs(out: Seq<char>, min_bytes: u64) -> Seq<(u64, Seq<char>)> {
    lines(out).filter_map(|l: Seq<char>| large_blob_of_line(l, min_bytes))
}

pub open spec fn blob_views(s: Seq<(u64, String)>) -> Seq<(u64, Seq<char>)> {
    s.map_values(|b: (u64, String)| (b.0, b.1@))
}

/// No blob is larger than a later one.
pub open spec fn sorted_by_size(s: Seq<(u64, Seq<char>)>) -> bool {
    forall|i: int, j: int| 0 <= i < j < s.len() ==> (#[trigger] s[i]).0 <= (#[trigger] s[j]).0
}

/// The blobs of one size, in order.
pub open spec fn of_size(s: Seq<(u64, Seq<char>)>, v: u64) -> Seq<(u64, Seq<char>)> {
    s.filter(has_size(v))
}

pub open spec fn has_size(v: u64) -> spec_fn((u64, Seq<char>)) -> bool {
    |b: (u64, Seq<char>)| b.0 == v
}

proof fn lemma_of_size_push(s: Seq<(u64, Seq<char>)>, x: (u64, Seq<char>), v: u64)
    ensures
        of_size(s.push(x), v) == if x.0 == v {
            of_size(s, v).push(x)
        } else {
            of_size(s, v)
        },
{
    reveal_with_fuel(Seq::<_>::filter, 1);
    assert(s.push(x).drop_last() =~= s);
}

proof fn lemma_of_size_insert(s: Seq<(u64, Seq<char>)>, pos: int, x: (u64, Seq<char>), v: u64)
    requires
        0 <= pos <= s.len(),
        forall|k: int| pos <= k < s.len() ==> (#[trigger] s[k]).0 > x.0,
    ensures
        of_size(s.insert(pos, x), v) == if x.0 == v {
            of_size(s, v).push(x)
        } else {
            of_size(s, v)
        },
{
    let p = has_size(v);
    let a = s.take(pos);
    let b = s.skip(pos);
    assert(s =~= a + b);
    assert(s.insert(pos, x) =~= a.push(x) + b);
    Seq::filter_distributes_over_add(a.push(x), b, p);
    Seq::filter_distributes_over_add(a, b, p);
    lemma_of_size_push(a, x, v);
    if x.0 == v {
        assert forall|k: int| 0 <= k < b.len() implies !p(#[trigger] b[k]) by {
            assert(b[k] == s[pos + k]);
        }
        crate::forge::lemma_filter_none(b, p);
        assert(b.filter(p) =~= Seq::<(u64, Seq<char>)>::empty());
        assert(a.filter(p) + b.filter(p) =~= a.filter(p));
        assert(of_size(s, v) =~= of_size(a, v));
        assert(of_size(s.insert(pos, x), v) =~= of_size(a, v).push(x));
    }
}

fn large_blob_of_line_of(line: &[char], min_bytes: u64) -> (r: Option<(u64, String)>)
    ensures
        r is Some <==> large_blob_of_line(line@, min_bytes) is Some,
        r matches Some(b) ==> large_blob_of_line(line@, min_bytes) == Some((b.0, b.1@)),
{
    let w = words_of(line);
    if w.len() < 4 {
        return None;
    }
    assert(views(w@)[1] == w@[1]@);
    assert(views(w@)[2] == w@[2]@);
    assert(views(w@)[3] == w@[3]@);
    if !eq(&w[1], &chars_of("blob")) {
        return None;
    }
    match parse_u64_of(&w[2]) {
        Some(size) => if size > min_bytes {
            Some((size, string_of(&w[3])))
        } else {
            None
        },
        None => None,
    }
}

/// The blobs larger than `min_bytes` among the objects that `git
/// cat-file --batch-check` describes in `batch_check_output`, smallest
/// first; blobs of equal size keep their listing order (a stable sort).
pub fn large_blobs_ahead(batch_check_output: &str, min_bytes: u64) -> (r: Vec<(u64, String)>)
    ensures
        sorted_by_size(blob_views(r@)),
        blob_views(r@).to_multiset() == large_blobs(batch_check_output@, min_bytes).to_multiset(),
        forall|v: u64| #[trigger] of_size(blob_views(r@), v) == of_size(
            large_blobs(batch_check_output@, min_bytes),
            v,
        ),
{
    let ls = lines_of(&chars_of(batch_check_output));
    let ghost lv = views(ls@);
    let ghost f = |l: Seq<char>| large_blob_of_line(l, min_bytes);
    let mut out: Vec<(u64, String)> = Vec::new();
    let mut i: usize = 0;
    assert(lv.take(0) =~= Seq::<Seq<char>>::empty());
    assert(blob_views(out@) =~= Seq::<(u64, Seq<char>)>::empty());
    while i < ls.len()
        invariant
            i <= ls@.len(),
            lv == views(ls@),
            lv == lines(batch_check_output@),
            f == (|l: Seq<char>| large_blob_of_line(l, min_bytes)),
            sorted_by_size(blob_views(out@)),
            blob_views(out@).to_multiset() == lv.take(i as int).filter_map(f).to_multiset(),
            forall|v: u64| #[trigger] of_size(blob_views(out@), v) == of_size(
                lv.take(i as int).filter_map(f),
                v,
            ),
        decreases ls@.len() - i,
    {
        assert(lv.take(i + 1).drop_last() =~= lv.take(i as int));
        assert(lv.take(i + 1).last() == ls@[i as int]@);
        match large_blob_of_line_of(&ls[i], min_bytes) {
            Some(b) => {
                let ghost bv = (b.0, b.1@);
                let ghost before = blob_views(out@);
                let mut pos: usize = 0;
                while pos < out.len() && out[pos].0 <= b.0
                    invariant
                        pos <= out@.len(),
                        before == blob_views(out@),
                        forall|k: int| 0 <= k < pos ==> (#[trigger] before[k]).0 <= b.0,
                    decreases out@.len() - pos,
                {
                    assert(before[pos as int].0 == out@[pos as int].0);
                    pos = pos + 1;
                }
                proof {
                    if pos < out@.len() {
                        assert(before[pos as int].0 == out@[pos as int].0);
                    }
                    let r = before.insert(pos as int, bv);
                    assert forall|a: int, c: int| 0 <= a < c < r.len() implies (#[trigger] r[a]).0
                        <= (#[trigger] r[c]).0 by {
                        if c < pos {
                            assert(r[a] == before[a] && r[c] == before[c]);
                        } else if c == pos {
                            assert(r[c] == bv && r[a] == before[a]);
                        } else if a == pos {
                            assert(r[a] == bv && r[c] == before[c - 1]);
                            assert(before[pos as int].0 <= before[c - 1].0);
                        } else if a < pos {
                            assert(r[a] == before[a] && r[c] == before[c - 1]);
                        } else {
                            assert(r[a] == before[a - 1] && r[c] == before[c - 1]);
                        }
                    }
                    vstd::seq_lib::to_multiset_insert(before, pos as int, bv);
                    assert forall|k: int| pos <= k < before.len() implies (#[trigger] before[k]).0
                        > bv.0 by {
                        assert(before[pos as int].0 <= before[k].0);
                    }
                    let src = lv.take(i as int).filter_map(f);
                    assert forall|v: u64| #[trigger] of_size(before.insert(pos as int, bv), v)
                        == of_size(src.push(bv), v) by {
                        lemma_of_size_insert(before, pos as int, bv, v);
                        lemma_of_size_push(src, bv, v);
                    }
                    vstd::seq_lib::to_multiset_build(lv.take(i as int).filter_map(f), bv);
                    assert(lv.take(i + 1).filter_map(f) =~= lv.take(i as int).filter_map(f).push(
                        bv,
                    ));
                }
                out.insert(pos, b);
                assert(blob_views(out@) =~= before.insert(pos as int, bv));
            },
            None => {
                assert(lv.take(i + 1).filter_map(f) =~= lv.take(i as int).filter_map(f));
            },
        }
        i = i + 1;
    }
    assert(lv.take(lv.len() as int) =~= lv);
    out
}

// ---------------------------------------------------------------------
// Rewriting history ahead of the upstream
// ---------------------------------------------------------------------

/// A path single-quoted for the shell: each `'` becomes `'\''`.
pub open spec fn shell_quote(p: Seq<char>) -> Seq<char> {
    seq!['\''] + replace_char(p, '\'', "'\\''"@) + seq!['\'']
}

/// The argv of the `git filter-branch` fallback: one index filter that
/// removes the quoted paths from every commit of every ref.
pub open spec fn filter_branch_args(paths: Seq<Seq<char>>) -> Seq<Seq<char>> {
    seq![
        "filter-branch"@,
        "--force"@,
        "--index-filter"@,
        "git rm -r --cached --ignore-unmatch -- "@ + join(
            paths.map_values(|p: Seq<char>| shell_quote(p)),
            seq![' '],
        ),
        "--"@,
        "--all"@,
    ]
}

fn shell_quote_of(p: &[char]) -> (r: Vec<char>)
    ensures
        r@ == shell_quote(p@),
{
    let mut v = one('\'');
    push_all(&mut v, &replace_char_of(p, '\'', &chars_of("'\\''")));
    v.push('\'');
    assert(v@ =~= shell_quote(p@));
    v
}

fn string_from(s: &str) -> (r: String)
    ensures
        r@ == s@,
{
    string_of(&chars_of(s))
}

/// The `git filter-branch` argv that removes `paths_to_remove` from
/// history (see [`filter_branch_args`]).
pub fn build_filter_branch_args(paths_to_remove: &[String]) -> (r: Vec<String>)
    ensures
        string_views(r@) == filter_branch_args(string_views(paths_to_remove@)),
{
    let ghost pv = string_views(paths_to_remove@);
    let mut quoted: Vec<Vec<char>> = Vec::new();
    let mut i: usize = 0;
    while i < paths_to_remove.len()
        invariant
            i <= paths_to_remove@.len(),
            pv == string_views(paths_to_remove@),
            views(quoted@) == pv.take(i as int).map_values(|p: Seq<char>| shell_quote(p)),
        decreases paths_to_remove@.len() - i,
    {
        let q = shell_quote_of(&chars_of(paths_to_remove[i].as_str()));
        proof {
            lemma_views_push(quoted@, q);
        }
        quoted.push(q);
        assert(pv.take(i + 1).map_values(|p: Seq<char>| shell_quote(p)) =~= pv.take(
            i as int,
        ).map_values(|p: Seq<char>| shell_quote(p)).push(shell_quote(pv[i as int])));
        i = i + 1;
    }
    assert(pv.take(pv.len() as int) =~= pv);
    let mut filter = chars_of("git rm -r --cached --ignore-unmatch -- ");
    push_all(&mut filter, &join_of(&quoted, &one(' ')));
    let mut out: Vec<String> = Vec::new();
    out.push(string_from("filter-branch"));
    out.push(string_from("--force"));
    out.push(string_from("--index-filter"));
    out.push(string_of(&filter));
    out.push(string_from("--"));
    out.push(string_from("--all"));
    assert(string_views(out@) =~= filter_branch_args(pv));
    out
}

/// The argv of `git filter-repo` that removes `paths` from history.
pub open spec fn filter_repo_args(paths: Seq<Seq<char>>) -> Seq<Seq<char>>
    decreases paths.len(),
{
    if paths.len() == 0 {
        seq!["filter-repo"@, "--invert-paths"@, "--force"@]
    } else {
        filter_repo_args(paths.drop_last()).push("--path"@).push(paths.last())
    }
}

/// The `git filter-repo` argv that removes `paths_to_remove` from
/// history.
pub fn build_filter_repo_args(paths_to_remove: &[String]) -> (r: Vec<String>)
    ensures
        string_views(r@) == filter_repo_args(string_views(paths_to_remove@)),
{
    let ghost pv = string_views(paths_to_remove@);
    let mut out: Vec<String> = Vec::new();
    out.push(string_from("filter-repo"));
    out.push(string_from("--invert-paths"));
    out.push(string_from("--force"));
    assert(string_views(out@) =~= filter_repo_args(pv.take(0)));
    let mut i: usize = 0;
    while i < paths_to_remove.len()
        invariant
            i <= paths_to_remove@.len(),
            pv == string_views(paths_to_remove@),
            string_views(out@) == filter_repo_args(pv.take(i as int)),
        decreases paths_to_remove@.len() - i,
    {
        assert(pv.take(i + 1).drop_last() =~= pv.take(i as int));
        assert(pv.take(i + 1).last() == paths_to_remove@[i as int]@);
        let a = string_from("--path");
        proof {
            lemma_string_views_push(out@, a);
        }
        out.push(a);
        let p = paths_to_remove[i].clone();
        proof {
            lemma_string_views_push(out@, p);
        }
        out.push(p);
        i = i + 1;
    }
    assert(pv.take(pv.len() as int) =~= pv);
    out
}

/// The tools that can rewrite history, in order of preference.
#[derive(Debug, Clone, Copy, PartialEq, Eq)]
pub enum RewriteTool {
    FilterRepo,
    FilterBranch,
}

/// What a history rewrite needs: the backup branch made first, and the
/// argv of each tool.
#[derive(Debug, Clone)]
pub struct RewritePlan {
    pub backup_branch: String,
    pub filter_repo_args: Vec<String>,
    pub filter_branch_args: Vec<String>,
}

/// `<prefix>-<unix seconds>`.
pub open spec fn backup_branch_name(prefix: Seq<char>, now_secs: u64) -> Seq<char> {
    prefix + seq!['-'] + decimal(now_secs as nat)
}

/// The plan of a rewrite that removes `paths_to_remove` from the
/// history ahead of the upstream, or `None` when there is nothing to
/// remove. The backup branch is named after `backup_prefix` and the
/// time `now_secs`.
pub fn rewrite_ahead_paths(paths_to_remove: &[String], backup_prefix: &str, now_secs: u64) -> (r:
    Option<RewritePlan>)
    ensures
        paths_to_remove@.len() == 0 <==> r is None,
        r matches Some(p) ==> {
            &&& p.backup_branch@ == backup_branch_name(backup_prefix@, now_secs)
            &&& string_views(p.filter_repo_args@) == filter_repo_args(string_views(paths_to_remove@))
            &&& string_views(p.filter_branch_args@) == filter_branch_args(
                string_views(paths_to_remove@),
            )
        },
{
    if paths_to_remove.len() == 0 {
        return None;
    }
    let mut b = chars_of(backup_prefix);
    b.push('-');
    push_all(&mut b, &decimal_of(now_secs));
    assert(b@ =~= backup_branch_name(backup_prefix@, now_secs));
    Some(
        RewritePlan {
            backup_branch: string_of(&b),
            filter_repo_args: build_filter_repo_args(paths_to_remove),
            filter_branch_args: build_filter_branch_args(paths_to_remove),
        },
    )
}

/// The tool to use: `git filter-repo` when available, else `git
/// filter-branch`, else none.
pub fn choose_rewrite_tool(filter_repo_available: bool, filter_branch_available: bool) -> (r:
    Option<RewriteTool>)
    ensures
        filter_repo_available ==> r == Some(RewriteTool::FilterRepo),
        !filter_repo_available && filter_branch_available ==> r == Some(RewriteTool::FilterBranch),
        !filter_repo_available && !filter_branch_available ==> r is None,
{
    if filter_repo_available {
        Some(RewriteTool::FilterRepo)
    } else if filter_branch_available {
        Some(RewriteTool::FilterBranch)
    } else {
        None
    }
}

/// After a rewrite, given the output of `git rev-parse <backup>^{tree}`
/// and of `git rev-parse HEAD^{tree}` (each `None` when it failed): the
/// backup branch to report, or `None` when both trees were read and
/// are the same (a rewrite that changed nothing; its backup branch is
/// then deleted).
pub fn rewrite_was_noop_then_cleanup(
    backup_branch: &str,
    backup_tree: Option<&str>,
    head_tree: Option<&str>,
) -> (r: Option<String>)
    ensures
        r is None <==> (backup_tree is Some && head_tree is Some && trim(backup_tree->0@) == trim(
            head_tree->0@,
        )),
        r matches Some(s) ==> s@ == backup_branch@,
{
    match (backup_tree, head_tree) {
        (Some(b), Some(h)) => {
            if eq(&trim_of(&chars_of(b)), &trim_of(&chars_of(h))) {
                None
            } else {
                Some(string_from(backup_branch))
            }
        },
        _ => Some(string_from(backup_branch)),
    }
}

// ---------------------------------------------------------------------
// Restoring paths
// ---------------------------------------------------------------------

/// The git commands that restore paths from the index: `git restore`
/// first, and as its fallback `git reset HEAD` followed by one `git
/// checkout -- <path>` per path.
#[derive(Debug, Clone)]
pub struct RestorePlan {
    pub restore_args: Vec<String>,
    pub reset_args: Vec<String>,
    pub checkout_args: Vec<Vec<String>>,
}

/// `prefix` followed by `paths`.
pub open spec fn args_with_paths(prefix: Seq<Seq<char>>, paths: Seq<Seq<char>>) -> Seq<Seq<char>> {
    prefix + paths
}

fn args_with_paths_of(prefix: Vec<String>, paths: &[String]) -> (r: Vec<String>)
    ensures
        string_views(r@) == string_views(prefix@) + string_views(paths@),
{
    let ghost pv = string_views(paths@);
    let ghost head = string_views(prefix@);
    let mut out = prefix;
    let mut i: usize = 0;
    assert(head + pv.take(0) =~= head);
    while i < paths.len()
        invariant
            i <= paths@.len(),
            pv == string_views(paths@),
            string_views(out@) == head + pv.take(i as int),
        decreases paths@.len() - i,
    {
        let p = paths[i].clone();
        proof {
            lemma_string_views_push(out@, p);
        }
        out.push(p);
        assert(head + pv.take(i + 1) =~= (head + pv.take(i as int)).push(pv[i as int]));
        i = i + 1;
    }
    assert(pv.take(pv.len() as int) =~= pv);
    out
}

/// The commands that restore `paths` (see [`RestorePlan`]): `Ok(None)`
/// when there are none, `Err(path)` with the first path that is not
/// safe to hand to git.
pub fn restore_paths(paths: &[String]) -> (r: Result<Option<RestorePlan>, String>)
    ensures
        paths@.len() == 0 ==> r == Ok::<Option<RestorePlan>, String>(None),
        paths@.len() > 0 && (exists|k: int| 0 <= k < paths@.len() && !safe_git_path(#[trigger] paths@[k]@))
            ==> (r matches Err(p) && exists|k: int|
            0 <= k < paths@.len() && !safe_git_path(paths@[k]@) && p@ == paths@[k]@ && forall|m: int|
                0 <= m < k ==> safe_git_path(#[trigger] paths@[m]@)),
        paths@.len() > 0 && (forall|k: int| 0 <= k < paths@.len() ==> safe_git_path(#[trigger] paths@[k]@))
            ==> (r matches Ok(Some(plan)) && {
            &&& string_views(plan.restore_args@) == seq![
                "restore"@,
                "--staged"@,
                "--worktree"@,
                "--"@,
            ] + string_views(paths@)
            &&& string_views(plan.reset_args@) == seq!["reset"@, "HEAD"@, "--"@] + string_views(
                paths@,
            )
            &&& plan.checkout_args@.len() == paths@.len()
            &&& forall|k: int|
                0 <= k < paths@.len() ==> string_views(#[trigger] plan.checkout_args@[k]@) == seq![
                    "checkout"@,
                    "--"@,
                    paths@[k]@,
                ]
        }),
{
    if paths.len() == 0 {
        return Ok(None);
    }
    let mut i: usize = 0;
    while i < paths.len()
        invariant
            i <= paths@.len(),
            forall|m: int| 0 <= m < i ==> safe_git_path(#[trigger] paths@[m]@),
        decreases paths@.len() - i,
    {
        if !is_safe_git_path(paths[i].as_str()) {
            return Err(paths[i].clone());
        }
        i = i + 1;
    }
    let mut restore: Vec<String> = Vec::new();
    restore.push(string_from("restore"));
    restore.push(string_from("--staged"));
    restore.push(string_from("--worktree"));
    restore.push(string_from("--"));
    let mut reset: Vec<String> = Vec::new();
    reset.push(string_from("reset"));
    reset.push(string_from("HEAD"));
    reset.push(string_from("--"));
    assert(string_views(restore@) =~= seq!["restore"@, "--staged"@, "--worktree"@, "--"@]);
    assert(string_views(reset@) =~= seq!["reset"@, "HEAD"@, "--"@]);
    let restore_args = args_with_paths_of(restore, paths);
    let reset_args = args_with_paths_of(reset, paths);
    let mut checkout_args: Vec<Vec<String>> = Vec::new();
    let mut j: usize = 0;
    while j < paths.len()
        invariant
            j <= paths@.len(),
            checkout_args@.len() == j,
            forall|k: int|
                0 <= k < j ==> string_views(#[trigger] checkout_args@[k]@) == seq![
                    "checkout"@,
                    "--"@,
                    paths@[k]@,
                ],
        decreases paths@.len() - j,
    {
        let mut c: Vec<String> = Vec::new();
        c.push(string_from("checkout"));
        c.push(string_from("--"));
        c.push(paths[j].clone());
        assert(string_views(c@) =~= seq!["checkout"@, "--"@, paths@[j as int]@]);
        checkout_args.push(c);
        j = j + 1;
    }
    Ok(Some(RestorePlan { restore_args, reset_args, checkout_args }))
}

} // verus!
