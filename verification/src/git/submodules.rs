//! The submodules a parent repository declares in `.gitmodules`, each
//! with the gitlink commit that the parent's index tracks for it.

use vstd::prelude::*;
use crate::git::discovery::{gitlinks_of_stage_output, pair_views, read_parent_gitlink_shas};
use crate::ordered::{lemma_lt_total, lemma_lt_transitive, lt, seq_lt};
use crate::text::{
    chars_of, ends_with, matches_at, ends_with_of, eq, find, find_of, lemma_find, lines, lines_of, one,
    slice_copy, starts_with, starts_with_of, string_of, strip_prefix, strip_prefix_of, trim,
    trim_of, trim_set, trim_set_of, views,
};

verus! {

broadcast use vstd::string::group_string_axioms;

/// One submodule declared in a parent's `.gitmodules`: its key `name`,
/// its working-tree `path`, the first `url` declared for it, and the
/// gitlink `sha` the parent's index tracks at `path` (empty when the
/// index has no gitlink there).
#[derive(Debug, Clone, PartialEq, Eq)]
pub struct SubmoduleEntry {
    pub name: String,
    pub path: String,
    pub url: String,
    pub sha: String,
}

/// `(name, path, url, sha)` of an entry.
pub type EntryView = (Seq<char>, Seq<char>, Seq<char>, Seq<char>);

impl View for SubmoduleEntry {
    type V = EntryView;

    open spec fn view(&self) -> EntryView {
        (self.name@, self.path@, self.url@, self.sha@)
    }
}

pub open spec fn entry_views(s: Seq<SubmoduleEntry>) -> Seq<EntryView> {
    s.map_values(|e: SubmoduleEntry| e@)
}

// ---------------------------------------------------------------------
// The model of `.gitmodules`
// ---------------------------------------------------------------------

/// A declared submodule while `.gitmodules` is read: name, path and url
/// as far as they were seen.
pub type Decl = (Seq<char>, Option<Seq<char>>, Option<Seq<char>>);

/// The declarations so far, in order of first mention, and the
/// submodule whose section is open.
pub type GitmodulesState = (Seq<Decl>, Option<Seq<char>>);

pub open spec fn has_decl(t: Seq<Decl>, name: Seq<char>) -> bool {
    exists|i: int| 0 <= i < t.len() && (#[trigger] t[i]).0 == name
}

/// The table with a declaration for `name` (added empty if missing).
pub open spec fn touch(t: Seq<Decl>, name: Seq<char>) -> Seq<Decl> {
    if has_decl(t, name) {
        t
    } else {
        t.push((name, None, None))
    }
}

/// A `path = ...` line: the last one wins.
pub open spec fn set_path(t: Seq<Decl>, name: Seq<char>, v: Seq<char>) -> Seq<Decl> {
    t.map_values(|d: Decl| if d.0 == name { (d.0, Some(v), d.2) } else { d })
}

/// A `url = ...` line: the first one wins.
pub open spec fn set_url(t: Seq<Decl>, name: Seq<char>, v: Seq<char>) -> Seq<Decl> {
    t.map_values(|d: Decl| if d.0 == name && d.2 is None { (d.0, d.1, Some(v)) } else { d })
}

/// A value or name with its surrounding `"` removed.
pub open spec fn unquote(s: Seq<char>) -> Seq<char> {
    trim_set(s, seq!['"'])
}

/// For a trimmed line: `None` when it is no section header `[...]`;
/// `Some(Some(name))` for `[submodule "name"]`; `Some(None)` for any
/// other section.
pub open spec fn section_header(t: Seq<char>) -> Option<Option<Seq<char>>> {
    if starts_with(t, seq!['[']) && ends_with(t, seq![']']) {
        match strip_prefix(t.subrange(1, t.len() - 1), "submodule "@) {
            Some(rest) => Some(Some(unquote(trim(rest)))),
            None => Some(None),
        }
    } else {
        None
    }
}

/// `str::split_once('=')`.
pub open spec fn split_once_eq(t: Seq<char>) -> Option<(Seq<char>, Seq<char>)> {
    match find(t, seq!['=']) {
        Some(k) => Some((t.take(k), t.skip(k + 1))),
        None => None,
    }
}

/// The effect of one line of `.gitmodules`.
pub open spec fn gitmodules_step(st: GitmodulesState, line: Seq<char>) -> GitmodulesState {
    let t = trim(line);
    if t.len() == 0 || starts_with(t, seq!['#']) {
        st
    } else if section_header(t) is Some {
        match section_header(t)->0 {
            Some(name) => (touch(st.0, name), Some(name)),
            None => (st.0, None),
        }
    } else {
        match st.1 {
            None => st,
            Some(name) => match split_once_eq(t) {
                None => st,
                Some(kv) => {
                    let key = trim(kv.0);
                    let value = unquote(trim(kv.1));
                    let t2 = touch(st.0, name);
                    if key == "path"@ {
                        (set_path(t2, name, value), st.1)
                    } else if key == "url"@ {
                        (set_url(t2, name, value), st.1)
                    } else {
                        (t2, st.1)
                    }
                },
            },
        }
    }
}

/// The state after reading `ls`, line by line.
pub open spec fn parse_gitmodules(ls: Seq<Seq<char>>) -> GitmodulesState
    decreases ls.len(),
{
    if ls.len() == 0 {
        (Seq::empty(), None)
    } else {
        gitmodules_step(parse_gitmodules(ls.drop_last()), ls.last())
    }
}

/// The declarations of a `.gitmodules` file.
pub open spec fn gitmodules_decls(content: Seq<char>) -> Seq<Decl> {
    parse_gitmodules(lines(content)).0
}

/// The sha of the first gitlink at `path`, or empty.
pub open spec fn tracked_sha(links: Seq<(Seq<char>, Seq<char>)>, path: Seq<char>) -> Seq<char>
    decreases links.len(),
{
    if links.len() == 0 {
        Seq::empty()
    } else if links[0].0 == path {
        links[0].1
    } else {
        tracked_sha(links.drop_first(), path)
    }
}

/// The entries of the declarations that have both a path and a url, in
/// declaration order.
pub open spec fn declared_entries(
    t: Seq<Decl>,
    links: Seq<(Seq<char>, Seq<char>)>,
) -> Seq<EntryView>
    decreases t.len(),
{
    if t.len() == 0 {
        Seq::empty()
    } else {
        let rest = declared_entries(t.drop_last(), links);
        let d = t.last();
        if d.1 is Some && d.2 is Some {
            rest.push((d.0, d.1->0, d.2->0, tracked_sha(links, d.1->0)))
        } else {
            rest
        }
    }
}

/// Without a `[submodule "..."]` section header, a `.gitmodules` text
/// declares no submodule, whatever else it holds.
pub proof fn lemma_no_header_no_decls(ls: Seq<Seq<char>>)
    requires
        forall|k: int| 0 <= k < ls.len() ==> !(#[trigger] section_header(trim(ls[k])) matches Some(
            Some(_),
        )),
    ensures
        parse_gitmodules(ls) == (Seq::<Decl>::empty(), None::<Seq<char>>),
    decreases ls.len(),
{
    if ls.len() > 0 {
        let p = ls.drop_last();
        assert forall|k: int| 0 <= k < p.len() implies !(#[trigger] section_header(trim(p[k])) matches Some(
            Some(_),
        )) by {
            assert(p[k] == ls[k]);
        }
        lemma_no_header_no_decls(p);
        assert(!(section_header(trim(ls[ls.len() - 1])) matches Some(Some(_))));
    }
}

/// The sha of a path that no gitlink lists is empty.
pub proof fn lemma_untracked_path_has_empty_sha(links: Seq<(Seq<char>, Seq<char>)>, path: Seq<char>)
    requires
        forall|k: int| 0 <= k < links.len() ==> (#[trigger] links[k]).0 != path,
    ensures
        tracked_sha(links, path) == Seq::<char>::empty(),
    decreases links.len(),
{
    if links.len() > 0 {
        assert(links[0].0 != path);
        assert forall|k: int| 0 <= k < links.drop_first().len() implies (
        #[trigger] links.drop_first()[k]).0 != path by {
            assert(links.drop_first()[k] == links[k + 1]);
        }
        lemma_untracked_path_has_empty_sha(links.drop_first(), path);
    }
}

/// Every entry comes from a declaration with both a path and a url
/// (name, path and url as declared) and carries the sha tracked at its
/// path; every such declaration gives an entry, and no other does.
pub proof fn lemma_entries_are_complete_decls(
    t: Seq<Decl>,
    links: Seq<(Seq<char>, Seq<char>)>,
)
    ensures
        ({
            let es = declared_entries(t, links);
            &&& forall|k: int| 0 <= k < es.len() ==> exists|m: int|
                0 <= m < t.len() && (#[trigger] t[m]).0 == (#[trigger] es[k]).0 && t[m].1 == Some(
                    es[k].1,
                ) && t[m].2 == Some(es[k].2)
            &&& forall|k: int| 0 <= k < es.len() ==> (#[trigger] es[k]).3 == tracked_sha(
                links,
                es[k].1,
            )
            &&& es.len() == t.filter(|d: Decl| d.1 is Some && d.2 is Some).len()
        }),
    decreases t.len(),
{
    reveal_with_fuel(Seq::<_>::filter, 1);
    if t.len() > 0 {
        let p = t.drop_last();
        lemma_entries_are_complete_decls(p, links);
        let rest = declared_entries(p, links);
        let es = declared_entries(t, links);
        assert forall|k: int| 0 <= k < es.len() implies exists|m: int|
            0 <= m < t.len() && (#[trigger] t[m]).0 == (#[trigger] es[k]).0 && t[m].1 == Some(
                es[k].1,
            ) && t[m].2 == Some(es[k].2) by {
            if k < rest.len() {
                assert(es[k] == rest[k]);
                let m = choose|m: int|
                    0 <= m < p.len() && (#[trigger] p[m]).0 == rest[k].0 && p[m].1 == Some(
                        rest[k].1,
                    ) && p[m].2 == Some(rest[k].2);
                assert(t[m] == p[m]);
            } else {
                assert(t[t.len() - 1] == t.last());
            }
        }
        assert forall|k: int| 0 <= k < es.len() implies (#[trigger] es[k]).3 == tracked_sha(
            links,
            es[k].1,
        ) by {
            if k < rest.len() {
                assert(es[k] == rest[k]);
            }
        }
    }
}

/// No entry has a path that orders before the path of an earlier one.
pub open spec fn sorted_by_path(s: Seq<EntryView>) -> bool {
    forall|i: int, j: int| 0 <= i < j < s.len() ==> !seq_lt(#[trigger] s[j].1, #[trigger] s[i].1)
}

// ---------------------------------------------------------------------
// Reading `.gitmodules`
// ---------------------------------------------------------------------

struct DeclBuf {
    name: Vec<char>,
    path: Option<Vec<char>>,
    url: Option<Vec<char>>,
}

spec fn opt_seq(o: Option<Vec<char>>) -> Option<Seq<char>> {
    match o {
        Some(v) => Some(v@),
        None => None,
    }
}

impl DeclBuf {
    spec fn dv(&self) -> Decl {
        (self.name@, opt_seq(self.path), opt_seq(self.url))
    }
}

spec fn decls_view(v: Seq<DeclBuf>) -> Seq<Decl> {
    v.map_values(|d: DeclBuf| d.dv())
}

proof fn lemma_decls_push(v: Seq<DeclBuf>, x: DeclBuf)
    ensures
        decls_view(v.push(x)) == decls_view(v).push(x.dv()),
{
    assert(decls_view(v.push(x)) =~= decls_view(v).push(x.dv()));
}

fn copy_opt(o: &Option<Vec<char>>) -> (r: Option<Vec<char>>)
    ensures
        opt_seq(r) == opt_seq(*o),
{
    match o {
        Some(v) => Some(slice_copy(v, 0, v.len())),
        None => None,
    }
}

fn copy_decl(d: &DeclBuf) -> (r: DeclBuf)
    ensures
        r.dv() == d.dv(),
{
    DeclBuf { name: slice_copy(&d.name, 0, d.name.len()), path: copy_opt(&d.path), url: copy_opt(&d.url) }
}

fn touch_of(t: Vec<DeclBuf>, name: &[char]) -> (r: Vec<DeclBuf>)
    ensures
        decls_view(r@) == touch(decls_view(t@), name@),
{
    let ghost tv = decls_view(t@);
    let mut i: usize = 0;
    while i < t.len()
        invariant
            i <= t@.len(),
            tv == decls_view(t@),
            forall|k: int| 0 <= k < i ==> (#[trigger] tv[k]).0 != name@,
        decreases t@.len() - i,
    {
        assert(tv[i as int] == t@[i as int].dv());
        if eq(&t[i].name, name) {
            assert(tv[i as int].0 == name@);
            assert(has_decl(tv, name@));
            return t;
        }
        i = i + 1;
    }
    assert(!has_decl(tv, name@));
    let mut t = t;
    let nd = DeclBuf { name: slice_copy(name, 0, name.len()), path: None, url: None };
    proof {
        lemma_decls_push(t@, nd);
    }
    assert(nd.dv() == (name@, Option::<Seq<char>>::None, Option::<Seq<char>>::None));
    t.push(nd);
    assert(decls_view(t@) == tv.push(nd.dv()));
    t
}

fn set_path_of(t: &Vec<DeclBuf>, name: &[char], v: &[char]) -> (r: Vec<DeclBuf>)
    ensures
        decls_view(r@) == set_path(decls_view(t@), name@, v@),
{
    let ghost tv = decls_view(t@);
    let ghost target = set_path(tv, name@, v@);
    let mut out: Vec<DeclBuf> = Vec::new();
    let mut i: usize = 0;
    while i < t.len()
        invariant
            i <= t@.len(),
            tv == decls_view(t@),
            target == set_path(tv, name@, v@),
            decls_view(out@) == target.take(i as int),
        decreases t@.len() - i,
    {
        let d = &t[i];
        assert(tv[i as int] == d.dv());
        let nd = if eq(&d.name, name) {
            DeclBuf { name: slice_copy(&d.name, 0, d.name.len()), path: Some(slice_copy(v, 0, v.len())), url: copy_opt(&d.url) }
        } else {
            copy_decl(d)
        };
        assert(nd.dv() == target[i as int]);
        proof {
            lemma_decls_push(out@, nd);
        }
        out.push(nd);
        assert(decls_view(out@) =~= target.take(i + 1));
        i = i + 1;
    }
    assert(target.take(t@.len() as int) =~= target);
    out
}

fn set_url_of(t: &Vec<DeclBuf>, name: &[char], v: &[char]) -> (r: Vec<DeclBuf>)
    ensures
        decls_view(r@) == set_url(decls_view(t@), name@, v@),
{
    let ghost tv = decls_view(t@);
    let ghost target = set_url(tv, name@, v@);
    let mut out: Vec<DeclBuf> = Vec::new();
    let mut i: usize = 0;
    while i < t.len()
        invariant
            i <= t@.len(),
            tv == decls_view(t@),
            target == set_url(tv, name@, v@),
            decls_view(out@) == target.take(i as int),
        decreases t@.len() - i,
    {
        let d = &t[i];
        assert(tv[i as int] == d.dv());
        let nd = if eq(&d.name, name) && d.url.is_none() {
            DeclBuf { name: slice_copy(&d.name, 0, d.name.len()), path: copy_opt(&d.path), url: Some(slice_copy(v, 0, v.len())) }
        } else {
            copy_decl(d)
        };
        assert(nd.dv() == target[i as int]);
        proof {
            lemma_decls_push(out@, nd);
        }
        out.push(nd);
        assert(decls_view(out@) =~= target.take(i + 1));
        i = i + 1;
    }
    assert(target.take(t@.len() as int) =~= target);
    out
}

fn section_header_of(t: &[char]) -> (r: Option<Option<Vec<char>>>)
    ensures
        r is Some <==> section_header(t@) is Some,
        r matches Some(o) ==> section_header(t@)->0 == opt_seq(o),
{
    if starts_with_of(t, &one('[')) && ends_with_of(t, &one(']')) {
        assert(t@.len() >= 2) by {
            if t@.len() == 1 {
                assert(t@.take(1)[0] == '[');
                assert(t@.skip(0)[0] == ']');
            }
        }
        let inner = slice_copy(t, 1, t.len() - 1);
        match strip_prefix_of(&inner, &chars_of("submodule ")) {
            Some(rest) => Some(Some(trim_set_of(&trim_of(&rest), &one('"')))),
            None => Some(None),
        }
    } else {
        None
    }
}

fn split_once_eq_of(t: &[char]) -> (r: Option<(Vec<char>, Vec<char>)>)
    ensures
        r is Some <==> split_once_eq(t@) is Some,
        r matches Some(kv) ==> split_once_eq(t@) == Some((kv.0@, kv.1@)),
{
    proof {
        lemma_find(t@, seq!['=']);
    }
    let sep = one('=');
    match find_of(t, &sep) {
        Some(k) => {
            assert(matches_at(t@, seq!['='], k as int));
            let n = t.len();
            assert(k < n);
            let a = slice_copy(t, 0, k);
            let b = slice_copy(t, k + 1, n);
            assert(a@ =~= t@.take(k as int));
            assert(b@ =~= t@.skip(k + 1));
            Some((a, b))
        },
        None => None,
    }
}

fn gitmodules_step_of(t: Vec<DeclBuf>, cur: Option<Vec<char>>, line: &[char]) -> (r: (
    Vec<DeclBuf>,
    Option<Vec<char>>,
))
    ensures
        (decls_view(r.0@), opt_seq(r.1)) == gitmodules_step((decls_view(t@), opt_seq(cur)), line@),
{
    let tr = trim_of(line);
    if tr.len() == 0 || starts_with_of(&tr, &one('#')) {
        return (t, cur);
    }
    match section_header_of(&tr) {
        Some(Some(name)) => {
            let t2 = touch_of(t, &name);
            return (t2, Some(name));
        },
        Some(None) => {
            return (t, None);
        },
        None => {},
    }
    match cur {
        None => (t, None),
        Some(name) => match split_once_eq_of(&tr) {
            None => (t, Some(name)),
            Some(kv) => {
                let key = trim_of(&kv.0);
                let value = trim_set_of(&trim_of(&kv.1), &one('"'));
                let t2 = touch_of(t, &name);
                if eq(&key, &chars_of("path")) {
                    let t3 = set_path_of(&t2, &name, &value);
                    (t3, Some(name))
                } else if eq(&key, &chars_of("url")) {
                    let t3 = set_url_of(&t2, &name, &value);
                    (t3, Some(name))
                } else {
                    (t2, Some(name))
                }
            },
        },
    }
}

fn tracked_sha_of(links: &Vec<(String, String)>, path: &[char]) -> (r: Vec<char>)
    ensures
        r@ == tracked_sha(pair_views(links@), path@),
{
    let ghost lv = pair_views(links@);
    let mut i: usize = 0;
    assert(lv.skip(0) =~= lv);
    while i < links.len()
        invariant
            i <= links@.len(),
            lv == pair_views(links@),
            lv.len() == links@.len(),
            tracked_sha(lv, path@) == tracked_sha(lv.skip(i as int), path@),
        decreases links@.len() - i,
    {
        let p = chars_of(links[i].0.as_str());
        assert(lv.skip(i as int)[0] == lv[i as int]);
        if eq(&p, path) {
            return chars_of(links[i].1.as_str());
        }
        assert(lv.skip(i as int).drop_first() =~= lv.skip(i + 1));
        i = i + 1;
    }
    assert(lv.skip(i as int).len() == 0);
    Vec::new()
}

proof fn lemma_insert_keeps_sorted(s: Seq<EntryView>, pos: int, e: EntryView)
    requires
        sorted_by_path(s),
        0 <= pos <= s.len(),
        forall|k: int| 0 <= k < pos ==> !seq_lt(e.1, #[trigger] s[k].1),
        pos < s.len() ==> seq_lt(e.1, s[pos].1),
    ensures
        sorted_by_path(s.insert(pos, e)),
{
    let r = s.insert(pos, e);
    assert forall|i: int, j: int| 0 <= i < j < r.len() implies !seq_lt(
        #[trigger] r[j].1,
        #[trigger] r[i].1,
    ) by {
        if j < pos {
            assert(r[i] == s[i] && r[j] == s[j]);
        } else if j == pos {
            assert(r[j] == e && r[i] == s[i]);
        } else if i == pos {
            assert(r[i] == e && r[j] == s[j - 1]);
            lemma_lt_total(s[pos].1, s[j - 1].1);
            if j - 1 > pos {
                assert(!seq_lt(s[j - 1].1, s[pos].1));
                if s[pos].1 != s[j - 1].1 {
                    lemma_lt_transitive(e.1, s[pos].1, s[j - 1].1);
                }
            }
            lemma_lt_total(e.1, s[j - 1].1);
        } else if i < pos {
            assert(r[i] == s[i] && r[j] == s[j - 1]);
        } else {
            assert(r[i] == s[i - 1] && r[j] == s[j - 1]);
        }
    }
}

/// The submodules declared by `gitmodules` (the text of a parent's
/// `.gitmodules`), each with the gitlink sha that `ls_files_stage_output`
/// (the parent's `git ls-files --stage`) lists at its path, or an empty
/// sha when none. Declarations without a path or without a url are left
/// out; a later `path` overrides an earlier one, the first `url` stays.
/// The result is ordered by path (declarations that share a path keep
/// no particular order).
pub fn list_submodules(gitmodules: &str, ls_files_stage_output: &str) -> (r: Vec<SubmoduleEntry>)
    ensures
        sorted_by_path(entry_views(r@)),
        entry_views(r@).to_multiset() == declared_entries(
            gitmodules_decls(gitmodules@),
            gitlinks_of_stage_output(ls_files_stage_output@),
        ).to_multiset(),
{
    let ls = lines_of(&chars_of(gitmodules));
    let ghost lv = views(ls@);
    let mut t: Vec<DeclBuf> = Vec::new();
    let mut cur: Option<Vec<char>> = None;
    let mut i: usize = 0;
    assert(lv.take(0) =~= Seq::<Seq<char>>::empty());
    assert(decls_view(t@) =~= Seq::<Decl>::empty());
    while i < ls.len()
        invariant
            i <= ls@.len(),
            lv == views(ls@),
            lv == lines(gitmodules@),
            (decls_view(t@), opt_seq(cur)) == parse_gitmodules(lv.take(i as int)),
        decreases ls@.len() - i,
    {
        assert(lv.take(i + 1).drop_last() =~= lv.take(i as int));
        assert(lv.take(i + 1).last() == ls@[i as int]@);
        let step = gitmodules_step_of(t, cur, &ls[i]);
        t = step.0;
        cur = step.1;
        i = i + 1;
    }
    assert(lv.take(lv.len() as int) =~= lv);
    let ghost decls = decls_view(t@);
    assert(decls == gitmodules_decls(gitmodules@));

    let links = read_parent_gitlink_shas(ls_files_stage_output);
    let ghost links_v = pair_views(links@);
    let mut out: Vec<SubmoduleEntry> = Vec::new();
    let mut j: usize = 0;
    assert(decls.take(0) =~= Seq::<Decl>::empty());
    assert(entry_views(out@) =~= Seq::<EntryView>::empty());
    while j < t.len()
        invariant
            j <= t@.len(),
            decls == decls_view(t@),
            links_v == pair_views(links@),
            links_v == gitlinks_of_stage_output(ls_files_stage_output@),
            sorted_by_path(entry_views(out@)),
            entry_views(out@).to_multiset() == declared_entries(decls.take(j as int), links_v).to_multiset(),
        decreases t@.len() - j,
    {
        let d = &t[j];
        assert(decls[j as int] == d.dv());
        assert(decls.take(j + 1).drop_last() =~= decls.take(j as int));
        assert(decls.take(j + 1).last() == d.dv());
        match (&d.path, &d.url) {
            (Some(p), Some(u)) => {
                let e = SubmoduleEntry {
                    name: string_of(&d.name),
                    path: string_of(p),
                    url: string_of(u),
                    sha: string_of(&tracked_sha_of(&links, p)),
                };
                let ghost ev = e@;
                let ghost before = entry_views(out@);
                let mut pos: usize = 0;
                while pos < out.len() && !lt(p, &chars_of(out[pos].path.as_str()))
                    invariant
                        pos <= out@.len(),
                        before == entry_views(out@),
                        ev.1 == p@,
                        forall|k: int| 0 <= k < pos ==> !seq_lt(ev.1, #[trigger] before[k].1),
                    decreases out@.len() - pos,
                {
                    assert(before[pos as int] == out@[pos as int]@);
                    pos = pos + 1;
                }
                proof {
                    if pos < out@.len() {
                        assert(before[pos as int] == out@[pos as int]@);
                    }
                    lemma_insert_keeps_sorted(before, pos as int, ev);
                    vstd::seq_lib::to_multiset_insert(before, pos as int, ev);
                    vstd::seq_lib::to_multiset_build(declared_entries(decls.take(j as int), links_v), ev);
                }
                out.insert(pos, e);
                assert(entry_views(out@) =~= before.insert(pos as int, ev));
            },
            _ => {},
        }
        j = j + 1;
    }
    assert(decls.take(decls.len() as int) =~= decls);
    out
}

} // verus!
