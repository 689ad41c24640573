//! The role of each watched repository among the others: the parent of
//! submodules, a submodule checked out inside another watched parent,
//! or standalone. A submodule role wins over a parent role.

use vstd::prelude::*;
use crate::path::{file_name, file_name_of, same_path, same_path_of};
use crate::text::{chars_of, decimal, decimal_of, push_all, string_of};

verus! {

broadcast use vstd::string::group_string_axioms;

/// Which role a repository plays.
#[derive(Debug, Clone, PartialEq, Eq)]
pub enum RoleKind {
    /// It declares this many submodules.
    Parent(usize),
    /// It is the checkout of submodule `sub_path` of the watched parent
    /// whose directory is called `parent_basename`.
    Submod { parent_basename: String, sub_path: String },
    /// Neither.
    Standalone,
}

/// A role with its strings as character sequences.
pub enum RoleView {
    Parent(usize),
    Submod(Seq<char>, Seq<char>),
    Standalone,
}

impl View for RoleKind {
    type V = RoleView;

    open spec fn view(&self) -> RoleView {
        match self {
            RoleKind::Parent(n) => RoleView::Parent(*n),
            RoleKind::Submod { parent_basename, sub_path } => RoleView::Submod(
                parent_basename@,
                sub_path@,
            ),
            RoleKind::Standalone => RoleView::Standalone,
        }
    }
}

pub open spec fn role_label(r: RoleView) -> Seq<char> {
    match r {
        RoleView::Parent(n) => "parent ("@ + decimal(n as nat) + " submods)"@,
        RoleView::Submod(p, s) => "submod (of "@ + p + seq!['/'] + s + seq![')'],
        RoleView::Standalone => "standalone"@,
    }
}

pub open spec fn role_detail(r: RoleView) -> Seq<char> {
    match r {
        RoleView::Parent(n) => "Parent role: this repo has "@ + decimal(n as nat)
            + " submodules in its .gitmodules"@,
        RoleView::Submod(p, s) => "Submod role: this repo is checked out at <"@ + p + ">/<"@ + s
            + "> as a submodule"@,
        RoleView::Standalone => "Standalone role: no submodule relationship with any watched repo"@,
    }
}

impl RoleKind {
    /// The short text of the role for a table cell.
    pub fn label(&self) -> (r: String)
        ensures
            r@ == role_label(self@),
    {
        match self {
            RoleKind::Parent(n) => {
                let mut v = chars_of("parent (");
                push_all(&mut v, &decimal_of(*n as u64));
                push_all(&mut v, &chars_of(" submods)"));
                string_of(&v)
            },
            RoleKind::Submod { parent_basename, sub_path } => {
                let mut v = chars_of("submod (of ");
                push_all(&mut v, &chars_of(parent_basename.as_str()));
                v.push('/');
                push_all(&mut v, &chars_of(sub_path.as_str()));
                v.push(')');
                assert(v@ =~= role_label(self@));
                string_of(&v)
            },
            RoleKind::Standalone => string_of(&chars_of("standalone")),
        }
    }

    /// The full description of the role.
    pub fn detail(&self) -> (r: String)
        ensures
            r@ == role_detail(self@),
    {
        match self {
            RoleKind::Parent(n) => {
                let mut v = chars_of("Parent role: this repo has ");
                push_all(&mut v, &decimal_of(*n as u64));
                push_all(&mut v, &chars_of(" submodules in its .gitmodules"));
                string_of(&v)
            },
            RoleKind::Submod { parent_basename, sub_path } => {
                let mut v = chars_of("Submod role: this repo is checked out at <");
                push_all(&mut v, &chars_of(parent_basename.as_str()));
                push_all(&mut v, &chars_of(">/<"));
                push_all(&mut v, &chars_of(sub_path.as_str()));
                push_all(&mut v, &chars_of("> as a submodule"));
                string_of(&v)
            },
            RoleKind::Standalone => string_of(
                &chars_of("Standalone role: no submodule relationship with any watched repo"),
            ),
        }
    }
}

/// One watched repository as the classification reads it: its path,
/// its canonical path (the path itself where it cannot be made
/// canonical), and for each submodule its `.gitmodules` declares (in
/// order) the submodule's path and the canonical form of
/// `<repo>/<path>`.
#[derive(Debug, Clone)]
pub struct RoleRow {
    pub repo: String,
    pub canonical: String,
    pub submodules: Vec<(String, String)>,
}

pub type RowView = (Seq<char>, Seq<char>, Seq<(Seq<char>, Seq<char>)>);

impl View for RoleRow {
    type V = RowView;

    open spec fn view(&self) -> RowView {
        (
            self.repo@,
            self.canonical@,
            self.submodules@.map_values(|p: (String, String)| (p.0@, p.1@)),
        )
    }
}

pub open spec fn row_views(rows: Seq<RoleRow>) -> Seq<RowView> {
    rows.map_values(|r: RoleRow| r@)
}

/// Two canonical paths name the same place.
pub fn paths_match(a: &str, b: &str) -> (r: bool)
    ensures
        r == same_path(a@, b@),
{
    same_path_of(&chars_of(a), &chars_of(b))
}

/// The first submodule at or after `k` whose checkout is at `me`.
pub open spec fn first_match_from(subs: Seq<(Seq<char>, Seq<char>)>, me: Seq<char>, k: int) -> Option<
    int,
>
    decreases subs.len() - k,
{
    if k < 0 || k >= subs.len() {
        None
    } else if same_path(subs[k].1, me) {
        Some(k)
    } else {
        first_match_from(subs, me, k + 1)
    }
}

/// The first other row, at or after `j`, with a submodule checked out
/// at row `i`, and that submodule.
pub open spec fn submod_parent_from(rows: Seq<RowView>, i: int, j: int) -> Option<(int, int)>
    decreases rows.len() - j,
{
    if j < 0 || j >= rows.len() {
        None
    } else if j != i && first_match_from(rows[j].2, rows[i].1, 0) is Some {
        Some((j, first_match_from(rows[j].2, rows[i].1, 0)->0))
    } else {
        submod_parent_from(rows, i, j + 1)
    }
}

/// The name shown for a parent: its directory name, else its path.
pub open spec fn parent_basename(row: RowView) -> Seq<char> {
    match file_name(row.0) {
        Some(n) => n,
        None => row.0,
    }
}

/// The role of row `i`: a submodule of the first other row that has a
/// submodule checked out there; else a parent when it declares
/// submodules; else standalone.
pub open spec fn role_of(rows: Seq<RowView>, i: int) -> RoleView {
    match submod_parent_from(rows, i, 0) {
        Some((j, k)) => RoleView::Submod(parent_basename(rows[j]), rows[j].2[k].0),
        None => if rows[i].2.len() > 0 {
            RoleView::Parent(rows[i].2.len() as usize)
        } else {
            RoleView::Standalone
        },
    }
}

proof fn lemma_first_match_bounds(subs: Seq<(Seq<char>, Seq<char>)>, me: Seq<char>, k: int)
    ensures
        first_match_from(subs, me, k) matches Some(m) ==> k <= m < subs.len() && same_path(
            subs[m].1,
            me,
        ),
    decreases subs.len() - k,
{
    if 0 <= k < subs.len() && !same_path(subs[k].1, me) {
        lemma_first_match_bounds(subs, me, k + 1);
    }
}

proof fn lemma_submod_parent_bounds(rows: Seq<RowView>, i: int, j: int)
    ensures
        submod_parent_from(rows, i, j) matches Some((a, b)) ==> j <= a < rows.len() && a != i && 0
            <= b < rows[a].2.len() && first_match_from(rows[a].2, rows[i].1, 0) == Some(b),
    decreases rows.len() - j,
{
    if 0 <= j < rows.len() {
        if j != i && first_match_from(rows[j].2, rows[i].1, 0) is Some {
            lemma_first_match_bounds(rows[j].2, rows[i].1, 0);
        } else {
            lemma_submod_parent_bounds(rows, i, j + 1);
        }
    }
}

fn role_of_row(rows: &[RoleRow], i: usize) -> (r: RoleKind)
    requires
        i < rows@.len(),
    ensures
        r@ == role_of(row_views(rows@), i as int),
{
    let ghost rv = row_views(rows@);
    let me = chars_of(rows[i].canonical.as_str());
    let mut j: usize = 0;
    while j < rows.len()
        invariant
            i < rows@.len(),
            j <= rows@.len(),
            rv == row_views(rows@),
            me@ == rv[i as int].1,
            submod_parent_from(rv, i as int, 0) == submod_parent_from(rv, i as int, j as int),
        decreases rows@.len() - j,
    {
        assert(rv[j as int] == rows@[j as int]@);
        if j != i {
            let subs = &rows[j].submodules;
            let ghost sv = rv[j as int].2;
            let mut k: usize = 0;
            while k < subs.len()
                invariant
                    i < rows@.len(),
                    j < rows@.len(),
                    j != i,
                    rv == row_views(rows@),
                    sv == rv[j as int].2,
                    subs == &rows@[j as int].submodules,
                    submod_parent_from(rv, i as int, 0) == submod_parent_from(rv, i as int, j as int),
                    k <= subs@.len(),
                    sv == subs@.map_values(|p: (String, String)| (p.0@, p.1@)),
                    me@ == rv[i as int].1,
                    first_match_from(sv, me@, 0) == first_match_from(sv, me@, k as int),
                decreases subs@.len() - k,
            {
                assert(sv[k as int] == (subs@[k as int].0@, subs@[k as int].1@));
                if same_path_of(&chars_of(subs[k].1.as_str()), &me) {
                    let other = &rows[j];
                    let base = match file_name_of(&chars_of(other.repo.as_str())) {
                        Some(n) => string_of(&n),
                        None => other.repo.clone(),
                    };
                    proof {
                        assert(submod_parent_from(rv, i as int, j as int) == Some(
                            (j as int, k as int),
                        ));
                    }
                    return RoleKind::Submod {
                        parent_basename: base,
                        sub_path: subs[k].0.clone(),
                    };
                }
                k = k + 1;
            }
            assert(first_match_from(sv, me@, 0) is None);
        }
        j = j + 1;
    }
    assert(submod_parent_from(rv, i as int, j as int) is None);
    assert(rv[i as int] == rows@[i as int]@);
    let n = rows[i].submodules.len();
    if n > 0 {
        RoleKind::Parent(n)
    } else {
        RoleKind::Standalone
    }
}

/// The role of every row, in order (see [`role_of`]).
pub fn classify_roles(rows: &[RoleRow]) -> (r: Vec<RoleKind>)
    ensures
        r@.len() == rows@.len(),
        forall|i: int| 0 <= i < rows@.len() ==> (#[trigger] r@[i])@ == role_of(row_views(rows@), i),
{
    let mut out: Vec<RoleKind> = Vec::new();
    let mut i: usize = 0;
    while i < rows.len()
        invariant
            i <= rows@.len(),
            out@.len() == i,
            forall|m: int| 0 <= m < i ==> (#[trigger] out@[m])@ == role_of(row_views(rows@), m),
        decreases rows@.len() - i,
    {
        out.push(role_of_row(rows, i));
        i = i + 1;
    }
    out
}

/// A submodule role takes priority over a parent role: a row with a
/// submodule of another row checked out at it is a submodule, whatever
/// it declares itself; a row that is nobody's submodule and declares
/// submodules is a parent of exactly that many.
pub proof fn lemma_role_priority(rows: Seq<RowView>, i: int)
    requires
        0 <= i < rows.len(),
    ensures
        (exists|j: int| 0 <= j < rows.len() && j != i && #[trigger] first_match_from(rows[j].2, rows[i].1, 0) is Some)
            ==> role_of(rows, i) is Submod,
        !(exists|j: int| 0 <= j < rows.len() && j != i && #[trigger] first_match_from(rows[j].2, rows[i].1, 0) is Some)
            && rows[i].2.len() > 0 ==> role_of(rows, i) == RoleView::Parent(rows[i].2.len() as usize),
{
    if submod_parent_from(rows, i, 0) is None {
        lemma_submod_parent_none(rows, i, 0);
    } else {
        lemma_submod_parent_bounds(rows, i, 0);
        let pr = submod_parent_from(rows, i, 0)->0;
        let a = pr.0;
        assert(first_match_from(rows[a].2, rows[i].1, 0) is Some);
    }
    if exists|j: int| 0 <= j < rows.len() && j != i && #[trigger] first_match_from(rows[j].2, rows[i].1, 0) is Some {
        let j = choose|j: int| 0 <= j < rows.len() && j != i && #[trigger] first_match_from(rows[j].2, rows[i].1, 0) is Some;
        lemma_submod_parent_some(rows, i, 0, j);
    }
}

proof fn lemma_submod_parent_none(rows: Seq<RowView>, i: int, j: int)
    requires
        0 <= j,
        submod_parent_from(rows, i, j) is None,
    ensures
        forall|m: int| j <= m < rows.len() && m != i ==> (#[trigger] first_match_from(rows[m].2, rows[i].1, 0)) is None,
    decreases rows.len() - j,
{
    if j < rows.len() {
        lemma_submod_parent_none(rows, i, j + 1);
    }
}

proof fn lemma_submod_parent_some(rows: Seq<RowView>, i: int, j: int, w: int)
    requires
        0 <= j <= w < rows.len(),
        w != i,
        first_match_from(rows[w].2, rows[i].1, 0) is Some,
    ensures
        submod_parent_from(rows, i, j) is Some,
    decreases w - j,
{
    if j < w {
        if !(j != i && first_match_from(rows[j].2, rows[i].1, 0) is Some) {
            lemma_submod_parent_some(rows, i, j + 1, w);
        }
    }
}

} // verus!
