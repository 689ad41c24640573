//! Unix path syntax (`std::path::Path` on a `&str`): components, file
//! name, absoluteness.

use vstd::prelude::*;
use crate::text::{eq, lemma_split_len, lemma_views_push, split, split_of, views};

verus! {

pub open spec fn is_kept_piece(p: Seq<char>) -> bool {
    p.len() > 0 && p != seq!['.']
}

/// Separator-split pieces that name a component: empty pieces (from
/// repeated or trailing `/`) and `.` pieces are not components.
pub open spec fn kept_pieces(ps: Seq<Seq<char>>) -> Seq<Seq<char>> {
    ps.filter(|p: Seq<char>| is_kept_piece(p))
}

/// `Path::components`, each rendered by `as_os_str()`: a leading `/`
/// gives the root component `"/"`, a leading `.` of a relative path
/// gives `"."`; empty pieces and other `.` pieces are skipped.
pub open spec fn components(s: Seq<char>) -> Seq<Seq<char>> {
    let ps = split(s, '/');
    if s.len() > 0 && s[0] == '/' {
        seq![seq!['/']] + kept_pieces(ps.drop_first())
    } else if ps[0] == seq!['.'] {
        seq![seq!['.']] + kept_pieces(ps.drop_first())
    } else {
        kept_pieces(ps)
    }
}

/// A component that is neither the root, `.` nor `..`.
pub open spec fn is_normal_component(c: Seq<char>) -> bool {
    c != seq!['/'] && c != seq!['.'] && c != seq!['.', '.']
}

/// `Path::file_name`: the last component when it is a normal one.
pub open spec fn file_name(s: Seq<char>) -> Option<Seq<char>> {
    let c = components(s);
    if c.len() > 0 && is_normal_component(c.last()) {
        Some(c.last())
    } else {
        None
    }
}

/// `Path::is_absolute` on Unix.
pub open spec fn is_absolute(s: Seq<char>) -> bool {
    s.len() > 0 && s[0] == '/'
}

pub fn is_kept(p: &[char]) -> (b: bool)
    ensures
        b == is_kept_piece(p@),
{
    let r = p.len() > 0 && !(p.len() == 1 && p[0] == '.');
    assert(p@.len() == 1 && p@[0] == '.' ==> p@ =~= seq!['.']);
    r
}

/// Appends to `out` the pieces `ps[from..]` that name components.
fn push_kept(out: &mut Vec<Vec<char>>, ps: &Vec<Vec<char>>, from: usize)
    requires
        from <= ps@.len(),
    ensures
        views(final(out)@) == views(old(out)@) + kept_pieces(views(ps@).skip(from as int)),
{
    let ghost src = views(ps@).skip(from as int);
    let mut i = from;
    assert(src.take(0) =~= Seq::<Seq<char>>::empty());
    reveal_with_fuel(Seq::<_>::filter, 1);
    while i < ps.len()
        invariant
            from <= i <= ps@.len(),
            src == views(ps@).skip(from as int),
            views(out@) == views(old(out)@) + kept_pieces(src.take(i - from)),
        decreases ps@.len() - i,
    {
        reveal_with_fuel(Seq::<_>::filter, 1);
        assert(src.take(i - from + 1).drop_last() =~= src.take(i - from));
        assert(src.take(i - from + 1).last() == ps@[i as int]@);
        let piece = ps[i].clone();
        if is_kept(&piece) {
            proof {
                lemma_views_push(out@, piece);
            }
            out.push(piece);
            assert(views(out@) =~= views(old(out)@) + kept_pieces(src.take(i - from + 1)));
        }
        i = i + 1;
    }
    assert(src.take(ps@.len() - from) =~= src);
}

pub fn components_of(s: &[char]) -> (r: Vec<Vec<char>>)
    ensures
        views(r@) == components(s@),
{
    let ps = split_of(s, '/');
    proof {
        lemma_split_len(s@, '/');
    }
    let mut out: Vec<Vec<char>> = Vec::new();
    if s.len() > 0 && s[0] == '/' {
        let mut root: Vec<char> = Vec::new();
        root.push('/');
        assert(root@ =~= seq!['/']);
        proof {
            lemma_views_push(out@, root);
        }
        out.push(root);
        assert(views(out@) =~= seq![seq!['/']]);
        push_kept(&mut out, &ps, 1);
        assert(views(ps@).skip(1) =~= views(ps@).drop_first());
    } else if ps[0].len() == 1 && ps[0][0] == '.' {
        assert(ps@[0]@ =~= seq!['.']);
        let mut dot: Vec<char> = Vec::new();
        dot.push('.');
        assert(dot@ =~= seq!['.']);
        proof {
            lemma_views_push(out@, dot);
        }
        out.push(dot);
        assert(views(out@) =~= seq![seq!['.']]);
        push_kept(&mut out, &ps, 1);
        assert(views(ps@).skip(1) =~= views(ps@).drop_first());
    } else {
        assert(ps@[0]@ != seq!['.']) by {
            if ps@[0]@ == seq!['.'] {
                assert(ps@[0]@.len() == 1);
            }
        }
        push_kept(&mut out, &ps, 0);
        assert(views(ps@).skip(0) =~= views(ps@));
        assert(views(Seq::<Vec<char>>::empty()) =~= Seq::<Seq<char>>::empty());
    }
    out
}

pub fn is_normal(c: &[char]) -> (b: bool)
    ensures
        b == is_normal_component(c@),
{
    let root = c.len() == 1 && c[0] == '/';
    let cur = c.len() == 1 && c[0] == '.';
    let par = c.len() == 2 && c[0] == '.' && c[1] == '.';
    assert(c@ == seq!['/'] ==> c@.len() == 1 && c@[0] == '/');
    assert(c@ == seq!['.'] ==> c@.len() == 1 && c@[0] == '.');
    assert(c@ == seq!['.', '.'] ==> c@.len() == 2 && c@[0] == '.' && c@[1] == '.');
    assert(root ==> c@ =~= seq!['/']);
    assert(cur ==> c@ =~= seq!['.']);
    assert(par ==> c@ =~= seq!['.', '.']);
    !root && !cur && !par
}

pub fn file_name_of(s: &[char]) -> (r: Option<Vec<char>>)
    ensures
        r is Some <==> file_name(s@) is Some,
        r matches Some(v) ==> file_name(s@) == Some(v@),
{
    let c = components_of(s);
    if c.len() > 0 && is_normal(&c[c.len() - 1]) {
        Some(c[c.len() - 1].clone())
    } else {
        None
    }
}

/// The file name of `s`, or the empty string where there is none
/// (`file_name().and_then(to_str).unwrap_or("")`).
pub open spec fn file_name_or_empty(s: Seq<char>) -> Seq<char> {
    match file_name(s) {
        Some(n) => n,
        None => Seq::empty(),
    }
}

pub fn file_name_or_empty_of(s: &[char]) -> (r: Vec<char>)
    ensures
        r@ == file_name_or_empty(s@),
{
    match file_name_of(s) {
        Some(v) => v,
        None => Vec::new(),
    }
}

/// `Path == Path`: the same list of components (so `a/b/` equals
/// `a//b` and `a/./b`).
pub open spec fn same_path(a: Seq<char>, b: Seq<char>) -> bool {
    components(a) == components(b)
}

pub fn same_path_of(a: &[char], b: &[char]) -> (r: bool)
    ensures
        r == same_path(a@, b@),
{
    let ca = components_of(a);
    let cb = components_of(b);
    assert(views(ca@).len() == ca@.len());
    assert(views(cb@).len() == cb@.len());
    if ca.len() != cb.len() {
        assert(components(a@).len() != components(b@).len());
        return false;
    }
    let mut i: usize = 0;
    while i < ca.len()
        invariant
            i <= ca@.len(),
            ca@.len() == cb@.len(),
            forall|k: int| 0 <= k < i ==> views(ca@)[k] == views(cb@)[k],
            views(ca@) == components(a@),
            views(cb@) == components(b@),
        decreases ca@.len() - i,
    {
        if !eq(&ca[i], &cb[i]) {
            assert(views(ca@)[i as int] == ca@[i as int]@);
            assert(views(cb@)[i as int] == cb@[i as int]@);
            assert(components(a@)[i as int] != components(b@)[i as int]);
            return false;
        }
        i = i + 1;
    }
    assert(views(ca@) =~= views(cb@));
    true
}

/// `Path::join` on Unix: an absolute `b` replaces `a`; otherwise `b` is
/// appended after a `/`, unless `a` is empty or already ends in `/`.
pub open spec fn path_join(a: Seq<char>, b: Seq<char>) -> Seq<char> {
    if is_absolute(b) {
        b
    } else if a.len() == 0 || a.last() == '/' {
        a + b
    } else {
        a + seq!['/'] + b
    }
}

pub fn path_join_of(a: &[char], b: &[char]) -> (r: Vec<char>)
    ensures
        r@ == path_join(a@, b@),
{
    let mut v: Vec<char> = Vec::new();
    if b.len() > 0 && b[0] == '/' {
        let mut i: usize = 0;
        while i < b.len()
            invariant
                i <= b@.len(),
                v@ == b@.take(i as int),
            decreases b@.len() - i,
        {
            v.push(b[i]);
            i = i + 1;
            assert(v@ =~= b@.take(i as int));
        }
        assert(b@.take(b@.len() as int) =~= b@);
        return v;
    }
    let mut i: usize = 0;
    while i < a.len()
        invariant
            i <= a@.len(),
            v@ == a@.take(i as int),
        decreases a@.len() - i,
    {
        v.push(a[i]);
        i = i + 1;
        assert(v@ =~= a@.take(i as int));
    }
    assert(a@.take(a@.len() as int) =~= a@);
    if a.len() > 0 && a[a.len() - 1] != '/' {
        v.push('/');
    }
    let ghost head = v@;
    let mut j: usize = 0;
    while j < b.len()
        invariant
            j <= b@.len(),
            v@ == head + b@.take(j as int),
        decreases b@.len() - j,
    {
        v.push(b[j]);
        j = j + 1;
        assert(v@ =~= head + b@.take(j as int));
    }
    assert(b@.take(b@.len() as int) =~= b@);
    v
}

/// `Path::join` of two paths given as strings (see [`path_join`]).
pub fn join_paths(a: &str, b: &str) -> (r: String)
    ensures
        r@ == path_join(a@, b@),
{
    crate::text::string_of(&path_join_of(&crate::text::chars_of(a), &crate::text::chars_of(b)))
}

} // verus!
