//! Forge-degraded mode: per-forge-host transient failure hits, the
//! incident they declare when several repos corroborate them, and the
//! recovery when the window goes quiet.

use vstd::prelude::*;
use crate::sys::{to_lowercase, unicode_lowercase};
use crate::text::{
    chars_of, contains, matches_at, count_char, count_char_of, find, find_of, lemma_find,
    lemma_split_len, rfind_char, rfind_char_of, slice_copy, split, split_of, starts_with,
    starts_with_of, string_of, string_views, trim, trim_of, views, one, three,
};

verus! {

broadcast use vstd::string::group_string_axioms;

// ---------------------------------------------------------------------
// Host of a push URL
// ---------------------------------------------------------------------

/// `s.rsplit(c).next()`: the text after the last `c`, or all of `s`.
pub open spec fn after_last(s: Seq<char>, c: char) -> Seq<char> {
    match rfind_char(s, c) {
        Some(k) => s.skip(k + 1),
        None => s,
    }
}

/// The host part of a push URL, before lowercasing: `None` for the empty
/// URL, `ext::` commands, local paths and unparseable URLs.
/// - scp-like `[user@]host:path` (no `://`): the text before the first
///   `:` must be non-empty, hold no `/`, and be followed by a non-empty
///   rest; the host is what follows its last `@`;
/// - `scheme://[user@]host[:port]/...`: the authority is the text after
///   the first `://` up to the next `://` or `/`, after its last `@`;
///   `[v6]` gives the text inside the brackets, a single `:` cuts the
///   port, more `:` keep the authority whole.
pub open spec fn url_host_part(url: Seq<char>) -> Option<Seq<char>> {
    let u = trim(url);
    if u.len() == 0 {
        None
    } else if starts_with(u, seq!['e', 'x', 't', ':', ':']) {
        None
    } else if !contains(u, seq![':', '/', '/']) {
        let left = match find(u, seq![':']) {
            Some(k) => u.take(k),
            None => u,
        };
        let right = match find(u, seq![':']) {
            Some(k) => u.skip(k + 1),
            None => Seq::empty(),
        };
        if right.len() == 0 || left.len() == 0 || left.contains('/') {
            None
        } else {
            let host = after_last(left, '@');
            if host.len() == 0 {
                None
            } else {
                Some(host)
            }
        }
    } else {
        let rest = u.skip(find(u, seq![':', '/', '/'])->0 + 3);
        let after_scheme = match find(rest, seq![':', '/', '/']) {
            Some(j) => rest.take(j),
            None => rest,
        };
        let authority = after_last(split(after_scheme, '/')[0], '@');
        if authority.len() == 0 {
            None
        } else {
            let host = if starts_with(authority, seq!['[']) {
                split(authority.drop_first(), ']')[0]
            } else if count_char(authority, ':') == 1 {
                split(authority, ':')[0]
            } else {
                authority
            };
            if host.len() == 0 {
                None
            } else {
                Some(host)
            }
        }
    }
}

fn after_last_of(s: &[char], c: char) -> (r: Vec<char>)
    ensures
        r@ == after_last(s@, c),
{
    let n = s.len();
    match rfind_char_of(s, c) {
        Some(k) => slice_copy(s, k + 1, n),
        None => slice_copy(s, 0, s.len()),
    }
}

fn first_piece(s: &[char], c: char) -> (r: Vec<char>)
    ensures
        r@ == split(s@, c)[0],
{
    let ps = split_of(s, c);
    proof {
        lemma_split_len(s@, c);
    }
    assert(views(ps@)[0] == ps@[0]@);
    ps[0].clone()
}

/// The host part of a push URL (see [`url_host_part`]), not lowercased.
pub fn url_host(url: &str) -> (r: Option<String>)
    ensures
        r is Some <==> url_host_part(url@) is Some,
        r matches Some(v) ==> url_host_part(url@) == Some(v@),
{
    let u = trim_of(&chars_of(url));
    if u.len() == 0 {
        return None;
    }
    let mut ext: Vec<char> = Vec::new();
    ext.push('e');
    ext.push('x');
    ext.push('t');
    ext.push(':');
    ext.push(':');
    assert(ext@ =~= seq!['e', 'x', 't', ':', ':']);
    if starts_with_of(&u, &ext) {
        return None;
    }
    let sep = three(':', '/', '/');
    proof {
        lemma_find(u@, seq![':', '/', '/']);
    }
    match find_of(&u, &sep) {
        None => {
            let (left, right) = match find_of(&u, &one(':')) {
                Some(k) => {
                    proof {
                        lemma_find(u@, seq![':']);
                    }
                    (slice_copy(&u, 0, k), slice_copy(&u, k + 1, u.len()))
                },
                None => (slice_copy(&u, 0, u.len()), Vec::new()),
            };
            assert(left@ =~= (match find(u@, seq![':']) {
                Some(k) => u@.take(k),
                None => u@,
            }));
            assert(right@ =~= (match find(u@, seq![':']) {
                Some(k) => u@.skip(k + 1),
                None => Seq::<char>::empty(),
            }));
            if right.len() == 0 || left.len() == 0 || crate::text::in_set('/', &left) {
                return None;
            }
            let host = after_last_of(&left, '@');
            if host.len() == 0 {
                return None;
            }
            Some(string_of(&host))
        },
        Some(k) => {
            let rest = slice_copy(&u, k + 3, u.len());
            assert(rest@ =~= u@.skip(k + 3));
            proof {
                lemma_find(rest@, seq![':', '/', '/']);
            }
            let after_scheme = match find_of(&rest, &sep) {
                Some(j) => slice_copy(&rest, 0, j),
                None => rest,
            };
            assert(after_scheme@ =~= (match find(rest@, seq![':', '/', '/']) {
                Some(j) => rest@.take(j),
                None => rest@,
            }));
            let authority = after_last_of(&first_piece(&after_scheme, '/'), '@');
            if authority.len() == 0 {
                return None;
            }
            let host = if starts_with_of(&authority, &one('[')) {
                let inner = slice_copy(&authority, 1, authority.len());
                assert(inner@ =~= authority@.drop_first());
                first_piece(&inner, ']')
            } else if count_char_of(&authority, ':') == 1 {
                first_piece(&authority, ':')
            } else {
                authority
            };
            if host.len() == 0 {
                return None;
            }
            Some(string_of(&host))
        },
    }
}

/// Every character of `a` occurs in `s`.
pub open spec fn chars_within(a: Seq<char>, s: Seq<char>) -> bool {
    forall|i: int| 0 <= i < a.len() ==> s.contains(#[trigger] a[i])
}

proof fn lemma_chars_within_excludes(a: Seq<char>, s: Seq<char>, c: char)
    requires
        chars_within(a, s),
        !s.contains(c),
    ensures
        !a.contains(c),
{
    if a.contains(c) {
        let i = choose|i: int| 0 <= i < a.len() && a[i] == c;
        assert(s.contains(a[i]));
    }
}

proof fn lemma_chars_within_trans(a: Seq<char>, b: Seq<char>, s: Seq<char>)
    requires
        chars_within(a, b),
        chars_within(b, s),
    ensures
        chars_within(a, s),
{
    assert forall|i: int| 0 <= i < a.len() implies s.contains(#[trigger] a[i]) by {
        assert(b.contains(a[i]));
        let j = choose|j: int| 0 <= j < b.len() && b[j] == a[i];
        assert(s.contains(b[j]));
    }
}

proof fn lemma_skip_within(s: Seq<char>, k: int)
    requires
        0 <= k <= s.len(),
    ensures
        chars_within(s.skip(k), s),
        chars_within(s.take(k), s),
{
    assert forall|i: int| 0 <= i < s.skip(k).len() implies s.contains(#[trigger] s.skip(k)[i]) by {
        assert(s[i + k] == s.skip(k)[i]);
    }
    assert forall|i: int| 0 <= i < s.take(k).len() implies s.contains(#[trigger] s.take(k)[i]) by {
        assert(s[i] == s.take(k)[i]);
    }
}

proof fn lemma_rfind_char(s: Seq<char>, c: char)
    ensures
        rfind_char(s, c) matches Some(k) ==> 0 <= k < s.len() && s[k] == c && forall|j: int|
            k < j < s.len() ==> s[j] != c,
        rfind_char(s, c) is None ==> !s.contains(c),
    decreases s.len(),
{
    if s.len() > 0 {
        lemma_rfind_char(s.drop_last(), c);
        if s.last() != c && rfind_char(s.drop_last(), c) is Some {
            let k = rfind_char(s.drop_last(), c)->0;
            assert forall|j: int| k < j < s.len() implies s[j] != c by {
                if j < s.len() - 1 {
                    assert(s.drop_last()[j] == s[j]);
                }
            }
        }
        if s.last() != c && rfind_char(s.drop_last(), c) is None {
            assert forall|j: int| 0 <= j < s.len() implies s[j] != c by {
                if j < s.len() - 1 {
                    assert(s.drop_last()[j] == s[j]);
                }
            }
        }
    }
}

/// The text after the last `c` holds no `c` and only characters of `s`.
proof fn lemma_after_last(s: Seq<char>, c: char)
    ensures
        !after_last(s, c).contains(c),
        chars_within(after_last(s, c), s),
{
    lemma_rfind_char(s, c);
    match rfind_char(s, c) {
        Some(k) => {
            lemma_skip_within(s, k + 1);
            let a = s.skip(k + 1);
            assert forall|i: int| 0 <= i < a.len() implies a[i] != c by {
                assert(a[i] == s[i + k + 1]);
            }
        },
        None => {
            assert forall|i: int| 0 <= i < s.len() implies s.contains(#[trigger] s[i]) by {}
        },
    }
}

/// The first piece of a split holds no separator and only characters of
/// the text.
proof fn lemma_first_piece(s: Seq<char>, c: char)
    ensures
        !split(s, c)[0].contains(c),
        chars_within(split(s, c)[0], s),
    decreases s.len(),
{
    lemma_split_len(s, c);
    if s.len() > 0 {
        let prev = split(s.drop_last(), c);
        lemma_first_piece(s.drop_last(), c);
        lemma_split_len(s.drop_last(), c);
        assert(chars_within(s.drop_last(), s)) by {
            lemma_skip_within(s, s.len() - 1);
            assert(s.take(s.len() - 1) =~= s.drop_last());
        }
        lemma_chars_within_trans(prev[0], s.drop_last(), s);
        if s.last() != c && prev.len() == 1 {
            let q = prev[0].push(s.last());
            assert(split(s, c)[0] == q);
            assert forall|i: int| 0 <= i < q.len() implies s.contains(#[trigger] q[i]) && q[i] != c by {
                if i < prev[0].len() {
                    assert(q[i] == prev[0][i]);
                } else {
                    assert(q[i] == s[s.len() - 1]);
                }
            }
        }
    } else {
        assert(split(s, c)[0] =~= Seq::<char>::empty());
    }
}

/// The host part of a URL is non-empty and holds no `/` and no `@`;
/// an empty (or blank) URL and an `ext::` command have none.
pub proof fn lemma_url_host_part_shape(url: Seq<char>)
    ensures
        url_host_part(url) matches Some(h) ==> h.len() > 0 && !h.contains('/') && !h.contains('@'),
        trim(url).len() == 0 ==> url_host_part(url) is None,
        starts_with(trim(url), seq!['e', 'x', 't', ':', ':']) ==> url_host_part(url) is None,
        url_host_part(url) is None ==> forge_host(url) is None,
{
    let u = trim(url);
    if u.len() > 0 && !starts_with(u, seq!['e', 'x', 't', ':', ':']) {
        if !contains(u, seq![':', '/', '/']) {
            let left = match find(u, seq![':']) {
                Some(k) => u.take(k),
                None => u,
            };
            lemma_after_last(left, '@');
            if !left.contains('/') {
                lemma_chars_within_excludes(after_last(left, '@'), left, '/');
            }
        } else {
            let rest = u.skip(find(u, seq![':', '/', '/'])->0 + 3);
            let after_scheme = match find(rest, seq![':', '/', '/']) {
                Some(j) => rest.take(j),
                None => rest,
            };
            lemma_split_len(after_scheme, '/');
            let piece = split(after_scheme, '/')[0];
            lemma_first_piece(after_scheme, '/');
            let authority = after_last(piece, '@');
            lemma_after_last(piece, '@');
            lemma_chars_within_excludes(authority, piece, '/');
            if authority.len() > 0 {
                if starts_with(authority, seq!['[']) {
                    let a1 = authority.drop_first();
                    lemma_skip_within(authority, 1);
                    assert(a1 =~= authority.skip(1));
                    lemma_first_piece(a1, ']');
                    lemma_chars_within_trans(split(a1, ']')[0], a1, authority);
                    lemma_chars_within_excludes(split(a1, ']')[0], authority, '/');
                    lemma_chars_within_excludes(split(a1, ']')[0], authority, '@');
                } else if count_char(authority, ':') == 1 {
                    lemma_first_piece(authority, ':');
                    lemma_chars_within_excludes(split(authority, ':')[0], authority, '/');
                    lemma_chars_within_excludes(split(authority, ':')[0], authority, '@');
                }
            }
        }
    }
}

/// A scp-like URL `[user@]host:path` (no `://`, not an `ext::`
/// command) names its host: whether or not a user comes first, the
/// host part is the text between the `@` (if any) and the first `:`,
/// and the forge host is that text lowercased.
pub proof fn lemma_scp_like_host(
    url: Seq<char>,
    user: Option<Seq<char>>,
    host: Seq<char>,
    path: Seq<char>,
)
    requires
        trim(url) == (match user {
            Some(u) => u + seq!['@'],
            None => Seq::<char>::empty(),
        }) + host + seq![':'] + path,
        user matches Some(u) ==> !u.contains(':') && !u.contains('/'),
        host.len() > 0,
        !host.contains('/') && !host.contains(':') && !host.contains('@'),
        path.len() > 0,
        !contains(trim(url), seq![':', '/', '/']),
        !starts_with(trim(url), seq!['e', 'x', 't', ':', ':']),
    ensures
        url_host_part(url) == Some(host),
        forge_host(url) == Some(unicode_lowercase(host)),
{
    let u = trim(url);
    let pre = match user {
        Some(x) => x + seq!['@'],
        None => Seq::<char>::empty(),
    };
    let left0 = pre + host;
    let k0 = left0.len() as int;
    assert(u == left0 + seq![':'] + path);
    assert(u[k0] == ':');
    let colon = seq![':'];
    assert(matches_at(u, colon, k0)) by {
        assert(u.subrange(k0, k0 + 1) =~= colon);
    }
    assert forall|j: int| 0 <= j < k0 implies !matches_at(u, colon, j) by {
        if matches_at(u, colon, j) {
            assert(u.subrange(j, j + 1)[0] == u[j]);
            assert(u[j] == left0[j]);
            if j < pre.len() {
                match user {
                    Some(x) => {
                        if j < x.len() {
                            assert(x[j] == ':');
                            assert(x.contains(':'));
                        }
                    },
                    None => {},
                }
            } else {
                assert(host[j - pre.len()] == ':');
                assert(host.contains(':'));
            }
        }
    }
    lemma_find(u, colon);
    match find(u, colon) {
        Some(k) => {
            if k < k0 {
                assert(!matches_at(u, colon, k));
            } else if k > k0 {
                assert(!matches_at(u, colon, k0));
            }
        },
        None => {
            assert(contains(u, colon));
        },
    }
    assert(find(u, colon) == Some(k0));
    let left = u.take(k0);
    assert(left =~= left0);
    assert(u.skip(k0 + 1) =~= path);
    assert(!left.contains('/')) by {
        if left.contains('/') {
            let j = choose|j: int| 0 <= j < left.len() && left[j] == '/';
            if j < pre.len() {
                match user {
                    Some(x) => {
                        if j < x.len() {
                            assert(x[j] == '/');
                            assert(x.contains('/'));
                        }
                    },
                    None => {},
                }
            } else {
                assert(host[j - pre.len()] == '/');
                assert(host.contains('/'));
            }
        }
    }
    lemma_rfind_char(left, '@');
    match user {
        Some(x) => {
            let at = x.len() as int;
            assert(left[at] == '@');
            match rfind_char(left, '@') {
                Some(k) => {
                    if k > at {
                        assert(host[k - at - 1] == '@');
                        assert(host.contains('@'));
                    } else if k < at {
                        assert(left[at] != '@');
                    }
                    assert(left.skip(k + 1) =~= host);
                },
                None => {
                    assert(left.contains('@'));
                },
            }
        },
        None => {
            assert(left =~= host);
            assert(rfind_char(left, '@') is None) by {
                if let Some(k) = rfind_char(left, '@') {
                    assert(host[k] == '@');
                    assert(host.contains('@'));
                }
            }
        },
    }
    assert(after_last(left, '@') == host);
}

proof fn lemma_count_char_concat(a: Seq<char>, b: Seq<char>, c: char)
    ensures
        count_char(a + b, c) == count_char(a, c) + count_char(b, c),
    decreases b.len(),
{
    if b.len() == 0 {
        assert(a + b =~= a);
    } else {
        lemma_count_char_concat(a, b.drop_last(), c);
        assert((a + b).drop_last() =~= a + b.drop_last());
    }
}

proof fn lemma_count_char_none(a: Seq<char>, c: char)
    requires
        !a.contains(c),
    ensures
        count_char(a, c) == 0,
    decreases a.len(),
{
    if a.len() > 0 {
        assert(!a.drop_last().contains(c)) by {
            if a.drop_last().contains(c) {
                let k = choose|k: int| 0 <= k < a.drop_last().len() && a.drop_last()[k] == c;
                assert(a[k] == c);
            }
        }
        lemma_count_char_none(a.drop_last(), c);
        assert(a[a.len() - 1] == a.last());
    }
}

/// The first piece of `a`, a separator, then anything, is `a` when `a`
/// holds no separator.
proof fn lemma_first_piece_before_sep(a: Seq<char>, c: char, b: Seq<char>)
    requires
        !a.contains(c),
    ensures
        split(a + seq![c] + b, c)[0] == a,
{
    crate::text::lemma_split_concat(a, c, b);
    crate::text::lemma_split_no_sep(a, c);
}

proof fn lemma_no_char_in_concat(a: Seq<char>, b: Seq<char>, c: char)
    requires
        !a.contains(c),
        !b.contains(c),
    ensures
        !(a + b).contains(c),
{
    if (a + b).contains(c) {
        let k = choose|k: int| 0 <= k < (a + b).len() && (a + b)[k] == c;
        if k < a.len() {
            assert(a[k] == c);
        } else {
            assert(b[k - a.len()] == c);
        }
    }
}

proof fn lemma_scheme_prefix(u: Seq<char>, scheme: Seq<char>, rest: Seq<char>)
    requires
        u == scheme + seq![':', '/', '/'] + rest,
        !scheme.contains(':'),
        !starts_with(scheme, seq!['e', 'x', 't']),
    ensures
        find(u, seq![':', '/', '/']) == Some(scheme.len() as int),
        contains(u, seq![':', '/', '/']),
        u.skip(scheme.len() + 3int) == rest,
        u.len() > 0,
        !starts_with(u, seq!['e', 'x', 't', ':', ':']),
{
    let sep = seq![':', '/', '/'];
    let n = scheme.len() as int;
    assert(matches_at(u, sep, n)) by {
        assert(u.subrange(n, n + 3) =~= sep);
    }
    assert forall|j: int| 0 <= j < n implies !matches_at(u, sep, j) by {
        if matches_at(u, sep, j) {
            assert(u.subrange(j, j + 3)[0] == u[j]);
            assert(scheme[j] == ':');
            assert(scheme.contains(':'));
        }
    }
    lemma_find(u, sep);
    match find(u, sep) {
        Some(k) => {
            if k < n {
                assert(!matches_at(u, sep, k));
            } else if k > n {
                assert(!matches_at(u, sep, n));
            }
        },
        None => {},
    }
    assert(u.skip(n + 3) =~= rest);
    assert(!starts_with(u, seq!['e', 'x', 't', ':', ':'])) by {
        if starts_with(u, seq!['e', 'x', 't', ':', ':']) {
            if n >= 3 {
                assert(scheme.take(3) =~= u.take(5).take(3));
                assert(u.take(5).take(3) =~= seq!['e', 'x', 't']);
            } else {
                assert(u[n] == ':');
                assert(u.take(5)[n] == u[n]);
                assert(u.take(5)[n + 1] == u[n + 1]);
                assert(u[n + 1] == '/');
            }
        }
    }
}

proof fn lemma_no_char_in_single(a: char, c: char)
    requires
        a != c,
    ensures
        !seq![a].contains(c),
{
    if seq![a].contains(c) {
        assert(seq![a][0] == a);
    }
}

/// The authority of `[user@]host[:port][/path]`, and the host and port
/// after the user's `@`.
proof fn lemma_authority(
    rest: Seq<char>,
    user: Option<Seq<char>>,
    hp: Seq<char>,
    path: Option<Seq<char>>,
)
    requires
        rest == (match user {
            Some(u) => u + seq!['@'],
            None => Seq::<char>::empty(),
        }) + hp + (match path {
            Some(p) => seq!['/'] + p,
            None => Seq::<char>::empty(),
        }),
        user matches Some(u) ==> !u.contains('/'),
        !hp.contains('/') && !hp.contains('@'),
    ensures
        split(rest, '/')[0] == (match user {
            Some(u) => u + seq!['@'],
            None => Seq::<char>::empty(),
        }) + hp,
        after_last(split(rest, '/')[0], '@') == hp,
{
    let upart = match user {
        Some(x) => x + seq!['@'],
        None => Seq::<char>::empty(),
    };
    let auth = upart + hp;
    assert(!upart.contains('/')) by {
        if let Some(x) = user {
            lemma_no_char_in_single('@', '/');
            lemma_no_char_in_concat(x, seq!['@'], '/');
        } else {
            assert(!Seq::<char>::empty().contains('/'));
        }
    }
    lemma_no_char_in_concat(upart, hp, '/');
    match path {
        Some(p) => {
            assert(rest =~= auth + seq!['/'] + p);
            lemma_first_piece_before_sep(auth, '/', p);
        },
        None => {
            assert(rest =~= auth);
            crate::text::lemma_split_no_sep(auth, '/');
        },
    }
    lemma_rfind_char(auth, '@');
    match user {
        Some(x) => {
            let at = x.len() as int;
            assert(auth[at] == '@');
            match rfind_char(auth, '@') {
                Some(k) => {
                    if k > at {
                        assert(hp[k - at - 1] == '@');
                        assert(hp.contains('@'));
                    } else if k < at {
                        assert(auth[at] != '@');
                    }
                    assert(auth.skip(k + 1) =~= hp);
                },
                None => {
                    assert(auth.contains('@'));
                },
            }
        },
        None => {
            assert(auth =~= hp);
            assert(rfind_char(auth, '@') is None) by {
                if let Some(k) = rfind_char(auth, '@') {
                    assert(hp[k] == '@');
                    assert(hp.contains('@'));
                }
            }
        },
    }
}

/// The host of `host[:port]`: the text before the port's `:`.
proof fn lemma_host_before_port(host: Seq<char>, port: Option<Seq<char>>)
    requires
        host.len() > 0,
        !host.contains(':'),
        port matches Some(p) ==> !p.contains(':'),
    ensures
        ({
            let hp = host + (match port {
                Some(p) => seq![':'] + p,
                None => Seq::<char>::empty(),
            });
            &&& hp[0] == host[0]
            &&& count_char(hp, ':') == 0 ==> hp == host
            &&& count_char(hp, ':') == 1 ==> split(hp, ':')[0] == host
            &&& count_char(hp, ':') <= 1
        }),
{
    lemma_count_char_none(host, ':');
    match port {
        Some(p) => {
            lemma_count_char_none(p, ':');
            lemma_count_char_concat(host, seq![':'] + p, ':');
            lemma_count_char_concat(seq![':'], p, ':');
            let c1 = seq![':'];
            assert(c1.drop_last() =~= Seq::<char>::empty());
            assert(c1.last() == ':');
            assert(count_char(c1.drop_last(), ':') == 0);
            assert(count_char(c1, ':') == 1);
            assert(host + (seq![':'] + p) =~= host + seq![':'] + p);
            lemma_first_piece_before_sep(host, ':', p);
        },
        None => {
            assert(host + Seq::<char>::empty() =~= host);
        },
    }
}

/// A URL `scheme://[user@]host[:port][/path]` names its host: the text
/// after the `://` and the user's `@`, before the port's `:` and the
/// first `/`; the forge host is that text lowercased.
pub proof fn lemma_scheme_url_host(
    url: Seq<char>,
    scheme: Seq<char>,
    user: Option<Seq<char>>,
    host: Seq<char>,
    port: Option<Seq<char>>,
    path: Option<Seq<char>>,
)
    requires
        trim(url) == scheme + seq![':', '/', '/'] + ((match user {
            Some(u) => u + seq!['@'],
            None => Seq::<char>::empty(),
        }) + (host + (match port {
            Some(p) => seq![':'] + p,
            None => Seq::<char>::empty(),
        })) + (match path {
            Some(p) => seq!['/'] + p,
            None => Seq::<char>::empty(),
        })),
        !scheme.contains(':'),
        !starts_with(scheme, seq!['e', 'x', 't']),
        user matches Some(u) ==> !u.contains('/'),
        host.len() > 0,
        host[0] != '[',
        !host.contains('/') && !host.contains(':') && !host.contains('@'),
        port matches Some(p) ==> !p.contains('/') && !p.contains(':') && !p.contains('@'),
        !contains(trim(url).skip(scheme.len() + 3int), seq![':', '/', '/']),
    ensures
        url_host_part(url) == Some(host),
        forge_host(url) == Some(unicode_lowercase(host)),
{
    let u = trim(url);
    let ppart = match port {
        Some(p) => seq![':'] + p,
        None => Seq::<char>::empty(),
    };
    let hp = host + ppart;
    let rest = (match user {
        Some(x) => x + seq!['@'],
        None => Seq::<char>::empty(),
    }) + hp + (match path {
        Some(p) => seq!['/'] + p,
        None => Seq::<char>::empty(),
    });
    lemma_scheme_prefix(u, scheme, rest);
    lemma_find(rest, seq![':', '/', '/']);
    assert(!ppart.contains('/') && !ppart.contains('@')) by {
        if let Some(p) = port {
            lemma_no_char_in_single(':', '/');
            lemma_no_char_in_single(':', '@');
            lemma_no_char_in_concat(seq![':'], p, '/');
            lemma_no_char_in_concat(seq![':'], p, '@');
        } else {
            assert(!Seq::<char>::empty().contains('/'));
            assert(!Seq::<char>::empty().contains('@'));
        }
    }
    lemma_no_char_in_concat(host, ppart, '/');
    lemma_no_char_in_concat(host, ppart, '@');
    lemma_authority(rest, user, hp, path);
    lemma_host_before_port(host, port);
    assert(!starts_with(hp, seq!['['])) by {
        if starts_with(hp, seq!['[']) {
            assert(hp.take(1)[0] == hp[0]);
        }
    }
}

pub open spec fn forge_host(url: Seq<char>) -> Option<Seq<char>> {
    match url_host_part(url) {
        Some(h) => Some(unicode_lowercase(h)),
        None => None,
    }
}

/// The forge host of a push URL, lowercased; `None` for local paths
/// and unparseable URLs, which never corroborate a forge incident.
pub fn forge_host_of_url(url: &str) -> (r: Option<String>)
    ensures
        r is Some <==> forge_host(url@) is Some,
        r matches Some(v) ==> forge_host(url@) == Some(v@),
{
    match url_host(url) {
        Some(h) => Some(to_lowercase(h.as_str())),
        None => None,
    }
}


// ---------------------------------------------------------------------
// Per-host transient hits and incidents
// ---------------------------------------------------------------------

/// Window in which transient hits corroborate an incident (10 min).
pub const FORGE_INCIDENT_WINDOW_SECS: u64 = 600;

/// Distinct repos that must report transient errors for one host before
/// an incident declares.
pub const FORGE_INCIDENT_MIN_REPOS: usize = 2;

/// Per-host hit cap.
pub const FORGE_HIT_CAP_PER_HOST: usize = 50;

/// Per-remote re-probe while the remote's host is under an incident.
pub const FORGE_INCIDENT_REPROBE_SECS: u64 = 3600;

/// One transient-class failure of `repo` against a forge host.
pub struct ForgeHit {
    pub repo: String,
    pub at_unix: u64,
}

/// The recent hits of one host and its (edge-latched) incident flag.
pub struct ForgeHostHealth {
    pub hits: Vec<ForgeHit>,
    pub incident: bool,
}

/// The health record of one forge host.
pub struct HostHealth {
    pub host: String,
    pub health: ForgeHostHealth,
}

/// The health of every forge host seen, one record per host name.
pub struct ForgeHealth {
    pub hosts: Vec<HostHealth>,
}

/// A hit as plain values: (repo, time).
pub type HitView = (Seq<char>, u64);

/// A host record as plain values: (host, hits, incident).
pub type HostView = (Seq<char>, Seq<HitView>, bool);

pub open spec fn hit_view(h: ForgeHit) -> HitView {
    (h.repo@, h.at_unix)
}

pub open spec fn hits_view(hits: Seq<ForgeHit>) -> Seq<HitView> {
    hits.map_values(|h: ForgeHit| hit_view(h))
}

pub open spec fn host_view(e: HostHealth) -> HostView {
    (e.host@, hits_view(e.health.hits@), e.health.incident)
}

impl View for ForgeHealth {
    type V = Seq<HostView>;

    open spec fn view(&self) -> Seq<HostView> {
        self.hosts@.map_values(|e: HostHealth| host_view(e))
    }
}

impl ForgeHealth {
    /// No host name occurs twice.
    pub open spec fn well_formed(&self) -> bool {
        forall|i: int, j: int|
            0 <= i < j < self@.len() ==> (#[trigger] self@[i]).0 != (#[trigger] self@[j]).0
    }

    /// The empty record.
    pub fn new() -> (r: ForgeHealth)
        ensures
            r@ == Seq::<HostView>::empty(),
            r.well_formed(),
    {
        let r = ForgeHealth { hosts: Vec::new() };
        assert(r@ =~= Seq::<HostView>::empty());
        r
    }
}

/// The oldest time still inside the window ending at `now`.
pub open spec fn window_start(now: u64) -> u64 {
    if now >= FORGE_INCIDENT_WINDOW_SECS {
        (now - FORGE_INCIDENT_WINDOW_SECS) as u64
    } else {
        0
    }
}

/// The hits inside the window ending at `now`, in order.
pub open spec fn recent(hits: Seq<HitView>, now: u64) -> Seq<HitView> {
    hits.filter(|h: HitView| h.1 >= window_start(now))
}

/// The last `FORGE_HIT_CAP_PER_HOST` hits.
pub open spec fn capped(hits: Seq<HitView>) -> Seq<HitView> {
    if hits.len() > FORGE_HIT_CAP_PER_HOST {
        hits.skip(hits.len() - FORGE_HIT_CAP_PER_HOST)
    } else {
        hits
    }
}

/// At least two distinct repos among `hits`.
pub open spec fn corroborated(hits: Seq<HitView>) -> bool {
    exists|i: int, j: int|
        0 <= i < hits.len() && 0 <= j < hits.len() && (#[trigger] hits[i]).0 != (
        #[trigger] hits[j]).0
}

/// The position of `host` in `v`, searching from `i`.
pub open spec fn host_index_from(v: Seq<HostView>, host: Seq<char>, i: int) -> Option<int>
    decreases v.len() - i,
{
    if i < 0 || i >= v.len() {
        None
    } else if v[i].0 == host {
        Some(i)
    } else {
        host_index_from(v, host, i + 1)
    }
}

pub open spec fn host_index(v: Seq<HostView>, host: Seq<char>) -> Option<int> {
    host_index_from(v, host, 0)
}

pub proof fn lemma_host_index(v: Seq<HostView>, host: Seq<char>, i: int)
    requires
        0 <= i,
    ensures
        host_index_from(v, host, i) matches Some(k) ==> i <= k < v.len() && v[k].0 == host
            && forall|m: int| i <= m < k ==> v[m].0 != host,
        host_index_from(v, host, i) is None ==> forall|k: int| i <= k < v.len() ==> v[k].0 != host,
    decreases v.len() - i,
{
    if i < v.len() && v[i].0 != host {
        lemma_host_index(v, host, i + 1);
    }
}

/// The first record of `host` is at `i` when it is there and nowhere
/// before.
pub proof fn lemma_host_index_is(v: Seq<HostView>, host: Seq<char>, i: int)
    requires
        0 <= i < v.len(),
        v[i].0 == host,
        forall|m: int| 0 <= m < i ==> v[m].0 != host,
    ensures
        host_index(v, host) == Some(i),
{
    lemma_host_index(v, host, 0);
    match host_index(v, host) {
        Some(k) => {
            if k < i {
                assert(v[k].0 != host);
            } else if k > i {
                assert(v[i].0 != host);
            }
        },
        None => {
            assert(v[i].0 != host);
        },
    }
}

/// The record of `host` after a transient hit of `repo` at `now`
/// (`prev_hits`/`prev_incident` are its previous state, empty for a new
/// host): old hits outside the window dropped, the new hit appended, the
/// list capped; and whether this hit declares the incident.
pub open spec fn observe_entry(
    prev_hits: Seq<HitView>,
    prev_incident: bool,
    repo: Seq<char>,
    now: u64,
) -> (Seq<HitView>, bool) {
    let hits = capped(recent(prev_hits, now).push((repo, now)));
    (hits, !prev_incident && corroborated(hits))
}

/// The health after recording a transient hit of `repo` on `host` at
/// `now`, and whether it declares the incident.
pub open spec fn observe(v: Seq<HostView>, host: Seq<char>, repo: Seq<char>, now: u64) -> (
    Seq<HostView>,
    bool,
) {
    match host_index(v, host) {
        Some(i) => {
            let (hits, declared) = observe_entry(v[i].1, v[i].2, repo, now);
            (v.update(i, (host, hits, v[i].2 || declared)), declared)
        },
        None => {
            let (hits, declared) = observe_entry(Seq::empty(), false, repo, now);
            (v.push((host, hits, declared)), declared)
        },
    }
}

fn copy_hit(h: &ForgeHit) -> (r: ForgeHit)
    ensures
        hit_view(r) == hit_view(*h),
{
    ForgeHit { repo: h.repo.clone(), at_unix: h.at_unix }
}

proof fn lemma_hits_view_push(v: Seq<ForgeHit>, x: ForgeHit)
    ensures
        hits_view(v.push(x)) == hits_view(v).push(hit_view(x)),
{
    assert(hits_view(v.push(x)) =~= hits_view(v).push(hit_view(x)));
}

/// The hits of `hits` inside the window ending at `now`.
fn recent_hits(hits: &Vec<ForgeHit>, now: u64) -> (r: Vec<ForgeHit>)
    ensures
        hits_view(r@) == recent(hits_view(hits@), now),
{
    let cutoff = now.saturating_sub(FORGE_INCIDENT_WINDOW_SECS);
    let ghost keep = |h: HitView| h.1 >= window_start(now);
    let ghost src = hits_view(hits@);
    let mut out: Vec<ForgeHit> = Vec::new();
    let mut i: usize = 0;
    assert(src.take(0) =~= Seq::<HitView>::empty());
    reveal_with_fuel(Seq::<_>::filter, 1);
    while i < hits.len()
        invariant
            i <= hits@.len(),
            src == hits_view(hits@),
            cutoff == window_start(now),
            keep == (|h: HitView| h.1 >= window_start(now)),
            hits_view(out@) == src.take(i as int).filter(keep),
        decreases hits@.len() - i,
    {
        reveal_with_fuel(Seq::<_>::filter, 1);
        assert(src.take(i + 1).drop_last() =~= src.take(i as int));
        assert(src.take(i + 1).last() == hit_view(hits@[i as int]));
        if hits[i].at_unix >= cutoff {
            assert(keep(src.take(i + 1).last()));
            let h = copy_hit(&hits[i]);
            proof {
                lemma_hits_view_push(out@, h);
            }
            out.push(h);
        } else {
            assert(!keep(src.take(i + 1).last()));
        }
        i = i + 1;
    }
    assert(src.take(hits@.len() as int) =~= src);
    out
}

/// Drops the hits of `host` that fell out of the window ending at
/// `now`; the incident flag is kept.
pub fn prune_host(host: &mut ForgeHostHealth, now_unix: u64)
    ensures
        hits_view(final(host).hits@) == recent(hits_view(old(host).hits@), now_unix),
        final(host).incident == old(host).incident,
{
    let kept = recent_hits(&host.hits, now_unix);
    host.hits = kept;
}

fn corroborated_of(hits: &Vec<ForgeHit>) -> (b: bool)
    ensures
        b == corroborated(hits_view(hits@)),
{
    let ghost hv = hits_view(hits@);
    if hits.len() == 0 {
        return false;
    }
    let mut j: usize = 1;
    while j < hits.len()
        invariant
            1 <= j <= hits@.len(),
            hv == hits_view(hits@),
            forall|k: int| 0 <= k < j ==> (#[trigger] hv[k]).0 == hv[0].0,
        decreases hits@.len() - j,
    {
        if !crate::text::eq(&chars_of(hits[j].repo.as_str()), &chars_of(hits[0].repo.as_str())) {
            assert(hv[j as int].0 != hv[0].0);
            return true;
        }
        j = j + 1;
    }
    assert forall|a: int, b: int| 0 <= a < hv.len() && 0 <= b < hv.len() implies (
    #[trigger] hv[a]).0 == (#[trigger] hv[b]).0 by {
        assert(hv[a].0 == hv[0].0);
        assert(hv[b].0 == hv[0].0);
    }
    false
}

fn index_of_host(health: &ForgeHealth, host: &[char]) -> (r: Option<usize>)
    ensures
        r matches Some(i) ==> host_index(health@, host@) == Some(i as int),
        r is None ==> host_index(health@, host@) is None,
{
    let mut i: usize = 0;
    while i < health.hosts.len()
        invariant
            i <= health.hosts@.len(),
            host_index(health@, host@) == host_index_from(health@, host@, i as int),
        decreases health.hosts@.len() - i,
    {
        assert(health@[i as int].0 == health.hosts@[i as int].host@);
        if crate::text::eq(&chars_of(health.hosts[i].host.as_str()), host) {
            return Some(i);
        }
        i = i + 1;
    }
    None
}

/// Records a transient-class failure of `repo` against `host` at
/// `now_unix`. Returns true exactly when this hit declares the incident
/// (the none-to-incident transition, see [`observe`]).
pub fn observe_forge_hit(health: &mut ForgeHealth, host: &str, repo: &str, now_unix: u64) -> (r:
    bool)
    requires
        old(health).well_formed(),
    ensures
        final(health).well_formed(),
        (final(health)@, r) == observe(old(health)@, host@, repo@, now_unix),
{
    let hv = chars_of(host);
    let idx = index_of_host(health, &hv);
    proof {
        lemma_host_index(health@, host@, 0);
    }
    let (prev_hits, prev_incident) = match idx {
        Some(i) => (recent_hits(&health.hosts[i].health.hits, now_unix), health.hosts[i].health.incident),
        None => (Vec::new(), false),
    };
    let ghost old_v = health@;
    proof {
        lemma_host_index(old_v, host@, 0);
    }
    assert(hits_view(prev_hits@) == recent(
        match host_index(old_v, host@) {
            Some(i) => old_v[i].1,
            None => Seq::empty(),
        },
        now_unix,
    )) by {
        reveal_with_fuel(Seq::<_>::filter, 1);
        if idx is None {
            assert(hits_view(prev_hits@) =~= Seq::<HitView>::empty());
        }
    }
    let mut hits = prev_hits;
    let h = ForgeHit { repo: String::from_str(repo), at_unix: now_unix };
    proof {
        lemma_hits_view_push(hits@, h);
    }
    hits.push(h);
    if hits.len() > FORGE_HIT_CAP_PER_HOST {
        let overflow = hits.len() - FORGE_HIT_CAP_PER_HOST;
        let mut kept: Vec<ForgeHit> = Vec::new();
        let mut k = overflow;
        while k < hits.len()
            invariant
                overflow <= k <= hits@.len(),
                hits_view(kept@) == hits_view(hits@).subrange(overflow as int, k as int),
            decreases hits@.len() - k,
        {
            let c = copy_hit(&hits[k]);
            proof {
                lemma_hits_view_push(kept@, c);
            }
            kept.push(c);
            k = k + 1;
            assert(hits_view(kept@) =~= hits_view(hits@).subrange(overflow as int, k as int));
        }
        assert(hits_view(hits@).subrange(overflow as int, hits@.len() as int) =~= hits_view(
            hits@,
        ).skip(overflow as int));
        hits = kept;
    }
    let declared = !prev_incident && corroborated_of(&hits);
    let entry = HostHealth {
        host: String::from_str(host),
        health: ForgeHostHealth { hits, incident: prev_incident || declared },
    };
    match idx {
        Some(i) => {
            health.hosts.set(i, entry);
            assert(health@ =~= old_v.update(i as int, host_view(entry)));
        },
        None => {
            health.hosts.push(entry);
            assert(health@ =~= old_v.push(host_view(entry)));
        },
    }
    assert forall|a: int, b: int| 0 <= a < b < health@.len() implies (#[trigger] health@[a]).0
        != (#[trigger] health@[b]).0 by {
        match idx {
            Some(i) => {
                if a != i && b != i {
                    assert(old_v[a].0 != old_v[b].0);
                }
            },
            None => {
                if b < old_v.len() {
                    assert(old_v[a].0 != old_v[b].0);
                }
            },
        }
    }
    declared
}


/// A host record after a recovery poll at `now`: an incident host has
/// its old hits dropped, and its incident cleared when none is left.
pub open spec fn poll_entry(e: HostView, now: u64) -> HostView {
    if e.2 {
        let hits = recent(e.1, now);
        (e.0, hits, hits.len() > 0)
    } else {
        e
    }
}

/// Whether a poll at `now` recovers the host.
pub open spec fn recovers(e: HostView, now: u64) -> bool {
    e.2 && recent(e.1, now).len() == 0
}

pub open spec fn host_names(v: Seq<HostView>) -> Seq<Seq<char>> {
    v.map_values(|e: HostView| e.0)
}

proof fn lemma_string_view_push(v: Seq<String>, x: String)
    ensures
        v.push(x).map_values(|s: String| s@) == v.map_values(|s: String| s@).push(x@),
{
    assert(v.push(x).map_values(|s: String| s@) =~= v.map_values(|s: String| s@).push(x@));
}

/// Clears the incidents whose window has gone quiet at `now_unix` and
/// returns the recovered hosts, in record order.
pub fn poll_forge_recovery(health: &mut ForgeHealth, now_unix: u64) -> (r: Vec<String>)
    requires
        old(health).well_formed(),
    ensures
        final(health).well_formed(),
        final(health)@ == old(health)@.map_values(|e: HostView| poll_entry(e, now_unix)),
        r@.map_values(|s: String| s@) == host_names(
            old(health)@.filter(|e: HostView| recovers(e, now_unix)),
        ),
{
    let ghost old_v = health@;
    let ghost rec = |e: HostView| recovers(e, now_unix);
    let mut recovered: Vec<String> = Vec::new();
    let mut i: usize = 0;
    assert(old_v.take(0) =~= Seq::<HostView>::empty());
    reveal_with_fuel(Seq::<_>::filter, 1);
    while i < health.hosts.len()
        invariant
            i <= health.hosts@.len(),
            health.hosts@.len() == old_v.len(),
            rec == (|e: HostView| recovers(e, now_unix)),
            forall|k: int| 0 <= k < i ==> #[trigger] health@[k] == poll_entry(old_v[k], now_unix),
            forall|k: int| i <= k < old_v.len() ==> #[trigger] health@[k] == old_v[k],
            recovered@.map_values(|s: String| s@) == host_names(old_v.take(i as int).filter(rec)),
        decreases health.hosts@.len() - i,
    {
        reveal_with_fuel(Seq::<_>::filter, 1);
        assert(old_v.take(i + 1).drop_last() =~= old_v.take(i as int));
        assert(old_v.take(i + 1).last() == old_v[i as int]);
        assert(health@[i as int] == old_v[i as int]);
        let ghost before = health@;
        if health.hosts[i].health.incident {
            let kept = recent_hits(&health.hosts[i].health.hits, now_unix);
            let still = kept.len() > 0;
            let name = health.hosts[i].host.clone();
            if !still {
                let n2 = name.clone();
                proof {
                    lemma_string_view_push(recovered@, n2);
                }
                recovered.push(n2);
                assert(rec(old_v[i as int]));
                assert(host_names(old_v.take(i + 1).filter(rec)) =~= host_names(
                    old_v.take(i as int).filter(rec),
                ).push(old_v[i as int].0));
            } else {
                assert(!rec(old_v[i as int]));
            }
            let entry = HostHealth { host: name, health: ForgeHostHealth { hits: kept, incident: still } };
            health.hosts.set(i, entry);
            assert(health@ =~= before.update(i as int, host_view(entry)));
        } else {
            assert(!rec(old_v[i as int]));
        }
        i = i + 1;
    }
    assert(health@ =~= old_v.map_values(|e: HostView| poll_entry(e, now_unix)));
    assert(old_v.take(old_v.len() as int) =~= old_v);
    assert forall|a: int, b: int| 0 <= a < b < health@.len() implies (#[trigger] health@[a]).0
        != (#[trigger] health@[b]).0 by {
        assert(old_v[a].0 != old_v[b].0);
    }
    recovered
}

/// The hosts currently under a declared incident, in record order.
pub fn forge_incident_hosts(health: &ForgeHealth) -> (r: Vec<String>)
    ensures
        r@.map_values(|s: String| s@) == host_names(health@.filter(|e: HostView| e.2)),
{
    let ghost v = health@;
    let ghost inc = |e: HostView| e.2;
    let mut out: Vec<String> = Vec::new();
    let mut i: usize = 0;
    assert(v.take(0) =~= Seq::<HostView>::empty());
    reveal_with_fuel(Seq::<_>::filter, 1);
    while i < health.hosts.len()
        invariant
            i <= health.hosts@.len(),
            v == health@,
            inc == (|e: HostView| e.2),
            out@.map_values(|s: String| s@) == host_names(v.take(i as int).filter(inc)),
        decreases health.hosts@.len() - i,
    {
        reveal_with_fuel(Seq::<_>::filter, 1);
        assert(v.take(i + 1).drop_last() =~= v.take(i as int));
        assert(v.take(i + 1).last() == v[i as int]);
        if health.hosts[i].health.incident {
            let n = health.hosts[i].host.clone();
            proof {
                lemma_string_view_push(out@, n);
            }
            out.push(n);
            assert(inc(v[i as int]));
            assert(host_names(v.take(i + 1).filter(inc)) =~= host_names(
                v.take(i as int).filter(inc),
            ).push(v[i as int].0));
        } else {
            assert(!inc(v[i as int]));
        }
        i = i + 1;
    }
    assert(v.take(v.len() as int) =~= v);
    out
}

/// The latest hit of `repo` among `hits` of the host at `idx`, given
/// the latest one before them (`acc`); a later hit at the same time
/// wins.
pub open spec fn scan_hits(hits: Seq<HitView>, repo: Seq<char>, idx: int, acc: Option<(int, u64)>) -> Option<(int, u64)>
    decreases hits.len(),
{
    if hits.len() == 0 {
        acc
    } else {
        let a = scan_hits(hits.drop_last(), repo, idx, acc);
        let h = hits.last();
        if h.0 == repo && match a {
            None => true,
            Some(p) => h.1 >= p.1,
        } {
            Some((idx, h.1))
        } else {
            a
        }
    }
}

/// The host (by position) and time of the latest hit of `repo`, reading
/// the records in order.
pub open spec fn latest_hit(v: Seq<HostView>, repo: Seq<char>) -> Option<(int, u64)>
    decreases v.len(),
{
    if v.len() == 0 {
        None
    } else {
        scan_hits(v.last().1, repo, v.len() - 1, latest_hit(v.drop_last(), repo))
    }
}

pub proof fn lemma_scan_hits_index(hits: Seq<HitView>, repo: Seq<char>, idx: int, acc: Option<(int, u64)>, lo: int)
    requires
        lo <= idx,
        acc matches Some(p) ==> lo <= p.0 <= idx,
    ensures
        scan_hits(hits, repo, idx, acc) matches Some(p) ==> lo <= p.0 <= idx,
    decreases hits.len(),
{
    if hits.len() > 0 {
        lemma_scan_hits_index(hits.drop_last(), repo, idx, acc, lo);
    }
}

pub proof fn lemma_latest_hit_index(v: Seq<HostView>, repo: Seq<char>)
    ensures
        latest_hit(v, repo) matches Some(p) ==> 0 <= p.0 < v.len(),
    decreases v.len(),
{
    if v.len() > 0 {
        lemma_latest_hit_index(v.drop_last(), repo);
        lemma_scan_hits_index(v.last().1, repo, v.len() - 1, latest_hit(v.drop_last(), repo), 0);
    }
}

proof fn lemma_scan_hits_latest(
    hits: Seq<HitView>,
    repo: Seq<char>,
    idx: int,
    acc: Option<(int, u64)>,
)
    ensures
        ({
            let r = scan_hits(hits, repo, idx, acc);
            &&& acc is Some ==> r is Some && (acc->0).1 <= (r->0).1
            &&& forall|k: int|
                0 <= k < hits.len() && (#[trigger] hits[k]).0 == repo ==> r is Some && hits[k].1
                    <= (r->0).1
            &&& r matches Some(p) ==> r == acc || (p.0 == idx && hits.contains((repo, p.1)))
        }),
    decreases hits.len(),
{
    if hits.len() > 0 {
        let p = hits.drop_last();
        lemma_scan_hits_latest(p, repo, idx, acc);
        let a = scan_hits(p, repo, idx, acc);
        let r = scan_hits(hits, repo, idx, acc);
        assert forall|k: int|
            0 <= k < hits.len() && (#[trigger] hits[k]).0 == repo implies r is Some && hits[k].1
                <= (r->0).1 by {
            if k < hits.len() - 1 {
                assert(p[k] == hits[k]);
            }
        }
        if r != a {
            assert(hits[hits.len() - 1] == hits.last());
            if let Some(q) = a {
                if a != acc {
                    let w = choose|w: int| 0 <= w < p.len() && p[w] == (repo, q.1);
                    assert(hits[w] == p[w]);
                }
            }
        } else if let Some(q) = a {
            if a != acc {
                let w = choose|w: int| 0 <= w < p.len() && p[w] == (repo, q.1);
                assert(hits[w] == p[w]);
            }
        }
    }
}

/// The latest hit of a repo decides whether it is covered: it is a hit
/// of that repo on the host it names, no hit of the repo on any host is
/// later, and the repo is covered exactly when that host is under an
/// incident. A repo with no hit has no latest hit.
pub proof fn lemma_latest_hit_decides(v: Seq<HostView>, repo: Seq<char>)
    ensures
        latest_hit(v, repo) matches Some(p) ==> {
            &&& 0 <= p.0 < v.len()
            &&& v[p.0].1.contains((repo, p.1))
            &&& forall|i: int, k: int|
                0 <= i < v.len() && 0 <= k < v[i].1.len() && (#[trigger] v[i].1[k]).0 == repo
                    ==> v[i].1[k].1 <= p.1
            &&& incident_covers(v, repo) == v[p.0].2
        },
        latest_hit(v, repo) is None ==> !incident_covers(v, repo) && forall|i: int, k: int|
            0 <= i < v.len() && 0 <= k < v[i].1.len() ==> (#[trigger] v[i].1[k]).0 != repo,
    decreases v.len(),
{
    if v.len() > 0 {
        let pv = v.drop_last();
        lemma_latest_hit_decides(pv, repo);
        let l = latest_hit(pv, repo);
        let last = v.len() - 1;
        assert(v.last() == v[last]);
        lemma_scan_hits_latest(v[last].1, repo, last, l);
        lemma_latest_hit_index(pv, repo);
        let r = latest_hit(v, repo);
        assert forall|i: int, k: int|
            0 <= i < v.len() && 0 <= k < v[i].1.len() && (#[trigger] v[i].1[k]).0 == repo
                implies r is Some && v[i].1[k].1 <= (r->0).1 by {
            if i < last {
                assert(pv[i] == v[i]);
            }
        }
        if let Some(p) = r {
            if r == l {
                assert(pv[p.0] == v[p.0]);
            }
        }
    }
}

/// Whether the latest hit of `repo` is on a host under an incident.
pub open spec fn incident_covers(v: Seq<HostView>, repo: Seq<char>) -> bool {
    match latest_hit(v, repo) {
        Some(p) => v[p.0].2,
        None => false,
    }
}

/// Whether `repo`'s most recent transient hit is on a host under a
/// declared incident (a repo that never hit is not covered).
pub fn forge_incident_covers_repo(health: &ForgeHealth, repo: &str) -> (b: bool)
    ensures
        b == incident_covers(health@, repo@),
{
    let ghost v = health@;
    let rv = chars_of(repo);
    let mut latest: Option<(usize, u64)> = None;
    let mut i: usize = 0;
    while i < health.hosts.len()
        invariant
            i <= health.hosts@.len(),
            v == health@,
            rv@ == repo@,
            (match latest {
                Some(p) => Some((p.0 as int, p.1)),
                None => None,
            }) == latest_hit(v.take(i as int), repo@),
            latest matches Some(p) ==> p.0 < i,
        decreases health.hosts@.len() - i,
    {
        let ghost start = latest_hit(v.take(i as int), repo@);
        let hits = &health.hosts[i].health.hits;
        let ghost hv = hits_view(hits@);
        assert(hv == v[i as int].1);
        let mut j: usize = 0;
        assert(hv.take(0) =~= Seq::<HitView>::empty());
        while j < hits.len()
            invariant
                j <= hits@.len(),
                hv == hits_view(hits@),
                rv@ == repo@,
                i < health.hosts@.len(),
                (match latest {
                    Some(p) => Some((p.0 as int, p.1)),
                    None => None,
                }) == scan_hits(hv.take(j as int), repo@, i as int, start),
                latest matches Some(p) ==> p.0 <= i,
            decreases hits@.len() - j,
        {
            assert(hv.take(j + 1).drop_last() =~= hv.take(j as int));
            assert(hv.take(j + 1).last() == hit_view(hits@[j as int]));
            let h = &hits[j];
            let newer = match latest {
                None => true,
                Some(p) => h.at_unix >= p.1,
            };
            if newer && crate::text::eq(&chars_of(h.repo.as_str()), &rv) {
                latest = Some((i, h.at_unix));
            }
            j = j + 1;
        }
        assert(hv.take(hits@.len() as int) =~= hv);
        assert(v.take(i + 1).drop_last() =~= v.take(i as int));
        assert(v.take(i + 1).last() == v[i as int]);
        i = i + 1;
    }
    assert(v.take(v.len() as int) =~= v);
    match latest {
        Some(p) => health.hosts[p.0].health.incident,
        None => false,
    }
}

/// Whether a failure is shielded from the budget burn: at least one
/// attributed transient host, no recent non-transient failure, and every
/// attributed host under a declared incident.
pub fn incident_shields_failure(
    transient_hosts: &[String],
    has_recent_non_transient_failure: bool,
    incident_hosts: &[String],
) -> (b: bool)
    ensures
        b == (transient_hosts@.len() > 0 && !has_recent_non_transient_failure && forall|i: int|
            0 <= i < transient_hosts@.len() ==> string_views(incident_hosts@).contains(
                #[trigger] transient_hosts@[i]@,
            )),
{
    if transient_hosts.len() == 0 || has_recent_non_transient_failure {
        return false;
    }
    let ghost inc = string_views(incident_hosts@);
    let mut i: usize = 0;
    while i < transient_hosts.len()
        invariant
            i <= transient_hosts@.len(),
            inc == string_views(incident_hosts@),
            forall|k: int| 0 <= k < i ==> inc.contains(#[trigger] transient_hosts@[k]@),
        decreases transient_hosts@.len() - i,
    {
        let t = chars_of(transient_hosts[i].as_str());
        let mut found = false;
        let mut j: usize = 0;
        while j < incident_hosts.len()
            invariant
                j <= incident_hosts@.len(),
                inc == string_views(incident_hosts@),
                t@ == transient_hosts@[i as int]@,
                i < transient_hosts@.len(),
                found ==> inc.contains(t@),
                !found ==> forall|k: int| 0 <= k < j ==> inc[k] != t@,
            decreases incident_hosts@.len() - j,
        {
            if !found && crate::text::eq(&chars_of(incident_hosts[j].as_str()), &t) {
                assert(inc[j as int] == t@);
                found = true;
            }
            j = j + 1;
        }
        if !found {
            return false;
        }
        i = i + 1;
    }
    true
}

// ---------------------------------------------------------------------
// Laws
// ---------------------------------------------------------------------

proof fn lemma_scan_hits_unseen(hits: Seq<HitView>, repo: Seq<char>, idx: int, acc: Option<(int, u64)>)
    requires
        forall|k: int| 0 <= k < hits.len() ==> (#[trigger] hits[k]).0 != repo,
    ensures
        scan_hits(hits, repo, idx, acc) == acc,
    decreases hits.len(),
{
    if hits.len() > 0 {
        lemma_scan_hits_unseen(hits.drop_last(), repo, idx, acc);
        assert(hits.last() == hits[hits.len() - 1]);
    }
}

/// A repository with no hit on any host is never covered by an
/// incident: its failures are alerted as usual.
pub proof fn lemma_unseen_repo_not_covered(v: Seq<HostView>, repo: Seq<char>)
    requires
        forall|i: int, k: int| 0 <= i < v.len() && 0 <= k < v[i].1.len() ==> (#[trigger] v[i].1[k]).0 != repo,
    ensures
        !incident_covers(v, repo),
        latest_hit(v, repo) is None,
    decreases v.len(),
{
    if v.len() > 0 {
        let p = v.drop_last();
        assert forall|i: int, k: int| 0 <= i < p.len() && 0 <= k < p[i].1.len() implies (#[trigger] p[i].1[k]).0 != repo by {
            assert(p[i] == v[i]);
        }
        lemma_unseen_repo_not_covered(p, repo);
        assert forall|k: int| 0 <= k < v.last().1.len() implies (#[trigger] v.last().1[k]).0 != repo by {
            assert(v.last() == v[v.len() - 1]);
        }
        lemma_scan_hits_unseen(v.last().1, repo, v.len() - 1, None);
    }
}

/// A host's record never holds more than `FORGE_HIT_CAP_PER_HOST`
/// hits, and the hit just recorded is always kept, as the newest.
pub proof fn lemma_hit_cap(prev_hits: Seq<HitView>, prev_incident: bool, repo: Seq<char>, now: u64)
    ensures
        observe_entry(prev_hits, prev_incident, repo, now).0.len() <= FORGE_HIT_CAP_PER_HOST,
        observe_entry(prev_hits, prev_incident, repo, now).0.last() == (repo, now),
{
    let s = recent(prev_hits, now).push((repo, now));
    if s.len() > FORGE_HIT_CAP_PER_HOST {
        let c = s.skip(s.len() - FORGE_HIT_CAP_PER_HOST);
        assert(c.last() == s[s.len() - 1]);
    }
}

/// An incident is declared at most once: once a hit declares it, every
/// later hit on the same host (at any time, from any repo) declares
/// nothing, and the host stays under the incident.
pub proof fn lemma_declared_once(
    v: Seq<HostView>,
    host: Seq<char>,
    repo1: Seq<char>,
    t1: u64,
    repo2: Seq<char>,
    t2: u64,
)
    requires
        observe(v, host, repo1, t1).1,
    ensures
        !observe(observe(v, host, repo1, t1).0, host, repo2, t2).1,
        ({
            let w = observe(observe(v, host, repo1, t1).0, host, repo2, t2).0;
            host_index(w, host) matches Some(i) && w[i].2
        }),
{
    let w1 = observe(v, host, repo1, t1).0;
    lemma_host_index(v, host, 0);
    let i1 = match host_index(v, host) {
        Some(i) => i,
        None => v.len() as int,
    };
    assert(w1[i1].0 == host && w1[i1].2);
    assert forall|m: int| 0 <= m < i1 implies w1[m].0 != host by {
        assert(w1[m] == v[m]);
    }
    lemma_host_index_is(w1, host, i1);
    let w2 = observe(w1, host, repo2, t2).0;
    assert(w2[i1].0 == host && w2[i1].2);
    assert forall|m: int| 0 <= m < i1 implies w2[m].0 != host by {
        assert(w2[m] == w1[m]);
    }
    lemma_host_index_is(w2, host, i1);
}

/// Hits of a single repo never declare an incident: when every recent
/// hit of the host is from `repo`, another hit from `repo` declares
/// nothing.
pub proof fn lemma_single_repo_never_declares(v: Seq<HostView>, host: Seq<char>, repo: Seq<char>, now: u64)
    requires
        host_index(v, host) matches Some(i) ==> forall|k: int|
            0 <= k < v[i].1.len() ==> (#[trigger] v[i].1[k]).0 == repo,
    ensures
        !observe(v, host, repo, now).1,
{
    let prev = match host_index(v, host) {
        Some(i) => v[i].1,
        None => Seq::empty(),
    };
    let r = recent(prev, now);
    assert forall|k: int| 0 <= k < r.len() implies (#[trigger] r[k]).0 == repo by {
        lemma_filter_subset(prev, |h: HitView| h.1 >= window_start(now), k);
        let m = choose|m: int| 0 <= m < prev.len() && prev[m] == r[k];
        assert(prev[m].0 == repo);
    }
    let p = r.push((repo, now));
    let c = capped(p);
    assert forall|k: int| 0 <= k < c.len() implies (#[trigger] c[k]).0 == repo by {
        if p.len() > FORGE_HIT_CAP_PER_HOST {
            assert(c[k] == p[k + (p.len() - FORGE_HIT_CAP_PER_HOST)]);
        }
        let kk = if p.len() > FORGE_HIT_CAP_PER_HOST { k + (p.len() - FORGE_HIT_CAP_PER_HOST) } else { k };
        if kk < r.len() {
            assert(p[kk] == r[kk]);
        }
    }
    if corroborated(c) {
        let (a, b) = choose|a: int, b: int|
            0 <= a < c.len() && 0 <= b < c.len() && (#[trigger] c[a]).0 != (#[trigger] c[b]).0;
        assert(c[a].0 == repo && c[b].0 == repo);
    }
}

/// Recovery is idempotent: polling again at the same time recovers
/// nothing more and changes nothing.
pub proof fn lemma_poll_idempotent(v: Seq<HostView>, now: u64)
    ensures
        ({
            let w = v.map_values(|e: HostView| poll_entry(e, now));
            &&& w.filter(|e: HostView| recovers(e, now)).len() == 0
            &&& w.map_values(|e: HostView| poll_entry(e, now)) == w
        }),
{
    let w = v.map_values(|e: HostView| poll_entry(e, now));
    let keep = |h: HitView| h.1 >= window_start(now);
    assert forall|k: int| 0 <= k < w.len() implies !recovers(#[trigger] w[k], now) && poll_entry(
        w[k],
        now,
    ) == w[k] by {
        let e = v[k];
        if e.2 {
            let hits = recent(e.1, now);
            assert forall|i: int| 0 <= i < hits.len() implies keep(#[trigger] hits[i]) by {
                e.1.lemma_filter_pred(keep, i);
            }
            lemma_filter_all(hits, keep);
            assert(recent(hits, now) == hits);
        }
    }
    let rec = |e: HostView| recovers(e, now);
    lemma_filter_none(w, rec);
    assert(w.map_values(|e: HostView| poll_entry(e, now)) =~= w);
}

/// Two distinct repos failing on a fresh host within the window declare
/// its incident: the first hit alone declares nothing, the second one
/// (from another repo, no later than the window after the first)
/// declares it.
pub proof fn lemma_two_repos_declare(
    v: Seq<HostView>,
    host: Seq<char>,
    repo1: Seq<char>,
    t1: u64,
    repo2: Seq<char>,
    t2: u64,
)
    requires
        host_index(v, host) is None,
        repo1 != repo2,
        t1 <= t2,
        t2 - t1 <= FORGE_INCIDENT_WINDOW_SECS,
    ensures
        !observe(v, host, repo1, t1).1,
        observe(observe(v, host, repo1, t1).0, host, repo2, t2).1,
{
    reveal_with_fuel(Seq::<_>::filter, 2);
    let e0: Seq<HitView> = Seq::empty();
    assert(recent(e0, t1) =~= e0);
    let h1 = seq![(repo1, t1)];
    assert(recent(e0, t1).push((repo1, t1)) =~= h1);
    assert(observe_entry(e0, false, repo1, t1).0 == h1);
    assert(!corroborated(h1));
    let w1 = observe(v, host, repo1, t1).0;
    assert(w1 == v.push((host, h1, false)));
    lemma_host_index(v, host, 0);
    assert forall|m: int| 0 <= m < v.len() implies w1[m].0 != host by {
        assert(w1[m] == v[m]);
    }
    lemma_host_index_is(w1, host, v.len() as int);
    assert(h1.drop_last() =~= e0);
    assert(t1 >= window_start(t2));
    assert(recent(h1, t2) =~= h1);
    let h2 = h1.push((repo2, t2));
    assert(observe_entry(h1, false, repo2, t2).0 == h2);
    assert(h2[0].0 != h2[1].0);
    assert(corroborated(h2));
}

/// A recovery poll clears the incident of a host whose window has gone
/// quiet, keeps that of a host with recent hits (dropping only its old
/// hits), and leaves a host without incident as it is.
pub proof fn lemma_poll_clears_quiet_incident(e: HostView, now: u64)
    ensures
        poll_entry(e, now).0 == e.0,
        poll_entry(e, now).2 == (e.2 && !recovers(e, now)),
        e.2 ==> poll_entry(e, now).1 == recent(e.1, now),
        !e.2 ==> poll_entry(e, now) == e,
{
}

/// Filtering a sequence whose elements all satisfy the predicate keeps it.
pub proof fn lemma_filter_all<A>(s: Seq<A>, p: spec_fn(A) -> bool)
    requires
        forall|i: int| 0 <= i < s.len() ==> p(#[trigger] s[i]),
    ensures
        s.filter(p) == s,
    decreases s.len(),
{
    reveal_with_fuel(Seq::<_>::filter, 1);
    if s.len() > 0 {
        lemma_filter_all(s.drop_last(), p);
        assert(s.drop_last().push(s.last()) =~= s);
    } else {
        assert(s.filter(p) =~= s);
    }
}


/// Every element of a filtered sequence comes from the sequence.
pub proof fn lemma_filter_subset<A>(s: Seq<A>, p: spec_fn(A) -> bool, k: int)
    requires
        0 <= k < s.filter(p).len(),
    ensures
        exists|m: int| 0 <= m < s.len() && s[m] == s.filter(p)[k],
    decreases s.len(),
{
    reveal_with_fuel(Seq::<_>::filter, 1);
    if s.len() > 0 {
        let sub = s.drop_last().filter(p);
        if k < sub.len() {
            lemma_filter_subset(s.drop_last(), p, k);
            let m = choose|m: int| 0 <= m < s.drop_last().len() && s.drop_last()[m] == sub[k];
            assert(s[m] == s.filter(p)[k]);
        } else {
            assert(s[s.len() - 1] == s.filter(p)[k]);
        }
    }
}

/// Filtering a sequence none of whose elements satisfies the predicate
/// gives the empty sequence.
pub proof fn lemma_filter_none<A>(s: Seq<A>, p: spec_fn(A) -> bool)
    requires
        forall|i: int| 0 <= i < s.len() ==> !p(#[trigger] s[i]),
    ensures
        s.filter(p).len() == 0,
    decreases s.len(),
{
    reveal_with_fuel(Seq::<_>::filter, 1);
    if s.len() > 0 {
        lemma_filter_none(s.drop_last(), p);
        assert(!p(s[s.len() - 1]));
    }
}

} // verus!
