//! The ledger of every repository path that was ever synced, and the
//! repositories that vanished from disk since: a watched path that
//! stops being discovered is remembered from the first pass it is
//! missing, and reported until it comes back or the entry expires.

use vstd::prelude::*;
use crate::ordered::{lemma_lt_total, lemma_lt_transitive, lt, seq_lt};
use crate::path::{path_join, path_join_of};
use crate::sys::{path_parent, path_parent_result};
use crate::text::{chars_of, eq, string_of, string_views};

verus! {

broadcast use vstd::string::group_string_axioms;

/// The ledger's file name, beside the policy file.
pub const SEEN_LEDGER_FILE: &'static str = "repos-seen-ledger.json";

/// Vanished entries stop being reported after 90 days.
pub const VANISHED_ENTRY_TTL_SECS: u64 = 90 * 24 * 3600;

/// What the ledger knows of one path: the last pass it existed in, and
/// the first pass it was missing in (`None` while it exists).
#[derive(Debug, Clone, Copy, PartialEq, Eq)]
pub struct SeenRepo {
    pub last_seen_secs: u64,
    pub first_vanished_secs: Option<u64>,
}

/// The ledger: one entry per path, in no particular order.
#[derive(Debug, Clone)]
pub struct SeenLedger {
    pub entries: Vec<(String, SeenRepo)>,
}

pub type LedgerEntry = (Seq<char>, SeenRepo);

pub open spec fn entry_seq(s: Seq<(String, SeenRepo)>) -> Seq<LedgerEntry> {
    s.map_values(|e: (String, SeenRepo)| (e.0@, e.1))
}

pub open spec fn unique_keys(s: Seq<LedgerEntry>) -> bool {
    forall|i: int, j: int| 0 <= i < j < s.len() ==> (#[trigger] s[i]).0 != (#[trigger] s[j]).0
}

/// The map that a list of entries with distinct paths stands for.
pub open spec fn ledger_map(s: Seq<LedgerEntry>) -> Map<Seq<char>, SeenRepo>
    decreases s.len(),
{
    if s.len() == 0 {
        Map::empty()
    } else {
        ledger_map(s.drop_last()).insert(s.last().0, s.last().1)
    }
}

impl View for SeenLedger {
    type V = Map<Seq<char>, SeenRepo>;

    open spec fn view(&self) -> Map<Seq<char>, SeenRepo> {
        ledger_map(entry_seq(self.entries@))
    }
}

impl SeenLedger {
    /// No path has two entries.
    pub open spec fn wf(&self) -> bool {
        unique_keys(entry_seq(self.entries@))
    }

    /// The empty ledger.
    pub fn new() -> (l: SeenLedger)
        ensures
            l.wf(),
            l@ == Map::<Seq<char>, SeenRepo>::empty(),
    {
        let l = SeenLedger { entries: Vec::new() };
        assert(entry_seq(l.entries@) =~= Seq::<LedgerEntry>::empty());
        l
    }
}

proof fn lemma_ledger_map(s: Seq<LedgerEntry>)
    requires
        unique_keys(s),
    ensures
        forall|k: Seq<char>| #[trigger]
            ledger_map(s).dom().contains(k) <==> exists|i: int| 0 <= i < s.len() && s[i].0 == k,
        forall|i: int| 0 <= i < s.len() ==> ledger_map(s)[(#[trigger] s[i]).0] == s[i].1,
    decreases s.len(),
{
    if s.len() > 0 {
        let p = s.drop_last();
        let last = s.last();
        assert(unique_keys(p)) by {
            assert forall|i: int, j: int| 0 <= i < j < p.len() implies (#[trigger] p[i]).0 != (
            #[trigger] p[j]).0 by {
                assert(p[i] == s[i] && p[j] == s[j]);
            }
        }
        lemma_ledger_map(p);
        assert(ledger_map(s) == ledger_map(p).insert(last.0, last.1));
        assert forall|k: Seq<char>| #[trigger]
            ledger_map(s).dom().contains(k) <==> exists|i: int| 0 <= i < s.len() && s[i].0 == k by {
            if ledger_map(s).dom().contains(k) {
                if k == last.0 {
                    assert(s[s.len() - 1].0 == k);
                } else {
                    assert(ledger_map(p).dom().contains(k));
                    let i = choose|i: int| 0 <= i < p.len() && p[i].0 == k;
                    assert(s[i] == p[i]);
                }
            }
            if exists|i: int| 0 <= i < s.len() && s[i].0 == k {
                let i = choose|i: int| 0 <= i < s.len() && s[i].0 == k;
                if i < s.len() - 1 {
                    assert(p[i] == s[i]);
                    assert(ledger_map(p).dom().contains(k));
                }
            }
        }
        assert forall|i: int| 0 <= i < s.len() implies ledger_map(s)[(#[trigger] s[i]).0]
            == s[i].1 by {
            if i < s.len() - 1 {
                assert(p[i] == s[i]);
                assert(s[i].0 != s[s.len() - 1].0);
                assert(ledger_map(p)[p[i].0] == p[i].1);
            }
        }
    }
}

/// A path seen in the current pass.
pub open spec fn seen_now(now: u64) -> SeenRepo {
    SeenRepo { last_seen_secs: now, first_vanished_secs: None }
}

/// A path missing from the current pass: stamped with `now` unless
/// already stamped.
pub open spec fn stamp_missing(e: SeenRepo, now: u64) -> SeenRepo {
    if e.first_vanished_secs is None {
        SeenRepo { last_seen_secs: e.last_seen_secs, first_vanished_secs: Some(now) }
    } else {
        e
    }
}

fn key_index(entries: &Vec<(String, SeenRepo)>, key: &[char]) -> (r: Option<usize>)
    ensures
        r matches Some(i) ==> i < entries@.len() && entry_seq(entries@)[i as int].0 == key@,
        r is None ==> forall|i: int| 0 <= i < entries@.len() ==> (#[trigger] entry_seq(entries@)[i]).0 != key@,
{
    let ghost es = entry_seq(entries@);
    let mut i: usize = 0;
    while i < entries.len()
        invariant
            i <= entries@.len(),
            es == entry_seq(entries@),
            forall|m: int| 0 <= m < i ==> (#[trigger] es[m]).0 != key@,
        decreases entries@.len() - i,
    {
        assert(es[i as int].0 == entries@[i as int].0@);
        if eq(&chars_of(entries[i].0.as_str()), key) {
            return Some(i);
        }
        i = i + 1;
    }
    None
}

/// Records `path` as seen at `now` (adding it when new).
pub fn mark_seen(ledger: &mut SeenLedger, path: &str, now_secs: u64)
    requires
        old(ledger).wf(),
    ensures
        final(ledger).wf(),
        final(ledger)@ == old(ledger)@.insert(path@, seen_now(now_secs)),
{
    let ghost s = entry_seq(ledger.entries@);
    proof {
        lemma_ledger_map(s);
    }
    let key = chars_of(path);
    let seen = SeenRepo { last_seen_secs: now_secs, first_vanished_secs: None };
    match key_index(&ledger.entries, &key) {
        Some(i) => {
            ledger.entries.set(i, (string_of(&key), seen));
            let ghost t = entry_seq(ledger.entries@);
            assert(t =~= s.update(i as int, (path@, seen)));
            assert(unique_keys(t)) by {
                assert forall|a: int, b: int| 0 <= a < b < t.len() implies (#[trigger] t[a]).0 != (
                #[trigger] t[b]).0 by {
                    assert(t[a].0 == s[a].0 && t[b].0 == s[b].0);
                }
            }
            proof {
                lemma_ledger_map(t);
            }
            assert(ledger@ =~= s_map_insert(s, path@, seen)) by {
                assert forall|k: Seq<char>| #[trigger] ledger@.dom().contains(k) implies ledger@[k]
                    == s_map_insert(s, path@, seen)[k] by {
                    let j = choose|j: int| 0 <= j < t.len() && t[j].0 == k;
                    assert(ledger_map(t)[t[j].0] == t[j].1);
                    if j != i {
                        assert(t[j] == s[j]);
                    }
                }
                assert forall|k: Seq<char>| #[trigger] s_map_insert(s, path@, seen).dom().contains(k)
                    implies ledger@.dom().contains(k) by {
                    if k != path@ {
                        let j = choose|j: int| 0 <= j < s.len() && s[j].0 == k;
                        assert(t[j].0 == k);
                    } else {
                        assert(t[i as int].0 == k);
                    }
                }
            }
        },
        None => {
            let ghost before = ledger.entries@;
            ledger.entries.push((string_of(&key), seen));
            let ghost t = entry_seq(ledger.entries@);
            assert(t =~= s.push((path@, seen)));
            assert(t.drop_last() =~= s);
            assert(unique_keys(t)) by {
                assert forall|a: int, b: int| 0 <= a < b < t.len() implies (#[trigger] t[a]).0 != (
                #[trigger] t[b]).0 by {
                    if b == t.len() - 1 {
                        assert(t[a] == s[a]);
                    } else {
                        assert(t[a] == s[a] && t[b] == s[b]);
                    }
                }
            }
        },
    }
}

spec fn s_map_insert(s: Seq<LedgerEntry>, k: Seq<char>, v: SeenRepo) -> Map<Seq<char>, SeenRepo> {
    ledger_map(s).insert(k, v)
}

/// The ledger after a discovery pass that found the paths `current`:
/// every path of the ledger found in `current` is seen now; every other
/// path of the ledger is stamped as missing unless already stamped.
/// Paths of `current` that the ledger does not hold are not added here
/// (see [`mark_seen`]).
pub open spec fn ledger_after_pass(
    m: Map<Seq<char>, SeenRepo>,
    current: Seq<Seq<char>>,
    now: u64,
) -> Map<Seq<char>, SeenRepo> {
    Map::new(
        |k: Seq<char>| m.dom().contains(k),
        |k: Seq<char>|
            if current.contains(k) {
                seen_now(now)
            } else {
                stamp_missing(m[k], now)
            },
    )
}

/// A path missing from two passes in a row keeps the time of the first
/// miss, and a path found again loses its mark: the ledger records when
/// a repository vanished, not how long ago it was last looked for.
pub proof fn lemma_vanished_stamp_kept(
    m: Map<Seq<char>, SeenRepo>,
    first: Seq<Seq<char>>,
    second: Seq<Seq<char>>,
    t1: u64,
    t2: u64,
    k: Seq<char>,
)
    requires
        m.dom().contains(k),
        m[k].first_vanished_secs is None,
        !first.contains(k),
    ensures
        ledger_after_pass(m, first, t1)[k].first_vanished_secs == Some(t1),
        !second.contains(k) ==> ledger_after_pass(ledger_after_pass(m, first, t1), second, t2)[k]
            == ledger_after_pass(m, first, t1)[k],
        second.contains(k) ==> ledger_after_pass(ledger_after_pass(m, first, t1), second, t2)[k]
            == seen_now(t2),
{
}

/// Folds one discovery pass into the ledger (see [`ledger_after_pass`]).
pub fn update_seen_ledger(ledger: &mut SeenLedger, current: &[String], now_secs: u64)
    requires
        old(ledger).wf(),
    ensures
        final(ledger).wf(),
        final(ledger)@ == ledger_after_pass(old(ledger)@, string_views(current@), now_secs),
{
    let ghost s = entry_seq(ledger.entries@);
    let ghost m = ledger@;
    let ghost cv = string_views(current@);
    proof {
        lemma_ledger_map(s);
    }
    let ghost g = |e: LedgerEntry|
        (
            e.0,
            if cv.contains(e.0) {
                seen_now(now_secs)
            } else {
                stamp_missing(e.1, now_secs)
            },
        );
    let mut fresh: Vec<(String, SeenRepo)> = Vec::new();
    let mut i: usize = 0;
    while i < ledger.entries.len()
        invariant
            i <= ledger.entries@.len(),
            s == entry_seq(ledger.entries@),
            cv == string_views(current@),
            g == (|e: LedgerEntry|
                (
                    e.0,
                    if cv.contains(e.0) {
                        seen_now(now_secs)
                    } else {
                        stamp_missing(e.1, now_secs)
                    },
                )),
            entry_seq(fresh@) == s.take(i as int).map_values(g),
        decreases ledger.entries@.len() - i,
    {
        let key = chars_of(ledger.entries[i].0.as_str());
        let e = ledger.entries[i].1;
        assert(s[i as int] == (key@, e));
        let mut found = false;
        let mut j: usize = 0;
        while j < current.len()
            invariant
                j <= current@.len(),
                cv == string_views(current@),
                found <==> exists|m: int| 0 <= m < j && cv[m] == key@,
            decreases current@.len() - j,
        {
            assert(cv[j as int] == current@[j as int]@);
            if eq(&chars_of(current[j].as_str()), &key) {
                found = true;
            }
            j = j + 1;
        }
        assert(found <==> cv.contains(key@));
        let v = if found {
            SeenRepo { last_seen_secs: now_secs, first_vanished_secs: None }
        } else if e.first_vanished_secs.is_none() {
            SeenRepo { last_seen_secs: e.last_seen_secs, first_vanished_secs: Some(now_secs) }
        } else {
            e
        };
        assert(v == g(s[i as int]).1);
        let ghost fb = fresh@;
        let item = (string_of(&key), v);
        fresh.push(item);
        assert(fresh@ == fb.push(item));
        assert(entry_seq(fresh@) =~= entry_seq(fb).push((key@, v)));
        assert(s.take(i + 1) =~= s.take(i as int).push(s[i as int]));
        assert(s.take(i + 1).map_values(g) =~= s.take(i as int).map_values(g).push(g(s[i as int])));
        i = i + 1;
    }
    assert(s.take(s.len() as int) =~= s);
    let ghost t = entry_seq(fresh@);
    assert(t =~= s.map_values(g));
    assert(unique_keys(t)) by {
        assert forall|a: int, b: int| 0 <= a < b < t.len() implies (#[trigger] t[a]).0 != (
        #[trigger] t[b]).0 by {
            assert(t[a].0 == s[a].0 && t[b].0 == s[b].0);
        }
    }
    proof {
        lemma_ledger_map(t);
    }
    ledger.entries = fresh;
    let ghost mid = ledger@;
    assert(mid =~= ledger_after_pass(m, cv, now_secs)) by {
        assert forall|k: Seq<char>| #[trigger] mid.dom().contains(k) implies m.dom().contains(k) by {
            let j = choose|j: int| 0 <= j < t.len() && t[j].0 == k;
            assert(s[j].0 == k);
        }
        assert forall|k: Seq<char>| #[trigger] m.dom().contains(k) implies mid.dom().contains(k)
            && mid[k] == (if cv.contains(k) {
            seen_now(now_secs)
        } else {
            stamp_missing(m[k], now_secs)
        }) by {
            let j = choose|j: int| 0 <= j < s.len() && s[j].0 == k;
            assert(t[j].0 == k);
            assert(mid[t[j].0] == t[j].1);
            assert(m[s[j].0] == s[j].1);
        }
    }
}

// ---------------------------------------------------------------------
// Vanished repositories
// ---------------------------------------------------------------------

/// A synced repository whose path is gone.
#[derive(Debug, Clone, PartialEq, Eq)]
pub struct VanishedRepo {
    pub path: String,
    pub last_seen_secs: u64,
    pub first_vanished_secs: u64,
}

/// A vanished entry is reported while fewer than the TTL's seconds
/// passed since it was first missed (`now` before that counts as none).
pub open spec fn within_ttl(first_vanished: u64, now: u64) -> bool {
    (if now >= first_vanished {
        now - first_vanished
    } else {
        0
    }) < VANISHED_ENTRY_TTL_SECS
}

/// A path is reported when the ledger marks it missing within the TTL.
pub open spec fn reported(m: Map<Seq<char>, SeenRepo>, k: Seq<char>, now: u64) -> bool {
    m.dom().contains(k) && m[k].first_vanished_secs is Some && within_ttl(
        m[k].first_vanished_secs->0,
        now,
    )
}

pub open spec fn vanished_views(v: Seq<VanishedRepo>) -> Seq<(Seq<char>, u64, u64)> {
    v.map_values(|r: VanishedRepo| (r.path@, r.last_seen_secs, r.first_vanished_secs))
}

pub open spec fn paths_ascending(v: Seq<VanishedRepo>) -> bool {
    forall|a: int, b: int| 0 <= a < b < v.len() ==> seq_lt(#[trigger] v[a].path@, #[trigger] v[b].path@)
}

proof fn lemma_insert_sorted(before: Seq<VanishedRepo>, pos: int, item: VanishedRepo)
    requires
        paths_ascending(before),
        0 <= pos <= before.len(),
        forall|q: int| 0 <= q < pos ==> !seq_lt(item.path@, #[trigger] before[q].path@),
        pos < before.len() ==> seq_lt(item.path@, before[pos].path@),
        forall|q: int| 0 <= q < before.len() ==> (#[trigger] before[q]).path@ != item.path@,
    ensures
        paths_ascending(before.insert(pos, item)),
{
    let r = before.insert(pos, item);
    assert forall|a: int, b: int| 0 <= a < b < r.len() implies seq_lt(
        #[trigger] r[a].path@,
        #[trigger] r[b].path@,
    ) by {
        if b < pos {
            assert(r[a] == before[a] && r[b] == before[b]);
        } else if b == pos {
            assert(r[b] == item && r[a] == before[a]);
            lemma_lt_total(before[a].path@, item.path@);
        } else if a == pos {
            assert(r[a] == item && r[b] == before[b - 1]);
            if b - 1 > pos {
                lemma_lt_transitive(item.path@, before[pos].path@, before[b - 1].path@);
            }
        } else if a < pos {
            assert(r[a] == before[a] && r[b] == before[b - 1]);
        } else {
            assert(r[a] == before[a - 1] && r[b] == before[b - 1]);
        }
    }
}

/// Inserts `item` at its place by path into `out`, which lacks its path.
fn insert_by_path(out: &mut Vec<VanishedRepo>, item: VanishedRepo)
    requires
        paths_ascending(old(out)@),
        forall|q: int| 0 <= q < old(out)@.len() ==> (#[trigger] old(out)@[q]).path@ != item.path@,
    ensures
        paths_ascending(final(out)@),
        forall|v: VanishedRepo| #[trigger]
            final(out)@.contains(v) <==> (old(out)@.contains(v) || v == item),
{
    let ghost before = out@;
    let key = chars_of(item.path.as_str());
    let mut pos: usize = 0;
    while pos < out.len() && !lt(&key, &chars_of(out[pos].path.as_str()))
        invariant
            pos <= out@.len(),
            before == out@,
            key@ == item.path@,
            forall|q: int| 0 <= q < pos ==> !seq_lt(key@, #[trigger] before[q].path@),
        decreases out@.len() - pos,
    {
        pos = pos + 1;
    }
    proof {
        if pos < before.len() {
            assert(seq_lt(key@, before[pos as int].path@));
        }
        lemma_insert_sorted(before, pos as int, item);
    }
    out.insert(pos, item);
    assert forall|v: VanishedRepo| #[trigger] out@.contains(v) <==> (before.contains(v) || v == item) by {
        if out@.contains(v) {
            let a = choose|a: int| 0 <= a < out@.len() && out@[a] == v;
            if a < pos {
                assert(before[a] == v);
            } else if a > pos {
                assert(before[a - 1] == v);
            }
        }
        if before.contains(v) {
            let a = choose|a: int| 0 <= a < before.len() && before[a] == v;
            if a < pos {
                assert(out@[a] == v);
            } else {
                assert(out@[a + 1] == v);
            }
        }
        if v == item {
            assert(out@[pos as int] == v);
        }
    }
}

/// `v` reports a path of the ledger `m` that is reported at `now`, with
/// the times the ledger holds for it.
pub open spec fn reports(m: Map<Seq<char>, SeenRepo>, v: VanishedRepo, now: u64) -> bool {
    &&& reported(m, v.path@, now)
    &&& m[v.path@].last_seen_secs == v.last_seen_secs
    &&& m[v.path@].first_vanished_secs == Some(v.first_vanished_secs)
}

/// The vanished repositories of the ledger at `now`, ordered by path:
/// exactly the reported paths, each with its ledger times.
pub fn detect_vanished_repos(ledger: &SeenLedger, now_secs: u64) -> (r: Vec<VanishedRepo>)
    requires
        ledger.wf(),
    ensures
        paths_ascending(r@),
        forall|a: int| 0 <= a < r@.len() ==> reports(ledger@, #[trigger] r@[a], now_secs),
        forall|k: Seq<char>|
            reported(ledger@, k, now_secs) ==> exists|a: int| 0 <= a < r@.len() && (#[trigger] r@[a]).path@ == k,
{
    let ghost s = entry_seq(ledger.entries@);
    let ghost m = ledger@;
    proof {
        lemma_ledger_map(s);
    }
    let mut out: Vec<VanishedRepo> = Vec::new();
    let mut i: usize = 0;
    while i < ledger.entries.len()
        invariant
            i <= ledger.entries@.len(),
            s == entry_seq(ledger.entries@),
            m == ledger@,
            unique_keys(s),
            forall|j: int| 0 <= j < s.len() ==> m[(#[trigger] s[j]).0] == s[j].1,
            forall|k: Seq<char>| #[trigger]
                m.dom().contains(k) <==> exists|j: int| 0 <= j < s.len() && s[j].0 == k,
            paths_ascending(out@),
            forall|v: VanishedRepo| #[trigger] out@.contains(v) ==> reports(m, v, now_secs) && exists|j: int|
                0 <= j < i && s[j].0 == v.path@,
            forall|j: int|
                0 <= j < i && reported(m, #[trigger] s[j].0, now_secs) ==> exists|v: VanishedRepo|
                    #[trigger] out@.contains(v) && v.path@ == s[j].0,
        decreases ledger.entries@.len() - i,
    {
        let key = chars_of(ledger.entries[i].0.as_str());
        let e = ledger.entries[i].1;
        assert(s[i as int] == (key@, e));
        assert(m.dom().contains(key@));
        assert(m[key@] == e);
        let ghost before = out@;
        match e.first_vanished_secs {
            Some(first) => {
                let age: u64 = if now_secs >= first {
                    now_secs - first
                } else {
                    0
                };
                if age < VANISHED_ENTRY_TTL_SECS {
                    let item = VanishedRepo {
                        path: string_of(&key),
                        last_seen_secs: e.last_seen_secs,
                        first_vanished_secs: first,
                    };
                    assert forall|q: int| 0 <= q < before.len() implies (#[trigger] before[q]).path@
                        != item.path@ by {
                        assert(before.contains(before[q]));
                        let j = choose|j: int| 0 <= j < i && s[j].0 == before[q].path@;
                        assert(s[j].0 != s[i as int].0);
                    }
                    insert_by_path(&mut out, item);
                    assert(out@.contains(item));
                    assert forall|j: int|
                        0 <= j < i + 1 && reported(m, #[trigger] s[j].0, now_secs) implies exists|
                        v: VanishedRepo,
                    | #[trigger] out@.contains(v) && v.path@ == s[j].0 by {
                        if j == i {
                            assert(out@.contains(item) && item.path@ == s[j].0);
                        } else {
                            let v = choose|v: VanishedRepo| #[trigger]
                                before.contains(v) && v.path@ == s[j].0;
                            assert(out@.contains(v));
                        }
                    }
                } else {
                    assert(!reported(m, s[i as int].0, now_secs));
                    assert(out@ == before);
                }
            },
            None => {
                assert(!reported(m, s[i as int].0, now_secs));
            },
        }
        i = i + 1;
    }
    proof {
        assert forall|a: int| 0 <= a < out@.len() implies reports(ledger@, #[trigger] out@[a], now_secs) by {
            assert(out@.contains(out@[a]));
        }
        assert forall|k: Seq<char>| reported(ledger@, k, now_secs) implies exists|a: int|
            0 <= a < out@.len() && (#[trigger] out@[a]).path@ == k by {
            let j = choose|j: int| 0 <= j < s.len() && s[j].0 == k;
            assert(reported(m, s[j].0, now_secs));
            let v = choose|v: VanishedRepo| #[trigger] out@.contains(v) && v.path@ == s[j].0;
            let a = choose|a: int| 0 <= a < out@.len() && out@[a] == v;
            assert(out@[a].path@ == k);
        }
    }
    out
}

// ---------------------------------------------------------------------
// Where the ledger lives
// ---------------------------------------------------------------------

/// The ledger file beside the policy file, or the bare file name when
/// the policy path has no parent.
pub open spec fn ledger_path(policy_path: Seq<char>) -> Seq<char> {
    match path_parent_result(policy_path) {
        Some(p) => path_join(p, SEEN_LEDGER_FILE@),
        None => SEEN_LEDGER_FILE@,
    }
}

/// The path of the ledger file for the policy file at `policy_path`.
pub fn seen_ledger_path(policy_path: &str) -> (r: String)
    ensures
        r@ == ledger_path(policy_path@),
{
    match path_parent(policy_path) {
        Some(p) => string_of(&path_join_of(&chars_of(p.as_str()), &chars_of(SEEN_LEDGER_FILE))),
        None => string_of(&chars_of(SEEN_LEDGER_FILE)),
    }
}

} // verus!
