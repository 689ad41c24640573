//! The git hooks that refuse history rewrites (non-fast-forward pushes,
//! branch deletions, rebases of published commits), how an existing
//! hook file is handled when they are installed, and the automatic
//! `git gc` of dangling garbage.

use vstd::prelude::*;
use crate::path::{is_absolute, path_join, path_join_of};
use crate::text::{
    chars_of, contains, contains_of, lines, lines_of, parse_u64, parse_u64_of, string_of,
    strip_prefix, strip_prefix_of, trim, trim_of, views,
};

verus! {

broadcast use vstd::string::group_string_axioms;

/// The line that marks a hook file as managed by this program.
pub const HOOK_MARKER: &'static str = "# dracon-sync-managed";

/// The managed `pre-push` hook: refuses non-fast-forward pushes and
/// branch deletions unless `DRACON_ALLOW_REWRITE` is set, after running
/// a preserved foreign hook.
pub const PRE_PUSH_HOOK: &'static str = r#"#!/bin/sh
# dracon-sync-managed — history-rewrite guard (v0.113.0)
# Refuse non-fast-forward pushes and branch deletions. An amended or
# rebased commit that was already pushed can never be fast-forward,
# so this blocks history rewrites while leaving normal pushes (and
# amends of UNPUSHED commits) untouched.
# Bypass deliberately: DRACON_ALLOW_REWRITE=1 git push --force ...
if [ -n "$DRACON_ALLOW_REWRITE" ]; then exit 0; fi

# Preserve stdin for our own ff-checks after any chained hook runs.
tmp="$(mktemp 2>/dev/null || echo /tmp/dracon-pre-push.$$)"
cat > "$tmp"

# Chain a pre-existing hook saved by the installer; honor its verdict.
if [ -x "$0.pre-dracon" ]; then
    "$0.pre-dracon" "$@" < "$tmp"
    rc=$?
    if [ $rc -ne 0 ]; then rm -f "$tmp"; exit $rc; fi
fi

while read -r local_ref local_sha remote_ref remote_sha; do
    # New ref on the remote: nothing to rewrite.
    if [ "$remote_sha" = "0000000000000000000000000000000000000000" ]; then
        continue
    fi
    # Branch deletion.
    if [ "$local_sha" = "0000000000000000000000000000000000000000" ]; then
        echo "dracon-sync: refusing to delete $remote_ref (history guard)." >&2
        echo "  Bypass: DRACON_ALLOW_REWRITE=1" >&2
        rm -f "$tmp"; exit 1
    fi
    # Non-fast-forward: the remote tip is not an ancestor of ours.
    if ! git merge-base --is-ancestor "$remote_sha" "$local_sha" 2>/dev/null; then
        echo "dracon-sync: refusing non-fast-forward push to $remote_ref (history rewrite)." >&2
        echo "  Merge instead: git pull --no-rebase" >&2
        echo "  Bypass: DRACON_ALLOW_REWRITE=1" >&2
        rm -f "$tmp"; exit 1
    fi
done < "$tmp"
rm -f "$tmp"
exit 0
"#;

/// The managed `pre-rebase` hook: refuses rebasing commits that a
/// remote-tracking branch already contains, unless
/// `DRACON_ALLOW_REWRITE` is set, after running a preserved foreign
/// hook.
pub const PRE_REBASE_HOOK: &'static str = r#"#!/bin/sh
# dracon-sync-managed — history-rewrite guard (v0.113.0)
# Refuse rebases that would rewrite commits already published to any
# remote. Rebasing unpushed local work is fine (including
# 'git pull --rebase' of commits the daemon has not pushed yet).
# Bypass deliberately: DRACON_ALLOW_REWRITE=1 git rebase ...
if [ -n "$DRACON_ALLOW_REWRITE" ]; then exit 0; fi

# Chain a pre-existing hook saved by the installer; honor its verdict.
if [ -x "$0.pre-dracon" ]; then
    "$0.pre-dracon" "$@" || exit $?
fi

upstream="$1"
[ -z "$upstream" ] && exit 0

for c in $(git rev-list "$upstream"..HEAD 2>/dev/null | head -100); do
    if [ -n "$(git branch -r --contains "$c" 2>/dev/null)" ]; then
        echo "dracon-sync: refusing rebase — $c is already published on a remote." >&2
        echo "  Rebasing it would rewrite pushed history and diverge the fleet mirrors." >&2
        echo "  Merge instead: git pull --no-rebase" >&2
        echo "  Bypass: DRACON_ALLOW_REWRITE=1" >&2
        exit 1
    fi
done
exit 0
"#;

/// What installing one managed hook does to its file.
#[derive(Debug, Clone, Copy, PartialEq, Eq)]
pub enum HookAction {
    /// No file was there: ours is written.
    Installed,
    /// A managed file with other content: rewritten with ours.
    Updated,
    /// A foreign hook: moved to `<name>.pre-dracon` (which ours runs
    /// first), then ours is written.
    ChainedForeign,
    /// Already ours and current: nothing is written.
    Current,
}

/// The word logged for an action.
pub open spec fn action_label(a: HookAction) -> Seq<char> {
    match a {
        HookAction::Installed => "installed"@,
        HookAction::Updated => "updated"@,
        HookAction::ChainedForeign => "chained foreign hook + installed"@,
        HookAction::Current => "current"@,
    }
}

pub fn label(a: HookAction) -> (r: &'static str)
    ensures
        r@ == action_label(a),
{
    match a {
        HookAction::Installed => "installed",
        HookAction::Updated => "updated",
        HookAction::ChainedForeign => "chained foreign hook + installed",
        HookAction::Current => "current",
    }
}

/// The action for a hook file given its current text (`None` when the
/// file does not exist; an unreadable file reads as empty) and the
/// text of the managed hook: a file with the marker is ours.
pub open spec fn hook_action(existing: Option<Seq<char>>, content: Seq<char>) -> HookAction {
    match existing {
        None => HookAction::Installed,
        Some(e) => if contains(e, HOOK_MARKER@) {
            if e == content {
                HookAction::Current
            } else {
                HookAction::Updated
            }
        } else {
            HookAction::ChainedForeign
        },
    }
}

/// What to do with one hook file (see [`hook_action`]).
pub fn plan_hook_install(existing: Option<&str>, content: &str) -> (a: HookAction)
    ensures
        a == hook_action(
            match existing {
                Some(e) => Some(e@),
                None => None,
            },
            content@,
        ),
{
    match existing {
        None => HookAction::Installed,
        Some(e) => {
            let ev = chars_of(e);
            if contains_of(&ev, &chars_of(HOOK_MARKER)) {
                if crate::text::eq(&ev, &chars_of(content)) {
                    HookAction::Current
                } else {
                    HookAction::Updated
                }
            } else {
                HookAction::ChainedForeign
            }
        },
    }
}

/// Installing a managed hook twice changes nothing the second time: a
/// file that already holds the managed text (which carries the marker)
/// is current; a file without the marker is always treated as foreign
/// and preserved.
pub proof fn lemma_hook_install_idempotent(content: Seq<char>, existing: Seq<char>)
    requires
        contains(content, HOOK_MARKER@),
    ensures
        hook_action(Some(content), content) == HookAction::Current,
        !contains(existing, HOOK_MARKER@) ==> hook_action(Some(existing), content)
            == HookAction::ChainedForeign,
{
}

/// Where a foreign hook `name` is kept: `<name>.pre-dracon`.
pub fn preserved_hook_name(name: &str) -> (r: String)
    ensures
        r@ == name@ + ".pre-dracon"@,
{
    let mut v = chars_of(name);
    crate::text::push_all(&mut v, &chars_of(".pre-dracon"));
    string_of(&v)
}

/// The hooks directory from the output of `git rev-parse --git-path
/// hooks` run in `repo`: `None` when blank; a relative answer is taken
/// from `repo`.
pub open spec fn hooks_dir_of(repo: Seq<char>, output: Seq<char>) -> Option<Seq<char>> {
    let p = trim(output);
    if p.len() == 0 {
        None
    } else if is_absolute(p) {
        Some(p)
    } else {
        Some(path_join(repo, p))
    }
}

/// The hooks directory of `repo` (see [`hooks_dir_of`]).
pub fn hooks_dir(repo: &str, git_path_output: &str) -> (r: Option<String>)
    ensures
        r is Some <==> hooks_dir_of(repo@, git_path_output@) is Some,
        r matches Some(s) ==> hooks_dir_of(repo@, git_path_output@) == Some(s@),
{
    let p = trim_of(&chars_of(git_path_output));
    if p.len() == 0 {
        None
    } else if p[0] == '/' {
        Some(string_of(&p))
    } else {
        Some(string_of(&path_join_of(&chars_of(repo), &p)))
    }
}

// ---------------------------------------------------------------------
// Automatic garbage collection
// ---------------------------------------------------------------------

/// The `size-garbage` value (KiB) of `git count-objects -v` output: the
/// first line starting with `size-garbage:`, its rest parsed, 0 when it
/// does not parse or there is no such line.
pub open spec fn garbage_kib(lines: Seq<Seq<char>>) -> u64
    decreases lines.len(),
{
    if lines.len() == 0 {
        0
    } else {
        match strip_prefix(lines[0], "size-garbage:"@) {
            Some(rest) => match parse_u64(trim(rest)) {
                Some(n) => n,
                None => 0,
            },
            None => garbage_kib(lines.drop_first()),
        }
    }
}

/// The `size-garbage` value (KiB) of `git count-objects -v` output
/// (see [`garbage_kib`]).
pub fn count_objects_garbage_kib(stdout: &str) -> (n: u64)
    ensures
        n == garbage_kib(lines(stdout@)),
{
    let ls = lines_of(&chars_of(stdout));
    let ghost lv = views(ls@);
    let prefix = chars_of("size-garbage:");
    let mut i: usize = 0;
    assert(lv.skip(0) =~= lv);
    while i < ls.len()
        invariant
            i <= ls@.len(),
            lv == views(ls@),
            lv == lines(stdout@),
            prefix@ == "size-garbage:"@,
            garbage_kib(lv) == garbage_kib(lv.skip(i as int)),
        decreases ls@.len() - i,
    {
        assert(lv.skip(i as int)[0] == ls@[i as int]@);
        match strip_prefix_of(&ls[i], &prefix) {
            Some(rest) => {
                return match parse_u64_of(&trim_of(&rest)) {
                    Some(n) => n,
                    None => 0,
                };
            },
            None => {},
        }
        assert(lv.skip(i as int).drop_first() =~= lv.skip(i + 1));
        i = i + 1;
    }
    0
}

/// The dangling garbage in bytes reported by `git count-objects -v`
/// (its values are KiB).
pub fn parse_count_objects_garbage_bytes(stdout: &str) -> (n: u64)
    requires
        garbage_kib(lines(stdout@)) * 1024 <= u64::MAX,
    ensures
        n == garbage_kib(lines(stdout@)) * 1024,
{
    count_objects_garbage_kib(stdout) * 1024
}

/// Whether automatic `git gc` is on: a threshold of 0 turns it off.
pub fn auto_gc_enabled(threshold_bytes: u64) -> (b: bool)
    ensures
        b == (threshold_bytes != 0),
{
    threshold_bytes != 0
}

/// Given the output of a successful `git count-objects -v` (`None` when
/// it failed): the garbage size when a `git gc --prune=now` is due
/// (automatic gc on, garbage at or over the threshold). A threshold of
/// 0 gives `None` without reading the output.
pub fn maybe_auto_gc(threshold_bytes: u64, count_objects_output: Option<&str>) -> (r: Option<u64>)
    requires
        threshold_bytes != 0 && count_objects_output is Some ==> garbage_kib(
            lines(count_objects_output->0@),
        ) * 1024 <= u64::MAX,
    ensures
        threshold_bytes == 0 ==> r is None,
        threshold_bytes != 0 && count_objects_output is None ==> r is None,
        threshold_bytes != 0 && count_objects_output is Some ==> (if garbage_kib(
            lines(count_objects_output->0@),
        ) * 1024 >= threshold_bytes {
            r == Some((garbage_kib(lines(count_objects_output->0@)) * 1024) as u64)
        } else {
            r is None
        }),
{
    if threshold_bytes == 0 {
        return None;
    }
    match count_objects_output {
        None => None,
        Some(o) => {
            let garbage = parse_count_objects_garbage_bytes(o);
            if garbage < threshold_bytes {
                None
            } else {
                Some(garbage)
            }
        },
    }
}

} // verus!
