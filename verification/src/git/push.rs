//! Push decisions: how git's error text is classified, which refspec a
//! push names, which HTTPS fallbacks are tried, and the retry schedule
//! of the SSH push.

use vstd::prelude::*;
use crate::git::discovery::{
    is_safe_branch_name, lemma_plain_branch_names_are_safe, plain_branch_char, plain_branch_name,
    safe_branch_name,
};
use crate::sys::{to_lowercase, unicode_lowercase};
use crate::text::{chars_of, contains, contains_of, matches_at, push_all, string_of};

verus! {

broadcast use vstd::string::group_string_axioms;

// ---------------------------------------------------------------------
// Classifying push errors
// ---------------------------------------------------------------------

/// A push refused because the remote moved on (fetch or merge first).
pub open spec fn push_rejected(m: Seq<char>) -> bool {
    ||| contains(m, "rejected"@)
    ||| contains(m, "non-fast-forward"@)
    ||| contains(m, "fetch first"@)
    ||| contains(m, "[rejected]"@)
}

/// Whether git's error text `err_msg` reports a rejected push.
pub fn is_push_rejected(err_msg: &str) -> (b: bool)
    ensures
        b == push_rejected(err_msg@),
{
    let m = chars_of(err_msg);
    contains_of(&m, &chars_of("rejected")) || contains_of(&m, &chars_of("non-fast-forward"))
        || contains_of(&m, &chars_of("fetch first")) || contains_of(&m, &chars_of("[rejected]"))
}

/// A refusal that no retry can fix: a server-side policy (protected
/// branch, declined hook, deny rule), a missing forge repository, or a
/// key without access.
pub open spec fn permanent_push_rejection(m: Seq<char>) -> bool {
    ||| contains(m, "pre-receive hook declined"@)
    ||| contains(m, "protected branch"@)
    ||| contains(m, "not allowed to push"@)
    ||| contains(m, "deny updating"@)
    ||| contains(m, "hook declined"@)
    ||| contains(m, "Repository not found"@)
    ||| contains(m, "repository does not exist"@)
    ||| contains(m, "Push to create is not enabled"@)
    ||| contains(m, "The project you were looking for could not be found"@)
    ||| contains(m, "Permission denied (publickey)"@)
}

/// Whether git's error text `err_msg` reports a permanent refusal.
pub fn is_permanent_push_rejection(err_msg: &str) -> (b: bool)
    ensures
        b == permanent_push_rejection(err_msg@),
{
    let m = chars_of(err_msg);
    contains_of(&m, &chars_of("pre-receive hook declined")) || contains_of(
        &m,
        &chars_of("protected branch"),
    ) || contains_of(&m, &chars_of("not allowed to push")) || contains_of(
        &m,
        &chars_of("deny updating"),
    ) || contains_of(&m, &chars_of("hook declined")) || contains_of(
        &m,
        &chars_of("Repository not found"),
    ) || contains_of(&m, &chars_of("repository does not exist")) || contains_of(
        &m,
        &chars_of("Push to create is not enabled"),
    ) || contains_of(&m, &chars_of("The project you were looking for could not be found"))
        || contains_of(&m, &chars_of("Permission denied (publickey)"))
}

/// The markers of a pack or file over the remote's size limit, looked
/// for in lowercased error text.
pub open spec fn pack_size_marker(lowered: Seq<char>) -> bool {
    ||| contains(lowered, "gh001"@)
    ||| contains(lowered, "large files detected"@)
    ||| contains(lowered, "pack exceeds"@)
    ||| contains(lowered, "exceeds the maximum allowed size"@)
    ||| contains(lowered, "maximum allowed size"@)
    ||| contains(lowered, "remote error: pack"@)
    ||| contains(lowered, "pack is too large"@)
    ||| contains(lowered, "deny updating a hidden ref"@)
}

/// Whether already lowercased error text carries a size-limit marker.
pub fn has_pack_size_marker(lowered: &str) -> (b: bool)
    ensures
        b == pack_size_marker(lowered@),
{
    let m = chars_of(lowered);
    contains_of(&m, &chars_of("gh001")) || contains_of(&m, &chars_of("large files detected"))
        || contains_of(&m, &chars_of("pack exceeds")) || contains_of(
        &m,
        &chars_of("exceeds the maximum allowed size"),
    ) || contains_of(&m, &chars_of("maximum allowed size")) || contains_of(
        &m,
        &chars_of("remote error: pack"),
    ) || contains_of(&m, &chars_of("pack is too large")) || contains_of(
        &m,
        &chars_of("deny updating a hidden ref"),
    )
}

/// A push refused for its size (matched without regard to case).
pub open spec fn pack_too_large(m: Seq<char>) -> bool {
    pack_size_marker(unicode_lowercase(m))
}

/// Whether git's error text `err_msg` reports a pack or file over the
/// remote's size limit, ignoring case.
pub fn is_pack_too_large(err_msg: &str) -> (b: bool)
    ensures
        b == pack_too_large(err_msg@),
{
    let lower = to_lowercase(err_msg);
    has_pack_size_marker(lower.as_str())
}

/// An error after which the push stops at once: neither a retry, a
/// pull nor another transport can fix it.
pub open spec fn push_error_is_final(m: Seq<char>) -> bool {
    permanent_push_rejection(m) || pack_too_large(m)
}

/// Each documented marker of a rejected push (the remote moved on, so a
/// pull comes first) makes the error a rejection.
pub proof fn lemma_push_rejected_markers(m: Seq<char>)
    ensures
        contains(m, "rejected"@) ==> push_rejected(m),
        contains(m, "non-fast-forward"@) ==> push_rejected(m),
        contains(m, "fetch first"@) ==> push_rejected(m),
        contains(m, "[rejected]"@) ==> push_rejected(m),
{
}

/// Each documented marker of a size refusal, found in the lowercased
/// error text, makes the error final: the push stops and no HTTPS
/// fallback is tried.
pub proof fn lemma_pack_size_markers(m: Seq<char>, current: Option<Seq<char>>)
    ensures
        ({
            let l = unicode_lowercase(m);
            &&& contains(l, "gh001"@) ==> pack_too_large(m)
            &&& contains(l, "large files detected"@) ==> pack_too_large(m)
            &&& contains(l, "pack exceeds"@) ==> pack_too_large(m)
            &&& contains(l, "exceeds the maximum allowed size"@) ==> pack_too_large(m)
            &&& contains(l, "maximum allowed size"@) ==> pack_too_large(m)
            &&& contains(l, "remote error: pack"@) ==> pack_too_large(m)
            &&& contains(l, "pack is too large"@) ==> pack_too_large(m)
            &&& contains(l, "deny updating a hidden ref"@) ==> pack_too_large(m)
            &&& pack_too_large(m) ==> push_error_is_final(m) && fallback_refspec(m, current) is None
        }),
{
}

/// Every documented marker of a server-side policy, a missing forge
/// repository or a key without access makes the error permanent, and a
/// permanent error ends the push: no HTTPS fallback is tried for it.
pub proof fn lemma_permanent_rejection_markers(m: Seq<char>, current: Option<Seq<char>>)
    ensures
        contains(m, "pre-receive hook declined"@) ==> permanent_push_rejection(m),
        contains(m, "protected branch"@) ==> permanent_push_rejection(m),
        contains(m, "not allowed to push"@) ==> permanent_push_rejection(m),
        contains(m, "deny updating"@) ==> permanent_push_rejection(m),
        contains(m, "hook declined"@) ==> permanent_push_rejection(m),
        contains(m, "Repository not found"@) ==> permanent_push_rejection(m),
        contains(m, "repository does not exist"@) ==> permanent_push_rejection(m),
        contains(m, "Push to create is not enabled"@) ==> permanent_push_rejection(m),
        contains(m, "The project you were looking for could not be found"@)
            ==> permanent_push_rejection(m),
        contains(m, "Permission denied (publickey)"@) ==> permanent_push_rejection(m),
        permanent_push_rejection(m) ==> push_error_is_final(m) && fallback_refspec(m, current)
            is None,
{
}

// ---------------------------------------------------------------------
// Refspecs
// ---------------------------------------------------------------------

/// The refspec of the SSH push: `HEAD` on a branch, and the full ref of
/// `main` on a detached HEAD (which names no branch).
pub open spec fn ssh_refspec(on_branch: bool) -> Seq<char> {
    if on_branch {
        "HEAD"@
    } else {
        "HEAD:refs/heads/main"@
    }
}

pub fn ssh_push_refspec(on_branch: bool) -> (r: String)
    ensures
        r@ == ssh_refspec(on_branch),
{
    if on_branch {
        string_of(&chars_of("HEAD"))
    } else {
        string_of(&chars_of("HEAD:refs/heads/main"))
    }
}

/// The branch the HTTPS fallback pushes: the current one, else `main`.
pub open spec fn fallback_branch(current: Option<Seq<char>>) -> Seq<char> {
    match current {
        Some(b) => b,
        None => "main"@,
    }
}

/// After the SSH push failed with `err_msg`: the refspec for the HTTPS
/// fallbacks, or `None` when the error is final or the branch name is
/// unsafe (the SSH error is then the result).
pub open spec fn fallback_refspec(err_msg: Seq<char>, current: Option<Seq<char>>) -> Option<
    Seq<char>,
> {
    if push_error_is_final(err_msg) || !safe_branch_name(fallback_branch(current)) {
        None
    } else {
        Some("HEAD:refs/heads/"@ + fallback_branch(current))
    }
}

/// After an error that does not end the push, the HTTPS fallback
/// pushes `HEAD` to the current branch whenever the branch name is safe
/// (see [`lemma_plain_branch_names_are_safe`], which covers names such
/// as `release-1.2`), and to `main` when there is no current branch.
pub proof fn lemma_fallback_pushes_current_branch(err_msg: Seq<char>, branch: Seq<char>)
    requires
        !push_error_is_final(err_msg),
    ensures
        safe_branch_name(branch) ==> fallback_refspec(err_msg, Some(branch)) == Some(
            "HEAD:refs/heads/"@ + branch,
        ),
        plain_branch_name(branch) ==> fallback_refspec(err_msg, Some(branch)) == Some(
            "HEAD:refs/heads/"@ + branch,
        ),
        fallback_refspec(err_msg, None) == Some("HEAD:refs/heads/main"@),
{
    lemma_plain_branch_names_are_safe(branch);
    lemma_plain_branch_names_are_safe("main"@);
    reveal_strlit("main");
    assert(plain_branch_name("main"@)) by {
        assert forall|i: int| 0 <= i < "main"@.len() implies plain_branch_char(
            #[trigger] "main"@[i],
        ) by {}
        let dd = seq!['.', '.'];
        let mn = "main"@;
        assert(!contains(mn, dd)) by {
            if contains(mn, dd) {
                let i = choose|i: int| #[trigger] matches_at(mn, dd, i);
                assert(mn.subrange(i, i + 2)[0] == mn[i]);
            }
        }
    }
    reveal_strlit("HEAD:refs/heads/");
    reveal_strlit("HEAD:refs/heads/main");
    assert("HEAD:refs/heads/"@ + "main"@ =~= "HEAD:refs/heads/main"@);
}

/// The refspec for the HTTPS fallbacks after an SSH push error (see
/// [`fallback_refspec`]).
pub fn https_fallback_refspec(err_msg: &str, current_branch: Option<&str>) -> (r: Option<String>)
    ensures
        r is Some <==> fallback_refspec(
            err_msg@,
            match current_branch {
                Some(b) => Some(b@),
                None => None,
            },
        ) is Some,
        r matches Some(v) ==> fallback_refspec(
            err_msg@,
            match current_branch {
                Some(b) => Some(b@),
                None => None,
            },
        ) == Some(v@),
{
    if is_permanent_push_rejection(err_msg) || is_pack_too_large(err_msg) {
        return None;
    }
    let branch = match current_branch {
        Some(b) => chars_of(b),
        None => chars_of("main"),
    };
    let bs = string_of(&branch);
    if !is_safe_branch_name(bs.as_str()) {
        return None;
    }
    let mut v = chars_of("HEAD:refs/heads/");
    push_all(&mut v, &branch);
    Some(string_of(&v))
}

// ---------------------------------------------------------------------
// HTTPS fallbacks
// ---------------------------------------------------------------------

/// The forges with an HTTPS fallback, in the order they are tried.
#[derive(Debug, Clone, Copy, PartialEq, Eq)]
pub enum HttpsForge {
    GitHub,
    GitLab,
    Codeberg,
}

impl HttpsForge {
    /// The suffix of the operation label of a push to this forge.
    pub open spec fn spec_label_suffix(self) -> Seq<char> {
        match self {
            HttpsForge::GitHub => "-github-https"@,
            HttpsForge::GitLab => "-gitlab-https"@,
            HttpsForge::Codeberg => "-codeberg-https"@,
        }
    }

    pub fn label_suffix(&self) -> (r: String)
        ensures
            r@ == self.spec_label_suffix(),
    {
        match self {
            HttpsForge::GitHub => string_of(&chars_of("-github-https")),
            HttpsForge::GitLab => string_of(&chars_of("-gitlab-https")),
            HttpsForge::Codeberg => string_of(&chars_of("-codeberg-https")),
        }
    }
}

/// One HTTPS push to try: the forge, its URL, and the token handed to
/// git through `GIT_ASKPASS` (none for GitHub, whose credential helper
/// is used).
#[derive(Debug, Clone)]
pub struct HttpsPushAttempt {
    pub forge: HttpsForge,
    pub url: String,
    pub token: Option<String>,
}

pub type AttemptView = (HttpsForge, Seq<char>, Option<Seq<char>>);

impl View for HttpsPushAttempt {
    type V = AttemptView;

    open spec fn view(&self) -> AttemptView {
        (
            self.forge,
            self.url@,
            match self.token {
                Some(t) => Some(t@),
                None => None,
            },
        )
    }
}

pub open spec fn opt_view(o: Option<&str>) -> Option<Seq<char>> {
    match o {
        Some(s) => Some(s@),
        None => None,
    }
}

/// The HTTPS pushes to try, in order: GitHub when the remote has a
/// GitHub HTTPS form; GitLab and Codeberg when the remote has their
/// HTTPS form and a token is configured for them.
pub open spec fn https_attempts(
    github: Option<Seq<char>>,
    gitlab: Option<Seq<char>>,
    gitlab_token: Option<Seq<char>>,
    codeberg: Option<Seq<char>>,
    codeberg_token: Option<Seq<char>>,
) -> Seq<AttemptView> {
    let a = match github {
        Some(u) => seq![(HttpsForge::GitHub, u, None::<Seq<char>>)],
        None => Seq::empty(),
    };
    let b = match (gitlab, gitlab_token) {
        (Some(u), Some(t)) => a.push((HttpsForge::GitLab, u, Some(t))),
        _ => a,
    };
    match (codeberg, codeberg_token) {
        (Some(u), Some(t)) => b.push((HttpsForge::Codeberg, u, Some(t))),
        _ => b,
    }
}

/// The HTTPS pushes to try (see [`https_attempts`]), given the HTTPS
/// forms of the remote URL and the configured tokens.
pub fn https_push_attempts(
    github_url: Option<&str>,
    gitlab_url: Option<&str>,
    gitlab_token: Option<&str>,
    codeberg_url: Option<&str>,
    codeberg_token: Option<&str>,
) -> (r: Vec<HttpsPushAttempt>)
    ensures
        r@.map_values(|a: HttpsPushAttempt| a@) == https_attempts(
            opt_view(github_url),
            opt_view(gitlab_url),
            opt_view(gitlab_token),
            opt_view(codeberg_url),
            opt_view(codeberg_token),
        ),
{
    let mut out: Vec<HttpsPushAttempt> = Vec::new();
    if let Some(u) = github_url {
        out.push(
            HttpsPushAttempt { forge: HttpsForge::GitHub, url: string_of(&chars_of(u)), token: None },
        );
    }
    let ghost a = out@.map_values(|a: HttpsPushAttempt| a@);
    if let (Some(u), Some(t)) = (gitlab_url, gitlab_token) {
        out.push(
            HttpsPushAttempt {
                forge: HttpsForge::GitLab,
                url: string_of(&chars_of(u)),
                token: Some(string_of(&chars_of(t))),
            },
        );
        assert(out@.map_values(|a: HttpsPushAttempt| a@) =~= a.push((HttpsForge::GitLab, u@, Some(t@))));
    }
    let ghost b = out@.map_values(|a: HttpsPushAttempt| a@);
    if let (Some(u), Some(t)) = (codeberg_url, codeberg_token) {
        out.push(
            HttpsPushAttempt {
                forge: HttpsForge::Codeberg,
                url: string_of(&chars_of(u)),
                token: Some(string_of(&chars_of(t))),
            },
        );
        assert(out@.map_values(|a: HttpsPushAttempt| a@) =~= b.push((HttpsForge::Codeberg, u@, Some(t@))));
    }
    proof {
        let e = Seq::<AttemptView>::empty();
        assert(a =~= match opt_view(github_url) {
            Some(u) => seq![(HttpsForge::GitHub, u, None::<Seq<char>>)],
            None => e,
        });
    }
    out
}

// ---------------------------------------------------------------------
// The retry schedule of the SSH push
// ---------------------------------------------------------------------

/// The longest pause between two pushes, in seconds.
pub const MAX_PUSH_BACKOFF_SECS: u64 = 5;

/// What the push loop does next.
#[derive(Debug, Clone, Copy, PartialEq, Eq)]
pub enum PushAction {
    /// Give up now with the error just reported.
    Fail,
    /// Pull `origin HEAD` (no rebase), then report how it went.
    Pull,
    /// Push again right away.
    Push,
    /// Wait this many seconds, then push again.
    SleepThenPush(u64),
    /// The SSH pushes are used up: try the other transports; the last
    /// SSH error is the result if they fail too.
    Fallback,
}

/// Where the SSH push loop stands: the attempt under way (from 1), how
/// many attempts there are, and whether the one pull was made.
#[derive(Debug, Clone, Copy, PartialEq, Eq)]
pub struct PushRetry {
    pub attempt: u32,
    pub attempts: u32,
    pub tried_pull: bool,
}

impl PushRetry {
    pub open spec fn wf(self) -> bool {
        1 <= self.attempt <= self.attempts
    }

    /// Steps left before the loop must end: twice the attempts to go,
    /// plus one while the pull is unused.
    pub open spec fn budget(self) -> int {
        2 * (self.attempts - self.attempt) + if self.tried_pull {
            0int
        } else {
            1int
        }
    }

    /// The loop before its first push: `max(retries, 1)` attempts.
    pub fn new(retries: u32) -> (r: PushRetry)
        ensures
            r.wf(),
            r.attempt == 1,
            r.attempts == if retries == 0 {
                1
            } else {
                retries
            },
            !r.tried_pull,
    {
        let attempts = if retries == 0 {
            1
        } else {
            retries
        };
        PushRetry { attempt: 1, attempts, tried_pull: false }
    }

    /// Ends the current attempt without success: the next attempt,
    /// after a pause of `min(attempt, 5)` seconds, or the fallback when
    /// none is left.
    fn next_attempt(&mut self, pause: bool) -> (a: PushAction)
        requires
            old(self).wf(),
        ensures
            final(self).wf(),
            final(self).attempts == old(self).attempts,
            final(self).tried_pull == old(self).tried_pull,
            old(self).attempt < old(self).attempts ==> final(self).attempt == old(self).attempt + 1
                && a == if pause {
                PushAction::SleepThenPush(
                    if old(self).attempt < MAX_PUSH_BACKOFF_SECS {
                        old(self).attempt as u64
                    } else {
                        MAX_PUSH_BACKOFF_SECS
                    },
                )
            } else {
                PushAction::Push
            },
            old(self).attempt == old(self).attempts ==> final(self).attempt == old(self).attempt
                && a == PushAction::Fallback,
    {
        if self.attempt < self.attempts {
            let backoff: u64 = if (self.attempt as u64) < MAX_PUSH_BACKOFF_SECS {
                self.attempt as u64
            } else {
                MAX_PUSH_BACKOFF_SECS
            };
            self.attempt = self.attempt + 1;
            if pause {
                PushAction::SleepThenPush(backoff)
            } else {
                PushAction::Push
            }
        } else {
            PushAction::Fallback
        }
    }

    /// The SSH push failed with `err_msg`. A final error ends the loop;
    /// the first rejected push asks for a pull; otherwise the next
    /// attempt follows a pause, or the fallback when none is left.
    pub fn after_push_failure(&mut self, err_msg: &str) -> (a: PushAction)
        requires
            old(self).wf(),
        ensures
            final(self).wf(),
            final(self).attempts == old(self).attempts,
            push_error_is_final(err_msg@) ==> a == PushAction::Fail && *final(self) == *old(self),
            !push_error_is_final(err_msg@) && !old(self).tried_pull && push_rejected(err_msg@)
                ==> a == PushAction::Pull && final(self).tried_pull && final(self).attempt == old(
                self,
            ).attempt,
            !push_error_is_final(err_msg@) && (old(self).tried_pull || !push_rejected(err_msg@))
                ==> final(self).tried_pull == old(self).tried_pull && (if old(self).attempt < old(
                self,
            ).attempts {
                final(self).attempt == old(self).attempt + 1 && a == PushAction::SleepThenPush(
                    if old(self).attempt < MAX_PUSH_BACKOFF_SECS {
                        old(self).attempt as u64
                    } else {
                        MAX_PUSH_BACKOFF_SECS
                    },
                )
            } else {
                final(self).attempt == old(self).attempt && a == PushAction::Fallback
            }),
            a != PushAction::Fail && a != PushAction::Fallback ==> final(self).budget() < old(
                self,
            ).budget(),
    {
        if is_permanent_push_rejection(err_msg) || is_pack_too_large(err_msg) {
            return PushAction::Fail;
        }
        if !self.tried_pull && is_push_rejected(err_msg) {
            self.tried_pull = true;
            return PushAction::Pull;
        }
        self.next_attempt(true)
    }

    /// The pull asked for by [`PushRetry::after_push_failure`] is done.
    /// A good pull is part of the recovery: the same attempt pushes
    /// again at once. After a failed pull the next attempt follows the
    /// usual pause, or the fallback when no attempt is left.
    pub fn after_pull(&mut self, pull_ok: bool) -> (a: PushAction)
        requires
            old(self).wf(),
        ensures
            final(self).wf(),
            pull_ok ==> a == PushAction::Push && *final(self) == *old(self),
            !pull_ok ==> final(self).attempts == old(self).attempts && final(self).tried_pull == old(
                self,
            ).tried_pull,
            !pull_ok && old(self).attempt < old(self).attempts ==> final(self).attempt == old(
                self,
            ).attempt + 1 && a == PushAction::SleepThenPush(
                if old(self).attempt < MAX_PUSH_BACKOFF_SECS {
                    old(self).attempt as u64
                } else {
                    MAX_PUSH_BACKOFF_SECS
                },
            ),
            !pull_ok && old(self).attempt == old(self).attempts ==> final(self).attempt == old(
                self,
            ).attempt && a == PushAction::Fallback,
            !pull_ok && a != PushAction::Fallback ==> final(self).budget() < old(self).budget(),
    {
        if pull_ok {
            PushAction::Push
        } else {
            self.next_attempt(true)
        }
    }
}

/// Every failed push that leads to more work, and every failed pull,
/// uses up some of a budget fixed at the start, so the loop ends: at
/// most `max(retries, 1)` attempts, one pull, and one push again right
/// after a good pull, before it succeeds, fails or falls back.
pub proof fn lemma_push_retry_budget(r: PushRetry)
    requires
        r.wf(),
    ensures
        0 <= r.budget() <= 2 * r.attempts - 1,
{
}

} // verus!
