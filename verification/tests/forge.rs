use dracon_sync::forge::{
    forge_host_of_url, forge_incident_covers_repo, forge_incident_hosts, incident_shields_failure,
    observe_forge_hit, poll_forge_recovery, prune_host, url_host, ForgeHealth, ForgeHit,
    ForgeHostHealth, FORGE_INCIDENT_WINDOW_SECS,
};

#[test]
fn test_forge_host_of_url_matrix() {
    // scp-like
    assert_eq!(
        forge_host_of_url("git@github.com:DraconDev/repo.git"),
        Some("github.com".to_string())
    );
    assert_eq!(
        forge_host_of_url("git@gitlab.com:DraconDev/doomtap.git"),
        Some("gitlab.com".to_string())
    );
    // case normalization
    assert_eq!(
        forge_host_of_url("git@GitLab.COM:x/y.git"),
        Some("gitlab.com".to_string())
    );
    // scheme URLs with userinfo + port
    assert_eq!(
        forge_host_of_url("ssh://git@gitlab.com:22/DraconDev/x.git"),
        Some("gitlab.com".to_string())
    );
    assert_eq!(
        forge_host_of_url("ssh://127.0.0.1:9/unpushable.git"),
        Some("127.0.0.1".to_string())
    );
    assert_eq!(
        forge_host_of_url("https://user@github.com/org/repo.git"),
        Some("github.com".to_string())
    );
    assert_eq!(
        forge_host_of_url("https://codeberg.org/a/b"),
        Some("codeberg.org".to_string())
    );
    // synthetic test forges are hosts too
    assert_eq!(
        forge_host_of_url("ssh://git@forge-test.invalid:22/r.git"),
        Some("forge-test.invalid".to_string())
    );
    // local paths are NOT forges
    assert_eq!(forge_host_of_url("/tmp/scope-demo/repos/mirror.git"), None);
    assert_eq!(forge_host_of_url("./relative/path.git"), None);
    assert_eq!(forge_host_of_url("file:///srv/git/repo.git"), None);
    // ext:: carries a command, not a host
    assert_eq!(forge_host_of_url("ext::ssh -i key git@h x"), None);
    // garbage
    assert_eq!(forge_host_of_url(""), None);
    assert_eq!(forge_host_of_url("://"), None);
}

#[test]
fn test_forge_incident_declares_on_two_repos_recovers_on_quiet() {
    let mut health = ForgeHealth::new();
    let now = 1_800_000_000u64;
    // One repo is an anecdote, not an incident.
    assert!(!observe_forge_hit(&mut health, "gitlab.com", "/r/a", now));
    assert!(forge_incident_hosts(&health).is_empty());
    // Second distinct repo declares.
    assert!(observe_forge_hit(&mut health, "gitlab.com", "/r/b", now + 10));
    assert!(forge_incident_hosts(&health).contains(&"gitlab.com".to_string()));
    // Third hit: already declared, no second alert.
    assert!(!observe_forge_hit(&mut health, "gitlab.com", "/r/a", now + 20));
    // Same repo hammering never declares on its own.
    assert!(!observe_forge_hit(&mut health, "github.com", "/r/c", now));
    assert!(!observe_forge_hit(&mut health, "github.com", "/r/c", now + 30));
    assert!(!forge_incident_hosts(&health).contains(&"github.com".to_string()));
    // Window expiry recovers (alert once).
    let recovered = poll_forge_recovery(&mut health, now + FORGE_INCIDENT_WINDOW_SECS + 60);
    assert_eq!(recovered, vec!["gitlab.com".to_string()]);
    assert!(forge_incident_hosts(&health).is_empty());
    // Recovery is idempotent: no second alert.
    assert!(poll_forge_recovery(&mut health, now + FORGE_INCIDENT_WINDOW_SECS + 120).is_empty());
}

#[test]
fn test_forge_incident_covers_repo_latest_hit_wins() {
    let mut health = ForgeHealth::new();
    let now = 1_800_000_000u64;
    // Declare an incident on gitlab.com via two repos.
    observe_forge_hit(&mut health, "gitlab.com", "/r/a", now);
    observe_forge_hit(&mut health, "gitlab.com", "/r/b", now + 5);
    assert!(forge_incident_covers_repo(&health, "/r/a"));
    assert!(!forge_incident_covers_repo(&health, "/r/never-seen"));
    // A LATER hit on a healthy host moves coverage away.
    observe_forge_hit(&mut health, "github.com", "/r/a", now + 10);
    assert!(!forge_incident_covers_repo(&health, "/r/a"));
}

#[test]
fn test_incident_shields_failure_matrix() {
    let incidents = vec!["gitlab.com".to_string()];
    // Shielded: only transient hosts, all under incident.
    assert!(incident_shields_failure(&["gitlab.com".to_string()], false, &incidents));
    // Not shielded: a real failure alongside (burns regardless).
    assert!(!incident_shields_failure(&["gitlab.com".to_string()], true, &incidents));
    // Not shielded: unattributed (empty) — single anecdote.
    assert!(!incident_shields_failure(&[], false, &incidents));
    // Not shielded: transient on a healthy host.
    assert!(!incident_shields_failure(&["github.com".to_string()], false, &incidents));
    // Not shielded: mixed hosts, one not under incident.
    assert!(!incident_shields_failure(
        &["gitlab.com".to_string(), "github.com".to_string()],
        false,
        &incidents
    ));
}

#[test]
fn url_host_keeps_case_and_forge_host_lowercases() {
    assert_eq!(url_host("git@GitLab.COM:x/y.git"), Some("GitLab.COM".to_string()));
    assert_eq!(forge_host_of_url("https://CODEBERG.org/a"), Some("codeberg.org".to_string()));
}

#[test]
fn prune_host_drops_hits_outside_the_window() {
    let now = 10_000u64;
    let mut host = ForgeHostHealth {
        hits: vec![
            ForgeHit { repo: "/r/old".to_string(), at_unix: now - FORGE_INCIDENT_WINDOW_SECS - 1 },
            ForgeHit { repo: "/r/edge".to_string(), at_unix: now - FORGE_INCIDENT_WINDOW_SECS },
            ForgeHit { repo: "/r/new".to_string(), at_unix: now },
        ],
        incident: true,
    };
    prune_host(&mut host, now);
    let repos: Vec<&str> = host.hits.iter().map(|h| h.repo.as_str()).collect();
    assert_eq!(repos, vec!["/r/edge", "/r/new"]);
    assert!(host.incident);
}

#[test]
fn incident_is_declared_once_per_episode() {
    let mut health = ForgeHealth::new();
    let now = 5_000u64;
    let mut declared = 0;
    for (i, repo) in ["/r/a", "/r/b", "/r/c", "/r/d"].iter().enumerate() {
        if observe_forge_hit(&mut health, "gitlab.com", repo, now + i as u64) {
            declared += 1;
        }
    }
    assert_eq!(declared, 1);
}

#[test]
fn one_repo_alone_never_declares() {
    let mut health = ForgeHealth::new();
    for t in 0..20u64 {
        assert!(!observe_forge_hit(&mut health, "github.com", "/r/only", 1_000 + t));
    }
    assert!(forge_incident_hosts(&health).is_empty());
}

#[test]
fn recovery_needs_the_window_to_be_quiet() {
    let mut health = ForgeHealth::new();
    let now = 50_000u64;
    observe_forge_hit(&mut health, "gitlab.com", "/r/a", now);
    observe_forge_hit(&mut health, "gitlab.com", "/r/b", now + 1);
    // Still inside the window: no recovery.
    assert!(poll_forge_recovery(&mut health, now + 10).is_empty());
    assert_eq!(forge_incident_hosts(&health), vec!["gitlab.com".to_string()]);
}
