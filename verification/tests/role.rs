use dracon_sync::role::{classify_roles, paths_match, RoleKind, RoleRow};

fn row(repo: &str, subs: &[(&str, &str)]) -> RoleRow {
    RoleRow {
        repo: repo.to_string(),
        canonical: repo.to_string(),
        submodules: subs.iter().map(|(p, c)| (p.to_string(), c.to_string())).collect(),
    }
}

#[test]
fn classify_role_for_standalone_repo() {
    let roles = classify_roles(&[row("/tmp/t/standalone", &[])]);
    assert_eq!(roles.len(), 1);
    assert_eq!(roles[0], RoleKind::Standalone);
    assert_eq!(roles[0].label(), "standalone");
}

#[test]
fn classify_role_for_parent_repo() {
    let roles = classify_roles(&[row(
        "/tmp/t/myparent",
        &[
            ("sub/a", "/tmp/t/myparent/sub/a"),
            ("sub/b", "/tmp/t/myparent/sub/b"),
            ("sub/c", "/tmp/t/myparent/sub/c"),
        ],
    )]);
    assert_eq!(roles.len(), 1);
    assert_eq!(roles[0], RoleKind::Parent(3));
    assert_eq!(roles[0].label(), "parent (3 submods)");
}

#[test]
fn classify_role_for_submod_repo() {
    let rows = vec![
        row("/tmp/t/myparent", &[("sub/child", "/tmp/t/myparent/sub/child")]),
        row("/tmp/t/myparent/sub/child", &[]),
    ];
    let roles = classify_roles(&rows);
    assert_eq!(roles.len(), 2);
    assert_eq!(roles[0], RoleKind::Parent(1));
    match &roles[1] {
        RoleKind::Submod { parent_basename, sub_path } => {
            assert_eq!(parent_basename, "myparent");
            assert_eq!(sub_path, "sub/child");
        }
        other => panic!("expected Submod, got {:?}", other),
    }
}

#[test]
fn priority_submod_over_parent_when_dual_role() {
    let rows = vec![
        row("/tmp/t/grand", &[("sub/middle", "/tmp/t/grand/sub/middle")]),
        row("/tmp/t/grand/sub/middle", &[("leaf", "/tmp/t/grand/sub/middle/leaf")]),
        row("/tmp/t/grand/sub/middle/leaf", &[]),
    ];
    let roles = classify_roles(&rows);
    assert_eq!(roles[0], RoleKind::Parent(1));
    match &roles[1] {
        RoleKind::Submod { parent_basename, sub_path } => {
            assert_eq!(parent_basename, "grand");
            assert_eq!(sub_path, "sub/middle");
        }
        other => panic!("expected Submod for middle, got {:?}", other),
    }
    match &roles[2] {
        RoleKind::Submod { parent_basename, sub_path } => {
            assert_eq!(parent_basename, "middle");
            assert_eq!(sub_path, "leaf");
        }
        other => panic!("expected Submod for leaf, got {:?}", other),
    }
}

#[test]
fn labels_and_details() {
    let s = RoleKind::Submod { parent_basename: "p".to_string(), sub_path: "a/b".to_string() };
    assert_eq!(s.label(), "submod (of p/a/b)");
    assert_eq!(s.detail(), "Submod role: this repo is checked out at <p>/<a/b> as a submodule");
    assert_eq!(
        RoleKind::Parent(10).detail(),
        "Parent role: this repo has 10 submodules in its .gitmodules"
    );
    assert_eq!(
        RoleKind::Standalone.detail(),
        "Standalone role: no submodule relationship with any watched repo"
    );
}

#[test]
fn paths_match_by_components() {
    assert!(paths_match("/a/b", "/a//b/"));
    assert!(paths_match("/a/./b", "/a/b"));
    assert!(!paths_match("/a/b", "/a/c"));
    assert!(!paths_match("a/b", "/a/b"));
}

#[test]
fn a_repo_is_not_its_own_submodule() {
    // A row whose own declaration points at itself stays a parent.
    let roles = classify_roles(&[row("/r/self", &[(".", "/r/self")])]);
    assert_eq!(roles[0], RoleKind::Parent(1));
}
