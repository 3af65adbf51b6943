use wagner_host::remote::observability::{
    ActionOutcome, M_DEVCTX_REFUSED_TOTAL, M_DISCOVERY_RESOLVE_TOTAL, M_REMOTE_ACTION_TOTAL,
    M_REMOTE_ATTACH_SECONDS, M_REMOTE_SESSIONS_ACTIVE, SPAN_REMOTE_ATTACH, SPAN_REMOTE_CONTROL,
};
use wagner_host::remote::devcontext::{check_repo_scope, within_root, FileAccess, RefusedReason};

#[test]
fn metric_names_match_the_plan() {
    assert_eq!(M_REMOTE_SESSIONS_ACTIVE, "wagner_remote_sessions_active");
    assert_eq!(M_REMOTE_ATTACH_SECONDS, "wagner_remote_attach_seconds");
    assert_eq!(M_REMOTE_ACTION_TOTAL, "wagner_remote_action_total");
    assert_eq!(M_DEVCTX_REFUSED_TOTAL, "wagner_devctx_refused_total");
    assert_eq!(M_DISCOVERY_RESOLVE_TOTAL, "wagner_discovery_resolve_total");
}

#[test]
fn span_names_match_the_plan() {
    assert_eq!(SPAN_REMOTE_ATTACH, "remote.attach");
    assert_eq!(SPAN_REMOTE_CONTROL, "remote.control");
}

#[test]
fn action_outcome_labels() {
    assert_eq!(ActionOutcome::Success.label(), "ok");
    assert_eq!(ActionOutcome::Refused.label(), "refused");
    assert_eq!(ActionOutcome::Error.label(), "error");
}

fn comps(s: &[&str]) -> Vec<String> {
    s.iter().map(|c| c.to_string()).collect()
}

#[test]
fn a_path_inside_the_root_is_within_it_by_components() {
    assert!(within_root(&comps(&["/", "repo"]), &comps(&["/", "repo", "src", "a.rs"])));
    assert!(within_root(&comps(&["/", "repo"]), &comps(&["/", "repo"])));
    assert!(!within_root(&comps(&["/", "repo"]), &comps(&["/", "repo-other", "a.rs"])));
    assert!(!within_root(&comps(&["/", "repo", "src"]), &comps(&["/", "repo"])));
}

fn parts(p: &[&str]) -> Vec<String> {
    p.iter().map(|s| s.to_string()).collect()
}

#[test]
fn scope_allows_only_resolved_paths_inside_the_root() {
    let root = parts(&["/", "work", "repo"]);
    let inside = parts(&["/", "work", "repo", "src", "lib.rs"]);
    assert_eq!(check_repo_scope(Some(root.clone()), Some(inside.clone())), FileAccess::Allowed(inside));
    let sibling = parts(&["/", "work", "repo-other", "x"]);
    assert_eq!(check_repo_scope(Some(root.clone()), Some(sibling)), FileAccess::Refused(RefusedReason::OutOfScope));
    let outside = parts(&["/", "etc", "passwd"]);
    assert_eq!(check_repo_scope(Some(root.clone()), Some(outside)), FileAccess::Refused(RefusedReason::OutOfScope));
    assert_eq!(check_repo_scope(Some(root.clone()), None), FileAccess::Refused(RefusedReason::OutOfScope));
    assert_eq!(check_repo_scope(None, Some(root.clone())), FileAccess::Refused(RefusedReason::OutOfScope));
    assert_eq!(check_repo_scope(Some(root.clone()), Some(root.clone())), FileAccess::Allowed(root));
}
