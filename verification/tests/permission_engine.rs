use sapphillon::permission::{
    check_permission, effective_grant, CheckPermissionResult, FunctionPermissionGrant, Permission,
    PermissionKind, PermissionLevel, PermissionSet,
};

fn perm(kind: PermissionKind, level: PermissionLevel, resource: Vec<&str>) -> Permission {
    Permission {
        display_name: "p".to_string(),
        description: "d".to_string(),
        kind,
        level,
        resource: resource.into_iter().map(|s| s.to_string()).collect(),
    }
}

fn set(perms: Vec<Permission>) -> PermissionSet {
    PermissionSet { permissions: perms }
}

#[test]
fn satisfied_when_kind_level_and_resources_covered() {
    let granted = set(vec![perm(
        PermissionKind::FilesystemRead,
        PermissionLevel::High,
        vec!["/home", "/tmp"],
    )]);
    let required = set(vec![perm(
        PermissionKind::FilesystemRead,
        PermissionLevel::Medium,
        vec!["/tmp"],
    )]);
    assert!(matches!(
        check_permission(&granted, &required),
        CheckPermissionResult::Satisfied
    ));
}

#[test]
fn missing_when_no_granted_entry_of_kind() {
    let granted = set(vec![perm(
        PermissionKind::FilesystemRead,
        PermissionLevel::High,
        vec![],
    )]);
    let required = set(vec![perm(
        PermissionKind::Execute,
        PermissionLevel::Unspecified,
        vec![],
    )]);
    match check_permission(&granted, &required) {
        CheckPermissionResult::Missing(p) => assert!(matches!(p.kind, PermissionKind::Execute)),
        _ => panic!("expected Missing"),
    }
}

#[test]
fn missing_when_granted_level_too_low() {
    let granted = set(vec![perm(
        PermissionKind::NetAccess,
        PermissionLevel::Medium,
        vec![],
    )]);
    let required = set(vec![perm(
        PermissionKind::NetAccess,
        PermissionLevel::High,
        vec![],
    )]);
    assert!(matches!(
        check_permission(&granted, &required),
        CheckPermissionResult::Missing(_)
    ));
}

#[test]
fn unspecified_level_acts_as_no_constraint_on_either_side() {
    let granted = set(vec![perm(
        PermissionKind::NetAccess,
        PermissionLevel::Unspecified,
        vec![],
    )]);
    let required = set(vec![perm(
        PermissionKind::NetAccess,
        PermissionLevel::High,
        vec![],
    )]);
    assert!(matches!(
        check_permission(&granted, &required),
        CheckPermissionResult::Satisfied
    ));
    let granted2 = set(vec![perm(
        PermissionKind::NetAccess,
        PermissionLevel::Medium,
        vec![],
    )]);
    let required2 = set(vec![perm(
        PermissionKind::NetAccess,
        PermissionLevel::Unspecified,
        vec![],
    )]);
    assert!(matches!(
        check_permission(&granted2, &required2),
        CheckPermissionResult::Satisfied
    ));
}

#[test]
fn empty_granted_resource_list_allows_every_resource() {
    let granted = set(vec![perm(
        PermissionKind::FilesystemWrite,
        PermissionLevel::High,
        vec![],
    )]);
    let required = set(vec![perm(
        PermissionKind::FilesystemWrite,
        PermissionLevel::Medium,
        vec!["/anywhere"],
    )]);
    assert!(matches!(
        check_permission(&granted, &required),
        CheckPermissionResult::Satisfied
    ));
}

#[test]
fn missing_when_required_resource_not_granted() {
    let granted = set(vec![perm(
        PermissionKind::FilesystemWrite,
        PermissionLevel::High,
        vec!["/home"],
    )]);
    let required = set(vec![perm(
        PermissionKind::FilesystemWrite,
        PermissionLevel::Medium,
        vec!["/etc"],
    )]);
    assert!(matches!(
        check_permission(&granted, &required),
        CheckPermissionResult::Missing(_)
    ));
}

#[test]
fn first_unmet_required_entry_is_reported() {
    let granted = set(vec![perm(
        PermissionKind::Execute,
        PermissionLevel::High,
        vec![],
    )]);
    let required = set(vec![
        perm(PermissionKind::Execute, PermissionLevel::Medium, vec![]),
        perm(PermissionKind::NetAccess, PermissionLevel::Medium, vec![]),
        perm(PermissionKind::WindowManagement, PermissionLevel::High, vec![]),
    ]);
    match check_permission(&granted, &required) {
        CheckPermissionResult::Missing(p) => {
            assert!(matches!(p.kind, PermissionKind::NetAccess));
        }
        _ => panic!("expected Missing"),
    }
}

#[test]
fn empty_required_set_is_satisfied_by_empty_grant() {
    let granted = set(vec![]);
    let required = set(vec![]);
    assert!(matches!(
        check_permission(&granted, &required),
        CheckPermissionResult::Satisfied
    ));
}

fn grant(id: &str, perms: Vec<Permission>) -> FunctionPermissionGrant {
    FunctionPermissionGrant {
        function_id: id.to_string(),
        granted: set(perms),
    }
}

#[test]
fn wildcard_grant_answers_lookups_without_exact_grant() {
    let grants = vec![
        grant("a.b.c", vec![perm(PermissionKind::Execute, PermissionLevel::High, vec![])]),
        grant("*", vec![perm(PermissionKind::NetAccess, PermissionLevel::Medium, vec![])]),
    ];
    let eff = effective_grant(&grants, "x.y.z");
    assert_eq!(eff.permissions.len(), 1);
    assert!(matches!(eff.permissions[0].kind, PermissionKind::NetAccess));
}

#[test]
fn exact_grant_takes_priority_over_wildcard() {
    let grants = vec![
        grant("*", vec![perm(PermissionKind::NetAccess, PermissionLevel::Medium, vec![])]),
        grant("a.b.c", vec![perm(PermissionKind::Execute, PermissionLevel::High, vec![])]),
    ];
    let eff = effective_grant(&grants, "a.b.c");
    assert_eq!(eff.permissions.len(), 1);
    assert!(matches!(eff.permissions[0].kind, PermissionKind::Execute));
}

#[test]
fn no_grant_at_all_means_empty_effective_set() {
    let grants = vec![grant(
        "a.b.c",
        vec![perm(PermissionKind::Execute, PermissionLevel::High, vec![])],
    )];
    let eff = effective_grant(&grants, "other");
    assert_eq!(eff.permissions.len(), 0);
}
