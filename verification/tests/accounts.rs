use ava_admin::accounts::{
    account_boundary, build_user_info, creation_department, department_change, initially_enabled,
    list_order, list_scope, refresh_check, require_visible, visibility_check, AccountBoundary,
    effective_permission_sources, AccountError, RefreshIdentityError, UserRecord, VisibilityCheck,
};
use ava_admin::roles::{
    check_code_unchanged, check_deletable, is_protected_role, role_order, status_enables,
    RoleError, RoleSummary,
};

#[test]
fn account_boundary_has_no_child_department_variant() {
    assert!(matches!(
        AccountBoundary::Department(7),
        AccountBoundary::Department(7)
    ));
}

#[test]
fn boundaries_follow_the_actor() {
    assert!(matches!(account_boundary(1, false, true, None), Err(AccountError::AccessDenied)));
    assert!(matches!(account_boundary(1, true, true, Some(4)), Ok(AccountBoundary::All)));
    assert!(matches!(account_boundary(1, true, false, Some(4)), Ok(AccountBoundary::Department(4))));
    assert!(matches!(account_boundary(9, true, false, None), Ok(AccountBoundary::SelfOnly(9))));
}

#[test]
fn new_accounts_stay_within_the_department() {
    assert_eq!(creation_department(AccountBoundary::All, None, 3).ok(), Some(Some(1)));
    assert_eq!(creation_department(AccountBoundary::All, Some(5), 0).ok(), Some(Some(5)));
    assert_eq!(creation_department(AccountBoundary::Department(4), None, 0).ok(), Some(Some(4)));
    assert!(matches!(
        creation_department(AccountBoundary::Department(4), Some(5), 0),
        Err(AccountError::AccessDenied)
    ));
    assert!(matches!(
        creation_department(AccountBoundary::Department(4), None, 1),
        Err(AccountError::AccessDenied)
    ));
    assert!(matches!(
        creation_department(AccountBoundary::SelfOnly(9), None, 0),
        Err(AccountError::AccessDenied)
    ));
    assert!(initially_enabled(None));
    assert!(initially_enabled(Some(1)));
    assert!(!initially_enabled(Some(2)));
}

#[test]
fn department_moves_and_visibility() {
    assert!(department_change(AccountBoundary::All, Some(3)).is_ok());
    assert!(department_change(AccountBoundary::Department(3), Some(3)).is_ok());
    assert!(department_change(AccountBoundary::Department(3), Some(4)).is_err());
    assert!(department_change(AccountBoundary::SelfOnly(1), None).is_ok());
    assert!(department_change(AccountBoundary::SelfOnly(1), Some(1)).is_err());
    assert_eq!(visibility_check(AccountBoundary::All, 5), VisibilityCheck::Exists);
    assert_eq!(visibility_check(AccountBoundary::Department(2), 5), VisibilityCheck::ExistsInDepartment(2));
    assert_eq!(visibility_check(AccountBoundary::SelfOnly(5), 5), VisibilityCheck::Known(true));
    assert_eq!(visibility_check(AccountBoundary::SelfOnly(5), 6), VisibilityCheck::Known(false));
    assert!(matches!(require_visible(false), Err(AccountError::NotFound)));
    assert!(require_visible(true).is_ok());
    assert_eq!(refresh_check(false), Err(RefreshIdentityError::Disabled));
    assert_eq!(list_scope(AccountBoundary::Department(2)), (false, Some(2), None));
    assert_eq!(list_scope(AccountBoundary::SelfOnly(7)), (false, None, Some(7)));
}

#[test]
fn list_order_is_whitelisted() {
    assert_eq!(list_order(Some("phone"), Some(false)), ("u.phone", "asc"));
    assert_eq!(list_order(Some("password_hash"), None), ("u.id", "desc"));
    assert_eq!(list_order(None, Some(true)), ("u.id", "desc"));
}

fn role(id: i64, sort: i32) -> RoleSummary {
    RoleSummary {
        id,
        code: format!("r{id}"),
        name: format!("Role {id}"),
        status: "enabled".to_string(),
        sort,
    }
}

#[test]
fn user_info_shows_flags_and_role_ids() {
    let record = UserRecord {
        id: 3,
        uuid: "u".to_string(),
        username: "alice".to_string(),
        password_hash: "h".to_string(),
        nick_name: "Alice".to_string(),
        header_img: String::new(),
        home_route: "dashboard".to_string(),
        enable: false,
        phone: None,
        email: Some("a@example.test".to_string()),
        origin_setting: None,
        dept_id: Some(1),
        dept_name: None,
    };
    let info = build_user_info(&record, vec![role(2, 1), role(5, 0)]);
    assert_eq!(info.enable, 2);
    assert_eq!(info.phone, "");
    assert_eq!(info.email, "a@example.test");
    assert_eq!(info.dept_name, "");
    assert_eq!(info.role_ids, vec![2, 5]);
}

#[test]
fn roles_are_ordered_by_sort_then_id() {
    let roles = vec![role(4, 2), role(3, 1), role(1, 2), role(2, 1)];
    let order = role_order(&roles);
    let ids: Vec<i64> = order.iter().map(|&i| roles[i].id).collect();
    assert_eq!(ids, vec![2, 3, 1, 4]);
}

#[test]
fn role_rules() {
    assert!(is_protected_role("super_admin"));
    assert!(!is_protected_role("admin"));
    assert!(status_enables("enabled"));
    assert!(!status_enables("disabled"));
    assert!(check_code_unchanged("a", "a").is_ok());
    assert!(matches!(check_code_unchanged("a", "b"), Err(RoleError::Immutable)));
    assert!(matches!(check_deletable(true), Err(RoleError::HasMembers)));
    assert!(check_deletable(false).is_ok());
}

#[test]
fn effective_permissions_are_grouped_by_their_granting_roles() {
    let role = |id: i64, code: &str| RoleSummary {
        id,
        code: code.to_string(),
        name: code.to_uppercase(),
        status: "enabled".to_string(),
        sort: 0,
    };
    let grants = vec![
        ("users:list".to_string(), role(2, "reader")),
        ("roles:list".to_string(), role(2, "reader")),
        ("users:list".to_string(), role(3, "operator")),
    ];
    let groups = effective_permission_sources(&grants);
    assert_eq!(groups.len(), 2);
    assert_eq!(groups[0].permission, "roles:list");
    assert_eq!(groups[0].roles.iter().map(|r| r.id).collect::<Vec<_>>(), vec![2]);
    assert_eq!(groups[1].permission, "users:list");
    assert_eq!(groups[1].roles.iter().map(|r| r.id).collect::<Vec<_>>(), vec![2, 3]);
    assert_eq!(groups[1].roles[1].code, "operator");
    assert_eq!(groups[1].roles[1].name, "OPERATOR");
}
