use ava_admin::authorization::administration::{
    account_change_check, check_role_replacement, confirm_account_change, require_super_admin,
    AccountChangeCheck, PolicyAdministrationError,
};
use ava_admin::authorization::policy::{validate_loaded_policy, AuthorizationError, PolicyFacts, RoleFact};
use ava_admin::authorization::state::{id_difference, role_ids_of, string_difference, AuthorizationState};
use ava_admin::authorization::subjects::{
    enforce_request, normalize_ids, parse_role_subject, parse_subject, parse_user_subject, role_subject, user_subject,
};

#[test]
fn subjects_round_trip() {
    assert_eq!(user_subject(42), "user:42");
    assert_eq!(role_subject(7), "role:7");
    assert_eq!(parse_user_subject("user:42"), Some(42));
    assert_eq!(parse_role_subject("role:7"), Some(7));
    assert_eq!(parse_role_subject("user:7"), None);
    assert_eq!(parse_role_subject("role:07"), None);
    assert_eq!(parse_role_subject("role:0"), None);
    assert_eq!(parse_role_subject("role:-3"), None);
    assert_eq!(parse_role_subject("role:"), None);
    assert_eq!(parse_subject("team:5", "team:"), Some(5));
    for id in [1, 9, 10, 123456789, i64::MAX] {
        assert_eq!(parse_user_subject(&user_subject(id)), Some(id));
        assert_eq!(parse_role_subject(&role_subject(id)), Some(id));
    }
}

#[test]
fn ids_are_normalized_to_a_positive_ascending_set() {
    assert_eq!(normalize_ids(&[3, 1, -2, 3, 0, 2]), vec![1, 2, 3]);
    assert!(normalize_ids(&[]).is_empty());
}

fn rule(a: &str, b: &str) -> Vec<String> {
    vec![a.to_string(), b.to_string()]
}

fn facts() -> PolicyFacts {
    PolicyFacts {
        users: vec![(10, true), (11, false)],
        roles: vec![
            RoleFact { id: 1, code: "super_admin".to_string(), name: "Super".to_string(), status: "enabled".to_string() },
            RoleFact { id: 2, code: "reader".to_string(), name: "Reader".to_string(), status: "disabled".to_string() },
        ],
        enabled_permissions: vec!["users:list".to_string(), "users:create".to_string()],
        action_pages: vec![("users:create".to_string(), "users:list".to_string())],
        super_admin_role_id: 1,
    }
}

fn message(result: Result<(), AuthorizationError>) -> String {
    match result {
        Err(AuthorizationError::Configuration(m)) => m,
        _ => String::new(),
    }
}

#[test]
fn a_complete_policy_loads() {
    let policy = vec![rule("role:1", "users:list"), rule("role:1", "users:create")];
    let grouping = vec![rule("user:10", "role:1"), rule("user:11", "role:2")];
    assert!(validate_loaded_policy(&policy, &grouping, &facts()).is_ok());
}

#[test]
fn policy_errors_name_the_first_failed_check() {
    let grouping = vec![rule("user:10", "role:1")];
    let full = vec![rule("role:1", "users:list"), rule("role:1", "users:create")];
    let policy = vec![vec!["role:1".to_string()]];
    assert_eq!(
        message(validate_loaded_policy(&policy, &grouping, &facts())),
        "policy rule must contain exactly a Role subject and Permission"
    );
    let policy = vec![rule("user:10", "users:list")];
    assert_eq!(message(validate_loaded_policy(&policy, &grouping, &facts())), "policy subjects must use role:<id>");
    let policy = vec![rule("role:9", "users:list")];
    assert_eq!(message(validate_loaded_policy(&policy, &grouping, &facts())), "policy references an unknown Access Role");
    let policy = vec![rule("role:1", "*")];
    assert_eq!(
        message(validate_loaded_policy(&policy, &grouping, &facts())),
        "policy references an unknown or disabled concrete Permission"
    );
    let policy = vec![rule("role:1", "users:list"), rule("role:1", "users:create"), rule("role:2", "users:create")];
    assert_eq!(
        message(validate_loaded_policy(&policy, &grouping, &facts())),
        "action Permission requires its owning page Permission"
    );
    let bad_grouping = vec![rule("user:10", "role:1"), rule("role:1", "role:1")];
    assert_eq!(
        message(validate_loaded_policy(&full, &bad_grouping, &facts())),
        "membership subjects must use user:<id>"
    );
    let bad_grouping = vec![rule("user:10", "user:1")];
    assert_eq!(message(validate_loaded_policy(&full, &bad_grouping, &facts())), "membership targets must use role:<id>");
    let bad_grouping = vec![rule("user:99", "role:1")];
    assert_eq!(
        message(validate_loaded_policy(&full, &bad_grouping, &facts())),
        "membership references an unknown User Account or Access Role"
    );
    let partial = vec![rule("role:1", "users:list")];
    assert_eq!(
        message(validate_loaded_policy(&partial, &grouping, &facts())),
        "super_admin is missing concrete Catalog Permissions"
    );
}

#[test]
fn state_reads_back_what_was_written() {
    let f = facts();
    let mut state = AuthorizationState::from_facts(&f.users, &f.roles, f.super_admin_role_id);
    assert_eq!(state.user_status(10), Some(true));
    assert_eq!(state.user_status(11), Some(false));
    assert_eq!(state.user_status(12), None);
    assert!(state.role_is_enabled(1));
    assert!(!state.role_is_enabled(2));
    state.set_user_status(12, true);
    assert_eq!(state.user_status(12), Some(true));
    state.forget_user(12);
    assert_eq!(state.user_status(12), None);
    state.set_role_status(2, true);
    assert!(state.role_is_enabled(2));
    state.forget_role(2);
    assert!(!state.role_is_enabled(2));
}

#[test]
fn super_admins_and_active_roles_come_from_memberships() {
    let f = facts();
    let state = AuthorizationState::from_facts(&f.users, &f.roles, f.super_admin_role_id);
    let memberships = vec![rule("user:10", "role:2"), rule("user:10", "role:1"), vec!["user:10".to_string()]];
    assert_eq!(role_ids_of(&memberships), vec![2, 1]);
    assert_eq!(state.active_role_ids(&memberships), vec![1]);
    assert!(state.is_active_super_admin(10, &memberships));
    assert!(!state.is_active_super_admin(11, &memberships));
    assert!(!state.is_active_super_admin(10, &vec![rule("user:10", "role:2")]));
}

#[test]
fn replacements_add_and_remove_exactly_the_differences() {
    let before = vec!["a".to_string(), "b".to_string()];
    let desired = vec!["b".to_string(), "c".to_string(), "c".to_string()];
    assert_eq!(string_difference(&desired, &before), vec!["c".to_string()]);
    assert_eq!(string_difference(&before, &desired), vec!["a".to_string()]);
    assert_eq!(id_difference(&vec![1, 2, 3, 3], &vec![2]), vec![1, 3]);
}

#[test]
fn account_changes_protect_the_last_super_admin() {
    assert_eq!(account_change_check(true, false, false, false), AccountChangeCheck::Allowed);
    assert_eq!(account_change_check(true, true, true, false), AccountChangeCheck::Allowed);
    assert_eq!(account_change_check(false, true, true, false), AccountChangeCheck::RequiresSuperAdmin);
    assert_eq!(account_change_check(true, true, false, false), AccountChangeCheck::RequiresSuperAdminAndSurvivor);
    assert_eq!(account_change_check(true, true, true, true), AccountChangeCheck::RequiresSuperAdminAndSurvivor);
    assert!(confirm_account_change(AccountChangeCheck::Allowed, false, 0).is_ok());
    assert!(matches!(
        confirm_account_change(AccountChangeCheck::RequiresSuperAdmin, false, 5),
        Err(PolicyAdministrationError::AccessDenied)
    ));
    assert!(matches!(
        confirm_account_change(AccountChangeCheck::RequiresSuperAdminAndSurvivor, true, 1),
        Err(PolicyAdministrationError::LastSuperAdmin)
    ));
    assert!(confirm_account_change(AccountChangeCheck::RequiresSuperAdminAndSurvivor, true, 2).is_ok());
    assert!(matches!(require_super_admin(false), Err(PolicyAdministrationError::AccessDenied)));
}

#[test]
fn the_last_super_admin_may_give_up_the_role() {
    assert!(check_role_replacement(true, true, true).is_ok());
    assert!(matches!(check_role_replacement(false, true, true), Err(PolicyAdministrationError::AccessDenied)));
    assert!(matches!(check_role_replacement(true, false, true), Err(PolicyAdministrationError::UserNotFound)));
    assert!(matches!(
        check_role_replacement(true, true, false),
        Err(PolicyAdministrationError::InvalidRoleAssignment)
    ));
}

#[test]
fn enforcement_requests_name_the_user_and_its_active_roles() {
    let (subject, roles) = enforce_request(7, &vec![2, 1]);
    assert_eq!(subject, "user:7");
    assert_eq!(roles, vec!["role:2".to_string(), "role:1".to_string()]);
}
