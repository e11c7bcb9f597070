use std::collections::BTreeSet;

use ava_admin::access::catalog::{AccessBinding, AccessCatalog, AccessNode, MenuIndex, MenuType, RouteBinding};
use ava_admin::access::error::{require_active, require_granted, AccessEvaluationError, CatalogError};
use ava_admin::access::route_index::RouteIndex;
use ava_admin::access::routes::{
    is_under_api_boundary, normalize_method, normalize_path, normalize_request_path,
};

fn node(id: i64, parent_id: Option<i64>, menu_type: MenuType, status: &str, permission: Option<&str>) -> AccessNode {
    AccessNode {
        id,
        parent_id,
        menu_type,
        status: status.to_string(),
        permission: permission.map(str::to_string),
    }
}

#[test]
fn menu_type_uses_lowercase_database_values() {
    assert_eq!(MenuType::Directory.to_string(), "directory");
    assert_eq!("page".parse::<MenuType>(), Ok(MenuType::Page));
}

#[test]
fn disabled_ancestors_remove_descendant_permissions() {
    let catalog = AccessCatalog::from_nodes(vec![
        node(1, None, MenuType::Directory, "disabled", None),
        node(2, Some(1), MenuType::Page, "enabled", Some("system:user:list")),
    ])
    .expect("disabled nodes are valid catalog entries");

    assert!(catalog.enabled_permissions().is_empty());
}

#[test]
fn actions_must_have_page_parents() {
    let result = AccessCatalog::from_nodes(vec![node(
        2,
        None,
        MenuType::Action,
        "enabled",
        Some("system:user:create"),
    )]);

    assert!(matches!(result, Err(CatalogError::InvalidTree)));
}

fn users_catalog() -> AccessCatalog {
    AccessCatalog::from_nodes(vec![
        node(1, None, MenuType::Directory, "enabled", None),
        node(2, Some(1), MenuType::Page, "enabled", Some("users:list")),
        node(3, Some(2), MenuType::Action, "enabled", Some("users:create")),
        node(4, Some(2), MenuType::Action, "enabled", Some("users:delete")),
    ])
    .unwrap()
}

#[test]
fn role_access_action_selection_adds_its_page_without_adding_siblings() {
    let catalog = users_catalog();

    assert_eq!(
        catalog
            .normalize_role_access(vec!["users:create".to_string()])
            .unwrap()
            .into_iter()
            .collect::<BTreeSet<_>>(),
        BTreeSet::from(["users:create".to_string(), "users:list".to_string()])
    );
}

#[test]
fn navigation_is_derived_only_from_selected_page_permissions() {
    let catalog = AccessCatalog::from_nodes(vec![
        node(1, None, MenuType::Directory, "enabled", None),
        node(2, Some(1), MenuType::Page, "enabled", Some("users:list")),
        node(3, Some(2), MenuType::Action, "enabled", Some("users:create")),
    ])
    .unwrap();

    assert!(catalog
        .navigation_menu_ids(&vec!["users:create".to_string()])
        .is_empty());
    assert_eq!(
        catalog
            .navigation_menu_ids(&vec!["users:list".to_string()])
            .into_iter()
            .collect::<BTreeSet<_>>(),
        BTreeSet::from([1, 2])
    );
}

#[test]
fn rejects_directory_cycles() {
    let result = AccessCatalog::from_nodes(vec![
        node(1, Some(2), MenuType::Directory, "enabled", None),
        node(2, Some(1), MenuType::Directory, "enabled", None),
    ]);

    assert!(matches!(result, Err(CatalogError::InvalidTree)));
}

#[test]
fn request_path_normalization_keeps_the_api_boundary() {
    assert_eq!(normalize_request_path("users"), "/api/users");
    assert_eq!(normalize_request_path("/users"), "/api/users");
    assert_eq!(normalize_request_path("/api/users/"), "/api/users");
    assert_eq!(normalize_request_path("/api"), "/api");
    assert_eq!(normalize_request_path("/api/"), "/api");
}

#[test]
fn binding_paths_must_already_be_under_api() {
    assert_eq!(normalize_path("/api/users/"), Ok("/api/users".to_string()));
    assert!(matches!(normalize_path("/users"), Err(CatalogError::InvalidBinding)));
    assert!(matches!(
        normalize_path("/api/users?x=1"),
        Err(CatalogError::InvalidBinding)
    ));
}

#[test]
fn api_boundary_is_the_prefix_and_its_subpaths() {
    assert!(is_under_api_boundary("/api"));
    assert!(is_under_api_boundary("/api/users"));
    assert!(!is_under_api_boundary("/apiusers"));
    assert!(!is_under_api_boundary("/users"));
}

#[test]
fn methods_are_trimmed_and_upper_cased() {
    assert_eq!(normalize_method(" get "), Ok("GET".to_string()));
    assert_eq!(normalize_method("po st"), Err(CatalogError::InvalidBinding));
    assert_eq!(normalize_method(""), Err(CatalogError::InvalidBinding));
}

#[test]
fn normalized_request_paths_are_stable() {
    for path in ["users", "/users/", "/api/users//", " /api "] {
        let once = normalize_request_path(path);
        assert_eq!(normalize_request_path(&once), once);
    }
}

#[test]
fn role_access_rejects_unknown_permissions() {
    let catalog = users_catalog();
    assert!(catalog
        .normalize_role_access(vec!["users:unknown".to_string()])
        .is_err());
}

#[test]
fn disabled_pages_hide_their_actions() {
    let catalog = AccessCatalog::from_nodes(vec![
        node(1, None, MenuType::Directory, "enabled", None),
        node(2, Some(1), MenuType::Page, "disabled", Some("users:list")),
        node(3, Some(2), MenuType::Action, "enabled", Some("users:create")),
    ])
    .unwrap();
    assert!(catalog.enabled_permissions().is_empty());
}

#[test]
fn duplicate_permissions_are_an_invalid_tree() {
    let result = AccessCatalog::from_nodes(vec![
        node(1, None, MenuType::Page, "enabled", Some("users:list")),
        node(2, None, MenuType::Page, "enabled", Some("users:list")),
    ]);
    assert!(matches!(result, Err(CatalogError::InvalidTree)));
}

#[test]
fn route_index_finds_the_permission_of_a_route() {
    let index = RouteIndex::from_bindings(vec![
        RouteBinding {
            method: "get".to_string(),
            path: "/api/users/".to_string(),
            permission: "users:list".to_string(),
        },
        RouteBinding {
            method: "POST".to_string(),
            path: "/api/users".to_string(),
            permission: "users:create".to_string(),
        },
    ])
    .expect("bindings are valid");

    assert_eq!(index.required_permission("GET", "/api/users").unwrap(), "users:list");
    assert_eq!(index.required_permission("POST", "/api/users").unwrap(), "users:create");
    assert!(matches!(
        index.required_permission("DELETE", "/api/users"),
        Err(CatalogError::Unbound)
    ));
    assert!(matches!(
        index.required_permission("GET", "/api/roles"),
        Err(CatalogError::Unbound)
    ));
}

#[test]
fn route_index_rejects_bindings_outside_the_api() {
    let result = RouteIndex::from_bindings(vec![RouteBinding {
        method: "GET".to_string(),
        path: "/users".to_string(),
        permission: "users:list".to_string(),
    }]);
    assert!(matches!(result, Err(CatalogError::InvalidBinding)));
}

#[test]
fn route_index_rejects_a_route_bound_twice() {
    let binding = || RouteBinding {
        method: "GET".to_string(),
        path: "/api/users".to_string(),
        permission: "users:list".to_string(),
    };
    let result = RouteIndex::from_bindings(vec![binding(), binding()]);
    assert!(matches!(result, Err(CatalogError::InvalidBinding)));
}

#[test]
fn active_route_bindings_carry_the_permissions_of_enabled_menus() {
    let index = MenuIndex::from_nodes(vec![
        node(1, None, MenuType::Directory, "enabled", None),
        node(2, Some(1), MenuType::Page, "enabled", Some("users:list")),
    ])
    .unwrap();
    let routes = index
        .active_route_bindings(vec![AccessBinding {
            menu_id: 2,
            method: "GET".to_string(),
            path: "/api/users".to_string(),
        }])
        .unwrap();
    assert_eq!(routes.len(), 1);
    assert_eq!(routes[0].permission, "users:list");
}

#[test]
fn accepted_role_access_holds_only_enabled_permissions() {
    let catalog = users_catalog();
    let accepted = catalog
        .normalize_role_access(vec!["users:create".to_string(), "users:delete".to_string()])
        .unwrap();
    assert!(!accepted.is_empty());
    for permission in &accepted {
        assert!(catalog.enabled_permissions().contains(permission));
    }
}

#[test]
fn whitespace_before_trailing_slashes_is_trimmed_on_a_second_pass() {
    let once = normalize_request_path("users /");
    assert_eq!(once, "/api/users ");
    assert_eq!(normalize_request_path(&once), "/api/users");
}

#[test]
fn only_active_accounts_with_a_grant_get_through() {
    assert!(require_active(Some(true)).is_ok());
    assert!(matches!(require_active(Some(false)), Err(AccessEvaluationError::UserDisabled)));
    assert!(matches!(require_active(None), Err(AccessEvaluationError::UserNotFound)));
    assert!(require_granted(true).is_ok());
    assert!(matches!(require_granted(false), Err(AccessEvaluationError::PermissionDenied)));
}

#[test]
fn route_index_refuses_routes_with_too_many_parameters() {
    let many: String = (0..26).map(|i| format!("/{{p{i}}}")).collect();
    let result = RouteIndex::from_bindings(vec![RouteBinding {
        method: "GET".to_string(),
        path: format!("/api{many}"),
        permission: "users:list".to_string(),
    }]);
    assert!(matches!(result, Err(CatalogError::InvalidBinding)));
    let fewer: String = (0..25).map(|i| format!("/{{p{i}}}")).collect();
    let index = RouteIndex::from_bindings(vec![RouteBinding {
        method: "GET".to_string(),
        path: format!("/api{fewer}"),
        permission: "users:list".to_string(),
    }])
    .expect("25 parameters are accepted");
    let path: String = (0..25).map(|i| format!("/v{i}")).collect();
    assert_eq!(index.required_permission("GET", &format!("/api{path}")).unwrap(), "users:list");
}

#[test]
fn normalizing_a_role_access_again_gives_it_back() {
    let catalog = users_catalog();
    let once = catalog.normalize_role_access(vec!["users:create".to_string()]).unwrap();
    let twice = catalog.normalize_role_access(once.clone()).unwrap();
    assert_eq!(once, vec!["users:create".to_string(), "users:list".to_string()]);
    assert_eq!(twice, once);
}

#[test]
fn enabled_permissions_are_ascending_and_unique() {
    let catalog = users_catalog();
    assert_eq!(
        catalog.enabled_permissions(),
        &vec!["users:create".to_string(), "users:delete".to_string(), "users:list".to_string()]
    );
}
