use ava_admin::menus::{build_tree, current_permissions, MenuRecord};

fn record(id: i64, parent_id: i64, menu_type: &str, status: &str) -> MenuRecord {
    MenuRecord {
        id,
        parent_id,
        path: String::new(),
        name: format!("n{id}"),
        hidden: false,
        component: String::new(),
        sort: id as i32,
        active_name: String::new(),
        keep_alive: false,
        default_menu: false,
        title: format!("N{id}"),
        icon: String::new(),
        close_tab: false,
        transition_type: String::new(),
        parameters: Vec::new(),
        menu_btn: Vec::new(),
        menu_type: menu_type.into(),
        status: status.into(),
        permission: None,
        api_bindings: Vec::new(),
    }
}

#[test]
fn current_tree_excludes_actions_and_unassigned_nodes() {
    let allowed = vec![1, 2, 3];
    let tree = build_tree(
        vec![
            record(1, 0, "directory", "enabled"),
            record(2, 1, "page", "enabled"),
            record(3, 2, "action", "enabled"),
            record(4, 1, "page", "enabled"),
        ],
        Some(&allowed),
        false,
    );
    assert_eq!(tree[0].children.len(), 1);
    assert!(tree[0].children[0].children.is_empty());
}

#[test]
fn management_tree_includes_disabled_catalog_nodes() {
    let tree = build_tree(
        vec![
            record(1, 0, "directory", "enabled"),
            record(2, 1, "page", "disabled"),
            record(3, 2, "action", "disabled"),
        ],
        None,
        true,
    );

    assert_eq!(tree[0].children[0].status, "disabled");
    assert_eq!(tree[0].children[0].children[0].status, "disabled");
}

#[test]
fn navigation_keeps_record_order_and_drops_disabled_menus() {
    let allowed = vec![1, 2, 5];
    let tree = build_tree(
        vec![
            record(5, 0, "page", "enabled"),
            record(1, 0, "directory", "enabled"),
            record(2, 1, "page", "disabled"),
        ],
        Some(&allowed),
        false,
    );
    assert_eq!(tree.len(), 2);
    assert_eq!(tree[0].id, 5);
    assert_eq!(tree[1].id, 1);
    assert!(tree[1].children.is_empty());
}

#[test]
fn menu_cycles_off_the_root_are_left_out() {
    let tree = build_tree(
        vec![record(1, 0, "page", "enabled"), record(2, 3, "page", "enabled"), record(3, 2, "page", "enabled")],
        None,
        true,
    );
    assert_eq!(tree.len(), 1);
    assert!(tree[0].children.is_empty());
}

#[test]
fn current_permissions_are_the_enabled_effective_ones() {
    let effective = vec!["a".to_string(), "b".to_string(), "c".to_string()];
    let enabled = vec!["c".to_string(), "a".to_string()];
    assert_eq!(current_permissions(&effective, &enabled), vec!["a".to_string(), "c".to_string()]);
}

#[test]
fn every_menu_has_its_kept_sub_menus_in_record_order() {
    let tree = build_tree(
        vec![
            record(1, 0, "directory", "enabled"),
            record(3, 1, "page", "enabled"),
            record(2, 1, "page", "enabled"),
            record(4, 3, "action", "enabled"),
            record(5, 3, "action", "enabled"),
        ],
        None,
        true,
    );
    assert_eq!(tree.len(), 1);
    let pages: Vec<i64> = tree[0].children.iter().map(|view| view.id).collect();
    assert_eq!(pages, vec![3, 2]);
    let actions: Vec<i64> = tree[0].children[0].children.iter().map(|view| view.id).collect();
    assert_eq!(actions, vec![4, 5]);
    assert!(tree[0].children[1].children.is_empty());
}
