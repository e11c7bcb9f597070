use ava_admin::system::authority::default_authorities;
use ava_admin::system::menu::{
    build_menu_view, build_tree, default_menus, filter_authorized_with_ancestors, menu_role_matrix,
    MenuButton, MenuError, MenuRecord,
};

#[test]
fn default_menu_payload_contains_dashboard_entry() {
    let menus = default_menus();

    assert!(!menus.is_empty());
    assert_eq!(menus[0].name, "dashboard");
    assert_eq!(menus[0].component, "view/dashboard/index.vue");
    assert_eq!(menus[0].meta.title, "Dashboard");
}

#[test]
fn default_menu_payload_contains_core_admin_entries() {
    let menu_names = default_menus()
        .into_iter()
        .map(|menu| menu.name)
        .collect::<Vec<_>>();

    for name in ["users", "roles", "menus", "apis"] {
        assert!(menu_names.contains(&name.to_string()));
    }
}

#[test]
fn default_authorities_contains_super_admin() {
    let authorities = default_authorities();

    assert_eq!(authorities.len(), 1);
    assert_eq!(authorities[0].authority_id, 888);
    assert_eq!(authorities[0].authority_name, "Super Admin");
}

fn menu_record(id: i64, parent_id: i64, name: &str) -> MenuRecord {
    MenuRecord {
        id,
        parent_id,
        path: name.to_string(),
        name: name.to_string(),
        hidden: false,
        component: format!("view/{name}.vue"),
        sort: id as i32,
        active_name: String::new(),
        keep_alive: false,
        default_menu: false,
        title: name.to_string(),
        icon: String::new(),
        close_tab: false,
        transition_type: String::new(),
        parameters: Some(Vec::new()),
        menu_btn: Some(Vec::new()),
    }
}

#[test]
fn keeps_ancestors_for_authorized_child_menus() {
    let rows = vec![menu_record(1, 0, "system"), menu_record(2, 1, "users")];

    let filtered = filter_authorized_with_ancestors(&rows, &vec![2]);
    let tree = build_tree(&filtered, 0);

    assert_eq!(tree.len(), 1);
    assert_eq!(tree[0].name, "system");
    assert_eq!(tree[0].children.len(), 1);
    assert_eq!(tree[0].children[0].name, "users");
}

#[test]
fn default_menus_are_sorted_top_level_pages() {
    let menus = default_menus();
    assert_eq!(menus.len(), 13);
    for (i, menu) in menus.iter().enumerate() {
        assert_eq!(menu.id, i as i64 + 1);
        assert_eq!(menu.sort, menu.id as i32);
        assert_eq!(menu.parent_id, 0);
        assert_eq!(menu.path, menu.name);
    }
    assert_eq!(menus[12].name, "system-state");
}

#[test]
fn trees_are_sorted_by_sort_then_id() {
    let mut a = menu_record(3, 0, "a");
    a.sort = 2;
    let mut b = menu_record(2, 0, "b");
    b.sort = 1;
    let mut c = menu_record(1, 0, "c");
    c.sort = 2;
    let tree = build_tree(&vec![a, b, c], 0);
    let ids: Vec<i64> = tree.iter().map(|m| m.id).collect();
    assert_eq!(ids, vec![2, 1, 3]);
}

#[test]
fn unreadable_rows_are_left_out_of_trees() {
    let mut broken = menu_record(2, 0, "broken");
    broken.menu_btn = None;
    assert!(matches!(build_menu_view(&broken), Err(MenuError::InvalidPayload)));
    let mut ok = menu_record(1, 0, "ok");
    ok.menu_btn = Some(vec![MenuButton { id: 1, name: "add".to_string(), desc: "Add".to_string() }]);
    let tree = build_tree(&vec![ok, broken], 0);
    assert_eq!(tree.len(), 1);
    assert_eq!(tree[0].menu_btn.len(), 1);
}

#[test]
fn granted_menus_bring_their_ancestors_only() {
    let rows = vec![
        menu_record(1, 0, "system"),
        menu_record(2, 1, "users"),
        menu_record(3, 1, "roles"),
        menu_record(4, 0, "files"),
    ];
    let filtered = filter_authorized_with_ancestors(&rows, &vec![3, 99]);
    let ids: Vec<i64> = filtered.iter().map(|r| r.id).collect();
    assert_eq!(ids, vec![1, 3]);
}

#[test]
fn ancestor_walks_stop_on_cycles() {
    let rows = vec![menu_record(1, 2, "a"), menu_record(2, 1, "b")];
    let filtered = filter_authorized_with_ancestors(&rows, &vec![1]);
    assert_eq!(filtered.len(), 2);
}

#[test]
fn grants_are_grouped_by_menu() {
    let matrix = menu_role_matrix(&vec![(2, 888), (1, 9), (2, 7)]);
    assert_eq!(matrix.len(), 2);
    assert_eq!(matrix[0].menu_id, 1);
    assert_eq!(matrix[0].authority_ids, vec![9]);
    assert_eq!(matrix[1].menu_id, 2);
    assert_eq!(matrix[1].authority_ids, vec![888, 7]);
}
