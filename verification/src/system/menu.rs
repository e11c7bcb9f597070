//! The console's menus: the default menu set, menu views built from stored
//! rows, the menus an authority sees with their ancestors, and the grouping
//! of menu grants.
use vstd::prelude::*;

use crate::order::{is_stable_order, stable_order};
use crate::sets::contains_id;
use crate::text::owned;

verus! {

broadcast use vstd::seq_lib::group_seq_properties;

#[derive(Debug, Clone)]
pub struct MenuMeta {
    pub active_name: String,
    pub keep_alive: bool,
    pub default_menu: bool,
    pub title: String,
    pub icon: String,
    pub close_tab: bool,
    pub transition_type: String,
}

#[derive(Debug, Clone)]
pub struct MenuParameter {
    pub id: i64,
    pub sys_base_menu_id: i64,
    pub parameter_type: String,
    pub key: String,
    pub value: String,
}

#[derive(Debug, Clone)]
pub struct MenuButton {
    pub id: i64,
    pub name: String,
    pub desc: String,
}

/// A menu as the console shows it, with its sub-menus.
#[derive(Debug)]
pub struct MenuView {
    pub id: i64,
    pub parent_id: i64,
    pub path: String,
    pub name: String,
    pub hidden: bool,
    pub component: String,
    pub sort: i32,
    pub meta: MenuMeta,
    pub parameters: Vec<MenuParameter>,
    pub menu_btn: Vec<MenuButton>,
    pub children: Vec<MenuView>,
}

/// A stored menu row. Its parameter and button lists are `None` when the
/// stored lists could not be read as such.
#[derive(Debug, Clone)]
pub struct MenuRecord {
    pub id: i64,
    pub parent_id: i64,
    pub path: String,
    pub name: String,
    pub hidden: bool,
    pub component: String,
    pub sort: i32,
    pub active_name: String,
    pub keep_alive: bool,
    pub default_menu: bool,
    pub title: String,
    pub icon: String,
    pub close_tab: bool,
    pub transition_type: String,
    pub parameters: Option<Vec<MenuParameter>>,
    pub menu_btn: Option<Vec<MenuButton>>,
}

#[derive(Debug, Clone)]
pub struct MenuIdRequest {
    pub id: i64,
}

#[derive(Debug, Clone)]
pub struct MenuAuthorityRequest {
    pub authority_id: i64,
}

#[derive(Debug)]
pub struct AddMenuAuthorityRequest {
    pub menus: Vec<MenuView>,
    pub authority_id: i64,
}

#[derive(Debug, Clone)]
pub struct SetAuthorityMenusRequest {
    pub authority_id: i64,
    pub menu_ids: Vec<i64>,
}

#[derive(Debug, Clone)]
pub struct SetMenuRolesRequest {
    pub menu_id: i64,
    pub authority_ids: Vec<i64>,
}

/// A menu granted to an authority.
#[derive(Debug, Clone)]
pub struct AssignedMenu {
    pub menu_id: i64,
    pub parent_id: i64,
}

/// The authorities a menu is granted to, and those whose default route it is.
#[derive(Debug, Clone)]
pub struct MenuRoleSelection {
    pub authority_ids: Vec<i64>,
    pub default_router_authority_ids: Vec<i64>,
}

/// One menu and the authorities it is granted to.
#[derive(Debug, Clone)]
pub struct MenuRoleMatrixItem {
    pub menu_id: i64,
    pub authority_ids: Vec<i64>,
}

/// Why a menu operation failed.
#[derive(Debug)]
pub enum MenuError {
    NotFound,
    InvalidPayload,
}

// ---------------------------------------------------------------------------
// The default menus.
// ---------------------------------------------------------------------------
/// A top-level menu with the given id, name, title, component and icon: its
/// path is its name, its sort is its id, and everything else is empty.
pub open spec fn is_default_menu(
    v: MenuView,
    id: i64,
    name: Seq<char>,
    title: Seq<char>,
    component: Seq<char>,
    icon: Seq<char>,
) -> bool {
    &&& v.id == id
    &&& v.parent_id == 0
    &&& v.path@ == name
    &&& v.name@ == name
    &&& !v.hidden
    &&& v.component@ == component
    &&& v.sort == id as i32
    &&& v.meta.active_name@ == Seq::<char>::empty()
    &&& !v.meta.keep_alive
    &&& !v.meta.default_menu
    &&& v.meta.title@ == title
    &&& v.meta.icon@ == icon
    &&& !v.meta.close_tab
    &&& v.meta.transition_type@ == Seq::<char>::empty()
    &&& v.parameters@.len() == 0
    &&& v.menu_btn@.len() == 0
    &&& v.children@.len() == 0
}

pub fn default_menu(id: i64, name: &str, title: &str, component: &str, icon: &str) -> (r: MenuView)
    ensures
        is_default_menu(r, id, name@, title@, component@, icon@),
{
    MenuView {
        id,
        parent_id: 0,
        path: owned(name),
        name: owned(name),
        hidden: false,
        component: owned(component),
        sort: id as i32,
        meta: MenuMeta {
            active_name: String::new(),
            keep_alive: false,
            default_menu: false,
            title: owned(title),
            icon: owned(icon),
            close_tab: false,
            transition_type: String::new(),
        },
        parameters: Vec::new(),
        menu_btn: Vec::new(),
        children: Vec::new(),
    }
}

/// The default menus: id, name, title, component and icon of each, in order.
pub open spec fn default_menu_table() -> Seq<(i64, Seq<char>, Seq<char>, Seq<char>, Seq<char>)> {
    seq![
        (1, "dashboard"@, "Dashboard"@, "view/dashboard/index.vue"@, "odometer"@),
        (2, "users"@, "User"@, "view/users/index.vue"@, "user"@),
        (3, "roles"@, "Role"@, "view/roles/index.vue"@, "shield"@),
        (4, "menus"@, "Menu"@, "view/menus/index.vue"@, "menu"@),
        (5, "apis"@, "API"@, "view/apis/index.vue"@, "route"@),
        (6, "params"@, "Param"@, "view/params/index.vue"@, "sliders"@),
        (7, "dictionaries"@, "Dictionary"@, "view/dictionaries/index.vue"@, "book"@),
        (8, "files"@, "File"@, "view/files/index.vue"@, "file"@),
        (9, "login-logs"@, "Login logs"@, "view/login-logs/index.vue"@, "history"@),
        (10, "operation-logs"@, "Operation logs"@, "view/operation-logs/index.vue"@, "list"@),
        (11, "profile"@, "Profile"@, "view/profile/index.vue"@, "user"@),
        (12, "system-config"@, "System config"@, "view/system-config/index.vue"@, "settings"@),
        (13, "system-state"@, "System status"@, "view/system-state/index.vue"@, "activity"@),
    ]
}

/// The menus every installation starts with, one per row of the table.
pub fn default_menus() -> (r: Vec<MenuView>)
    ensures
        r@.len() == default_menu_table().len(),
        forall|i: int|
            0 <= i < r@.len() ==> {
                let e = #[trigger] default_menu_table()[i];
                is_default_menu(r@[i], e.0, e.1, e.2, e.3, e.4)
            },
{
    let mut r: Vec<MenuView> = Vec::new();
    r.push(default_menu(1, "dashboard", "Dashboard", "view/dashboard/index.vue", "odometer"));
    r.push(default_menu(2, "users", "User", "view/users/index.vue", "user"));
    r.push(default_menu(3, "roles", "Role", "view/roles/index.vue", "shield"));
    r.push(default_menu(4, "menus", "Menu", "view/menus/index.vue", "menu"));
    r.push(default_menu(5, "apis", "API", "view/apis/index.vue", "route"));
    r.push(default_menu(6, "params", "Param", "view/params/index.vue", "sliders"));
    r.push(default_menu(7, "dictionaries", "Dictionary", "view/dictionaries/index.vue", "book"));
    r.push(default_menu(8, "files", "File", "view/files/index.vue", "file"));
    r.push(default_menu(9, "login-logs", "Login logs", "view/login-logs/index.vue", "history"));
    r.push(
        default_menu(10, "operation-logs", "Operation logs", "view/operation-logs/index.vue", "list"),
    );
    r.push(default_menu(11, "profile", "Profile", "view/profile/index.vue", "user"));
    r.push(
        default_menu(12, "system-config", "System config", "view/system-config/index.vue", "settings"),
    );
    r.push(
        default_menu(13, "system-state", "System status", "view/system-state/index.vue", "activity"),
    );
    r
}

// ---------------------------------------------------------------------------
// Views of stored rows.
// ---------------------------------------------------------------------------
/// Whether a row's parameter and button lists could be read.
pub open spec fn buildable(row: MenuRecord) -> bool {
    row.parameters is Some && row.menu_btn is Some
}

/// `v` shows `row` (sub-menus aside).
pub open spec fn view_of_row(v: MenuView, row: MenuRecord) -> bool {
    &&& v.id == row.id
    &&& v.parent_id == row.parent_id
    &&& v.path == row.path
    &&& v.name == row.name
    &&& v.hidden == row.hidden
    &&& v.component == row.component
    &&& v.sort == row.sort
    &&& v.meta.active_name == row.active_name
    &&& v.meta.keep_alive == row.keep_alive
    &&& v.meta.default_menu == row.default_menu
    &&& v.meta.title == row.title
    &&& v.meta.icon == row.icon
    &&& v.meta.close_tab == row.close_tab
    &&& v.meta.transition_type == row.transition_type
    &&& row.parameters matches Some(p) && v.parameters@ == p@
    &&& row.menu_btn matches Some(b) && v.menu_btn@ == b@
}

fn clone_parameters(v: &Vec<MenuParameter>) -> (r: Vec<MenuParameter>)
    ensures
        r@ == v@,
{
    let mut r: Vec<MenuParameter> = Vec::new();
    let mut i: usize = 0;
    while i < v.len()
        invariant
            i <= v@.len(),
            r@ == v@.take(i as int),
        decreases v@.len() - i,
    {
        let p = &v[i];
        r.push(
            MenuParameter {
                id: p.id,
                sys_base_menu_id: p.sys_base_menu_id,
                parameter_type: p.parameter_type.clone(),
                key: p.key.clone(),
                value: p.value.clone(),
            },
        );
        assert(v@.take(i + 1) =~= v@.take(i as int).push(v@[i as int]));
        i += 1;
    }
    assert(v@.take(v@.len() as int) =~= v@);
    r
}

fn clone_buttons(v: &Vec<MenuButton>) -> (r: Vec<MenuButton>)
    ensures
        r@ == v@,
{
    let mut r: Vec<MenuButton> = Vec::new();
    let mut i: usize = 0;
    while i < v.len()
        invariant
            i <= v@.len(),
            r@ == v@.take(i as int),
        decreases v@.len() - i,
    {
        let b = &v[i];
        r.push(MenuButton { id: b.id, name: b.name.clone(), desc: b.desc.clone() });
        assert(v@.take(i + 1) =~= v@.take(i as int).push(v@[i as int]));
        i += 1;
    }
    assert(v@.take(v@.len() as int) =~= v@);
    r
}

/// The view of a stored row, without sub-menus; a row whose lists could not
/// be read is an invalid payload.
pub fn build_menu_view(row: &MenuRecord) -> (r: Result<MenuView, MenuError>)
    ensures
        buildable(*row) ==> (r matches Ok(v) && view_of_row(v, *row) && v.children@.len() == 0),
        !buildable(*row) ==> (r matches Err(MenuError::InvalidPayload)),
{
    let parameters = match &row.parameters {
        Some(p) => clone_parameters(p),
        None => {
            return Err(MenuError::InvalidPayload);
        },
    };
    let menu_btn = match &row.menu_btn {
        Some(b) => clone_buttons(b),
        None => {
            return Err(MenuError::InvalidPayload);
        },
    };
    Ok(
        MenuView {
            id: row.id,
            parent_id: row.parent_id,
            path: row.path.clone(),
            name: row.name.clone(),
            hidden: row.hidden,
            component: row.component.clone(),
            sort: row.sort,
            meta: MenuMeta {
                active_name: row.active_name.clone(),
                keep_alive: row.keep_alive,
                default_menu: row.default_menu,
                title: row.title.clone(),
                icon: row.icon.clone(),
                close_tab: row.close_tab,
                transition_type: row.transition_type.clone(),
            },
            parameters,
            menu_btn,
            children: Vec::new(),
        },
    )
}

// ---------------------------------------------------------------------------
// Authorized menus and their ancestors.
// ---------------------------------------------------------------------------
/// The parent of the menu with id `id`: that of the last row with this id.
pub open spec fn parent_of_id(rows: Seq<MenuRecord>, id: i64) -> Option<i64>
    decreases rows.len(),
{
    if rows.len() == 0 {
        None
    } else if rows.last().id == id {
        Some(rows.last().parent_id)
    } else {
        parent_of_id(rows.drop_last(), id)
    }
}

/// Where `n` steps up the parent links from `from` lead; a step from the
/// root (`0`) or from an id without a row leads nowhere.
pub open spec fn walk_up(rows: Seq<MenuRecord>, from: i64, n: nat) -> Option<i64>
    decreases n,
{
    if n == 0 {
        Some(from)
    } else {
        match walk_up(rows, from, (n - 1) as nat) {
            Some(x) => if x != 0 {
                parent_of_id(rows, x)
            } else {
                None
            },
            None => None,
        }
    }
}

/// A menu is shown to an authority when it is a stored menu other than the
/// root and it is granted or an ancestor of a granted menu.
pub open spec fn shown_menu(rows: Seq<MenuRecord>, granted: Seq<i64>, id: i64) -> bool {
    &&& id != 0
    &&& parent_of_id(rows, id) is Some
    &&& exists|g: int, n: nat| 0 <= g < granted.len() && walk_up(rows, granted[g], n) == Some(id)
}

/// Some walk up from one of the first `upto` granted menus reaches `x`.
pub open spec fn reached_from(rows: Seq<MenuRecord>, granted: Seq<i64>, upto: int, x: i64) -> bool {
    exists|g: int, n: nat| 0 <= g < upto && walk_up(rows, granted[g], n) == Some(x)
}

/// The menus shown to an authority include the parent of every shown menu,
/// unless the parent is the root or has no row.
pub proof fn lemma_shown_menus_keep_their_parents(rows: Seq<MenuRecord>, granted: Seq<i64>, id: i64, parent: i64)
    requires
        shown_menu(rows, granted, id),
        parent_of_id(rows, id) == Some(parent),
        parent != 0,
        parent_of_id(rows, parent) is Some,
    ensures
        shown_menu(rows, granted, parent),
{
    let (g, n) = choose|g: int, n: nat| 0 <= g < granted.len() && walk_up(rows, granted[g], n) == Some(id);
    assert(walk_up(rows, granted[g], n + 1) == Some(parent));
}

/// Every granted menu that has a row is shown.
pub proof fn lemma_granted_menus_are_shown(rows: Seq<MenuRecord>, granted: Seq<i64>, g: int)
    requires
        0 <= g < granted.len(),
        granted[g] != 0,
        parent_of_id(rows, granted[g]) is Some,
    ensures
        shown_menu(rows, granted, granted[g]),
{
    assert(walk_up(rows, granted[g], 0) == Some(granted[g]));
}

/// The rows of `prefix` whose menus are shown, in order.
pub open spec fn shown_rows(rows: Seq<MenuRecord>, granted: Seq<i64>, prefix: Seq<MenuRecord>) -> Seq<
    MenuRecord,
> {
    prefix.filter(|row: MenuRecord| shown_menu(rows, granted, row.id))
}

/// Two rows hold the same menu: the same fields, and lists with the same
/// entries.
pub open spec fn same_record(a: MenuRecord, b: MenuRecord) -> bool {
    &&& a.id == b.id
    &&& a.parent_id == b.parent_id
    &&& a.path == b.path
    &&& a.name == b.name
    &&& a.hidden == b.hidden
    &&& a.component == b.component
    &&& a.sort == b.sort
    &&& a.active_name == b.active_name
    &&& a.keep_alive == b.keep_alive
    &&& a.default_menu == b.default_menu
    &&& a.title == b.title
    &&& a.icon == b.icon
    &&& a.close_tab == b.close_tab
    &&& a.transition_type == b.transition_type
    &&& match (a.parameters, b.parameters) {
        (Some(p), Some(q)) => p@ == q@,
        (None, None) => true,
        _ => false,
    }
    &&& match (a.menu_btn, b.menu_btn) {
        (Some(p), Some(q)) => p@ == q@,
        (None, None) => true,
        _ => false,
    }
}

/// A copy of a stored row.
pub fn copy_record(row: &MenuRecord) -> (r: MenuRecord)
    ensures
        same_record(r, *row),
{
    MenuRecord {
        id: row.id,
        parent_id: row.parent_id,
        path: row.path.clone(),
        name: row.name.clone(),
        hidden: row.hidden,
        component: row.component.clone(),
        sort: row.sort,
        active_name: row.active_name.clone(),
        keep_alive: row.keep_alive,
        default_menu: row.default_menu,
        title: row.title.clone(),
        icon: row.icon.clone(),
        close_tab: row.close_tab,
        transition_type: row.transition_type.clone(),
        parameters: match &row.parameters {
            Some(p) => Some(clone_parameters(p)),
            None => None,
        },
        menu_btn: match &row.menu_btn {
            Some(b) => Some(clone_buttons(b)),
            None => None,
        },
    }
}

fn parent_lookup(rows: &Vec<MenuRecord>, id: i64) -> (r: Option<i64>)
    ensures
        r == parent_of_id(rows@, id),
{
    let mut i: usize = rows.len();
    assert(rows@.take(i as int) =~= rows@);
    while i > 0
        invariant
            i <= rows@.len(),
            parent_of_id(rows@, id) == parent_of_id(rows@.take(i as int), id),
        decreases i,
    {
        assert(rows@.take(i as int).drop_last() =~= rows@.take(i - 1));
        if rows[i - 1].id == id {
            return Some(rows[i - 1].parent_id);
        }
        i -= 1;
    }
    None
}

pub open spec fn row_ids(rows: Seq<MenuRecord>) -> Seq<i64> {
    rows.map_values(|r: MenuRecord| r.id)
}

proof fn lemma_parent_of_id_row(rows: Seq<MenuRecord>, id: i64)
    requires
        parent_of_id(rows, id) is Some,
    ensures
        row_ids(rows).contains(id),
    decreases rows.len(),
{
    if rows.last().id == id {
        assert(row_ids(rows)[rows.len() - 1] == id);
    } else {
        lemma_parent_of_id_row(rows.drop_last(), id);
        let k = choose|k: int| 0 <= k < row_ids(rows.drop_last()).len() && row_ids(rows.drop_last())[k] == id;
        assert(row_ids(rows)[k] == id);
    }
}

/// Distinct ids that all have rows are no more than the rows.
proof fn lemma_ids_with_rows_bounded(ids: Seq<i64>, rows: Seq<MenuRecord>)
    requires
        ids.no_duplicates(),
        forall|k: int| 0 <= k < ids.len() ==> parent_of_id(rows, #[trigger] ids[k]) is Some,
    ensures
        ids.len() <= rows.len(),
{
    assert forall|x: i64| ids.to_set().contains(x) implies row_ids(rows).to_set().contains(x) by {
        let k = choose|k: int| 0 <= k < ids.len() && ids[k] == x;
        lemma_parent_of_id_row(rows, ids[k]);
    }
    ids.unique_seq_to_set();
    row_ids(rows).lemma_cardinality_of_set();
    vstd::set_lib::lemma_len_subset(ids.to_set(), row_ids(rows).to_set());
}

/// A shown menu's parent, when it is a stored menu other than the root, is
/// shown too.
pub open spec fn closed_upward(rows: Seq<MenuRecord>, included: Seq<i64>, x: i64) -> bool {
    match parent_of_id(rows, x) {
        Some(p) => p == 0 || parent_of_id(rows, p) is None || included.contains(p),
        None => true,
    }
}

proof fn lemma_walk_step(rows: Seq<MenuRecord>, from: i64, n: nat, x: i64)
    requires
        walk_up(rows, from, n) == Some(x),
        x != 0,
    ensures
        walk_up(rows, from, n + 1) == parent_of_id(rows, x),
{
}

/// The rows of the menus granted to an authority and of all their ancestors,
/// in row order.
pub fn filter_authorized_with_ancestors(rows: &Vec<MenuRecord>, granted: &Vec<i64>) -> (r: Vec<
    MenuRecord,
>)
    ensures
        r@.len() == shown_rows(rows@, granted@, rows@).len(),
        forall|k: int| 0 <= k < r@.len() ==> same_record(#[trigger] r@[k], shown_rows(rows@, granted@, rows@)[k]),
{
    let mut included: Vec<i64> = Vec::new();
    let mut t: usize = 0;
    while t < granted.len()
        invariant
            t <= granted@.len(),
            included@.no_duplicates(),
            forall|k: int|
                0 <= k < included@.len() ==> #[trigger] included@[k] != 0 && parent_of_id(
                    rows@,
                    included@[k],
                ) is Some,
            forall|k: int| 0 <= k < included@.len() ==> reached_from(rows@, granted@, t as int, #[trigger] included@[k]),
            forall|k: int| 0 <= k < included@.len() ==> closed_upward(rows@, included@, #[trigger] included@[k]),
            forall|g: int|
                0 <= g < t && #[trigger] granted@[g] != 0 && parent_of_id(rows@, granted@[g]) is Some
                    ==> included@.contains(granted@[g]),
        decreases granted@.len() - t,
    {
        let start = granted[t];
        let mut current = start;
        let ghost mut first = true;
        let ghost mut prev: i64 = 0;
        let ghost mut steps: nat = 0;
        while current != 0
            invariant
                t < granted@.len(),
                start == granted@[t as int],
                first ==> current == start,
                !first ==> (start != 0 && parent_of_id(rows@, start) is Some ==> included@.contains(start)),
                walk_up(rows@, start, steps) == Some(current),
                included@.no_duplicates(),
                !first ==> included@.contains(prev) && parent_of_id(rows@, prev) == Some(current),
                forall|k: int|
                    0 <= k < included@.len() ==> #[trigger] included@[k] != 0 && parent_of_id(
                        rows@,
                        included@[k],
                    ) is Some,
                forall|k: int|
                    0 <= k < included@.len() ==> reached_from(rows@, granted@, t + 1, #[trigger] included@[k]),
                forall|k: int|
                    0 <= k < included@.len() ==> closed_upward(rows@, included@, #[trigger] included@[k])
                        || (!first && included@[k] == prev),
                forall|g: int|
                    0 <= g < t && #[trigger] granted@[g] != 0 && parent_of_id(rows@, granted@[g]) is Some
                        ==> included@.contains(granted@[g]),
            ensures
                current == 0 || parent_of_id(rows@, current) is None || included@.contains(current),
            decreases rows@.len() - included@.len(),
        {
            let parent = match parent_lookup(rows, current) {
                Some(parent) => parent,
                None => {
                    break;
                },
            };
            if contains_id(&included, current) {
                break;
            }
            proof {
                let with_current = included@.push(current);
                assert(with_current.no_duplicates());
                assert forall|k: int| 0 <= k < with_current.len() implies parent_of_id(
                    rows@,
                    #[trigger] with_current[k],
                ) is Some by {
                    if k < included@.len() {
                        assert(with_current[k] == included@[k]);
                    }
                }
                lemma_ids_with_rows_bounded(with_current, rows@);
                lemma_walk_step(rows@, start, steps, current);
            }
            let ghost old_included = included@;
            included.push(current);
            proof {
                assert forall|k: int| 0 <= k < included@.len() implies reached_from(
                    rows@,
                    granted@,
                    t + 1,
                    #[trigger] included@[k],
                ) by {
                    if k < old_included.len() {
                        assert(included@[k] == old_included[k]);
                    } else {
                        assert(walk_up(rows@, granted@[t as int], steps) == Some(included@[k]));
                    }
                }
                assert forall|k: int|
                    0 <= k < included@.len() implies closed_upward(rows@, included@, #[trigger] included@[k])
                        || included@[k] == current by {
                    if k < old_included.len() {
                        assert(included@[k] == old_included[k]);
                        if !closed_upward(rows@, old_included, old_included[k]) {
                            assert(!first && old_included[k] == prev);
                            assert(included@.contains(current));
                        } else {
                            if let Some(p) = parent_of_id(rows@, old_included[k]) {
                                if old_included.contains(p) {
                                    let j = choose|j: int| 0 <= j < old_included.len() && old_included[j] == p;
                                    assert(included@[j] == p);
                                }
                            }
                        }
                    }
                }
                assert forall|g: int|
                    0 <= g < t && #[trigger] granted@[g] != 0 && parent_of_id(rows@, granted@[g]) is Some
                        implies included@.contains(granted@[g]) by {
                    let j = choose|j: int| 0 <= j < old_included.len() && old_included[j] == granted@[g];
                    assert(included@[j] == granted@[g]);
                }
                if !first && start != 0 && parent_of_id(rows@, start) is Some {
                    let j = choose|j: int| 0 <= j < old_included.len() && old_included[j] == start;
                    assert(included@[j] == start);
                }
                if first {
                    assert(included@[included@.len() - 1] == start);
                }
                prev = current;
                first = false;
                steps = steps + 1;
            }
            current = parent;
        }
        proof {
            // Whichever way the walk ended, the last menu added is closed.
            assert forall|k: int| 0 <= k < included@.len() implies closed_upward(
                rows@,
                included@,
                #[trigger] included@[k],
            ) by {
                if !first && included@[k] == prev {
                    assert(parent_of_id(rows@, prev) == Some(current));
                }
            }
            if first && start != 0 && parent_of_id(rows@, start) is Some {
                assert(included@.contains(start));
            }
            assert forall|k: int| 0 <= k < included@.len() implies reached_from(
                rows@,
                granted@,
                t + 1,
                #[trigger] included@[k],
            ) by {
                let x = included@[k];
            }
        }
        t += 1;
    }
    proof {
        assert(t == granted@.len());
        lemma_included_exact(rows@, granted@, included@);
    }
    let mut r: Vec<MenuRecord> = Vec::new();
    let mut i: usize = 0;
    while i < rows.len()
        invariant
            i <= rows@.len(),
            forall|x: i64| included@.contains(x) <==> shown_menu(rows@, granted@, x),
            r@.len() == shown_rows(rows@, granted@, rows@.take(i as int)).len(),
            forall|k: int|
                0 <= k < r@.len() ==> same_record(#[trigger] r@[k], shown_rows(rows@, granted@, rows@.take(i as int))[k]),
        decreases rows@.len() - i,
    {
        proof {
            assert(rows@.take(i + 1).drop_last() =~= rows@.take(i as int));
            reveal_with_fuel(Seq::filter, 1);
        }
        if contains_id(&included, rows[i].id) {
            r.push(copy_record(&rows[i]));
        }
        i += 1;
    }
    assert(rows@.take(rows@.len() as int) =~= rows@);
    r
}

/// The ids collected are exactly the shown menus.
proof fn lemma_included_exact(rows: Seq<MenuRecord>, granted: Seq<i64>, included: Seq<i64>)
    requires
        forall|k: int|
            0 <= k < included.len() ==> #[trigger] included[k] != 0 && parent_of_id(rows, included[k]) is Some,
        forall|k: int|
            0 <= k < included.len() ==> reached_from(rows, granted, granted.len() as int, #[trigger] included[k]),
        forall|k: int| 0 <= k < included.len() ==> closed_upward(rows, included, #[trigger] included[k]),
        forall|g: int|
            0 <= g < granted.len() && #[trigger] granted[g] != 0 && parent_of_id(rows, granted[g]) is Some
                ==> included.contains(granted[g]),
    ensures
        forall|x: i64| included.contains(x) <==> shown_menu(rows, granted, x),
{
    assert forall|x: i64| included.contains(x) implies shown_menu(rows, granted, x) by {
        let k = choose|k: int| 0 <= k < included.len() && included[k] == x;
        assert(reached_from(rows, granted, granted.len() as int, included[k]));
    }
    assert forall|x: i64| shown_menu(rows, granted, x) implies included.contains(x) by {
        let (g, n) = choose|g: int, n: nat| 0 <= g < granted.len() && walk_up(rows, granted[g], n) == Some(x);
        lemma_walk_included(rows, granted, included, g, n);
    }
}

proof fn lemma_walk_included(rows: Seq<MenuRecord>, granted: Seq<i64>, included: Seq<i64>, g: int, n: nat)
    requires
        0 <= g < granted.len(),
        walk_up(rows, granted[g], n) matches Some(x) && x != 0 && parent_of_id(rows, x) is Some,
        forall|k: int| 0 <= k < included.len() ==> closed_upward(rows, included, #[trigger] included[k]),
        forall|h: int|
            0 <= h < granted.len() && #[trigger] granted[h] != 0 && parent_of_id(rows, granted[h]) is Some
                ==> included.contains(granted[h]),
    ensures
        included.contains(walk_up(rows, granted[g], n)->0),
    decreases n,
{
    if n > 0 {
        let y = walk_up(rows, granted[g], (n - 1) as nat)->0;
        assert(y != 0);
        assert(parent_of_id(rows, y) is Some);
        lemma_walk_included(rows, granted, included, g, (n - 1) as nat);
        let k = choose|k: int| 0 <= k < included.len() && included[k] == y;
        assert(closed_upward(rows, included, included[k]));
    } else {
        assert(granted[g] != 0);
    }
}

// ---------------------------------------------------------------------------
// Menu trees.
// ---------------------------------------------------------------------------
/// Below `parent`, no chain of rows is longer than `depth`: the descent from
/// `parent` ends.
pub open spec fn descent_bounded(rows: Seq<MenuRecord>, parent: i64, depth: nat) -> bool
    decreases depth,
{
    depth > 0 && forall|i: int|
        0 <= i < rows.len() && (#[trigger] rows[i]).parent_id == parent ==> descent_bounded(
            rows,
            rows[i].id,
            (depth - 1) as nat,
        )
}

/// The rows below `parent` that can be shown, by position.
pub open spec fn child_rows(rows: Seq<MenuRecord>, parent: i64) -> Seq<int> {
    Seq::new(rows.len(), |i: int| i).filter(|i: int| rows[i].parent_id == parent && buildable(rows[i]))
}

/// The `(sort, id)` keys of rows at the given positions.
pub open spec fn keys_at(rows: Seq<MenuRecord>, positions: Seq<int>) -> Seq<(i32, i64)> {
    positions.map_values(|i: int| (rows[i].sort, rows[i].id))
}

/// `views` is the menu tree below `parent`: the showable rows below it,
/// ordered by `(sort, id)` as a stable sort orders them, each shown with its
/// own tree below it.
pub open spec fn is_menu_tree(rows: Seq<MenuRecord>, parent: i64, views: Seq<MenuView>, depth: nat) -> bool
    decreases depth,
{
    let c = child_rows(rows, parent);
    depth > 0 && views.len() == c.len() && exists|order: Seq<usize>|
        #[trigger] is_stable_order(keys_at(rows, c), order) && forall|k: int|
            0 <= k < views.len() ==> view_of_row(#[trigger] views[k], rows[c[order[k] as int]])
                && is_menu_tree(rows, rows[c[order[k] as int]].id, views[k].children@, (depth - 1) as nat)
}

/// The menu tree below `parent`, sorted at each level by `(sort, id)`; rows
/// whose lists cannot be read are left out. The descent below `parent` must
/// end (a cycle of parent links below it would recurse without end).
pub fn build_tree(rows: &Vec<MenuRecord>, parent: i64) -> (r: Vec<MenuView>)
    requires
        exists|d: nat| descent_bounded(rows@, parent, d),
    ensures
        exists|d: nat| is_menu_tree(rows@, parent, r@, d),
{
    let ghost d = choose|d: nat| descent_bounded(rows@, parent, d);
    let r = build_tree_below(rows, parent, Ghost(d));
    r
}

fn build_tree_below(rows: &Vec<MenuRecord>, parent: i64, Ghost(depth): Ghost<nat>) -> (r: Vec<MenuView>)
    requires
        descent_bounded(rows@, parent, depth),
    ensures
        is_menu_tree(rows@, parent, r@, depth),
    decreases depth,
{
    let ghost c = child_rows(rows@, parent);
    // Positions of the showable rows below `parent`, and their keys.
    let mut positions: Vec<usize> = Vec::new();
    let mut keys: Vec<(i32, i64)> = Vec::new();
    let mut i: usize = 0;
    while i < rows.len()
        invariant
            i <= rows@.len(),
            positions@.len() == keys@.len(),
            positions@.map_values(|p: usize| p as int) == Seq::new(i as nat, |j: int| j).filter(
                |j: int| rows@[j].parent_id == parent && buildable(rows@[j]),
            ),
            forall|k: int| 0 <= k < positions@.len() ==> #[trigger] positions@[k] < i,
            forall|k: int|
                0 <= k < positions@.len() ==> rows@[#[trigger] positions@[k] as int].parent_id == parent
                    && buildable(rows@[positions@[k] as int]),
            forall|k: int|
                0 <= k < keys@.len() ==> #[trigger] keys@[k] == (
                    rows@[positions@[k] as int].sort,
                    rows@[positions@[k] as int].id,
                ),
        decreases rows@.len() - i,
    {
        proof {
            assert(Seq::new((i + 1) as nat, |j: int| j).drop_last() =~= Seq::new(i as nat, |j: int| j));
            reveal_with_fuel(Seq::filter, 1);
        }
        if rows[i].parent_id == parent && rows[i].parameters.is_some() && rows[i].menu_btn.is_some() {
            positions.push(i);
            keys.push((rows[i].sort, rows[i].id));
            proof {
                assert(positions@.map_values(|p: usize| p as int) =~= positions@.drop_last().map_values(
                    |p: usize| p as int,
                ).push(i as int));
            }
        } else {
            proof {
                assert(positions@.map_values(|p: usize| p as int) =~= positions@.map_values(
                    |p: usize| p as int,
                ));
            }
        }
        i += 1;
    }
    proof {
        assert(Seq::new(rows@.len(), |j: int| j) =~= Seq::new(i as nat, |j: int| j));
        assert(keys@ =~= keys_at(rows@, c)) by {
            assert(positions@.map_values(|p: usize| p as int) == c);
            assert forall|k: int| 0 <= k < keys@.len() implies keys@[k] == keys_at(rows@, c)[k] by {
                assert(c[k] == positions@[k] as int);
            }
        }
    }
    let order = stable_order(&keys);
    let mut views: Vec<MenuView> = Vec::new();
    let mut k: usize = 0;
    while k < order.len()
        invariant
            k <= order@.len(),
            is_stable_order(keys_at(rows@, c), order@),
            positions@.map_values(|p: usize| p as int) == c,
            c == child_rows(rows@, parent),
            descent_bounded(rows@, parent, depth),
            positions@.len() == keys_at(rows@, c).len(),
            forall|j: int| 0 <= j < positions@.len() ==> #[trigger] positions@[j] < rows@.len(),
            forall|j: int|
                0 <= j < positions@.len() ==> rows@[#[trigger] positions@[j] as int].parent_id == parent
                    && buildable(rows@[positions@[j] as int]),
            views@.len() == k,
            forall|j: int|
                0 <= j < k ==> view_of_row(#[trigger] views@[j], rows@[c[order@[j] as int]]) && is_menu_tree(
                    rows@,
                    rows@[c[order@[j] as int]].id,
                    views@[j].children@,
                    (depth - 1) as nat,
                ),
        decreases order@.len() - k,
    {
        proof {
            assert(order@[k as int] < keys_at(rows@, c).len());
        }
        let pos = positions[order[k]];
        proof {
            assert(positions@.map_values(|p: usize| p as int)[order@[k as int] as int] == pos as int);
            assert(c[order@[k as int] as int] == pos as int);
            assert(rows@[pos as int].parent_id == parent);
            assert(descent_bounded(rows@, rows@[pos as int].id, (depth - 1) as nat));
        }
        let mut view = match build_menu_view(&rows[pos]) {
            Ok(view) => view,
            Err(_) => {
                proof {
                    assert(buildable(rows@[pos as int]));
                    assert(false);
                }
                return views;
            },
        };
        let children = build_tree_below(rows, rows[pos].id, Ghost((depth - 1) as nat));
        view.children = children;
        views.push(view);
        k += 1;
    }
    proof {
        assert(is_stable_order(keys_at(rows@, c), order@));
        assert(is_menu_tree(rows@, parent, views@, depth));
    }
    views
}

// ---------------------------------------------------------------------------
// Grants.
// ---------------------------------------------------------------------------
/// The authorities granted menu `menu_id`, in the order of the grant rows.
pub open spec fn grants_of(rows: Seq<(i64, i64)>, menu_id: i64) -> Seq<i64> {
    rows.filter(|r: (i64, i64)| r.0 == menu_id).map_values(|r: (i64, i64)| r.1)
}

pub open spec fn matrix_has(items: Seq<MenuRoleMatrixItem>, menu_id: i64) -> bool {
    exists|k: int| 0 <= k < items.len() && (#[trigger] items[k]).menu_id == menu_id
}

pub open spec fn rows_grant(rows: Seq<(i64, i64)>, menu_id: i64) -> bool {
    exists|i: int| 0 <= i < rows.len() && (#[trigger] rows[i]).0 == menu_id
}

/// The menus of the grant rows, each once, ascending, each with its
/// authorities in row order.
pub fn menu_role_matrix(rows: &Vec<(i64, i64)>) -> (r: Vec<MenuRoleMatrixItem>)
    ensures
        forall|a: int, b: int| 0 <= a < b < r@.len() ==> r@[a].menu_id < r@[b].menu_id,
        forall|m: i64| #![trigger matrix_has(r@, m)] #![trigger rows_grant(rows@, m)]
            matrix_has(r@, m) <==> rows_grant(rows@, m),
        forall|k: int| 0 <= k < r@.len() ==> (#[trigger] r@[k]).authority_ids@ == grants_of(rows@, r@[k].menu_id),
{
    let mut menus: Vec<i64> = Vec::new();
    let mut i: usize = 0;
    while i < rows.len()
        invariant
            i <= rows@.len(),
            crate::sets::strictly_sorted(menus@),
            forall|m: i64| menus@.contains(m) <==> exists|j: int| 0 <= j < i && (#[trigger] rows@[j]).0 == m,
        decreases rows@.len() - i,
    {
        let m = rows[i].0;
        crate::sets::insert_sorted(&mut menus, m);
        proof {
            assert forall|x: i64| menus@.contains(x) implies exists|j: int|
                0 <= j < i + 1 && (#[trigger] rows@[j]).0 == x by {
                if x == m {
                    assert(rows@[i as int].0 == x);
                }
            }
        }
        i += 1;
    }
    let mut r: Vec<MenuRoleMatrixItem> = Vec::new();
    let mut k: usize = 0;
    while k < menus.len()
        invariant
            k <= menus@.len(),
            crate::sets::strictly_sorted(menus@),
            forall|m: i64| menus@.contains(m) <==> exists|j: int| 0 <= j < rows@.len() && (#[trigger] rows@[j]).0 == m,
            r@.len() == k,
            forall|j: int| 0 <= j < k ==> (#[trigger] r@[j]).menu_id == menus@[j],
            forall|j: int| 0 <= j < k ==> (#[trigger] r@[j]).authority_ids@ == grants_of(rows@, r@[j].menu_id),
        decreases menus@.len() - k,
    {
        let m = menus[k];
        let mut ids: Vec<i64> = Vec::new();
        let mut j: usize = 0;
        while j < rows.len()
            invariant
                j <= rows@.len(),
                ids@ == grants_of(rows@.take(j as int), m),
            decreases rows@.len() - j,
        {
            proof {
                assert(rows@.take(j + 1).drop_last() =~= rows@.take(j as int));
                reveal_with_fuel(Seq::filter, 1);
            }
            if rows[j].0 == m {
                ids.push(rows[j].1);
                proof {
                    assert(rows@.take(j + 1).filter(|r: (i64, i64)| r.0 == m) == rows@.take(j as int).filter(
                        |r: (i64, i64)| r.0 == m,
                    ).push(rows@[j as int]));
                }
            }
            j += 1;
        }
        assert(rows@.take(rows@.len() as int) =~= rows@);
        r.push(MenuRoleMatrixItem { menu_id: m, authority_ids: ids });
        k += 1;
    }
    proof {
        assert forall|m: i64| matrix_has(r@, m) implies rows_grant(rows@, m) by {
            let k = choose|k: int| 0 <= k < r@.len() && r@[k].menu_id == m;
            assert(menus@.contains(menus@[k]));
        }
        assert forall|m: i64| rows_grant(rows@, m) implies matrix_has(r@, m) by {
            assert(menus@.contains(m));
            let k = choose|k: int| 0 <= k < menus@.len() && menus@[k] == m;
            assert(r@[k].menu_id == m);
        }
    }
    r
}

/// The menus granted to an authority, each with its parent.
pub fn assigned_menus(rows: &Vec<MenuRecord>) -> (r: Vec<AssignedMenu>)
    ensures
        r@.len() == rows@.len(),
        forall|k: int|
            0 <= k < r@.len() ==> (#[trigger] r@[k]).menu_id == rows@[k].id && r@[k].parent_id
                == rows@[k].parent_id,
{
    let mut r: Vec<AssignedMenu> = Vec::new();
    let mut i: usize = 0;
    while i < rows.len()
        invariant
            i <= rows@.len(),
            r@.len() == i,
            forall|k: int|
                0 <= k < i ==> (#[trigger] r@[k]).menu_id == rows@[k].id && r@[k].parent_id
                    == rows@[k].parent_id,
        decreases rows@.len() - i,
    {
        r.push(AssignedMenu { menu_id: rows[i].id, parent_id: rows[i].parent_id });
        i += 1;
    }
    r
}

} // verus!
