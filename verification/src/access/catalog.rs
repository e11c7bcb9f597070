//! The access catalogue: the menu tree of directories, pages and actions, the
//! permissions it defines, and which of them are in force.
use vstd::prelude::*;

use super::error::CatalogError;
use crate::sets::{
    contains_id, contains_string, insert_sorted, insert_sorted_string, lemma_sorted_strings_distinct,
    lemma_sorted_strings_equal,
    lemma_strings_set_push, strictly_sorted, strings_distinct, strings_set, strings_sorted, strings_view,
};
use crate::text::{chars_of, str_eq, string_of};

verus! {

broadcast use vstd::seq_lib::group_seq_properties;

/// The kind of a menu node, stored in lower case.
#[derive(Debug, Clone, Copy, PartialEq, Eq, Structural)]
pub enum MenuType {
    Directory,
    Page,
    Action,
}

/// A node of the menu tree as the catalogue reads it.
#[derive(Debug, Clone)]
pub struct AccessNode {
    pub id: i64,
    pub parent_id: Option<i64>,
    pub menu_type: MenuType,
    pub status: String,
    pub permission: Option<String>,
}

/// An API route bound to a menu node.
#[derive(Debug, Clone)]
pub struct AccessBinding {
    pub menu_id: i64,
    pub method: String,
    pub path: String,
}

/// An API route with the permission that guards it.
#[derive(Debug, Clone)]
pub struct RouteBinding {
    pub method: String,
    pub path: String,
    pub permission: String,
}

pub open spec fn menu_type_text(t: MenuType) -> Seq<char> {
    match t {
        MenuType::Directory => "directory"@,
        MenuType::Page => "page"@,
        MenuType::Action => "action"@,
    }
}

impl MenuType {
    /// The stored (lower-case) name of the kind.
    pub fn as_str(&self) -> (r: &'static str)
        ensures
            r@ == menu_type_text(*self),
    {
        match self {
            MenuType::Directory => "directory",
            MenuType::Page => "page",
            MenuType::Action => "action",
        }
    }

    /// The stored name as an owned string.
    pub fn to_string(&self) -> (r: String)
        ensures
            r@ == menu_type_text(*self),
    {
        let v = chars_of(self.as_str());
        string_of(&v)
    }

    /// The kind whose stored name is exactly `value`.
    pub fn parse(value: &str) -> (r: Result<MenuType, CatalogError>)
        ensures
            r matches Ok(t) ==> menu_type_text(t) == value@,
            r is Err <==> (forall|t: MenuType| menu_type_text(t) != value@),
            r is Err ==> r == Err::<MenuType, CatalogError>(CatalogError::InvalidTree),
    {
        if str_eq(value, "directory") {
            assert(menu_type_text(MenuType::Directory) == value@);
            Ok(MenuType::Directory)
        } else if str_eq(value, "page") {
            assert(menu_type_text(MenuType::Page) == value@);
            Ok(MenuType::Page)
        } else if str_eq(value, "action") {
            assert(menu_type_text(MenuType::Action) == value@);
            Ok(MenuType::Action)
        } else {
            proof {
                assert forall|t: MenuType| menu_type_text(t) != value@ by {
                    match t {
                        MenuType::Directory => {},
                        MenuType::Page => {},
                        MenuType::Action => {},
                    }
                }
            }
            Err(CatalogError::InvalidTree)
        }
    }
}

impl core::str::FromStr for MenuType {
    type Err = CatalogError;

    fn from_str(value: &str) -> (r: Result<MenuType, CatalogError>)
        ensures
            r matches Ok(t) ==> menu_type_text(t) == value@,
            r is Err <==> (forall|t: MenuType| menu_type_text(t) != value@),
            r is Err ==> r == Err::<MenuType, CatalogError>(CatalogError::InvalidTree),
    {
        MenuType::parse(value)
    }
}

// ---------------------------------------------------------------------------
// The model: a map from node id to node, the later of two nodes with one id
// replacing the earlier.
// ---------------------------------------------------------------------------
/// The nodes keyed by id; where two nodes share an id the later one stands.
pub open spec fn node_map(nodes: Seq<AccessNode>) -> Map<i64, AccessNode>
    decreases nodes.len(),
{
    if nodes.len() == 0 {
        Map::empty()
    } else {
        node_map(nodes.drop_last()).insert(nodes.last().id, nodes.last())
    }
}

pub open spec fn ids_distinct(nodes: Seq<AccessNode>) -> bool {
    forall|i: int, j: int|
        0 <= i < nodes.len() && 0 <= j < nodes.len() && i != j ==> nodes[i].id != nodes[j].id
}

pub open spec fn perm_view(n: AccessNode) -> Option<Seq<char>> {
    match n.permission {
        Some(p) => Some(p@),
        None => None,
    }
}

/// The parent of node `id`, where `id` is a node that has one.
pub open spec fn parent_of(m: Map<i64, AccessNode>, id: i64) -> Option<i64> {
    if m.contains_key(id) {
        m[id].parent_id
    } else {
        None
    }
}

/// The id reached after `k` steps up the parent links from `start`.
pub open spec fn chain(m: Map<i64, AccessNode>, start: Option<i64>, k: nat) -> Option<i64>
    decreases k,
{
    if k == 0 {
        start
    } else {
        match chain(m, start, (k - 1) as nat) {
            Some(id) => parent_of(m, id),
            None => None,
        }
    }
}

/// Walking up from the parent of `n`, the root is reached after `k` steps,
/// without meeting `n` itself or any node twice.
pub open spec fn reaches_root_at(m: Map<i64, AccessNode>, n: AccessNode, k: nat) -> bool {
    &&& chain(m, n.parent_id, k) is None
    &&& forall|j: nat| j < k ==> chain(m, n.parent_id, j) != Some(n.id)
    &&& forall|i: nat, j: nat| i < j < k ==> chain(m, n.parent_id, i) != chain(m, n.parent_id, j)
}

pub open spec fn ancestry_acyclic(m: Map<i64, AccessNode>, n: AccessNode) -> bool {
    exists|k: nat| reaches_root_at(m, n, k)
}

pub open spec fn status_valid(n: AccessNode) -> bool {
    n.status@ == "enabled"@ || n.status@ == "disabled"@
}

pub open spec fn permission_valid(n: AccessNode) -> bool {
    match n.menu_type {
        MenuType::Directory => n.permission is None,
        _ => n.permission is Some && n.permission->0@.len() > 0,
    }
}

pub open spec fn has_kind(m: Map<i64, AccessNode>, id: i64, t: MenuType) -> bool {
    m.contains_key(id) && m[id].menu_type == t
}

/// An action hangs under a page, a page under a directory (or at the top),
/// a directory under a directory (or at the top).
pub open spec fn parent_kind_valid(m: Map<i64, AccessNode>, n: AccessNode) -> bool {
    match (n.menu_type, n.parent_id) {
        (MenuType::Action, Some(p)) => has_kind(m, p, MenuType::Page),
        (MenuType::Action, None) => false,
        (MenuType::Page, Some(p)) => has_kind(m, p, MenuType::Directory),
        (MenuType::Directory, Some(p)) => has_kind(m, p, MenuType::Directory),
        _ => true,
    }
}

pub open spec fn node_valid(m: Map<i64, AccessNode>, n: AccessNode) -> bool {
    &&& status_valid(n)
    &&& permission_valid(n)
    &&& parent_kind_valid(m, n)
    &&& ancestry_acyclic(m, n)
}

/// No permission is defined by two nodes.
pub open spec fn permissions_unique(m: Map<i64, AccessNode>) -> bool {
    forall|a: i64, b: i64|
        m.contains_key(a) && m.contains_key(b) && a != b && m[a].permission is Some
            && m[b].permission is Some ==> m[a].permission->0@ != m[b].permission->0@
}

/// The catalogue accepts the tree: every node is valid and permissions are unique.
pub open spec fn catalog_valid(m: Map<i64, AccessNode>) -> bool {
    &&& forall|id: i64| m.contains_key(id) ==> node_valid(m, #[trigger] m[id])
    &&& permissions_unique(m)
}

/// Node `id` and every node above it are enabled.
pub open spec fn effectively_enabled(m: Map<i64, AccessNode>, id: i64) -> bool {
    &&& m.contains_key(id)
    &&& forall|j: nat|
        (#[trigger] chain(m, Some(id), j) matches Some(x) ==> m.contains_key(x) && m[x].status@
            == "enabled"@)
}

/// The permissions of the effectively enabled nodes.
pub open spec fn enabled_permission_set(m: Map<i64, AccessNode>) -> Set<Seq<char>> {
    Set::new(
        |p: Seq<char>|
            exists|id: i64|
                effectively_enabled(m, id) && #[trigger] perm_view(m[id]) == Some(p),
    )
}

// ---------------------------------------------------------------------------
// Lemmas on the model.
// ---------------------------------------------------------------------------
/// For nodes with distinct ids, the map holds exactly those nodes.
pub proof fn lemma_node_map_distinct(s: Seq<AccessNode>)
    requires
        ids_distinct(s),
    ensures
        forall|j: int|
            0 <= j < s.len() ==> node_map(s).contains_key(#[trigger] s[j].id) && node_map(s)[s[j].id]
                == s[j],
        forall|x: i64| #[trigger]
            node_map(s).contains_key(x) ==> exists|j: int| 0 <= j < s.len() && s[j].id == x,
    decreases s.len(),
{
    if s.len() > 0 {
        let t = s.drop_last();
        assert(ids_distinct(t));
        lemma_node_map_distinct(t);
        assert forall|j: int| 0 <= j < s.len() implies node_map(s).contains_key(#[trigger] s[j].id)
            && node_map(s)[s[j].id] == s[j] by {
            if j < s.len() - 1 {
                assert(t[j] == s[j]);
                assert(s[j].id != s.last().id);
            }
        }
        assert forall|x: i64| #[trigger]
            node_map(s).contains_key(x) implies exists|j: int| 0 <= j < s.len() && s[j].id == x by {
            if x != s.last().id {
                assert(node_map(t).contains_key(x));
                let j = choose|j: int| 0 <= j < t.len() && t[j].id == x;
                assert(s[j] == t[j]);
            } else {
                assert(s[s.len() - 1].id == x);
            }
        }
    }
}

/// Replacing the node with a given id updates the map at that id.
pub proof fn lemma_node_map_update(s: Seq<AccessNode>, j: int, n: AccessNode)
    requires
        ids_distinct(s),
        0 <= j < s.len(),
        s[j].id == n.id,
    ensures
        ids_distinct(s.update(j, n)),
        node_map(s.update(j, n)) == node_map(s).insert(n.id, n),
{
    let u = s.update(j, n);
    assert(ids_distinct(u)) by {
        assert forall|a: int, b: int|
            0 <= a < u.len() && 0 <= b < u.len() && a != b implies u[a].id != u[b].id by {
            assert(u[a].id == s[a].id);
            assert(u[b].id == s[b].id);
        }
    }
    lemma_node_map_distinct(s);
    lemma_node_map_distinct(u);
    assert forall|x: i64| #[trigger] node_map(u).contains_key(x) <==> node_map(s).insert(
        n.id,
        n,
    ).contains_key(x) by {
        if node_map(u).contains_key(x) {
            let i = choose|i: int| 0 <= i < u.len() && u[i].id == x;
            assert(s[i].id == x);
        }
        if node_map(s).contains_key(x) {
            let i = choose|i: int| 0 <= i < s.len() && s[i].id == x;
            assert(u[i].id == x);
        }
        if x == n.id {
            assert(u[j].id == x);
        }
    }
    assert forall|x: i64| #[trigger] node_map(u).contains_key(x) implies node_map(u)[x]
        == node_map(s).insert(n.id, n)[x] by {
        let i = choose|i: int| 0 <= i < u.len() && u[i].id == x;
        if i != j {
            assert(u[i] == s[i]);
        }
    }
    assert(node_map(u) =~= node_map(s).insert(n.id, n));
}

/// Once the walk up stops, it stays stopped.
pub proof fn lemma_chain_stays_none(m: Map<i64, AccessNode>, start: Option<i64>, i: nat, j: nat)
    requires
        i <= j,
        chain(m, start, i) is None,
    ensures
        chain(m, start, j) is None,
    decreases j - i,
{
    if i < j {
        lemma_chain_stays_none(m, start, i, (j - 1) as nat);
    }
}

/// Every step that the walk takes before `k` leaves from a node of the map.
pub proof fn lemma_chain_prefix_in_map(m: Map<i64, AccessNode>, start: Option<i64>, k: nat, j: nat)
    requires
        j < k,
        chain(m, start, k) is Some,
    ensures
        chain(m, start, j) is Some,
        m.contains_key(chain(m, start, j)->0),
    decreases k - j,
{
    if j + 1 < k {
        lemma_chain_prefix_in_map(m, start, k, j + 1);
    } else {
        if chain(m, start, j) is None {
            lemma_chain_stays_none(m, start, j, k);
        }
    }
}

/// Walking `i` steps then `j` more is walking `i + j` steps.
pub proof fn lemma_chain_shift(m: Map<i64, AccessNode>, start: Option<i64>, i: nat, j: nat)
    ensures
        chain(m, chain(m, start, i), j) == chain(m, start, i + j),
    decreases j,
{
    if j > 0 {
        lemma_chain_shift(m, start, i, (j - 1) as nat);
    }
}

/// A distinct sequence drawn from another distinct sequence is no longer.
pub proof fn lemma_distinct_subset_len(a: Seq<i64>, b: Seq<i64>)
    requires
        a.no_duplicates(),
        b.no_duplicates(),
        forall|x: i64| a.contains(x) ==> b.contains(x),
    ensures
        a.len() <= b.len(),
{
    a.unique_seq_to_set();
    b.unique_seq_to_set();
    assert(a.to_set().subset_of(b.to_set()));
    vstd::set_lib::lemma_len_subset(a.to_set(), b.to_set());
}

pub open spec fn node_ids(s: Seq<AccessNode>) -> Seq<i64> {
    s.map_values(|n: AccessNode| n.id)
}

// ---------------------------------------------------------------------------
// Executable checks.
// ---------------------------------------------------------------------------
/// The position of the node with id `id`, if there is one.
pub fn find_node(nodes: &Vec<AccessNode>, id: i64) -> (r: Option<usize>)
    ensures
        r matches Some(j) ==> j < nodes@.len() && nodes@[j as int].id == id,
        r is None ==> forall|j: int| 0 <= j < nodes@.len() ==> nodes@[j].id != id,
{
    let mut i: usize = 0;
    while i < nodes.len()
        invariant
            i <= nodes@.len(),
            forall|j: int| 0 <= j < i ==> nodes@[j].id != id,
        decreases nodes@.len() - i,
    {
        if nodes[i].id == id {
            return Some(i);
        }
        i += 1;
    }
    None
}

/// Checks one node against the tree: a known status, a permission exactly
/// where the kind needs one, a parent of the right kind, and a parent chain
/// that reaches the top without a cycle.
pub fn validate_node(node: &AccessNode, nodes: &Vec<AccessNode>) -> (r: Result<(), CatalogError>)
    requires
        ids_distinct(nodes@),
    ensures
        r is Ok <==> node_valid(node_map(nodes@), *node),
        r is Err ==> r == Err::<(), CatalogError>(CatalogError::InvalidTree),
{
    let ghost m = node_map(nodes@);
    proof {
        lemma_node_map_distinct(nodes@);
    }
    let valid_status = str_eq(node.status.as_str(), "enabled") || str_eq(
        node.status.as_str(),
        "disabled",
    );
    let valid_permission = match node.menu_type {
        MenuType::Directory => node.permission.is_none(),
        _ => match &node.permission {
            Some(value) => chars_of(value.as_str()).len() > 0,
            None => false,
        },
    };
    if !valid_status || !valid_permission {
        return Err(CatalogError::InvalidTree);
    }
    let parent_ok = match node.parent_id {
        Some(parent_id) => {
            let wanted = match node.menu_type {
                MenuType::Action => MenuType::Page,
                _ => MenuType::Directory,
            };
            match find_node(nodes, parent_id) {
                Some(j) => nodes[j].menu_type == wanted,
                None => false,
            }
        },
        None => match node.menu_type {
            MenuType::Action => false,
            _ => true,
        },
    };
    if !parent_ok {
        return Err(CatalogError::InvalidTree);
    }
    assert(parent_kind_valid(m, *node));
    let mut ancestors: Vec<i64> = Vec::new();
    let mut parent_id = node.parent_id;
    let ghost mut k: nat = 0;
    let ghost ids = node_ids(nodes@);
    proof {
        assert forall|a: int, b: int| 0 <= a < ids.len() && 0 <= b < ids.len() && a != b implies ids[a]
            != ids[b] by {
            assert(ids[a] == nodes@[a].id);
            assert(ids[b] == nodes@[b].id);
        }
        assert forall|x: i64| #[trigger] m.contains_key(x) implies ids.contains(x) by {
            let j = choose|j: int| 0 <= j < nodes@.len() && nodes@[j].id == x;
            assert(ids[j] == x);
        }
    }
    loop
        invariant
            ids_distinct(nodes@),
            m == node_map(nodes@),
            ids == node_ids(nodes@),
            ids.no_duplicates(),
            ids.len() == nodes@.len(),
            forall|x: i64| #[trigger] m.contains_key(x) ==> ids.contains(x),
            status_valid(*node),
            permission_valid(*node),
            parent_kind_valid(m, *node),
            ancestors@.len() == k,
            parent_id == chain(m, node.parent_id, k),
            forall|j: int| 0 <= j < k ==> chain(m, node.parent_id, j as nat) == Some(#[trigger] ancestors@[j]),
            forall|j: int| 0 <= j < k ==> ancestors@[j] != node.id,
            ancestors@.no_duplicates(),
            k <= nodes@.len() + 1,
        decreases nodes@.len() + 1 - k,
    {
        match parent_id {
            None => {
                proof {
                    assert(reaches_root_at(m, *node, k)) by {
                        assert forall|j: nat| j < k implies chain(m, node.parent_id, j) != Some(node.id) by {
                            assert(chain(m, node.parent_id, j) == Some(ancestors@[j as int]));
                        }
                        assert forall|i: nat, j: nat| i < j < k implies chain(m, node.parent_id, i)
                            != chain(m, node.parent_id, j) by {
                            assert(chain(m, node.parent_id, i) == Some(ancestors@[i as int]));
                            assert(chain(m, node.parent_id, j) == Some(ancestors@[j as int]));
                        }
                    }
                    assert(ancestry_acyclic(m, *node));
                }
                return Ok(());
            },
            Some(parent) => {
                if contains_id(&ancestors, parent) || parent == node.id {
                    proof {
                        assert forall|kk: nat| !reaches_root_at(m, *node, kk) by {
                            if kk <= k {
                                if kk < k {
                                    assert(chain(m, node.parent_id, kk) == Some(ancestors@[kk as int]));
                                }
                            } else if parent == node.id {
                                assert(chain(m, node.parent_id, k) == Some(node.id));
                            } else {
                                let i = choose|i: int| 0 <= i < ancestors@.len() && ancestors@[i] == parent;
                                assert(chain(m, node.parent_id, i as nat) == Some(parent));
                                assert(chain(m, node.parent_id, k) == Some(parent));
                            }
                        }
                    }
                    return Err(CatalogError::InvalidTree);
                }
                proof {
                    // every ancestor collected so far is a node of the map, so
                    // there are at most as many as there are nodes
                    assert forall|x: i64| ancestors@.contains(x) implies ids.contains(x) by {
                        let j = choose|j: int| 0 <= j < ancestors@.len() && ancestors@[j] == x;
                        lemma_chain_prefix_in_map(m, node.parent_id, k, j as nat);
                        assert(chain(m, node.parent_id, j as nat) == Some(ancestors@[j]));
                    }
                    lemma_distinct_subset_len(ancestors@, ids);
                }
                let ghost before = ancestors@;
                ancestors.push(parent);
                proof {
                    assert(ancestors@ == before.push(parent));
                    assert(ancestors@.no_duplicates()) by {
                        assert forall|a: int, b: int|
                            0 <= a < ancestors@.len() && 0 <= b < ancestors@.len() && a != b implies ancestors@[a]
                            != ancestors@[b] by {
                            if a == before.len() {
                                assert(before.contains(ancestors@[b]) || b == a);
                            } else if b == before.len() {
                                assert(before.contains(ancestors@[a]));
                            }
                        }
                    }
                }
                proof {
                    lemma_node_map_distinct(nodes@);
                }
                parent_id = match find_node(nodes, parent) {
                    Some(j) => nodes[j].parent_id,
                    None => None,
                };
                proof {
                    k = k + 1;
                    assert(chain(m, node.parent_id, k) == parent_of(m, parent));
                    assert forall|j: int| 0 <= j < k implies chain(m, node.parent_id, j as nat) == Some(
                        #[trigger] ancestors@[j],
                    ) by {
                        if j < k - 1 {
                            assert(ancestors@[j] == before[j]);
                        }
                    }
                }
            },
        }
    }
}

/// The parent walk from a node of a valid catalogue: one step up from `id`
/// is the walk from its parent.
pub proof fn lemma_chain_from_node(m: Map<i64, AccessNode>, id: i64, j: nat)
    requires
        m.contains_key(id),
    ensures
        chain(m, Some(id), j + 1) == chain(m, m[id].parent_id, j),
{
    assert(chain(m, Some(id), 0) == Some(id));
    assert(chain(m, Some(id), 1) == m[id].parent_id);
    lemma_chain_shift(m, Some(id), 1, j);
}

/// In a valid catalogue every parent named by a node is itself a node.
pub proof fn lemma_parent_in_map(m: Map<i64, AccessNode>, id: i64)
    requires
        catalog_valid(m),
        m.contains_key(id),
    ensures
        m[id].parent_id matches Some(p) ==> m.contains_key(p),
{
    assert(node_valid(m, m[id]));
}

/// In a valid catalogue, the walk up from a node stays inside the map until
/// it stops, and it stops after at most `k` further steps, for some `k`.
pub proof fn lemma_walk_terminates(m: Map<i64, AccessNode>, id: i64) -> (k: nat)
    requires
        catalog_valid(m),
        m.contains_key(id),
    ensures
        chain(m, Some(id), k) is None,
        forall|j: nat| j < k ==> (#[trigger] chain(m, Some(id), j) matches Some(x) ==> m.contains_key(x)),
{
    assert(node_valid(m, m[id]));
    let k0 = choose|k: nat| reaches_root_at(m, m[id], k);
    lemma_chain_from_node(m, id, k0);
    assert forall|j: nat| j < k0 + 1 implies (#[trigger] chain(m, Some(id), j) matches Some(x)
        ==> m.contains_key(x)) by {
        lemma_walk_step_in_map(m, id, j);
    }
    k0 + 1
}

/// Every node met walking up from a node of a valid catalogue is a node.
pub proof fn lemma_walk_step_in_map(m: Map<i64, AccessNode>, id: i64, j: nat)
    requires
        catalog_valid(m),
        m.contains_key(id),
    ensures
        chain(m, Some(id), j) matches Some(x) ==> m.contains_key(x),
    decreases j,
{
    if j > 0 {
        lemma_walk_step_in_map(m, id, (j - 1) as nat);
        if let Some(x) = chain(m, Some(id), (j - 1) as nat) {
            lemma_parent_in_map(m, x);
        }
    }
}

/// An enabled node's parent is enabled too.
pub proof fn lemma_enabled_parent(m: Map<i64, AccessNode>, id: i64)
    requires
        catalog_valid(m),
        effectively_enabled(m, id),
    ensures
        m[id].parent_id matches Some(p) ==> effectively_enabled(m, p),
{
    if let Some(p) = m[id].parent_id {
        lemma_parent_in_map(m, id);
        assert forall|j: nat| (#[trigger] chain(m, Some(p), j) matches Some(x) ==> m.contains_key(x)
            && m[x].status@ == "enabled"@) by {
            lemma_chain_from_node(m, id, j);
            assert(chain(m, Some(id), j + 1) == chain(m, Some(p), j));
        }
    }
}

/// Whether node `id` and all nodes above it are enabled.
fn node_is_effectively_enabled(node_id: i64, nodes: &Vec<AccessNode>) -> (r: bool)
    requires
        ids_distinct(nodes@),
        catalog_valid(node_map(nodes@)),
        node_map(nodes@).contains_key(node_id),
    ensures
        r == effectively_enabled(node_map(nodes@), node_id),
{
    let ghost m = node_map(nodes@);
    let ghost k0 = lemma_walk_terminates(m, node_id);
    let mut current: Option<i64> = Some(node_id);
    let ghost mut j: nat = 0;
    loop
        invariant
            ids_distinct(nodes@),
            m == node_map(nodes@),
            catalog_valid(m),
            m.contains_key(node_id),
            chain(m, Some(node_id), k0) is None,
            forall|i: nat| i < k0 ==> (#[trigger] chain(m, Some(node_id), i) matches Some(x)
                ==> m.contains_key(x)),
            current == chain(m, Some(node_id), j),
            forall|i: nat|
                i < j ==> (#[trigger] chain(m, Some(node_id), i) matches Some(x) ==> m.contains_key(x)
                    && m[x].status@ == "enabled"@),
        decreases k0 - j,
    {
        match current {
            None => {
                proof {
                    assert forall|i: nat| (#[trigger] chain(m, Some(node_id), i) matches Some(x)
                        ==> m.contains_key(x) && m[x].status@ == "enabled"@) by {
                        if i >= j {
                            lemma_chain_stays_none(m, Some(node_id), j, i);
                        }
                    }
                }
                return true;
            },
            Some(id) => {
                proof {
                    if j >= k0 {
                        lemma_chain_stays_none(m, Some(node_id), k0, j);
                    }
                    lemma_node_map_distinct(nodes@);
                }
                let idx = match find_node(nodes, id) {
                    Some(idx) => idx,
                    None => {
                        proof {
                            assert(m.contains_key(id));
                            let w = choose|w: int| 0 <= w < nodes@.len() && nodes@[w].id == id;
                            assert(false);
                        }
                        return false;
                    },
                };
                if !str_eq(nodes[idx].status.as_str(), "enabled") {
                    return false;
                }
                current = nodes[idx].parent_id;
                proof {
                    j = j + 1;
                }
            },
        }
    }
}

/// `true` exactly at the positions of effectively enabled nodes.
pub open spec fn flags_match(m: Map<i64, AccessNode>, nodes: Seq<AccessNode>, flags: Seq<bool>) -> bool {
    &&& flags.len() == nodes.len()
    &&& forall|i: int| 0 <= i < nodes.len() ==> flags[i] == effectively_enabled(m, #[trigger] nodes[i].id)
}

/// The ids of the effectively enabled nodes.
pub open spec fn enabled_id_set(m: Map<i64, AccessNode>) -> Set<i64> {
    Set::new(|id: i64| effectively_enabled(m, id))
}

/// The validated menu tree with the nodes and permissions in force.
#[derive(Debug)]
pub struct MenuIndex {
    nodes: Vec<AccessNode>,
    enabled: Vec<bool>,
    enabled_menu_ids: Vec<i64>,
    enabled_permissions: Vec<String>,
}

impl MenuIndex {
    /// The tree, keyed by id.
    pub closed spec fn view_map(self) -> Map<i64, AccessNode> {
        node_map(self.nodes@)
    }

    #[verifier::type_invariant]
    closed spec fn well_formed(self) -> bool {
        &&& ids_distinct(self.nodes@)
        &&& catalog_valid(node_map(self.nodes@))
        &&& flags_match(node_map(self.nodes@), self.nodes@, self.enabled@)
        &&& self.enabled_menu_ids@.to_set() == enabled_id_set(node_map(self.nodes@))
        &&& strings_set(self.enabled_permissions@) == enabled_permission_set(node_map(self.nodes@))
        &&& strings_sorted(self.enabled_permissions@)
    }

    #[verifier::loop_isolation(false)]
    /// Indexes the nodes, the later of two nodes with one id replacing the
    /// earlier; refused with `InvalidTree` unless every node is valid and no
    /// permission is defined twice.
    pub fn from_nodes(nodes: Vec<AccessNode>) -> (r: Result<MenuIndex, CatalogError>)
        ensures
            r matches Ok(index) ==> index.view_map() == node_map(nodes@),
            r is Ok <==> catalog_valid(node_map(nodes@)),
            r is Err ==> r == Err::<MenuIndex, CatalogError>(CatalogError::InvalidTree),
    {
        let ghost input = nodes@;
        let uniq = distinct_nodes(nodes);
        let ghost m = node_map(uniq@);
        proof {
            lemma_node_map_distinct(uniq@);
        }
        let mut i: usize = 0;
        while i < uniq.len()
            invariant
                i <= uniq@.len(),
                ids_distinct(uniq@),
                m == node_map(uniq@),
                m == node_map(input),
                forall|j: int| 0 <= j < i ==> node_valid(m, #[trigger] uniq@[j]),
            decreases uniq@.len() - i,
        {
            if validate_node(&uniq[i], &uniq).is_err() {
                proof {
                    lemma_node_map_distinct(uniq@);
                    let id = uniq@[i as int].id;
                    assert(m[id] == uniq@[i as int]);
                    assert(!node_valid(m, m[id]));
                }
                return Err(CatalogError::InvalidTree);
            }
            i += 1;
        }
        let mut a: usize = 0;
        while a < uniq.len()
            invariant
                a <= uniq@.len(),
                ids_distinct(uniq@),
                m == node_map(uniq@),
                m == node_map(input),
                forall|j: int| 0 <= j < uniq@.len() ==> node_valid(m, #[trigger] uniq@[j]),
                forall|x: int, y: int|
                    0 <= x < a && 0 <= y < uniq@.len() && x != y && uniq@[x].permission is Some
                        && uniq@[y].permission is Some ==> uniq@[x].permission->0@
                        != uniq@[y].permission->0@,
            decreases uniq@.len() - a,
        {
            if let Some(pa) = &uniq[a].permission {
                let mut b: usize = 0;
                while b < uniq.len()
                    invariant
                        a < uniq@.len(),
                        b <= uniq@.len(),
                        ids_distinct(uniq@),
                        m == node_map(uniq@),
                        m == node_map(input),
                        uniq@[a as int].permission == Some(*pa),
                        forall|y: int|
                            0 <= y < b && a != y && uniq@[y].permission is Some
                                ==> pa@ != uniq@[y].permission->0@,
                    decreases uniq@.len() - b,
                {
                    if b != a {
                        if let Some(pb) = &uniq[b].permission {
                            if str_eq(pa.as_str(), pb.as_str()) {
                                proof {
                                    lemma_node_map_distinct(uniq@);
                                    let ia = uniq@[a as int].id;
                                    let ib = uniq@[b as int].id;
                                    assert(m[ia] == uniq@[a as int]);
                                    assert(m[ib] == uniq@[b as int]);
                                    assert(ia != ib);
                                    assert(m.contains_key(ia) && m.contains_key(ib));
                                    assert(m[ia].permission->0@ == m[ib].permission->0@);
                                    assert(!permissions_unique(m));
                                }
                                return Err(CatalogError::InvalidTree);
                            }
                        }
                    }
                    b += 1;
                }
            }
            a += 1;
        }
        proof {
            lemma_node_map_distinct(uniq@);
            assert forall|id: i64| m.contains_key(id) implies node_valid(m, #[trigger] m[id]) by {
                let j = choose|j: int| 0 <= j < uniq@.len() && uniq@[j].id == id;
                assert(m[uniq@[j].id] == uniq@[j]);
            }
            assert forall|x: i64, y: i64|
                m.contains_key(x) && m.contains_key(y) && x != y && m[x].permission is Some
                    && m[y].permission is Some implies m[x].permission->0@ != m[y].permission->0@ by {
                let jx = choose|j: int| 0 <= j < uniq@.len() && uniq@[j].id == x;
                let jy = choose|j: int| 0 <= j < uniq@.len() && uniq@[j].id == y;
                assert(m[uniq@[jx].id] == uniq@[jx]);
                assert(m[uniq@[jy].id] == uniq@[jy]);
            }
            assert(catalog_valid(m));
        }
        let mut enabled: Vec<bool> = Vec::new();
        let mut enabled_menu_ids: Vec<i64> = Vec::new();
        let mut enabled_permissions: Vec<String> = Vec::new();
        let mut i: usize = 0;
        while i < uniq.len()
            invariant
                i <= uniq@.len(),
                ids_distinct(uniq@),
                m == node_map(uniq@),
                m == node_map(input),
                catalog_valid(m),
                enabled@.len() == i,
                forall|j: int| 0 <= j < i ==> enabled@[j] == effectively_enabled(m, #[trigger] uniq@[j].id),
                forall|x: i64| enabled_menu_ids@.contains(x) <==> exists|j: int| 0 <= j < i && uniq@[j].id == x
                    && effectively_enabled(m, x),
                forall|p: Seq<char>| strings_set(enabled_permissions@).contains(p) <==> exists|j: int|
                    0 <= j < i && effectively_enabled(m, uniq@[j].id) && perm_view(#[trigger] uniq@[j]) == Some(p),
                strings_sorted(enabled_permissions@),
            decreases uniq@.len() - i,
        {
            proof {
                lemma_node_map_distinct(uniq@);
            }
            let on = node_is_effectively_enabled(uniq[i].id, &uniq);
            let ghost ids_before = enabled_menu_ids@;
            let ghost perms_before = enabled_permissions@;
            enabled.push(on);
            if on {
                enabled_menu_ids.push(uniq[i].id);
                if let Some(p) = &uniq[i].permission {
                    let q = p.clone();
                    insert_sorted_string(&mut enabled_permissions, q);
                }
            }
            proof {
                let cur = uniq@[i as int];
                assert forall|x: i64| enabled_menu_ids@.contains(x) <==> exists|j: int| 0 <= j < i + 1
                    && uniq@[j].id == x && effectively_enabled(m, x) by {
                    if enabled_menu_ids@.contains(x) {
                        if ids_before.contains(x) {
                            let j = choose|j: int| 0 <= j < i && uniq@[j].id == x && effectively_enabled(m, x);
                            assert(0 <= j < i + 1 && uniq@[j].id == x && effectively_enabled(m, x));
                        } else {
                            assert(x == cur.id && on);
                            assert(uniq@[i as int].id == x);
                        }
                    }
                    if exists|j: int| 0 <= j < i + 1 && uniq@[j].id == x && effectively_enabled(m, x) {
                        let j = choose|j: int| 0 <= j < i + 1 && uniq@[j].id == x && effectively_enabled(m, x);
                        if j == i {
                            assert(on);
                            assert(enabled_menu_ids@ == ids_before.push(x));
                            assert(enabled_menu_ids@[ids_before.len() as int] == x);
                        } else {
                            assert(ids_before.contains(x));
                            if on {
                                assert(enabled_menu_ids@ == ids_before.push(cur.id));
                            }
                        }
                    }
                }
                assert forall|q: Seq<char>| strings_set(enabled_permissions@).contains(q) <==> exists|j: int|
                    0 <= j < i + 1 && effectively_enabled(m, uniq@[j].id) && perm_view(#[trigger] uniq@[j]) == Some(q) by {
                    if strings_set(enabled_permissions@).contains(q) {
                        if strings_set(perms_before).contains(q) {
                            let j = choose|j: int| 0 <= j < i && effectively_enabled(m, uniq@[j].id) && perm_view(#[trigger] uniq@[j]) == Some(q);
                            assert(0 <= j < i + 1);
                        } else {
                            assert(on && cur.permission is Some && cur.permission->0@ == q);
                            assert(perm_view(uniq@[i as int]) == Some(q));
                        }
                    }
                    if exists|j: int| 0 <= j < i + 1 && effectively_enabled(m, uniq@[j].id) && perm_view(#[trigger] uniq@[j]) == Some(q) {
                        let j = choose|j: int| 0 <= j < i + 1 && effectively_enabled(m, uniq@[j].id) && perm_view(#[trigger] uniq@[j]) == Some(q);
                        if j < i {
                            assert(strings_set(perms_before).contains(q));
                        } else {
                            assert(on && cur.permission is Some);
                        }
                    }
                }
            }
            i += 1;
        }
        proof {
            lemma_node_map_distinct(uniq@);
            assert(enabled_menu_ids@.to_set() =~= enabled_id_set(m)) by {
                assert forall|x: i64| enabled_id_set(m).contains(x) implies enabled_menu_ids@.contains(x) by {
                    let j = choose|j: int| 0 <= j < uniq@.len() && uniq@[j].id == x;
                }
            }
            assert(strings_set(enabled_permissions@) =~= enabled_permission_set(m)) by {
                assert forall|p: Seq<char>| enabled_permission_set(m).contains(p) implies strings_set(enabled_permissions@).contains(p) by {
                    let id = choose|id: i64| effectively_enabled(m, id) && #[trigger] perm_view(m[id]) == Some(p);
                    let j = choose|j: int| 0 <= j < uniq@.len() && uniq@[j].id == id;
                    assert(m[uniq@[j].id] == uniq@[j]);
                }
                assert forall|p: Seq<char>| strings_set(enabled_permissions@).contains(p) implies enabled_permission_set(m).contains(p) by {
                    let j = choose|j: int| 0 <= j < uniq@.len() && effectively_enabled(m, uniq@[j].id) && perm_view(#[trigger] uniq@[j]) == Some(p);
                    assert(m[uniq@[j].id] == uniq@[j]);
                }
            }
        }
        assert(ids_distinct(uniq@));
        assert(catalog_valid(node_map(uniq@)));
        assert(flags_match(node_map(uniq@), uniq@, enabled@));
        assert(enabled_menu_ids@.to_set() == enabled_id_set(node_map(uniq@)));
        assert(strings_set(enabled_permissions@) == enabled_permission_set(node_map(uniq@)));
        Ok(MenuIndex { nodes: uniq, enabled, enabled_menu_ids, enabled_permissions })
    }
}


/// A selected permission that a role may hold: a non-empty, non-wildcard
/// permission of an enabled page or action.
pub open spec fn grant_ok(m: Map<i64, AccessNode>, p: Seq<char>) -> bool {
    &&& p.len() > 0
    &&& p != "*"@
    &&& exists|id: i64|
        m.contains_key(id) && #[trigger] perm_view(m[id]) == Some(p) && effectively_enabled(m, id)
            && m[id].menu_type != MenuType::Directory
}

/// `q` is the permission of the page that owns the action whose permission is `p`.
pub open spec fn owning_page(m: Map<i64, AccessNode>, p: Seq<char>, q: Seq<char>) -> bool {
    exists|id: i64|
        m.contains_key(id) && #[trigger] perm_view(m[id]) == Some(p) && m[id].menu_type
            == MenuType::Action && (m[id].parent_id matches Some(pid) && m.contains_key(pid)
            && perm_view(m[pid]) == Some(q))
}

/// The selected permissions together with the page permission of every
/// selected action.
pub open spec fn normalized_access(m: Map<i64, AccessNode>, ps: Seq<Seq<char>>) -> Set<Seq<char>> {
    Set::new(
        |q: Seq<char>|
            ps.contains(q) || exists|i: int| 0 <= i < ps.len() && owning_page(m, #[trigger] ps[i], q),
    )
}

/// A role's access, once accepted and closed, holds only permissions that
/// the catalogue has enabled: whatever `normalize_role_access` accepts,
/// `enabled_permissions` contains.
pub proof fn lemma_normalized_access_is_enabled(m: Map<i64, AccessNode>, ps: Seq<Seq<char>>)
    requires
        catalog_valid(m),
        forall|i: int| 0 <= i < ps.len() ==> grant_ok(m, #[trigger] ps[i]),
    ensures
        normalized_access(m, ps).subset_of(enabled_permission_set(m)),
{
    assert forall|q: Seq<char>| normalized_access(m, ps).contains(q) implies enabled_permission_set(m).contains(q) by {
        if ps.contains(q) {
            let i = choose|i: int| 0 <= i < ps.len() && ps[i] == q;
            assert(grant_ok(m, ps[i]));
            let id = choose|id: i64|
                m.contains_key(id) && #[trigger] perm_view(m[id]) == Some(q) && effectively_enabled(m, id)
                    && m[id].menu_type != MenuType::Directory;
            assert(effectively_enabled(m, id) && perm_view(m[id]) == Some(q));
        } else {
            let i = choose|i: int| 0 <= i < ps.len() && owning_page(m, #[trigger] ps[i], q);
            let p = ps[i];
            assert(grant_ok(m, p));
            let a = choose|id: i64|
                m.contains_key(id) && #[trigger] perm_view(m[id]) == Some(p) && m[id].menu_type == MenuType::Action
                    && (m[id].parent_id matches Some(pid) && m.contains_key(pid) && perm_view(m[pid]) == Some(q));
            let g = choose|id: i64|
                m.contains_key(id) && #[trigger] perm_view(m[id]) == Some(p) && effectively_enabled(m, id)
                    && m[id].menu_type != MenuType::Directory;
            assert(a == g) by {
                if a != g {
                    assert(m[a].permission->0@ != m[g].permission->0@);
                }
            }
            lemma_enabled_parent(m, a);
            let pid = m[a].parent_id->0;
            assert(effectively_enabled(m, pid) && perm_view(m[pid]) == Some(q));
        }
    }
}

/// Every permission of a role's closed access is one a selection may name,
/// unless it is `*` (the permission of a page may be).
pub proof fn lemma_access_member_is_grantable(m: Map<i64, AccessNode>, ps: Seq<Seq<char>>, q: Seq<char>)
    requires
        catalog_valid(m),
        forall|i: int| 0 <= i < ps.len() ==> grant_ok(m, #[trigger] ps[i]),
        normalized_access(m, ps).contains(q),
        q != "*"@,
    ensures
        grant_ok(m, q),
        !ps.contains(q) ==> exists|id: i64|
            m.contains_key(id) && #[trigger] perm_view(m[id]) == Some(q) && m[id].menu_type == MenuType::Page,
{
    if ps.contains(q) {
        let i = choose|i: int| 0 <= i < ps.len() && ps[i] == q;
        assert(grant_ok(m, ps[i]));
    } else {
        let i = choose|i: int| 0 <= i < ps.len() && owning_page(m, #[trigger] ps[i], q);
        let p = ps[i];
        assert(grant_ok(m, p));
        let a = choose|id: i64|
            m.contains_key(id) && #[trigger] perm_view(m[id]) == Some(p) && m[id].menu_type == MenuType::Action
                && (m[id].parent_id matches Some(pid) && m.contains_key(pid) && perm_view(m[pid]) == Some(q));
        let g = choose|id: i64|
            m.contains_key(id) && #[trigger] perm_view(m[id]) == Some(p) && effectively_enabled(m, id)
                && m[id].menu_type != MenuType::Directory;
        assert(a == g) by {
            if a != g {
                assert(m[a].permission->0@ != m[g].permission->0@);
            }
        }
        lemma_enabled_parent(m, a);
        let pid = m[a].parent_id->0;
        assert(node_valid(m, m[a]));
        assert(has_kind(m, pid, MenuType::Page));
        assert(node_valid(m, m[pid]));
        assert(effectively_enabled(m, pid) && perm_view(m[pid]) == Some(q));
        assert(m.contains_key(pid) && perm_view(m[pid]) == Some(q) && m[pid].menu_type == MenuType::Page);
    }
}

/// Normalizing a role's access a second time accepts it and gives it back
/// unchanged, unless a selected action's page has the permission `*` (which a
/// second pass refuses): what `normalize_role_access` returns for `ps`
/// passes it again, and the second result, being sorted too, is the same
/// list.
pub proof fn lemma_normalize_role_access_again(m: Map<i64, AccessNode>, ps: Seq<String>, v: Seq<String>)
    requires
        catalog_valid(m),
        forall|i: int| 0 <= i < ps.len() ==> grant_ok(m, #[trigger] ps[i]@),
        strings_sorted(v),
        strings_set(v) == normalized_access(m, strings_view(ps)),
        !normalized_access(m, strings_view(ps)).contains("*"@),
    ensures
        forall|i: int| 0 <= i < v.len() ==> grant_ok(m, #[trigger] v[i]@),
        normalized_access(m, strings_view(v)) == strings_set(v),
        forall|w: Seq<String>|
            strings_sorted(w) && #[trigger] strings_set(w) == normalized_access(m, strings_view(v))
                ==> strings_view(w) == strings_view(v),
{
    let pv = strings_view(ps);
    let vv = strings_view(v);
    let n = normalized_access(m, pv);
    assert forall|i: int| 0 <= i < pv.len() implies grant_ok(m, #[trigger] pv[i]) by {
        assert(pv[i] == ps[i]@);
    }
    assert forall|i: int| 0 <= i < v.len() implies grant_ok(m, #[trigger] v[i]@) by {
        assert(strings_set(v).contains(v[i]@));
        lemma_access_member_is_grantable(m, pv, v[i]@);
    }
    assert forall|x: Seq<char>| normalized_access(m, vv).contains(x) <==> strings_set(v).contains(x) by {
        if strings_set(v).contains(x) {
            let i = choose|i: int| 0 <= i < v.len() && (#[trigger] v[i])@ == x;
            assert(vv[i] == x);
            assert(vv.contains(x));
        }
        if normalized_access(m, vv).contains(x) {
            if vv.contains(x) {
                let i = choose|i: int| 0 <= i < vv.len() && vv[i] == x;
                assert(v[i]@ == x);
            } else {
                let i = choose|i: int| 0 <= i < vv.len() && owning_page(m, #[trigger] vv[i], x);
                let y = vv[i];
                assert(y == v[i]@);
                assert(strings_set(v).contains(y));
                let a = choose|id: i64|
                    m.contains_key(id) && #[trigger] perm_view(m[id]) == Some(y) && m[id].menu_type
                        == MenuType::Action && (m[id].parent_id matches Some(pid) && m.contains_key(pid)
                        && perm_view(m[pid]) == Some(x));
                lemma_access_member_is_grantable(m, pv, y);
                if pv.contains(y) {
                    let k = choose|k: int| 0 <= k < pv.len() && pv[k] == y;
                    assert(owning_page(m, pv[k], x));
                    assert(n.contains(x));
                } else {
                    let b = choose|id: i64|
                        m.contains_key(id) && #[trigger] perm_view(m[id]) == Some(y) && m[id].menu_type
                            == MenuType::Page;
                    assert(a == b) by {
                        if a != b {
                            assert(m[a].permission->0@ != m[b].permission->0@);
                        }
                    }
                }
            }
        }
    }
    assert(normalized_access(m, vv) =~= strings_set(v));
    assert forall|w: Seq<String>|
        strings_sorted(w) && #[trigger] strings_set(w) == normalized_access(m, strings_view(v)) implies strings_view(w)
            == strings_view(v) by {
        lemma_sorted_strings_equal(w, v);
    }
}

/// Page nodes that are enabled and whose permission is selected.
pub open spec fn selected_page(m: Map<i64, AccessNode>, ps: Set<Seq<char>>, id: i64) -> bool {
    &&& m.contains_key(id)
    &&& m[id].menu_type == MenuType::Page
    &&& effectively_enabled(m, id)
    &&& m[id].permission is Some
    &&& ps.contains(m[id].permission->0@)
}

/// The navigation: the selected pages and the enabled nodes above them.
pub open spec fn navigation_ids(m: Map<i64, AccessNode>, ps: Set<Seq<char>>) -> Set<i64> {
    Set::new(
        |x: i64|
            effectively_enabled(m, x) && exists|q: i64, j: nat|
                selected_page(m, ps, q) && #[trigger] chain(m, Some(q), j) == Some(x),
    )
}

/// What binding `b` yields: nothing (its node is unknown or switched off),
/// a route guarded by its node's permission, or an error (a directory, or an
/// enabled node without a permission).
pub open spec fn binding_outcome(m: Map<i64, AccessNode>, b: AccessBinding) -> Option<
    Result<RouteBinding, CatalogError>,
> {
    if !m.contains_key(b.menu_id) {
        None
    } else if m[b.menu_id].menu_type == MenuType::Directory {
        Some(Err(CatalogError::InvalidBinding))
    } else if !effectively_enabled(m, b.menu_id) {
        None
    } else {
        match m[b.menu_id].permission {
            Some(p) => Some(Ok(RouteBinding { method: b.method, path: b.path, permission: p })),
            None => Some(Err(CatalogError::InvalidBinding)),
        }
    }
}

/// The routes of the bindings in order, or the first error.
pub open spec fn collect_routes(m: Map<i64, AccessNode>, bs: Seq<AccessBinding>) -> Result<
    Seq<RouteBinding>,
    CatalogError,
>
    decreases bs.len(),
{
    if bs.len() == 0 {
        Ok(Seq::empty())
    } else {
        match collect_routes(m, bs.drop_last()) {
            Err(e) => Err(e),
            Ok(prev) => match binding_outcome(m, bs.last()) {
                None => Ok(prev),
                Some(Ok(r)) => Ok(prev.push(r)),
                Some(Err(e)) => Err(e),
            },
        }
    }
}


/// The navigation contributed by the first `i` nodes.
pub open spec fn nav_prefix(m: Map<i64, AccessNode>, ps: Set<Seq<char>>, nodes: Seq<AccessNode>, i: int) -> Set<i64> {
    Set::new(
        |x: i64|
            effectively_enabled(m, x) && exists|k: int, j: nat|
                0 <= k < i && selected_page(m, ps, nodes[k].id) && #[trigger] chain(m, Some(nodes[k].id), j) == Some(x),
    )
}

/// The enabled nodes met walking up from `q`.
pub open spec fn walk_set(m: Map<i64, AccessNode>, q: i64) -> Set<i64> {
    Set::new(|x: i64| effectively_enabled(m, x) && exists|jj: nat| #[trigger] chain(m, Some(q), jj) == Some(x))
}

/// One more node adds the enabled nodes above it, when it is a selected page.
pub proof fn lemma_nav_prefix_step(m: Map<i64, AccessNode>, ps: Set<Seq<char>>, nodes: Seq<AccessNode>, i: int)
    requires
        0 <= i < nodes.len(),
    ensures
        nav_prefix(m, ps, nodes, i + 1) == (if selected_page(m, ps, nodes[i].id) {
            nav_prefix(m, ps, nodes, i).union(walk_set(m, nodes[i].id))
        } else {
            nav_prefix(m, ps, nodes, i)
        }),
{
    let q = nodes[i].id;
    let a = nav_prefix(m, ps, nodes, i + 1);
    let b = nav_prefix(m, ps, nodes, i);
    assert forall|x: i64| a.contains(x) <==> (b.contains(x) || (selected_page(m, ps, q) && walk_set(m, q).contains(x))) by {
        if a.contains(x) {
            let (k, jj) = choose|k: int, jj: nat| 0 <= k < i + 1 && selected_page(m, ps, nodes[k].id) && #[trigger] chain(m, Some(nodes[k].id), jj) == Some(x);
            if k == i {
                assert(walk_set(m, q).contains(x));
            } else {
                assert(b.contains(x));
            }
        }
        if b.contains(x) {
            let (k, jj) = choose|k: int, jj: nat| 0 <= k < i && selected_page(m, ps, nodes[k].id) && #[trigger] chain(m, Some(nodes[k].id), jj) == Some(x);
            assert(0 <= k < i + 1 && selected_page(m, ps, nodes[k].id) && chain(m, Some(nodes[k].id), jj) == Some(x));
        }
        if selected_page(m, ps, q) && walk_set(m, q).contains(x) {
            let jj = choose|jj: nat| #[trigger] chain(m, Some(q), jj) == Some(x);
            assert(selected_page(m, ps, nodes[i].id) && chain(m, Some(nodes[i].id), jj) == Some(x));
        }
    }
    if selected_page(m, ps, q) {
        assert(a =~= b.union(walk_set(m, q)));
    } else {
        assert(a =~= b);
    }
}

impl MenuIndex {
    /// The permissions of the effectively enabled nodes, in ascending order,
    /// each once.
    pub fn enabled_permissions(&self) -> (r: &Vec<String>)
        ensures
            strings_set(r@) == enabled_permission_set(self.view_map()),
            strings_sorted(r@),
            strings_distinct(r@),
            catalog_valid(self.view_map()),
    {
        proof {
            use_type_invariant(self);
            lemma_sorted_strings_distinct(self.enabled_permissions@);
        }
        &self.enabled_permissions
    }

    /// The position of the node whose permission is `p`.
    fn find_permission(&self, p: &str) -> (r: Option<usize>)
        ensures
            r matches Some(j) ==> j < self.nodes@.len() && perm_view(self.nodes@[j as int]) == Some(p@),
            r is None ==> forall|j: int|
                0 <= j < self.nodes@.len() ==> perm_view(#[trigger] self.nodes@[j]) != Some(p@),
    {
        let mut i: usize = 0;
        while i < self.nodes.len()
            invariant
                i <= self.nodes@.len(),
                forall|j: int| 0 <= j < i ==> perm_view(#[trigger] self.nodes@[j]) != Some(p@),
            decreases self.nodes@.len() - i,
        {
            if let Some(q) = &self.nodes[i].permission {
                if str_eq(q.as_str(), p) {
                    return Some(i);
                }
            }
            i += 1;
        }
        None
    }

    /// Checks a role's permission selection and closes it: every selected
    /// action brings the permission of its page. The result is in ascending
    /// order, each permission once. Refused with `InvalidTree` when a
    /// selection is empty, the wildcard, unknown, disabled, or a directory's.
    #[verifier::loop_isolation(false)]
    pub fn normalize_role_access(&self, permissions: Vec<String>) -> (r: Result<
        Vec<String>,
        CatalogError,
    >)
        ensures
            r is Ok <==> (forall|i: int|
                0 <= i < permissions@.len() ==> grant_ok(self.view_map(), #[trigger] permissions@[i]@)),
            r matches Ok(v) ==> strings_sorted(v@) && strings_distinct(v@) && strings_set(v@)
                == normalized_access(self.view_map(), strings_view(permissions@)),
            r is Err ==> r == Err::<Vec<String>, CatalogError>(CatalogError::InvalidTree),
    {
        proof {
            use_type_invariant(self);
            lemma_node_map_distinct(self.nodes@);
        }
        let ghost m = self.view_map();
        let ghost ps = strings_view(permissions@);
        let mut normalized: Vec<String> = Vec::new();
        let mut i: usize = 0;
        while i < permissions.len()
            invariant
                i <= permissions@.len(),
                ps == strings_view(permissions@),
                forall|j: int| 0 <= j < i ==> grant_ok(m, #[trigger] permissions@[j]@),
                strings_sorted(normalized@),
                forall|q: Seq<char>|
                    strings_set(normalized@).contains(q) <==> (ps.take(i as int).contains(q) || exists|
                        j: int,
                    | 0 <= j < i && owning_page(m, #[trigger] ps[j], q)),
            decreases permissions@.len() - i,
        {
            let p = &permissions[i];
            let ghost pv = p@;
            let pc = chars_of(p.as_str());
            if pc.len() == 0 || str_eq(p.as_str(), "*") {
                return Err(CatalogError::InvalidTree);
            }
            let idx = match self.find_permission(p.as_str()) {
                Some(idx) => idx,
                None => {
                    proof {
                        assert forall|id: i64| m.contains_key(id) implies #[trigger] perm_view(m[id])
                            != Some(pv) by {
                            let j = choose|j: int| 0 <= j < self.nodes@.len() && self.nodes@[j].id == id;
                            assert(m[self.nodes@[j].id] == self.nodes@[j]);
                        }
                    }
                    return Err(CatalogError::InvalidTree);
                },
            };
            let ghost node = self.nodes@[idx as int];
            proof {
                assert(m[node.id] == node);
            }
            if !self.enabled[idx] || self.nodes[idx].menu_type == MenuType::Directory {
                proof {
                    assert forall|id: i64|
                        m.contains_key(id) && #[trigger] perm_view(m[id]) == Some(pv) implies !(
                        effectively_enabled(m, id) && m[id].menu_type != MenuType::Directory) by {
                        if id != node.id {
                            assert(m[id].permission->0@ != m[node.id].permission->0@);
                        }
                    }
                }
                return Err(CatalogError::InvalidTree);
            }
            insert_sorted_string(&mut normalized, p.clone());
            let mut page_added: bool = false;
            if self.nodes[idx].menu_type == MenuType::Action {
                proof {
                    assert(node_valid(m, m[node.id]));
                }
                let parent = match self.nodes[idx].parent_id {
                    Some(pid) => pid,
                    None => {
                        return Err(CatalogError::InvalidTree);
                    },
                };
                let pidx = match find_node(&self.nodes, parent) {
                    Some(pidx) => pidx,
                    None => {
                        proof {
                            let w = choose|w: int| 0 <= w < self.nodes@.len() && self.nodes@[w].id == parent;
                            assert(false);
                        }
                        return Err(CatalogError::InvalidTree);
                    },
                };
                proof {
                    assert(m[self.nodes@[pidx as int].id] == self.nodes@[pidx as int]);
                    assert(node_valid(m, m[parent]));
                }
                match &self.nodes[pidx].permission {
                    Some(pp) => {
                        insert_sorted_string(&mut normalized, pp.clone());
                    },
                    None => {
                        return Err(CatalogError::InvalidTree);
                    },
                }
            }
            proof {
                assert(grant_ok(m, pv));
                assert(ps[i as int] == pv);
                assert(ps.take(i + 1) =~= ps.take(i as int).push(pv));
                assert forall|q: Seq<char>|
                    strings_set(normalized@).contains(q) <==> (ps.take(i + 1).contains(q) || exists|
                        j: int,
                    | 0 <= j < i + 1 && owning_page(m, #[trigger] ps[j], q)) by {
                    let old_side = ps.take(i as int).contains(q) || exists|j: int|
                        0 <= j < i && owning_page(m, #[trigger] ps[j], q);
                    if owning_page(m, pv, q) {
                        let aid = choose|aid: i64| m.contains_key(aid) && #[trigger] perm_view(m[aid])
                            == Some(pv) && m[aid].menu_type == MenuType::Action && (m[aid].parent_id matches Some(pid)
                            && m.contains_key(pid) && perm_view(m[pid]) == Some(q));
                        if aid != node.id {
                            assert(m[aid].permission->0@ != m[node.id].permission->0@);
                        }
                    }
                    if exists|j: int| 0 <= j < i + 1 && owning_page(m, #[trigger] ps[j], q) {
                        let j = choose|j: int| 0 <= j < i + 1 && owning_page(m, #[trigger] ps[j], q);
                        if j < i {
                            assert(old_side);
                        }
                    }
                    if old_side {
                        if exists|j: int| 0 <= j < i && owning_page(m, #[trigger] ps[j], q) {
                            let j = choose|j: int| 0 <= j < i && owning_page(m, #[trigger] ps[j], q);
                            assert(0 <= j < i + 1);
                        }
                    }
                }
            }
            i += 1;
        }
        proof {
            assert(ps.take(permissions@.len() as int) =~= ps);
            assert(strings_set(normalized@) =~= normalized_access(m, ps));
            lemma_sorted_strings_distinct(normalized@);
        }
        Ok(normalized)
    }

    /// The navigation of a permission selection: every enabled page whose
    /// permission is selected, with the enabled nodes above it, in ascending
    /// id order.
    #[verifier::loop_isolation(false)]
    pub fn navigation_menu_ids(&self, permissions: &Vec<String>) -> (r: Vec<i64>)
        ensures
            strictly_sorted(r@),
            forall|x: i64| r@.contains(x) <==> navigation_ids(self.view_map(), strings_set(permissions@)).contains(x),
    {
        proof {
            use_type_invariant(self);
            lemma_node_map_distinct(self.nodes@);
        }
        let ghost m = self.view_map();
        let ghost ps = strings_set(permissions@);
        let mut menu_ids: Vec<i64> = Vec::new();
        let mut i: usize = 0;
        while i < self.nodes.len()
            invariant
                i <= self.nodes@.len(),
                m == node_map(self.nodes@),
                ids_distinct(self.nodes@),
                catalog_valid(m),
                flags_match(m, self.nodes@, self.enabled@),
                strictly_sorted(menu_ids@),
                forall|x: i64| menu_ids@.contains(x) <==> nav_prefix(m, ps, self.nodes@, i as int).contains(x),
            decreases self.nodes@.len() - i,
        {
            proof {
                lemma_node_map_distinct(self.nodes@);
            }
            let ghost q = self.nodes@[i as int].id;
            let ghost before = menu_ids@;
            let selected = match &self.nodes[i].permission {
                Some(p) => self.nodes[i].menu_type == MenuType::Page && self.enabled[i]
                    && contains_string(permissions, p.as_str()),
                None => false,
            };
            proof {
                assert(m[q] == self.nodes@[i as int]);
                assert(selected == selected_page(m, ps, q));
            }
            proof {
                lemma_nav_prefix_step(m, ps, self.nodes@, i as int);
            }
            if selected {
                self.add_with_enabled_ancestors(i, &mut menu_ids);
            }
            proof {
                let next = nav_prefix(m, ps, self.nodes@, i + 1);
                assert forall|x: i64| menu_ids@.contains(x) <==> next.contains(x) by {
                    if selected {
                        assert(walk_set(m, q).contains(x) <==> (effectively_enabled(m, x) && exists|jj: nat|
                            #[trigger] chain(m, Some(q), jj) == Some(x)));
                    }
                }
            }
            i += 1;
        }
        proof {
            assert forall|x: i64| navigation_ids(m, ps).contains(x) implies menu_ids@.contains(x) by {
                let (qq, jj) = choose|qq: i64, jj: nat| selected_page(m, ps, qq) && #[trigger] chain(m, Some(qq), jj) == Some(x);
                let k = choose|k: int| 0 <= k < self.nodes@.len() && self.nodes@[k].id == qq;
                assert(nav_prefix(m, ps, self.nodes@, self.nodes@.len() as int).contains(x));
            }
            assert forall|x: i64| menu_ids@.contains(x) implies navigation_ids(m, ps).contains(x) by {
                assert(nav_prefix(m, ps, self.nodes@, self.nodes@.len() as int).contains(x));
                let (k, jj) = choose|k: int, jj: nat| 0 <= k < self.nodes@.len() && selected_page(m, ps, self.nodes@[k].id) && #[trigger] chain(m, Some(self.nodes@[k].id), jj) == Some(x);
                assert(selected_page(m, ps, self.nodes@[k].id) && chain(m, Some(self.nodes@[k].id), jj) == Some(x));
            }
        }
        menu_ids
    }


    /// Adds node `i` and the enabled nodes above it.
    #[verifier::loop_isolation(false)]
    fn add_with_enabled_ancestors(&self, i: usize, menu_ids: &mut Vec<i64>)
        requires
            i < self.nodes@.len(),
            effectively_enabled(self.view_map(), self.nodes@[i as int].id),
            strictly_sorted(old(menu_ids)@),
        ensures
            strictly_sorted(final(menu_ids)@),
            forall|x: i64| final(menu_ids)@.contains(x) <==> (old(menu_ids)@.contains(x) || (effectively_enabled(self.view_map(), x)
                && exists|jj: nat| #[trigger] chain(self.view_map(), Some(self.nodes@[i as int].id), jj) == Some(x))),
    {
        proof {
            use_type_invariant(self);
            lemma_node_map_distinct(self.nodes@);
        }
        let ghost m = self.view_map();
        let ghost q = self.nodes@[i as int].id;
        let ghost before = menu_ids@;
        insert_sorted(menu_ids, self.nodes[i].id);
                let ghost k0 = lemma_walk_terminates(m, q);
                let mut current = self.nodes[i].parent_id;
                let ghost mut j: nat = 1;
                proof {
                    lemma_chain_from_node(m, q, 0);
                    assert(chain(m, Some(q), 0) == Some(q));
                    assert forall|x: i64| menu_ids@.contains(x) <==> (before.contains(x) || (effectively_enabled(m, x)
                        && exists|jj: nat| jj < j && #[trigger] chain(m, Some(q), jj) == Some(x))) by {
                        if x == q {
                            assert(chain(m, Some(q), 0) == Some(x));
                        }
                        if exists|jj: nat| jj < j && #[trigger] chain(m, Some(q), jj) == Some(x) {
                            let jj = choose|jj: nat| jj < j && #[trigger] chain(m, Some(q), jj) == Some(x);
                            assert(jj == 0);
                        }
                    }
                }
                loop
                    invariant
                        m == node_map(self.nodes@),
                        ids_distinct(self.nodes@),
                        catalog_valid(m),
                        flags_match(m, self.nodes@, self.enabled@),
                        m.contains_key(q),
                        chain(m, Some(q), k0) is None,
                        1 <= j,
                        current == chain(m, Some(q), j),
                        strictly_sorted(menu_ids@),
                        forall|x: i64| menu_ids@.contains(x) <==> (before.contains(x) || (effectively_enabled(m, x)
                            && exists|jj: nat| jj < j && #[trigger] chain(m, Some(q), jj) == Some(x))),
                    decreases k0 - j,
                {
                    match current {
                        None => {
                            break ;
                        },
                        Some(pid) => {
                            proof {
                                if j >= k0 {
                                    lemma_chain_stays_none(m, Some(q), k0, j);
                                }
                                lemma_walk_step_in_map(m, q, j);
                                lemma_node_map_distinct(self.nodes@);
                            }
                            let pidx = match find_node(&self.nodes, pid) {
                                Some(pidx) => pidx,
                                None => {
                                    proof {
                                        let w = choose|w: int| 0 <= w < self.nodes@.len() && self.nodes@[w].id == pid;
                                        assert(false);
                                    }
                                    break ;
                                },
                            };
                            proof {
                                assert(m[self.nodes@[pidx as int].id] == self.nodes@[pidx as int]);
                            }
                            let ghost before_step = menu_ids@;
                            if self.enabled[pidx] {
                                insert_sorted(menu_ids, pid);
                            }
                            current = self.nodes[pidx].parent_id;
                            proof {
                                assert forall|x: i64| menu_ids@.contains(x) <==> (before.contains(x) || (effectively_enabled(m, x)
                                    && exists|jj: nat| jj < j + 1 && #[trigger] chain(m, Some(q), jj) == Some(x))) by {
                                    if exists|jj: nat| jj < j + 1 && #[trigger] chain(m, Some(q), jj) == Some(x) {
                                        let jj = choose|jj: nat| jj < j + 1 && #[trigger] chain(m, Some(q), jj) == Some(x);
                                        if jj < j {
                                            assert(exists|j2: nat| j2 < j && #[trigger] chain(m, Some(q), j2) == Some(x));
                                        }
                                    }
                                    if before_step.contains(x) && !before.contains(x) {
                                        let jj = choose|jj: nat| jj < j && #[trigger] chain(m, Some(q), jj) == Some(x);
                                        assert(jj < j + 1);
                                    }
                                    if x == pid {
                                        assert(chain(m, Some(q), j) == Some(x));
                                    }
                                }
                                j = j + 1;
                            }
                        },
                    }
                }
        proof {
            assert forall|x: i64| menu_ids@.contains(x) <==> (before.contains(x) || (effectively_enabled(m, x)
                && exists|jj: nat| #[trigger] chain(m, Some(q), jj) == Some(x))) by {
                if exists|jj: nat| #[trigger] chain(m, Some(q), jj) == Some(x) {
                    let jj = choose|jj: nat| #[trigger] chain(m, Some(q), jj) == Some(x);
                    if jj >= j {
                        lemma_chain_stays_none(m, Some(q), j, jj);
                    }
                    assert(exists|j2: nat| j2 < j && #[trigger] chain(m, Some(q), j2) == Some(x));
                }
            }
        }
    }

    /// The API routes of the bindings whose nodes are enabled, each guarded by
    /// its node's permission; bindings of unknown or disabled nodes are left
    /// out, and a binding on a directory is refused with `InvalidBinding`.
    pub fn active_route_bindings(&self, bindings: Vec<AccessBinding>) -> (r: Result<
        Vec<RouteBinding>,
        CatalogError,
    >)
        ensures
            match collect_routes(self.view_map(), bindings@) {
                Ok(v) => r matches Ok(w) && w@ == v,
                Err(e) => r == Err::<Vec<RouteBinding>, CatalogError>(e),
            },
    {
        proof {
            use_type_invariant(self);
        }
        let ghost m = self.view_map();
        let ghost input = bindings@;
        let mut routes: Vec<RouteBinding> = Vec::new();
        for binding in it: bindings.into_iter()
            invariant
                it.seq() == input,
                m == node_map(self.nodes@),
                ids_distinct(self.nodes@),
                catalog_valid(m),
                flags_match(m, self.nodes@, self.enabled@),
                collect_routes(m, input.take(it.index() as int)) == Ok::<Seq<RouteBinding>, CatalogError>(routes@),
        {
            let ghost idx = it.index();
            proof {
                assert(input.take(idx + 1).drop_last() =~= input.take(idx as int));
                assert(input.take(idx + 1).last() == binding);
                lemma_node_map_distinct(self.nodes@);
            }
            match find_node(&self.nodes, binding.menu_id) {
                None => {
                    proof {
                        if m.contains_key(binding.menu_id) {
                            let w = choose|w: int| 0 <= w < self.nodes@.len() && self.nodes@[w].id == binding.menu_id;
                        }
                    }
                },
                Some(j) => {
                    proof {
                        assert(m[self.nodes@[j as int].id] == self.nodes@[j as int]);
                    }
                    if self.nodes[j].menu_type == MenuType::Directory {
                        proof {
                            lemma_collect_routes_err(m, input, (idx + 1) as nat, CatalogError::InvalidBinding);
                        }
                        return Err(CatalogError::InvalidBinding);
                    }
                    if self.enabled[j] {
                        match &self.nodes[j].permission {
                            Some(p) => {
                                let permission = p.clone();
                                routes.push(RouteBinding {
                                    method: binding.method,
                                    path: binding.path,
                                    permission,
                                });
                            },
                            None => {
                                proof {
                                    lemma_collect_routes_err(m, input, (idx + 1) as nat, CatalogError::InvalidBinding);
                                }
                                return Err(CatalogError::InvalidBinding);
                            },
                        }
                    }
                },
            }
        }
        proof {
            assert(input.take(input.len() as int) =~= input);
        }
        Ok(routes)
    }
}

/// Once a prefix of the bindings fails, the whole list fails the same way.
pub proof fn lemma_collect_routes_err(
    m: Map<i64, AccessNode>,
    bs: Seq<AccessBinding>,
    k: nat,
    e: CatalogError,
)
    requires
        k <= bs.len(),
        collect_routes(m, bs.take(k as int)) == Err::<Seq<RouteBinding>, CatalogError>(e),
    ensures
        collect_routes(m, bs) == Err::<Seq<RouteBinding>, CatalogError>(e),
    decreases bs.len() - k,
{
    if k < bs.len() {
        assert(bs.take((k + 1) as int).drop_last() =~= bs.take(k as int));
        lemma_collect_routes_err(m, bs, k + 1, e);
    } else {
        assert(bs.take(k as int) =~= bs);
    }
}

/// The access catalogue of the menu tree.
#[derive(Debug)]
pub struct AccessCatalog {
    menus: MenuIndex,
}

impl AccessCatalog {
    /// The tree, keyed by id.
    pub closed spec fn view_map(self) -> Map<i64, AccessNode> {
        self.menus.view_map()
    }

    /// Builds the catalogue; refused with `InvalidTree` unless the tree is valid.
    pub fn from_nodes(nodes: Vec<AccessNode>) -> (r: Result<AccessCatalog, CatalogError>)
        ensures
            r matches Ok(c) ==> c.view_map() == node_map(nodes@),
            r is Ok <==> catalog_valid(node_map(nodes@)),
            r is Err ==> r == Err::<AccessCatalog, CatalogError>(CatalogError::InvalidTree),
    {
        match MenuIndex::from_nodes(nodes) {
            Ok(menus) => Ok(AccessCatalog { menus }),
            Err(e) => Err(e),
        }
    }

    /// The permissions of the effectively enabled nodes, in ascending order,
    /// each once.
    pub fn enabled_permissions(&self) -> (r: &Vec<String>)
        ensures
            strings_set(r@) == enabled_permission_set(self.view_map()),
            strings_sorted(r@),
            strings_distinct(r@),
            catalog_valid(self.view_map()),
    {
        self.menus.enabled_permissions()
    }

    /// See [`MenuIndex::normalize_role_access`].
    pub fn normalize_role_access(&self, permissions: Vec<String>) -> (r: Result<
        Vec<String>,
        CatalogError,
    >)
        ensures
            r is Ok <==> (forall|i: int|
                0 <= i < permissions@.len() ==> grant_ok(self.view_map(), #[trigger] permissions@[i]@)),
            r matches Ok(v) ==> strings_sorted(v@) && strings_distinct(v@) && strings_set(v@)
                == normalized_access(self.view_map(), strings_view(permissions@)),
            r is Err ==> r == Err::<Vec<String>, CatalogError>(CatalogError::InvalidTree),
    {
        self.menus.normalize_role_access(permissions)
    }

    /// See [`MenuIndex::navigation_menu_ids`].
    pub fn navigation_menu_ids(&self, permissions: &Vec<String>) -> (r: Vec<i64>)
        ensures
            strictly_sorted(r@),
            forall|x: i64| r@.contains(x) <==> navigation_ids(self.view_map(), strings_set(permissions@)).contains(x),
    {
        self.menus.navigation_menu_ids(permissions)
    }
}

/// The nodes with distinct ids, the later of two nodes with one id standing.
fn distinct_nodes(nodes: Vec<AccessNode>) -> (r: Vec<AccessNode>)
    ensures
        ids_distinct(r@),
        node_map(r@) == node_map(nodes@),
{
    let ghost input = nodes@;
    let mut uniq: Vec<AccessNode> = Vec::new();
    for n in it: nodes.into_iter()
        invariant
            it.seq() == input,
            ids_distinct(uniq@),
            node_map(uniq@) == node_map(input.take(it.index() as int)),
    {
        let ghost before = uniq@;
        let ghost idx = it.index();
        proof {
            assert(input.take(idx + 1).drop_last() =~= input.take(idx as int));
            assert(input[idx as int] == n);
        }
        match find_node(&uniq, n.id) {
            Some(j) => {
                proof {
                    lemma_node_map_update(before, j as int, n);
                }
                uniq.set(j, n);
            },
            None => {
                uniq.push(n);
                proof {
                    assert(uniq@.drop_last() =~= before);
                }
            },
        }
    }
    proof {
        assert(input.take(input.len() as int) =~= input);
    }
    uniq
}

} // verus!
