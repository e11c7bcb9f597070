//! Access roles: their records, the protected super-admin role, and the
//! rules of changing roles.
use vstd::prelude::*;

use crate::access::error::CatalogError;
use crate::authorization::policy::AuthorizationError;
use crate::order::{is_stable_order, stable_order};
use crate::text::str_eq;

verus! {

/// A role as lists show it.
#[derive(Debug, Clone)]
pub struct RoleSummary {
    pub id: i64,
    pub code: String,
    pub name: String,
    pub status: String,
    pub sort: i32,
}

/// The access of a role: its permissions, the catalogue tree, and whether it
/// is the protected super-admin role.
#[derive(Debug)]
pub struct RoleAccessView {
    pub permissions: Vec<String>,
    pub tree: Vec<crate::menus::MenuView>,
    pub protected: bool,
}

/// A submitted role.
#[derive(Debug, Clone)]
pub struct RolePayload {
    pub code: String,
    pub name: String,
    pub status: Option<String>,
    pub sort: Option<i32>,
}

#[derive(Debug, Clone)]
pub struct RoleAssignment {
    pub user_id: i64,
    pub role_ids: Vec<i64>,
}

#[derive(Debug, Clone)]
pub struct RoleMenuAccess {
    pub menu_ids: Vec<i64>,
    pub effective_menu_ids: Vec<i64>,
    pub system_managed: bool,
}

#[derive(Debug, Clone)]
pub struct PermissionCatalogItem {
    pub permission: String,
    pub title: String,
    pub menu_type: String,
    pub status: String,
    pub effectively_enabled: bool,
    pub owning_page_id: i64,
    pub owning_page_title: String,
    pub page_visible: bool,
}

#[derive(Debug, Clone)]
pub struct RolePermissions {
    pub permissions: Vec<String>,
    pub catalog: Vec<PermissionCatalogItem>,
    pub system_managed: bool,
}

#[derive(Debug, Clone)]
pub struct RoleMenuPayload {
    pub menu_ids: Vec<i64>,
}

#[derive(Debug, Clone)]
pub struct RoleDeptPayload {
    pub dept_ids: Vec<i64>,
}

#[derive(Debug, Clone)]
pub struct RoleUsersPayload {
    pub user_ids: Vec<i64>,
}

/// Why a role operation was refused.
#[derive(Debug)]
pub enum RoleError {
    NotFound,
    Immutable,
    AccessDenied,
    HasMembers,
    InvalidMenuAssignment(CatalogError),
    Authorization(AuthorizationError),
    InvalidPermissions,
}

/// The code of the protected super-admin role.
pub open spec fn super_admin_code() -> Seq<char> {
    "super_admin"@
}

/// Whether a role is the protected super-admin role.
pub fn is_protected_role(code: &str) -> (r: bool)
    ensures
        r == (code@ == super_admin_code()),
{
    str_eq(code, "super_admin")
}

/// Whether a role status enables the role.
pub fn status_enables(status: &str) -> (r: bool)
    ensures
        r == (status@ == "enabled"@),
{
    str_eq(status, "enabled")
}

/// A role's code never changes.
pub fn check_code_unchanged(current_code: &str, submitted_code: &str) -> (r: Result<(), RoleError>)
    ensures
        r is Ok <==> current_code@ == submitted_code@,
        r is Err ==> r matches Err(RoleError::Immutable),
{
    if str_eq(current_code, submitted_code) {
        Ok(())
    } else {
        Err(RoleError::Immutable)
    }
}

/// A role that still has members cannot be deleted.
pub fn check_deletable(has_members: bool) -> (r: Result<(), RoleError>)
    ensures
        !has_members ==> r is Ok,
        has_members ==> r matches Err(RoleError::HasMembers),
{
    if has_members {
        Err(RoleError::HasMembers)
    } else {
        Ok(())
    }
}

/// The keys roles are ordered by.
pub open spec fn role_keys(roles: Seq<RoleSummary>) -> Seq<(i32, i64)> {
    roles.map_values(|r: RoleSummary| (r.sort, r.id))
}

/// The positions of `roles` in `(sort, id)` order, as lists show roles.
pub fn role_order(roles: &Vec<RoleSummary>) -> (r: Vec<usize>)
    ensures
        is_stable_order(role_keys(roles@), r@),
{
    let mut keys: Vec<(i32, i64)> = Vec::new();
    let mut i: usize = 0;
    while i < roles.len()
        invariant
            i <= roles@.len(),
            keys@ == role_keys(roles@.take(i as int)),
        decreases roles@.len() - i,
    {
        keys.push((roles[i].sort, roles[i].id));
        assert(role_keys(roles@.take(i + 1)) =~= role_keys(roles@.take(i as int)).push((roles@[i as int].sort, roles@[i as int].id)));
        i += 1;
    }
    assert(roles@.take(roles@.len() as int) =~= roles@);
    stable_order(&keys)
}

} // verus!
