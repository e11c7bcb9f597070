//! User accounts: who may see and change which accounts, and how account
//! rows are shown.
use vstd::prelude::*;

use crate::authorization::policy::AuthorizationError;
use crate::roles::RoleSummary;
use crate::sets::{insert_sorted_string, strings_set, strings_sorted};
use crate::text::{str_eq, text_lt};

verus! {

/// Which accounts an actor may reach: all of them (an active super-admin),
/// those of one department, or only the actor's own.
#[derive(Debug, Clone, Copy, PartialEq, Eq, Structural)]
pub enum AccountBoundary {
    All,
    Department(i64),
    SelfOnly(i64),
}

/// Why an account operation was refused.
#[derive(Debug)]
pub enum AccountError {
    NotFound,
    AlreadyExists,
    InvalidRoles,
    AccessDenied,
    Authorization(AuthorizationError),
}

/// Why a session could not be refreshed.
#[derive(Debug, Clone, Copy, PartialEq, Eq, Structural)]
pub enum RefreshIdentityError {
    NotFound,
    Disabled,
}

#[derive(Debug, Clone)]
pub struct EffectiveRoleSource {
    pub id: i64,
    pub code: String,
    pub name: String,
}

#[derive(Debug, Clone)]
pub struct EffectivePermissionSource {
    pub permission: String,
    pub roles: Vec<EffectiveRoleSource>,
}

/// The roles assigned to an account and the permissions they grant.
#[derive(Debug, Clone)]
pub struct AccountAccessView {
    pub assigned_roles: Vec<RoleSummary>,
    pub effective_permissions: Vec<EffectivePermissionSource>,
}

#[derive(Debug, Clone)]
pub struct LoginAccount {
    pub id: i64,
    pub username: String,
    pub password_hash: String,
    pub enable: bool,
}

#[derive(Debug, Clone)]
pub struct RefreshIdentity {
    pub username: String,
}

#[derive(Debug, Clone)]
pub struct CreateAccountInput {
    pub user_name: String,
    pub password_hash: String,
    pub nick_name: String,
    pub header_img: Option<String>,
    pub role_ids: Option<Vec<i64>>,
    pub dept_id: Option<i64>,
    pub enable: Option<i32>,
    pub phone: Option<String>,
    pub email: Option<String>,
}

#[derive(Debug, Clone)]
pub struct UpdateUserInput {
    pub nick_name: String,
    pub header_img: String,
    pub enable: i32,
    pub phone: Option<String>,
    pub email: Option<String>,
    pub dept_id: Option<i64>,
}

#[derive(Debug, Clone)]
pub struct SetSelfInfoRequest {
    pub nick_name: Option<String>,
    pub header_img: Option<String>,
    pub phone: Option<String>,
    pub email: Option<String>,
}

#[derive(Debug, Clone)]
pub struct DeleteUserRequest {
    pub id: i64,
}

/// A page of the account list.
#[derive(Debug, Clone)]
pub struct GetUserListRequest {
    pub page: i64,
    pub page_size: i64,
    pub keyword: Option<String>,
    pub username: Option<String>,
    pub nick_name: Option<String>,
    pub phone: Option<String>,
    pub email: Option<String>,
    pub order_key: Option<String>,
    pub desc: Option<bool>,
}

/// A stored account row, its settings kept as JSON text.
#[derive(Debug, Clone)]
pub struct UserRecord {
    pub id: i64,
    pub uuid: String,
    pub username: String,
    pub password_hash: String,
    pub nick_name: String,
    pub header_img: String,
    pub home_route: String,
    pub enable: bool,
    pub phone: Option<String>,
    pub email: Option<String>,
    pub origin_setting: Option<String>,
    pub dept_id: Option<i64>,
    pub dept_name: Option<String>,
}

/// An account as it is shown: enabled is `1`, disabled `2`; absent phone,
/// email and department name are empty.
#[derive(Debug, Clone)]
pub struct UserInfoView {
    pub id: i64,
    pub uuid: String,
    pub user_name: String,
    pub nick_name: String,
    pub header_img: String,
    pub home_route: String,
    pub enable: i32,
    pub phone: String,
    pub email: String,
    pub origin_setting: Option<String>,
    pub dept_id: Option<i64>,
    pub dept_name: String,
    pub roles: Vec<RoleSummary>,
    pub role_ids: Vec<i64>,
}

/// The boundary of an actor: a disabled actor is refused; an active
/// super-admin reaches all accounts, anyone else the accounts of their
/// department, or only their own without one.
pub open spec fn account_boundary_spec(actor_user_id: i64, enabled: bool, is_super_admin: bool, dept_id: Option<i64>) -> Result<
    AccountBoundary,
    AccountError,
> {
    if !enabled {
        Err(AccountError::AccessDenied)
    } else if is_super_admin {
        Ok(AccountBoundary::All)
    } else {
        match dept_id {
            Some(d) => Ok(AccountBoundary::Department(d)),
            None => Ok(AccountBoundary::SelfOnly(actor_user_id)),
        }
    }
}

pub fn account_boundary(actor_user_id: i64, enabled: bool, is_super_admin: bool, dept_id: Option<i64>) -> (r:
    Result<AccountBoundary, AccountError>)
    ensures
        r == account_boundary_spec(actor_user_id, enabled, is_super_admin, dept_id),
        !enabled ==> r matches Err(AccountError::AccessDenied),
        enabled && is_super_admin ==> r matches Ok(AccountBoundary::All),
        enabled && !is_super_admin ==> match dept_id {
            Some(d) => r matches Ok(AccountBoundary::Department(x)) && x == d,
            None => r matches Ok(AccountBoundary::SelfOnly(x)) && x == actor_user_id,
        },
{
    if !enabled {
        return Err(AccountError::AccessDenied);
    }
    if is_super_admin {
        Ok(AccountBoundary::All)
    } else {
        match dept_id {
            Some(d) => Ok(AccountBoundary::Department(d)),
            None => Ok(AccountBoundary::SelfOnly(actor_user_id)),
        }
    }
}

/// The department of a new account: a super-admin may place it anywhere
/// (department 1 by default); a department actor only in their own
/// department and without roles; an actor limited to themselves may not
/// create accounts.
pub open spec fn creation_department_spec(boundary: AccountBoundary, requested: Option<i64>, role_count: nat) -> Result<
    Option<i64>,
    AccountError,
> {
    match boundary {
        AccountBoundary::All => Ok(
            Some(
                match requested {
                    Some(d) => d,
                    None => 1,
                },
            ),
        ),
        AccountBoundary::Department(own) => {
            let target = match requested {
                Some(d) => d,
                None => own,
            };
            if target != own || role_count > 0 {
                Err(AccountError::AccessDenied)
            } else {
                Ok(Some(target))
            }
        },
        AccountBoundary::SelfOnly(_) => Err(AccountError::AccessDenied),
    }
}

pub fn creation_department(boundary: AccountBoundary, requested: Option<i64>, role_count: usize) -> (r: Result<
    Option<i64>,
    AccountError,
>)
    ensures
        r == creation_department_spec(boundary, requested, role_count as nat),
        boundary matches AccountBoundary::All ==> r == Ok::<Option<i64>, AccountError>(
            match requested {
                Some(d) => Some(d),
                None => Some(1),
            },
        ),
        boundary matches AccountBoundary::Department(own) ==> ({
            let target = match requested {
                Some(d) => d,
                None => own,
            };
            if target != own || role_count > 0 {
                r matches Err(AccountError::AccessDenied)
            } else {
                r == Ok::<Option<i64>, AccountError>(Some(target))
            }
        }),
        boundary matches AccountBoundary::SelfOnly(_) ==> r matches Err(AccountError::AccessDenied),
{
    match boundary {
        AccountBoundary::All => match requested {
            Some(d) => Ok(Some(d)),
            None => Ok(Some(1)),
        },
        AccountBoundary::Department(own) => {
            let target = match requested {
                Some(d) => d,
                None => own,
            };
            if target != own || role_count > 0 {
                Err(AccountError::AccessDenied)
            } else {
                Ok(Some(target))
            }
        },
        AccountBoundary::SelfOnly(_) => Err(AccountError::AccessDenied),
    }
}

/// Whether a new account starts enabled: unless a flag other than `1` is given.
pub fn initially_enabled(enable: Option<i32>) -> (r: bool)
    ensures
        r == match enable {
            Some(e) => e == 1,
            None => true,
        },
{
    match enable {
        Some(e) => e == 1,
        None => true,
    }
}

/// Whether an actor may move an account to a department: a super-admin to
/// any, a department actor only to their own; no move is always allowed.
pub open spec fn department_change_allowed(boundary: AccountBoundary, target: Option<i64>) -> bool {
    match target {
        None => true,
        Some(t) => match boundary {
            AccountBoundary::All => true,
            AccountBoundary::Department(own) => own == t,
            AccountBoundary::SelfOnly(_) => false,
        },
    }
}

pub fn department_change(boundary: AccountBoundary, target: Option<i64>) -> (r: Result<(), AccountError>)
    ensures
        r is Ok <==> department_change_allowed(boundary, target),
        r is Ok <==> match target {
            None => true,
            Some(t) => match boundary {
                AccountBoundary::All => true,
                AccountBoundary::Department(own) => own == t,
                AccountBoundary::SelfOnly(_) => false,
            },
        },
        r is Err ==> r matches Err(AccountError::AccessDenied),
{
    match target {
        None => Ok(()),
        Some(t) => match boundary {
            AccountBoundary::All => Ok(()),
            AccountBoundary::Department(own) => if own == t {
                Ok(())
            } else {
                Err(AccountError::AccessDenied)
            },
            AccountBoundary::SelfOnly(_) => Err(AccountError::AccessDenied),
        },
    }
}

/// How visibility of an account is decided: by whether it exists, whether it
/// exists in a department, or already known.
#[derive(Debug, Clone, Copy, PartialEq, Eq, Structural)]
pub enum VisibilityCheck {
    Exists,
    ExistsInDepartment(i64),
    Known(bool),
}

pub open spec fn visibility_check_spec(boundary: AccountBoundary, target_user_id: i64) -> VisibilityCheck {
    match boundary {
        AccountBoundary::All => VisibilityCheck::Exists,
        AccountBoundary::Department(d) => VisibilityCheck::ExistsInDepartment(d),
        AccountBoundary::SelfOnly(own) => VisibilityCheck::Known(own == target_user_id),
    }
}

pub fn visibility_check(boundary: AccountBoundary, target_user_id: i64) -> (r: VisibilityCheck)
    ensures
        r == visibility_check_spec(boundary, target_user_id),
        r == match boundary {
            AccountBoundary::All => VisibilityCheck::Exists,
            AccountBoundary::Department(d) => VisibilityCheck::ExistsInDepartment(d),
            AccountBoundary::SelfOnly(own) => VisibilityCheck::Known(own == target_user_id),
        },
{
    match boundary {
        AccountBoundary::All => VisibilityCheck::Exists,
        AccountBoundary::Department(d) => VisibilityCheck::ExistsInDepartment(d),
        AccountBoundary::SelfOnly(own) => VisibilityCheck::Known(own == target_user_id),
    }
}

/// An account that the actor cannot see is answered as not found.
pub fn require_visible(visible: bool) -> (r: Result<(), AccountError>)
    ensures
        visible ==> r is Ok,
        !visible ==> r matches Err(AccountError::NotFound),
{
    if visible {
        Ok(())
    } else {
        Err(AccountError::NotFound)
    }
}

/// A disabled account cannot refresh its session.
pub fn refresh_check(enabled: bool) -> (r: Result<(), RefreshIdentityError>)
    ensures
        enabled ==> r is Ok,
        !enabled ==> r == Err::<(), RefreshIdentityError>(RefreshIdentityError::Disabled),
{
    if enabled {
        Ok(())
    } else {
        Err(RefreshIdentityError::Disabled)
    }
}

/// The accounts a list query may reach: all, one department, or one account.
pub open spec fn list_scope_spec(boundary: AccountBoundary) -> (bool, Option<i64>, Option<i64>) {
    match boundary {
        AccountBoundary::All => (true, None::<i64>, None::<i64>),
        AccountBoundary::Department(d) => (false, Some(d), None::<i64>),
        AccountBoundary::SelfOnly(u) => (false, None::<i64>, Some(u)),
    }
}

pub fn list_scope(boundary: AccountBoundary) -> (r: (bool, Option<i64>, Option<i64>))
    ensures
        r == list_scope_spec(boundary),
        r == match boundary {
            AccountBoundary::All => (true, None::<i64>, None::<i64>),
            AccountBoundary::Department(d) => (false, Some(d), None::<i64>),
            AccountBoundary::SelfOnly(u) => (false, None::<i64>, Some(u)),
        },
{
    match boundary {
        AccountBoundary::All => (true, None, None),
        AccountBoundary::Department(d) => (false, Some(d), None),
        AccountBoundary::SelfOnly(u) => (false, None, Some(u)),
    }
}

/// Whether an account, by its id and department, lies within a boundary.
pub open spec fn within_boundary(boundary: AccountBoundary, user_id: i64, dept: Option<i64>) -> bool {
    match boundary {
        AccountBoundary::All => true,
        AccountBoundary::Department(d) => dept == Some(d),
        AccountBoundary::SelfOnly(u) => user_id == u,
    }
}

/// Whether a list scope `(all, department, user)` takes an account: every
/// account, the accounts of the department, or the one account.
pub open spec fn scope_takes(scope: (bool, Option<i64>, Option<i64>), user_id: i64, dept: Option<i64>) -> bool {
    scope.0 || (scope.1 is Some && dept == scope.1) || scope.2 == Some(user_id)
}

/// Whether a visibility check passes for an existing account.
pub open spec fn check_passes(check: VisibilityCheck, dept: Option<i64>) -> bool {
    match check {
        VisibilityCheck::Exists => true,
        VisibilityCheck::ExistsInDepartment(d) => dept == Some(d),
        VisibilityCheck::Known(v) => v,
    }
}

/// The account list and the visibility check both reach exactly the
/// accounts within the actor's boundary.
pub proof fn lemma_list_and_visibility_follow_boundary(boundary: AccountBoundary, user_id: i64, dept: Option<i64>)
    ensures
        scope_takes(list_scope_spec(boundary), user_id, dept) <==> within_boundary(boundary, user_id, dept),
        check_passes(visibility_check_spec(boundary, user_id), dept) <==> within_boundary(boundary, user_id, dept),
{
}

/// An enabled actor always reaches their own account; only an active
/// super-admin reaches every account, and a disabled actor reaches none.
pub proof fn lemma_boundary_of_actor(actor_user_id: i64, enabled: bool, is_super_admin: bool, dept_id: Option<i64>)
    ensures
        account_boundary_spec(actor_user_id, enabled, is_super_admin, dept_id) is Ok <==> enabled,
        account_boundary_spec(actor_user_id, enabled, is_super_admin, dept_id) matches Ok(b) ==> within_boundary(
            b,
            actor_user_id,
            dept_id,
        ),
        account_boundary_spec(actor_user_id, enabled, is_super_admin, dept_id) matches Ok(b) ==> ((forall|
            u: i64,
            d: Option<i64>,
        | within_boundary(b, u, d)) <==> is_super_admin),
{
    if enabled && !is_super_admin {
        let b = account_boundary_spec(actor_user_id, enabled, is_super_admin, dept_id)->Ok_0;
        let other: i64 = if actor_user_id == 0 { 1 } else { 0 };
        assert(!within_boundary(b, other, None));
    }
}

/// An account may be moved into a department only where every account of
/// that department lies within the actor's boundary; leaving the
/// department as it is is always allowed.
pub proof fn lemma_moves_stay_within_boundary(boundary: AccountBoundary, target: i64)
    ensures
        department_change_allowed(boundary, Some(target)) <==> forall|u: i64|
            within_boundary(boundary, u, Some(target)),
        department_change_allowed(boundary, None),
{
    if let AccountBoundary::SelfOnly(own) = boundary {
        let other: i64 = if own == 0 { 1 } else { 0 };
        assert(!within_boundary(boundary, other, Some(target)));
    }
    assert((forall|u: i64| within_boundary(boundary, u, Some(target))) ==> within_boundary(boundary, 0, Some(target)));
}

/// A new account lands within its creator's boundary: a super-admin's in the
/// department asked for (the first department by default), a department
/// actor's in their own department and only without roles; an actor limited
/// to themselves creates none.
pub proof fn lemma_created_accounts_within_boundary(
    boundary: AccountBoundary,
    requested: Option<i64>,
    role_count: nat,
)
    ensures
        creation_department_spec(boundary, requested, role_count) matches Ok(Some(d)) ==> forall|u: i64|
            within_boundary(boundary, u, Some(d)),
        creation_department_spec(boundary, requested, role_count) is Ok ==> creation_department_spec(
            boundary,
            requested,
            role_count,
        )->Ok_0 is Some,
        boundary is All ==> creation_department_spec(boundary, requested, role_count) == Ok::<
            Option<i64>,
            AccountError,
        >(Some(if requested is Some { requested->0 } else { 1 })),
        boundary is Department ==> (creation_department_spec(boundary, requested, role_count) is Ok <==> role_count
            == 0 && (requested is None || requested == Some(boundary->Department_0))),
        boundary is SelfOnly ==> creation_department_spec(boundary, requested, role_count) is Err,
{
}

/// The column and direction a list is ordered by: a known key or the id,
/// descending unless ascending is asked for.
pub open spec fn order_column(key: Option<Seq<char>>) -> Seq<char> {
    match key {
        Some(k) => if k == "username"@ {
            "u.username"@
        } else if k == "nick_name"@ {
            "u.nick_name"@
        } else if k == "phone"@ {
            "u.phone"@
        } else if k == "email"@ {
            "u.email"@
        } else {
            "u.id"@
        },
        None => "u.id"@,
    }
}

/// The direction of the account list.
pub open spec fn order_direction(desc: Option<bool>) -> Seq<char> {
    if match desc {
        Some(d) => d,
        None => true,
    } {
        "desc"@
    } else {
        "asc"@
    }
}

/// The account list runs from the newest down unless ascending order is
/// asked for explicitly.
pub proof fn lemma_descending_unless_asked(desc: Option<bool>)
    ensures
        order_direction(desc) == "asc"@ <==> desc == Some(false),
        order_direction(desc) == "asc"@ || order_direction(desc) == "desc"@,
{
    reveal_strlit("asc");
    reveal_strlit("desc");
    assert("asc"@ != "desc"@) by {
        assert("asc"@.len() != "desc"@.len());
    }
}

/// The order keys the account list accepts.
pub open spec fn is_order_key(k: Seq<char>) -> bool {
    k == "username"@ || k == "nick_name"@ || k == "phone"@ || k == "email"@
}

/// Each accepted order key sorts the list by the account column of the same
/// name; any other key, or none, sorts by id.
pub proof fn lemma_order_key_names_its_column(k: Seq<char>)
    ensures
        is_order_key(k) ==> order_column(Some(k)) == "u."@ + k,
        !is_order_key(k) ==> order_column(Some(k)) == "u.id"@,
        order_column(None) == "u.id"@,
{
    reveal_strlit("u.");
    reveal_strlit("username");
    reveal_strlit("u.username");
    reveal_strlit("nick_name");
    reveal_strlit("u.nick_name");
    reveal_strlit("phone");
    reveal_strlit("u.phone");
    reveal_strlit("email");
    reveal_strlit("u.email");
    if k == "username"@ {
        assert("u."@ + k =~= "u.username"@);
    } else if k == "nick_name"@ {
        assert("u."@ + k =~= "u.nick_name"@);
    } else if k == "phone"@ {
        assert("u."@ + k =~= "u.phone"@);
    } else if k == "email"@ {
        assert("u."@ + k =~= "u.email"@);
    }
}

pub fn list_order(order_key: Option<&str>, desc: Option<bool>) -> (r: (&'static str, &'static str))
    ensures
        r.0@ == order_column(
            match order_key {
                Some(k) => Some(k@),
                None => None,
            },
        ),
        r.1@ == order_direction(desc),
{
    let column = match order_key {
        Some(k) => if str_eq(k, "username") {
            "u.username"
        } else if str_eq(k, "nick_name") {
            "u.nick_name"
        } else if str_eq(k, "phone") {
            "u.phone"
        } else if str_eq(k, "email") {
            "u.email"
        } else {
            "u.id"
        },
        None => "u.id",
    };
    let descending = match desc {
        Some(d) => d,
        None => true,
    };
    (column, if descending {
        "desc"
    } else {
        "asc"
    })
}

fn text_or_empty(o: &Option<String>) -> (r: String)
    ensures
        r@ == match *o {
            Some(s) => s@,
            None => Seq::<char>::empty(),
        },
{
    match o {
        Some(s) => s.clone(),
        None => String::new(),
    }
}

/// The view of an account row with its roles.
pub fn build_user_info(record: &UserRecord, roles: Vec<RoleSummary>) -> (r: UserInfoView)
    ensures
        r.id == record.id,
        r.uuid == record.uuid,
        r.user_name == record.username,
        r.nick_name == record.nick_name,
        r.header_img == record.header_img,
        r.home_route == record.home_route,
        r.enable == (if record.enable {
            1i32
        } else {
            2i32
        }),
        r.phone@ == match record.phone {
            Some(s) => s@,
            None => Seq::<char>::empty(),
        },
        r.email@ == match record.email {
            Some(s) => s@,
            None => Seq::<char>::empty(),
        },
        r.origin_setting == record.origin_setting,
        r.dept_id == record.dept_id,
        r.dept_name@ == match record.dept_name {
            Some(s) => s@,
            None => Seq::<char>::empty(),
        },
        r.roles@ == roles@,
        r.role_ids@ == roles@.map_values(|role: RoleSummary| role.id),
{
    let mut role_ids: Vec<i64> = Vec::new();
    let mut i: usize = 0;
    while i < roles.len()
        invariant
            i <= roles@.len(),
            role_ids@ == roles@.take(i as int).map_values(|role: RoleSummary| role.id),
        decreases roles@.len() - i,
    {
        role_ids.push(roles[i].id);
        assert(roles@.take(i + 1).map_values(|role: RoleSummary| role.id) =~= roles@.take(i as int).map_values(
            |role: RoleSummary| role.id,
        ).push(roles@[i as int].id));
        i += 1;
    }
    assert(roles@.take(roles@.len() as int) =~= roles@);
    let origin_setting = match &record.origin_setting {
        Some(s) => Some(s.clone()),
        None => None,
    };
    UserInfoView {
        id: record.id,
        uuid: record.uuid.clone(),
        user_name: record.username.clone(),
        nick_name: record.nick_name.clone(),
        header_img: record.header_img.clone(),
        home_route: record.home_route.clone(),
        enable: if record.enable {
            1
        } else {
            2
        },
        phone: text_or_empty(&record.phone),
        email: text_or_empty(&record.email),
        origin_setting,
        dept_id: record.dept_id,
        dept_name: text_or_empty(&record.dept_name),
        roles,
        role_ids,
    }
}

/// A granting role as access views show it.
pub open spec fn source_of(role: RoleSummary) -> EffectiveRoleSource {
    EffectiveRoleSource { id: role.id, code: role.code, name: role.name }
}

/// The roles of the grants of permission `p`, in grant order.
pub open spec fn sources_for(grants: Seq<(String, RoleSummary)>, p: Seq<char>) -> Seq<EffectiveRoleSource>
    decreases grants.len(),
{
    if grants.len() == 0 {
        Seq::empty()
    } else {
        let rest = sources_for(grants.drop_last(), p);
        if grants.last().0@ == p {
            rest.push(source_of(grants.last().1))
        } else {
            rest
        }
    }
}

/// Some grant names permission `p`.
pub open spec fn grants_name(grants: Seq<(String, RoleSummary)>, p: Seq<char>) -> bool {
    exists|j: int| 0 <= j < grants.len() && (#[trigger] grants[j]).0@ == p
}

/// `out` groups `grants` by permission: each granted permission once, in
/// ascending order, with the roles that grant it in grant order.
pub open spec fn groups_grants(out: Seq<EffectivePermissionSource>, grants: Seq<(String, RoleSummary)>) -> bool {
    &&& forall|a: int, b: int|
        0 <= a < b < out.len() ==> text_lt(#[trigger] out[a].permission@, #[trigger] out[b].permission@)
    &&& forall|k: int| 0 <= k < out.len() ==> (#[trigger] out[k]).roles@ == sources_for(grants, out[k].permission@)
    &&& forall|p: Seq<char>|
        (exists|k: int| 0 <= k < out.len() && (#[trigger] out[k]).permission@ == p) <==> grants_name(grants, p)
}

/// The roles of the grants of `p`, in grant order.
fn sources_of(grants: &Vec<(String, RoleSummary)>, p: &str) -> (r: Vec<EffectiveRoleSource>)
    ensures
        r@ == sources_for(grants@, p@),
{
    let mut r: Vec<EffectiveRoleSource> = Vec::new();
    let mut j: usize = 0;
    while j < grants.len()
        invariant
            j <= grants@.len(),
            r@ == sources_for(grants@.take(j as int), p@),
        decreases grants@.len() - j,
    {
        assert(grants@.take(j + 1).drop_last() =~= grants@.take(j as int));
        assert(grants@.take(j + 1).last() == grants@[j as int]);
        let g = &grants[j];
        if str_eq(g.0.as_str(), p) {
            let src = EffectiveRoleSource { id: g.1.id, code: g.1.code.clone(), name: g.1.name.clone() };
            assert(src == source_of(g.1));
            r.push(src);
        }
        j += 1;
    }
    assert(grants@.take(grants@.len() as int) =~= grants@);
    r
}

/// Groups the permission grants of an account's active roles by permission:
/// each permission once, in ascending order, with the roles that grant it.
pub fn effective_permission_sources(grants: &Vec<(String, RoleSummary)>) -> (r: Vec<EffectivePermissionSource>)
    ensures
        groups_grants(r@, grants@),
{
    let mut perms: Vec<String> = Vec::new();
    let mut i: usize = 0;
    while i < grants.len()
        invariant
            i <= grants@.len(),
            strings_sorted(perms@),
            forall|p: Seq<char>| strings_set(perms@).contains(p) <==> grants_name(grants@.take(i as int), p),
        decreases grants@.len() - i,
    {
        let ghost before = perms@;
        insert_sorted_string(&mut perms, grants[i].0.clone());
        proof {
            let now = grants@.take(i + 1);
            let was = grants@.take(i as int);
            assert forall|p: Seq<char>| strings_set(perms@).contains(p) <==> grants_name(now, p) by {
                if grants_name(now, p) {
                    let j = choose|j: int| 0 <= j < now.len() && (#[trigger] now[j]).0@ == p;
                    if j < i {
                        assert(was[j] == now[j]);
                    }
                }
                if grants_name(was, p) {
                    let j = choose|j: int| 0 <= j < was.len() && (#[trigger] was[j]).0@ == p;
                    assert(now[j] == was[j]);
                }
                if p == grants@[i as int].0@ {
                    assert(now[i as int] == grants@[i as int]);
                }
            }
        }
        i += 1;
    }
    assert(grants@.take(grants@.len() as int) =~= grants@);
    let mut out: Vec<EffectivePermissionSource> = Vec::new();
    let mut k: usize = 0;
    while k < perms.len()
        invariant
            k <= perms@.len(),
            strings_sorted(perms@),
            forall|p: Seq<char>| strings_set(perms@).contains(p) <==> grants_name(grants@, p),
            out@.len() == k,
            forall|a: int| 0 <= a < k ==> (#[trigger] out@[a]).permission@ == perms@[a]@,
            forall|a: int| 0 <= a < k ==> (#[trigger] out@[a]).roles@ == sources_for(grants@, out@[a].permission@),
        decreases perms@.len() - k,
    {
        let roles = sources_of(grants, perms[k].as_str());
        out.push(EffectivePermissionSource { permission: perms[k].clone(), roles });
        k += 1;
    }
    proof {
        assert forall|a: int, b: int| 0 <= a < b < out@.len() implies text_lt(
            #[trigger] out@[a].permission@,
            #[trigger] out@[b].permission@,
        ) by {
            assert(text_lt(perms@[a]@, perms@[b]@));
        }
        assert forall|p: Seq<char>|
            (exists|k: int| 0 <= k < out@.len() && (#[trigger] out@[k]).permission@ == p) <==> grants_name(grants@, p) by {
            if exists|k: int| 0 <= k < out@.len() && (#[trigger] out@[k]).permission@ == p {
                let k = choose|k: int| 0 <= k < out@.len() && (#[trigger] out@[k]).permission@ == p;
                assert(perms@[k]@ == p);
                assert(strings_set(perms@).contains(p));
            }
            if grants_name(grants@, p) {
                assert(strings_set(perms@).contains(p));
                let k = choose|k: int| 0 <= k < perms@.len() && (#[trigger] perms@[k])@ == p;
                assert(out@[k].permission@ == p);
            }
        }
    }
    out
}

} // verus!
