//! The rules of policy administration: who may change access, and which
//! changes would leave no active super-admin.
use vstd::prelude::*;

use super::policy::AuthorizationError;

verus! {

/// Why a change of access was refused.
#[derive(Debug)]
pub enum PolicyAdministrationError {
    RoleNotFound,
    UserNotFound,
    RoleImmutable,
    AccessDenied,
    LastSuperAdmin,
    InvalidPermissionAssignment,
    InvalidRoleAssignment,
    Authorization(AuthorizationError),
}

/// What a change to an account asks of the actor.
#[derive(Debug, Clone, Copy, PartialEq, Eq, Structural)]
pub enum AccountChangeCheck {
    /// Anyone allowed to edit accounts may make it.
    Allowed,
    /// Only an active super-admin may make it.
    RequiresSuperAdmin,
    /// Only an active super-admin may make it, and another active
    /// super-admin must remain.
    RequiresSuperAdminAndSurvivor,
}

/// What changing an account (its enabled flag, or removing it) asks of the
/// actor: nothing when the account holds no super-admin role or nothing
/// changes; otherwise a super-admin actor, and a surviving super-admin when
/// an enabled account would stop being active.
pub open spec fn account_change_spec(
    currently_enabled: bool,
    holds_super_admin: bool,
    next_enabled: bool,
    removing_account: bool,
) -> AccountChangeCheck {
    if !holds_super_admin || (!removing_account && next_enabled == currently_enabled) {
        AccountChangeCheck::Allowed
    } else if currently_enabled && (!next_enabled || removing_account) {
        AccountChangeCheck::RequiresSuperAdminAndSurvivor
    } else {
        AccountChangeCheck::RequiresSuperAdmin
    }
}

pub fn account_change_check(
    currently_enabled: bool,
    holds_super_admin: bool,
    next_enabled: bool,
    removing_account: bool,
) -> (r: AccountChangeCheck)
    ensures
        r == account_change_spec(currently_enabled, holds_super_admin, next_enabled, removing_account),
{
    if !holds_super_admin || (!removing_account && next_enabled == currently_enabled) {
        AccountChangeCheck::Allowed
    } else if currently_enabled && (!next_enabled || removing_account) {
        AccountChangeCheck::RequiresSuperAdminAndSurvivor
    } else {
        AccountChangeCheck::RequiresSuperAdmin
    }
}

/// The outcome of an account change, given what it asks, whether the actor
/// is an active super-admin, and how many active super-admins there are.
pub fn confirm_account_change(
    check: AccountChangeCheck,
    actor_is_super_admin: bool,
    active_super_admins: i64,
) -> (r: Result<(), PolicyAdministrationError>)
    ensures
        check == AccountChangeCheck::Allowed ==> r is Ok,
        check != AccountChangeCheck::Allowed && !actor_is_super_admin ==> r matches Err(
            PolicyAdministrationError::AccessDenied,
        ),
        check == AccountChangeCheck::RequiresSuperAdmin && actor_is_super_admin ==> r is Ok,
        check == AccountChangeCheck::RequiresSuperAdminAndSurvivor && actor_is_super_admin ==> (if active_super_admins
            <= 1 {
            r matches Err(PolicyAdministrationError::LastSuperAdmin)
        } else {
            r is Ok
        }),
{
    match check {
        AccountChangeCheck::Allowed => Ok(()),
        AccountChangeCheck::RequiresSuperAdmin => require_super_admin(actor_is_super_admin),
        AccountChangeCheck::RequiresSuperAdminAndSurvivor => {
            if !actor_is_super_admin {
                Err(PolicyAdministrationError::AccessDenied)
            } else if active_super_admins <= 1 {
                Err(PolicyAdministrationError::LastSuperAdmin)
            } else {
                Ok(())
            }
        },
    }
}

/// Only an active super-admin may administer access.
pub fn require_super_admin(actor_is_super_admin: bool) -> (r: Result<(), PolicyAdministrationError>)
    ensures
        actor_is_super_admin ==> r is Ok,
        !actor_is_super_admin ==> r matches Err(PolicyAdministrationError::AccessDenied),
{
    if actor_is_super_admin {
        Ok(())
    } else {
        Err(PolicyAdministrationError::AccessDenied)
    }
}

/// Whether an actor may replace a user's roles: the actor must be an active
/// super-admin, the user must exist, and every role must exist. Whether the
/// user is the last active super-admin plays no part: such a user may give up
/// the role.
pub fn check_role_replacement(actor_is_super_admin: bool, target_exists: bool, roles_known: bool) -> (r: Result<
    (),
    PolicyAdministrationError,
>)
    ensures
        !actor_is_super_admin ==> r matches Err(PolicyAdministrationError::AccessDenied),
        actor_is_super_admin && !target_exists ==> r matches Err(PolicyAdministrationError::UserNotFound),
        actor_is_super_admin && target_exists && !roles_known ==> r matches Err(
            PolicyAdministrationError::InvalidRoleAssignment,
        ),
        actor_is_super_admin && target_exists && roles_known ==> r is Ok,
{
    if !actor_is_super_admin {
        Err(PolicyAdministrationError::AccessDenied)
    } else if !target_exists {
        Err(PolicyAdministrationError::UserNotFound)
    } else if !roles_known {
        Err(PolicyAdministrationError::InvalidRoleAssignment)
    } else {
        Ok(())
    }
}

/// Whether a role's permissions may be replaced: the role must exist, must
/// not be the protected role, and every permission must be in the catalogue.
pub fn check_role_permission_change(protected: Option<bool>, permissions_known: bool) -> (r: Result<
    (),
    PolicyAdministrationError,
>)
    ensures
        protected is None ==> r matches Err(PolicyAdministrationError::RoleNotFound),
        protected == Some(true) ==> r matches Err(PolicyAdministrationError::RoleImmutable),
        protected == Some(false) && !permissions_known ==> r matches Err(
            PolicyAdministrationError::InvalidPermissionAssignment,
        ),
        protected == Some(false) && permissions_known ==> r is Ok,
{
    match protected {
        None => Err(PolicyAdministrationError::RoleNotFound),
        Some(true) => Err(PolicyAdministrationError::RoleImmutable),
        Some(false) => if permissions_known {
            Ok(())
        } else {
            Err(PolicyAdministrationError::InvalidPermissionAssignment)
        },
    }
}

/// The stored permissions of a role, when readable: a role without
/// permissions must exist, and every stored permission must still be in the
/// catalogue (otherwise the configuration is broken).
pub fn check_stored_role_permissions(
    no_permissions: bool,
    role_exists: bool,
    all_known: bool,
) -> (r: Result<(), PolicyAdministrationError>)
    ensures
        no_permissions && !role_exists ==> r matches Err(PolicyAdministrationError::RoleNotFound),
        !(no_permissions && !role_exists) && !all_known ==> (r matches Err(
            PolicyAdministrationError::Authorization(AuthorizationError::Configuration(m)),
        ) && m@ == "persisted role permission does not exist in the access catalog"@),
        !(no_permissions && !role_exists) && all_known ==> r is Ok,
{
    if no_permissions && !role_exists {
        return Err(PolicyAdministrationError::RoleNotFound);
    }
    if !all_known {
        return Err(
            PolicyAdministrationError::Authorization(
                AuthorizationError::Configuration(
                    crate::text::owned("persisted role permission does not exist in the access catalog"),
                ),
            ),
        );
    }
    Ok(())
}

/// Why the roles of a new account are refused: none is always fine; roles
/// need an active super-admin actor and assignable roles.
#[derive(Debug, Clone, Copy, PartialEq, Eq, Structural)]
pub enum InitialMembershipError {
    AccessDenied,
    InvalidRoles,
}

pub fn check_initial_roles(role_count: usize, actor_is_super_admin: bool, roles_assignable: bool) -> (r: Result<
    (),
    InitialMembershipError,
>)
    ensures
        role_count == 0 ==> r is Ok,
        role_count > 0 && !actor_is_super_admin ==> r == Err::<(), InitialMembershipError>(
            InitialMembershipError::AccessDenied,
        ),
        role_count > 0 && actor_is_super_admin && !roles_assignable ==> r == Err::<(), InitialMembershipError>(
            InitialMembershipError::InvalidRoles,
        ),
        role_count > 0 && actor_is_super_admin && roles_assignable ==> r is Ok,
{
    if role_count == 0 {
        return Ok(());
    }
    if !actor_is_super_admin {
        return Err(InitialMembershipError::AccessDenied);
    }
    if !roles_assignable {
        return Err(InitialMembershipError::InvalidRoles);
    }
    Ok(())
}

/// The account check never lets an enabled account holding the super-admin
/// role be disabled or removed without asking for a super-admin actor and
/// another active super-admin to remain.
pub proof fn lemma_deactivating_super_admin_needs_survivor(
    next_enabled: bool,
    removing_account: bool,
)
    requires
        !next_enabled || removing_account,
    ensures
        account_change_spec(true, true, next_enabled, removing_account)
            == AccountChangeCheck::RequiresSuperAdminAndSurvivor,
{
}

} // verus!
