use vstd::prelude::*;

use crate::authorization::policy::AuthorizationError;

verus! {

/// Why the access catalogue, or an input checked against it, was refused.
#[derive(Debug, Clone, Copy, PartialEq, Eq, Structural)]
pub enum CatalogError {
    /// The menu tree, or a permission selection against it, is invalid.
    InvalidTree,
    /// An API binding names an invalid method, path or menu node.
    InvalidBinding,
    /// No API binding covers the request.
    Unbound,
}

/// The message each refusal reports.
pub open spec fn catalog_error_text(e: CatalogError) -> Seq<char> {
    match e {
        CatalogError::InvalidTree => "access catalog contains an invalid menu tree"@,
        CatalogError::InvalidBinding => "access catalog contains an invalid API binding"@,
        CatalogError::Unbound => "request is not bound to a catalog permission"@,
    }
}

impl CatalogError {
    /// The message the error reports.
    pub fn message(&self) -> (r: &'static str)
        ensures
            r@ == catalog_error_text(*self),
    {
        match self {
            CatalogError::InvalidTree => "access catalog contains an invalid menu tree",
            CatalogError::InvalidBinding => "access catalog contains an invalid API binding",
            CatalogError::Unbound => "request is not bound to a catalog permission",
        }
    }
}

/// Why a request was not let through.
#[derive(Debug)]
pub enum AccessEvaluationError {
    /// The policy could not be evaluated.
    Authorization(AuthorizationError),
    /// No account has the requesting user's id.
    UserNotFound,
    /// The requesting account is disabled.
    UserDisabled,
    /// The account lacks the permission the request needs.
    PermissionDenied,
}

/// Lets an account through only when it exists and is enabled, given its
/// known status.
pub fn require_active(status: Option<bool>) -> (r: Result<(), AccessEvaluationError>)
    ensures
        status == Some(true) ==> r is Ok,
        status == Some(false) ==> r matches Err(AccessEvaluationError::UserDisabled),
        status is None ==> r matches Err(AccessEvaluationError::UserNotFound),
{
    match status {
        Some(true) => Ok(()),
        Some(false) => Err(AccessEvaluationError::UserDisabled),
        None => Err(AccessEvaluationError::UserNotFound),
    }
}

/// Lets a request through only when the policy grants its permission.
pub fn require_granted(granted: bool) -> (r: Result<(), AccessEvaluationError>)
    ensures
        granted ==> r is Ok,
        !granted ==> r matches Err(AccessEvaluationError::PermissionDenied),
{
    if granted {
        Ok(())
    } else {
        Err(AccessEvaluationError::PermissionDenied)
    }
}

} // verus!
