//! Why a storage could not be configured or changed.
use vstd::prelude::*;

use super::backend::ObjectStorageError;

verus! {

/// Why a storage could not be configured or changed.
#[derive(Debug)]
pub enum StorageError {
    NotFound,
    CodeConflict,
    ImmutableIdentity,
    DefaultProtected,
    DisabledDefault,
    InUse,
    InvalidInput(&'static str),
    InvalidConfiguration(ObjectStorageError),
}

} // verus!
