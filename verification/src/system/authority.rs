//! Console authorities.
use vstd::prelude::*;

use crate::text::owned;

verus! {

/// An authority of the console.
#[derive(Debug, Clone)]
pub struct Authority {
    pub authority_id: i64,
    pub authority_name: String,
}

/// The authorities every installation starts with: the super administrator
/// (888), to which the default menus are granted.
pub fn default_authorities() -> (r: Vec<Authority>)
    ensures
        r@.len() == 1,
        r@[0].authority_id == 888,
        r@[0].authority_name@ == "Super Admin"@,
{
    let mut r: Vec<Authority> = Vec::new();
    r.push(Authority { authority_id: 888, authority_name: owned("Super Admin") });
    r
}

} // verus!
