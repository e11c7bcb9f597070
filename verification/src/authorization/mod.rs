//! Policy subjects, checks of the loaded policy, the state beside the policy,
//! and the rules of policy administration.
pub mod administration;
pub mod policy;
pub mod state;
pub mod subjects;
