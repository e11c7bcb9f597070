//! The authorization state held beside the policy: which users exist and are
//! enabled, which roles are enabled, and which role is the super-admin role;
//! with the decisions taken over a user's membership rules.
use std::collections::{HashMap, HashSet};
use vstd::prelude::*;

use super::policy::RoleFact;
use super::subjects::{parse_role_subject, role_prefix, subject_id};
use crate::sets::{contains_id, contains_string, strings_set};

verus! {

broadcast use vstd::std_specs::hash::group_hash_axioms;

/// The map that a list of `(id, enabled)` pairs describes; a later pair for
/// one id replaces an earlier one.
pub open spec fn pairs_map(pairs: Seq<(i64, bool)>) -> Map<i64, bool>
    decreases pairs.len(),
{
    if pairs.len() == 0 {
        Map::empty()
    } else {
        pairs_map(pairs.drop_last()).insert(pairs.last().0, pairs.last().1)
    }
}

/// The ids of the roles whose status is `enabled`.
pub open spec fn enabled_role_set(roles: Seq<RoleFact>) -> Set<i64> {
    Set::new(
        |id: i64|
            exists|i: int| 0 <= i < roles.len() && (#[trigger] roles[i]).id == id && roles[i].status@ == "enabled"@,
    )
}

/// The role that a membership rule points at: its second field, read as
/// `role:<id>`.
pub open spec fn rule_target_role(rule: Seq<String>) -> Option<i64> {
    if rule.len() >= 2 {
        subject_id(rule[1]@, role_prefix())
    } else {
        None
    }
}

/// The roles that membership rules point at, in rule order.
pub open spec fn rule_roles(rules: Seq<Vec<String>>) -> Seq<i64>
    decreases rules.len(),
{
    if rules.len() == 0 {
        Seq::empty()
    } else {
        match rule_target_role(rules.last()@) {
            Some(id) => rule_roles(rules.drop_last()).push(id),
            None => rule_roles(rules.drop_last()),
        }
    }
}

/// The roles of `roles` that are in `enabled`, in order.
pub open spec fn enabled_only(roles: Seq<i64>, enabled: Set<i64>) -> Seq<i64> {
    roles.filter(|id: i64| enabled.contains(id))
}

/// The snapshot of users and roles that authorization decisions read.
pub struct AuthorizationState {
    users: HashMap<i64, bool>,
    enabled_role_ids: HashSet<i64>,
    super_admin_role_id: i64,
}

impl AuthorizationState {
    /// Known users and whether each is enabled.
    pub closed spec fn users(&self) -> Map<i64, bool> {
        self.users@
    }

    /// The enabled roles.
    pub closed spec fn enabled_roles(&self) -> Set<i64> {
        self.enabled_role_ids@
    }

    /// The super-admin role.
    pub closed spec fn super_admin(&self) -> i64 {
        self.super_admin_role_id
    }

    /// The state that the loaded facts describe.
    pub fn from_facts(users: &Vec<(i64, bool)>, roles: &Vec<RoleFact>, super_admin_role_id: i64) -> (r:
        Self)
        ensures
            r.users() == pairs_map(users@),
            r.enabled_roles() == enabled_role_set(roles@),
            r.super_admin() == super_admin_role_id,
    {
        let mut map: HashMap<i64, bool> = HashMap::new();
        let mut i: usize = 0;
        while i < users.len()
            invariant
                i <= users@.len(),
                map@ == pairs_map(users@.take(i as int)),
            decreases users@.len() - i,
        {
            assert(users@.take(i + 1).drop_last() =~= users@.take(i as int));
            let (id, enabled) = users[i];
            map.insert(id, enabled);
            i += 1;
        }
        assert(users@.take(users@.len() as int) =~= users@);
        let mut set: HashSet<i64> = HashSet::new();
        let mut k: usize = 0;
        while k < roles.len()
            invariant
                k <= roles@.len(),
                forall|id: i64|
                    set@.contains(id) <==> exists|j: int|
                        0 <= j < k && (#[trigger] roles@[j]).id == id && roles@[j].status@ == "enabled"@,
            decreases roles@.len() - k,
        {
            if crate::text::str_eq(roles[k].status.as_str(), "enabled") {
                set.insert(roles[k].id);
            }
            k += 1;
        }
        assert(set@ =~= enabled_role_set(roles@));
        AuthorizationState { users: map, enabled_role_ids: set, super_admin_role_id }
    }

    /// Whether the user is known, and if so whether enabled.
    pub fn user_status(&self, user_id: i64) -> (r: Option<bool>)
        ensures
            r == (if self.users().contains_key(user_id) {
                Some(self.users()[user_id])
            } else {
                None
            }),
    {
        match self.users.get(&user_id) {
            Some(enabled) => Some(*enabled),
            None => None,
        }
    }

    /// Records a user's status.
    pub fn set_user_status(&mut self, user_id: i64, enabled: bool)
        ensures
            final(self).users() == old(self).users().insert(user_id, enabled),
            final(self).enabled_roles() == old(self).enabled_roles(),
            final(self).super_admin() == old(self).super_admin(),
    {
        self.users.insert(user_id, enabled);
    }

    /// Forgets a removed user.
    pub fn forget_user(&mut self, user_id: i64)
        ensures
            final(self).users() == old(self).users().remove(user_id),
            final(self).enabled_roles() == old(self).enabled_roles(),
            final(self).super_admin() == old(self).super_admin(),
    {
        self.users.remove(&user_id);
    }

    /// Records whether a role is enabled.
    pub fn set_role_status(&mut self, role_id: i64, enabled: bool)
        ensures
            final(self).enabled_roles() == (if enabled {
                old(self).enabled_roles().insert(role_id)
            } else {
                old(self).enabled_roles().remove(role_id)
            }),
            final(self).users() == old(self).users(),
            final(self).super_admin() == old(self).super_admin(),
    {
        if enabled {
            self.enabled_role_ids.insert(role_id);
        } else {
            self.enabled_role_ids.remove(&role_id);
        }
    }

    /// Forgets a removed role.
    pub fn forget_role(&mut self, role_id: i64)
        ensures
            final(self).enabled_roles() == old(self).enabled_roles().remove(role_id),
            final(self).users() == old(self).users(),
            final(self).super_admin() == old(self).super_admin(),
    {
        self.enabled_role_ids.remove(&role_id);
    }

    /// Whether a role is enabled.
    pub fn role_is_enabled(&self, role_id: i64) -> (r: bool)
        ensures
            r == self.enabled_roles().contains(role_id),
    {
        self.enabled_role_ids.contains(&role_id)
    }

    /// The enabled roles among those that a user's membership rules point at.
    pub fn active_role_ids(&self, memberships: &Vec<Vec<String>>) -> (r: Vec<i64>)
        ensures
            r@ == enabled_only(rule_roles(memberships@), self.enabled_roles()),
    {
        let all = role_ids_of(memberships);
        let mut r: Vec<i64> = Vec::new();
        let mut i: usize = 0;
        while i < all.len()
            invariant
                i <= all@.len(),
                all@ == rule_roles(memberships@),
                r@ == enabled_only(all@.take(i as int), self.enabled_roles()),
            decreases all@.len() - i,
        {
            proof {
                let e = self.enabled_roles();
                assert(all@.take(i + 1).drop_last() =~= all@.take(i as int));
                reveal_with_fuel(Seq::filter, 1);
            }
            if self.enabled_role_ids.contains(&all[i]) {
                r.push(all[i]);
            }
            i += 1;
        }
        assert(all@.take(all@.len() as int) =~= all@);
        r
    }

    /// Whether the user is enabled, the super-admin role is enabled, and one
    /// of the user's membership rules points at it.
    pub fn is_active_super_admin(&self, user_id: i64, memberships: &Vec<Vec<String>>) -> (r: bool)
        ensures
            r == (self.users().contains_key(user_id) && self.users()[user_id] && self.enabled_roles().contains(
                self.super_admin(),
            ) && rule_roles(memberships@).contains(self.super_admin())),
    {
        match self.users.get(&user_id) {
            Some(enabled) => {
                if !*enabled {
                    return false;
                }
            },
            None => {
                return false;
            },
        }
        if !self.enabled_role_ids.contains(&self.super_admin_role_id) {
            return false;
        }
        let roles = role_ids_of(memberships);
        contains_id(&roles, self.super_admin_role_id)
    }
}

/// The roles that membership rules point at, in rule order; a rule without
/// a `role:<id>` second field points at none.
pub fn role_ids_of(memberships: &Vec<Vec<String>>) -> (r: Vec<i64>)
    ensures
        r@ == rule_roles(memberships@),
{
    let mut r: Vec<i64> = Vec::new();
    let mut i: usize = 0;
    while i < memberships.len()
        invariant
            i <= memberships@.len(),
            r@ == rule_roles(memberships@.take(i as int)),
        decreases memberships@.len() - i,
    {
        assert(memberships@.take(i + 1).drop_last() =~= memberships@.take(i as int));
        let rule = &memberships[i];
        if rule.len() >= 2 {
            if let Some(id) = parse_role_subject(rule[1].as_str()) {
                r.push(id);
            }
        }
        i += 1;
    }
    assert(memberships@.take(memberships@.len() as int) =~= memberships@);
    r
}

/// The texts of `a` that `b` lacks, each once.
pub fn string_difference(a: &Vec<String>, b: &Vec<String>) -> (r: Vec<String>)
    ensures
        strings_set(r@) == strings_set(a@).difference(strings_set(b@)),
        crate::sets::strings_distinct(r@),
{
    let mut r: Vec<String> = Vec::new();
    let mut i: usize = 0;
    while i < a.len()
        invariant
            i <= a@.len(),
            strings_set(r@) == strings_set(a@.take(i as int)).difference(strings_set(b@)),
            crate::sets::strings_distinct(r@),
        decreases a@.len() - i,
    {
        proof {
            assert(a@.take(i + 1) =~= a@.take(i as int).push(a@[i as int]));
            crate::sets::lemma_strings_set_push(a@.take(i as int), a@[i as int]);
        }
        let item = &a[i];
        if !contains_string(b, item.as_str()) && !contains_string(&r, item.as_str()) {
            proof {
                crate::sets::lemma_strings_set_push(r@, *item);
            }
            r.push(item.clone());
            proof {
                assert(r@.last()@ == item@);
            }
        }
        proof {
            assert(strings_set(r@) =~= strings_set(a@.take(i + 1)).difference(strings_set(b@)));
        }
        i += 1;
    }
    assert(a@.take(a@.len() as int) =~= a@);
    r
}

/// The ids of `a` that `b` lacks, each once, in the order of `a`.
pub fn id_difference(a: &Vec<i64>, b: &Vec<i64>) -> (r: Vec<i64>)
    ensures
        r@.to_set() == a@.to_set().difference(b@.to_set()),
        r@.no_duplicates(),
{
    let mut r: Vec<i64> = Vec::new();
    let mut i: usize = 0;
    while i < a.len()
        invariant
            i <= a@.len(),
            r@.to_set() == a@.take(i as int).to_set().difference(b@.to_set()),
            r@.no_duplicates(),
        decreases a@.len() - i,
    {
        proof {
            assert(a@.take(i + 1) =~= a@.take(i as int).push(a@[i as int]));
            a@.take(i as int).lemma_push_to_set_commute(a@[i as int]);
        }
        let x = a[i];
        if !contains_id(b, x) && !contains_id(&r, x) {
            proof {
                r@.lemma_push_to_set_commute(x);
            }
            r.push(x);
        }
        proof {
            assert(r@.to_set() =~= a@.take(i + 1).to_set().difference(b@.to_set()));
        }
        i += 1;
    }
    assert(a@.take(a@.len() as int) =~= a@);
    r
}

/// A status that was written is the status read back, and writing one
/// user's status leaves every other user's as it was.
pub proof fn lemma_status_read_after_write(users: Map<i64, bool>, user_id: i64, enabled: bool, other: i64)
    ensures
        users.insert(user_id, enabled).contains_key(user_id),
        users.insert(user_id, enabled)[user_id] == enabled,
        other != user_id ==> (users.insert(user_id, enabled).contains_key(other) == users.contains_key(other)
            && (users.contains_key(other) ==> users.insert(user_id, enabled)[other] == users[other])),
        !users.remove(user_id).contains_key(user_id),
{
}

/// Enabling a role makes it enabled and disabling it makes it disabled,
/// whatever it was before.
pub proof fn lemma_role_status_read_after_write(enabled_roles: Set<i64>, role_id: i64)
    ensures
        enabled_roles.insert(role_id).contains(role_id),
        !enabled_roles.remove(role_id).contains(role_id),
{
}

/// Replacing a set by another: drop what the target lacks, add what the
/// current set lacks, and the target is what remains.
pub proof fn lemma_replacement_reaches_target<A>(current: Set<A>, target: Set<A>)
    ensures
        current.difference(current.difference(target)).union(target.difference(current)) == target,
{
    assert(current.difference(current.difference(target)).union(target.difference(current)) =~= target);
}

} // verus!
