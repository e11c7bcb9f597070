//! The check of a loaded policy against the known users, roles and catalogue
//! permissions.
use vstd::prelude::*;

use super::subjects::{parse_role_subject, parse_user_subject, role_prefix, subject_id, user_prefix};
use crate::sets::{contains_string, strings_set};
use crate::text::{owned, str_eq};

verus! {

/// A role as the policy check sees it.
#[derive(Debug, Clone)]
pub struct RoleFact {
    pub id: i64,
    pub code: String,
    pub name: String,
    pub status: String,
}

/// What the database says about users, roles and catalogue permissions.
#[derive(Debug)]
pub struct PolicyFacts {
    /// Each known user and whether it is enabled.
    pub users: Vec<(i64, bool)>,
    pub roles: Vec<RoleFact>,
    pub enabled_permissions: Vec<String>,
    /// Action permission and the permission of its page.
    pub action_pages: Vec<(String, String)>,
    pub super_admin_role_id: i64,
}

/// Why authorization could not be set up or used.
#[derive(Debug)]
pub enum AuthorizationError {
    Configuration(String),
    WatcherInstallation,
    StateUnavailable,
}

pub open spec fn msg_policy_shape() -> Seq<char> {
    "policy rule must contain exactly a Role subject and Permission"@
}

pub open spec fn msg_policy_subject() -> Seq<char> {
    "policy subjects must use role:<id>"@
}

pub open spec fn msg_policy_role() -> Seq<char> {
    "policy references an unknown Access Role"@
}

pub open spec fn msg_policy_permission() -> Seq<char> {
    "policy references an unknown or disabled concrete Permission"@
}

pub open spec fn msg_action_page() -> Seq<char> {
    "action Permission requires its owning page Permission"@
}

pub open spec fn msg_membership_shape() -> Seq<char> {
    "membership rule must contain exactly a User and Role subject"@
}

pub open spec fn msg_membership_user() -> Seq<char> {
    "membership subjects must use user:<id>"@
}

pub open spec fn msg_membership_role() -> Seq<char> {
    "membership targets must use role:<id>"@
}

pub open spec fn msg_membership_unknown() -> Seq<char> {
    "membership references an unknown User Account or Access Role"@
}

pub open spec fn msg_super_missing() -> Seq<char> {
    "super_admin is missing concrete Catalog Permissions"@
}

pub open spec fn rules_view(rules: Seq<Vec<String>>) -> Seq<Seq<String>> {
    rules.map_values(|r: Vec<String>| r@)
}

pub open spec fn role_known(facts: PolicyFacts, id: i64) -> bool {
    exists|i: int| 0 <= i < facts.roles@.len() && (#[trigger] facts.roles@[i]).id == id
}

pub open spec fn user_known(facts: PolicyFacts, id: i64) -> bool {
    exists|i: int| 0 <= i < facts.users@.len() && (#[trigger] facts.users@[i]).0 == id
}

pub open spec fn rule_role(rule: Seq<String>) -> Option<i64> {
    subject_id(rule[0]@, role_prefix())
}

/// What is wrong with one permission rule, if anything.
pub open spec fn policy_rule_error(facts: PolicyFacts, rule: Seq<String>) -> Option<Seq<char>> {
    if rule.len() != 2 {
        Some(msg_policy_shape())
    } else {
        match rule_role(rule) {
            None => Some(msg_policy_subject()),
            Some(rid) => if !role_known(facts, rid) {
                Some(msg_policy_role())
            } else if rule[1]@ == "*"@ || !strings_set(facts.enabled_permissions@).contains(
                rule[1]@,
            ) {
                Some(msg_policy_permission())
            } else {
                None
            },
        }
    }
}

/// What is wrong with one membership rule, if anything.
pub open spec fn membership_rule_error(facts: PolicyFacts, rule: Seq<String>) -> Option<Seq<char>> {
    if rule.len() != 2 {
        Some(msg_membership_shape())
    } else {
        match subject_id(rule[0]@, user_prefix()) {
            None => Some(msg_membership_user()),
            Some(uid) => match subject_id(rule[1]@, role_prefix()) {
                None => Some(msg_membership_role()),
                Some(rid) => if !user_known(facts, uid) || !role_known(facts, rid) {
                    Some(msg_membership_unknown())
                } else {
                    None
                },
            },
        }
    }
}

/// The error of the first rule that has one.
pub open spec fn first_error(
    rules: Seq<Seq<String>>,
    err: spec_fn(Seq<String>) -> Option<Seq<char>>,
) -> Option<Seq<char>>
    decreases rules.len(),
{
    if rules.len() == 0 {
        None
    } else {
        match first_error(rules.drop_last(), err) {
            Some(m) => Some(m),
            None => err(rules.last()),
        }
    }
}

/// The permissions that the rules grant to role `rid`.
pub open spec fn role_permissions(rules: Seq<Seq<String>>, rid: i64) -> Set<Seq<char>> {
    Set::new(
        |p: Seq<char>|
            exists|i: int| 0 <= i < rules.len() && rule_role(#[trigger] rules[i]) == Some(rid) && rules[i][1]@ == p,
    )
}

/// The page permission recorded for an action permission; of two records
/// for one action, the later stands.
pub open spec fn page_of(pages: Seq<(String, String)>, perm: Seq<char>) -> Option<Seq<char>>
    decreases pages.len(),
{
    if pages.len() == 0 {
        None
    } else if pages.last().0@ == perm {
        Some(pages.last().1@)
    } else {
        page_of(pages.drop_last(), perm)
    }
}

/// Every role that holds an action permission also holds its page's.
pub open spec fn action_pages_held(rules: Seq<Seq<String>>, facts: PolicyFacts) -> bool {
    forall|i: int|
        0 <= i < rules.len() ==> (rule_role(#[trigger] rules[i]) matches Some(rid) ==> (page_of(
            facts.action_pages@,
            rules[i][1]@,
        ) matches Some(page) ==> role_permissions(rules, rid).contains(page)))
}

/// The super-admin role holds every enabled catalogue permission.
pub open spec fn super_admin_complete(rules: Seq<Seq<String>>, facts: PolicyFacts) -> bool {
    forall|p: Seq<char>|
        strings_set(facts.enabled_permissions@).contains(p) ==> role_permissions(
            rules,
            facts.super_admin_role_id,
        ).contains(p)
}

/// The message of the first check that the loaded policy fails, or `None`.
pub open spec fn policy_check(
    policy: Seq<Seq<String>>,
    grouping: Seq<Seq<String>>,
    facts: PolicyFacts,
) -> Option<Seq<char>> {
    match first_error(policy, |r: Seq<String>| policy_rule_error(facts, r)) {
        Some(m) => Some(m),
        None => if !action_pages_held(policy, facts) {
            Some(msg_action_page())
        } else {
            match first_error(grouping, |r: Seq<String>| membership_rule_error(facts, r)) {
                Some(m) => Some(m),
                None => if !super_admin_complete(policy, facts) {
                    Some(msg_super_missing())
                } else {
                    None
                },
            }
        },
    }
}

/// A prefix that already fails makes the whole list fail the same way.
pub proof fn lemma_first_error_prefix(
    rules: Seq<Seq<String>>,
    err: spec_fn(Seq<String>) -> Option<Seq<char>>,
    k: int,
)
    requires
        0 <= k <= rules.len(),
        first_error(rules.take(k), err) is Some,
    ensures
        first_error(rules, err) == first_error(rules.take(k), err),
    decreases rules.len() - k,
{
    if k < rules.len() {
        assert(rules.take(k + 1).drop_last() =~= rules.take(k));
        lemma_first_error_prefix(rules, err, k + 1);
    } else {
        assert(rules.take(k) =~= rules);
    }
}

/// Whether a role is the enabled super-admin role.
pub open spec fn is_enabled_super_admin(role: RoleFact) -> bool {
    role.code@ == "super_admin"@ && role.status@ == "enabled"@
}

/// The positions of enabled super-admin roles among the first `k` roles.
pub open spec fn super_admin_positions(roles: Seq<RoleFact>, k: int) -> Seq<int>
    decreases k,
{
    if k <= 0 {
        Seq::empty()
    } else if is_enabled_super_admin(roles[k - 1]) {
        super_admin_positions(roles, k - 1).push(k - 1)
    } else {
        super_admin_positions(roles, k - 1)
    }
}

/// The super-admin role: there must be exactly one enabled role with the
/// code `super_admin`. The roles are listed once each, as the role table
/// holds them.
pub fn super_admin_role_id(roles: &Vec<RoleFact>) -> (r: Result<i64, AuthorizationError>)
    ensures
        ({
            let found = super_admin_positions(roles@, roles@.len() as int);
            if found.len() == 1 {
                r == Ok::<i64, AuthorizationError>(roles@[found[0]].id)
            } else {
                r matches Err(AuthorizationError::Configuration(m)) && m@ == "one enabled super_admin role is required"@
            }
        }),
{
    let mut found: Vec<usize> = Vec::new();
    let mut i: usize = 0;
    while i < roles.len()
        invariant
            i <= roles@.len(),
            found@.map_values(|p: usize| p as int) == super_admin_positions(roles@, i as int),
            forall|k: int| 0 <= k < found@.len() ==> #[trigger] found@[k] < i,
        decreases roles@.len() - i,
    {
        if str_eq(roles[i].code.as_str(), "super_admin") && str_eq(roles[i].status.as_str(), "enabled") {
            found.push(i);
            assert(found@.map_values(|p: usize| p as int) =~= super_admin_positions(roles@, i as int).push(
                i as int,
            ));
        }
        i += 1;
    }
    if found.len() != 1 {
        return invalid("one enabled super_admin role is required");
    }
    assert(found@.map_values(|p: usize| p as int)[0] == found@[0] as int);
    Ok(roles[found[0]].id)
}

/// A configuration error with the given message.
pub fn invalid<T>(message: &str) -> (r: Result<T, AuthorizationError>)
    ensures
        r matches Err(AuthorizationError::Configuration(s)) && s@ == message@,
{
    Err(AuthorizationError::Configuration(owned(message)))
}

fn role_known_exec(facts: &PolicyFacts, id: i64) -> (r: bool)
    ensures
        r == role_known(*facts, id),
{
    let mut i: usize = 0;
    while i < facts.roles.len()
        invariant
            i <= facts.roles@.len(),
            forall|j: int| 0 <= j < i ==> (#[trigger] facts.roles@[j]).id != id,
        decreases facts.roles@.len() - i,
    {
        if facts.roles[i].id == id {
            return true;
        }
        i += 1;
    }
    false
}

fn user_known_exec(facts: &PolicyFacts, id: i64) -> (r: bool)
    ensures
        r == user_known(*facts, id),
{
    let mut i: usize = 0;
    while i < facts.users.len()
        invariant
            i <= facts.users@.len(),
            forall|j: int| 0 <= j < i ==> (#[trigger] facts.users@[j]).0 != id,
        decreases facts.users@.len() - i,
    {
        if facts.users[i].0 == id {
            return true;
        }
        i += 1;
    }
    false
}

fn page_of_exec<'a>(pages: &'a Vec<(String, String)>, perm: &str) -> (r: Option<&'a String>)
    ensures
        match page_of(pages@, perm@) {
            Some(p) => r matches Some(s) && s@ == p,
            None => r is None,
        },
{
    let mut i: usize = pages.len();
    assert(pages@.take(i as int) =~= pages@);
    while i > 0
        invariant
            i <= pages@.len(),
            page_of(pages@, perm@) == page_of(pages@.take(i as int), perm@),
        decreases i,
    {
        assert(pages@.take(i as int).drop_last() =~= pages@.take(i - 1));
        if str_eq(pages[i - 1].0.as_str(), perm) {
            return Some(&pages[i - 1].1);
        }
        i -= 1;
    }
    None
}

/// Checks a loaded policy: every permission rule pairs a known role with an
/// enabled concrete permission, every role holding an action also holds its
/// page, every membership pairs a known user with a known role, and the
/// super-admin role holds every enabled permission. The error names the
/// first check that fails.
pub fn validate_loaded_policy(
    policy: &Vec<Vec<String>>,
    grouping: &Vec<Vec<String>>,
    facts: &PolicyFacts,
) -> (r: Result<(), AuthorizationError>)
    ensures
        match policy_check(rules_view(policy@), rules_view(grouping@), *facts) {
            None => r is Ok,
            Some(m) => r matches Err(AuthorizationError::Configuration(s)) && s@ == m,
        },
{
    let ghost pv = rules_view(policy@);
    let ghost gv = rules_view(grouping@);
    let ghost perr = |r: Seq<String>| policy_rule_error(*facts, r);
    let ghost gerr = |r: Seq<String>| membership_rule_error(*facts, r);
    // Roles of the permission rules, position by position.
    let mut rule_roles: Vec<i64> = Vec::new();
    let mut i: usize = 0;
    while i < policy.len()
        invariant
            i <= policy@.len(),
            pv == rules_view(policy@),
            perr == (|r: Seq<String>| policy_rule_error(*facts, r)),
            first_error(pv.take(i as int), perr) is None,
            rule_roles@.len() == i,
            forall|j: int| 0 <= j < i ==> rule_role(#[trigger] pv[j]) == Some(rule_roles@[j]),
            forall|j: int| 0 <= j < i ==> policy_rule_error(*facts, #[trigger] pv[j]) is None,
        decreases policy@.len() - i,
    {
        let rule = &policy[i];
        let ghost rv = pv[i as int];
        proof {
            assert(rv == rule@);
            assert(pv.take(i + 1).drop_last() =~= pv.take(i as int));
            assert(pv.take(i + 1).last() == rv);
        }
        if rule.len() != 2 {
            proof {
                lemma_first_error_prefix(pv, perr, i + 1);
            }
            return invalid("policy rule must contain exactly a Role subject and Permission");
        }
        let role_id = match parse_role_subject(rule[0].as_str()) {
            Some(role_id) => role_id,
            None => {
                proof {
                    lemma_first_error_prefix(pv, perr, i + 1);
                }
                return invalid("policy subjects must use role:<id>");
            },
        };
        if !role_known_exec(facts, role_id) {
            proof {
                lemma_first_error_prefix(pv, perr, i + 1);
            }
            return invalid("policy references an unknown Access Role");
        }
        if str_eq(rule[1].as_str(), "*") || !contains_string(&facts.enabled_permissions, rule[1].as_str()) {
            proof {
                lemma_first_error_prefix(pv, perr, i + 1);
            }
            return invalid("policy references an unknown or disabled concrete Permission");
        }
        rule_roles.push(role_id);
        i += 1;
    }
    proof {
        assert(pv.take(policy@.len() as int) =~= pv);
    }
    // Each role holding an action also holds the action's page.
    let mut a: usize = 0;
    while a < policy.len()
        invariant
            a <= policy@.len(),
            pv == rules_view(policy@),
            perr == (|r: Seq<String>| policy_rule_error(*facts, r)),
            first_error(pv, perr) is None,
            rule_roles@.len() == policy@.len(),
            forall|j: int| 0 <= j < policy@.len() ==> rule_role(#[trigger] pv[j]) == Some(rule_roles@[j]),
            forall|j: int| 0 <= j < policy@.len() ==> policy_rule_error(*facts, #[trigger] pv[j]) is None,
            forall|j: int|
                0 <= j < a ==> (rule_role(#[trigger] pv[j]) matches Some(rid) ==> (page_of(
                    facts.action_pages@,
                    pv[j][1]@,
                ) matches Some(page) ==> role_permissions(pv, rid).contains(page))),
        decreases policy@.len() - a,
    {
        proof {
            assert(pv[a as int] == policy@[a as int]@);
            assert(policy_rule_error(*facts, pv[a as int]) is None);
        }
        let rid = rule_roles[a];
        if let Some(page) = page_of_exec(&facts.action_pages, policy[a][1].as_str()) {
            let mut found = false;
            let mut b: usize = 0;
            while b < policy.len()
                invariant
                    b <= policy@.len(),
                    a < policy@.len(),
                    pv == rules_view(policy@),
                    perr == (|r: Seq<String>| policy_rule_error(*facts, r)),
                    first_error(pv, perr) is None,
                    rule_roles@.len() == policy@.len(),
                    forall|j: int| 0 <= j < policy@.len() ==> rule_role(#[trigger] pv[j]) == Some(rule_roles@[j]),
                    forall|j: int| 0 <= j < policy@.len() ==> policy_rule_error(*facts, #[trigger] pv[j]) is None,
                    found ==> role_permissions(pv, rid).contains(page@),
                    !found ==> forall|j: int| 0 <= j < b ==> !(rule_roles@[j] == rid && (#[trigger] pv[j])[1]@ == page@),
                decreases policy@.len() - b,
            {
                proof {
                    assert(pv[b as int] == policy@[b as int]@);
                    assert(policy_rule_error(*facts, pv[b as int]) is None);
                }
                if !found && rule_roles[b] == rid && str_eq(policy[b][1].as_str(), page.as_str()) {
                    found = true;
                    proof {
                        assert(rule_role(pv[b as int]) == Some(rid) && pv[b as int][1]@ == page@);
                    }
                }
                b += 1;
            }
            if !found {
                proof {
                    assert(!role_permissions(pv, rid).contains(page@)) by {
                        if role_permissions(pv, rid).contains(page@) {
                            let j = choose|j: int| 0 <= j < pv.len() && rule_role(#[trigger] pv[j]) == Some(rid) && pv[j][1]@ == page@;
                            assert(rule_roles@[j] == rid);
                        }
                    }
                    assert(!action_pages_held(pv, *facts));
                    assert(first_error(pv, perr) is None);
                }
                return invalid("action Permission requires its owning page Permission");
            }
        }
        a += 1;
    }
    assert(action_pages_held(pv, *facts));
    let mut g: usize = 0;
    while g < grouping.len()
        invariant
            g <= grouping@.len(),
            gv == rules_view(grouping@),
            gerr == (|r: Seq<String>| membership_rule_error(*facts, r)),
            first_error(gv.take(g as int), gerr) is None,
            pv == rules_view(policy@),
            perr == (|r: Seq<String>| policy_rule_error(*facts, r)),
            first_error(pv, perr) is None,
            action_pages_held(pv, *facts),
            rule_roles@.len() == policy@.len(),
            forall|j: int| 0 <= j < policy@.len() ==> rule_role(#[trigger] pv[j]) == Some(rule_roles@[j]),
            forall|j: int| 0 <= j < policy@.len() ==> policy_rule_error(*facts, #[trigger] pv[j]) is None,
        decreases grouping@.len() - g,
    {
        let rule = &grouping[g];
        proof {
            assert(gv[g as int] == rule@);
            assert(gv.take(g + 1).drop_last() =~= gv.take(g as int));
            assert(gv.take(g + 1).last() == rule@);
        }
        if rule.len() != 2 {
            proof {
                lemma_first_error_prefix(gv, gerr, g + 1);
            }
            return invalid("membership rule must contain exactly a User and Role subject");
        }
        let user_id = match parse_user_subject(rule[0].as_str()) {
            Some(user_id) => user_id,
            None => {
                proof {
                    lemma_first_error_prefix(gv, gerr, g + 1);
                }
                return invalid("membership subjects must use user:<id>");
            },
        };
        let role_id = match parse_role_subject(rule[1].as_str()) {
            Some(role_id) => role_id,
            None => {
                proof {
                    lemma_first_error_prefix(gv, gerr, g + 1);
                }
                return invalid("membership targets must use role:<id>");
            },
        };
        if !user_known_exec(facts, user_id) || !role_known_exec(facts, role_id) {
            proof {
                lemma_first_error_prefix(gv, gerr, g + 1);
            }
            return invalid("membership references an unknown User Account or Access Role");
        }
        g += 1;
    }
    proof {
        assert(gv.take(grouping@.len() as int) =~= gv);
    }
    // The super-admin role holds every enabled permission.
    let mut e: usize = 0;
    while e < facts.enabled_permissions.len()
        invariant
            e <= facts.enabled_permissions@.len(),
            pv == rules_view(policy@),
            perr == (|r: Seq<String>| policy_rule_error(*facts, r)),
            first_error(pv, perr) is None,
            action_pages_held(pv, *facts),
            gv == rules_view(grouping@),
            gerr == (|r: Seq<String>| membership_rule_error(*facts, r)),
            first_error(gv, gerr) is None,
            rule_roles@.len() == policy@.len(),
            forall|j: int| 0 <= j < policy@.len() ==> rule_role(#[trigger] pv[j]) == Some(rule_roles@[j]),
            forall|j: int| 0 <= j < policy@.len() ==> policy_rule_error(*facts, #[trigger] pv[j]) is None,
            forall|k: int| 0 <= k < e ==> role_permissions(pv, facts.super_admin_role_id).contains(
                (#[trigger] facts.enabled_permissions@[k])@,
            ),
        decreases facts.enabled_permissions@.len() - e,
    {
        let wanted = &facts.enabled_permissions[e];
        let mut found = false;
        let mut b: usize = 0;
        while b < policy.len()
            invariant
                b <= policy@.len(),
                pv == rules_view(policy@),
                perr == (|r: Seq<String>| policy_rule_error(*facts, r)),
                first_error(pv, perr) is None,
                action_pages_held(pv, *facts),
                gv == rules_view(grouping@),
                gerr == (|r: Seq<String>| membership_rule_error(*facts, r)),
                first_error(gv, gerr) is None,
                rule_roles@.len() == policy@.len(),
                forall|j: int| 0 <= j < policy@.len() ==> rule_role(#[trigger] pv[j]) == Some(rule_roles@[j]),
                forall|j: int| 0 <= j < policy@.len() ==> policy_rule_error(*facts, #[trigger] pv[j]) is None,
                found ==> role_permissions(pv, facts.super_admin_role_id).contains(wanted@),
                !found ==> forall|j: int|
                    0 <= j < b ==> !(rule_roles@[j] == facts.super_admin_role_id && (#[trigger] pv[j])[1]@ == wanted@),
            decreases policy@.len() - b,
        {
            proof {
                assert(pv[b as int] == policy@[b as int]@);
                assert(policy_rule_error(*facts, pv[b as int]) is None);
            }
            if !found && rule_roles[b] == facts.super_admin_role_id && str_eq(
                policy[b][1].as_str(),
                wanted.as_str(),
            ) {
                found = true;
                proof {
                    assert(rule_role(pv[b as int]) == Some(facts.super_admin_role_id) && pv[b as int][1]@
                        == wanted@);
                }
            }
            b += 1;
        }
        if !found {
            proof {
                assert(!role_permissions(pv, facts.super_admin_role_id).contains(wanted@)) by {
                    if role_permissions(pv, facts.super_admin_role_id).contains(wanted@) {
                        let j = choose|j: int|
                            0 <= j < pv.len() && rule_role(#[trigger] pv[j]) == Some(facts.super_admin_role_id)
                                && pv[j][1]@ == wanted@;
                        assert(rule_roles@[j] == facts.super_admin_role_id);
                    }
                }
                assert(strings_set(facts.enabled_permissions@).contains(wanted@));
            }
            return invalid("super_admin is missing concrete Catalog Permissions");
        }
        e += 1;
    }
    proof {
        assert forall|p: Seq<char>| strings_set(facts.enabled_permissions@).contains(p) implies role_permissions(
            pv,
            facts.super_admin_role_id,
        ).contains(p) by {
            let k = choose|k: int| 0 <= k < facts.enabled_permissions@.len() && (#[trigger] facts.enabled_permissions@[k])@ == p;
        }
    }
    Ok(())
}

} // verus!
