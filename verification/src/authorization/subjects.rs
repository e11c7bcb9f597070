//! Policy subjects: `user:<id>` and `role:<id>` texts, and id sets.
use vstd::prelude::*;

use crate::sets::{insert_sorted, strictly_sorted};
use crate::text::{
    chars_of, concat_chars, has_prefix, i64_text, int_text, lemma_nat_digits, parse_i64,
    parse_i64_chars, slice_chars, starts_with, string_of,
};

verus! {

pub open spec fn user_prefix() -> Seq<char> {
    seq!['u', 's', 'e', 'r', ':']
}

pub open spec fn role_prefix() -> Seq<char> {
    seq!['r', 'o', 'l', 'e', ':']
}

/// The id after `prefix` in `subject`: decimal, without a leading zero, and
/// positive.
pub open spec fn subject_id(subject: Seq<char>, prefix: Seq<char>) -> Option<i64> {
    if !has_prefix(subject, prefix) {
        None
    } else {
        let value = subject.subrange(prefix.len() as int, subject.len() as int);
        if value.len() > 0 && value[0] == '0' {
            None
        } else {
            match parse_i64(value) {
                Some(n) => if n > 0 {
                    Some(n as i64)
                } else {
                    None
                },
                None => None,
            }
        }
    }
}

/// The positive ids of `ids`, each once, ascending.
pub fn normalize_ids(ids: &[i64]) -> (r: Vec<i64>)
    ensures
        strictly_sorted(r@),
        forall|x: i64| r@.contains(x) <==> (x > 0 && ids@.contains(x)),
{
    let mut r: Vec<i64> = Vec::new();
    let mut i: usize = 0;
    while i < ids.len()
        invariant
            i <= ids@.len(),
            strictly_sorted(r@),
            forall|x: i64| r@.contains(x) <==> (x > 0 && ids@.take(i as int).contains(x)),
        decreases ids@.len() - i,
    {
        let ghost old_r = r@;
        if ids[i] > 0 {
            insert_sorted(&mut r, ids[i]);
        }
        proof {
            let t = ids@.take(i as int);
            let v = ids@[i as int];
            assert(ids@.take(i + 1) =~= t.push(v));
            assert forall|x: i64| r@.contains(x) <==> (x > 0 && t.push(v).contains(x)) by {
                if t.push(v).contains(x) {
                    let j = choose|j: int| 0 <= j < t.len() + 1 && t.push(v)[j] == x;
                    if j < t.len() {
                        assert(t[j] == x);
                        assert(t.contains(x));
                    }
                }
                if t.contains(x) {
                    let j = choose|j: int| 0 <= j < t.len() && t[j] == x;
                    assert(t.push(v)[j] == x);
                }
                assert(t.push(v)[t.len() as int] == v);
                if v > 0 {
                    assert(r@.contains(x) <==> (old_r.contains(x) || x == v));
                } else {
                    assert(r@ == old_r);
                }
            }
        }
        i += 1;
    }
    proof {
        assert(ids@.take(ids@.len() as int) =~= ids@);
    }
    r
}

fn prefix_chars(role: bool) -> (r: Vec<char>)
    ensures
        r@ == (if role { role_prefix() } else { user_prefix() }),
{
    let mut r: Vec<char> = Vec::new();
    if role {
        r.push('r');
        r.push('o');
        r.push('l');
        r.push('e');
    } else {
        r.push('u');
        r.push('s');
        r.push('e');
        r.push('r');
    }
    r.push(':');
    assert(r@ =~= (if role { role_prefix() } else { user_prefix() }));
    r
}

/// The policy subject `user:<id>` of a user.
pub fn user_subject(user_id: i64) -> (r: String)
    ensures
        r@ == user_prefix() + int_text(user_id as int),
{
    let p = prefix_chars(false);
    let d = i64_text(user_id);
    string_of(&concat_chars(&p, &d))
}

/// The policy subject `role:<id>` of a role.
pub fn role_subject(role_id: i64) -> (r: String)
    ensures
        r@ == role_prefix() + int_text(role_id as int),
{
    let p = prefix_chars(true);
    let d = i64_text(role_id);
    string_of(&concat_chars(&p, &d))
}

/// The subject of an enforcement request for a user, and the role subjects
/// of the user's active roles that it is evaluated against, in order.
pub fn enforce_request(user_id: i64, active_role_ids: &Vec<i64>) -> (r: (String, Vec<String>))
    ensures
        r.0@ == user_prefix() + int_text(user_id as int),
        r.1@.len() == active_role_ids@.len(),
        forall|k: int|
            0 <= k < r.1@.len() ==> (#[trigger] r.1@[k])@ == role_prefix() + int_text(active_role_ids@[k] as int),
{
    let mut roles: Vec<String> = Vec::new();
    let mut k: usize = 0;
    while k < active_role_ids.len()
        invariant
            k <= active_role_ids@.len(),
            roles@.len() == k,
            forall|j: int|
                0 <= j < k ==> (#[trigger] roles@[j])@ == role_prefix() + int_text(active_role_ids@[j] as int),
        decreases active_role_ids@.len() - k,
    {
        roles.push(role_subject(active_role_ids[k]));
        k += 1;
    }
    (user_subject(user_id), roles)
}

/// The user id of a `user:<id>` subject.
pub fn parse_user_subject(subject: &str) -> (r: Option<i64>)
    ensures
        r == subject_id(subject@, user_prefix()),
{
    let p = prefix_chars(false);
    parse_subject_chars(&chars_of(subject), &p)
}

/// The role id of a `role:<id>` subject.
pub fn parse_role_subject(subject: &str) -> (r: Option<i64>)
    ensures
        r == subject_id(subject@, role_prefix()),
{
    let p = prefix_chars(true);
    parse_subject_chars(&chars_of(subject), &p)
}

/// The id that follows `prefix` in `subject`.
pub fn parse_subject(subject: &str, prefix: &str) -> (r: Option<i64>)
    ensures
        r == subject_id(subject@, prefix@),
{
    parse_subject_chars(&chars_of(subject), &chars_of(prefix))
}

fn parse_subject_chars(subject: &[char], prefix: &[char]) -> (r: Option<i64>)
    ensures
        r == subject_id(subject@, prefix@),
{
    if !starts_with(subject, prefix) {
        return None;
    }
    let value = slice_chars(subject, prefix.len(), subject.len());
    if value.len() > 0 && value[0] == '0' {
        return None;
    }
    match parse_i64_chars(&value) {
        Some(n) => if n > 0 {
            Some(n)
        } else {
            None
        },
        None => None,
    }
}

/// A subject written for an id reads back as that id exactly when the id is
/// positive; no other id is read from it.
pub proof fn lemma_subject_round_trip(id: i64)
    ensures
        subject_id(user_prefix() + int_text(id as int), user_prefix()) == (if id > 0 {
            Some(id)
        } else {
            None::<i64>
        }),
        subject_id(role_prefix() + int_text(id as int), role_prefix()) == (if id > 0 {
            Some(id)
        } else {
            None::<i64>
        }),
{
    lemma_subject_round_trip_with(id, user_prefix());
    lemma_subject_round_trip_with(id, role_prefix());
}

proof fn lemma_subject_round_trip_with(id: i64, prefix: Seq<char>)
    ensures
        subject_id(prefix + int_text(id as int), prefix) == (if id > 0 {
            Some(id)
        } else {
            None::<i64>
        }),
{
    let s = prefix + int_text(id as int);
    assert(s.subrange(0, prefix.len() as int) =~= prefix);
    assert(s.subrange(prefix.len() as int, s.len() as int) =~= int_text(id as int));
    if id > 0 {
        lemma_nat_digits(id as nat);
        crate::text::lemma_parse_int_text(id as int);
    } else if id == 0 {
        assert(int_text(0) == crate::text::nat_digits(0));
    } else {
        lemma_nat_digits((-id) as nat);
    }
}

} // verus!
