//! The `/api` boundary of request and binding paths, and the HTTP method
//! names that bindings use.
use vstd::prelude::*;

use super::error::CatalogError;
use crate::text::{
    ascii_uppercase, chars_of, concat_chars, contains_char, has_prefix, is_ascii_lower, is_ascii_upper, is_whitespace, lower_seq,
    starts_with, string_of, trim, trim_chars, trim_end, trim_end_char, trim_end_matching, trim_start,
    upper_seq,
};

verus! {

/// The prefix under which every API route lives.
pub open spec fn api_prefix() -> Seq<char> {
    seq!['/', 'a', 'p', 'i']
}

/// `path` is `/api` (with any trailing slashes) or lies below `/api/`.
pub open spec fn under_api_boundary(path: Seq<char>) -> bool {
    ||| trim_end_char(path, '/') == api_prefix()
    ||| (has_prefix(path, api_prefix()) && path.len() > 4 && path[4] == '/')
}

/// The request path forced under `/api`, trimmed, without trailing slashes.
pub open spec fn normalized_request_path(path: Seq<char>) -> Seq<char> {
    let trimmed = trim_end_char(trim(path), '/');
    let normalized = if trimmed.len() == 0 {
        api_prefix()
    } else {
        trimmed
    };
    if under_api_boundary(normalized) {
        normalized
    } else if normalized[0] == '/' {
        api_prefix() + normalized
    } else {
        api_prefix().push('/') + normalized
    }
}

/// The method name trimmed and in upper case, when that leaves a non-empty
/// run of ASCII letters.
pub open spec fn normalized_method(method: Seq<char>) -> Option<Seq<char>> {
    let m = upper_seq(trim(method));
    if m.len() > 0 && forall|i: int| 0 <= i < m.len() ==> is_ascii_upper(#[trigger] m[i]) {
        Some(m)
    } else {
        None
    }
}

/// A binding path: trimmed, free of `?` and `#`, and under `/api`.
pub open spec fn normalized_binding_path(path: Seq<char>) -> Option<Seq<char>> {
    let t = trim(path);
    if t.contains('?') || t.contains('#') || !under_api_boundary(t) {
        None
    } else {
        Some(normalized_request_path(t))
    }
}

fn api_prefix_chars() -> (r: Vec<char>)
    ensures
        r@ == api_prefix(),
{
    let mut r: Vec<char> = Vec::new();
    r.push('/');
    r.push('a');
    r.push('p');
    r.push('i');
    assert(r@ =~= api_prefix());
    r
}

fn under_api_boundary_chars(path: &[char]) -> (r: bool)
    ensures
        r == under_api_boundary(path@),
{
    let prefix = api_prefix_chars();
    let trimmed = trim_end_matching(path, '/');
    if crate::text::chars_eq(&trimmed, &prefix) {
        return true;
    }
    starts_with(path, &prefix) && path.len() > 4 && path[4] == '/'
}

/// Whether `path` is `/api` itself or lies below `/api/`.
pub fn is_under_api_boundary(path: &str) -> (r: bool)
    ensures
        r == under_api_boundary(path@),
{
    let v = chars_of(path);
    under_api_boundary_chars(&v)
}

/// The request path forced into the catalogue's `/api` boundary, with
/// surrounding whitespace and trailing slashes removed.
///
/// Normalizing again changes nothing, unless the path ends in whitespace
/// (which a second pass trims).
pub fn normalize_request_path(path: &str) -> (r: String)
    ensures
        r@ == normalized_request_path(path@),
        under_api_boundary(r@),
        r@.len() > 0 && r@.last() != '/',
        !is_whitespace(r@.last()) ==> normalized_request_path(r@) == r@,
{
    let v = chars_of(path);
    let r = normalize_request_chars(&v);
    proof {
        if !is_whitespace(r@.last()) {
            lemma_request_path_fixed(r@);
        }
    }
    string_of(&r)
}

/// A path under the boundary, without trailing slashes or whitespace, is
/// its own normal form.
proof fn lemma_request_path_fixed(r: Seq<char>)
    requires
        r.len() > 0,
        r.last() != '/',
        !is_whitespace(r.last()),
        under_api_boundary(r),
    ensures
        normalized_request_path(r) == r,
{
    assert(trim_end_char(r, '/') == r);
    if has_prefix(r, api_prefix()) {
        assert(r[0] == r.subrange(0, 4)[0]);
    }
    assert(r[0] == '/');
    assert(!is_whitespace('/'));
    assert(trim_start(r) == r);
    assert(trim_end(r) == r);
}

fn normalize_request_chars(path: &[char]) -> (r: Vec<char>)
    ensures
        r@ == normalized_request_path(path@),
        under_api_boundary(r@),
        r@.len() > 0 && r@.last() != '/',
{
    let t = trim_chars(path);
    let trimmed = trim_end_matching(&t, '/');
    proof {
        lemma_trim_end_char_last(trim(path@), '/');
    }
    let normalized = if trimmed.len() == 0 {
        api_prefix_chars()
    } else {
        trimmed
    };
    if under_api_boundary_chars(&normalized) {
        normalized
    } else if normalized[0] == '/' {
        let prefix = api_prefix_chars();
        let r = concat_chars(&prefix, &normalized);
        proof {
            assert(r@.subrange(0, 4) =~= api_prefix());
            assert(r@[4] == '/');
            assert(r@.last() == normalized@.last());
        }
        r
    } else {
        let mut prefix = api_prefix_chars();
        prefix.push('/');
        let r = concat_chars(&prefix, &normalized);
        proof {
            assert(r@.subrange(0, 4) =~= api_prefix());
            assert(r@[4] == '/');
            assert(r@.last() == normalized@.last());
        }
        r
    }
}

/// Without trailing `c`, the text does not end with `c`.
pub proof fn lemma_trim_end_char_last(s: Seq<char>, c: char)
    ensures
        trim_end_char(s, c).len() > 0 ==> trim_end_char(s, c).last() != c,
        trim_end_char(s, c).len() <= s.len(),
    decreases s.len(),
{
    if s.len() > 0 && s.last() == c {
        lemma_trim_end_char_last(s.drop_last(), c);
    }
}

/// A method in upper-case letters is its own normal form, and the same
/// method in lower case normalizes to it: method names do not depend on
/// case.
pub proof fn lemma_methods_ignore_case(m: Seq<char>)
    requires
        m.len() > 0,
        forall|i: int| 0 <= i < m.len() ==> is_ascii_upper(#[trigger] m[i]),
    ensures
        normalized_method(m) == Some(m),
        normalized_method(lower_seq(m)) == Some(m),
{
    let l = lower_seq(m);
    assert(!is_whitespace(m[0]) && !is_whitespace(m.last()));
    assert(trim_start(m) == m);
    assert(trim_end(m) == m);
    assert(upper_seq(m) =~= m);
    assert(is_ascii_lower(l[0]) && is_ascii_lower(l.last()));
    assert(!is_whitespace(l[0]) && !is_whitespace(l.last()));
    assert(trim_start(l) == l);
    assert(trim_end(l) == l);
    assert(upper_seq(l) =~= m);
}

/// A binding's HTTP method, trimmed and upper-cased; refused with
/// `InvalidBinding` unless that is a non-empty run of ASCII letters.
pub fn normalize_method(method: &str) -> (r: Result<String, CatalogError>)
    ensures
        match normalized_method(method@) {
            Some(m) => r matches Ok(s) && s@ == m,
            None => r == Err::<String, CatalogError>(CatalogError::InvalidBinding),
        },
{
    let v = chars_of(method);
    let t = trim_chars(&v);
    let m = ascii_uppercase(&t);
    if m.len() == 0 {
        return Err(CatalogError::InvalidBinding);
    }
    let mut i: usize = 0;
    while i < m.len()
        invariant
            i <= m@.len(),
            m@ == upper_seq(trim(method@)),
            forall|j: int| 0 <= j < i ==> is_ascii_upper(#[trigger] m@[j]),
        decreases m@.len() - i,
    {
        if !('A' <= m[i] && m[i] <= 'Z') {
            assert(!is_ascii_upper(m@[i as int]));
            return Err(CatalogError::InvalidBinding);
        }
        i += 1;
    }
    Ok(string_of(&m))
}

/// A binding path made canonical; refused with `InvalidBinding` when it has
/// a query or fragment or lies outside `/api`.
pub fn normalize_path(path: &str) -> (r: Result<String, CatalogError>)
    ensures
        match normalized_binding_path(path@) {
            Some(p) => r matches Ok(s) && s@ == p,
            None => r == Err::<String, CatalogError>(CatalogError::InvalidBinding),
        },
        r matches Ok(s) ==> under_api_boundary(s@) && s@.last() != '/',
{
    let v = chars_of(path);
    let t = trim_chars(&v);
    if contains_char(&t, '?') || contains_char(&t, '#') || !under_api_boundary_chars(&t) {
        return Err(CatalogError::InvalidBinding);
    }
    let r = normalize_request_chars(&t);
    Ok(string_of(&r))
}

} // verus!
