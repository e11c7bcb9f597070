//! The index from API routes to the permissions they require: one `matchit`
//! router per HTTP method.
use vstd::prelude::*;

use super::catalog::RouteBinding;
use super::error::CatalogError;
use super::routes::{normalize_method, normalize_path, normalized_binding_path, normalized_method};
use crate::text::{chars_of, str_eq};

verus! {

#[verifier::external_type_specification]
#[verifier::external_body]
#[verifier::reject_recursive_types(T)]
pub struct ExRouter<T>(matchit::Router<T>);

#[verifier::external_type_specification]
#[verifier::external_body]
pub struct ExInsertError(matchit::InsertError);

/// The routes a router holds: each route pattern it took, with its value.
pub uninterp spec fn router_routes(router: matchit::Router<String>) -> Map<Seq<char>, Seq<char>>;

/// Whether `matchit` refuses to add `route` to a router holding `routes`
/// (the route is malformed or conflicts with one already there).
pub uninterp spec fn route_refused(routes: Map<Seq<char>, Seq<char>>, route: Seq<char>) -> bool;

/// The value of the route that `matchit` matches `path` to, among `routes`.
pub uninterp spec fn route_match(routes: Map<Seq<char>, Seq<char>>, path: Seq<char>) -> Option<Seq<char>>;

/// How many times `c` occurs in `s`.
pub open spec fn char_count(s: Seq<char>, c: char) -> nat
    decreases s.len(),
{
    if s.len() == 0 {
        0
    } else {
        char_count(s.drop_last(), c) + if s.last() == c {
            1nat
        } else {
            0nat
        }
    }
}

/// The most parameters a route may have: `matchit` names them `a` to `z`
/// and panics on the next one. Every parameter opens with `{`, so a route
/// with fewer opening braces than this is safe to insert.
pub const MAX_ROUTE_BRACES: usize = 26;

/// `Router::new`: a router without routes.
#[verifier::external_body]
fn router_new() -> (r: matchit::Router<String>)
    ensures
        router_routes(r).dom() == Set::<Seq<char>>::empty(),
{
    matchit::Router::new()
}

/// `Router::insert`: adds `route` with `value`, or refuses it. It panics on
/// a route with 26 parameters or more, so a route must have fewer opening
/// braces than that. When it refuses, nothing is stated of the router
/// afterwards (it may have been partly restructured).
#[verifier::external_body]
fn router_insert(router: &mut matchit::Router<String>, route: String, value: String) -> (r: Result<
    (),
    matchit::InsertError,
>)
    requires
        char_count(route@, '{') < MAX_ROUTE_BRACES,
    ensures
        r is Ok <==> !route_refused(router_routes(*old(router)), route@),
        r is Ok ==> router_routes(*final(router)) == router_routes(*old(router)).insert(route@, value@),
{
    router.insert(route, value)
}

/// `Router::at`: the value of the route that `path` matches, if any.
#[verifier::external_body]
fn router_at(router: &matchit::Router<String>, path: &str) -> (r: Option<String>)
    ensures
        match r {
            Some(s) => route_match(router_routes(*router), path@) == Some(s@),
            None => route_match(router_routes(*router), path@) is None,
        },
{
    router.at(path).ok().map(|matched| matched.value.clone())
}

/// Routes grouped by method: each method once, with its routes and their
/// permissions.
pub type RouteTable = Seq<(Seq<char>, Map<Seq<char>, Seq<char>>)>;

/// The position of `method` in a table.
pub open spec fn method_slot(table: RouteTable, method: Seq<char>) -> Option<int>
    decreases table.len(),
{
    if table.len() == 0 {
        None
    } else if table.last().0 == method {
        Some(table.len() - 1)
    } else {
        method_slot(table.drop_last(), method)
    }
}

/// The table after adding one binding, or why it cannot be added: its
/// method and path must be normalizable, the path must have fewer than 26
/// opening braces, and the method's router must take the route.
pub open spec fn add_binding(table: RouteTable, b: RouteBinding) -> Result<RouteTable, CatalogError> {
    match (normalized_method(b.method@), normalized_binding_path(b.path@)) {
        (Some(m), Some(p)) => if char_count(p, '{') >= MAX_ROUTE_BRACES {
            Err(CatalogError::InvalidBinding)
        } else {
            match method_slot(table, m) {
                Some(i) => if route_refused(table[i].1, p) {
                    Err(CatalogError::InvalidBinding)
                } else {
                    Ok(table.update(i, (m, table[i].1.insert(p, b.permission@))))
                },
                None => if route_refused(Map::empty(), p) {
                    Err(CatalogError::InvalidBinding)
                } else {
                    Ok(table.push((m, Map::empty().insert(p, b.permission@))))
                },
            }
        },
        _ => Err(CatalogError::InvalidBinding),
    }
}

/// The table of all bindings, added in order; the first that cannot be added
/// fails the whole.
pub open spec fn table_of(bindings: Seq<RouteBinding>) -> Result<RouteTable, CatalogError>
    decreases bindings.len(),
{
    if bindings.len() == 0 {
        Ok(Seq::empty())
    } else {
        match table_of(bindings.drop_last()) {
            Ok(t) => add_binding(t, bindings.last()),
            Err(e) => Err(e),
        }
    }
}

/// The table that router entries hold.
pub open spec fn entries_table(entries: Seq<(String, matchit::Router<String>)>) -> RouteTable {
    entries.map_values(|e: (String, matchit::Router<String>)| (e.0@, router_routes(e.1)))
}

/// The permission each API route requires.
pub struct RouteIndex {
    by_method: Vec<(String, matchit::Router<String>)>,
}

impl RouteIndex {
    /// The routes of the index, by method.
    pub closed spec fn table(&self) -> RouteTable {
        entries_table(self.by_method@)
    }

    /// Indexes route bindings by method and path; a binding whose method or
    /// path cannot be normalized, whose path has 26 or more opening braces,
    /// or whose route the router refuses, makes the index invalid.
    pub fn from_bindings(bindings: Vec<RouteBinding>) -> (r: Result<RouteIndex, CatalogError>)
        ensures
            match table_of(bindings@) {
                Ok(t) => r matches Ok(idx) && idx.table() == t,
                Err(_) => r matches Err(CatalogError::InvalidBinding),
            },
    {
        let mut by_method: Vec<(String, matchit::Router<String>)> = Vec::new();
        let mut i: usize = 0;
        proof {
            assert(bindings@.take(0) =~= Seq::<RouteBinding>::empty());
            assert(entries_table(by_method@) =~= Seq::empty());
        }
        while i < bindings.len()
            invariant
                i <= bindings@.len(),
                table_of(bindings@.take(i as int)) == Ok::<RouteTable, CatalogError>(
                    entries_table(by_method@),
                ),
            decreases bindings@.len() - i,
        {
            let ghost t = entries_table(by_method@);
            proof {
                assert(bindings@.take(i + 1).drop_last() =~= bindings@.take(i as int));
                assert(bindings@.take(i + 1).last() == bindings@[i as int]);
            }
            let b = &bindings[i];
            let method = match normalize_method(b.method.as_str()) {
                Ok(m) => m,
                Err(e) => {
                    proof {
                        lemma_table_error_stays(bindings@, i as int + 1);
                    }
                    return Err(CatalogError::InvalidBinding);
                },
            };
            let path = match normalize_path(b.path.as_str()) {
                Ok(p) => p,
                Err(e) => {
                    proof {
                        lemma_table_error_stays(bindings@, i as int + 1);
                    }
                    return Err(CatalogError::InvalidBinding);
                },
            };
            proof {
                assert(b == bindings@[i as int]);
                assert(normalized_method(b.method@) == Some(method@));
                assert(normalized_binding_path(b.path@) == Some(path@));
                assert(table_of(bindings@.take(i + 1)) == add_binding(t, *b));
            }
            let ghost path_view = path@;
            if count_char(path.as_str(), '{') >= MAX_ROUTE_BRACES {
                proof {
                    lemma_table_error_stays(bindings@, i as int + 1);
                }
                return Err(CatalogError::InvalidBinding);
            }
            let slot = find_method(&by_method, method.as_str());
            match slot {
                Some(j) => {
                    let ghost old_entries = by_method@;
                    proof {
                        assert(method_slot(t, method@) == Some(j as int));
                        assert(t[j as int] == (old_entries[j as int].0@, router_routes(old_entries[j as int].1)));
                    }
                    let (m, mut router) = by_method.remove(j);
                    let inserted = router_insert(&mut router, path, b.permission.clone());
                    if inserted.is_err() {
                        proof {
                            assert(route_refused(t[j as int].1, normalized_binding_path(b.path@)->0));
                            lemma_table_error_stays(bindings@, i as int + 1);
                        }
                        return Err(CatalogError::InvalidBinding);
                    }
                    by_method.insert(j, (m, router));
                    proof {
                        assert(by_method@ == old_entries.update(j as int, by_method@[j as int]));
                        assert(entries_table(by_method@) =~= t.update(
                            j as int,
                            (t[j as int].0, t[j as int].1.insert(path_view, b.permission@)),
                        ));
                        lemma_method_slot(t, method@);
                        assert(t[j as int].0 == method@);
                        assert(add_binding(t, *b) == Ok::<RouteTable, CatalogError>(entries_table(by_method@)));
                    }
                },
                None => {
                    let mut router = router_new();
                    proof {
                        assert(router_routes(router) =~= Map::<Seq<char>, Seq<char>>::empty());
                    }
                    let route_path = path.clone();
                    let inserted = router_insert(&mut router, path, b.permission.clone());
                    if inserted.is_err() {
                        proof {
                            lemma_table_error_stays(bindings@, i as int + 1);
                        }
                        return Err(CatalogError::InvalidBinding);
                    }
                    by_method.push((method, router));
                    proof {
                        assert(entries_table(by_method@) =~= t.push(
                            (method@, Map::<Seq<char>, Seq<char>>::empty().insert(route_path@, b.permission@)),
                        ));
                        assert(add_binding(t, *b) == Ok::<RouteTable, CatalogError>(entries_table(by_method@)));
                    }
                },
            }
            i += 1;
        }
        proof {
            assert(bindings@.take(bindings@.len() as int) =~= bindings@);
        }
        Ok(RouteIndex { by_method })
    }

    /// The permission an API request needs: that of the route its path
    /// matches among the routes of its method; a request no route matches is
    /// unbound.
    pub fn required_permission(&self, normalized_method: &str, normalized_path: &str) -> (r: Result<
        String,
        CatalogError,
    >)
        ensures
            match method_slot(self.table(), normalized_method@) {
                Some(i) => match route_match(self.table()[i].1, normalized_path@) {
                    Some(p) => r matches Ok(s) && s@ == p,
                    None => r matches Err(CatalogError::Unbound),
                },
                None => r matches Err(CatalogError::Unbound),
            },
    {
        match find_method(&self.by_method, normalized_method) {
            Some(j) => match router_at(&self.by_method[j].1, normalized_path) {
                Some(p) => Ok(p),
                None => Err(CatalogError::Unbound),
            },
            None => Err(CatalogError::Unbound),
        }
    }
}

proof fn lemma_method_slot(table: RouteTable, method: Seq<char>)
    ensures
        method_slot(table, method) matches Some(i) ==> 0 <= i < table.len() && table[i].0 == method,
    decreases table.len(),
{
    if table.len() > 0 && table.last().0 != method {
        lemma_method_slot(table.drop_last(), method);
    }
}

/// An error of a prefix of the bindings is the error of all of them.
proof fn lemma_table_error_stays(bindings: Seq<RouteBinding>, k: int)
    requires
        0 <= k <= bindings.len(),
        table_of(bindings.take(k)) is Err,
    ensures
        table_of(bindings) is Err,
    decreases bindings.len() - k,
{
    if k < bindings.len() {
        assert(bindings.take(k + 1).drop_last() =~= bindings.take(k));
        lemma_table_error_stays(bindings, k + 1);
    } else {
        assert(bindings.take(k) =~= bindings);
    }
}

/// The method and route a binding is indexed under.
pub open spec fn binding_key(b: RouteBinding) -> (Option<Seq<char>>, Option<Seq<char>>) {
    (normalized_method(b.method@), normalized_binding_path(b.path@))
}

/// Binding `j` is the last of `bindings` indexed under the same method and
/// route as binding `k`.
pub open spec fn last_with_key(bindings: Seq<RouteBinding>, k: int, j: int) -> bool {
    &&& k <= j < bindings.len()
    &&& binding_key(bindings[j]) == binding_key(bindings[k])
    &&& forall|j2: int| j < j2 < bindings.len() ==> binding_key(#[trigger] bindings[j2]) != binding_key(bindings[k])
}

/// Whether `table` routes `path` under `method` to `permission`.
pub open spec fn table_routes(table: RouteTable, method: Seq<char>, path: Seq<char>, permission: Seq<char>) -> bool {
    match method_slot(table, method) {
        Some(i) => 0 <= i < table.len() && table[i].1.contains_key(path) && table[i].1[path] == permission,
        None => false,
    }
}

proof fn lemma_method_slot_push(table: RouteTable, e: (Seq<char>, Map<Seq<char>, Seq<char>>), method: Seq<char>)
    ensures
        method_slot(table.push(e), method) == if e.0 == method {
            Some(table.len() as int)
        } else {
            method_slot(table, method)
        },
{
    assert(table.push(e).drop_last() =~= table);
}

proof fn lemma_method_slot_update(table: RouteTable, i: int, routes: Map<Seq<char>, Seq<char>>, method: Seq<char>)
    requires
        0 <= i < table.len(),
    ensures
        method_slot(table.update(i, (table[i].0, routes)), method) == method_slot(table, method),
    decreases table.len(),
{
    let u = table.update(i, (table[i].0, routes));
    if i < table.len() - 1 {
        assert(u.drop_last() =~= table.drop_last().update(i, (table[i].0, routes)));
        if table.last().0 != method {
            lemma_method_slot_update(table.drop_last(), i, routes, method);
        }
    } else {
        assert(u.drop_last() =~= table.drop_last());
    }
}

/// Indexing keeps every binding: when the bindings are accepted, each
/// binding's method and path normalize, and its route is in the router of
/// its method, with the permission of the last binding indexed under that
/// method and route (its own, where no later binding repeats it).
#[verifier::rlimit(40)]
pub proof fn lemma_index_keeps_every_binding(bindings: Seq<RouteBinding>)
    requires
        table_of(bindings) is Ok,
    ensures
        forall|k: int|
            #![trigger bindings[k]]
            0 <= k < bindings.len() ==> binding_key(bindings[k]).0 is Some && binding_key(bindings[k]).1 is Some
                && exists|j: int|
                #![trigger bindings[j]]
                last_with_key(bindings, k, j) && table_routes(
                    table_of(bindings)->Ok_0,
                    binding_key(bindings[k]).0->0,
                    binding_key(bindings[k]).1->0,
                    bindings[j].permission@,
                ),
    decreases bindings.len(),
{
    if bindings.len() == 0 {
        return;
    }
    let n = bindings.len() as int;
    let prev = bindings.drop_last();
    let b = bindings.last();
    assert(table_of(prev) is Ok);
    lemma_index_keeps_every_binding(prev);
    let tp = table_of(prev)->Ok_0;
    let t = table_of(bindings)->Ok_0;
    assert(add_binding(tp, b) == Ok::<RouteTable, CatalogError>(t));
    let m = normalized_method(b.method@)->0;
    let p = normalized_binding_path(b.path@)->0;
    lemma_method_slot(tp, m);
    // Where the last binding went, and how the slots of other methods moved.
    let slot: int = match method_slot(tp, m) {
        Some(i) => i,
        None => tp.len() as int,
    };
    assert forall|mm: Seq<char>| mm != m implies method_slot(t, mm) == method_slot(tp, mm) by {
        match method_slot(tp, m) {
            Some(i) => {
                lemma_method_slot_update(tp, i, tp[i].1.insert(p, b.permission@), mm);
            },
            None => {
                lemma_method_slot_push(tp, (m, Map::empty().insert(p, b.permission@)), mm);
            },
        }
    }
    match method_slot(tp, m) {
        Some(i) => {
            lemma_method_slot_update(tp, i, tp[i].1.insert(p, b.permission@), m);
            assert(t == tp.update(i, (tp[i].0, tp[i].1.insert(p, b.permission@))));
        },
        None => {
            lemma_method_slot_push(tp, (m, Map::empty().insert(p, b.permission@)), m);
        },
    }
    assert(method_slot(t, m) == Some(slot));
    assert(0 <= slot < t.len() && t[slot].1.contains_key(p) && t[slot].1[p] == b.permission@);
    assert forall|k: int|
        #![trigger bindings[k]]
        0 <= k < bindings.len() implies binding_key(bindings[k]).0 is Some && binding_key(bindings[k]).1 is Some
            && exists|j: int|
            #![trigger bindings[j]]
            last_with_key(bindings, k, j) && table_routes(
                t,
                binding_key(bindings[k]).0->0,
                binding_key(bindings[k]).1->0,
                bindings[j].permission@,
            ) by {
        if k == n - 1 || binding_key(bindings[k]) == binding_key(b) {
            if k < n - 1 {
                assert(prev[k] == bindings[k]);
            }
            assert(last_with_key(bindings, k, n - 1));
            assert(table_routes(t, m, p, bindings[n - 1].permission@));
        } else {
            assert(prev[k] == bindings[k]);
            let mk = binding_key(bindings[k]).0->0;
            let pk = binding_key(bindings[k]).1->0;
            let j = choose|j: int|
                #![trigger prev[j]]
                last_with_key(prev, k, j) && table_routes(tp, mk, pk, prev[j].permission@);
            assert(prev[j] == bindings[j]);
            assert forall|j2: int| j < j2 < bindings.len() implies binding_key(#[trigger] bindings[j2])
                != binding_key(bindings[k]) by {
                if j2 < n - 1 {
                    assert(prev[j2] == bindings[j2]);
                }
            }
            assert(last_with_key(bindings, k, j));
            let ik = method_slot(tp, mk)->0;
            lemma_method_slot(tp, mk);
            if mk == m {
                assert(pk != p);
                assert(ik == slot);
                assert(t[slot].1 == tp[slot].1.insert(p, b.permission@));
            } else {
                assert(method_slot(t, mk) == method_slot(tp, mk));
                if slot < tp.len() {
                    assert(ik != slot);
                }
                assert(t[ik] == tp[ik]);
            }
            assert(table_routes(t, mk, pk, bindings[j].permission@));
        }
    }
}

/// How many times `c` occurs in `s`.
fn count_char(s: &str, c: char) -> (r: usize)
    ensures
        r == char_count(s@, c),
{
    let v = chars_of(s);
    let mut n: usize = 0;
    let mut i: usize = 0;
    while i < v.len()
        invariant
            i <= v@.len(),
            v@ == s@,
            n == char_count(v@.take(i as int), c),
            n <= i,
        decreases v@.len() - i,
    {
        assert(v@.take(i + 1).drop_last() =~= v@.take(i as int));
        if v[i] == c {
            n += 1;
        }
        i += 1;
    }
    assert(v@.take(v@.len() as int) =~= v@);
    n
}

/// The position of the entry for `method`; the last one if several.
fn find_method(entries: &Vec<(String, matchit::Router<String>)>, method: &str) -> (r: Option<usize>)
    ensures
        r matches Some(j) ==> method_slot(entries_table(entries@), method@) == Some(j as int) && j
            < entries@.len(),
        r is None ==> method_slot(entries_table(entries@), method@) is None,
{
    let ghost t = entries_table(entries@);
    let mut i: usize = entries.len();
    assert(t.take(i as int) =~= t);
    while i > 0
        invariant
            i <= entries@.len(),
            t == entries_table(entries@),
            method_slot(t, method@) == method_slot(t.take(i as int), method@),
        decreases i,
    {
        assert(t.take(i as int).drop_last() =~= t.take(i - 1));
        if str_eq(entries[i - 1].0.as_str(), method) {
            return Some(i - 1);
        }
        i -= 1;
    }
    None
}

} // verus!
