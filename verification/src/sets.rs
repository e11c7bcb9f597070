//! Sets of ids and of texts held in vectors.
use vstd::prelude::*;

use crate::text::{lemma_text_lt_order, lemma_text_lt_transitive, str_eq, text_less, text_lt};

verus! {

broadcast use vstd::seq_lib::group_seq_properties;

/// Whether some string in `v` holds the text `s`.
pub fn contains_string(v: &Vec<String>, s: &str) -> (r: bool)
    ensures
        r == (exists|i: int| 0 <= i < v@.len() && (#[trigger] v@[i])@ == s@),
{
    let mut i: usize = 0;
    while i < v.len()
        invariant
            i <= v@.len(),
            forall|j: int| 0 <= j < i ==> (#[trigger] v@[j])@ != s@,
        decreases v@.len() - i,
    {
        if str_eq(v[i].as_str(), s) {
            return true;
        }
        i += 1;
    }
    false
}

/// Inserts `x` into a strictly ascending list, keeping it so.
pub fn insert_sorted(v: &mut Vec<i64>, x: i64)
    requires
        strictly_sorted(old(v)@),
    ensures
        strictly_sorted(final(v)@),
        forall|y: i64| final(v)@.contains(y) <==> (old(v)@.contains(y) || y == x),
{
    let mut i: usize = 0;
    while i < v.len() && v[i] < x
        invariant
            i <= v@.len(),
            strictly_sorted(v@),
            forall|j: int| 0 <= j < i ==> v@[j] < x,
        decreases v@.len() - i,
    {
        i += 1;
    }
    if i < v.len() && v[i] == x {
        return;
    }
    let ghost before = v@;
    v.insert(i, x);
    proof {
        assert(v@ == before.insert(i as int, x));
        assert forall|a: int, b: int| 0 <= a < b < v@.len() implies v@[a] < v@[b] by {
            if b < i {
            } else if a < i && b == i {
            } else if a < i {
                assert(v@[b] == before[b - 1]);
            } else if a == i {
                assert(v@[b] == before[b - 1]);
                assert(before[i as int] > x);
            } else {
                assert(v@[a] == before[a - 1]);
                assert(v@[b] == before[b - 1]);
            }
        }
        assert forall|y: i64| v@.contains(y) <==> (before.contains(y) || y == x) by {
            if v@.contains(y) {
                let j = choose|j: int| 0 <= j < v@.len() && v@[j] == y;
                if j < i {
                    assert(before[j] == y);
                } else if j > i {
                    assert(before[j - 1] == y);
                }
            }
            if before.contains(y) {
                let j = choose|j: int| 0 <= j < before.len() && before[j] == y;
                if j < i {
                    assert(v@[j] == y);
                } else {
                    assert(v@[j + 1] == y);
                }
            }
            if y == x {
                assert(v@[i as int] == x);
            }
        }
    }
}


pub open spec fn strictly_sorted(v: Seq<i64>) -> bool {
    forall|a: int, b: int| 0 <= a < b < v.len() ==> v[a] < v[b]
}

pub open spec fn strings_distinct(v: Seq<String>) -> bool {
    forall|a: int, b: int| 0 <= a < v.len() && 0 <= b < v.len() && a != b ==> v[a]@ != v[b]@
}


/// The texts of the strings.
pub open spec fn strings_set(v: Seq<String>) -> Set<Seq<char>> {
    Set::new(|p: Seq<char>| exists|i: int| 0 <= i < v.len() && (#[trigger] v[i])@ == p)
}


/// Adding a string adds its text.
pub proof fn lemma_strings_set_push(v: Seq<String>, s: String)
    ensures
        strings_set(v.push(s)) == strings_set(v).insert(s@),
{
    let w = v.push(s);
    assert forall|p: Seq<char>| strings_set(w).contains(p) <==> strings_set(v).insert(s@).contains(p) by {
        if strings_set(w).contains(p) {
            let i = choose|i: int| 0 <= i < w.len() && (#[trigger] w[i])@ == p;
            if i < v.len() {
                assert(v[i] == w[i]);
            }
        }
        if strings_set(v).contains(p) {
            let i = choose|i: int| 0 <= i < v.len() && (#[trigger] v[i])@ == p;
            assert(w[i] == v[i]);
        }
        if p == s@ {
            assert(w[v.len() as int] == s);
        }
    }
    assert(strings_set(w) =~= strings_set(v).insert(s@));
}


pub open spec fn strings_view(v: Seq<String>) -> Seq<Seq<char>> {
    v.map_values(|s: String| s@)
}


pub fn contains_id(ids: &Vec<i64>, id: i64) -> (r: bool)
    ensures
        r == ids@.contains(id),
{
    let mut i: usize = 0;
    while i < ids.len()
        invariant
            i <= ids@.len(),
            forall|j: int| 0 <= j < i ==> ids@[j] != id,
        decreases ids@.len() - i,
    {
        if ids[i] == id {
            return true;
        }
        i += 1;
    }
    false
}


/// The strings are in strictly ascending order of `String`'s `Ord`.
pub open spec fn strings_sorted(v: Seq<String>) -> bool {
    forall|a: int, b: int| 0 <= a < b < v.len() ==> text_lt(#[trigger] v[a]@, #[trigger] v[b]@)
}

/// Inserts `s` into a strictly ascending list of strings, keeping it so
/// (nothing changes when the text is already there).
pub fn insert_sorted_string(v: &mut Vec<String>, s: String)
    requires
        strings_sorted(old(v)@),
    ensures
        strings_sorted(final(v)@),
        strings_set(final(v)@) == strings_set(old(v)@).insert(s@),
{
    let mut i: usize = 0;
    while i < v.len() && text_less(v[i].as_str(), s.as_str())
        invariant
            i <= v@.len(),
            strings_sorted(v@),
            forall|j: int| 0 <= j < i ==> text_lt(#[trigger] v@[j]@, s@),
        decreases v@.len() - i,
    {
        i += 1;
    }
    if i < v.len() && str_eq(v[i].as_str(), s.as_str()) {
        proof {
            assert(strings_set(v@) =~= strings_set(v@).insert(s@));
        }
        return;
    }
    proof {
        if i < v@.len() {
            lemma_text_lt_order(v@[i as int]@, s@);
        }
    }
    let ghost before = v@;
    v.insert(i, s);
    proof {
        assert(v@ == before.insert(i as int, s));
        assert forall|a: int, b: int| 0 <= a < b < v@.len() implies text_lt(#[trigger] v@[a]@, #[trigger] v@[b]@) by {
            if b < i {
            } else if a < i && b == i {
            } else if a < i {
                assert(v@[b] == before[b - 1]);
            } else if a == i {
                assert(v@[b] == before[b - 1]);
                if b - 1 > i {
                    lemma_text_lt_transitive(s@, before[i as int]@, before[b - 1]@);
                }
            } else {
                assert(v@[a] == before[a - 1]);
                assert(v@[b] == before[b - 1]);
            }
        }
        assert forall|p: Seq<char>| strings_set(v@).contains(p) <==> strings_set(before).insert(s@).contains(p) by {
            if strings_set(v@).contains(p) {
                let j = choose|j: int| 0 <= j < v@.len() && (#[trigger] v@[j])@ == p;
                if j < i {
                    assert(before[j] == v@[j]);
                } else if j > i {
                    assert(before[j - 1] == v@[j]);
                }
            }
            if strings_set(before).contains(p) {
                let j = choose|j: int| 0 <= j < before.len() && (#[trigger] before[j])@ == p;
                if j < i {
                    assert(v@[j] == before[j]);
                } else {
                    assert(v@[j + 1] == before[j]);
                }
            }
            if p == s@ {
                assert(v@[i as int]@ == p);
            }
        }
        assert(strings_set(v@) =~= strings_set(before).insert(s@));
    }
}

/// Strings in strictly ascending order hold no text twice.
pub proof fn lemma_sorted_strings_distinct(v: Seq<String>)
    requires
        strings_sorted(v),
    ensures
        strings_distinct(v),
{
    assert forall|a: int, b: int| 0 <= a < v.len() && 0 <= b < v.len() && a != b implies v[a]@ != v[b]@ by {
        lemma_text_lt_order(v[a]@, v[b]@);
        if a < b {
            assert(text_lt(v[a]@, v[b]@));
        } else {
            assert(text_lt(v[b]@, v[a]@));
        }
    }
}

/// Two lists of strings in strictly ascending order with the same texts
/// hold the same texts in the same places.
pub proof fn lemma_sorted_strings_equal(a: Seq<String>, b: Seq<String>)
    requires
        strings_sorted(a),
        strings_sorted(b),
        strings_set(a) == strings_set(b),
    ensures
        strings_view(a) == strings_view(b),
    decreases a.len(),
{
    if a.len() == 0 {
        if b.len() > 0 {
            assert(strings_set(b).contains(b[0]@));
        }
        assert(strings_view(a) =~= strings_view(b));
    } else if b.len() == 0 {
        assert(strings_set(a).contains(a[0]@));
    } else {
        assert(strings_set(a).contains(a[0]@));
        assert(strings_set(b).contains(b[0]@));
        if a[0]@ != b[0]@ {
            let j = choose|j: int| 0 <= j < a.len() && (#[trigger] a[j])@ == b[0]@;
            let i = choose|i: int| 0 <= i < b.len() && (#[trigger] b[i])@ == a[0]@;
            assert(j > 0 && i > 0);
            assert(text_lt(a[0]@, a[j]@));
            assert(text_lt(b[0]@, b[i]@));
            lemma_text_lt_order(a[0]@, b[0]@);
        }
        let ta = a.drop_first();
        let tb = b.drop_first();
        assert forall|x: int, y: int| 0 <= x < y < ta.len() implies text_lt(#[trigger] ta[x]@, #[trigger] ta[y]@) by {
            assert(ta[x] == a[x + 1] && ta[y] == a[y + 1]);
        }
        assert forall|x: int, y: int| 0 <= x < y < tb.len() implies text_lt(#[trigger] tb[x]@, #[trigger] tb[y]@) by {
            assert(tb[x] == b[x + 1] && tb[y] == b[y + 1]);
        }
        assert forall|p: Seq<char>| strings_set(ta).contains(p) <==> strings_set(tb).contains(p) by {
            if strings_set(ta).contains(p) {
                let j = choose|j: int| 0 <= j < ta.len() && (#[trigger] ta[j])@ == p;
                assert(a[j + 1]@ == p);
                assert(text_lt(a[0]@, a[j + 1]@));
                lemma_text_lt_order(a[0]@, a[0]@);
                assert(strings_set(b).contains(p));
                let k = choose|k: int| 0 <= k < b.len() && (#[trigger] b[k])@ == p;
                assert(k != 0);
                assert(tb[k - 1] == b[k]);
            }
            if strings_set(tb).contains(p) {
                let j = choose|j: int| 0 <= j < tb.len() && (#[trigger] tb[j])@ == p;
                assert(b[j + 1]@ == p);
                assert(text_lt(b[0]@, b[j + 1]@));
                lemma_text_lt_order(b[0]@, b[0]@);
                assert(strings_set(a).contains(p));
                let k = choose|k: int| 0 <= k < a.len() && (#[trigger] a[k])@ == p;
                assert(k != 0);
                assert(ta[k - 1] == a[k]);
            }
        }
        assert(strings_set(ta) =~= strings_set(tb));
        lemma_sorted_strings_equal(ta, tb);
        assert(strings_view(a) =~= seq![a[0]@] + strings_view(ta));
        assert(strings_view(b) =~= seq![b[0]@] + strings_view(tb));
    }
}

} // verus!
