//! Stable ordering by `(sort, id)` keys, as lists of menus and roles are shown.
use vstd::prelude::*;

verus! {

/// `(sort, id)` keys compared as tuples: by sort, then by id.
pub open spec fn key_le(a: (i32, i64), b: (i32, i64)) -> bool {
    a.0 < b.0 || (a.0 == b.0 && a.1 <= b.1)
}

fn key_le_exec(a: (i32, i64), b: (i32, i64)) -> (r: bool)
    ensures
        r == key_le(a, b),
{
    a.0 < b.0 || (a.0 == b.0 && a.1 <= b.1)
}

/// `order` lists each position of `keys` once, by ascending key, and keeps
/// positions with equal keys in the order they came in: the order a stable
/// sort by key gives.
pub open spec fn is_stable_order(keys: Seq<(i32, i64)>, order: Seq<usize>) -> bool {
    &&& order.len() == keys.len()
    &&& order.no_duplicates()
    &&& forall|k: int| 0 <= k < order.len() ==> (#[trigger] order[k]) < keys.len()
    &&& forall|a: int, b: int|
        0 <= a < b < order.len() ==> key_le(keys[#[trigger] order[a] as int], keys[#[trigger] order[b] as int])
    &&& forall|a: int, b: int|
        0 <= a < b < order.len() && keys[#[trigger] order[a] as int] == keys[#[trigger] order[b] as int]
            ==> order[a] < order[b]
}

/// The positions of `keys` in the order a stable sort by key puts them.
pub fn stable_order(keys: &Vec<(i32, i64)>) -> (r: Vec<usize>)
    ensures
        is_stable_order(keys@, r@),
{
    let mut r: Vec<usize> = Vec::new();
    let mut i: usize = 0;
    while i < keys.len()
        invariant
            i <= keys@.len(),
            r@.len() == i,
            r@.no_duplicates(),
            forall|k: int| 0 <= k < r@.len() ==> (#[trigger] r@[k]) < i,
            forall|a: int, b: int|
                0 <= a < b < r@.len() ==> key_le(keys@[#[trigger] r@[a] as int], keys@[#[trigger] r@[b] as int]),
            forall|a: int, b: int|
                0 <= a < b < r@.len() && keys@[#[trigger] r@[a] as int] == keys@[#[trigger] r@[b] as int]
                    ==> r@[a] < r@[b],
        decreases keys@.len() - i,
    {
        let key = keys[i];
        // The first position whose key is above `key`.
        let mut pos: usize = 0;
        while pos < r.len() && key_le_exec(keys[r[pos]], key)
            invariant
                pos <= r@.len(),
                i < keys@.len(),
                key == keys@[i as int],
                forall|k: int| 0 <= k < r@.len() ==> (#[trigger] r@[k]) < i,
                forall|k: int| 0 <= k < pos ==> key_le(keys@[#[trigger] r@[k] as int], key),
            decreases r@.len() - pos,
        {
            pos += 1;
        }
        proof {
            if pos < r@.len() {
                assert(!key_le(keys@[r@[pos as int] as int], key));
                assert forall|k: int| pos <= k < r@.len() implies !key_le(
                    keys@[#[trigger] r@[k] as int],
                    key,
                ) by {
                    if k > pos {
                        assert(key_le(keys@[r@[pos as int] as int], keys@[r@[k] as int]));
                    }
                }
            }
        }
        let ghost old_r = r@;
        r.insert(pos, i);
        proof {
            assert(r@ == old_r.insert(pos as int, i));
            assert forall|k: int| 0 <= k < r@.len() implies (#[trigger] r@[k]) < i + 1 by {
                if k < pos {
                    assert(r@[k] == old_r[k]);
                } else if k > pos {
                    assert(r@[k] == old_r[k - 1]);
                }
            }
            assert(r@.no_duplicates()) by {
                assert forall|a: int, b: int| 0 <= a < r@.len() && 0 <= b < r@.len() && a != b implies r@[a]
                    != r@[b] by {
                    if a != pos && b != pos {
                        let oa = if a < pos {
                            a
                        } else {
                            a - 1
                        };
                        let ob = if b < pos {
                            b
                        } else {
                            b - 1
                        };
                        assert(r@[a] == old_r[oa]);
                        assert(r@[b] == old_r[ob]);
                    } else if a == pos {
                        let ob = if b < pos {
                            b
                        } else {
                            b - 1
                        };
                        assert(r@[b] == old_r[ob]);
                        assert(old_r[ob] < i);
                    } else {
                        let oa = if a < pos {
                            a
                        } else {
                            a - 1
                        };
                        assert(r@[a] == old_r[oa]);
                        assert(old_r[oa] < i);
                    }
                }
            }
            assert forall|a: int, b: int| 0 <= a < b < r@.len() implies key_le(
                keys@[#[trigger] r@[a] as int],
                keys@[#[trigger] r@[b] as int],
            ) by {
                if b < pos {
                    assert(r@[a] == old_r[a] && r@[b] == old_r[b]);
                } else if a > pos {
                    assert(r@[a] == old_r[a - 1] && r@[b] == old_r[b - 1]);
                } else if a == pos {
                    assert(r@[b] == old_r[b - 1]);
                    assert(!key_le(keys@[old_r[b - 1] as int], key));
                } else if b == pos {
                    assert(r@[a] == old_r[a]);
                } else {
                    assert(r@[a] == old_r[a] && r@[b] == old_r[b - 1]);
                }
            }
            assert forall|a: int, b: int|
                0 <= a < b < r@.len() && keys@[#[trigger] r@[a] as int] == keys@[#[trigger] r@[b] as int]
                    implies r@[a] < r@[b] by {
                if b < pos {
                    assert(r@[a] == old_r[a] && r@[b] == old_r[b]);
                } else if a > pos {
                    assert(r@[a] == old_r[a - 1] && r@[b] == old_r[b - 1]);
                } else if a == pos {
                    assert(r@[b] == old_r[b - 1]);
                    assert(!key_le(keys@[old_r[b - 1] as int], key));
                } else if b == pos {
                    assert(r@[a] == old_r[a]);
                    assert(old_r[a] < i);
                } else {
                    assert(r@[a] == old_r[a] && r@[b] == old_r[b - 1]);
                }
            }
        }
        i += 1;
    }
    r
}

} // verus!
