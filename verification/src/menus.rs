//! Catalogue menus as the administration screens show them: the navigation
//! of a user and the management tree of the whole catalogue.
use std::collections::HashMap;
use vstd::prelude::*;

use crate::sets::{contains_id, contains_string};
use crate::text::str_eq;

verus! {

broadcast use vstd::std_specs::hash::group_hash_axioms;

#[derive(Debug, Clone)]
pub struct MenuMeta {
    pub active_name: String,
    pub keep_alive: bool,
    pub default_menu: bool,
    pub title: String,
    pub icon: String,
    pub close_tab: bool,
    pub transition_type: String,
}

#[derive(Debug, Clone)]
pub struct MenuParameter {
    pub id: i64,
    pub sys_base_menu_id: i64,
    pub parameter_type: String,
    pub key: String,
    pub value: String,
}

#[derive(Debug, Clone)]
pub struct MenuButton {
    pub id: i64,
    pub name: String,
    pub desc: String,
}

/// An API route bound to a menu.
#[derive(Debug, Clone)]
pub struct ApiBinding {
    pub menu_id: i64,
    pub method: String,
    pub path_pattern: String,
}

/// A catalogue menu with its sub-menus.
#[derive(Debug)]
pub struct MenuView {
    pub id: i64,
    pub parent_id: i64,
    pub path: String,
    pub name: String,
    pub hidden: bool,
    pub component: String,
    pub sort: i32,
    pub meta: MenuMeta,
    pub parameters: Vec<MenuParameter>,
    pub menu_btn: Vec<MenuButton>,
    pub menu_type: String,
    pub status: String,
    pub permission: Option<String>,
    pub api_bindings: Vec<ApiBinding>,
    pub children: Vec<MenuView>,
}

/// A stored catalogue menu, with its lists read (a list that cannot be read
/// is empty) and its API bindings attached.
#[derive(Debug)]
pub struct MenuRecord {
    pub id: i64,
    pub parent_id: i64,
    pub path: String,
    pub name: String,
    pub hidden: bool,
    pub component: String,
    pub sort: i32,
    pub active_name: String,
    pub keep_alive: bool,
    pub default_menu: bool,
    pub title: String,
    pub icon: String,
    pub close_tab: bool,
    pub transition_type: String,
    pub parameters: Vec<MenuParameter>,
    pub menu_btn: Vec<MenuButton>,
    pub menu_type: String,
    pub status: String,
    pub permission: Option<String>,
    pub api_bindings: Vec<ApiBinding>,
}

/// Whether a record belongs in a tree: in the navigation (`allowed` given)
/// it must be enabled and allowed; actions only when they are wanted.
pub open spec fn kept(record: MenuRecord, allowed: Option<Seq<i64>>, include_actions: bool) -> bool {
    &&& (allowed is None || record.status@ == "enabled"@)
    &&& match allowed {
        Some(ids) => ids.contains(record.id),
        None => true,
    }
    &&& (include_actions || record.menu_type@ != "action"@)
}

/// `v` shows `r`, sub-menus aside.
pub open spec fn view_shows(v: MenuView, r: MenuRecord) -> bool {
    &&& v.id == r.id
    &&& v.parent_id == r.parent_id
    &&& v.path == r.path
    &&& v.name == r.name
    &&& v.hidden == r.hidden
    &&& v.component == r.component
    &&& v.sort == r.sort
    &&& v.meta.active_name == r.active_name
    &&& v.meta.keep_alive == r.keep_alive
    &&& v.meta.default_menu == r.default_menu
    &&& v.meta.title == r.title
    &&& v.meta.icon == r.icon
    &&& v.meta.close_tab == r.close_tab
    &&& v.meta.transition_type == r.transition_type
    &&& v.parameters == r.parameters
    &&& v.menu_btn == r.menu_btn
    &&& v.menu_type == r.menu_type
    &&& v.status == r.status
    &&& v.permission == r.permission
    &&& v.api_bindings == r.api_bindings
}

/// Every view below `parent`, at any depth, shows a kept record and sits
/// under the view of its parent.
pub open spec fn forest_from(
    views: Seq<MenuView>,
    parent: i64,
    records: Seq<MenuRecord>,
    allowed: Option<Seq<i64>>,
    include_actions: bool,
    depth: nat,
) -> bool
    decreases depth,
{
    depth > 0 && forall|k: int|
        0 <= k < views.len() ==> {
            &&& (#[trigger] views[k]).parent_id == parent
            &&& exists|i: int|
                0 <= i < records.len() && kept(records[i], allowed, include_actions) && view_shows(
                    views[k],
                    #[trigger] records[i],
                )
            &&& forest_from(views[k].children@, views[k].id, records, allowed, include_actions, (depth - 1) as nat)
        }
}

/// The kept records directly under `parent`, in record order.
pub open spec fn kept_children(
    records: Seq<MenuRecord>,
    parent: i64,
    allowed: Option<Seq<i64>>,
    include_actions: bool,
) -> Seq<MenuRecord> {
    records.filter(|r: MenuRecord| kept(r, allowed, include_actions) && r.parent_id == parent)
}

/// The groups of kept records by parent, while the tree is built: each
/// group lists kept records with that parent, in record order.
pub open spec fn groups_ok(
    groups: Map<i64, Vec<MenuRecord>>,
    records: Seq<MenuRecord>,
    allowed: Option<Seq<i64>>,
    include_actions: bool,
) -> bool {
    forall|p: i64, j: int|
        #![trigger groups[p]@[j]]
        groups.contains_key(p) && 0 <= j < groups[p]@.len() ==> groups[p]@[j].parent_id == p && is_kept_record(
            records,
            allowed,
            include_actions,
            groups[p]@[j],
        )
}

/// `r` is one of the kept records.
pub open spec fn is_kept_record(
    records: Seq<MenuRecord>,
    allowed: Option<Seq<i64>>,
    include_actions: bool,
    r: MenuRecord,
) -> bool {
    exists|i: int| 0 <= i < records.len() && kept(records[i], allowed, include_actions) && r == #[trigger] records[i]
}

fn is_kept(record: &MenuRecord, allowed: Option<&Vec<i64>>, include_actions: bool) -> (r: bool)
    ensures
        r == kept(
            *record,
            match allowed {
                Some(v) => Some(v@),
                None => None,
            },
            include_actions,
        ),
{
    let enabled_ok = match allowed {
        None => true,
        Some(_) => str_eq(record.status.as_str(), "enabled"),
    };
    let allowed_ok = match allowed {
        Some(ids) => contains_id(ids, record.id),
        None => true,
    };
    enabled_ok && allowed_ok && (include_actions || !str_eq(record.menu_type.as_str(), "action"))
}

/// The ids of an optional allow-list.
pub open spec fn allowed_ids(allowed: Option<&Vec<i64>>) -> Option<Seq<i64>> {
    match allowed {
        Some(v) => Some(v@),
        None => None,
    }
}

/// No two records share an id.
pub open spec fn distinct_ids(records: Seq<MenuRecord>) -> bool {
    forall|i: int, j: int|
        0 <= i < records.len() && 0 <= j < records.len() && (#[trigger] records[i]).id == (
        #[trigger] records[j]).id ==> i == j
}

/// No record has the id of the root.
pub open spec fn nonzero_ids(records: Seq<MenuRecord>) -> bool {
    forall|i: int| 0 <= i < records.len() ==> (#[trigger] records[i]).id != 0
}

/// Within some depth, every view has exactly the kept records under it as
/// its sub-menus, in record order.
pub open spec fn children_exact(
    views: Seq<MenuView>,
    records: Seq<MenuRecord>,
    allowed: Option<Seq<i64>>,
    include_actions: bool,
    depth: nat,
) -> bool
    decreases depth,
{
    depth > 0 && forall|k: int|
        0 <= k < views.len() ==> {
            let kids = kept_children(records, views[k].id, allowed, include_actions);
            &&& (#[trigger] views[k]).children@.len() == kids.len()
            &&& forall|j: int| 0 <= j < kids.len() ==> view_shows(#[trigger] views[k].children@[j], kids[j])
            &&& children_exact(views[k].children@, records, allowed, include_actions, (depth - 1) as nat)
        }
}

/// `views` is the menu tree of `records`: the kept records under the root,
/// in record order, each view within some depth a forest of kept records;
/// where ids are distinct and none is the root's, every menu has exactly its
/// kept sub-menus, in record order.
pub open spec fn is_tree_of(
    views: Seq<MenuView>,
    records: Seq<MenuRecord>,
    allowed: Option<Seq<i64>>,
    include_actions: bool,
) -> bool {
    let top = kept_children(records, 0, allowed, include_actions);
    &&& views.len() == top.len()
    &&& forall|k: int| 0 <= k < views.len() ==> view_shows(#[trigger] views[k], top[k])
    &&& exists|d: nat| forest_from(views, 0, records, allowed, include_actions, d)
    &&& distinct_ids(records) && nonzero_ids(records) ==> exists|d: nat|
        children_exact(views, records, allowed, include_actions, d)
}

/// Each group holds exactly the kept records with that parent, in record
/// order; a parent without a group has none.
pub open spec fn groups_match(
    groups: Map<i64, Vec<MenuRecord>>,
    records: Seq<MenuRecord>,
    allowed: Option<Seq<i64>>,
    include_actions: bool,
) -> bool {
    forall|p: i64|
        #![trigger groups.contains_key(p)]
        #![trigger kept_children(records, p, allowed, include_actions)]
        (groups.contains_key(p) ==> groups[p]@ == kept_children(records, p, allowed, include_actions)) && (
        !groups.contains_key(p) ==> kept_children(records, p, allowed, include_actions).len() == 0)
}

/// The groups left agree with the full grouping.
pub open spec fn groups_agree(groups: Map<i64, Vec<MenuRecord>>, full: Map<i64, Vec<MenuRecord>>) -> bool {
    forall|p: i64| #[trigger] groups.contains_key(p) ==> full.contains_key(p) && groups[p] == full[p]
}

/// Every record still waiting in a group still has its own group, if the
/// full grouping gives it one.
pub open spec fn groups_pending(groups: Map<i64, Vec<MenuRecord>>, full: Map<i64, Vec<MenuRecord>>) -> bool {
    forall|p: i64, j: int|
        #![trigger groups[p]@[j]]
        groups.contains_key(p) && 0 <= j < groups[p]@.len() && full.contains_key(groups[p]@[j].id)
            ==> groups.contains_key(groups[p]@[j].id)
}

/// No record waiting in a group has the id `q`.
pub open spec fn no_waiting_id(groups: Map<i64, Vec<MenuRecord>>, q: i64) -> bool {
    forall|p: i64, j: int|
        #![trigger groups[p]@[j]]
        groups.contains_key(p) && 0 <= j < groups[p]@.len() ==> groups[p]@[j].id != q
}

/// `q` is the id of a record of a group that is gone.
pub open spec fn id_of_taken_group(
    before: Map<i64, Vec<MenuRecord>>,
    after: Map<i64, Vec<MenuRecord>>,
    q: i64,
) -> bool {
    exists|p: i64, j: int|
        before.contains_key(p) && !after.contains_key(p) && 0 <= j < before[p]@.len() && (
        #[trigger] before[p]@[j]).id == q
}

/// What a call building the sub-menus of `parent` needs for them to be
/// exactly the kept records under it.
pub open spec fn exact_call(
    groups: Map<i64, Vec<MenuRecord>>,
    parent: i64,
    records: Seq<MenuRecord>,
    allowed: Option<Seq<i64>>,
    include_actions: bool,
    full: Map<i64, Vec<MenuRecord>>,
) -> bool {
    &&& distinct_ids(records)
    &&& groups_match(full, records, allowed, include_actions)
    &&& groups_agree(groups, full)
    &&& groups_pending(groups, full)
    &&& no_waiting_id(groups, parent)
    &&& (full.contains_key(parent) ==> groups.contains_key(parent))
}

/// The menu tree of `records`: the kept records under the root (`0`), in
/// record order, each with the tree of the kept records under it. With
/// `allowed` given, only enabled and allowed records are kept; actions are
/// kept only when `include_actions` holds.
pub fn build_tree(records: Vec<MenuRecord>, allowed: Option<&Vec<i64>>, include_actions: bool) -> (r: Vec<
    MenuView,
>)
    ensures
        is_tree_of(r@, records@, allowed_ids(allowed), include_actions),
{
    let ghost a = match allowed {
        Some(v) => Some(v@),
        None => None,
    };
    let ghost all = records@;
    let mut pending = records;
    // Reverse, so that popping yields the records in their order.
    let mut rev: Vec<MenuRecord> = Vec::new();
    while pending.len() > 0
        invariant
            all == pending@ + rev@.reverse(),
        decreases pending@.len(),
    {
        let ghost before = pending@;
        let rec = pending.pop().unwrap();
        proof {
            assert(before == pending@.push(rec));
        }
        rev.push(rec);
        proof {
            assert(rev@.reverse() =~= seq![rec] + rev@.drop_last().reverse());
            assert(all =~= pending@ + rev@.reverse());
        }
    }
    proof {
        assert(all.subrange(0, all.len() as int) =~= rev@.reverse());
    }
    let mut groups: HashMap<i64, Vec<MenuRecord>> = HashMap::new();
    let ghost mut done: nat = 0;
    while rev.len() > 0
        invariant
            all.subrange(done as int, all.len() as int) == rev@.reverse(),
            a == (match allowed {
                Some(v) => Some(v@),
                None => None,
            }),
            done + rev@.len() == all.len(),
            groups_ok(groups@, all, a, include_actions),
            groups_match(groups@, all.subrange(0, done as int), a, include_actions),
        decreases rev@.len(),
    {
        let ghost before = rev@;
        let rec = rev.pop().unwrap();
        proof {
            assert(before == rev@.push(rec));
            assert(before.reverse() =~= seq![rec] + rev@.reverse());
            let tail = all.subrange(done as int, all.len() as int);
            assert(tail == seq![rec] + rev@.reverse());
            assert(tail[0] == rec);
            assert(all[done as int] == tail[0]);
            assert(all.subrange(done + 1int, all.len() as int) =~= tail.subrange(1, tail.len() as int));
            assert(tail.subrange(1, tail.len() as int) =~= rev@.reverse());
            assert(all.subrange(0, done + 1int) =~= all.subrange(0, done as int).push(rec));
            assert(all.subrange(0, done + 1int).drop_last() =~= all.subrange(0, done as int));
            reveal_with_fuel(Seq::filter, 1);
        }
        if is_kept(&rec, allowed, include_actions) {
            let parent = rec.parent_id;
            let ghost old_groups = groups@;
            let mut list = match groups.remove(&parent) {
                Some(list) => list,
                None => Vec::new(),
            };
            let ghost old_list = list@;
            list.push(rec);
            groups.insert(parent, list);
            proof {
                assert forall|p: i64, j: int|
                    groups@.contains_key(p) && 0 <= j < groups@[p]@.len() implies groups@[p]@[j].parent_id == p
                        && is_kept_record(all, a, include_actions, #[trigger] groups@[p]@[j]) by {
                    if p == parent {
                        if j < old_list.len() {
                            assert(groups@[p]@[j] == old_groups[p]@[j]);
                        } else {
                            assert(groups@[p]@[j] == all[done as int]);
                            assert(kept(all[done as int], a, include_actions));
                        }
                    } else {
                        assert(groups@[p] == old_groups[p]);
                    }
                }
                let now = all.subrange(0, done + 1int);
                let was = all.subrange(0, done as int);
                assert forall|p: i64| #[trigger] kept_children(now, p, a, include_actions) == (if p == parent {
                    kept_children(was, p, a, include_actions).push(rec)
                } else {
                    kept_children(was, p, a, include_actions)
                }) by {
                    reveal_with_fuel(Seq::filter, 1);
                }
                assert forall|p: i64|
                    (groups@.contains_key(p) ==> groups@[p]@ == kept_children(now, p, a, include_actions)) && (
                    !groups@.contains_key(p) ==> kept_children(now, p, a, include_actions).len() == 0) by {
                    if p == parent {
                        if old_groups.contains_key(p) {
                            assert(old_list == kept_children(was, p, a, include_actions));
                        } else {
                            assert(kept_children(was, p, a, include_actions).len() == 0);
                            assert(old_list =~= kept_children(was, p, a, include_actions));
                        }
                        assert(groups@[p]@ =~= kept_children(now, p, a, include_actions));
                    } else {
                        assert(kept_children(now, p, a, include_actions) == kept_children(was, p, a, include_actions));
                        if groups@.contains_key(p) {
                            assert(groups@[p] == old_groups[p]);
                        }
                    }
                }
            }
        } else {
            proof {
                let now = all.subrange(0, done + 1int);
                let was = all.subrange(0, done as int);
                assert forall|p: i64| #[trigger] kept_children(now, p, a, include_actions) == kept_children(
                    was,
                    p,
                    a,
                    include_actions,
                ) by {
                    reveal_with_fuel(Seq::filter, 1);
                }
            }
        }
        proof {
            done = done + 1;
        }
    }
    proof {
        assert(done == all.len());
        assert(all.subrange(0, done as int) =~= all);
    }
    let ghost full = groups@;
    proof {
        vstd::std_specs::hash::axiom_hashmap_view_finite_dom(groups);
        if distinct_ids(all) && nonzero_ids(all) {
            assert forall|p: i64, j: int| groups@.contains_key(p) && 0 <= j < groups@[p]@.len() implies (
            #[trigger] groups@[p]@[j]).id != 0 by {
                assert(is_kept_record(all, a, include_actions, groups@[p]@[j]));
            }
        }
    }
    let r = build_children(0, &mut groups, Ghost(all), Ghost(a), include_actions, Ghost(full));
    proof {
        assert(all == records@);
        let top = kept_children(all, 0, a, include_actions);
        if full.contains_key(0) {
            assert(full[0]@ == top);
        } else {
            assert(top.len() == 0);
        }
        assert(r@.len() == top.len());
        assert(forall|k: int| 0 <= k < r@.len() ==> view_shows(#[trigger] r@[k], top[k]));
        let d = choose|d: nat| forest_from(r@, 0, all, a, include_actions, d);
        assert(forest_from(r@, 0, records@, a, include_actions, d));
        assert(a == allowed_ids(allowed));
    }
    r
}

/// The views of the records grouped under `parent`, each with its own
/// sub-menus; each group is taken out of `groups` as it is used.
fn build_children(
    parent: i64,
    groups: &mut HashMap<i64, Vec<MenuRecord>>,
    Ghost(records): Ghost<Seq<MenuRecord>>,
    Ghost(allowed): Ghost<Option<Seq<i64>>>,
    include_actions: bool,
    Ghost(full): Ghost<Map<i64, Vec<MenuRecord>>>,
) -> (r: Vec<MenuView>)
    requires
        groups_ok(old(groups)@, records, allowed, include_actions),
        old(groups)@.dom().finite(),
    ensures
        groups_ok(final(groups)@, records, allowed, include_actions),
        final(groups)@.dom().finite(),
        final(groups)@.dom().subset_of(old(groups)@.dom()),
        old(groups)@.contains_key(parent) ==> !final(groups)@.contains_key(parent),
        old(groups)@.contains_key(parent) ==> r@.len() == old(groups)@[parent]@.len() && forall|k: int|
            0 <= k < r@.len() ==> view_shows(#[trigger] r@[k], old(groups)@[parent]@[k]),
        !old(groups)@.contains_key(parent) ==> r@.len() == 0,
        forall|p: i64| #[trigger] final(groups)@.contains_key(p) ==> final(groups)@[p] == old(groups)@[p],
        exists|d: nat| forest_from(r@, parent, records, allowed, include_actions, d),
        forall|q: i64|
            old(groups)@.contains_key(q) && !final(groups)@.contains_key(q) ==> q == parent || id_of_taken_group(
                old(groups)@,
                final(groups)@,
                q,
            ),
        exact_call(old(groups)@, parent, records, allowed, include_actions, full) ==> groups_pending(
            final(groups)@,
            full,
        ) && exists|d: nat| children_exact(r@, records, allowed, include_actions, d),
    decreases old(groups)@.dom().len(),
{
    let ghost start = groups@;
    let ghost exact = exact_call(start, parent, records, allowed, include_actions, full);
    let list = match groups.remove(&parent) {
        Some(list) => list,
        None => {
            let r: Vec<MenuView> = Vec::new();
            assert(forest_from(r@, parent, records, allowed, include_actions, 1));
            assert(children_exact(r@, records, allowed, include_actions, 1));
            return r;
        },
    };
    proof {
        vstd::set::axiom_set_remove_len(old(groups)@.dom(), parent);
        if exact {
            assert forall|p: i64, j: int|
                groups@.contains_key(p) && 0 <= j < groups@[p]@.len() && full.contains_key(
                    (#[trigger] groups@[p]@[j]).id,
                ) implies groups@.contains_key(groups@[p]@[j].id) by {
                assert(groups@[p] == start[p]);
                assert(start[p]@[j].id != parent);
            }
            assert(full[parent]@ == kept_children(records, parent, allowed, include_actions));
            lemma_filter_distinct_ids(records, |r: MenuRecord| kept(r, allowed, include_actions) && r.parent_id == parent);
        }
    }
    let ghost listed = list@;
    let mut rev: Vec<MenuRecord> = Vec::new();
    let mut list = list;
    while list.len() > 0
        invariant
            listed == list@ + rev@.reverse(),
        decreases list@.len(),
    {
        let ghost before = list@;
        let rec = list.pop().unwrap();
        proof {
            assert(before == list@.push(rec));
        }
        rev.push(rec);
        proof {
            assert(rev@.reverse() =~= seq![rec] + rev@.drop_last().reverse());
            assert(listed =~= list@ + rev@.reverse());
        }
    }
    proof {
        assert(listed =~= rev@.reverse());
    }
    let mut out: Vec<MenuView> = Vec::new();
    let ghost mut depths: Seq<nat> = Seq::empty();
    let ghost mut exact_depths: Seq<nat> = Seq::empty();
    while rev.len() > 0
        invariant
            listed.subrange(out@.len() as int, listed.len() as int) == rev@.reverse(),
            out@.len() + rev@.len() == listed.len(),
            forall|j: int| 0 <= j < listed.len() ==> (#[trigger] listed[j]).parent_id == parent,
            forall|j: int| 0 <= j < listed.len() ==> is_kept_record(records, allowed, include_actions, #[trigger] listed[j]),
            forall|k: int| 0 <= k < out@.len() ==> view_shows(#[trigger] out@[k], listed[k]),
            depths.len() == out@.len(),
            forall|k: int|
                0 <= k < out@.len() ==> forest_from(
                    (#[trigger] out@[k]).children@,
                    out@[k].id,
                    records,
                    allowed,
                    include_actions,
                    depths[k],
                ),
            groups_ok(groups@, records, allowed, include_actions),
            groups@.dom().finite(),
            groups@.dom().subset_of(old(groups)@.dom().remove(parent)),
            old(groups)@.dom().remove(parent).finite(),
            old(groups)@.dom().remove(parent).len() < old(groups)@.dom().len(),
            !groups@.contains_key(parent),
            forall|p: i64| #[trigger] groups@.contains_key(p) ==> groups@[p] == old(groups)@[p],
            start == old(groups)@,
            start.contains_key(parent) && listed == start[parent]@,
            exact == exact_call(start, parent, records, allowed, include_actions, full),
            forall|q: i64|
                start.contains_key(q) && !groups@.contains_key(q) ==> q == parent || id_of_taken_group(
                    start,
                    groups@,
                    q,
                ),
            exact ==> groups_pending(groups@, full),
            exact ==> distinct_ids(listed),
            exact ==> listed == kept_children(records, parent, allowed, include_actions),
            exact ==> forall|j: int|
                out@.len() <= j < listed.len() && full.contains_key((#[trigger] listed[j]).id)
                    ==> groups@.contains_key(listed[j].id),
            exact ==> exact_depths.len() == out@.len(),
            exact ==> forall|k: int|
                0 <= k < out@.len() ==> (#[trigger] out@[k]).children@.len() == kept_children(
                    records,
                    out@[k].id,
                    allowed,
                    include_actions,
                ).len(),
            exact ==> forall|k: int, j: int|
                0 <= k < out@.len() && 0 <= j < out@[k].children@.len() ==> view_shows(
                    #[trigger] out@[k].children@[j],
                    kept_children(records, out@[k].id, allowed, include_actions)[j],
                ),
            exact ==> forall|k: int|
                0 <= k < out@.len() ==> children_exact(
                    (#[trigger] out@[k]).children@,
                    records,
                    allowed,
                    include_actions,
                    exact_depths[k],
                ),
        decreases rev@.len(),
    {
        let ghost before = rev@;
        let rec = rev.pop().unwrap();
        proof {
            assert(before == rev@.push(rec));
            assert(before.reverse() =~= seq![rec] + rev@.reverse());
            let tail = listed.subrange(out@.len() as int, listed.len() as int);
            assert(tail == seq![rec] + rev@.reverse());
            assert(tail[0] == rec);
            assert(listed[out@.len() as int] == tail[0]);
            assert(listed.subrange(out@.len() + 1int, listed.len() as int) =~= tail.subrange(1, tail.len() as int));
            assert(tail.subrange(1, tail.len() as int) =~= rev@.reverse());
            vstd::set_lib::lemma_len_subset(groups@.dom(), old(groups)@.dom().remove(parent));
        }
        let ghost mid = groups@;
        let ghost o = out@.len() as int;
        proof {
            if exact {
                assert(listed[o] == rec);
                assert forall|p: i64, j: int| mid.contains_key(p) && 0 <= j < mid[p]@.len() implies (
                #[trigger] mid[p]@[j]).id != rec.id by {
                    assert(is_kept_record(records, allowed, include_actions, mid[p]@[j]));
                    assert(is_kept_record(records, allowed, include_actions, listed[o]));
                    let i1 = choose|i: int|
                        0 <= i < records.len() && kept(records[i], allowed, include_actions) && mid[p]@[j]
                            == #[trigger] records[i];
                    let i2 = choose|i: int|
                        0 <= i < records.len() && kept(records[i], allowed, include_actions) && listed[o]
                            == #[trigger] records[i];
                    if mid[p]@[j].id == rec.id {
                        assert(i1 == i2);
                        assert(mid[p]@[j].parent_id == p);
                    }
                }
                assert forall|p: i64| #[trigger] mid.contains_key(p) implies full.contains_key(p) && mid[p] == full[p] by {
                    assert(mid[p] == start[p]);
                }
                assert(exact_call(mid, rec.id, records, allowed, include_actions, full));
            }
        }
        let children = build_children(rec.id, groups, Ghost(records), Ghost(allowed), include_actions, Ghost(full));
        let ghost child_depth = choose|d: nat| forest_from(children@, rec.id, records, allowed, include_actions, d);
        let ghost child_exact_depth = choose|d: nat| children_exact(children@, records, allowed, include_actions, d);
        proof {
            assert forall|q: i64|
                start.contains_key(q) && !groups@.contains_key(q) implies q == parent || id_of_taken_group(
                start,
                groups@,
                q,
            ) by {
                if mid.contains_key(q) {
                    if q == rec.id {
                        assert(start[parent]@[o] == rec);
                        assert(id_of_taken_group(start, groups@, q));
                    } else {
                        assert(id_of_taken_group(mid, groups@, q));
                        let (p, j) = choose|p: i64, j: int|
                            mid.contains_key(p) && !groups@.contains_key(p) && 0 <= j < mid[p]@.len() && (
                            #[trigger] mid[p]@[j]).id == q;
                        assert(mid[p] == start[p]);
                        assert(start[p]@[j].id == q);
                    }
                } else if q != parent {
                    assert(id_of_taken_group(start, mid, q));
                    let (p, j) = choose|p: i64, j: int|
                        start.contains_key(p) && !mid.contains_key(p) && 0 <= j < start[p]@.len() && (
                        #[trigger] start[p]@[j]).id == q;
                    assert(!groups@.contains_key(p));
                    assert(start[p]@[j].id == q);
                }
            }
            if exact {
                assert forall|j: int|
                    o + 1 <= j < listed.len() && full.contains_key((#[trigger] listed[j]).id) implies groups@.contains_key(
                    listed[j].id,
                ) by {
                    assert(mid.contains_key(listed[j].id));
                    let q = listed[j].id;
                    if !groups@.contains_key(q) {
                        if q == rec.id {
                            assert(listed[j].id == listed[o].id);
                        } else {
                            assert(id_of_taken_group(mid, groups@, q));
                            let (p, i) = choose|p: i64, i: int|
                                mid.contains_key(p) && !groups@.contains_key(p) && 0 <= i < mid[p]@.len() && (
                                #[trigger] mid[p]@[i]).id == q;
                            assert(is_kept_record(records, allowed, include_actions, mid[p]@[i]));
                            assert(is_kept_record(records, allowed, include_actions, listed[j]));
                            let i1 = choose|x: int|
                                0 <= x < records.len() && kept(records[x], allowed, include_actions) && mid[p]@[i]
                                    == #[trigger] records[x];
                            let i2 = choose|x: int|
                                0 <= x < records.len() && kept(records[x], allowed, include_actions) && listed[j]
                                    == #[trigger] records[x];
                            assert(i1 == i2);
                            assert(mid[p]@[i].parent_id == p);
                        }
                    }
                }
                if mid.contains_key(rec.id) {
                    assert(mid[rec.id] == full[rec.id]);
                    assert(full[rec.id]@ == kept_children(records, rec.id, allowed, include_actions));
                } else {
                    assert(!full.contains_key(rec.id));
                    assert(kept_children(records, rec.id, allowed, include_actions).len() == 0);
                }
            }
        }
        let view = MenuView {
            id: rec.id,
            parent_id: rec.parent_id,
            path: rec.path,
            name: rec.name,
            hidden: rec.hidden,
            component: rec.component,
            sort: rec.sort,
            meta: MenuMeta {
                active_name: rec.active_name,
                keep_alive: rec.keep_alive,
                default_menu: rec.default_menu,
                title: rec.title,
                icon: rec.icon,
                close_tab: rec.close_tab,
                transition_type: rec.transition_type,
            },
            parameters: rec.parameters,
            menu_btn: rec.menu_btn,
            menu_type: rec.menu_type,
            status: rec.status,
            permission: rec.permission,
            api_bindings: rec.api_bindings,
            children,
        };
        let ghost before_out = out@;
        out.push(view);
        proof {
            depths = depths.push(child_depth);
            exact_depths = exact_depths.push(child_exact_depth);
            if exact {
                assert forall|k: int| 0 <= k < out@.len() implies (#[trigger] out@[k]).children@.len()
                    == kept_children(records, out@[k].id, allowed, include_actions).len() by {
                    if k < o {
                        assert(out@[k] == before_out[k]);
                    }
                }
                assert forall|k: int, j: int| 0 <= k < out@.len() && 0 <= j < out@[k].children@.len() implies view_shows(
                    #[trigger] out@[k].children@[j],
                    kept_children(records, out@[k].id, allowed, include_actions)[j],
                ) by {
                    if k < o {
                        assert(out@[k] == before_out[k]);
                    } else {
                        if mid.contains_key(rec.id) {
                            assert(view_shows(children@[j], mid[rec.id]@[j]));
                        }
                    }
                }
                assert forall|k: int| 0 <= k < out@.len() implies children_exact(
                    (#[trigger] out@[k]).children@,
                    records,
                    allowed,
                    include_actions,
                    exact_depths[k],
                ) by {
                    if k < o {
                        assert(out@[k] == before_out[k]);
                    }
                }
            }
        }
    }
    proof {
        lemma_forest_levels(out@, parent, records, allowed, include_actions, listed, depths);
        if exact {
            lemma_children_exact_levels(out@, records, allowed, include_actions, exact_depths);
        }
    }
    out
}

/// Views that each show a listed kept record under `parent`, each with a
/// forest below it, form a forest below `parent`.
proof fn lemma_forest_levels(
    views: Seq<MenuView>,
    parent: i64,
    records: Seq<MenuRecord>,
    allowed: Option<Seq<i64>>,
    include_actions: bool,
    listed: Seq<MenuRecord>,
    depths: Seq<nat>,
)
    requires
        views.len() == listed.len(),
        depths.len() == views.len(),
        forall|j: int| 0 <= j < listed.len() ==> (#[trigger] listed[j]).parent_id == parent,
        forall|j: int| 0 <= j < listed.len() ==> is_kept_record(records, allowed, include_actions, #[trigger] listed[j]),
        forall|k: int| 0 <= k < views.len() ==> view_shows(#[trigger] views[k], listed[k]),
        forall|k: int|
            0 <= k < views.len() ==> forest_from(
                (#[trigger] views[k]).children@,
                views[k].id,
                records,
                allowed,
                include_actions,
                depths[k],
            ),
    ensures
        exists|d: nat| forest_from(views, parent, records, allowed, include_actions, d),
{
    let d = max_depth(depths) + 1;
    assert forall|k: int| 0 <= k < views.len() implies forest_from(
        (#[trigger] views[k]).children@,
        views[k].id,
        records,
        allowed,
        include_actions,
        (d - 1) as nat,
    ) by {
        lemma_max_depth(depths, k);
        lemma_forest_deeper(views[k].children@, views[k].id, records, allowed, include_actions, depths[k], (d - 1) as nat);
    }
    assert forall|k: int| 0 <= k < views.len() implies exists|i: int|
        0 <= i < records.len() && kept(records[i], allowed, include_actions) && view_shows(
            #[trigger] views[k],
            #[trigger] records[i],
        ) by {
        assert(is_kept_record(records, allowed, include_actions, listed[k]));
        let i = choose|i: int|
            0 <= i < records.len() && kept(records[i], allowed, include_actions) && listed[k] == #[trigger] records[i];
        assert(view_shows(views[k], records[i]));
    }
    assert(forest_from(views, parent, records, allowed, include_actions, d));
}

pub open spec fn max_depth(depths: Seq<nat>) -> nat
    decreases depths.len(),
{
    if depths.len() == 0 {
        0
    } else {
        let m = max_depth(depths.drop_last());
        if depths.last() > m {
            depths.last()
        } else {
            m
        }
    }
}

proof fn lemma_max_depth(depths: Seq<nat>, k: int)
    requires
        0 <= k < depths.len(),
    ensures
        depths[k] <= max_depth(depths),
    decreases depths.len(),
{
    if k < depths.len() - 1 {
        lemma_max_depth(depths.drop_last(), k);
    }
}

/// A forest within some depth is one within any greater depth.
proof fn lemma_forest_deeper(
    views: Seq<MenuView>,
    parent: i64,
    records: Seq<MenuRecord>,
    allowed: Option<Seq<i64>>,
    include_actions: bool,
    d: nat,
    e: nat,
)
    requires
        forest_from(views, parent, records, allowed, include_actions, d),
        d <= e,
    ensures
        forest_from(views, parent, records, allowed, include_actions, e),
    decreases d,
{
    assert forall|k: int| 0 <= k < views.len() implies forest_from(
        (#[trigger] views[k]).children@,
        views[k].id,
        records,
        allowed,
        include_actions,
        (e - 1) as nat,
    ) by {
        lemma_forest_deeper(views[k].children@, views[k].id, records, allowed, include_actions, (d - 1) as nat, (e - 1) as nat);
    }
}

/// Exact sub-menus within some depth are exact within any greater depth.
proof fn lemma_children_exact_deeper(
    views: Seq<MenuView>,
    records: Seq<MenuRecord>,
    allowed: Option<Seq<i64>>,
    include_actions: bool,
    d: nat,
    e: nat,
)
    requires
        children_exact(views, records, allowed, include_actions, d),
        d <= e,
    ensures
        children_exact(views, records, allowed, include_actions, e),
    decreases d,
{
    assert forall|k: int| 0 <= k < views.len() implies children_exact(
        (#[trigger] views[k]).children@,
        records,
        allowed,
        include_actions,
        (e - 1) as nat,
    ) by {
        lemma_children_exact_deeper(views[k].children@, records, allowed, include_actions, (d - 1) as nat, (e - 1) as nat);
    }
}

/// Views each with exactly its kept sub-menus, each exact within some depth,
/// are exact within some depth together.
proof fn lemma_children_exact_levels(
    views: Seq<MenuView>,
    records: Seq<MenuRecord>,
    allowed: Option<Seq<i64>>,
    include_actions: bool,
    depths: Seq<nat>,
)
    requires
        depths.len() == views.len(),
        forall|k: int|
            0 <= k < views.len() ==> (#[trigger] views[k]).children@.len() == kept_children(
                records,
                views[k].id,
                allowed,
                include_actions,
            ).len(),
        forall|k: int, j: int|
            0 <= k < views.len() && 0 <= j < views[k].children@.len() ==> view_shows(
                #[trigger] views[k].children@[j],
                kept_children(records, views[k].id, allowed, include_actions)[j],
            ),
        forall|k: int|
            0 <= k < views.len() ==> children_exact(
                (#[trigger] views[k]).children@,
                records,
                allowed,
                include_actions,
                depths[k],
            ),
    ensures
        exists|d: nat| children_exact(views, records, allowed, include_actions, d),
{
    let d = max_depth(depths) + 1;
    assert forall|k: int| 0 <= k < views.len() implies children_exact(
        (#[trigger] views[k]).children@,
        records,
        allowed,
        include_actions,
        (d - 1) as nat,
    ) by {
        lemma_max_depth(depths, k);
        lemma_children_exact_deeper(views[k].children@, records, allowed, include_actions, depths[k], (d - 1) as nat);
    }
    assert(children_exact(views, records, allowed, include_actions, d));
}

/// Keeping some records of a list without repeated ids repeats none.
proof fn lemma_filter_distinct_ids(s: Seq<MenuRecord>, pred: spec_fn(MenuRecord) -> bool)
    requires
        distinct_ids(s),
    ensures
        distinct_ids(s.filter(pred)),
    decreases s.len(),
{
    reveal_with_fuel(Seq::filter, 1);
    if s.len() > 0 {
        let t = s.drop_last();
        assert forall|i: int, j: int|
            0 <= i < t.len() && 0 <= j < t.len() && (#[trigger] t[i]).id == (#[trigger] t[j]).id implies i == j by {
            assert(t[i] == s[i]);
            assert(t[j] == s[j]);
        }
        lemma_filter_distinct_ids(t, pred);
        let f = s.filter(pred);
        let g = t.filter(pred);
        if pred(s.last()) {
            assert(f == g.push(s.last()));
            assert forall|a: int, b: int|
                0 <= a < f.len() && 0 <= b < f.len() && (#[trigger] f[a]).id == (#[trigger] f[b]).id implies a == b by {
                if a < g.len() && b < g.len() {
                    assert(f[a] == g[a]);
                    assert(f[b] == g[b]);
                } else if a < g.len() || b < g.len() {
                    let c = if a < g.len() {
                        a
                    } else {
                        b
                    };
                    assert(f[c] == g[c]);
                    assert(g.contains(g[c]));
                    t.lemma_filter_contains_rev(pred, g[c]);
                    let i = choose|i: int| 0 <= i < t.len() && t[i] == g[c];
                    assert(s[i] == t[i]);
                    assert(f[f.len() - 1] == s[s.len() - 1]);
                }
            }
        } else {
            assert(f == g);
        }
    }
}

/// The effective permissions that the catalogue still has enabled, in the
/// order given.
pub fn current_permissions(effective: &Vec<String>, enabled: &Vec<String>) -> (r: Vec<String>)
    ensures
        r@ == effective@.filter(|s: String| crate::sets::strings_set(enabled@).contains(s@)),
{
    let ghost keep = |s: String| crate::sets::strings_set(enabled@).contains(s@);
    let mut r: Vec<String> = Vec::new();
    let mut i: usize = 0;
    while i < effective.len()
        invariant
            i <= effective@.len(),
            keep == (|s: String| crate::sets::strings_set(enabled@).contains(s@)),
            r@ == effective@.take(i as int).filter(keep),
        decreases effective@.len() - i,
    {
        proof {
            assert(effective@.take(i + 1).drop_last() =~= effective@.take(i as int));
            assert(effective@.take(i + 1).last() == effective@[i as int]);
            reveal_with_fuel(Seq::filter, 1);
        }
        if contains_string(enabled, effective[i].as_str()) {
            r.push(effective[i].clone());
        }
        i += 1;
    }
    assert(effective@.take(effective@.len() as int) =~= effective@);
    r
}

} // verus!
