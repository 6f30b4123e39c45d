//! What grouping saves.
//!
//! A group lays a structure out once however many of its events use it,
//! so the events of a group never take more room together than each
//! would laid out on its own. The proof follows two tables of laid-out
//! structures side by side: the group's, and the one an event alone
//! would keep.
use vstd::prelude::*;

use crate::laws::law_same_fields_is_an_equivalence;
use crate::abi::{DESC_SIZE, FIELD_SIZE, STRUCT_TYPE_SIZE};
use crate::measure::{
    attrs_size_spec, event_size_spec, events_size_spec, str_size, type_size_spec, type_table, field_items_size_spec, field_size_spec,
    fields_size_spec, group_size_spec, layout_size_spec,
};
use crate::model::{EventSpec, Field, Layout};
use crate::shape::{field_same, fields_same, lemma_fields_same_pointwise, layout_same};
use crate::shared::{find_slot, lemma_find_slot, slot_matches, Slot};

verus! {

broadcast use vstd::std_specs::vec::group_vec_axioms, vstd::seq::group_seq_axioms;

/// A structure of this shape is in the table.
pub open spec fn found(t: Seq<Slot>, fields: Seq<Field>, size: u32) -> bool {
    find_slot(t, fields, size) is Some
}

/// Every structure a shape names itself, through arrays and vectors, is
/// in the table.
pub open spec fn reach_found(l: Layout, t: Seq<Slot>) -> bool
    decreases l,
{
    match l {
        Layout::GatherStruct { size, fields, .. } => found(t, fields@, size),
        Layout::GatherArray { elem, .. } => reach_found(*elem, t),
        Layout::GatherVla { elem, .. } => reach_found(*elem, t),
        _ => true,
    }
}

/// Every structure the fields of a list name are in the table.
pub open spec fn fields_found(fs: Seq<Field>, t: Seq<Slot>) -> bool {
    forall|j: int| 0 <= j < fs.len() ==> reach_found(#[trigger] fs[j].layout, t)
}

/// `u` is `t` with more slots after it.
pub open spec fn extends(t: Seq<Slot>, u: Seq<Slot>) -> bool {
    t.len() <= u.len() && u.subrange(0, t.len() as int) == t
}

/// Whatever `e` holds, `t` holds.
pub open spec fn covers(t: Seq<Slot>, e: Seq<Slot>) -> bool {
    forall|f: Seq<Field>, s: u32| #[trigger] found(e, f, s) ==> found(t, f, s)
}

/// Every structure of `t` which `e` does not hold has the structures it
/// names in `t`.
pub open spec fn closed_beyond(t: Seq<Slot>, e: Seq<Slot>) -> bool {
    forall|i: int|
        0 <= i < t.len() && !found(e, t[i].fields, t[i].size) ==> fields_found(
            #[trigger] t[i].fields,
            t,
        )
}

/// Every structure of `t` has the structures it names in `t`.
pub open spec fn closed(t: Seq<Slot>) -> bool {
    forall|i: int| 0 <= i < t.len() ==> fields_found(#[trigger] t[i].fields, t)
}

/// The group's table `t` may stand for an event's own table `e`.
pub open spec fn ahead(t: Seq<Slot>, e: Seq<Slot>) -> bool {
    covers(t, e) && closed_beyond(t, e)
}

/// A table holds a structure exactly when one of its slots matches it.
proof fn lemma_found(t: Seq<Slot>, fields: Seq<Field>, size: u32, i: int)
    requires
        0 <= i < t.len(),
        slot_matches(t[i], fields, size),
    ensures
        found(t, fields, size),
{
    lemma_find_slot(t, fields, size);
}

/// Structures which describe the same way are held or not together.
proof fn lemma_found_same(t: Seq<Slot>, a: Seq<Field>, b: Seq<Field>, size: u32)
    requires
        fields_same(a, b),
    ensures
        found(t, a, size) == found(t, b, size),
{
    lemma_find_slot(t, a, size);
    lemma_find_slot(t, b, size);
    if found(t, a, size) {
        let i = find_slot(t, a, size).unwrap();
        law_same_fields_is_an_equivalence(t[i].fields, a, b);
        lemma_found(t, b, size, i);
    }
    if found(t, b, size) {
        let i = find_slot(t, b, size).unwrap();
        law_same_fields_is_an_equivalence(a, b, b);
        law_same_fields_is_an_equivalence(t[i].fields, b, a);
        lemma_found(t, a, size, i);
    }
}

/// What a table holds, every table which extends it holds.
proof fn lemma_found_extends(t: Seq<Slot>, u: Seq<Slot>, fields: Seq<Field>, size: u32)
    requires
        extends(t, u),
        found(t, fields, size),
    ensures
        found(u, fields, size),
{
    lemma_find_slot(t, fields, size);
    let i = find_slot(t, fields, size).unwrap();
    assert(u[i] == u.subrange(0, t.len() as int)[i]);
    lemma_found(u, fields, size, i);
}

proof fn lemma_reach_found_extends(l: Layout, t: Seq<Slot>, u: Seq<Slot>)
    requires
        extends(t, u),
        reach_found(l, t),
    ensures
        reach_found(l, u),
    decreases l,
{
    match l {
        Layout::GatherStruct { size, fields, .. } => lemma_found_extends(t, u, fields@, size),
        Layout::GatherArray { elem, .. } => lemma_reach_found_extends(*elem, t, u),
        Layout::GatherVla { elem, .. } => lemma_reach_found_extends(*elem, t, u),
        _ => {},
    }
}

proof fn lemma_fields_found_extends(fs: Seq<Field>, t: Seq<Slot>, u: Seq<Slot>)
    requires
        extends(t, u),
        fields_found(fs, t),
    ensures
        fields_found(fs, u),
{
    assert forall|j: int| 0 <= j < fs.len() implies reach_found(#[trigger] fs[j].layout, u) by {
        lemma_reach_found_extends(fs[j].layout, t, u);
    }
}

proof fn lemma_extends_trans(a: Seq<Slot>, b: Seq<Slot>, c: Seq<Slot>)
    requires
        extends(a, b),
        extends(b, c),
    ensures
        extends(a, c),
{
    assert(c.subrange(0, a.len() as int) =~= c.subrange(0, b.len() as int).subrange(0, a.len() as int));
}

/// Shapes which describe the same way name the same structures.
proof fn lemma_reach_found_same(a: Layout, b: Layout, t: Seq<Slot>)
    requires
        layout_same(a, b),
    ensures
        reach_found(a, t) == reach_found(b, t),
    decreases a,
{
    match a {
        Layout::GatherStruct { size, fields, .. } => match b {
            Layout::GatherStruct { fields: bf, .. } => lemma_found_same(t, fields@, bf@, size),
            _ => {},
        },
        Layout::GatherArray { elem, .. } => match b {
            Layout::GatherArray { elem: be, .. } => lemma_reach_found_same(*elem, *be, t),
            _ => {},
        },
        Layout::GatherVla { elem, .. } => match b {
            Layout::GatherVla { elem: be, .. } => lemma_reach_found_same(*elem, *be, t),
            _ => {},
        },
        _ => {},
    }
}

proof fn lemma_fields_found_same(a: Seq<Field>, b: Seq<Field>, t: Seq<Slot>)
    requires
        fields_same(a, b),
        fields_found(a, t),
    ensures
        fields_found(b, t),
{
    lemma_fields_same_pointwise(a, b);
    assert forall|j: int| 0 <= j < b.len() implies reach_found(#[trigger] b[j].layout, t) by {
        assert(field_same(a[j], b[j]));
        assert(reach_found(a[j].layout, t));
        lemma_reach_found_same(a[j].layout, b[j].layout, t);
    }
}

/* Measuring only adds to the table, and adds what it measured. */

pub proof fn lemma_layout_extends(l: Layout, t: Seq<Slot>)
    ensures
        extends(t, layout_size_spec(l, t).1),
        reach_found(l, layout_size_spec(l, t).1),
    decreases l, 0nat,
{
    match l {
        Layout::GatherStruct { size, fields, .. } => {
            if find_slot(t, fields@, size) is None {
                let t1 = t.push(Slot { fields: fields@, size, offset: 0 });
                lemma_fields_extends(fields@, t1);
                let u = fields_size_spec(fields@, t1).1;
                assert(t1.subrange(0, t.len() as int) =~= t);
                lemma_extends_trans(t, t1, u);
                law_same_fields_is_an_equivalence(fields@, fields@, fields@);
                lemma_found(t1, fields@, size, t.len() as int);
                lemma_found_extends(t1, u, fields@, size);
            } else {
                assert(t.subrange(0, t.len() as int) =~= t);
            }
        },
        Layout::GatherArray { elem, .. } => lemma_layout_extends(*elem, t),
        Layout::GatherVla { elem, .. } => lemma_layout_extends(*elem, t),
        _ => {
            assert(t.subrange(0, t.len() as int) =~= t);
        },
    }
}

pub proof fn lemma_field_extends(f: Field, t: Seq<Slot>)
    ensures
        extends(t, field_size_spec(f, t).1),
        reach_found(f.layout, field_size_spec(f, t).1),
    decreases f, 0nat,
{
    lemma_layout_extends(f.layout, t);
}

pub proof fn lemma_field_items_extends(fs: Seq<Field>, t: Seq<Slot>)
    ensures
        extends(t, field_items_size_spec(fs, t).1),
        fields_found(fs, field_items_size_spec(fs, t).1),
    decreases fs, 0nat,
{
    if fs.len() == 0 {
        assert(t.subrange(0, t.len() as int) =~= t);
    } else {
        lemma_field_items_extends(fs.drop_last(), t);
        let a = field_items_size_spec(fs.drop_last(), t).1;
        lemma_field_extends(fs.last(), a);
        let u = field_size_spec(fs.last(), a).1;
        lemma_extends_trans(t, a, u);
        lemma_fields_found_extends(fs.drop_last(), a, u);
        assert forall|j: int| 0 <= j < fs.len() implies reach_found(#[trigger] fs[j].layout, u) by {
            if j < fs.len() - 1 {
                assert(fs.drop_last()[j] == fs[j]);
            }
        }
    }
}

pub proof fn lemma_fields_extends(fs: Seq<Field>, t: Seq<Slot>)
    ensures
        extends(t, fields_size_spec(fs, t).1),
        fields_found(fs, fields_size_spec(fs, t).1),
    decreases fs, 1nat,
{
    lemma_field_items_extends(fs, t);
}

/* What measuring adds names only what is in the table by the end. */

/// Each slot of `u` beyond `t` has the structures it names in `u`.
pub open spec fn added_closed(t: Seq<Slot>, u: Seq<Slot>) -> bool {
    forall|i: int| t.len() <= i < u.len() ==> fields_found(#[trigger] u[i].fields, u)
}

proof fn lemma_added_closed_trans(t: Seq<Slot>, a: Seq<Slot>, u: Seq<Slot>)
    requires
        extends(t, a),
        extends(a, u),
        added_closed(t, a),
        added_closed(a, u),
    ensures
        added_closed(t, u),
{
    assert forall|i: int| t.len() <= i < u.len() implies fields_found(#[trigger] u[i].fields, u) by {
        if i < a.len() {
            assert(u[i] == u.subrange(0, a.len() as int)[i]);
            lemma_fields_found_extends(a[i].fields, a, u);
        }
    }
}

pub proof fn lemma_layout_closes(l: Layout, t: Seq<Slot>)
    ensures
        added_closed(t, layout_size_spec(l, t).1),
    decreases l, 0nat,
{
    match l {
        Layout::GatherStruct { size, fields, .. } => {
            if find_slot(t, fields@, size) is None {
                let k = Slot { fields: fields@, size, offset: 0 };
                let t1 = t.push(k);
                lemma_fields_closes(fields@, t1);
                lemma_fields_extends(fields@, t1);
                let u = fields_size_spec(fields@, t1).1;
                assert forall|i: int| t.len() <= i < u.len() implies fields_found(
                    #[trigger] u[i].fields,
                    u,
                ) by {
                    if i == t.len() {
                        assert(u[i] == u.subrange(0, t1.len() as int)[i]);
                    }
                }
            }
        },
        Layout::GatherArray { elem, .. } => lemma_layout_closes(*elem, t),
        Layout::GatherVla { elem, .. } => lemma_layout_closes(*elem, t),
        _ => {},
    }
}

pub proof fn lemma_field_closes(f: Field, t: Seq<Slot>)
    ensures
        added_closed(t, field_size_spec(f, t).1),
    decreases f, 0nat,
{
    lemma_layout_closes(f.layout, t);
}

pub proof fn lemma_field_items_closes(fs: Seq<Field>, t: Seq<Slot>)
    ensures
        added_closed(t, field_items_size_spec(fs, t).1),
    decreases fs, 0nat,
{
    if fs.len() > 0 {
        lemma_field_items_closes(fs.drop_last(), t);
        lemma_field_items_extends(fs.drop_last(), t);
        let a = field_items_size_spec(fs.drop_last(), t).1;
        lemma_field_closes(fs.last(), a);
        lemma_field_extends(fs.last(), a);
        lemma_added_closed_trans(t, a, field_size_spec(fs.last(), a).1);
    }
}

pub proof fn lemma_fields_closes(fs: Seq<Field>, t: Seq<Slot>)
    ensures
        added_closed(t, fields_size_spec(fs, t).1),
    decreases fs, 1nat,
{
    lemma_field_items_closes(fs, t);
}

/// A closed table stays closed however much more is measured into it.
proof fn lemma_closed_grows(t: Seq<Slot>, u: Seq<Slot>)
    requires
        closed(t),
        extends(t, u),
        added_closed(t, u),
    ensures
        closed(u),
{
    assert forall|i: int| 0 <= i < u.len() implies fields_found(#[trigger] u[i].fields, u) by {
        if i < t.len() {
            assert(u[i] == u.subrange(0, t.len() as int)[i]);
            assert(fields_found(t[i].fields, t));
            lemma_fields_found_extends(t[i].fields, t, u);
        }
    }
}

/// The table a group has laid out is closed: every structure in it has
/// the structures it names in it too.
pub proof fn lemma_events_closed(es: Seq<EventSpec>)
    ensures
        closed(events_size_spec(es).1),
    decreases es.len(),
{
    if es.len() > 0 {
        lemma_events_closed(es.drop_last());
        let t = events_size_spec(es.drop_last()).1;
        lemma_fields_closes(es.last().fields@, t);
        lemma_fields_extends(es.last().fields@, t);
        lemma_closed_grows(t, fields_size_spec(es.last().fields@, t).1);
    }
}

/* An event alone lays out nothing the group has not. */

/// What a table one more slot long holds: what it held, and what the
/// new slot matches.
proof fn lemma_found_push(e: Seq<Slot>, k: Slot, f: Seq<Field>, s: u32)
    requires
        found(e.push(k), f, s),
    ensures
        found(e, f, s) || slot_matches(k, f, s),
{
    let e1 = e.push(k);
    lemma_find_slot(e1, f, s);
    let i = find_slot(e1, f, s).unwrap();
    if i < e.len() {
        assert(e1[i] == e[i]);
        lemma_found(e, f, s, i);
    }
}

proof fn lemma_push_extends(e: Seq<Slot>, k: Slot)
    ensures
        extends(e, e.push(k)),
{
    assert(e.push(k).subrange(0, e.len() as int) =~= e);
}

/// Where the group holds a structure the event does not, the event
/// measuring it adds only structures the group holds.
pub proof fn lemma_layout_absorbs(l: Layout, t: Seq<Slot>, e: Seq<Slot>)
    requires
        ahead(t, e),
        reach_found(l, t),
    ensures
        ahead(t, layout_size_spec(l, e).1),
    decreases l, 0nat,
{
    match l {
        Layout::GatherStruct { size, fields, .. } => {
            if find_slot(e, fields@, size) is None {
                let k = Slot { fields: fields@, size, offset: 0 };
                let e1 = e.push(k);
                lemma_push_extends(e, k);
                assert forall|f: Seq<Field>, s: u32| #[trigger] found(e1, f, s) implies found(
                    t,
                    f,
                    s,
                ) by {
                    lemma_found_push(e, k, f, s);
                    if !found(e, f, s) {
                        lemma_found_same(t, fields@, f, size);
                    }
                }
                assert forall|i: int|
                    0 <= i < t.len() && !found(e1, t[i].fields, t[i].size) implies fields_found(
                    #[trigger] t[i].fields,
                    t,
                ) by {
                    if found(e, t[i].fields, t[i].size) {
                        lemma_found_extends(e, e1, t[i].fields, t[i].size);
                    }
                }
                lemma_find_slot(t, fields@, size);
                let j = find_slot(t, fields@, size).unwrap();
                if found(e, t[j].fields, t[j].size) {
                    lemma_found_same(e, t[j].fields, fields@, size);
                }
                lemma_fields_found_same(t[j].fields, fields@, t);
                lemma_fields_absorbs(fields@, t, e1);
            }
        },
        Layout::GatherArray { elem, .. } => lemma_layout_absorbs(*elem, t, e),
        Layout::GatherVla { elem, .. } => lemma_layout_absorbs(*elem, t, e),
        _ => {},
    }
}

pub proof fn lemma_field_absorbs(f: Field, t: Seq<Slot>, e: Seq<Slot>)
    requires
        ahead(t, e),
        reach_found(f.layout, t),
    ensures
        ahead(t, field_size_spec(f, e).1),
    decreases f, 0nat,
{
    lemma_layout_absorbs(f.layout, t, e);
}

pub proof fn lemma_field_items_absorbs(fs: Seq<Field>, t: Seq<Slot>, e: Seq<Slot>)
    requires
        ahead(t, e),
        fields_found(fs, t),
    ensures
        ahead(t, field_items_size_spec(fs, e).1),
    decreases fs, 0nat,
{
    if fs.len() > 0 {
        assert forall|j: int| 0 <= j < fs.drop_last().len() implies reach_found(
            #[trigger] fs.drop_last()[j].layout,
            t,
        ) by {
            assert(fs.drop_last()[j] == fs[j]);
        }
        lemma_field_items_absorbs(fs.drop_last(), t, e);
        assert(reach_found(fs[fs.len() - 1].layout, t));
        lemma_field_absorbs(fs.last(), t, field_items_size_spec(fs.drop_last(), e).1);
    }
}

pub proof fn lemma_fields_absorbs(fs: Seq<Field>, t: Seq<Slot>, e: Seq<Slot>)
    requires
        ahead(t, e),
        fields_found(fs, t),
    ensures
        ahead(t, fields_size_spec(fs, e).1),
    decreases fs, 1nat,
{
    lemma_field_items_absorbs(fs, t, e);
}


/// A structure neither table holds, laid out by both, leaves the group's
/// table still ahead of the event's.
proof fn lemma_ahead_push(t: Seq<Slot>, e: Seq<Slot>, k: Slot)
    requires
        ahead(t, e),
        !found(t, k.fields, k.size),
    ensures
        ahead(t.push(k), e.push(k)),
{
    let t1 = t.push(k);
    let e1 = e.push(k);
    lemma_push_extends(t, k);
    lemma_push_extends(e, k);
    law_same_fields_is_an_equivalence(k.fields, k.fields, k.fields);
    assert forall|f: Seq<Field>, s: u32| #[trigger] found(e1, f, s) implies found(t1, f, s) by {
        lemma_found_push(e, k, f, s);
        if found(e, f, s) {
            lemma_found_extends(t, t1, f, s);
        } else {
            lemma_found(t1, f, s, t.len() as int);
        }
    }
    lemma_found(e1, k.fields, k.size, e.len() as int);
    assert forall|i: int|
        0 <= i < t1.len() && !found(e1, t1[i].fields, t1[i].size) implies fields_found(
        #[trigger] t1[i].fields,
        t1,
    ) by {
        if i < t.len() {
            assert(t1[i] == t[i]);
            if found(e, t[i].fields, t[i].size) {
                lemma_found_extends(e, e1, t[i].fields, t[i].size);
            }
            lemma_fields_found_extends(t[i].fields, t, t1);
        }
    }
}

/// Measured from the group's table, a shape takes no more room than
/// from the event's own, and the tables stay so.
pub proof fn lemma_layout_saves(l: Layout, t: Seq<Slot>, e: Seq<Slot>)
    requires
        ahead(t, e),
    ensures
        layout_size_spec(l, t).0 <= layout_size_spec(l, e).0,
        ahead(layout_size_spec(l, t).1, layout_size_spec(l, e).1),
    decreases l, 0nat,
{
    crate::measure::lemma_layout_size_grows(l, e);
    match l {
        Layout::GatherStruct { size, fields, .. } => {
            if find_slot(t, fields@, size) is Some {
                if find_slot(e, fields@, size) is None {
                    lemma_layout_absorbs(l, t, e);
                }
            } else {
                assert(!found(e, fields@, size));
                let k = Slot { fields: fields@, size, offset: 0 };
                let t1 = t.push(k);
                let e1 = e.push(k);
                lemma_ahead_push(t, e, k);
                lemma_fields_saves(fields@, t1, e1);
            }
        },
        Layout::GatherArray { elem, .. } => lemma_layout_saves(*elem, t, e),
        Layout::GatherVla { elem, .. } => lemma_layout_saves(*elem, t, e),
        _ => {},
    }
}

pub proof fn lemma_field_saves(f: Field, t: Seq<Slot>, e: Seq<Slot>)
    requires
        ahead(t, e),
    ensures
        field_size_spec(f, t).0 <= field_size_spec(f, e).0,
        ahead(field_size_spec(f, t).1, field_size_spec(f, e).1),
    decreases f, 0nat,
{
    lemma_layout_saves(f.layout, t, e);
}

pub proof fn lemma_field_items_saves(fs: Seq<Field>, t: Seq<Slot>, e: Seq<Slot>)
    requires
        ahead(t, e),
    ensures
        field_items_size_spec(fs, t).0 <= field_items_size_spec(fs, e).0,
        ahead(field_items_size_spec(fs, t).1, field_items_size_spec(fs, e).1),
    decreases fs, 0nat,
{
    if fs.len() > 0 {
        lemma_field_items_saves(fs.drop_last(), t, e);
        lemma_field_saves(
            fs.last(),
            field_items_size_spec(fs.drop_last(), t).1,
            field_items_size_spec(fs.drop_last(), e).1,
        );
    }
}

pub proof fn lemma_fields_saves(fs: Seq<Field>, t: Seq<Slot>, e: Seq<Slot>)
    requires
        ahead(t, e),
    ensures
        fields_size_spec(fs, t).0 <= fields_size_spec(fs, e).0,
        ahead(fields_size_spec(fs, t).1, fields_size_spec(fs, e).1),
    decreases fs, 1nat,
{
    lemma_field_items_saves(fs, t, e);
}

/// How many bytes the events of `es` take laid out each on its own.
pub open spec fn sizes_alone(es: Seq<EventSpec>) -> int
    decreases es.len(),
{
    if es.len() == 0 {
        0
    } else {
        sizes_alone(es.drop_last()) + group_size_spec(seq![es.last()])
    }
}

/// The events of a group never take more room laid out together than
/// they take laid out each on its own: a structure two of them describe
/// the same way is laid out once, where each alone would lay it out
/// again.
pub proof fn law_grouping_saves(es: Seq<EventSpec>)
    ensures
        group_size_spec(es) <= sizes_alone(es),
    decreases es.len(),
{
    if es.len() > 0 {
        law_grouping_saves(es.drop_last());
        let t = events_size_spec(es.drop_last()).1;
        lemma_events_closed(es.drop_last());
        let empty = Seq::<Slot>::empty();
        assert forall|f: Seq<Field>, s: u32| #[trigger] found(empty, f, s) implies found(t, f, s) by {
            lemma_find_slot(empty, f, s);
        }
        lemma_fields_saves(es.last().fields@, t, empty);
        let one = seq![es.last()];
        assert(one.drop_last() =~= Seq::<EventSpec>::empty());
        assert(one.last() == es.last());
        assert(events_size_spec(Seq::<EventSpec>::empty()) == (0int, empty));
        assert(events_size_spec(one).0 == event_size_spec(es.last(), empty).0);
        assert(closed_beyond(t, empty));
        assert(event_size_spec(es.last(), t).0 <= event_size_spec(es.last(), empty).0);
        assert(group_size_spec(es) == group_size_spec(es.drop_last()) + event_size_spec(
            es.last(),
            t,
        ).0);
    }
}

/* Where nothing is shared. */

/// A shape names no gathered structure, through arrays and vectors.
pub open spec fn no_structs(l: Layout) -> bool
    decreases l,
{
    match l {
        Layout::GatherStruct { .. } => false,
        Layout::GatherArray { elem, .. } => no_structs(*elem),
        Layout::GatherVla { elem, .. } => no_structs(*elem),
        _ => true,
    }
}

/// No field of a list names a gathered structure.
pub open spec fn fields_no_structs(fs: Seq<Field>) -> bool {
    forall|j: int| 0 <= j < fs.len() ==> no_structs(#[trigger] fs[j].layout)
}

/// A shape which names no structure takes the same room from any table
/// and adds nothing to it.
proof fn lemma_layout_no_structs(l: Layout, t: Seq<Slot>, u: Seq<Slot>)
    requires
        no_structs(l),
    ensures
        layout_size_spec(l, t).1 == t,
        layout_size_spec(l, t).0 == layout_size_spec(l, u).0,
    decreases l,
{
    match l {
        Layout::GatherArray { elem, .. } => lemma_layout_no_structs(*elem, t, u),
        Layout::GatherVla { elem, .. } => lemma_layout_no_structs(*elem, t, u),
        _ => {},
    }
}

proof fn lemma_field_items_no_structs(fs: Seq<Field>, t: Seq<Slot>, u: Seq<Slot>)
    requires
        fields_no_structs(fs),
    ensures
        field_items_size_spec(fs, t).1 == t,
        field_items_size_spec(fs, t).0 == field_items_size_spec(fs, u).0,
    decreases fs.len(),
{
    if fs.len() > 0 {
        assert forall|j: int| 0 <= j < fs.drop_last().len() implies no_structs(
            #[trigger] fs.drop_last()[j].layout,
        ) by {
            assert(fs.drop_last()[j] == fs[j]);
        }
        lemma_field_items_no_structs(fs.drop_last(), t, u);
        lemma_field_items_no_structs(fs.drop_last(), u, t);
        assert(no_structs(fs[fs.len() - 1].layout));
        lemma_layout_no_structs(fs.last().layout, t, u);
        lemma_layout_no_structs(fs.last().layout, u, t);
        assert(field_size_spec(fs.last(), t).1 == t);
        assert(field_size_spec(fs.last(), t).0 == field_size_spec(fs.last(), u).0);
        assert(field_items_size_spec(fs, t) == (
            field_items_size_spec(fs.drop_last(), t).0 + field_size_spec(fs.last(), t).0,
            field_size_spec(fs.last(), t).1,
        ));
        assert(field_items_size_spec(fs, u) == (
            field_items_size_spec(fs.drop_last(), u).0 + field_size_spec(fs.last(), u).0,
            field_size_spec(fs.last(), u).1,
        ));
    }
}

/// Where no field of any event names a gathered structure, a group takes
/// exactly the room its events take each on its own: grouping shares the
/// descriptions of structures, and nothing else.
pub proof fn law_grouping_without_structures(es: Seq<EventSpec>)
    requires
        forall|i: int| 0 <= i < es.len() ==> fields_no_structs(#[trigger] es[i].fields@),
    ensures
        group_size_spec(es) == sizes_alone(es),
        events_size_spec(es).1 == Seq::<Slot>::empty(),
    decreases es.len(),
{
    if es.len() > 0 {
        assert forall|i: int| 0 <= i < es.drop_last().len() implies fields_no_structs(
            #[trigger] es.drop_last()[i].fields@,
        ) by {
            assert(es.drop_last()[i] == es[i]);
        }
        law_grouping_without_structures(es.drop_last());
        let empty = Seq::<Slot>::empty();
        assert(fields_no_structs(es[es.len() - 1].fields@));
        lemma_field_items_no_structs(es.last().fields@, empty, empty);
        let one = seq![es.last()];
        assert(one.drop_last() =~= Seq::<EventSpec>::empty());
        assert(one.last() == es.last());
        assert(events_size_spec(Seq::<EventSpec>::empty()) == (0int, empty));
        assert(events_size_spec(one).0 == event_size_spec(es.last(), empty).0);
    }
}

/// A structure described on its own takes the bytes it takes where an
/// event with it as its one field lays it out: an event of one gathered
/// structure, with no attributes, takes its description, its two names,
/// one field entry, the field's name, and the structure on its own.
pub proof fn law_type_size_in_an_event(e: EventSpec)
    requires
        e.attributes@.len() == 0,
        e.fields@.len() == 1,
        e.fields@[0].attributes@.len() == 0,
        e.fields@[0].layout is GatherStruct,
    ensures
        group_size_spec(seq![e]) == DESC_SIZE + str_size(e.provider) + str_size(e.event) + FIELD_SIZE
            + str_size(e.fields@[0].name) + type_size_spec(
            e.fields@[0].layout->fields@,
            e.fields@[0].layout->GatherStruct_size,
        ),
{
    let one = seq![e];
    let empty = Seq::<Slot>::empty();
    assert(one.drop_last() =~= Seq::<EventSpec>::empty());
    assert(one.last() == e);
    assert(events_size_spec(Seq::<EventSpec>::empty()) == (0int, empty));
    let f = e.fields@[0];
    let fields = f.layout->fields@;
    let size = f.layout->GatherStruct_size;
    assert(e.fields@.drop_last() =~= Seq::<Field>::empty());
    assert(e.fields@.last() == f);
    assert(field_items_size_spec(Seq::<Field>::empty(), empty) == (0int, empty));
    assert(find_slot(empty, fields, size) is None);
    assert(empty.push(Slot { fields, size, offset: 0 }) =~= type_table(fields, size));
    assert(attrs_size_spec(e.attributes@) == 0);
    assert(attrs_size_spec(f.attributes@) == 0);
}

/* Where two events share a structure. */

/// Where the group holds a structure `(kf, ks)` the event alone does not
/// and measuring a shape brings it into the event's table, the group
/// measures that shape in strictly less room: it lays the structure out
/// no more, where the event alone lays it out.
pub proof fn lemma_layout_saves_strictly(l: Layout, t: Seq<Slot>, e: Seq<Slot>, kf: Seq<Field>, ks: u32)
    requires
        ahead(t, e),
        found(t, kf, ks),
        !found(e, kf, ks),
        found(layout_size_spec(l, e).1, kf, ks),
    ensures
        layout_size_spec(l, t).0 < layout_size_spec(l, e).0,
    decreases l, 0nat,
{
    match l {
        Layout::GatherStruct { size, fields, .. } => {
            if find_slot(t, fields@, size) is Some {
                let k = Slot { fields: fields@, size, offset: 0 };
                crate::measure::lemma_fields_size_grows(fields@, e.push(k));
            } else {
                assert(!found(e, fields@, size));
                if size == ks && fields_same(fields@, kf) {
                    lemma_found_same(t, fields@, kf, size);
                }
                let k = Slot { fields: fields@, size, offset: 0 };
                let t1 = t.push(k);
                let e1 = e.push(k);
                lemma_ahead_push(t, e, k);
                lemma_push_extends(t, k);
                lemma_found_extends(t, t1, kf, ks);
                if found(e1, kf, ks) {
                    lemma_found_push(e, k, kf, ks);
                }
                lemma_fields_saves_strictly(fields@, t1, e1, kf, ks);
            }
        },
        Layout::GatherArray { elem, .. } => lemma_layout_saves_strictly(*elem, t, e, kf, ks),
        Layout::GatherVla { elem, .. } => lemma_layout_saves_strictly(*elem, t, e, kf, ks),
        _ => {},
    }
}

pub proof fn lemma_field_saves_strictly(f: Field, t: Seq<Slot>, e: Seq<Slot>, kf: Seq<Field>, ks: u32)
    requires
        ahead(t, e),
        found(t, kf, ks),
        !found(e, kf, ks),
        found(field_size_spec(f, e).1, kf, ks),
    ensures
        field_size_spec(f, t).0 < field_size_spec(f, e).0,
    decreases f, 0nat,
{
    lemma_layout_saves_strictly(f.layout, t, e, kf, ks);
}

pub proof fn lemma_field_items_saves_strictly(
    fs: Seq<Field>,
    t: Seq<Slot>,
    e: Seq<Slot>,
    kf: Seq<Field>,
    ks: u32,
)
    requires
        ahead(t, e),
        found(t, kf, ks),
        !found(e, kf, ks),
        found(field_items_size_spec(fs, e).1, kf, ks),
    ensures
        field_items_size_spec(fs, t).0 < field_items_size_spec(fs, e).0,
    decreases fs, 0nat,
{
    if fs.len() > 0 {
        let pre = fs.drop_last();
        let at = field_items_size_spec(pre, t);
        let ae = field_items_size_spec(pre, e);
        lemma_field_items_saves(pre, t, e);
        if found(ae.1, kf, ks) {
            lemma_field_items_saves_strictly(pre, t, e, kf, ks);
            lemma_field_saves(fs.last(), at.1, ae.1);
        } else {
            lemma_field_items_extends(pre, t);
            lemma_found_extends(t, at.1, kf, ks);
            lemma_field_saves_strictly(fs.last(), at.1, ae.1, kf, ks);
        }
    }
}

pub proof fn lemma_fields_saves_strictly(fs: Seq<Field>, t: Seq<Slot>, e: Seq<Slot>, kf: Seq<Field>, ks: u32)
    requires
        ahead(t, e),
        found(t, kf, ks),
        !found(e, kf, ks),
        found(fields_size_spec(fs, e).1, kf, ks),
    ensures
        fields_size_spec(fs, t).0 < fields_size_spec(fs, e).0,
    decreases fs, 1nat,
{
    lemma_field_items_saves_strictly(fs, t, e, kf, ks);
}

/// The structures an event's fields name are in the group's table once
/// that event is measured, and stay there.
proof fn lemma_event_fields_held(es: Seq<EventSpec>, i: int, m: int)
    requires
        0 <= i < m <= es.len(),
    ensures
        fields_found(es[i].fields@, events_size_spec(es.take(m)).1),
    decreases m,
{
    let tm = es.take(m);
    assert(tm.drop_last() =~= es.take(m - 1));
    assert(tm.last() == es[m - 1]);
    let prev = events_size_spec(es.take(m - 1)).1;
    lemma_fields_extends(es[m - 1].fields@, prev);
    if i < m - 1 {
        lemma_event_fields_held(es, i, m - 1);
        lemma_fields_found_extends(es[i].fields@, prev, fields_size_spec(es[m - 1].fields@, prev).1);
    }
}

/// What one more event adds to a group, against what it takes alone.
proof fn lemma_last_event(es: Seq<EventSpec>)
    requires
        es.len() > 0,
    ensures
        group_size_spec(es) == group_size_spec(es.drop_last()) + event_size_spec(
            es.last(),
            events_size_spec(es.drop_last()).1,
        ).0,
        group_size_spec(seq![es.last()]) == event_size_spec(es.last(), Seq::<Slot>::empty()).0,
        ahead(events_size_spec(es.drop_last()).1, Seq::<Slot>::empty()),
        event_size_spec(es.last(), events_size_spec(es.drop_last()).1).0 <= event_size_spec(
            es.last(),
            Seq::<Slot>::empty(),
        ).0,
{
    let t = events_size_spec(es.drop_last()).1;
    lemma_events_closed(es.drop_last());
    let empty = Seq::<Slot>::empty();
    assert forall|f: Seq<Field>, s: u32| #[trigger] found(empty, f, s) implies found(t, f, s) by {
        lemma_find_slot(empty, f, s);
    }
    assert(closed_beyond(t, empty));
    lemma_fields_saves(es.last().fields@, t, empty);
    let one = seq![es.last()];
    assert(one.drop_last() =~= Seq::<EventSpec>::empty());
    assert(one.last() == es.last());
    assert(events_size_spec(Seq::<EventSpec>::empty()) == (0int, empty));
}

/// A shape reaches a gathered structure of the shape `(kf, ks)`: it is
/// one, or one of its members, the element of an array or a vector, or
/// a member of a structure it reaches further down, is.
pub open spec fn reaches(l: Layout, kf: Seq<Field>, ks: u32) -> bool
    decreases l,
{
    match l {
        Layout::GatherStruct { size, fields, .. } => (size == ks && fields_same(fields@, kf))
            || fields_reach(fields@, kf, ks),
        Layout::GatherArray { elem, .. } => reaches(*elem, kf, ks),
        Layout::GatherVla { elem, .. } => reaches(*elem, kf, ks),
        _ => false,
    }
}

/// Some field of a list reaches a gathered structure of the shape
/// `(kf, ks)`.
pub open spec fn fields_reach(fs: Seq<Field>, kf: Seq<Field>, ks: u32) -> bool
    decreases fs,
{
    if fs.len() == 0 {
        false
    } else {
        fields_reach(fs.drop_last(), kf, ks) || reaches(fs.last().layout, kf, ks)
    }
}

/// In a closed table, every structure a held shape reaches is held too.
proof fn lemma_reached_found(l: Layout, t: Seq<Slot>, kf: Seq<Field>, ks: u32)
    requires
        closed(t),
        reach_found(l, t),
        reaches(l, kf, ks),
    ensures
        found(t, kf, ks),
    decreases l,
{
    match l {
        Layout::GatherStruct { size, fields, .. } => {
            if size == ks && fields_same(fields@, kf) {
                lemma_found_same(t, fields@, kf, size);
            } else {
                lemma_find_slot(t, fields@, size);
                let j = find_slot(t, fields@, size).unwrap();
                assert(fields_found(t[j].fields, t));
                lemma_fields_found_same(t[j].fields, fields@, t);
                lemma_fields_reached_found(fields@, t, kf, ks);
            }
        },
        Layout::GatherArray { elem, .. } => lemma_reached_found(*elem, t, kf, ks),
        Layout::GatherVla { elem, .. } => lemma_reached_found(*elem, t, kf, ks),
        _ => {},
    }
}

proof fn lemma_fields_reached_found(fs: Seq<Field>, t: Seq<Slot>, kf: Seq<Field>, ks: u32)
    requires
        closed(t),
        fields_found(fs, t),
        fields_reach(fs, kf, ks),
    ensures
        found(t, kf, ks),
    decreases fs,
{
    if fs.len() > 0 {
        if fields_reach(fs.drop_last(), kf, ks) {
            assert forall|j: int| 0 <= j < fs.drop_last().len() implies reach_found(
                #[trigger] fs.drop_last()[j].layout,
                t,
            ) by {
                assert(fs.drop_last()[j] == fs[j]);
            }
            lemma_fields_reached_found(fs.drop_last(), t, kf, ks);
        } else {
            assert(reach_found(fs[fs.len() - 1].layout, t));
            lemma_reached_found(fs.last().layout, t, kf, ks);
        }
    }
}

/// Where two events of a group each reach a gathered structure of the
/// same shape `(kf, ks)` -- as a field, or anywhere further down a
/// field's shape -- the group takes strictly less room than its events
/// laid out each on its own: the later event lays that structure out no
/// more, where on its own it would.
pub proof fn law_grouping_saves_shared(es: Seq<EventSpec>, i: int, j: int, kf: Seq<Field>, ks: u32)
    requires
        0 <= i < j < es.len(),
        fields_reach(es[i].fields@, kf, ks),
        fields_reach(es[j].fields@, kf, ks),
    ensures
        group_size_spec(es) < sizes_alone(es),
    decreases es.len(),
{
    lemma_last_event(es);
    let n = es.len() - 1;
    if j < n {
        assert(es.drop_last()[i] == es[i]);
        assert(es.drop_last()[j] == es[j]);
        law_grouping_saves_shared(es.drop_last(), i, j, kf, ks);
    } else {
        law_grouping_saves(es.drop_last());
        let t = events_size_spec(es.drop_last()).1;
        let empty = Seq::<Slot>::empty();
        assert(es.drop_last() =~= es.take(j));
        lemma_event_fields_held(es, i, j);
        lemma_events_closed(es.drop_last());
        lemma_fields_reached_found(es[i].fields@, t, kf, ks);
        lemma_find_slot(empty, kf, ks);
        let fs = es[j].fields@;
        assert(es.last() == es[j]);
        lemma_fields_extends(fs, empty);
        lemma_fields_closes(fs, empty);
        let r = fields_size_spec(fs, empty).1;
        lemma_closed_grows(empty, r);
        lemma_fields_reached_found(fs, r, kf, ks);
        lemma_fields_saves_strictly(fs, t, empty, kf, ks);
    }
}

} // verus!
