//! Measuring a description before it is laid out.
use vstd::prelude::*;

use crate::abi::{
    ATTR_SIZE, DESC_SIZE, FIELD_SIZE, STRUCT_TYPE_SIZE, TYPE_SIZE,
};
use crate::model::{
    Attr, AttrValue, EventSpec, Field, Layout,
};
use crate::shared::{
    find_slot, shared_find, shared_insert, Shared, Slot, MAX_SHARED_TYPES,
};
use vstd::string::StringSliceAdditionalSpecFns;

verus! {

broadcast use vstd::std_specs::vec::group_vec_axioms, vstd::seq::group_seq_axioms;

/// What a string occupies in a description: its bytes and a nul.
pub open spec fn str_size(s: &str) -> int {
    s.spec_bytes().len() + 1int
}

/// What one attribute occupies: its entry in the array, its key, and the
/// string it holds as its value if it holds one.
pub open spec fn attr_size(a: Attr) -> int {
    ATTR_SIZE + str_size(a.key) + match a.value {
        AttrValue::String(v) => str_size(v),
        _ => 0,
    }
}

/// What an attribute list occupies.
pub open spec fn attrs_size_spec(attrs: Seq<Attr>) -> int
    decreases attrs.len(),
{
    if attrs.len() == 0 {
        0
    } else {
        attrs_size_spec(attrs.drop_last()) + attr_size(attrs.last())
    }
}

/// How many bytes a type hangs off itself beyond its own 64, and the
/// table of structures laid out once it is measured. A structure the
/// table already holds costs nothing more.
pub open spec fn layout_size_spec(l: Layout, t: Seq<Slot>) -> (int, Seq<Slot>)
    decreases l, 0nat,
{
    match l {
        Layout::GatherStruct { size, fields, .. } => if find_slot(t, fields@, size) is Some {
            (0, t)
        } else {
            let r = fields_size_spec(fields@, t.push(Slot { fields: fields@, size, offset: 0 }));
            (STRUCT_TYPE_SIZE + r.0, r.1)
        },
        Layout::GatherArray { elem, .. } => {
            let r = layout_size_spec(*elem, t);
            (TYPE_SIZE + r.0, r.1)
        },
        Layout::GatherVla { elem, .. } => {
            let r = layout_size_spec(*elem, t);
            (2 * TYPE_SIZE + r.0, r.1)
        },
        _ => (0, t),
    }
}

/// What one field hangs off its field list: its name, the attributes of
/// its type, and whatever the type reaches.
pub open spec fn field_size_spec(f: Field, t: Seq<Slot>) -> (int, Seq<Slot>)
    decreases f, 0nat,
{
    let r = layout_size_spec(f.layout, t);
    (str_size(f.name) + attrs_size_spec(f.attributes@) + r.0, r.1)
}

/// What the fields of a list hang off it, one after another.
pub open spec fn field_items_size_spec(fs: Seq<Field>, t: Seq<Slot>) -> (int, Seq<Slot>)
    decreases fs, 0nat,
{
    if fs.len() == 0 {
        (0, t)
    } else {
        let a = field_items_size_spec(fs.drop_last(), t);
        let b = field_size_spec(fs.last(), a.1);
        (a.0 + b.0, b.1)
    }
}

/// How many bytes a field list occupies: the array itself and whatever
/// its fields hang off it.
pub open spec fn fields_size_spec(fs: Seq<Field>, t: Seq<Slot>) -> (int, Seq<Slot>)
    decreases fs, 1nat,
{
    let r = field_items_size_spec(fs, t);
    (fs.len() * FIELD_SIZE + r.0, r.1)
}

/// What one event occupies beyond what the events before it did.
pub open spec fn event_size_spec(e: EventSpec, t: Seq<Slot>) -> (int, Seq<Slot>) {
    let f = fields_size_spec(e.fields@, t);
    (DESC_SIZE + str_size(e.provider) + str_size(e.event) + attrs_size_spec(e.attributes@) + f.0, f.1)
}

/// How many bytes the descriptions of a sequence of events occupy, and
/// the structures they lay out.
pub open spec fn events_size_spec(es: Seq<EventSpec>) -> (int, Seq<Slot>)
    decreases es.len(),
{
    if es.len() == 0 {
        (0, Seq::empty())
    } else {
        let a = events_size_spec(es.drop_last());
        let b = event_size_spec(es.last(), a.1);
        (a.0 + b.0, b.1)
    }
}

/// How many bytes the descriptions of a group of events occupy.
pub open spec fn group_size_spec(events: Seq<EventSpec>) -> int {
    events_size_spec(events).0
}

/// How many distinct structures a group of events lays out.
pub open spec fn group_structs(events: Seq<EventSpec>) -> int {
    events_size_spec(events).1.len() as int
}

/// The table a structure described on its own starts from: itself,
/// named before its fields are laid out, as a use of it would be.
pub open spec fn type_table(fields: Seq<Field>, size: u32) -> Seq<Slot> {
    seq![Slot { fields, size, offset: 0 }]
}

/// How many bytes the description of one structure occupies, on its own.
pub open spec fn type_size_spec(fields: Seq<Field>, size: u32) -> int {
    STRUCT_TYPE_SIZE + fields_size_spec(fields, type_table(fields, size)).0
}

/// How many distinct structures the description of one structure lays
/// out, itself included.
pub open spec fn type_structs(fields: Seq<Field>, size: u32) -> int {
    fields_size_spec(fields, type_table(fields, size)).1.len() as int
}

/* What measuring never does: give back less room, or forget a structure. */

pub proof fn lemma_attrs_size_prefix(attrs: Seq<Attr>, i: int)
    requires
        0 <= i <= attrs.len(),
    ensures
        0 <= attrs_size_spec(attrs.take(i)) <= attrs_size_spec(attrs),
    decreases attrs.len(),
{
    if attrs.len() > 0 {
        if i == attrs.len() {
            assert(attrs.take(i) =~= attrs);
            lemma_attrs_size_prefix(attrs.drop_last(), i - 1);
            assert(attrs.drop_last().take(i - 1) =~= attrs.take(i - 1));
        } else {
            lemma_attrs_size_prefix(attrs.drop_last(), i);
            assert(attrs.drop_last().take(i) =~= attrs.take(i));
        }
    } else {
        assert(attrs.take(i) =~= attrs);
    }
}

/// Measuring never makes a type smaller than nothing, and the table of
/// structures only grows.
pub proof fn lemma_layout_size_grows(l: Layout, t: Seq<Slot>)
    ensures
        layout_size_spec(l, t).0 >= 0,
        layout_size_spec(l, t).1.len() >= t.len(),
    decreases l, 0nat,
{
    match l {
        Layout::GatherStruct { size, fields, .. } => {
            if find_slot(t, fields@, size) is None {
                lemma_fields_size_grows(fields@, t.push(Slot { fields: fields@, size, offset: 0 }));
            }
        },
        Layout::GatherArray { elem, .. } => lemma_layout_size_grows(*elem, t),
        Layout::GatherVla { elem, .. } => lemma_layout_size_grows(*elem, t),
        _ => {},
    }
}

pub proof fn lemma_field_size_grows(f: Field, t: Seq<Slot>)
    ensures
        field_size_spec(f, t).0 >= 0,
        field_size_spec(f, t).1.len() >= t.len(),
    decreases f, 0nat,
{
    lemma_layout_size_grows(f.layout, t);
    lemma_attrs_size_prefix(f.attributes@, 0);
}

pub proof fn lemma_field_items_size_grows(fs: Seq<Field>, t: Seq<Slot>)
    ensures
        field_items_size_spec(fs, t).0 >= 0,
        field_items_size_spec(fs, t).1.len() >= t.len(),
    decreases fs, 0nat,
{
    if fs.len() > 0 {
        lemma_field_items_size_grows(fs.drop_last(), t);
        lemma_field_size_grows(fs.last(), field_items_size_spec(fs.drop_last(), t).1);
    }
}

pub proof fn lemma_fields_size_grows(fs: Seq<Field>, t: Seq<Slot>)
    ensures
        fields_size_spec(fs, t).0 >= 0,
        fields_size_spec(fs, t).1.len() >= t.len(),
    decreases fs, 1nat,
{
    lemma_field_items_size_grows(fs, t);
}

/// Measuring the first `i` fields of a list gives no more, and lays out
/// no more structures, than measuring `j >= i` of them.
pub proof fn lemma_field_items_size_prefix(fs: Seq<Field>, t: Seq<Slot>, i: int, j: int)
    requires
        0 <= i <= j <= fs.len(),
    ensures
        field_items_size_spec(fs.take(i), t).0 <= field_items_size_spec(fs.take(j), t).0,
        field_items_size_spec(fs.take(i), t).1.len() <= field_items_size_spec(fs.take(j), t).1.len(),
    decreases j - i,
{
    if i < j {
        lemma_field_items_size_prefix(fs, t, i, j - 1);
        assert(fs.take(j).drop_last() =~= fs.take(j - 1));
        lemma_field_size_grows(fs.take(j).last(), field_items_size_spec(fs.take(j - 1), t).1);
    }
}

pub proof fn lemma_events_size_prefix(es: Seq<EventSpec>, i: int, j: int)
    requires
        0 <= i <= j <= es.len(),
    ensures
        events_size_spec(es.take(i)).0 <= events_size_spec(es.take(j)).0,
        events_size_spec(es.take(i)).1.len() <= events_size_spec(es.take(j)).1.len(),
    decreases j - i,
{
    if i < j {
        lemma_events_size_prefix(es, i, j - 1);
        assert(es.take(j).drop_last() =~= es.take(j - 1));
        let e = es.take(j).last();
        let t = events_size_spec(es.take(j - 1)).1;
        lemma_fields_size_grows(e.fields@, t);
        lemma_attrs_size_prefix(e.attributes@, 0);
    }
}

/* Measuring. */

/// How many bytes an attribute list occupies: the array, the key of
/// each attribute, and any string one holds as its value.
pub fn attrs_size(attrs: &[Attr]) -> (r: usize)
    requires
        attrs_size_spec(attrs@) <= usize::MAX,
    ensures
        r == attrs_size_spec(attrs@),
{
    let mut size: usize = 0;
    let mut i: usize = 0;
    while i < attrs.len()
        invariant
            i <= attrs@.len(),
            attrs_size_spec(attrs@) <= usize::MAX,
            size == attrs_size_spec(attrs@.take(i as int)),
        decreases attrs@.len() - i,
    {
        proof {
            lemma_attrs_size_prefix(attrs@, i + 1);
            assert(attrs@.take(i + 1).drop_last() =~= attrs@.take(i as int));
        }
        size += ATTR_SIZE + attrs[i].key.len() + 1;
        if let AttrValue::String(value) = attrs[i].value {
            size += value.len() + 1;
        }
        i += 1;
    }
    assert(attrs@.take(i as int) =~= attrs@);
    size
}

/// How many bytes a type hangs off itself, beyond its own 64. A
/// structure the group has already laid out costs nothing more.
pub fn layout_size<'a>(layout: &'a Layout, shared: &mut Shared<'a>) -> (r: usize)
    requires
        layout_size_spec(*layout, old(shared).view()).0 <= usize::MAX,
        layout_size_spec(*layout, old(shared).view()).1.len() <= MAX_SHARED_TYPES,
    ensures
        (r as int, final(shared).view()) == layout_size_spec(*layout, old(shared).view()),
    decreases layout,
{
    proof {
        lemma_layout_size_grows(*layout, shared.view());
    }
    match layout {
        Layout::GatherStruct { size, fields, .. } => {
            if shared_find(shared, fields, *size).is_some() {
                0
            } else {
                let ghost t = shared.view().push(Slot { fields: fields@, size: *size, offset: 0 });
                proof {
                    lemma_fields_size_grows(fields@, t);
                }
                shared_insert(shared, fields, *size, 0);
                STRUCT_TYPE_SIZE + fields_size(fields, shared)
            }
        },
        Layout::GatherArray { elem, .. } => TYPE_SIZE + layout_size(elem, shared),
        /* An element type and a length type. */
        Layout::GatherVla { elem, .. } => 2 * TYPE_SIZE + layout_size(elem, shared),
        /* Described in another object, so nothing is laid out here. */
        Layout::ExternStruct { .. } => 0,
        _ => 0,
    }
}

/// How many bytes a field list occupies: the array itself, the name of
/// each field, and whatever the type of each field hangs off itself.
pub fn fields_size<'a>(fields: &'a Vec<Field>, shared: &mut Shared<'a>) -> (r: usize)
    requires
        fields_size_spec(fields@, old(shared).view()).0 <= usize::MAX,
        fields_size_spec(fields@, old(shared).view()).1.len() <= MAX_SHARED_TYPES,
    ensures
        (r as int, final(shared).view()) == fields_size_spec(fields@, old(shared).view()),
    decreases fields,
{
    let ghost t0 = shared.view();
    proof {
        lemma_field_items_size_grows(fields@, t0);
        assert(fields@.take(fields@.len() as int) =~= fields@);
    }
    let mut size: usize = fields.len() * FIELD_SIZE;
    let mut i: usize = 0;
    while i < fields.len()
        invariant
            i <= fields@.len(),
            fields_size_spec(fields@, t0).0 <= usize::MAX,
            fields_size_spec(fields@, t0).1.len() <= MAX_SHARED_TYPES,
            fields@.take(fields@.len() as int) == fields@,
            size == fields@.len() * FIELD_SIZE + field_items_size_spec(fields@.take(i as int), t0).0,
            shared.view() == field_items_size_spec(fields@.take(i as int), t0).1,
        decreases fields@.len() - i,
    {
        let field = &fields[i];
        proof {
            lemma_field_items_size_prefix(fields@, t0, i + 1, fields@.len() as int);
            lemma_field_items_size_grows(fields@.take(i as int), t0);
            assert(fields@.take(i + 1).drop_last() =~= fields@.take(i as int));
            assert(fields@.take(i + 1).last() == fields@[i as int]);
            lemma_attrs_size_prefix(field.attributes@, 0);
            lemma_layout_size_grows(field.layout, shared.view());
            let pre = field_items_size_spec(fields@.take(i as int), t0);
            let f = field_size_spec(fields@[i as int], pre.1);
            assert(field_items_size_spec(fields@.take(i + 1), t0) == (pre.0 + f.0, f.1));
        }
        size += field.name.len() + 1;
        size += attrs_size(field.attributes);
        size += layout_size(&field.layout, shared);
        i += 1;
    }
    size
}

/// How many bytes the descriptions of a group of events occupy.
pub fn group_size(events: &[EventSpec]) -> (r: usize)
    requires
        group_size_spec(events@) <= usize::MAX,
        group_structs(events@) <= MAX_SHARED_TYPES,
    ensures
        r == group_size_spec(events@),
{
    let mut shared = Shared::new();
    let mut size: usize = 0;
    let mut i: usize = 0;
    proof {
        assert(events@.take(events@.len() as int) =~= events@);
    }
    while i < events.len()
        invariant
            i <= events@.len(),
            events@.take(events@.len() as int) == events@,
            group_size_spec(events@) <= usize::MAX,
            group_structs(events@) <= MAX_SHARED_TYPES,
            size == events_size_spec(events@.take(i as int)).0,
            shared.view() == events_size_spec(events@.take(i as int)).1,
        decreases events@.len() - i,
    {
        let event = &events[i];
        proof {
            lemma_events_size_prefix(events@, i + 1, events@.len() as int);
            assert(events@.take(i + 1).drop_last() =~= events@.take(i as int));
            assert(events@.take(i + 1).last() == events@[i as int]);
            lemma_fields_size_grows(event.fields@, shared.view());
            lemma_attrs_size_prefix(event.attributes@, 0);
        }
        size += DESC_SIZE;
        size += event.provider.len() + 1;
        size += event.event.len() + 1;
        size += attrs_size(event.attributes);
        size += fields_size(&event.fields, &mut shared);
        i += 1;
    }
    size
}

/// Where the description of the event at `index` begins.
///
/// The descriptions come first and are all the same size, so this is
/// what a state needs to reach the one it belongs to.
pub fn event_offset(index: usize) -> (r: usize)
    requires
        index * DESC_SIZE <= usize::MAX,
    ensures
        r == index * DESC_SIZE,
{
    index * DESC_SIZE
}

/// How many bytes the description of one structure occupies, on its own.
///
/// This is what `define_type!` lays out: a structure another object can
/// refer to by address, which is how a description crosses a boundary
/// the const evaluator cannot measure across.
pub fn type_size(fields: &Vec<Field>, size: u32) -> (r: usize)
    requires
        type_size_spec(fields@, size) <= usize::MAX,
        type_structs(fields@, size) <= MAX_SHARED_TYPES,
    ensures
        r == type_size_spec(fields@, size),
{
    let mut shared = Shared::new();
    proof {
        lemma_fields_size_grows(fields@, type_table(fields@, size));
    }
    /* Named before its fields are laid out, as a use of it would be. */
    shared_insert(&mut shared, fields, size, 0);
    assert(shared.view() =~= type_table(fields@, size));
    STRUCT_TYPE_SIZE + fields_size(fields, &mut shared)
}

} // verus!
