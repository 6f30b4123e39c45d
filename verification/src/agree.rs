//! The measure of a description agrees with its layout, and where things
//! go does not depend on the bytes already written or on the byte order.
use vstd::prelude::*;

use crate::abi::{
    DESC_SIZE, FIELD_SIZE, O_ARRAY_ELEM_TYPE, O_ARRAY_TYPE_LENGTH, O_DESC_EVENT, O_DESC_PROVIDER, O_FIELD_NAME, O_FIELD_TYPE, O_GARRAY_ACCESS, O_GARRAY_OFFSET, O_GARRAY_TYPE, O_GVLA_ACCESS, O_GVLA_OFFSET, O_GVLA_TYPE, O_TYPE_U, O_ARRAY_ATTRIBUTES, O_VLA_ATTRIBUTES, O_VLA_ELEM_TYPE, O_VLA_LENGTH_TYPE, SIDE_TYPE_GATHER_ACCESS_DIRECT, SIDE_TYPE_GATHER_ACCESS_POINTER, SIDE_TYPE_GATHER_ARRAY, SIDE_TYPE_GATHER_VLA, STRUCT_TYPE_SIZE, TYPE_SIZE,
};
use crate::bytes::{
    c_str_bytes, overwrite, write_rel, write_u8, write_uint,
};
use crate::layout::{
    events_wf, field_wf, fields_wf, group_lay, layout_wf, type_attrs_wf, type_lay, event_head, gather_struct_head, lay_attrs, lay_event, lay_events, lay_field, lay_field_items, lay_fields, lay_type, lemma_lay_attrs, lemma_lay_leaf, usize_size, with_bytes, with_pos, Lay,
};
use crate::measure::{
    attrs_size_spec, events_size_spec, field_items_size_spec, field_size_spec, fields_size_spec, group_size_spec, group_structs, layout_size_spec, str_size, type_size_spec, type_structs, type_table,
};
use crate::model::{
    Attr, EventSpec, Field, Layout,
};
use crate::shared::{
    find_shared, find_slot, Slot,
};

verus! {

broadcast use vstd::std_specs::vec::group_vec_axioms, vstd::seq::group_seq_axioms, lemma_lay_attrs;

/// Two layouts are at the same place: the same next free byte, the same
/// structures laid out, the same holes left.
pub open spec fn same_geometry(a: Lay, b: Lay) -> bool {
    a.pos == b.pos && a.shared == b.shared && a.patches == b.patches
}

pub proof fn lemma_geometry_type(a: Lay, b: Lay, at: int, l: Layout, attrs: Seq<Attr>, oa: u8, ob: u8)
    requires
        same_geometry(a, b),
    ensures
        same_geometry(lay_type(a, at, l, attrs, oa), lay_type(b, at, l, attrs, ob)),
    decreases l, 0nat,
{
    let u = at + O_TYPE_U;
    match l {
        Layout::GatherStruct { offset, size, access, fields } => {
            let a0 = with_bytes(a, gather_struct_head(a.bytes, at, offset, size, access, oa));
            let b0 = with_bytes(b, gather_struct_head(b.bytes, at, offset, size, access, ob));
            if find_shared(a0.shared, fields@, size) is None {
                let type_ = a0.pos;
                let a1 = Lay {
                    bytes: a0.bytes,
                    pos: type_ + STRUCT_TYPE_SIZE,
                    shared: a0.shared.push(Slot { fields: fields@, size, offset: type_ }),
                    patches: a0.patches,
                };
                let b1 = Lay {
                    bytes: b0.bytes,
                    pos: type_ + STRUCT_TYPE_SIZE,
                    shared: b0.shared.push(Slot { fields: fields@, size, offset: type_ }),
                    patches: b0.patches,
                };
                lemma_geometry_fields(a1, b1, fields@, oa, ob);
            }
        },
        Layout::GatherArray { offset, length, elem } => {
            let array = u + O_GARRAY_TYPE;
            let ba = write_uint(
                write_u8(
                    write_uint(
                        write_uint(a.bytes, at, SIDE_TYPE_GATHER_ARRAY as u64, 2, oa),
                        u + O_GARRAY_OFFSET,
                        offset,
                        8,
                        oa,
                    ),
                    u + O_GARRAY_ACCESS,
                    SIDE_TYPE_GATHER_ACCESS_DIRECT,
                ),
                array + O_ARRAY_TYPE_LENGTH,
                length as u64,
                4,
                oa,
            );
            let bb = write_uint(
                write_u8(
                    write_uint(
                        write_uint(b.bytes, at, SIDE_TYPE_GATHER_ARRAY as u64, 2, ob),
                        u + O_GARRAY_OFFSET,
                        offset,
                        8,
                        ob,
                    ),
                    u + O_GARRAY_ACCESS,
                    SIDE_TYPE_GATHER_ACCESS_DIRECT,
                ),
                array + O_ARRAY_TYPE_LENGTH,
                length as u64,
                4,
                ob,
            );
            let a1 = lay_attrs(with_bytes(a, ba), array + O_ARRAY_ATTRIBUTES, false, attrs, oa);
            let b1 = lay_attrs(with_bytes(b, bb), array + O_ARRAY_ATTRIBUTES, false, attrs, ob);
            let e = a1.pos;
            let a3 = with_bytes(
                with_pos(a1, e + TYPE_SIZE),
                write_rel(a1.bytes, array + O_ARRAY_ELEM_TYPE, e, oa),
            );
            let b3 = with_bytes(
                with_pos(b1, e + TYPE_SIZE),
                write_rel(b1.bytes, array + O_ARRAY_ELEM_TYPE, e, ob),
            );
            lemma_geometry_type(a3, b3, e, *elem, Seq::empty(), oa, ob);
        },
        Layout::GatherVla { offset, len_offset, elem } => {
            let vla = u + O_GVLA_TYPE;
            let ba = write_u8(
                write_uint(
                    write_uint(a.bytes, at, SIDE_TYPE_GATHER_VLA as u64, 2, oa),
                    u + O_GVLA_OFFSET,
                    offset,
                    8,
                    oa,
                ),
                u + O_GVLA_ACCESS,
                SIDE_TYPE_GATHER_ACCESS_POINTER,
            );
            let bb = write_u8(
                write_uint(
                    write_uint(b.bytes, at, SIDE_TYPE_GATHER_VLA as u64, 2, ob),
                    u + O_GVLA_OFFSET,
                    offset,
                    8,
                    ob,
                ),
                u + O_GVLA_ACCESS,
                SIDE_TYPE_GATHER_ACCESS_POINTER,
            );
            let a1 = lay_attrs(with_bytes(a, ba), vla + O_VLA_ATTRIBUTES, false, attrs, oa);
            let b1 = lay_attrs(with_bytes(b, bb), vla + O_VLA_ATTRIBUTES, false, attrs, ob);
            let e = a1.pos;
            let lt = e + TYPE_SIZE;
            let a3 = with_bytes(
                with_pos(a1, lt + TYPE_SIZE),
                write_rel(
                    write_rel(a1.bytes, vla + O_VLA_ELEM_TYPE, e, oa),
                    vla + O_VLA_LENGTH_TYPE,
                    lt,
                    oa,
                ),
            );
            let b3 = with_bytes(
                with_pos(b1, lt + TYPE_SIZE),
                write_rel(
                    write_rel(b1.bytes, vla + O_VLA_ELEM_TYPE, e, ob),
                    vla + O_VLA_LENGTH_TYPE,
                    lt,
                    ob,
                ),
            );
            lemma_geometry_type(a3, b3, e, *elem, Seq::empty(), oa, ob);
            let a4 = lay_type(a3, e, *elem, Seq::empty(), oa);
            let b4 = lay_type(b3, e, *elem, Seq::empty(), ob);
            let li = Layout::GatherInteger { offset: len_offset, size: usize_size(), signed: false };
            lemma_lay_leaf(a4, lt, li, Seq::empty(), oa);
            lemma_lay_leaf(b4, lt, li, Seq::empty(), ob);
        },
        Layout::ExternStruct { .. } => {},
        _ => {
            lemma_lay_leaf(a, at, l, attrs, oa);
            lemma_lay_leaf(b, at, l, attrs, ob);
        },
    }
}

pub proof fn lemma_geometry_field(a: Lay, b: Lay, field_at: int, f: Field, oa: u8, ob: u8)
    requires
        same_geometry(a, b),
    ensures
        same_geometry(lay_field(a, field_at, f, oa), lay_field(b, field_at, f, ob)),
    decreases f, 0nat,
{
    let name = a.pos;
    let a1 = Lay {
        bytes: write_rel(overwrite(a.bytes, name, c_str_bytes(f.name)), field_at + O_FIELD_NAME, name, oa),
        pos: name + str_size(f.name),
        shared: a.shared,
        patches: a.patches,
    };
    let b1 = Lay {
        bytes: write_rel(overwrite(b.bytes, name, c_str_bytes(f.name)), field_at + O_FIELD_NAME, name, ob),
        pos: name + str_size(f.name),
        shared: b.shared,
        patches: b.patches,
    };
    lemma_geometry_type(a1, b1, field_at + O_FIELD_TYPE, f.layout, f.attributes@, oa, ob);
}

pub proof fn lemma_geometry_field_items(a: Lay, b: Lay, array: int, fs: Seq<Field>, oa: u8, ob: u8)
    requires
        same_geometry(a, b),
    ensures
        same_geometry(lay_field_items(a, array, fs, oa), lay_field_items(b, array, fs, ob)),
    decreases fs, 0nat,
{
    if fs.len() > 0 {
        lemma_geometry_field_items(a, b, array, fs.drop_last(), oa, ob);
        lemma_geometry_field(
            lay_field_items(a, array, fs.drop_last(), oa),
            lay_field_items(b, array, fs.drop_last(), ob),
            array + (fs.len() - 1) * FIELD_SIZE,
            fs.last(),
            oa,
            ob,
        );
    }
}

pub proof fn lemma_geometry_fields(a: Lay, b: Lay, fs: Seq<Field>, oa: u8, ob: u8)
    requires
        same_geometry(a, b),
    ensures
        lay_fields(a, fs, oa).0 == lay_fields(b, fs, ob).0,
        same_geometry(lay_fields(a, fs, oa).1, lay_fields(b, fs, ob).1),
    decreases fs, 1nat,
{
    lemma_geometry_field_items(
        with_pos(a, a.pos + fs.len() * FIELD_SIZE),
        with_pos(b, b.pos + fs.len() * FIELD_SIZE),
        a.pos,
        fs,
        oa,
        ob,
    );
}


pub proof fn lemma_geometry_event(a: Lay, b: Lay, desc: int, e: EventSpec, oa: u8, ob: u8)
    requires
        same_geometry(a, b),
    ensures
        same_geometry(lay_event(a, desc, e, oa), lay_event(b, desc, e, ob)),
{
    let p = a.pos;
    let ev = p + str_size(e.provider);
    let ba = write_rel(
        overwrite(
            write_rel(
                overwrite(event_head(a.bytes, desc, e, oa), p, c_str_bytes(e.provider)),
                desc + O_DESC_PROVIDER,
                p,
                oa,
            ),
            ev,
            c_str_bytes(e.event),
        ),
        desc + O_DESC_EVENT,
        ev,
        oa,
    );
    let bb = write_rel(
        overwrite(
            write_rel(
                overwrite(event_head(b.bytes, desc, e, ob), p, c_str_bytes(e.provider)),
                desc + O_DESC_PROVIDER,
                p,
                ob,
            ),
            ev,
            c_str_bytes(e.event),
        ),
        desc + O_DESC_EVENT,
        ev,
        ob,
    );
    let a1 = Lay { bytes: ba, pos: ev + str_size(e.event), shared: a.shared, patches: a.patches };
    let b1 = Lay { bytes: bb, pos: ev + str_size(e.event), shared: b.shared, patches: b.patches };
    lemma_geometry_fields(a1, b1, e.fields@, oa, ob);
}

pub proof fn lemma_geometry_events(all: Seq<EventSpec>, k: nat, na: nat, nb: nat, oa: u8, ob: u8)
    ensures
        same_geometry(lay_events(all, k, na, oa), lay_events(all, k, nb, ob)),
    decreases k,
{
    if k > 0 {
        lemma_geometry_events(all, (k - 1) as nat, na, nb, oa, ob);
        lemma_geometry_event(
            lay_events(all, (k - 1) as nat, na, oa),
            lay_events(all, (k - 1) as nat, nb, ob),
            (k - 1) * DESC_SIZE,
            all[k - 1],
            oa,
            ob,
        );
    }
}

/// Where a group leaves its holes, and how far it reaches, does not
/// depend on how many bytes it is laid out into or in which byte order.
pub proof fn lemma_group_geometry(events: Seq<EventSpec>, na: nat, nb: nat, oa: u8, ob: u8)
    ensures
        same_geometry(group_lay(events, na, oa), group_lay(events, nb, ob)),
{
    lemma_geometry_events(events, events.len(), na, nb, oa, ob);
}

/// The same for one structure described on its own.
pub proof fn lemma_type_geometry(fields: Seq<Field>, size: u32, na: nat, nb: nat, oa: u8, ob: u8)
    ensures
        same_geometry(type_lay(fields, size, na, oa), type_lay(fields, size, nb, ob)),
{
    let sa = Lay {
        bytes: Seq::new(na, |i: int| 0u8),
        pos: STRUCT_TYPE_SIZE as int,
        shared: seq![Slot { fields, size, offset: 0 }],
        patches: Seq::empty(),
    };
    let sb = Lay {
        bytes: Seq::new(nb, |i: int| 0u8),
        pos: STRUCT_TYPE_SIZE as int,
        shared: seq![Slot { fields, size, offset: 0 }],
        patches: Seq::empty(),
    };
    lemma_geometry_fields(sa, sb, fields, oa, ob);
}

/* The measure agrees with the layout. */

/// Two tables hold structures of the same shapes in the same order,
/// wherever each begins.
pub open spec fn same_keys(a: Seq<Slot>, b: Seq<Slot>) -> bool {
    &&& a.len() == b.len()
    &&& forall|i: int|
        0 <= i < a.len() ==> #[trigger] a[i].fields == b[i].fields && a[i].size == b[i].size
}

pub proof fn lemma_find_slot_keys(a: Seq<Slot>, b: Seq<Slot>, fields: Seq<Field>, size: u32)
    requires
        same_keys(a, b),
    ensures
        find_slot(a, fields, size) == find_slot(b, fields, size),
    decreases a.len(),
{
    if a.len() > 0 {
        assert(same_keys(a.drop_last(), b.drop_last())) by {
            assert forall|i: int| 0 <= i < a.len() - 1 implies #[trigger] a.drop_last()[i].fields
                == b.drop_last()[i].fields && a.drop_last()[i].size == b.drop_last()[i].size by {
                assert(a[i].fields == b[i].fields);
            }
        }
        lemma_find_slot_keys(a.drop_last(), b.drop_last(), fields, size);
        assert(a.last().fields == b.last().fields);
    }
}

pub proof fn lemma_same_keys_push(a: Seq<Slot>, b: Seq<Slot>, x: Slot, y: Slot)
    requires
        same_keys(a, b),
        x.fields == y.fields,
        x.size == y.size,
    ensures
        same_keys(a.push(x), b.push(y)),
{
    assert forall|i: int| 0 <= i < a.len() + 1 implies #[trigger] a.push(x)[i].fields == b.push(
        y,
    )[i].fields && a.push(x)[i].size == b.push(y)[i].size by {
        if i < a.len() {
            assert(a[i].fields == b[i].fields);
        }
    }
}

pub proof fn lemma_measure_type(st: Lay, at: int, l: Layout, attrs: Seq<Attr>, o: u8, t: Seq<Slot>)
    requires
        same_keys(st.shared, t),
        layout_wf(l),
        type_attrs_wf(l, attrs),
    ensures
        lay_type(st, at, l, attrs, o).pos == st.pos + attrs_size_spec(attrs) + layout_size_spec(
            l,
            t,
        ).0,
        same_keys(lay_type(st, at, l, attrs, o).shared, layout_size_spec(l, t).1),
    decreases l, 0nat,
{
    let u = at + O_TYPE_U;
    crate::measure::lemma_attrs_size_prefix(Seq::<Attr>::empty(), 0);
    match l {
        Layout::GatherStruct { offset, size, access, fields } => {
            let s0 = with_bytes(st, gather_struct_head(st.bytes, at, offset, size, access, o));
            lemma_find_slot_keys(st.shared, t, fields@, size);
            if find_shared(s0.shared, fields@, size) is None {
                let type_ = s0.pos;
                let s1 = Lay {
                    bytes: s0.bytes,
                    pos: type_ + STRUCT_TYPE_SIZE,
                    shared: s0.shared.push(Slot { fields: fields@, size, offset: type_ }),
                    patches: s0.patches,
                };
                let t1 = t.push(Slot { fields: fields@, size, offset: 0 });
                lemma_same_keys_push(st.shared, t, Slot { fields: fields@, size, offset: type_ }, Slot { fields: fields@, size, offset: 0 });
                lemma_measure_fields(s1, fields@, o, t1);
            }
        },
        Layout::GatherArray { offset, length, elem } => {
            let array = u + O_GARRAY_TYPE;
            let b1 = write_uint(
                write_u8(
                    write_uint(
                        write_uint(st.bytes, at, SIDE_TYPE_GATHER_ARRAY as u64, 2, o),
                        u + O_GARRAY_OFFSET,
                        offset,
                        8,
                        o,
                    ),
                    u + O_GARRAY_ACCESS,
                    SIDE_TYPE_GATHER_ACCESS_DIRECT,
                ),
                array + O_ARRAY_TYPE_LENGTH,
                length as u64,
                4,
                o,
            );
            let s1 = lay_attrs(with_bytes(st, b1), array + O_ARRAY_ATTRIBUTES, false, attrs, o);
            let e = s1.pos;
            let s3 = with_bytes(
                with_pos(s1, e + TYPE_SIZE),
                write_rel(s1.bytes, array + O_ARRAY_ELEM_TYPE, e, o),
            );
            lemma_measure_type(s3, e, *elem, Seq::empty(), o, t);
        },
        Layout::GatherVla { offset, len_offset, elem } => {
            let vla = u + O_GVLA_TYPE;
            let b1 = write_u8(
                write_uint(
                    write_uint(st.bytes, at, SIDE_TYPE_GATHER_VLA as u64, 2, o),
                    u + O_GVLA_OFFSET,
                    offset,
                    8,
                    o,
                ),
                u + O_GVLA_ACCESS,
                SIDE_TYPE_GATHER_ACCESS_POINTER,
            );
            let s1 = lay_attrs(with_bytes(st, b1), vla + O_VLA_ATTRIBUTES, false, attrs, o);
            let e = s1.pos;
            let lt = e + TYPE_SIZE;
            let s3 = with_bytes(
                with_pos(s1, lt + TYPE_SIZE),
                write_rel(
                    write_rel(s1.bytes, vla + O_VLA_ELEM_TYPE, e, o),
                    vla + O_VLA_LENGTH_TYPE,
                    lt,
                    o,
                ),
            );
            lemma_measure_type(s3, e, *elem, Seq::empty(), o, t);
            let s4 = lay_type(s3, e, *elem, Seq::empty(), o);
            let li = Layout::GatherInteger { offset: len_offset, size: usize_size(), signed: false };
            lemma_lay_leaf(s4, lt, li, Seq::empty(), o);
        },
        Layout::ExternStruct { .. } => {},
        _ => {
            lemma_lay_leaf(st, at, l, attrs, o);
        },
    }
}

pub proof fn lemma_measure_field(st: Lay, field_at: int, f: Field, o: u8, t: Seq<Slot>)
    requires
        same_keys(st.shared, t),
        field_wf(f),
    ensures
        lay_field(st, field_at, f, o).pos == st.pos + field_size_spec(f, t).0,
        same_keys(lay_field(st, field_at, f, o).shared, field_size_spec(f, t).1),
    decreases f, 0nat,
{
    let name = st.pos;
    let s1 = Lay {
        bytes: write_rel(overwrite(st.bytes, name, c_str_bytes(f.name)), field_at + O_FIELD_NAME, name, o),
        pos: name + str_size(f.name),
        shared: st.shared,
        patches: st.patches,
    };
    lemma_measure_type(s1, field_at + O_FIELD_TYPE, f.layout, f.attributes@, o, t);
}

pub proof fn lemma_measure_field_items(st: Lay, array: int, fs: Seq<Field>, o: u8, t: Seq<Slot>)
    requires
        same_keys(st.shared, t),
        fields_wf(fs),
    ensures
        lay_field_items(st, array, fs, o).pos == st.pos + field_items_size_spec(fs, t).0,
        same_keys(lay_field_items(st, array, fs, o).shared, field_items_size_spec(fs, t).1),
    decreases fs, 0nat,
{
    if fs.len() > 0 {
        lemma_measure_field_items(st, array, fs.drop_last(), o, t);
        lemma_measure_field(
            lay_field_items(st, array, fs.drop_last(), o),
            array + (fs.len() - 1) * FIELD_SIZE,
            fs.last(),
            o,
            field_items_size_spec(fs.drop_last(), t).1,
        );
    }
}

pub proof fn lemma_measure_fields(st: Lay, fs: Seq<Field>, o: u8, t: Seq<Slot>)
    requires
        same_keys(st.shared, t),
        fields_wf(fs),
    ensures
        lay_fields(st, fs, o).1.pos == st.pos + fields_size_spec(fs, t).0,
        same_keys(lay_fields(st, fs, o).1.shared, fields_size_spec(fs, t).1),
    decreases fs, 1nat,
{
    lemma_measure_field_items(
        with_pos(st, st.pos + fs.len() * FIELD_SIZE),
        st.pos,
        fs,
        o,
        t,
    );
}

pub proof fn lemma_measure_events(all: Seq<EventSpec>, k: nat, n: nat, o: u8)
    requires
        events_wf(all),
        k <= all.len(),
    ensures
        lay_events(all, k, n, o).pos == all.len() * DESC_SIZE + events_size_spec(all.take(k as int)).0
            - k * DESC_SIZE,
        same_keys(lay_events(all, k, n, o).shared, events_size_spec(all.take(k as int)).1),
    decreases k,
{
    if k == 0 {
        assert(all.take(0) =~= Seq::<EventSpec>::empty());
    } else {
        lemma_measure_events(all, (k - 1) as nat, n, o);
        assert(all.take(k as int).drop_last() =~= all.take(k - 1));
        assert(all.take(k as int).last() == all[k - 1]);
        let st = lay_events(all, (k - 1) as nat, n, o);
        let e = all[k - 1];
        let t = events_size_spec(all.take(k - 1)).1;
        let desc = (k - 1) * DESC_SIZE;
        assert(fields_wf(all[k - 1].fields@));
        let p = st.pos;
        let ev = p + str_size(e.provider);
        let b2 = write_rel(
            overwrite(
                write_rel(
                    overwrite(event_head(st.bytes, desc, e, o), p, c_str_bytes(e.provider)),
                    desc + O_DESC_PROVIDER,
                    p,
                    o,
                ),
                ev,
                c_str_bytes(e.event),
            ),
            desc + O_DESC_EVENT,
            ev,
            o,
        );
        let s1 = Lay { bytes: b2, pos: ev + str_size(e.event), shared: st.shared, patches: st.patches };
        lemma_measure_fields(s1, e.fields@, o, t);
    }
}

/// A group laid out reaches exactly as far as it was measured to, and
/// lays out as many structures as were counted.
pub proof fn lemma_group_measure(events: Seq<EventSpec>, n: nat, o: u8)
    requires
        events_wf(events),
    ensures
        group_lay(events, n, o).pos == group_size_spec(events),
        group_lay(events, n, o).shared.len() == group_structs(events),
{
    lemma_measure_events(events, events.len(), n, o);
    assert(events.take(events.len() as int) =~= events);
}

/// One structure laid out on its own reaches exactly as far as it was
/// measured to, and lays out as many structures as were counted.
pub proof fn lemma_type_measure(fields: Seq<Field>, size: u32, n: nat, o: u8)
    requires
        fields_wf(fields),
    ensures
        type_lay(fields, size, n, o).pos == type_size_spec(fields, size),
        type_lay(fields, size, n, o).shared.len() == type_structs(fields, size),
{
    let start = Lay {
        bytes: Seq::new(n, |i: int| 0u8),
        pos: STRUCT_TYPE_SIZE as int,
        shared: seq![Slot { fields, size, offset: 0 }],
        patches: Seq::empty(),
    };
    assert(same_keys(start.shared, type_table(fields, size)));
    lemma_measure_fields(start, fields, o, type_table(fields, size));
}

} // verus!
