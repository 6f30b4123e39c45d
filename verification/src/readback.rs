//! What the description of each field says, read back: its name, by the
//! distance at its name member, the label of its type, and, for a
//! gathered structure, what its use says of it.
use vstd::prelude::*;

use crate::abi::{
    DESC_SIZE, FIELD_SIZE, O_ARRAY_ATTRIBUTES, O_ARRAY_ELEM_TYPE, O_ARRAY_TYPE_LENGTH, O_FIELD_NAME, O_FIELD_TYPE, O_GARRAY_ACCESS, O_GARRAY_OFFSET, O_GARRAY_TYPE, O_GVLA_ACCESS, O_GVLA_OFFSET, O_GVLA_TYPE, O_TYPE_U, O_VLA_ATTRIBUTES, O_VLA_ELEM_TYPE, O_VLA_LENGTH_TYPE, SIDE_TYPE_BOOL, SIDE_TYPE_GATHER_ACCESS_DIRECT, SIDE_TYPE_GATHER_ACCESS_POINTER, SIDE_TYPE_GATHER_ARRAY, SIDE_TYPE_GATHER_BOOL, SIDE_TYPE_GATHER_INTEGER, SIDE_TYPE_GATHER_POINTER, SIDE_TYPE_GATHER_STRUCT, SIDE_TYPE_GATHER_VLA, SIDE_TYPE_POINTER, SIDE_TYPE_STRING_UTF8, STRUCT_TYPE_SIZE, TYPE_SIZE, O_ARRAY_LENGTH, O_DESC_ATTRIBUTES, O_DESC_EVENT, O_DESC_FIELDS, O_DESC_PROVIDER, O_GSTRUCT_TYPE, O_GSTRUCT_OFFSET, O_GSTRUCT_ACCESS, O_GSTRUCT_SIZE, O_STRUCT_FIELDS, PATCH_WIDTH, ATTR_SIZE, O_SEL_IS_OFFSET, O_SEL_ARRAY_LENGTH,
    SIDE_TYPE_U8, SIDE_TYPE_U16, SIDE_TYPE_U32, SIDE_TYPE_U64, SIDE_TYPE_S8, SIDE_TYPE_S16, SIDE_TYPE_S32, SIDE_TYPE_S64,
};
use crate::bytes::{
    c_str_bytes, host_bytes, overwrite, rel_bytes, write_rel, write_sel_rel, write_u8, write_uint,
};
use crate::agree::{lemma_measure_fields, lemma_measure_type, same_keys};
use crate::frame::{
    attrs_ptr_size, lemma_lay_attrs_frame, lemma_lay_fields_frame, lemma_lay_leaf_frame, lemma_lay_type_frame, only_within,
};
use crate::laws::{
    events_extern_at_top, extern_at_top, field_holes,
    holds_at, lemma_group_bounds, lemma_group_size_covers, lemma_holds_kept, lemma_lay_events_frame, lemma_overwrite_holds, lemma_overwrite_keeps, lemma_overwrite_within,
};
use crate::layout::{
    event_head, events_wf, field_wf, fields_wf, layout_wf, type_attrs_wf, group_holes, gather_struct_head, group_bytes, lay_events, lay_attrs, lay_event, lay_field, lay_field_items, lay_fields, lay_type, lemma_lay_fields, lemma_lay_type, stack_integer_label_spec, usize_size, with_bytes, with_pos, Lay,
};
use crate::measure::{
    attrs_size_spec, fields_size_spec, group_size_spec, layout_size_spec, str_size,
};
use crate::model::{
    Attr, EventSpec, Field, Layout,
};
use crate::shared::{
    find_shared, Slot,
};

verus! {

broadcast use vstd::seq::group_seq_axioms;

/// The label a type of this shape is written with.
pub open spec fn type_label(l: Layout) -> u16 {
    match l {
        Layout::Bool => SIDE_TYPE_BOOL,
        Layout::Integer { size, signed } => stack_integer_label_spec(size, signed),
        Layout::Pointer => SIDE_TYPE_POINTER,
        Layout::String => SIDE_TYPE_STRING_UTF8,
        Layout::GatherBool { .. } => SIDE_TYPE_GATHER_BOOL,
        Layout::GatherInteger { .. } => SIDE_TYPE_GATHER_INTEGER,
        Layout::GatherPointer { .. } => SIDE_TYPE_GATHER_POINTER,
        Layout::GatherStruct { .. } => SIDE_TYPE_GATHER_STRUCT,
        Layout::GatherArray { .. } => SIDE_TYPE_GATHER_ARRAY,
        Layout::GatherVla { .. } => SIDE_TYPE_GATHER_VLA,
        Layout::ExternStruct { .. } => SIDE_TYPE_GATHER_STRUCT,
    }
}

/// Laying a type out at `at` writes its label there, first, and nothing
/// after it writes over it.
proof fn lemma_lay_type_label(st: Lay, at: int, l: Layout, attrs: Seq<Attr>, o: u8)
    requires
        0 <= at,
        at + TYPE_SIZE <= st.pos,
        at + TYPE_SIZE <= st.bytes.len(),
    ensures
        holds_at(lay_type(st, at, l, attrs, o).bytes, at, host_bytes(type_label(l) as u64, 2, o)),
{
    let out = lay_type(st, at, l, attrs, o);
    let lab = host_bytes(type_label(l) as u64, 2, o);
    let w0 = write_uint(st.bytes, at, type_label(l) as u64, 2, o);
    lemma_lay_type(st, at, l, attrs, o);
    assert forall|k: int| 0 <= k < 2 implies #[trigger] w0[at + k] == lab[k] by {}
    assert(forall|k: int| 0 <= k < 2 ==> #[trigger] out.bytes[at + k] == w0[at + k]) by {
        lemma_label_kept(st, at, l, attrs, o);
    }
    assert forall|k: int| 0 <= k < 2 implies out.bytes.subrange(at, at + 2)[k] == lab[k] by {
        assert(out.bytes[at + k] == w0[at + k]);
        assert(w0[at + k] == lab[k]);
    }
    assert(out.bytes.subrange(at, at + 2) =~= lab);
}

/// What is written after a type's label lies clear of it.
proof fn lemma_label_kept(st: Lay, at: int, l: Layout, attrs: Seq<Attr>, o: u8)
    requires
        0 <= at,
        at + TYPE_SIZE <= st.pos,
        at + TYPE_SIZE <= st.bytes.len(),
    ensures
        forall|k: int|
            0 <= k < 2 ==> #[trigger] lay_type(st, at, l, attrs, o).bytes[at + k] == write_uint(
                st.bytes,
                at,
                type_label(l) as u64,
                2,
                o,
            )[at + k],
{
    let u = at + O_TYPE_U;
    let out = lay_type(st, at, l, attrs, o);
    let w0 = write_uint(st.bytes, at, type_label(l) as u64, 2, o);
    match l {
        Layout::GatherStruct { offset, size, access, fields } => {
            let s0 = with_bytes(st, gather_struct_head(st.bytes, at, offset, size, access, o));
            if find_shared(s0.shared, fields@, size) is None {
                let type_ = s0.pos;
                let s1 = Lay {
                    bytes: s0.bytes,
                    pos: type_ + STRUCT_TYPE_SIZE,
                    shared: s0.shared.push(Slot { fields: fields@, size, offset: type_ }),
                    patches: s0.patches,
                };
                let r = lay_fields(s1, fields@, o);
                lemma_lay_fields_frame(s1, fields@, o);
                lemma_lay_fields(s1, fields@, o);
                assert forall|k: int| 0 <= k < 2 implies #[trigger] out.bytes[at + k] == w0[at + k] by {
                    assert(r.1.bytes[at + k] == s0.bytes[at + k]);
                }
            }
        },
        Layout::GatherArray { offset, length, elem } => {
            let array = u + O_GARRAY_TYPE;
            let b1 = write_uint(
                write_u8(
                    write_uint(w0, u + O_GARRAY_OFFSET, offset, 8, o),
                    u + O_GARRAY_ACCESS,
                    SIDE_TYPE_GATHER_ACCESS_DIRECT,
                ),
                array + O_ARRAY_TYPE_LENGTH,
                length as u64,
                4,
                o,
            );
            let s1 = lay_attrs(with_bytes(st, b1), array + O_ARRAY_ATTRIBUTES, false, attrs, o);
            let e = s1.pos;
            let s3 = with_bytes(
                with_pos(s1, e + TYPE_SIZE),
                write_rel(s1.bytes, array + O_ARRAY_ELEM_TYPE, e, o),
            );
            crate::layout::lemma_lay_attrs(with_bytes(st, b1), array + O_ARRAY_ATTRIBUTES, false, attrs, o);
            lemma_lay_attrs_frame(with_bytes(st, b1), array + O_ARRAY_ATTRIBUTES, false, attrs, o);
            lemma_lay_type_frame(s3, e, *elem, Seq::empty(), o);
            assert forall|k: int| 0 <= k < 2 implies #[trigger] out.bytes[at + k] == w0[at + k] by {
                assert(s1.bytes[at + k] == b1[at + k]);
                assert(out.bytes[at + k] == s3.bytes[at + k]);
            }
        },
        Layout::GatherVla { offset, len_offset, elem } => {
            let vla = u + O_GVLA_TYPE;
            let b1 = write_u8(
                write_uint(w0, u + O_GVLA_OFFSET, offset, 8, o),
                u + O_GVLA_ACCESS,
                SIDE_TYPE_GATHER_ACCESS_POINTER,
            );
            let s1 = lay_attrs(with_bytes(st, b1), vla + O_VLA_ATTRIBUTES, false, attrs, o);
            let e = s1.pos;
            let lt = e + TYPE_SIZE;
            let s3 = with_bytes(
                with_pos(s1, lt + TYPE_SIZE),
                write_rel(
                    write_rel(s1.bytes, vla + O_VLA_ELEM_TYPE, e, o),
                    vla + O_VLA_LENGTH_TYPE,
                    lt,
                    o,
                ),
            );
            let s4 = lay_type(s3, e, *elem, Seq::empty(), o);
            let li = Layout::GatherInteger { offset: len_offset, size: usize_size(), signed: false };
            crate::layout::lemma_lay_attrs(with_bytes(st, b1), vla + O_VLA_ATTRIBUTES, false, attrs, o);
            lemma_lay_attrs_frame(with_bytes(st, b1), vla + O_VLA_ATTRIBUTES, false, attrs, o);
            lemma_lay_type(s3, e, *elem, Seq::empty(), o);
            lemma_lay_type_frame(s3, e, *elem, Seq::empty(), o);
            lemma_lay_leaf_frame(s4, lt, li, Seq::empty(), o);
            assert forall|k: int| 0 <= k < 2 implies #[trigger] out.bytes[at + k] == w0[at + k] by {
                assert(s1.bytes[at + k] == b1[at + k]);
                assert(s4.bytes[at + k] == s3.bytes[at + k]);
                assert(out.bytes[at + k] == s4.bytes[at + k]);
            }
        },
        Layout::ExternStruct { .. } => {},
        _ => {
            assert forall|b: Seq<u8>, x: int|
                #![trigger lay_attrs(with_bytes(st, b), x, true, attrs, o)]
                at + 2 <= x && b.len() == st.bytes.len() implies forall|k: int|
                0 <= k < 2 ==> #[trigger] lay_attrs(with_bytes(st, b), x, true, attrs, o).bytes[at
                    + k] == b[at + k] by {
                lemma_lay_attrs_frame(with_bytes(st, b), x, true, attrs, o);
            }
        },
    }
}

/// The field whose entry is at `field_at` is named by the distance at
/// its name member, its name is at `p` with its nul, and its type is
/// written with the label its shape has.
pub open spec fn field_described_at(b: Seq<u8>, field_at: int, f: Field, o: u8, p: int) -> bool {
    &&& holds_at(b, field_at + O_FIELD_NAME, rel_bytes(field_at + O_FIELD_NAME, p, o))
    &&& holds_at(b, p, c_str_bytes(f.name))
    &&& holds_at(b, field_at + O_FIELD_TYPE, host_bytes(type_label(f.layout) as u64, 2, o))
    &&& use_head(b, field_at + O_FIELD_TYPE, f.layout, o)
}

/// What the type at `at` of a gathered structure says where it is used,
/// however many uses share the structure's description: the offset it
/// is read from, how it is read, and its size.
pub open spec fn use_head(b: Seq<u8>, at: int, l: Layout, o: u8) -> bool {
    match l {
        Layout::GatherStruct { offset, size, access, .. } => {
            let u = at + O_TYPE_U;
            &&& holds_at(b, u + O_GSTRUCT_OFFSET, host_bytes(offset, 8, o))
            &&& holds_at(b, u + O_GSTRUCT_ACCESS, seq![access])
            &&& holds_at(b, u + O_GSTRUCT_SIZE, host_bytes(size as u64, 4, o))
        },
        _ => true,
    }
}

/// Laying a type out at `at` writes what a use of a gathered structure
/// says, and nothing after it writes over that.
proof fn lemma_lay_use_head(st: Lay, at: int, l: Layout, attrs: Seq<Attr>, o: u8)
    requires
        0 <= at,
        at + TYPE_SIZE <= st.pos,
        at + TYPE_SIZE <= st.bytes.len(),
    ensures
        use_head(lay_type(st, at, l, attrs, o).bytes, at, l, o),
{
    match l {
        Layout::GatherStruct { offset, size, access, fields } => {
            let u = at + O_TYPE_U;
            let w0 = write_uint(st.bytes, at, SIDE_TYPE_GATHER_STRUCT as u64, 2, o);
            let vo = host_bytes(offset, 8, o);
            let va = seq![access];
            let vs = host_bytes(size as u64, 4, o);
            let w1 = overwrite(w0, u + O_GSTRUCT_OFFSET, vo);
            let w2 = overwrite(w1, u + O_GSTRUCT_ACCESS, va);
            let w3 = overwrite(w2, u + O_GSTRUCT_SIZE, vs);
            assert(w3 == gather_struct_head(st.bytes, at, offset, size, access, o));
            lemma_overwrite_holds(w0, u + O_GSTRUCT_OFFSET, vo);
            lemma_overwrite_keeps(w1, u + O_GSTRUCT_ACCESS, va, u + O_GSTRUCT_OFFSET, vo);
            lemma_overwrite_holds(w1, u + O_GSTRUCT_ACCESS, va);
            lemma_overwrite_keeps(w2, u + O_GSTRUCT_SIZE, vs, u + O_GSTRUCT_OFFSET, vo);
            lemma_overwrite_keeps(w2, u + O_GSTRUCT_SIZE, vs, u + O_GSTRUCT_ACCESS, va);
            lemma_overwrite_holds(w2, u + O_GSTRUCT_SIZE, vs);
            let s0 = with_bytes(st, w3);
            let out = lay_type(st, at, l, attrs, o);
            match find_shared(s0.shared, fields@, size) {
                Some(off) => {
                    let rel = rel_bytes(u + O_GSTRUCT_TYPE, off, o);
                    let r1 = overwrite(w3, u + O_GSTRUCT_TYPE, rel);
                    let r2 = overwrite(r1, u + O_GSTRUCT_TYPE + 16, seq![1u8]);
                    assert(out.bytes == r2);
                    lemma_overwrite_keeps(w3, u + O_GSTRUCT_TYPE, rel, u + O_GSTRUCT_OFFSET, vo);
                    lemma_overwrite_keeps(w3, u + O_GSTRUCT_TYPE, rel, u + O_GSTRUCT_ACCESS, va);
                    lemma_overwrite_keeps(w3, u + O_GSTRUCT_TYPE, rel, u + O_GSTRUCT_SIZE, vs);
                    lemma_overwrite_keeps(r1, u + O_GSTRUCT_TYPE + 16, seq![1u8], u + O_GSTRUCT_OFFSET, vo);
                    lemma_overwrite_keeps(r1, u + O_GSTRUCT_TYPE + 16, seq![1u8], u + O_GSTRUCT_ACCESS, va);
                    lemma_overwrite_keeps(r1, u + O_GSTRUCT_TYPE + 16, seq![1u8], u + O_GSTRUCT_SIZE, vs);
                },
                None => {
                    let type_ = s0.pos;
                    let s1 = Lay {
                        bytes: s0.bytes,
                        pos: type_ + STRUCT_TYPE_SIZE,
                        shared: s0.shared.push(Slot { fields: fields@, size, offset: type_ }),
                        patches: s0.patches,
                    };
                    let r = lay_fields(s1, fields@, o);
                    let s2 = r.1;
                    lemma_lay_fields_frame(s1, fields@, o);
                    lemma_lay_fields(s1, fields@, o);
                    lemma_holds_kept(w3, s2.bytes, s1.pos, s2.pos, 0, 0, u + O_GSTRUCT_OFFSET, vo);
                    lemma_holds_kept(w3, s2.bytes, s1.pos, s2.pos, 0, 0, u + O_GSTRUCT_ACCESS, va);
                    lemma_holds_kept(w3, s2.bytes, s1.pos, s2.pos, 0, 0, u + O_GSTRUCT_SIZE, vs);
                    let rf = rel_bytes(type_ + O_STRUCT_FIELDS, r.0, o);
                    let c1 = overwrite(s2.bytes, type_ + O_STRUCT_FIELDS, rf);
                    let vl = host_bytes(fields@.len() as u32 as u64, 4, o);
                    let c2 = overwrite(c1, type_ + O_STRUCT_FIELDS + O_ARRAY_LENGTH, vl);
                    lemma_overwrite_keeps(s2.bytes, type_ + O_STRUCT_FIELDS, rf, u + O_GSTRUCT_OFFSET, vo);
                    lemma_overwrite_keeps(s2.bytes, type_ + O_STRUCT_FIELDS, rf, u + O_GSTRUCT_ACCESS, va);
                    lemma_overwrite_keeps(s2.bytes, type_ + O_STRUCT_FIELDS, rf, u + O_GSTRUCT_SIZE, vs);
                    lemma_overwrite_keeps(c1, type_ + O_STRUCT_FIELDS + O_ARRAY_LENGTH, vl, u + O_GSTRUCT_OFFSET, vo);
                    lemma_overwrite_keeps(c1, type_ + O_STRUCT_FIELDS + O_ARRAY_LENGTH, vl, u + O_GSTRUCT_ACCESS, va);
                    lemma_overwrite_keeps(c1, type_ + O_STRUCT_FIELDS + O_ARRAY_LENGTH, vl, u + O_GSTRUCT_SIZE, vs);
                    let rel = rel_bytes(u + O_GSTRUCT_TYPE, type_, o);
                    let r1 = overwrite(c2, u + O_GSTRUCT_TYPE, rel);
                    let r2 = overwrite(r1, u + O_GSTRUCT_TYPE + 16, seq![1u8]);
                    assert(out.bytes == r2);
                    lemma_overwrite_keeps(c2, u + O_GSTRUCT_TYPE, rel, u + O_GSTRUCT_OFFSET, vo);
                    lemma_overwrite_keeps(c2, u + O_GSTRUCT_TYPE, rel, u + O_GSTRUCT_ACCESS, va);
                    lemma_overwrite_keeps(c2, u + O_GSTRUCT_TYPE, rel, u + O_GSTRUCT_SIZE, vs);
                    lemma_overwrite_keeps(r1, u + O_GSTRUCT_TYPE + 16, seq![1u8], u + O_GSTRUCT_OFFSET, vo);
                    lemma_overwrite_keeps(r1, u + O_GSTRUCT_TYPE + 16, seq![1u8], u + O_GSTRUCT_ACCESS, va);
                    lemma_overwrite_keeps(r1, u + O_GSTRUCT_TYPE + 16, seq![1u8], u + O_GSTRUCT_SIZE, vs);
                },
            }
        },
        _ => {},
    }
}

/// The field whose entry is at `field_at` is described, its name
/// somewhere in `[lo, hi)`.
pub open spec fn field_found(b: Seq<u8>, field_at: int, f: Field, o: u8, lo: int, hi: int) -> bool {
    exists|p: int|
        lo <= p && p + str_size(f.name) <= hi && #[trigger] field_described_at(b, field_at, f, o, p)
}

/// `[lo, hi)` is clear of `[a, a + len)`.
pub open spec fn clear_of(lo: int, hi: int, a: int, len: int) -> bool {
    hi <= lo || hi <= a || a + len <= lo
}

proof fn lemma_field_described_kept(
    b1: Seq<u8>,
    b2: Seq<u8>,
    lo1: int,
    hi1: int,
    lo2: int,
    hi2: int,
    field_at: int,
    f: Field,
    o: u8,
    p: int,
)
    requires
        only_within(b1, b2, lo1, hi1, lo2, hi2),
        field_described_at(b1, field_at, f, o, p),
        clear_of(lo1, hi1, field_at, FIELD_SIZE as int),
        clear_of(lo2, hi2, field_at, FIELD_SIZE as int),
        clear_of(lo1, hi1, p, str_size(f.name)),
        clear_of(lo2, hi2, p, str_size(f.name)),
    ensures
        field_described_at(b2, field_at, f, o, p),
{
    lemma_holds_kept(b1, b2, lo1, hi1, lo2, hi2, field_at + O_FIELD_NAME, rel_bytes(field_at + O_FIELD_NAME, p, o));
    lemma_holds_kept(b1, b2, lo1, hi1, lo2, hi2, p, c_str_bytes(f.name));
    lemma_holds_kept(b1, b2, lo1, hi1, lo2, hi2, field_at + O_FIELD_TYPE, host_bytes(type_label(f.layout) as u64, 2, o));
    match f.layout {
        Layout::GatherStruct { offset, size, access, .. } => {
            let u = field_at + O_FIELD_TYPE + O_TYPE_U;
            lemma_holds_kept(b1, b2, lo1, hi1, lo2, hi2, u + O_GSTRUCT_OFFSET, host_bytes(offset, 8, o));
            lemma_holds_kept(b1, b2, lo1, hi1, lo2, hi2, u + O_GSTRUCT_ACCESS, seq![access]);
            lemma_holds_kept(b1, b2, lo1, hi1, lo2, hi2, u + O_GSTRUCT_SIZE, host_bytes(size as u64, 4, o));
        },
        _ => {},
    }
}

proof fn lemma_lay_field_described(st: Lay, field_at: int, f: Field, o: u8)
    requires
        0 <= field_at,
        field_at + FIELD_SIZE <= st.pos,
        lay_field(st, field_at, f, o).pos <= st.bytes.len(),
    ensures
        field_described_at(lay_field(st, field_at, f, o).bytes, field_at, f, o, st.pos),
        st.pos + str_size(f.name) <= lay_field(st, field_at, f, o).pos,
{
    let name = st.pos;
    let vn = c_str_bytes(f.name);
    let rn = rel_bytes(field_at + O_FIELD_NAME, name, o);
    let b1 = overwrite(st.bytes, name, vn);
    let b2 = overwrite(b1, field_at + O_FIELD_NAME, rn);
    let st1 = Lay { bytes: b2, pos: name + str_size(f.name), shared: st.shared, patches: st.patches };
    let out = lay_field(st, field_at, f, o);
    assert(out == lay_type(st1, field_at + O_FIELD_TYPE, f.layout, f.attributes@, o));
    lemma_lay_type(st1, field_at + O_FIELD_TYPE, f.layout, f.attributes@, o);
    lemma_lay_type_frame(st1, field_at + O_FIELD_TYPE, f.layout, f.attributes@, o);
    lemma_overwrite_holds(st.bytes, name, vn);
    lemma_overwrite_keeps(b1, field_at + O_FIELD_NAME, rn, name, vn);
    lemma_overwrite_holds(b1, field_at + O_FIELD_NAME, rn);
    lemma_holds_kept(b2, out.bytes, field_at + O_FIELD_TYPE, field_at + O_FIELD_TYPE + TYPE_SIZE, st1.pos, out.pos, name, vn);
    lemma_holds_kept(b2, out.bytes, field_at + O_FIELD_TYPE, field_at + O_FIELD_TYPE + TYPE_SIZE, st1.pos, out.pos, field_at + O_FIELD_NAME, rn);
    lemma_lay_type_label(st1, field_at + O_FIELD_TYPE, f.layout, f.attributes@, o);
    lemma_lay_use_head(st1, field_at + O_FIELD_TYPE, f.layout, f.attributes@, o);
}

proof fn lemma_field_items_described(st: Lay, array: int, fs: Seq<Field>, o: u8)
    requires
        0 <= array,
        array + fs.len() * FIELD_SIZE <= st.pos,
        lay_field_items(st, array, fs, o).pos <= st.bytes.len(),
    ensures
        forall|j: int|
            0 <= j < fs.len() ==> #[trigger] field_found(
                lay_field_items(st, array, fs, o).bytes,
                array + j * FIELD_SIZE,
                fs[j],
                o,
                st.pos,
                lay_field_items(st, array, fs, o).pos,
            ),
    decreases fs.len(),
{
    let out = lay_field_items(st, array, fs, o);
    if fs.len() > 0 {
        let n = fs.len();
        let mid = lay_field_items(st, array, fs.drop_last(), o);
        let slot = array + (n - 1) * FIELD_SIZE;
        crate::layout::lemma_lay_field_items(st, array, fs.drop_last(), o);
        crate::layout::lemma_lay_field(mid, slot, fs.last(), o);
        assert(out == lay_field(mid, slot, fs.last(), o));
        lemma_field_items_described(st, array, fs.drop_last(), o);
        crate::frame::lemma_lay_field_frame(mid, slot, fs.last(), o);
        lemma_lay_field_described(mid, slot, fs.last(), o);
        assert forall|j: int| 0 <= j < fs.len() implies #[trigger] field_found(
            out.bytes,
            array + j * FIELD_SIZE,
            fs[j],
            o,
            st.pos,
            out.pos,
        ) by {
            if j < n - 1 {
                assert(fs.drop_last()[j] == fs[j]);
                assert(field_found(mid.bytes, array + j * FIELD_SIZE, fs[j], o, st.pos, mid.pos));
                let p = choose|p: int|
                    st.pos <= p && p + str_size(fs[j].name) <= mid.pos
                        && #[trigger] field_described_at(
                        mid.bytes,
                        array + j * FIELD_SIZE,
                        fs[j],
                        o,
                        p,
                    );
                lemma_field_described_kept(
                    mid.bytes,
                    out.bytes,
                    slot,
                    slot + FIELD_SIZE,
                    mid.pos,
                    out.pos,
                    array + j * FIELD_SIZE,
                    fs[j],
                    o,
                    p,
                );
                assert(field_described_at(out.bytes, array + j * FIELD_SIZE, fs[j], o, p));
            } else {
                assert(field_described_at(out.bytes, slot, fs[j], o, mid.pos));
            }
        }
    }
}

/// A field found stays found where what changes lies clear of its entry
/// and of where its name may be.
proof fn lemma_found_kept(
    b1: Seq<u8>,
    b2: Seq<u8>,
    lo1: int,
    hi1: int,
    lo2: int,
    hi2: int,
    field_at: int,
    f: Field,
    o: u8,
    lo: int,
    hi: int,
    lo_: int,
    hi_: int,
)
    requires
        only_within(b1, b2, lo1, hi1, lo2, hi2),
        field_found(b1, field_at, f, o, lo, hi),
        clear_of(lo1, hi1, field_at, FIELD_SIZE as int),
        clear_of(lo2, hi2, field_at, FIELD_SIZE as int),
        clear_of(lo1, hi1, lo, hi - lo),
        clear_of(lo2, hi2, lo, hi - lo),
        lo_ <= lo,
        hi <= hi_,
    ensures
        field_found(b2, field_at, f, o, lo_, hi_),
{
    let p = choose|p: int|
        lo <= p && p + str_size(f.name) <= hi && #[trigger] field_described_at(b1, field_at, f, o, p);
    lemma_field_described_kept(b1, b2, lo1, hi1, lo2, hi2, field_at, f, o, p);
    assert(field_described_at(b2, field_at, f, o, p));
}

/// Laying one event out describes each of its fields in the field array
/// right after its names, which its description reaches by a distance.
proof fn lemma_event_fields_described(st: Lay, desc: int, e: EventSpec, o: u8)
    requires
        0 <= desc,
        desc + DESC_SIZE <= st.pos,
        lay_event(st, desc, e, o).pos <= st.bytes.len(),
    ensures
        ({
            let a = st.pos + str_size(e.provider) + str_size(e.event);
            let out = lay_event(st, desc, e, o);
            &&& holds_at(out.bytes, desc + O_DESC_FIELDS, rel_bytes(desc + O_DESC_FIELDS, a, o))
            &&& a + e.fields@.len() * FIELD_SIZE <= out.pos
            &&& forall|j: int|
                0 <= j < e.fields@.len() ==> #[trigger] field_found(
                    out.bytes,
                    a + j * FIELD_SIZE,
                    e.fields@[j],
                    o,
                    st.pos,
                    out.pos,
                )
        }),
{
    broadcast use crate::layout::lemma_lay_attrs;

    let out = lay_event(st, desc, e, o);
    let p = st.pos;
    let ev = p + str_size(e.provider);
    let b0 = event_head(st.bytes, desc, e, o);
    let a1 = overwrite(b0, p, c_str_bytes(e.provider));
    let b1 = overwrite(a1, desc + O_DESC_PROVIDER, rel_bytes(desc + O_DESC_PROVIDER, p, o));
    let a2 = overwrite(b1, ev, c_str_bytes(e.event));
    let b2 = overwrite(a2, desc + O_DESC_EVENT, rel_bytes(desc + O_DESC_EVENT, ev, o));
    let s1 = Lay { bytes: b2, pos: ev + str_size(e.event), shared: st.shared, patches: st.patches };
    let fs = e.fields@;
    let a = s1.pos;
    let s1w = with_pos(s1, a + fs.len() * FIELD_SIZE);
    let r = lay_fields(s1, fs, o);
    let s2 = r.1;
    let rf = rel_bytes(desc + O_DESC_FIELDS, a, o);
    let c1 = overwrite(s2.bytes, desc + O_DESC_FIELDS, rf);
    let vl = host_bytes(fs.len() as u32 as u64, 4, o);
    let b3 = overwrite(c1, desc + O_DESC_FIELDS + O_ARRAY_LENGTH, vl);
    let s3 = with_bytes(s2, b3);
    assert(out == lay_attrs(s3, desc + O_DESC_ATTRIBUTES, false, e.attributes@, o));
    lemma_lay_fields(s1, fs, o);
    crate::layout::lemma_lay_field_items(s1w, a, fs, o);
    lemma_lay_attrs_frame(s3, desc + O_DESC_ATTRIBUTES, false, e.attributes@, o);
    lemma_field_items_described(s1w, a, fs, o);
    lemma_overwrite_within(s2.bytes, desc + O_DESC_FIELDS, rf);
    lemma_overwrite_within(c1, desc + O_DESC_FIELDS + O_ARRAY_LENGTH, vl);
    assert forall|j: int| 0 <= j < fs.len() implies #[trigger] field_found(
        out.bytes,
        a + j * FIELD_SIZE,
        fs[j],
        o,
        st.pos,
        out.pos,
    ) by {
        let fa = a + j * FIELD_SIZE;
        assert(field_found(s2.bytes, fa, fs[j], o, a + fs.len() * FIELD_SIZE, s2.pos));
        lemma_found_kept(s2.bytes, c1, desc + O_DESC_FIELDS, desc + O_DESC_FIELDS + 8, 0, 0, fa, fs[j], o, a + fs.len() * FIELD_SIZE, s2.pos, a + fs.len() * FIELD_SIZE, s2.pos);
        lemma_found_kept(c1, b3, desc + O_DESC_FIELDS + O_ARRAY_LENGTH, desc + O_DESC_FIELDS + O_ARRAY_LENGTH + 4, 0, 0, fa, fs[j], o, a + fs.len() * FIELD_SIZE, s2.pos, a + fs.len() * FIELD_SIZE, s2.pos);
        lemma_found_kept(b3, out.bytes, desc + O_DESC_ATTRIBUTES, desc + O_DESC_ATTRIBUTES + 12, s2.pos, out.pos, fa, fs[j], o, a + fs.len() * FIELD_SIZE, s2.pos, st.pos, out.pos);
    }
    lemma_overwrite_holds(s2.bytes, desc + O_DESC_FIELDS, rf);
    lemma_overwrite_keeps(c1, desc + O_DESC_FIELDS + O_ARRAY_LENGTH, vl, desc + O_DESC_FIELDS, rf);
    lemma_holds_kept(b3, out.bytes, desc + O_DESC_ATTRIBUTES, desc + O_DESC_ATTRIBUTES + 12, s2.pos, out.pos, desc + O_DESC_FIELDS, rf);
}

/// The description at `d` reaches its field array at `a`, and every
/// field of `e` is described there, in order.
pub open spec fn event_fields_at(b: Seq<u8>, d: int, e: EventSpec, o: u8, a: int) -> bool {
    &&& holds_at(b, d + O_DESC_FIELDS, rel_bytes(d + O_DESC_FIELDS, a, o))
    &&& forall|j: int|
        0 <= j < e.fields@.len() ==> #[trigger] field_found(
            b,
            a + j * FIELD_SIZE,
            e.fields@[j],
            o,
            0,
            b.len() as int,
        )
}

proof fn lemma_event_fields_step(events: Seq<EventSpec>, i: int, n: nat, o: u8)
    requires
        0 <= i < events.len(),
        events.len() * DESC_SIZE <= lay_events(events, i as nat, n, o).pos,
        lay_events(events, (i + 1) as nat, n, o).pos <= n,
        lay_events(events, i as nat, n, o).bytes.len() == n,
    ensures
        ({
            let li = lay_events(events, i as nat, n, o);
            let lj = lay_events(events, (i + 1) as nat, n, o);
            let e = events[i];
            let a = li.pos + str_size(e.provider) + str_size(e.event);
            &&& holds_at(lj.bytes, i * DESC_SIZE + O_DESC_FIELDS, rel_bytes(i * DESC_SIZE + O_DESC_FIELDS, a, o))
            &&& a + e.fields@.len() * FIELD_SIZE <= lj.pos
            &&& forall|j: int|
                0 <= j < e.fields@.len() ==> #[trigger] field_found(
                    lj.bytes,
                    a + j * FIELD_SIZE,
                    e.fields@[j],
                    o,
                    li.pos,
                    lj.pos,
                )
        }),
{
    let li = lay_events(events, i as nat, n, o);
    assert(lay_events(events, (i + 1) as nat, n, o) == lay_event(li, i * DESC_SIZE, events[i], o));
    lemma_event_fields_described(li, i * DESC_SIZE, events[i], o);
}

/// The description of every field of every event of a group says what
/// the field says: the event's description reaches its field array by a
/// distance, and in it each field, in order, is named by the distance
/// at its name member -- its name with the nul a C reader stops at --
/// and its type carries the label of its shape. Where that is a gathered
/// structure, the type at the field carries the structure's own offset,
/// access and size, whether or not the structure's description is one
/// another field shares.
///
/// This holds of the bytes `build_group` returns, laid out into as many
/// bytes as `group_size` measures, in either byte order.
pub proof fn law_group_describes_fields(events: Seq<EventSpec>, i: int, o: u8)
    requires
        events_wf(events),
        0 <= i < events.len(),
    ensures
        exists|a: int|
            #[trigger] event_fields_at(
                group_bytes(events, group_size_spec(events) as nat, o),
                i * DESC_SIZE,
                events[i],
                o,
                a,
            ),
{
    lemma_group_size_covers(events);
    let n = group_size_spec(events) as nat;
    lemma_group_bounds(events, i, n, o);
    lemma_event_fields_step(events, i, n, o);
    lemma_event_fields_kept(events, i, n, o);
    let li = lay_events(events, i as nat, n, o);
    let a = li.pos + str_size(events[i].provider) + str_size(events[i].event);
    assert(group_bytes(events, n, o) == lay_events(events, events.len(), n, o).bytes);
    assert(event_fields_at(group_bytes(events, n, o), i * DESC_SIZE, events[i], o, a));
}

proof fn lemma_event_fields_kept(events: Seq<EventSpec>, i: int, n: nat, o: u8)
    requires
        0 <= i < events.len(),
        events.len() * DESC_SIZE <= lay_events(events, i as nat, n, o).pos,
        lay_events(events, (i + 1) as nat, n, o).pos <= lay_events(events, events.len(), n, o).bytes.len(),
        ({
            let li = lay_events(events, i as nat, n, o);
            let lj = lay_events(events, (i + 1) as nat, n, o);
            let e = events[i];
            let a = li.pos + str_size(e.provider) + str_size(e.event);
            &&& holds_at(lj.bytes, i * DESC_SIZE + O_DESC_FIELDS, rel_bytes(i * DESC_SIZE + O_DESC_FIELDS, a, o))
            &&& a + e.fields@.len() * FIELD_SIZE <= lj.pos
            &&& forall|j: int|
                0 <= j < e.fields@.len() ==> #[trigger] field_found(
                    lj.bytes,
                    a + j * FIELD_SIZE,
                    e.fields@[j],
                    o,
                    li.pos,
                    lj.pos,
                )
        }),
    ensures
        event_fields_at(
            lay_events(events, events.len(), n, o).bytes,
            i * DESC_SIZE,
            events[i],
            o,
            lay_events(events, i as nat, n, o).pos + str_size(events[i].provider) + str_size(
                events[i].event,
            ),
        ),
{
    let len = events.len();
    let li = lay_events(events, i as nat, n, o);
    let lj = lay_events(events, (i + 1) as nat, n, o);
    let fin = lay_events(events, len, n, o);
    let e = events[i];
    let d = i * DESC_SIZE;
    let a = li.pos + str_size(e.provider) + str_size(e.event);
    lemma_lay_events_frame(events, (i + 1) as nat, len, n, o);
    crate::layout::lemma_lay_events_prefix(events, i as nat, (i + 1) as nat, n, o);
    let lo1 = (i + 1) * DESC_SIZE;
    let hi1 = len * DESC_SIZE;
    lemma_holds_kept(lj.bytes, fin.bytes, lo1, hi1, lj.pos, fin.pos, d + O_DESC_FIELDS, rel_bytes(d + O_DESC_FIELDS, a, o));
    assert forall|j: int| 0 <= j < e.fields@.len() implies #[trigger] field_found(
        fin.bytes,
        a + j * FIELD_SIZE,
        e.fields@[j],
        o,
        0,
        fin.bytes.len() as int,
    ) by {
        assert(field_found(lj.bytes, a + j * FIELD_SIZE, e.fields@[j], o, li.pos, lj.pos));
        lemma_found_kept(lj.bytes, fin.bytes, lo1, hi1, lj.pos, fin.pos, a + j * FIELD_SIZE, e.fields@[j], o, li.pos, lj.pos, 0, fin.bytes.len() as int);
    }
}

/* What a hole holds until the loader fills it. */

/// The address of a hole and the selector byte after it are zero: a
/// reader takes the member for an address, and the loader has not
/// written it yet.
pub open spec fn hole_zero(b: Seq<u8>, h: int) -> bool {
    &&& 0 <= h
    &&& h + PATCH_WIDTH + 1 <= b.len()
    &&& forall|i: int| h <= i < h + PATCH_WIDTH + 1 ==> #[trigger] b[i] == 0
}

/// Nothing has been written from `from` on.
pub open spec fn zero_from(b: Seq<u8>, from: int) -> bool {
    forall|i: int| from <= i < b.len() ==> #[trigger] b[i] == 0
}

proof fn lemma_items_zero_holes(st: Lay, array: int, fs: Seq<Field>, o: u8)
    requires
        forall|j: int| 0 <= j < fs.len() ==> #[trigger] extern_at_top(fs[j]),
        0 <= array,
        array + fs.len() * FIELD_SIZE <= st.pos,
        array + fs.len() * FIELD_SIZE <= st.bytes.len(),
        forall|i: int| array <= i < array + fs.len() * FIELD_SIZE ==> #[trigger] st.bytes[i] == 0,
    ensures
        forall|k: int|
            0 <= k < field_holes(array, fs).len() ==> #[trigger] hole_zero(
                lay_field_items(st, array, fs, o).bytes,
                field_holes(array, fs)[k],
            ),
    decreases fs.len(),
{
    let out = lay_field_items(st, array, fs, o);
    if fs.len() > 0 {
        let n = fs.len();
        let f = fs.last();
        let mid = lay_field_items(st, array, fs.drop_last(), o);
        let slot = array + (n - 1) * FIELD_SIZE;
        assert(extern_at_top(fs[n - 1]));
        assert forall|j: int| 0 <= j < fs.drop_last().len() implies #[trigger] extern_at_top(
            fs.drop_last()[j],
        ) by {
            assert(fs.drop_last()[j] == fs[j]);
        }
        lemma_items_zero_holes(st, array, fs.drop_last(), o);
        crate::layout::lemma_lay_field_items(st, array, fs.drop_last(), o);
        crate::frame::lemma_lay_field_items_frame(st, array, fs.drop_last(), o);
        crate::frame::lemma_lay_field_frame(mid, slot, f, o);
        crate::layout::lemma_lay_field(mid, slot, f, o);
        assert(out == lay_field(mid, slot, f, o));
        crate::laws::lemma_field_holes(array, fs.drop_last());
        let old = field_holes(array, fs.drop_last());
        assert forall|k: int| 0 <= k < old.len() implies #[trigger] hole_zero(out.bytes, old[k]) by {
            assert(hole_zero(mid.bytes, old[k]));
            assert forall|i: int| old[k] <= i < old[k] + PATCH_WIDTH + 1 implies #[trigger] out.bytes[i]
                == 0 by {
                assert(mid.bytes[i] == 0);
            }
        }
        if f.layout is ExternStruct {
            let h = slot + O_FIELD_TYPE + O_TYPE_U + O_GSTRUCT_TYPE;
            let name = mid.pos;
            let st1 = Lay {
                bytes: write_rel(
                    overwrite(mid.bytes, name, c_str_bytes(f.name)),
                    slot + O_FIELD_NAME,
                    name,
                    o,
                ),
                pos: name + str_size(f.name),
                shared: mid.shared,
                patches: mid.patches,
            };
            assert(out == lay_type(st1, slot + O_FIELD_TYPE, f.layout, f.attributes@, o));
            assert forall|i: int| h <= i < h + PATCH_WIDTH + 1 implies #[trigger] out.bytes[i] == 0 by {
                assert(mid.bytes[i] == st.bytes[i]);
                assert(st1.bytes[i] == mid.bytes[i]);
            }
            assert(field_holes(array, fs) == old.push(h));
            assert forall|k: int| 0 <= k < field_holes(array, fs).len() implies #[trigger] hole_zero(
                out.bytes,
                field_holes(array, fs)[k],
            ) by {
                if k < old.len() {
                    assert(field_holes(array, fs)[k] == old[k]);
                }
            }
        }
    }
}

proof fn lemma_event_zero_holes(st: Lay, desc: int, e: EventSpec, o: u8)
    requires
        forall|j: int| 0 <= j < e.fields@.len() ==> #[trigger] extern_at_top(e.fields@[j]),
        0 <= desc,
        desc + DESC_SIZE <= st.pos,
        lay_event(st, desc, e, o).pos <= st.bytes.len(),
        zero_from(st.bytes, st.pos),
    ensures
        ({
            let a = st.pos + str_size(e.provider) + str_size(e.event);
            let out = lay_event(st, desc, e, o);
            forall|k: int|
                0 <= k < field_holes(a, e.fields@).len() ==> #[trigger] hole_zero(
                    out.bytes,
                    field_holes(a, e.fields@)[k],
                )
        }),
        zero_from(lay_event(st, desc, e, o).bytes, lay_event(st, desc, e, o).pos),
{
    broadcast use crate::layout::lemma_lay_attrs;

    let out = lay_event(st, desc, e, o);
    let p = st.pos;
    let ev = p + str_size(e.provider);
    let b0 = event_head(st.bytes, desc, e, o);
    let a1 = overwrite(b0, p, c_str_bytes(e.provider));
    let b1 = overwrite(a1, desc + O_DESC_PROVIDER, rel_bytes(desc + O_DESC_PROVIDER, p, o));
    let a2 = overwrite(b1, ev, c_str_bytes(e.event));
    let b2 = overwrite(a2, desc + O_DESC_EVENT, rel_bytes(desc + O_DESC_EVENT, ev, o));
    let s1 = Lay { bytes: b2, pos: ev + str_size(e.event), shared: st.shared, patches: st.patches };
    let fs = e.fields@;
    let a = s1.pos;
    let s1w = with_pos(s1, a + fs.len() * FIELD_SIZE);
    let r = lay_fields(s1, fs, o);
    let s2 = r.1;
    let c1 = overwrite(s2.bytes, desc + O_DESC_FIELDS, rel_bytes(desc + O_DESC_FIELDS, a, o));
    let b3 = overwrite(
        c1,
        desc + O_DESC_FIELDS + O_ARRAY_LENGTH,
        host_bytes(fs.len() as u32 as u64, 4, o),
    );
    let s3 = with_bytes(s2, b3);
    assert(out == lay_attrs(s3, desc + O_DESC_ATTRIBUTES, false, e.attributes@, o));
    lemma_lay_fields(s1, fs, o);
    crate::layout::lemma_lay_field_items(s1w, a, fs, o);
    lemma_lay_attrs_frame(s3, desc + O_DESC_ATTRIBUTES, false, e.attributes@, o);
    crate::laws::lemma_field_holes(a, fs);
    crate::laws::lemma_lay_event_frame(st, desc, e, o);
    assert forall|i: int| a <= i < a + fs.len() * FIELD_SIZE implies #[trigger] s1w.bytes[i] == 0 by {
        assert(st.bytes[i] == 0);
    }
    lemma_items_zero_holes(s1w, a, fs, o);
    let holes = field_holes(a, fs);
    assert forall|k: int| 0 <= k < holes.len() implies #[trigger] hole_zero(out.bytes, holes[k]) by {
        assert(hole_zero(s2.bytes, holes[k]));
        assert forall|i: int| holes[k] <= i < holes[k] + PATCH_WIDTH + 1 implies #[trigger] out.bytes[i]
            == 0 by {
            assert(s2.bytes[i] == 0);
            assert(b3[i] == s2.bytes[i]);
        }
    }
    assert forall|i: int| out.pos <= i < out.bytes.len() implies #[trigger] out.bytes[i] == 0 by {
        assert(st.bytes[i] == 0);
    }
}

/// The holes of the first `k` events are left zero, past the
/// descriptions and behind the next free byte, and nothing past it has
/// been written.
proof fn lemma_zero_holes_events(all: Seq<EventSpec>, k: nat, n: nat, o: u8)
    requires
        events_extern_at_top(all),
        k <= all.len(),
        all.len() * DESC_SIZE <= n,
        lay_events(all, all.len(), n, o).pos <= n,
    ensures
        zero_from(lay_events(all, k, n, o).bytes, lay_events(all, k, n, o).pos),
        forall|m: int|
            0 <= m < lay_events(all, k, n, o).patches.len() ==> {
                &&& #[trigger] hole_zero(lay_events(all, k, n, o).bytes, lay_events(all, k, n, o).patches[m])
                &&& all.len() * DESC_SIZE <= lay_events(all, k, n, o).patches[m]
                &&& lay_events(all, k, n, o).patches[m] + PATCH_WIDTH + 1 <= lay_events(all, k, n, o).pos
            },
    decreases k,
{
    let lk = lay_events(all, k, n, o);
    if k > 0 {
        let st = lay_events(all, (k - 1) as nat, n, o);
        let e = all[k - 1];
        let desc = (k - 1) * DESC_SIZE;
        let fs = e.fields@;
        lemma_zero_holes_events(all, (k - 1) as nat, n, o);
        crate::layout::lemma_lay_events_prefix(all, 0, (k - 1) as nat, n, o);
        crate::layout::lemma_lay_events_prefix(all, k, all.len(), n, o);
        crate::layout::lemma_lay_events_prefix(all, (k - 1) as nat, k, n, o);
        assert(lk == lay_event(st, desc, e, o));
        assert forall|j: int| 0 <= j < fs.len() implies #[trigger] extern_at_top(fs[j]) by {
            assert(extern_at_top(all[k - 1].fields@[j]));
        }
        let a = st.pos + str_size(e.provider) + str_size(e.event);
        crate::laws::lemma_event_holes(st, desc, e, o);
        crate::laws::lemma_field_holes(a, fs);
        crate::laws::lemma_lay_event_frame(st, desc, e, o);
        lemma_event_zero_holes(st, desc, e, o);
        let holes = field_holes(a, fs);
        assert(lk.patches == st.patches + holes);
        assert forall|m: int| 0 <= m < lk.patches.len() implies {
            &&& #[trigger] hole_zero(lk.bytes, lk.patches[m])
            &&& all.len() * DESC_SIZE <= lk.patches[m]
            &&& lk.patches[m] + PATCH_WIDTH + 1 <= lk.pos
        } by {
            if m < st.patches.len() {
                let h = st.patches[m];
                assert(lk.patches[m] == h);
                assert(hole_zero(st.bytes, h));
                assert forall|i: int| h <= i < h + PATCH_WIDTH + 1 implies #[trigger] lk.bytes[i] == 0 by {
                    assert(st.bytes[i] == 0);
                }
            } else {
                assert(lk.patches[m] == holes[m - st.patches.len()]);
            }
        }
    }
}

/// Every hole a group leaves for the address of a structure described
/// elsewhere is left zero -- the address and the selector byte after
/// it, which says the member holds an address -- for the object built
/// around the bytes to fill in. This holds of the holes `build_group`
/// reports, for a group whose references to structures described
/// elsewhere are all fields of its events, in either byte order.
pub proof fn law_group_holes_left_zero(events: Seq<EventSpec>, o: u8)
    requires
        events_wf(events),
        events_extern_at_top(events),
    ensures
        forall|m: int|
            0 <= m < group_holes(events).len() ==> #[trigger] hole_zero(
                group_bytes(events, group_size_spec(events) as nat, o),
                group_holes(events)[m],
            ),
{
    lemma_group_size_covers(events);
    let n = group_size_spec(events) as nat;
    crate::agree::lemma_group_measure(events, n, o);
    crate::agree::lemma_group_geometry(events, n, 0, o, crate::abi::SIDE_TYPE_BYTE_ORDER_LE);
    lemma_zero_holes_events(events, events.len(), n, o);
    assert(group_bytes(events, n, o) == lay_events(events, events.len(), n, o).bytes);
    assert(group_holes(events) == lay_events(events, events.len(), n, o).patches);
}

/* What one member says, laid out. */

/// An attribute list laid out at the next free byte `st.pos` and pointed
/// at from the member at `at` takes exactly the room it measures, and
/// changes nothing but that room and the member. The member holds the
/// distance from itself to the list and how many attributes the list
/// has; a selector pointer also says that what it holds is a distance.
pub proof fn law_attrs_member(st: Lay, at: int, selector: bool, attrs: Seq<Attr>, o: u8)
    requires
        attrs.len() > 0,
        0 <= at,
        at + attrs_ptr_size(selector) <= st.bytes.len(),
    ensures
        ({
            let out = lay_attrs(st, at, selector, attrs, o);
            let n = host_bytes(attrs.len() as u32 as u64, 4, o);
            &&& out.pos == st.pos + attrs_size_spec(attrs)
            &&& only_within(st.bytes, out.bytes, at, at + attrs_ptr_size(selector), st.pos, out.pos)
            &&& holds_at(out.bytes, at, rel_bytes(at, st.pos, o))
            &&& selector ==> holds_at(out.bytes, at + O_SEL_IS_OFFSET, seq![1u8])
            &&& selector ==> holds_at(out.bytes, at + O_SEL_ARRAY_LENGTH, n)
            &&& !selector ==> holds_at(out.bytes, at + O_ARRAY_LENGTH, n)
        }),
{
    crate::layout::lemma_lay_attrs(st, at, selector, attrs, o);
    lemma_lay_attrs_frame(st, at, selector, attrs, o);
    let array = st.pos;
    let st2 = crate::layout::lay_attr_items(with_pos(st, array + attrs.len() * ATTR_SIZE), array, attrs, o);
    crate::layout::lemma_lay_attr_items(with_pos(st, array + attrs.len() * ATTR_SIZE), array, attrs, o);
    let rel = rel_bytes(at, array, o);
    let n = host_bytes(attrs.len() as u32 as u64, 4, o);
    let b1 = overwrite(st2.bytes, at, rel);
    lemma_overwrite_holds(st2.bytes, at, rel);
    if selector {
        let b2 = overwrite(b1, at + O_SEL_IS_OFFSET, seq![1u8]);
        lemma_overwrite_keeps(b1, at + O_SEL_IS_OFFSET, seq![1u8], at, rel);
        lemma_overwrite_holds(b1, at + O_SEL_IS_OFFSET, seq![1u8]);
        let b3 = overwrite(b2, at + O_SEL_ARRAY_LENGTH, n);
        lemma_overwrite_keeps(b2, at + O_SEL_ARRAY_LENGTH, n, at, rel);
        lemma_overwrite_keeps(b2, at + O_SEL_ARRAY_LENGTH, n, at + O_SEL_IS_OFFSET, seq![1u8]);
        lemma_overwrite_holds(b2, at + O_SEL_ARRAY_LENGTH, n);
        assert(lay_attrs(st, at, selector, attrs, o).bytes == b3);
    } else {
        let b3 = overwrite(b1, at + O_ARRAY_LENGTH, n);
        lemma_overwrite_keeps(b1, at + O_ARRAY_LENGTH, n, at, rel);
        lemma_overwrite_holds(b1, at + O_ARRAY_LENGTH, n);
        assert(lay_attrs(st, at, selector, attrs, o).bytes == b3);
    }
}

/// A use of a gathered structure the group has already laid out, at
/// `target`, takes no room beyond its own 64 bytes and lays nothing out:
/// it writes its label, a selector pointer holding the distance to that
/// one description, and its own offset, access and size.
pub proof fn law_shared_use(st: Lay, at: int, l: Layout, o: u8, target: int)
    requires
        l is GatherStruct,
        find_shared(st.shared, l->fields@, l->GatherStruct_size) == Some(target),
        0 <= at,
        at + TYPE_SIZE <= st.bytes.len(),
    ensures
        ({
            let out = lay_type(st, at, l, Seq::empty(), o);
            let u = at + O_TYPE_U;
            &&& out.pos == st.pos
            &&& out.shared == st.shared
            &&& out.patches == st.patches
            &&& only_within(st.bytes, out.bytes, at, at + TYPE_SIZE, 0, 0)
            &&& holds_at(out.bytes, at, host_bytes(SIDE_TYPE_GATHER_STRUCT as u64, 2, o))
            &&& holds_at(out.bytes, u + O_GSTRUCT_TYPE, rel_bytes(u + O_GSTRUCT_TYPE, target, o))
            &&& holds_at(out.bytes, u + O_GSTRUCT_TYPE + O_SEL_IS_OFFSET, seq![1u8])
            &&& use_head(out.bytes, at, l, o)
        }),
{
    match l {
        Layout::GatherStruct { offset, size, access, fields } => {
            let u = at + O_TYPE_U;
            let lab = host_bytes(SIDE_TYPE_GATHER_STRUCT as u64, 2, o);
            let w0 = write_uint(st.bytes, at, SIDE_TYPE_GATHER_STRUCT as u64, 2, o);
            let vo = host_bytes(offset, 8, o);
            let va = seq![access];
            let vs = host_bytes(size as u64, 4, o);
            let w1 = overwrite(w0, u + O_GSTRUCT_OFFSET, vo);
            let w2 = overwrite(w1, u + O_GSTRUCT_ACCESS, va);
            let w3 = overwrite(w2, u + O_GSTRUCT_SIZE, vs);
            assert(w3 == gather_struct_head(st.bytes, at, offset, size, access, o));
            lemma_overwrite_holds(st.bytes, at, lab);
            lemma_overwrite_keeps(w0, u + O_GSTRUCT_OFFSET, vo, at, lab);
            lemma_overwrite_keeps(w1, u + O_GSTRUCT_ACCESS, va, at, lab);
            lemma_overwrite_keeps(w2, u + O_GSTRUCT_SIZE, vs, at, lab);
            let rel = rel_bytes(u + O_GSTRUCT_TYPE, target, o);
            let r1 = overwrite(w3, u + O_GSTRUCT_TYPE, rel);
            let r2 = overwrite(r1, u + O_GSTRUCT_TYPE + O_SEL_IS_OFFSET, seq![1u8]);
            let out = lay_type(st, at, l, Seq::empty(), o);
            assert(out.bytes == r2);
            lemma_overwrite_keeps(w3, u + O_GSTRUCT_TYPE, rel, at, lab);
            lemma_overwrite_holds(w3, u + O_GSTRUCT_TYPE, rel);
            lemma_overwrite_keeps(r1, u + O_GSTRUCT_TYPE + O_SEL_IS_OFFSET, seq![1u8], at, lab);
            lemma_overwrite_keeps(r1, u + O_GSTRUCT_TYPE + O_SEL_IS_OFFSET, seq![1u8], u + O_GSTRUCT_TYPE, rel);
            lemma_overwrite_holds(r1, u + O_GSTRUCT_TYPE + O_SEL_IS_OFFSET, seq![1u8]);
            lemma_overwrite_holds(w0, u + O_GSTRUCT_OFFSET, vo);
            lemma_overwrite_keeps(w1, u + O_GSTRUCT_ACCESS, va, u + O_GSTRUCT_OFFSET, vo);
            lemma_overwrite_holds(w1, u + O_GSTRUCT_ACCESS, va);
            lemma_overwrite_keeps(w2, u + O_GSTRUCT_SIZE, vs, u + O_GSTRUCT_OFFSET, vo);
            lemma_overwrite_keeps(w2, u + O_GSTRUCT_SIZE, vs, u + O_GSTRUCT_ACCESS, va);
            lemma_overwrite_holds(w2, u + O_GSTRUCT_SIZE, vs);
            lemma_overwrite_keeps(w3, u + O_GSTRUCT_TYPE, rel, u + O_GSTRUCT_OFFSET, vo);
            lemma_overwrite_keeps(w3, u + O_GSTRUCT_TYPE, rel, u + O_GSTRUCT_ACCESS, va);
            lemma_overwrite_keeps(w3, u + O_GSTRUCT_TYPE, rel, u + O_GSTRUCT_SIZE, vs);
            lemma_overwrite_keeps(r1, u + O_GSTRUCT_TYPE + O_SEL_IS_OFFSET, seq![1u8], u + O_GSTRUCT_OFFSET, vo);
            lemma_overwrite_keeps(r1, u + O_GSTRUCT_TYPE + O_SEL_IS_OFFSET, seq![1u8], u + O_GSTRUCT_ACCESS, va);
            lemma_overwrite_keeps(r1, u + O_GSTRUCT_TYPE + O_SEL_IS_OFFSET, seq![1u8], u + O_GSTRUCT_SIZE, vs);
            assert(only_within(st.bytes, out.bytes, at, at + TYPE_SIZE, 0, 0));
        },
        _ => {},
    }
}

/// A type laid out at `at` takes exactly the room `layout_size`
/// measures for it, beside the room its attributes take, and leaves the
/// group holding structures of the same shapes, in the same order, as
/// measuring does; only where each begins differs.
pub proof fn law_type_takes_what_it_measures(
    st: Lay,
    at: int,
    l: Layout,
    attrs: Seq<Attr>,
    o: u8,
    t: Seq<Slot>,
)
    requires
        same_keys(st.shared, t),
        layout_wf(l),
        type_attrs_wf(l, attrs),
    ensures
        lay_type(st, at, l, attrs, o).pos == st.pos + attrs_size_spec(attrs) + layout_size_spec(
            l,
            t,
        ).0,
        same_keys(lay_type(st, at, l, attrs, o).shared, layout_size_spec(l, t).1),
{
    lemma_measure_type(st, at, l, attrs, o, t);
}

/// A field list laid out at the next free byte starts there, takes
/// exactly the room `fields_size` measures, and leaves the group holding
/// structures of the same shapes as measuring does. Each field's entry,
/// `FIELD_SIZE` bytes apart from the start, is named by the distance at
/// its name member -- its name with its nul, after the array -- and its
/// type, right after that member, carries its label.
pub proof fn law_fields_described(st: Lay, fs: Seq<Field>, o: u8, t: Seq<Slot>)
    requires
        same_keys(st.shared, t),
        fields_wf(fs),
        0 <= st.pos,
        st.pos + fields_size_spec(fs, t).0 <= st.bytes.len(),
    ensures
        ({
            let r = lay_fields(st, fs, o);
            &&& r.0 == st.pos
            &&& r.1.pos == st.pos + fields_size_spec(fs, t).0
            &&& same_keys(r.1.shared, fields_size_spec(fs, t).1)
            &&& forall|j: int|
                0 <= j < fs.len() ==> #[trigger] field_found(
                    r.1.bytes,
                    st.pos + j * FIELD_SIZE,
                    fs[j],
                    o,
                    st.pos + fs.len() * FIELD_SIZE,
                    r.1.pos,
                )
        }),
{
    lemma_measure_fields(st, fs, o, t);
    let st1 = with_pos(st, st.pos + fs.len() * FIELD_SIZE);
    crate::layout::lemma_lay_field_items(st1, st.pos, fs, o);
    lemma_field_items_described(st1, st.pos, fs, o);
}

/// Every integer field of every event of a group is described, in the
/// bytes `build_group` returns, with the libside label of its width and
/// signedness: an unsigned one of 1, 2, 4 or 8 bytes with
/// `SIDE_TYPE_U8`, `_U16`, `_U32` or `_U64`, a signed one with
/// `SIDE_TYPE_S8`, `_S16`, `_S32` or `_S64`; the label stands at the
/// start of the type of the field's entry in the field array the event's
/// description reaches. This holds in either byte order.
pub proof fn law_integer_fields_labelled(events: Seq<EventSpec>, i: int, o: u8)
    requires
        events_wf(events),
        0 <= i < events.len(),
    ensures
        exists|a: int|
            #[trigger] event_fields_at(
                group_bytes(events, group_size_spec(events) as nat, o),
                i * DESC_SIZE,
                events[i],
                o,
                a,
            ) && forall|j: int|
                #![trigger events[i].fields@[j]]
                0 <= j < events[i].fields@.len() ==> (events[i].fields@[j].layout matches Layout::Integer {
                    size,
                    signed,
                } ==> holds_at(
                    group_bytes(events, group_size_spec(events) as nat, o),
                    a + j * FIELD_SIZE + O_FIELD_TYPE,
                    host_bytes(
                        (if !signed && size == 1 {
                            SIDE_TYPE_U8
                        } else if !signed && size == 2 {
                            SIDE_TYPE_U16
                        } else if !signed && size == 4 {
                            SIDE_TYPE_U32
                        } else if !signed && size == 8 {
                            SIDE_TYPE_U64
                        } else if signed && size == 1 {
                            SIDE_TYPE_S8
                        } else if signed && size == 2 {
                            SIDE_TYPE_S16
                        } else if signed && size == 4 {
                            SIDE_TYPE_S32
                        } else {
                            SIDE_TYPE_S64
                        }) as u64,
                        2,
                        o,
                    ),
                )),
{
    let b = group_bytes(events, group_size_spec(events) as nat, o);
    law_group_describes_fields(events, i, o);
    let a = choose|a: int| #[trigger] event_fields_at(b, i * DESC_SIZE, events[i], o, a);
    let fs = events[i].fields@;
    assert(fields_wf(fs));
    crate::layout::lemma_fields_wf(fs);
    assert forall|j: int| #![trigger fs[j]] 0 <= j < fs.len() implies (fs[j].layout matches Layout::Integer {
        size,
        signed,
    } ==> holds_at(
        b,
        a + j * FIELD_SIZE + O_FIELD_TYPE,
        host_bytes(
            (if !signed && size == 1 {
                SIDE_TYPE_U8
            } else if !signed && size == 2 {
                SIDE_TYPE_U16
            } else if !signed && size == 4 {
                SIDE_TYPE_U32
            } else if !signed && size == 8 {
                SIDE_TYPE_U64
            } else if signed && size == 1 {
                SIDE_TYPE_S8
            } else if signed && size == 2 {
                SIDE_TYPE_S16
            } else if signed && size == 4 {
                SIDE_TYPE_S32
            } else {
                SIDE_TYPE_S64
            }) as u64,
            2,
            o,
        ),
    )) by {
        assert(field_found(b, a + j * FIELD_SIZE, fs[j], o, 0, b.len() as int));
        let p = choose|p: int|
            0 <= p && p + str_size(fs[j].name) <= b.len() && #[trigger] field_described_at(
                b,
                a + j * FIELD_SIZE,
                fs[j],
                o,
                p,
            );
        assert(field_described_at(b, a + j * FIELD_SIZE, fs[j], o, p));
        assert(field_wf(fs[j]));
        assert(layout_wf(fs[j].layout));
    }
}

} // verus!
