//! What laying a description out leaves alone.
//!
//! Every object is written where it was given room: a type in the 64
//! bytes it was given, everything it reaches from the next free byte on.
//! So what was laid out before stays as it was.
use vstd::prelude::*;

use crate::abi::{
    ATTR_SIZE, FIELD_SIZE, O_ARRAY_ELEM_TYPE, O_ARRAY_TYPE_LENGTH, O_FIELD_NAME, O_FIELD_TYPE, O_GARRAY_ACCESS, O_GARRAY_OFFSET, O_GARRAY_TYPE, O_GVLA_ACCESS, O_GVLA_OFFSET, O_GVLA_TYPE, O_TYPE_U, O_ARRAY_ATTRIBUTES, O_VLA_ATTRIBUTES, O_VLA_ELEM_TYPE, O_VLA_LENGTH_TYPE, SIDE_REL_ARRAY_SIZE, SIDE_SEL_ARRAY_SIZE, SIDE_TYPE_GATHER_ACCESS_DIRECT, SIDE_TYPE_GATHER_ACCESS_POINTER, SIDE_TYPE_GATHER_ARRAY, SIDE_TYPE_GATHER_VLA, STRUCT_TYPE_SIZE, TYPE_SIZE,
};
use crate::bytes::{
    c_str_bytes, overwrite, write_rel, write_u8, write_uint,
};
use crate::layout::{
    gather_struct_head, lay_attr, lay_attr_items, lay_attrs, lay_field, lay_field_items, lay_fields, lay_leaf, lay_type, lemma_lay_attr, lemma_lay_attr_items, lemma_lay_attrs, lemma_lay_field, lemma_lay_field_items, lemma_lay_fields, lemma_lay_leaf, lemma_lay_type, usize_size, with_bytes, with_pos, Lay,
};
use crate::measure::str_size;
use crate::model::{
    Attr, Field, Layout,
};
use crate::shared::{
    find_shared, Slot,
};

verus! {

broadcast use vstd::std_specs::vec::group_vec_axioms, vstd::seq::group_seq_axioms, lemma_lay_attrs;

/// `b2` differs from `b1` only in `[lo1, hi1)` and `[lo2, hi2)`.
pub open spec fn only_within(b1: Seq<u8>, b2: Seq<u8>, lo1: int, hi1: int, lo2: int, hi2: int) -> bool {
    &&& b1.len() == b2.len()
    &&& forall|i: int|
        0 <= i < b1.len() && !(lo1 <= i < hi1) && !(lo2 <= i < hi2) ==> #[trigger] b2[i] == b1[i]
}

pub proof fn lemma_lay_attr_frame(st: Lay, attr_at: int, a: Attr, o: u8)
    ensures
        only_within(
            st.bytes,
            lay_attr(st, attr_at, a, o).bytes,
            attr_at,
            attr_at + ATTR_SIZE,
            st.pos,
            lay_attr(st, attr_at, a, o).pos,
        ),
{
    lemma_lay_attr(st, attr_at, a, o);
}


pub proof fn lemma_lay_attr_items_frame(st: Lay, array: int, attrs: Seq<Attr>, o: u8)
    ensures
        only_within(
            st.bytes,
            lay_attr_items(st, array, attrs, o).bytes,
            array,
            array + attrs.len() * ATTR_SIZE,
            st.pos,
            lay_attr_items(st, array, attrs, o).pos,
        ),
    decreases attrs.len(),
{
    if attrs.len() > 0 {
        let mid = lay_attr_items(st, array, attrs.drop_last(), o);
        lemma_lay_attr_items_frame(st, array, attrs.drop_last(), o);
        lemma_lay_attr_frame(mid, array + (attrs.len() - 1) * ATTR_SIZE, attrs.last(), o);
        lemma_lay_attr_items(st, array, attrs.drop_last(), o);
        lemma_lay_attr(mid, array + (attrs.len() - 1) * ATTR_SIZE, attrs.last(), o);
        crate::layout::lemma_lay_attr_items_prefix(st, array, attrs, 0, attrs.len() - 1, o);
        assert(attrs.take(0) =~= Seq::<Attr>::empty());
        assert(attrs.take(attrs.len() - 1) =~= attrs.drop_last());
    }
}

/// What the member pointing at an attribute list occupies: a selector
/// array where it holds either a distance or an address, a distance
/// array otherwise.
pub open spec fn attrs_ptr_size(selector: bool) -> int {
    if selector {
        SIDE_SEL_ARRAY_SIZE as int
    } else {
        SIDE_REL_ARRAY_SIZE as int
    }
}

pub proof fn lemma_lay_attrs_frame(st: Lay, at: int, selector: bool, attrs: Seq<Attr>, o: u8)
    ensures
        only_within(
            st.bytes,
            lay_attrs(st, at, selector, attrs, o).bytes,
            at,
            at + attrs_ptr_size(selector),
            st.pos,
            lay_attrs(st, at, selector, attrs, o).pos,
        ),
{
    if attrs.len() > 0 {
        let st1 = with_pos(st, st.pos + attrs.len() * ATTR_SIZE);
        lemma_lay_attr_items_frame(st1, st.pos, attrs, o);
        lemma_lay_attr_items(st1, st.pos, attrs, o);
        crate::layout::lemma_lay_attr_items_prefix(st1, st.pos, attrs, 0, attrs.len() as int, o);
        assert(attrs.take(0) =~= Seq::<Attr>::empty());
        assert(attrs.take(attrs.len() as int) =~= attrs);
        let items = lay_attr_items(st1, st.pos, attrs, o);
        let out = lay_attrs(st, at, selector, attrs, o);
        assert forall|i: int|
            0 <= i < st.bytes.len() && !(at <= i < at + attrs_ptr_size(selector)) && !(st.pos <= i < out.pos)
            implies #[trigger] out.bytes[i] == st.bytes[i] by {
            assert(items.bytes[i] == st.bytes[i]);
        }
    }
}

pub proof fn lemma_lay_leaf_frame(st: Lay, at: int, l: Layout, attrs: Seq<Attr>, o: u8)
    ensures
        only_within(
            st.bytes,
            lay_leaf(st, at, l, attrs, o).bytes,
            at,
            at + TYPE_SIZE,
            st.pos,
            lay_leaf(st, at, l, attrs, o).pos,
        ),
{
    let u = at + O_TYPE_U;
    lemma_lay_leaf(st, at, l, attrs, o);
    match l {
        Layout::Bool | Layout::Integer { .. } | Layout::Pointer | Layout::String
        | Layout::GatherBool { .. } | Layout::GatherInteger { .. }
        | Layout::GatherPointer { .. } => {
            assert forall|b: Seq<u8>, x: int| #![trigger lay_attrs(with_bytes(st, b), x, true, attrs, o)]
                only_within(st.bytes, b, at, at + TYPE_SIZE, 0, 0) && at <= x && x + attrs_ptr_size(true) <= at + TYPE_SIZE
                implies only_within(st.bytes, lay_attrs(with_bytes(st, b), x, true, attrs, o).bytes, at, at + TYPE_SIZE, st.pos, lay_attrs(with_bytes(st, b), x, true, attrs, o).pos) by {
                lemma_lay_attrs_frame(with_bytes(st, b), x, true, attrs, o);
            }
        },
        _ => {},
    }
}


pub proof fn lemma_only_within_trans(
    b1: Seq<u8>,
    b2: Seq<u8>,
    b3: Seq<u8>,
    lo1: int,
    hi1: int,
    lo2: int,
    hi2: int,
)
    requires
        only_within(b1, b2, lo1, hi1, lo2, hi2),
        only_within(b2, b3, lo1, hi1, lo2, hi2),
    ensures
        only_within(b1, b3, lo1, hi1, lo2, hi2),
{
    assert forall|i: int|
        0 <= i < b1.len() && !(lo1 <= i < hi1) && !(lo2 <= i < hi2) implies #[trigger] b3[i]
        == b1[i] by {
        assert(b2[i] == b1[i]);
    }
}

pub proof fn lemma_only_within_widen(
    b1: Seq<u8>,
    b2: Seq<u8>,
    lo1: int,
    hi1: int,
    lo2: int,
    hi2: int,
    wlo1: int,
    whi1: int,
    wlo2: int,
    whi2: int,
)
    requires
        only_within(b1, b2, lo1, hi1, lo2, hi2),
        (wlo1 <= lo1 && hi1 <= whi1) || (wlo2 <= lo1 && hi1 <= whi2) || hi1 <= lo1,
        (wlo1 <= lo2 && hi2 <= whi1) || (wlo2 <= lo2 && hi2 <= whi2) || hi2 <= lo2,
    ensures
        only_within(b1, b2, wlo1, whi1, wlo2, whi2),
{
    assert forall|i: int|
        0 <= i < b1.len() && !(wlo1 <= i < whi1) && !(wlo2 <= i < whi2) implies #[trigger] b2[i]
        == b1[i] by {
        assert(!(lo1 <= i < hi1));
        assert(!(lo2 <= i < hi2));
    }
}

pub proof fn lemma_lay_type_frame(st: Lay, at: int, l: Layout, attrs: Seq<Attr>, o: u8)
    ensures
        only_within(
            st.bytes,
            lay_type(st, at, l, attrs, o).bytes,
            at,
            at + TYPE_SIZE,
            st.pos,
            lay_type(st, at, l, attrs, o).pos,
        ),
    decreases l, 0nat,
{
    let u = at + O_TYPE_U;
    let out = lay_type(st, at, l, attrs, o);
    lemma_lay_type(st, at, l, attrs, o);
    match l {
        Layout::GatherStruct { offset, size, access, fields } => {
            let s0 = with_bytes(st, gather_struct_head(st.bytes, at, offset, size, access, o));
            assert(only_within(st.bytes, s0.bytes, at, at + TYPE_SIZE, st.pos, out.pos));
            if find_shared(s0.shared, fields@, size) is None {
                let type_ = s0.pos;
                let s1 = Lay {
                    bytes: s0.bytes,
                    pos: type_ + STRUCT_TYPE_SIZE,
                    shared: s0.shared.push(Slot { fields: fields@, size, offset: type_ }),
                    patches: s0.patches,
                };
                let r = lay_fields(s1, fields@, o);
                lemma_lay_fields_frame(s1, fields@, o);
                lemma_lay_fields(s1, fields@, o);
                lemma_only_within_widen(s0.bytes, r.1.bytes, s1.pos, r.1.pos, 0, 0, at, at + TYPE_SIZE, st.pos, out.pos);
                lemma_only_within_trans(st.bytes, s0.bytes, r.1.bytes, at, at + TYPE_SIZE, st.pos, out.pos);
                assert(only_within(r.1.bytes, out.bytes, at, at + TYPE_SIZE, st.pos, out.pos));
                lemma_only_within_trans(st.bytes, r.1.bytes, out.bytes, at, at + TYPE_SIZE, st.pos, out.pos);
            }
        },
        Layout::GatherArray { offset, length, elem } => {
            let array = u + O_GARRAY_TYPE;
            let b1 = write_uint(
                write_u8(
                    write_uint(
                        write_uint(st.bytes, at, SIDE_TYPE_GATHER_ARRAY as u64, 2, o),
                        u + O_GARRAY_OFFSET,
                        offset,
                        8,
                        o,
                    ),
                    u + O_GARRAY_ACCESS,
                    SIDE_TYPE_GATHER_ACCESS_DIRECT,
                ),
                array + O_ARRAY_TYPE_LENGTH,
                length as u64,
                4,
                o,
            );
            let s1 = lay_attrs(with_bytes(st, b1), array + O_ARRAY_ATTRIBUTES, false, attrs, o);
            let e = s1.pos;
            let s3 = with_bytes(
                with_pos(s1, e + TYPE_SIZE),
                write_rel(s1.bytes, array + O_ARRAY_ELEM_TYPE, e, o),
            );
            lemma_lay_type(s3, e, *elem, Seq::empty(), o);
            lemma_lay_attrs_frame(with_bytes(st, b1), array + O_ARRAY_ATTRIBUTES, false, attrs, o);
            lemma_lay_type_frame(s3, e, *elem, Seq::empty(), o);
            assert(only_within(st.bytes, b1, at, at + TYPE_SIZE, st.pos, out.pos));
            lemma_only_within_widen(b1, s1.bytes, array + O_ARRAY_ATTRIBUTES, array + O_ARRAY_ATTRIBUTES + attrs_ptr_size(false), st.pos, s1.pos, at, at + TYPE_SIZE, st.pos, out.pos);
            lemma_only_within_trans(st.bytes, b1, s1.bytes, at, at + TYPE_SIZE, st.pos, out.pos);
            assert(only_within(s1.bytes, s3.bytes, at, at + TYPE_SIZE, st.pos, out.pos));
            lemma_only_within_trans(st.bytes, s1.bytes, s3.bytes, at, at + TYPE_SIZE, st.pos, out.pos);
            lemma_only_within_widen(s3.bytes, out.bytes, e, e + TYPE_SIZE, s3.pos, out.pos, at, at + TYPE_SIZE, st.pos, out.pos);
            lemma_only_within_trans(st.bytes, s3.bytes, out.bytes, at, at + TYPE_SIZE, st.pos, out.pos);
        },
        Layout::GatherVla { offset, len_offset, elem } => {
            let vla = u + O_GVLA_TYPE;
            let b1 = write_u8(
                write_uint(
                    write_uint(st.bytes, at, SIDE_TYPE_GATHER_VLA as u64, 2, o),
                    u + O_GVLA_OFFSET,
                    offset,
                    8,
                    o,
                ),
                u + O_GVLA_ACCESS,
                SIDE_TYPE_GATHER_ACCESS_POINTER,
            );
            let s1 = lay_attrs(with_bytes(st, b1), vla + O_VLA_ATTRIBUTES, false, attrs, o);
            let e = s1.pos;
            let lt = e + TYPE_SIZE;
            let s3 = with_bytes(
                with_pos(s1, lt + TYPE_SIZE),
                write_rel(
                    write_rel(s1.bytes, vla + O_VLA_ELEM_TYPE, e, o),
                    vla + O_VLA_LENGTH_TYPE,
                    lt,
                    o,
                ),
            );
            let s4 = lay_type(s3, e, *elem, Seq::empty(), o);
            let li = Layout::GatherInteger { offset: len_offset, size: usize_size(), signed: false };
            lemma_lay_type(s3, e, *elem, Seq::empty(), o);
            lemma_lay_leaf(s4, lt, li, Seq::empty(), o);
            lemma_lay_attrs_frame(with_bytes(st, b1), vla + O_VLA_ATTRIBUTES, false, attrs, o);
            lemma_lay_type_frame(s3, e, *elem, Seq::empty(), o);
            lemma_lay_leaf_frame(s4, lt, li, Seq::empty(), o);
            crate::measure::lemma_attrs_size_prefix(Seq::<Attr>::empty(), 0);
            assert(only_within(st.bytes, b1, at, at + TYPE_SIZE, st.pos, out.pos));
            lemma_only_within_widen(b1, s1.bytes, vla + O_VLA_ATTRIBUTES, vla + O_VLA_ATTRIBUTES + attrs_ptr_size(false), st.pos, s1.pos, at, at + TYPE_SIZE, st.pos, out.pos);
            lemma_only_within_trans(st.bytes, b1, s1.bytes, at, at + TYPE_SIZE, st.pos, out.pos);
            assert(only_within(s1.bytes, s3.bytes, at, at + TYPE_SIZE, st.pos, out.pos));
            lemma_only_within_trans(st.bytes, s1.bytes, s3.bytes, at, at + TYPE_SIZE, st.pos, out.pos);
            lemma_only_within_widen(s3.bytes, s4.bytes, e, e + TYPE_SIZE, s3.pos, s4.pos, at, at + TYPE_SIZE, st.pos, out.pos);
            lemma_only_within_trans(st.bytes, s3.bytes, s4.bytes, at, at + TYPE_SIZE, st.pos, out.pos);
            lemma_only_within_widen(s4.bytes, out.bytes, lt, lt + TYPE_SIZE, s4.pos, out.pos, at, at + TYPE_SIZE, st.pos, out.pos);
            lemma_only_within_trans(st.bytes, s4.bytes, out.bytes, at, at + TYPE_SIZE, st.pos, out.pos);
        },
        Layout::ExternStruct { .. } => {},
        _ => {
            lemma_lay_leaf_frame(st, at, l, attrs, o);
        },
    }
}

pub proof fn lemma_lay_field_frame(st: Lay, field_at: int, f: Field, o: u8)
    ensures
        only_within(
            st.bytes,
            lay_field(st, field_at, f, o).bytes,
            field_at,
            field_at + FIELD_SIZE,
            st.pos,
            lay_field(st, field_at, f, o).pos,
        ),
    decreases f, 0nat,
{
    let name = st.pos;
    let s1 = Lay {
        bytes: write_rel(overwrite(st.bytes, name, c_str_bytes(f.name)), field_at + O_FIELD_NAME, name, o),
        pos: name + str_size(f.name),
        shared: st.shared,
        patches: st.patches,
    };
    let out = lay_field(st, field_at, f, o);
    lemma_lay_type(s1, field_at + O_FIELD_TYPE, f.layout, f.attributes@, o);
    lemma_lay_type_frame(s1, field_at + O_FIELD_TYPE, f.layout, f.attributes@, o);
    assert(only_within(st.bytes, s1.bytes, field_at, field_at + FIELD_SIZE, st.pos, out.pos));
    lemma_only_within_widen(s1.bytes, out.bytes, field_at + O_FIELD_TYPE, field_at + O_FIELD_TYPE + TYPE_SIZE, s1.pos, out.pos, field_at, field_at + FIELD_SIZE, st.pos, out.pos);
    lemma_only_within_trans(st.bytes, s1.bytes, out.bytes, field_at, field_at + FIELD_SIZE, st.pos, out.pos);
}

pub proof fn lemma_lay_field_items_frame(st: Lay, array: int, fs: Seq<Field>, o: u8)
    ensures
        only_within(
            st.bytes,
            lay_field_items(st, array, fs, o).bytes,
            array,
            array + fs.len() * FIELD_SIZE,
            st.pos,
            lay_field_items(st, array, fs, o).pos,
        ),
    decreases fs, 0nat,
{
    let out = lay_field_items(st, array, fs, o);
    if fs.len() > 0 {
        let mid = lay_field_items(st, array, fs.drop_last(), o);
        let at = array + (fs.len() - 1) * FIELD_SIZE;
        lemma_lay_field_items_frame(st, array, fs.drop_last(), o);
        lemma_lay_field_frame(mid, at, fs.last(), o);
        lemma_lay_field_items(st, array, fs.drop_last(), o);
        lemma_lay_field(mid, at, fs.last(), o);
        lemma_only_within_widen(st.bytes, mid.bytes, array, array + (fs.len() - 1) * FIELD_SIZE, st.pos, mid.pos, array, array + fs.len() * FIELD_SIZE, st.pos, out.pos);
        lemma_only_within_widen(mid.bytes, out.bytes, at, at + FIELD_SIZE, mid.pos, out.pos, array, array + fs.len() * FIELD_SIZE, st.pos, out.pos);
        lemma_only_within_trans(st.bytes, mid.bytes, out.bytes, array, array + fs.len() * FIELD_SIZE, st.pos, out.pos);
    }
}

pub proof fn lemma_lay_fields_frame(st: Lay, fs: Seq<Field>, o: u8)
    ensures
        only_within(st.bytes, lay_fields(st, fs, o).1.bytes, st.pos, lay_fields(st, fs, o).1.pos, 0, 0),
    decreases fs, 1nat,
{
    let st1 = with_pos(st, st.pos + fs.len() * FIELD_SIZE);
    let out = lay_fields(st, fs, o).1;
    lemma_lay_field_items_frame(st1, st.pos, fs, o);
    lemma_lay_field_items(st1, st.pos, fs, o);
    lemma_only_within_widen(st.bytes, out.bytes, st.pos, st.pos + fs.len() * FIELD_SIZE, st1.pos, out.pos, st.pos, out.pos, 0, 0);
}

} // verus!
