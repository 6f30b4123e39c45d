//! Laying a description out.
use vstd::prelude::*;

use crate::abi::{
    ATTR_SIZE, DESC_SIZE, SIDE_REL_ARRAY_SIZE, O_DESC_ATTRIBUTES, O_DESC_EVENT, O_DESC_FIELDS, O_DESC_FLAGS,
    O_DESC_LOGLEVEL, O_DESC_NR_ATTR, O_DESC_NR_TYPE, O_DESC_PROVIDER, O_DESC_STRUCT_SIZE,
    O_DESC_VERSION, SIDE_EVENT_DESCRIPTION_ABI_VERSION, SIDE_NR_ATTR_TYPE, SIDE_NR_TYPE_LABEL,
    SIDE_TYPE_BYTE_ORDER_LE, SIDE_TYPE_BYTE_ORDER_BE, FIELD_SIZE, O_ARRAY_ATTRIBUTES, O_ARRAY_ELEM_TYPE, O_ARRAY_TYPE_LENGTH,
    O_FIELD_NAME, O_FIELD_TYPE, O_GARRAY_ACCESS, O_GARRAY_OFFSET, O_GARRAY_TYPE,
    O_GSTRUCT_ACCESS, O_GSTRUCT_OFFSET, O_GSTRUCT_SIZE, O_GSTRUCT_TYPE, O_GVLA_ACCESS,
    O_GVLA_OFFSET, O_GVLA_TYPE, O_STRUCT_FIELDS, O_VLA_ATTRIBUTES, O_VLA_ELEM_TYPE,
    O_VLA_LENGTH_TYPE, SIDE_TYPE_GATHER_ACCESS_POINTER, SIDE_TYPE_GATHER_ARRAY,
    SIDE_TYPE_GATHER_STRUCT, SIDE_TYPE_GATHER_VLA, STRUCT_TYPE_SIZE, O_ARRAY_LENGTH, O_ATTRVAL_TYPE, O_ATTRVAL_U, O_ATTR_KEY, O_ATTR_VALUE,
    O_BOOL_ATTRIBUTES, O_BOOL_BYTE_ORDER, O_BOOL_LEN_BITS, O_BOOL_SIZE, O_GBOOL_ACCESS,
    O_GBOOL_OFFSET, O_GBOOL_OFFSET_BITS, O_GBOOL_TYPE, O_GINT_ACCESS, O_GINT_OFFSET,
    O_GINT_OFFSET_BITS, O_GINT_TYPE, O_INT_ATTRIBUTES, O_INT_BYTE_ORDER, O_INT_LEN_BITS,
    O_INT_SIGNEDNESS, O_INT_SIZE, O_RAWSTR_BYTE_ORDER, O_RAWSTR_P, O_RAWSTR_UNIT_SIZE,
    O_SEL_ARRAY_LENGTH, O_STR_ATTRIBUTES, O_STR_BYTE_ORDER, O_STR_UNIT_SIZE, O_TYPE_U,
    PATCH_WIDTH, SIDE_ATTR_TYPE_BOOL, SIDE_ATTR_TYPE_NULL, SIDE_ATTR_TYPE_S16,
    SIDE_ATTR_TYPE_S32, SIDE_ATTR_TYPE_S64, SIDE_ATTR_TYPE_S8, SIDE_ATTR_TYPE_STRING,
    SIDE_ATTR_TYPE_U16, SIDE_ATTR_TYPE_U32, SIDE_ATTR_TYPE_U64, SIDE_ATTR_TYPE_U8,
    SIDE_SEL_ARRAY_SIZE, SIDE_TYPE_BOOL, SIDE_TYPE_GATHER_ACCESS_DIRECT, SIDE_TYPE_GATHER_BOOL,
    SIDE_TYPE_GATHER_INTEGER, SIDE_TYPE_GATHER_POINTER, SIDE_TYPE_POINTER, SIDE_TYPE_S16,
    SIDE_TYPE_S32, SIDE_TYPE_S64, SIDE_TYPE_S8, SIDE_TYPE_STRING_UTF8, SIDE_TYPE_U16,
    SIDE_TYPE_U32, SIDE_TYPE_U64, SIDE_TYPE_U8, TYPE_SIZE,
};
use core::mem::size_of;
use crate::bytes::{host_byte_order, c_str_bytes, overwrite, write_rel, put_rel, put_sel_rel, put_str, put_u16, put_u32, put_u64, put_u8};
use crate::agree::{lemma_group_geometry, lemma_group_measure, lemma_type_geometry, lemma_type_measure};
use crate::layout::{
    type_bytes, type_holes, type_lay, events_wf, group_bytes, group_holes, group_lay, lay_event, lay_events, lemma_lay_event,
    lemma_lay_events_prefix,
    extends, field_wf, fields_wf, lay_field, lay_field_items, lay_fields, lay_type,
    lemma_extends_refl, lemma_extends_trans, lemma_fields_wf, lemma_holes_ordered_prefix,
    lemma_lay_field_items_prefix, lemma_lay_fields, lemma_lay_leaf, lemma_lay_type,
    lemma_table_below, table_below, type_attrs_wf, usize_size,
    layout_wf, with_bytes, bool_body, holes_ordered, integer_body, is_stack_integer_size, lay_attr, lay_attr_items,
    lay_attrs, lay_leaf, lemma_lay_attr, lemma_lay_attr_items_prefix, lemma_lay_attrs,
    raw_string_bytes, stack_integer_label_spec, with_pos, Lay,
};
use crate::measure::{group_size_spec, group_structs, str_size, type_size_spec, type_structs, type_table};
use crate::model::{Attr, AttrValue, Built, EventSpec, Field, Layout, Patch};
use crate::shared::{shared_find, shared_insert, Shared, Slot, MAX_SHARED_TYPES};
use vstd::string::StringSliceAdditionalSpecFns;

verus! {

broadcast use vstd::std_specs::vec::group_vec_axioms, vstd::seq::group_seq_axioms, lemma_lay_attrs;

/// The holes a layout has left so far, out of the `K` it was counted to
/// leave.
pub struct Patches<const K: usize> {
    pub at: [Patch; K],
    pub len: usize,
}

impl<const K: usize> Patches<K> {
    pub open spec fn view(&self) -> Seq<int> {
        Seq::new(self.len as nat, |i: int| self.at@[i].at as int)
    }

    pub open spec fn wf(&self) -> bool {
        self.len <= K
    }

    pub fn new() -> (r: Self)
        ensures
            r.wf(),
            r.view() == Seq::<int>::empty(),
    {
        let r = Patches { at: [Patch { at: 0 };K], len: 0 };
        assert(r.view() =~= Seq::<int>::empty());
        r
    }
}

/// Leave a hole at `at`, after every hole left so far and not
/// overlapping the last of them: the runs between them are what the
/// description is cut into, and a call site names one pointer per hole
/// in the order the fields which need them were written.
pub fn patch<const K: usize>(patches: &mut Patches<K>, at: usize)
    requires
        old(patches).wf(),
        old(patches).len < K,
        old(patches).len > 0 ==> old(patches).view().last() + PATCH_WIDTH <= at,
    ensures
        final(patches).wf(),
        final(patches).view() == old(patches).view().push(at as int),
{
    let ghost before = patches.view();
    patches.at[patches.len] = Patch { at };
    patches.len += 1;
    assert(patches.view() =~= before.push(at as int));
}

fn put_bool_body(buf: &mut [u8], at: usize, size: u16, order: u8)
    requires
        at + O_BOOL_BYTE_ORDER + 1 <= old(buf).len(),
    ensures
        final(buf)@ == bool_body(old(buf)@, at as int, size, order),
{
    put_u16(buf, at + O_BOOL_SIZE, size, order);
    put_u16(buf, at + O_BOOL_LEN_BITS, 0, order);
    put_u8(buf, at + O_BOOL_BYTE_ORDER, order);
}

fn put_integer_body(buf: &mut [u8], at: usize, size: u16, signed: bool, order: u8)
    requires
        at + O_INT_BYTE_ORDER + 1 <= old(buf).len(),
    ensures
        final(buf)@ == integer_body(old(buf)@, at as int, size, signed, order),
{
    put_u16(buf, at + O_INT_SIZE, size, order);
    put_u16(buf, at + O_INT_LEN_BITS, 0, order);
    put_u8(buf, at + O_INT_SIGNEDNESS, if signed { 1 } else { 0 });
    put_u8(buf, at + O_INT_BYTE_ORDER, order);
}

/// The label of an integer pushed at the call site.
fn stack_integer_label(size: u16, signed: bool) -> (r: u16)
    requires
        is_stack_integer_size(size),
    ensures
        r == stack_integer_label_spec(size, signed),
{
    match (size, signed) {
        (1, false) => SIDE_TYPE_U8,
        (2, false) => SIDE_TYPE_U16,
        (4, false) => SIDE_TYPE_U32,
        (8, false) => SIDE_TYPE_U64,
        (1, true) => SIDE_TYPE_S8,
        (2, true) => SIDE_TYPE_S16,
        (4, true) => SIDE_TYPE_S32,
        (_, true) => SIDE_TYPE_S64,
        (_, false) => SIDE_TYPE_U64,
    }
}

/// A `struct side_type_raw_string` at `at`, holding the string at
/// `target`. Both a key and a string value are one.
fn put_raw_string(buf: &mut [u8], at: usize, target: usize, order: u8)
    requires
        at + O_RAWSTR_BYTE_ORDER + 1 <= old(buf).len(),
        target <= i64::MAX,
        old(buf)@.len() <= i64::MAX,
        old(buf)@.len() == old(buf).len(),
    ensures
        final(buf)@ == raw_string_bytes(old(buf)@, at as int, target as int, order),
{
    put_sel_rel(buf, at + O_RAWSTR_P, target, order);
    put_u8(buf, at + O_RAWSTR_UNIT_SIZE, 1);
    put_u8(buf, at + O_RAWSTR_BYTE_ORDER, order);
}

/// Lay out one attribute, its entry at `attr`, its key and any string
/// value at `pos`, and return where the next object goes.
fn put_attr(buf: &mut [u8], pos: usize, attr: usize, a: &Attr, order: u8, Ghost(st): Ghost<Lay>) -> (r: usize)
    requires
        st.bytes == old(buf)@,
        st.pos == pos,
        attr + ATTR_SIZE <= pos,
        lay_attr(st, attr as int, *a, order).pos <= old(buf)@.len(),
        old(buf)@.len() <= i64::MAX,
        old(buf)@.len() == old(buf).len(),
    ensures
        final(buf)@ == lay_attr(st, attr as int, *a, order).bytes,
        r == lay_attr(st, attr as int, *a, order).pos,
{
    let key = attr + O_ATTR_KEY;
    let value = attr + O_ATTR_VALUE;
    let (at_key, next) = put_str(buf, pos, a.key);
    let pos = next;
    put_raw_string(buf, key, at_key, order);
    match a.value {
        AttrValue::Null => put_u32(buf, value + O_ATTRVAL_TYPE, SIDE_ATTR_TYPE_NULL, order),
        AttrValue::Bool(v) => {
            put_u32(buf, value + O_ATTRVAL_TYPE, SIDE_ATTR_TYPE_BOOL, order);
            put_u8(buf, value + O_ATTRVAL_U, if v { 1 } else { 0 });
        },
        AttrValue::U8(v) => {
            put_u32(buf, value + O_ATTRVAL_TYPE, SIDE_ATTR_TYPE_U8, order);
            put_u8(buf, value + O_ATTRVAL_U, v);
        },
        AttrValue::U16(v) => {
            put_u32(buf, value + O_ATTRVAL_TYPE, SIDE_ATTR_TYPE_U16, order);
            put_u16(buf, value + O_ATTRVAL_U, v, order);
        },
        AttrValue::U32(v) => {
            put_u32(buf, value + O_ATTRVAL_TYPE, SIDE_ATTR_TYPE_U32, order);
            put_u32(buf, value + O_ATTRVAL_U, v, order);
        },
        AttrValue::U64(v) => {
            put_u32(buf, value + O_ATTRVAL_TYPE, SIDE_ATTR_TYPE_U64, order);
            put_u64(buf, value + O_ATTRVAL_U, v, order);
        },
        AttrValue::S8(v) => {
            put_u32(buf, value + O_ATTRVAL_TYPE, SIDE_ATTR_TYPE_S8, order);
            put_u8(buf, value + O_ATTRVAL_U, v as u8);
        },
        AttrValue::S16(v) => {
            put_u32(buf, value + O_ATTRVAL_TYPE, SIDE_ATTR_TYPE_S16, order);
            put_u16(buf, value + O_ATTRVAL_U, v as u16, order);
        },
        AttrValue::S32(v) => {
            put_u32(buf, value + O_ATTRVAL_TYPE, SIDE_ATTR_TYPE_S32, order);
            put_u32(buf, value + O_ATTRVAL_U, v as u32, order);
        },
        AttrValue::S64(v) => {
            put_u32(buf, value + O_ATTRVAL_TYPE, SIDE_ATTR_TYPE_S64, order);
            put_u64(buf, value + O_ATTRVAL_U, v as u64, order);
        },
        AttrValue::String(v) => {
            put_u32(buf, value + O_ATTRVAL_TYPE, SIDE_ATTR_TYPE_STRING, order);
            let (at_value, next) = put_str(buf, pos, v);
            put_raw_string(buf, value + O_ATTRVAL_U, at_value, order);
            return next;
        },
    }
    pos
}

/// Lay out an attribute list at `pos` and point `at` at it, which is a
/// distance where the member holds one and a distance with the selector
/// byte set where it holds either. Nothing is written for an empty
/// list: the zeroed bytes it starts as are one.
///
/// What those bytes say of a list -- its room, the member's distance,
/// count and selector byte, and that nothing else changes -- is
/// `readback::law_attrs_member`, of the layout this writes.
fn put_attrs(
    buf: &mut [u8],
    pos: usize,
    at: usize,
    selector: bool,
    attrs: &[Attr],
    order: u8,
    Ghost(st): Ghost<Lay>,
) -> (r: usize)
    requires
        st.bytes == old(buf)@,
        st.pos == pos,
        at + (if selector {
            SIDE_SEL_ARRAY_SIZE
        } else {
            SIDE_REL_ARRAY_SIZE
        }) <= old(buf)@.len(),
        lay_attrs(st, at as int, selector, attrs@, order).pos <= old(buf)@.len(),
        old(buf)@.len() <= i64::MAX,
        old(buf)@.len() == old(buf).len(),
    ensures
        final(buf)@ == lay_attrs(st, at as int, selector, attrs@, order).bytes,
        r == lay_attrs(st, at as int, selector, attrs@, order).pos,
{
    if attrs.len() == 0 {
        return pos;
    }
    let array = pos;
    let ghost st1 = with_pos(st, pos + attrs@.len() * ATTR_SIZE);
    let ghost fin = lay_attr_items(st1, array as int, attrs@, order);
    proof {
        crate::layout::lemma_lay_attr_items(st1, array as int, attrs@, order);
        assert(attrs@.take(attrs@.len() as int) =~= attrs@);
        assert(attrs@.take(0) =~= Seq::<Attr>::empty());
        lemma_lay_attr_items_prefix(st1, array as int, attrs@, 0, attrs@.len() as int, order);
    }
    let mut pos = pos + attrs.len() * ATTR_SIZE;
    let mut i: usize = 0;
    while i < attrs.len()
        invariant
            i <= attrs@.len(),
            attrs@.len() > 0,
            array + attrs@.len() * ATTR_SIZE == st1.pos,
            st1.pos <= pos,
            attrs@.take(attrs@.len() as int) == attrs@,
            buf@ == lay_attr_items(st1, array as int, attrs@.take(i as int), order).bytes,
            pos == lay_attr_items(st1, array as int, attrs@.take(i as int), order).pos,
            fin == lay_attr_items(st1, array as int, attrs@, order),
            fin.pos <= buf@.len(),
            buf@.len() == old(buf)@.len(),
            buf@.len() <= i64::MAX,
        decreases attrs@.len() - i,
    {
        let ghost cur = lay_attr_items(st1, array as int, attrs@.take(i as int), order);
        proof {
            assert(attrs@.take(i + 1).drop_last() =~= attrs@.take(i as int));
            assert(attrs@.take(i + 1).last() == attrs@[i as int]);
            lemma_lay_attr_items_prefix(st1, array as int, attrs@, i + 1, attrs@.len() as int, order);
            lemma_lay_attr_items_prefix(st1, array as int, attrs@, i as int, i + 1, order);
            lemma_lay_attr(cur, array + i * ATTR_SIZE, attrs@[i as int], order);
            crate::layout::lemma_lay_attr_items(st1, array as int, attrs@.take(i as int), order);
        }
        let attr = array + i * ATTR_SIZE;
        pos = put_attr(buf, pos, attr, &attrs[i], order, Ghost(cur));
        i += 1;
    }
    if selector {
        put_sel_rel(buf, at, array, order);
        put_u32(buf, at + O_SEL_ARRAY_LENGTH, attrs.len() as u32, order);
    } else {
        put_rel(buf, at, array, order);
        put_u32(buf, at + O_ARRAY_LENGTH, attrs.len() as u32, order);
    }
    pos
}


/// Write a `struct side_type` which reaches nothing but its attributes at
/// `at`, putting the attributes at `pos`, and return where the next
/// object goes.
fn put_leaf(
    buf: &mut [u8],
    pos: usize,
    at: usize,
    layout: &Layout,
    attributes: &[Attr],
    order: u8,
    Ghost(st): Ghost<Lay>,
) -> (r: usize)
    requires
        st.bytes == old(buf)@,
        st.pos == pos,
        at + TYPE_SIZE <= pos,
        !(layout is GatherStruct || layout is GatherArray || layout is GatherVla
            || layout is ExternStruct),
        layout_wf(*layout),
        lay_leaf(st, at as int, *layout, attributes@, order).pos <= old(buf)@.len(),
        old(buf)@.len() <= i64::MAX,
        old(buf)@.len() == old(buf).len(),
    ensures
        final(buf)@ == lay_leaf(st, at as int, *layout, attributes@, order).bytes,
        r == lay_leaf(st, at as int, *layout, attributes@, order).pos,
{
    let u = at + O_TYPE_U;
    match layout {
        Layout::Bool => {
            put_u16(buf, at, SIDE_TYPE_BOOL, order);
            put_bool_body(buf, u, 1, order);
            put_attrs(buf, pos, u + O_BOOL_ATTRIBUTES, true, attributes, order, Ghost(with_bytes(st, buf@)))
        },
        Layout::Integer { size, signed } => {
            put_u16(buf, at, stack_integer_label(*size, *signed), order);
            put_integer_body(buf, u, *size, *signed, order);
            put_attrs(buf, pos, u + O_INT_ATTRIBUTES, true, attributes, order, Ghost(with_bytes(st, buf@)))
        },
        Layout::Pointer => {
            put_u16(buf, at, SIDE_TYPE_POINTER, order);
            put_integer_body(buf, u, size_of::<usize>() as u16, false, order);
            put_attrs(buf, pos, u + O_INT_ATTRIBUTES, true, attributes, order, Ghost(with_bytes(st, buf@)))
        },
        Layout::String => {
            put_u16(buf, at, SIDE_TYPE_STRING_UTF8, order);
            put_u8(buf, u + O_STR_UNIT_SIZE, 1);
            put_u8(buf, u + O_STR_BYTE_ORDER, order);
            put_attrs(buf, pos, u + O_STR_ATTRIBUTES, true, attributes, order, Ghost(with_bytes(st, buf@)))
        },
        Layout::GatherBool { offset, size } => {
            put_u16(buf, at, SIDE_TYPE_GATHER_BOOL, order);
            put_u64(buf, u + O_GBOOL_OFFSET, *offset, order);
            put_u16(buf, u + O_GBOOL_OFFSET_BITS, 0, order);
            put_u8(buf, u + O_GBOOL_ACCESS, SIDE_TYPE_GATHER_ACCESS_DIRECT);
            put_bool_body(buf, u + O_GBOOL_TYPE, *size, order);
            put_attrs(
                buf,
                pos,
                u + O_GBOOL_TYPE + O_BOOL_ATTRIBUTES,
                true,
                attributes,
                order,
                Ghost(with_bytes(st, buf@)),
            )
        },
        Layout::GatherInteger { offset, size, signed } => {
            put_u16(buf, at, SIDE_TYPE_GATHER_INTEGER, order);
            put_u64(buf, u + O_GINT_OFFSET, *offset, order);
            put_u16(buf, u + O_GINT_OFFSET_BITS, 0, order);
            put_u8(buf, u + O_GINT_ACCESS, SIDE_TYPE_GATHER_ACCESS_DIRECT);
            put_integer_body(buf, u + O_GINT_TYPE, *size, *signed, order);
            put_attrs(
                buf,
                pos,
                u + O_GINT_TYPE + O_INT_ATTRIBUTES,
                true,
                attributes,
                order,
                Ghost(with_bytes(st, buf@)),
            )
        },
        Layout::GatherPointer { offset } => {
            put_u16(buf, at, SIDE_TYPE_GATHER_POINTER, order);
            put_u64(buf, u + O_GINT_OFFSET, *offset, order);
            put_u16(buf, u + O_GINT_OFFSET_BITS, 0, order);
            put_u8(buf, u + O_GINT_ACCESS, SIDE_TYPE_GATHER_ACCESS_DIRECT);
            put_integer_body(buf, u + O_GINT_TYPE, size_of::<usize>() as u16, false, order);
            put_attrs(
                buf,
                pos,
                u + O_GINT_TYPE + O_INT_ATTRIBUTES,
                true,
                attributes,
                order,
                Ghost(with_bytes(st, buf@)),
            )
        },
        _ => pos,
    }
}


/// Write a `struct side_type` at `at`, putting whatever it points at at
/// `pos`, and return where the next object goes.
///
/// `readback::law_type_takes_what_it_measures` says how far that is
/// against what `layout_size` measures, and `readback::law_shared_use`
/// what a use of a structure already laid out writes.
fn put_type<'a, const K: usize>(
    buf: &mut [u8],
    pos: usize,
    at: usize,
    layout: &'a Layout,
    attributes: &[Attr],
    shared: &mut Shared<'a>,
    patches: &mut Patches<K>,
    order: u8,
    Ghost(st): Ghost<Lay>,
) -> (r: usize)
    requires
        st.bytes == old(buf)@,
        st.pos == pos,
        st.shared == old(shared).view(),
        st.patches == old(patches).view(),
        old(patches).wf(),
        table_below(st),
        at + TYPE_SIZE <= pos,
        layout_wf(*layout),
        type_attrs_wf(*layout, attributes@),
        lay_type(st, at as int, *layout, attributes@, order).pos <= old(buf)@.len(),
        lay_type(st, at as int, *layout, attributes@, order).shared.len() <= MAX_SHARED_TYPES,
        lay_type(st, at as int, *layout, attributes@, order).patches.len() <= K,
        holes_ordered(lay_type(st, at as int, *layout, attributes@, order).patches),
        old(buf)@.len() <= i64::MAX,
        old(buf)@.len() == old(buf).len(),
    ensures
        final(buf)@ == lay_type(st, at as int, *layout, attributes@, order).bytes,
        r == lay_type(st, at as int, *layout, attributes@, order).pos,
        final(shared).view() == lay_type(st, at as int, *layout, attributes@, order).shared,
        final(patches).view() == lay_type(st, at as int, *layout, attributes@, order).patches,
        final(patches).wf(),
    decreases layout,
{
    let ghost fin = lay_type(st, at as int, *layout, attributes@, order);
    proof {
        lemma_lay_type(st, at as int, *layout, attributes@, order);
    }
    let u = at + O_TYPE_U;
    match layout {
        Layout::GatherStruct { offset, size, access, fields } => {
            put_u16(buf, at, SIDE_TYPE_GATHER_STRUCT, order);
            put_u64(buf, u + O_GSTRUCT_OFFSET, *offset, order);
            put_u8(buf, u + O_GSTRUCT_ACCESS, *access);
            put_u32(buf, u + O_GSTRUCT_SIZE, *size, order);
            let mut pos = pos;
            /* One copy of the structure for the whole group. */
            let type_ = match shared_find(shared, fields, *size) {
                Some(off) => {
                    proof {
                        crate::shared::lemma_find_slot(st.shared, fields@, *size);
                    }
                    off
                },
                None => {
                    let type_ = pos;
                    let ghost st1 = Lay {
                        bytes: buf@,
                        pos: pos + STRUCT_TYPE_SIZE,
                        shared: st.shared.push(
                            Slot { fields: fields@, size: *size, offset: pos as int },
                        ),
                        patches: st.patches,
                    };
                    proof {
                        lemma_lay_fields(st1, fields@, order);
                        assert(table_below(st1)) by {
                            assert forall|i: int| 0 <= i < st1.shared.len() implies 0
                                <= #[trigger] st1.shared[i].offset <= st1.pos by {
                                if i < st.shared.len() {
                                    assert(st1.shared[i] == st.shared[i]);
                                }
                            }
                        }
                    }
                    pos = pos + STRUCT_TYPE_SIZE;
                    shared_insert(shared, fields, *size, type_);
                    let (array, next) = put_fields(buf, pos, fields, shared, patches, order, Ghost(st1));
                    pos = next;
                    put_rel(buf, type_ + O_STRUCT_FIELDS, array, order);
                    put_u32(
                        buf,
                        type_ + O_STRUCT_FIELDS + O_ARRAY_LENGTH,
                        fields.len() as u32,
                        order,
                    );
                    type_
                },
            };
            put_sel_rel(buf, u + O_GSTRUCT_TYPE, type_, order);
            pos
        },
        Layout::GatherArray { offset, length, elem } => {
            put_u16(buf, at, SIDE_TYPE_GATHER_ARRAY, order);
            put_u64(buf, u + O_GARRAY_OFFSET, *offset, order);
            put_u8(buf, u + O_GARRAY_ACCESS, SIDE_TYPE_GATHER_ACCESS_DIRECT);
            let array = u + O_GARRAY_TYPE;
            put_u32(buf, array + O_ARRAY_TYPE_LENGTH, *length, order);
            let ghost sa = lay_attrs(with_bytes(st, buf@), array + O_ARRAY_ATTRIBUTES, false, attributes@, order);
            let ghost st3s = with_bytes(
                with_pos(sa, sa.pos + TYPE_SIZE),
                write_rel(sa.bytes, array + O_ARRAY_ELEM_TYPE, sa.pos, order),
            );
            proof {
                lemma_lay_type(st3s, sa.pos, **elem, Seq::empty(), order);
                assert(fin == lay_type(st3s, sa.pos, **elem, Seq::empty(), order));
            }
            let mut pos = put_attrs(
                buf,
                pos,
                array + O_ARRAY_ATTRIBUTES,
                false,
                attributes,
                order,
                Ghost(with_bytes(st, buf@)),
            );
            let elem_type = pos;
            pos = pos + TYPE_SIZE;
            put_rel(buf, array + O_ARRAY_ELEM_TYPE, elem_type, order);
            let ghost st3 = Lay { bytes: buf@, pos: pos as int, shared: st.shared, patches: st.patches };
            let empty: [Attr; 0] = [];
            proof {
                assert(empty@ =~= Seq::<Attr>::empty());
            }
            put_type(buf, pos, elem_type, elem, &empty, shared, patches, order, Ghost(st3))
        },
        Layout::GatherVla { offset, len_offset, elem } => {
            put_u16(buf, at, SIDE_TYPE_GATHER_VLA, order);
            put_u64(buf, u + O_GVLA_OFFSET, *offset, order);
            /* The offset names a pointer, which is dereferenced. */
            put_u8(buf, u + O_GVLA_ACCESS, SIDE_TYPE_GATHER_ACCESS_POINTER);
            let vla = u + O_GVLA_TYPE;
            let ghost sa = lay_attrs(with_bytes(st, buf@), vla + O_VLA_ATTRIBUTES, false, attributes@, order);
            let ghost st3s = with_bytes(
                with_pos(sa, sa.pos + TYPE_SIZE + TYPE_SIZE),
                write_rel(
                    write_rel(sa.bytes, vla + O_VLA_ELEM_TYPE, sa.pos, order),
                    vla + O_VLA_LENGTH_TYPE,
                    sa.pos + TYPE_SIZE,
                    order,
                ),
            );
            let ghost st4s = lay_type(st3s, sa.pos, **elem, Seq::empty(), order);
            proof {
                lemma_lay_type(st3s, sa.pos, **elem, Seq::empty(), order);
                lemma_lay_leaf(
                    st4s,
                    sa.pos + TYPE_SIZE,
                    Layout::GatherInteger { offset: *len_offset, size: usize_size(), signed: false },
                    Seq::empty(),
                    order,
                );
                crate::measure::lemma_attrs_size_prefix(Seq::<Attr>::empty(), 0);
                assert(fin == lay_leaf(
                    st4s,
                    sa.pos + TYPE_SIZE,
                    Layout::GatherInteger { offset: *len_offset, size: usize_size(), signed: false },
                    Seq::empty(),
                    order,
                ));
            }
            let mut pos = put_attrs(
                buf,
                pos,
                vla + O_VLA_ATTRIBUTES,
                false,
                attributes,
                order,
                Ghost(with_bytes(st, buf@)),
            );
            let elem_type = pos;
            pos = pos + TYPE_SIZE;
            let length_type = pos;
            pos = pos + TYPE_SIZE;
            put_rel(buf, vla + O_VLA_ELEM_TYPE, elem_type, order);
            put_rel(buf, vla + O_VLA_LENGTH_TYPE, length_type, order);
            let ghost st3 = Lay { bytes: buf@, pos: pos as int, shared: st.shared, patches: st.patches };
            let empty: [Attr; 0] = [];
            let ghost st4 = lay_type(st3, elem_type as int, **elem, Seq::empty(), order);
            proof {
                assert(empty@ =~= Seq::<Attr>::empty());
                lemma_lay_type(st3, elem_type as int, **elem, Seq::empty(), order);
                lemma_lay_leaf(
                    st4,
                    length_type as int,
                    Layout::GatherInteger { offset: *len_offset, size: usize_size(), signed: false },
                    Seq::empty(),
                    order,
                );
                crate::measure::lemma_attrs_size_prefix(Seq::<Attr>::empty(), 0);
            }
            pos = put_type(buf, pos, elem_type, elem, &empty, shared, patches, order, Ghost(st3));
            /* The length is read from the vector itself. */
            let length = Layout::GatherInteger {
                offset: *len_offset,
                size: size_of::<usize>() as u16,
                signed: false,
            };
            put_leaf(buf, pos, length_type, &length, &empty, order, Ghost(st4))
        },
        Layout::ExternStruct { offset, size, access, .. } => {
            put_u16(buf, at, SIDE_TYPE_GATHER_STRUCT, order);
            put_u64(buf, u + O_GSTRUCT_OFFSET, *offset, order);
            put_u8(buf, u + O_GSTRUCT_ACCESS, *access);
            put_u32(buf, u + O_GSTRUCT_SIZE, *size, order);
            /*
             * The selector byte is already zero, which says the
             * reference holds an address, and the address itself is a
             * hole the object built around these bytes fills with a
             * pointer. See `Patch`.
             */
            proof {
                if st.patches.len() > 0 {
                    assert(fin.patches[st.patches.len() - 1] == st.patches.last());
                }
            }
            patch(patches, u + O_GSTRUCT_TYPE);
            pos
        },
        _ => put_leaf(buf, pos, at, layout, attributes, order, Ghost(st)),
    }
}

/// Lay out a field array at `pos`, and return where it starts and where
/// the next object goes.
///
/// `readback::law_fields_described` says where those are against what
/// `fields_size` measures, and how each field is named and typed.
fn put_fields<'a, const K: usize>(
    buf: &mut [u8],
    pos: usize,
    fields: &'a Vec<Field>,
    shared: &mut Shared<'a>,
    patches: &mut Patches<K>,
    order: u8,
    Ghost(st): Ghost<Lay>,
) -> (r: (usize, usize))
    requires
        st.bytes == old(buf)@,
        st.pos == pos,
        st.shared == old(shared).view(),
        st.patches == old(patches).view(),
        old(patches).wf(),
        table_below(st),
        fields_wf(fields@),
        lay_fields(st, fields@, order).1.pos <= old(buf)@.len(),
        lay_fields(st, fields@, order).1.shared.len() <= MAX_SHARED_TYPES,
        lay_fields(st, fields@, order).1.patches.len() <= K,
        holes_ordered(lay_fields(st, fields@, order).1.patches),
        old(buf)@.len() <= i64::MAX,
        old(buf)@.len() == old(buf).len(),
    ensures
        r.0 == lay_fields(st, fields@, order).0,
        final(buf)@ == lay_fields(st, fields@, order).1.bytes,
        r.1 == lay_fields(st, fields@, order).1.pos,
        final(shared).view() == lay_fields(st, fields@, order).1.shared,
        final(patches).view() == lay_fields(st, fields@, order).1.patches,
        final(patches).wf(),
    decreases fields,
{
    let ghost fin = lay_fields(st, fields@, order).1;
    proof {
        lemma_lay_fields(st, fields@, order);
        lemma_fields_wf(fields@);
    }
    let array = pos;
    let mut pos = pos + fields.len() * FIELD_SIZE;
    let ghost st1 = with_pos(st, pos as int);
    proof {
        assert(fields@.take(fields@.len() as int) =~= fields@);
        assert(fields@.take(0) =~= Seq::<Field>::empty());
        lemma_lay_field_items_prefix(st1, array as int, fields@, 0, fields@.len() as int, order);
        lemma_extends_refl(st);
        lemma_table_below(st, st1);
    }
    let mut i: usize = 0;
    while i < fields.len()
        invariant
            i <= fields@.len(),
            array == st.pos,
            array + fields@.len() * FIELD_SIZE == st1.pos,
            st1 == with_pos(st, st1.pos),
            table_below(st1),
            fields@.take(fields@.len() as int) == fields@,
            forall|k: int| 0 <= k < fields@.len() ==> #[trigger] field_wf(fields@[k]),
            buf@ == lay_field_items(st1, array as int, fields@.take(i as int), order).bytes,
            pos == lay_field_items(st1, array as int, fields@.take(i as int), order).pos,
            shared.view() == lay_field_items(st1, array as int, fields@.take(i as int), order).shared,
            patches.view() == lay_field_items(st1, array as int, fields@.take(i as int), order).patches,
            patches.wf(),
            fin == lay_field_items(st1, array as int, fields@, order),
            extends(lay_field_items(st1, array as int, fields@.take(i as int), order), fin),
            extends(st1, lay_field_items(st1, array as int, fields@.take(i as int), order)),
            fin.pos <= buf@.len(),
            fin.shared.len() <= MAX_SHARED_TYPES,
            fin.patches.len() <= K,
            holes_ordered(fin.patches),
            buf@.len() == old(buf)@.len(),
            buf@.len() <= i64::MAX,
            buf@.len() == buf.len(),
        decreases fields@.len() - i,
    {
        let ghost cur = lay_field_items(st1, array as int, fields@.take(i as int), order);
        let field = array + i * FIELD_SIZE;
        let ghost next_items = lay_field_items(st1, array as int, fields@.take(i + 1), order);
        proof {
            assert(fields@.take(i + 1).drop_last() =~= fields@.take(i as int));
            assert(fields@.take(i + 1).last() == fields@[i as int]);
            assert(next_items == lay_field(cur, field as int, fields@[i as int], order));
            lemma_lay_field_items_prefix(st1, array as int, fields@, i + 1, fields@.len() as int, order);
            lemma_lay_field_items_prefix(st1, array as int, fields@, i as int, i + 1, order);
            lemma_extends_trans(st1, cur, next_items);
            lemma_table_below(st1, cur);
            let f = fields@[i as int];
            let named = Lay {
                bytes: write_rel(
                    overwrite(cur.bytes, cur.pos, c_str_bytes(f.name)),
                    field + O_FIELD_NAME,
                    cur.pos,
                    order,
                ),
                pos: cur.pos + str_size(f.name),
                shared: cur.shared,
                patches: cur.patches,
            };
            lemma_lay_type(named, field + O_FIELD_TYPE, f.layout, f.attributes@, order);
            lemma_holes_ordered_prefix(fin.patches, next_items.patches.len() as int);
            assert(field_wf(fields@[i as int]));
        }
        let (name, next) = put_str(buf, pos, fields[i].name);
        pos = next;
        put_rel(buf, field + O_FIELD_NAME, name, order);
        let ghost st2 = Lay { bytes: buf@, pos: pos as int, shared: cur.shared, patches: cur.patches };
        proof {
            assert(table_below(st2));
        }
        pos = put_type(
            buf,
            pos,
            field + O_FIELD_TYPE,
            &fields[i].layout,
            fields[i].attributes,
            shared,
            patches,
            order,
            Ghost(st2),
        );
        i += 1;
    }
    (array, pos)
}


/// Lay out one event, its description at `desc` and everything it
/// reaches at `pos`, and return where the next object goes.
#[verifier::rlimit(50)]
fn put_event<'a, const K: usize>(
    buf: &mut [u8],
    pos: usize,
    desc: usize,
    event: &'a EventSpec,
    shared: &mut Shared<'a>,
    patches: &mut Patches<K>,
    order: u8,
    Ghost(cur): Ghost<Lay>,
) -> (r: usize)
    requires
        cur.bytes == old(buf)@,
        cur.pos == pos,
        cur.shared == old(shared).view(),
        cur.patches == old(patches).view(),
        old(patches).wf(),
        table_below(cur),
        desc + DESC_SIZE <= pos,
        fields_wf(event.fields@),
        lay_event(cur, desc as int, *event, order).pos <= old(buf)@.len(),
        lay_event(cur, desc as int, *event, order).shared.len() <= MAX_SHARED_TYPES,
        lay_event(cur, desc as int, *event, order).patches.len() <= K,
        holes_ordered(lay_event(cur, desc as int, *event, order).patches),
        old(buf)@.len() <= i64::MAX,
        old(buf)@.len() == old(buf).len(),
    ensures
        final(buf)@ == lay_event(cur, desc as int, *event, order).bytes,
        r == lay_event(cur, desc as int, *event, order).pos,
        final(shared).view() == lay_event(cur, desc as int, *event, order).shared,
        final(patches).view() == lay_event(cur, desc as int, *event, order).patches,
        final(patches).wf(),
{
    let ghost nxt = lay_event(cur, desc as int, *event, order);
    proof {
        lemma_lay_event(cur, desc as int, *event, order);
    }
    let mut pos = pos;
    put_u32(buf, desc + O_DESC_STRUCT_SIZE, DESC_SIZE as u32, order);
    put_u32(buf, desc + O_DESC_VERSION, SIDE_EVENT_DESCRIPTION_ABI_VERSION, order);
    put_u64(buf, desc + O_DESC_FLAGS, event.flags, order);
    put_u16(buf, desc + O_DESC_NR_TYPE, SIDE_NR_TYPE_LABEL, order);
    put_u16(buf, desc + O_DESC_NR_ATTR, SIDE_NR_ATTR_TYPE, order);
    put_u32(buf, desc + O_DESC_LOGLEVEL, event.loglevel, order);
    let ghost named = Lay {
        bytes: write_rel(
            overwrite(
                write_rel(
                    overwrite(buf@, pos as int, c_str_bytes(event.provider)),
                    desc + O_DESC_PROVIDER,
                    pos as int,
                    order,
                ),
                pos + str_size(event.provider),
                c_str_bytes(event.event),
            ),
            desc + O_DESC_EVENT,
            pos + str_size(event.provider),
            order,
        ),
        pos: pos + str_size(event.provider) + str_size(event.event),
        shared: cur.shared,
        patches: cur.patches,
    };
    proof {
        lemma_lay_fields(named, event.fields@, order);
        lemma_extends_refl(cur);
    }
    let (name, next) = put_str(buf, pos, event.provider);
    pos = next;
    put_rel(buf, desc + O_DESC_PROVIDER, name, order);
    let (name, next) = put_str(buf, pos, event.event);
    pos = next;
    put_rel(buf, desc + O_DESC_EVENT, name, order);
    let ghost s3 = Lay { bytes: buf@, pos: pos as int, shared: cur.shared, patches: cur.patches };
    proof {
        assert(named.bytes =~= s3.bytes);
        lemma_lay_fields(s3, event.fields@, order);
        let lf = lay_fields(s3, event.fields@, order);
        lemma_holes_ordered_prefix(nxt.patches, lf.1.patches.len() as int);
        lemma_table_below(cur, with_pos(cur, pos as int));
    }
    let (array, next) = put_fields(buf, pos, &event.fields, shared, patches, order, Ghost(s3));
    pos = next;
    put_rel(buf, desc + O_DESC_FIELDS, array, order);
    put_u32(buf, desc + O_DESC_FIELDS + O_ARRAY_LENGTH, event.fields.len() as u32, order);
    let ghost s4 = Lay { bytes: buf@, pos: pos as int, shared: shared.view(), patches: patches.view() };
    put_attrs(buf, pos, desc + O_DESC_ATTRIBUTES, false, event.attributes, order, Ghost(s4))
}

/// Where the holes of a built description are.
pub open spec fn patch_offsets(ps: Seq<Patch>) -> Seq<int> {
    Seq::new(ps.len(), |i: int| ps[i].at as int)
}

/// The descriptions of a group of events, laid out in the byte order
/// `order`, as the bytes which go in the `side_event_description`
/// section.
///
/// The descriptions come first, one after another, so the description
/// of the event at index `i` begins at `event_offset(i)`; everything
/// they reach follows, with each distinct structure laid out once.
///
/// `N` is `group_size(events)` and `K` the number of references to a
/// structure described elsewhere.
#[verifier::rlimit(50)]
pub fn build_group_for<const N: usize, const K: usize>(events: &[EventSpec], order: u8) -> (r: Built<N, K>)
    requires
        N == group_size_spec(events@),
        N <= isize::MAX,
        group_structs(events@) <= MAX_SHARED_TYPES,
        K == group_holes(events@).len(),
        holes_ordered(group_holes(events@)),
        events_wf(events@),
    ensures
        r.bytes@ == group_bytes(events@, N as nat, order),
        patch_offsets(r.patches@) == group_holes(events@),
{
    let ghost fin = group_lay(events@, N as nat, order);
    let ghost init = lay_events(events@, 0, N as nat, order);
    proof {
        lemma_group_measure(events@, N as nat, order);
        lemma_group_geometry(events@, N as nat, 0, order, SIDE_TYPE_BYTE_ORDER_LE);
        lemma_lay_events_prefix(events@, 0, events@.len(), N as nat, order);
        lemma_extends_refl(init);
    }
    let mut buf = [0u8;N];
    let mut shared = Shared::new();
    let mut patches = Patches::<K>::new();
    proof {
        assert(buf@ =~= init.bytes);
    }
    let mut pos = events.len() * DESC_SIZE;
    let mut e: usize = 0;
    while e < events.len()
        invariant
            e <= events@.len(),
            fin == lay_events(events@, events@.len(), N as nat, order),
            init == lay_events(events@, 0, N as nat, order),
            events_wf(events@),
            N <= isize::MAX,
            fin.pos == N,
            fin.shared.len() <= MAX_SHARED_TYPES,
            fin.patches.len() == K,
            holes_ordered(fin.patches),
            buf@.len() == N,
            buf@ == lay_events(events@, e as nat, N as nat, order).bytes,
            pos == lay_events(events@, e as nat, N as nat, order).pos,
            shared.view() == lay_events(events@, e as nat, N as nat, order).shared,
            patches.view() == lay_events(events@, e as nat, N as nat, order).patches,
            patches.wf(),
            extends(init, lay_events(events@, e as nat, N as nat, order)),
            extends(lay_events(events@, e as nat, N as nat, order), fin),
        decreases events@.len() - e,
    {
        let ghost cur = lay_events(events@, e as nat, N as nat, order);
        let ghost nxt = lay_events(events@, (e + 1) as nat, N as nat, order);
        let desc = e * DESC_SIZE;
        proof {
            lemma_lay_events_prefix(events@, (e + 1) as nat, events@.len(), N as nat, order);
            lemma_lay_event(cur, desc as int, events@[e as int], order);
            lemma_table_below(init, cur);
            assert(fields_wf(events@[e as int].fields@));
            lemma_holes_ordered_prefix(fin.patches, nxt.patches.len() as int);
            lemma_extends_trans(init, cur, nxt);
        }
        pos = put_event(&mut buf, pos, desc, &events[e], &mut shared, &mut patches, order, Ghost(cur));
        e += 1;
    }
    proof {
        assert(patch_offsets(patches.at@) =~= patches.view());
    }
    Built { bytes: buf, patches: patches.at }
}


/// The descriptions of a group of events, laid out in the byte order of
/// the machine this runs on.
///
/// The description says which byte order it is in, and every integer in
/// it is in that order; which of the two a machine has is all that is
/// left open here.
pub fn build_group<const N: usize, const K: usize>(events: &[EventSpec]) -> (r: Built<N, K>)
    requires
        N == group_size_spec(events@),
        N <= isize::MAX,
        group_structs(events@) <= MAX_SHARED_TYPES,
        K == group_holes(events@).len(),
        holes_ordered(group_holes(events@)),
        events_wf(events@),
    ensures
        r.bytes@ == group_bytes(events@, N as nat, SIDE_TYPE_BYTE_ORDER_LE) || r.bytes@
            == group_bytes(events@, N as nat, SIDE_TYPE_BYTE_ORDER_BE),
        patch_offsets(r.patches@) == group_holes(events@),
{
    let order = host_byte_order();
    build_group_for::<N, K>(events, order)
}

/// The description of one structure, laid out in the byte order `order`,
/// as the bytes which go in the `side_event_description` section. The
/// `struct side_type_struct` an address reaches is the first thing in
/// it.
#[verifier::rlimit(50)]
pub fn build_type_for<const N: usize, const K: usize>(fields: &Vec<Field>, size: u32, order: u8) -> (r: Built<N, K>)
    requires
        N == type_size_spec(fields@, size),
        N <= isize::MAX,
        type_structs(fields@, size) <= MAX_SHARED_TYPES,
        K == type_holes(fields@, size).len(),
        holes_ordered(type_holes(fields@, size)),
        fields_wf(fields@),
    ensures
        r.bytes@ == type_bytes(fields@, size, N as nat, order),
        patch_offsets(r.patches@) == type_holes(fields@, size),
{
    let ghost start = Lay {
        bytes: Seq::new(N as nat, |i: int| 0u8),
        pos: STRUCT_TYPE_SIZE as int,
        shared: seq![Slot { fields: fields@, size, offset: 0 }],
        patches: Seq::empty(),
    };
    let ghost fin = type_lay(fields@, size, N as nat, order);
    proof {
        lemma_type_measure(fields@, size, N as nat, order);
        lemma_type_geometry(fields@, size, N as nat, 0, order, SIDE_TYPE_BYTE_ORDER_LE);
        lemma_lay_fields(start, fields@, order);
        crate::measure::lemma_fields_size_grows(fields@, type_table(fields@, size));
    }
    let mut buf = [0u8;N];
    let mut shared = Shared::new();
    let mut patches = Patches::<K>::new();
    /* Named before its fields are laid out, as a use of it would be. */
    shared_insert(&mut shared, fields, size, 0);
    proof {
        assert(buf@ =~= start.bytes);
        assert(shared.view() =~= start.shared);
        lemma_holes_ordered_prefix(fin.patches, fin.patches.len() as int);
        assert(fin.patches.subrange(0, fin.patches.len() as int) =~= fin.patches);
    }
    let (array, pos) = put_fields(
        &mut buf,
        STRUCT_TYPE_SIZE,
        fields,
        &mut shared,
        &mut patches,
        order,
        Ghost(start),
    );
    put_rel(&mut buf, O_STRUCT_FIELDS, array, order);
    put_u32(&mut buf, O_STRUCT_FIELDS + O_ARRAY_LENGTH, fields.len() as u32, order);
    proof {
        assert(patch_offsets(patches.at@) =~= patches.view());
    }
    Built { bytes: buf, patches: patches.at }
}

/// The description of one structure, laid out in the byte order of the
/// machine this runs on.
pub fn build_type<const N: usize, const K: usize>(fields: &Vec<Field>, size: u32) -> (r: Built<N, K>)
    requires
        N == type_size_spec(fields@, size),
        N <= isize::MAX,
        type_structs(fields@, size) <= MAX_SHARED_TYPES,
        K == type_holes(fields@, size).len(),
        holes_ordered(type_holes(fields@, size)),
        fields_wf(fields@),
    ensures
        r.bytes@ == type_bytes(fields@, size, N as nat, SIDE_TYPE_BYTE_ORDER_LE) || r.bytes@
            == type_bytes(fields@, size, N as nat, SIDE_TYPE_BYTE_ORDER_BE),
        patch_offsets(r.patches@) == type_holes(fields@, size),
{
    let order = host_byte_order();
    build_type_for::<N, K>(fields, size, order)
}

} // verus!
