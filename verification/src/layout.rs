//! What laying a description out writes, and where.
//!
//! The state of a layout is the bytes written so far, where the next
//! object goes, the structures laid out so far, and the holes left for
//! addresses. Everything a description points at, it points at by the
//! distance from the member holding the pointer, so where each object
//! goes is what the bytes depend on.
use vstd::prelude::*;

use crate::abi::{
    ATTR_SIZE, DESC_SIZE, PATCH_WIDTH, FIELD_SIZE, O_ARRAY_ATTRIBUTES, O_ARRAY_ELEM_TYPE, O_ARRAY_LENGTH, O_ARRAY_TYPE_LENGTH, O_ATTRVAL_TYPE, O_ATTRVAL_U, O_ATTR_KEY, O_ATTR_VALUE, O_BOOL_ATTRIBUTES, O_BOOL_BYTE_ORDER, O_BOOL_LEN_BITS, O_BOOL_SIZE, O_DESC_ATTRIBUTES, O_DESC_EVENT, O_DESC_FIELDS, O_DESC_FLAGS, O_DESC_LOGLEVEL, O_DESC_NR_ATTR, O_DESC_NR_TYPE, O_DESC_PROVIDER, O_DESC_STRUCT_SIZE, O_DESC_VERSION, O_FIELD_NAME, O_FIELD_TYPE, O_GARRAY_ACCESS, O_GARRAY_OFFSET, O_GARRAY_TYPE, O_GBOOL_ACCESS, O_GBOOL_OFFSET, O_GBOOL_OFFSET_BITS, O_GBOOL_TYPE, O_GINT_ACCESS, O_GINT_OFFSET, O_GINT_OFFSET_BITS, O_GINT_TYPE, O_GSTRUCT_ACCESS, O_GSTRUCT_OFFSET, O_GSTRUCT_SIZE, O_GSTRUCT_TYPE, O_GVLA_ACCESS, O_GVLA_OFFSET, O_GVLA_TYPE, O_INT_ATTRIBUTES, O_INT_BYTE_ORDER, O_INT_LEN_BITS, O_INT_SIGNEDNESS, O_INT_SIZE, O_RAWSTR_BYTE_ORDER, O_RAWSTR_P, O_RAWSTR_UNIT_SIZE, O_SEL_ARRAY_LENGTH, O_STRUCT_FIELDS, O_STR_ATTRIBUTES, O_STR_BYTE_ORDER, O_STR_UNIT_SIZE, O_TYPE_U, O_VLA_ATTRIBUTES, O_VLA_ELEM_TYPE, O_VLA_LENGTH_TYPE, SIDE_ATTR_TYPE_BOOL, SIDE_ATTR_TYPE_NULL, SIDE_ATTR_TYPE_S16, SIDE_ATTR_TYPE_S32, SIDE_ATTR_TYPE_S64, SIDE_ATTR_TYPE_S8, SIDE_ATTR_TYPE_STRING, SIDE_ATTR_TYPE_U16, SIDE_ATTR_TYPE_U32, SIDE_ATTR_TYPE_U64, SIDE_ATTR_TYPE_U8, SIDE_EVENT_DESCRIPTION_ABI_VERSION, SIDE_NR_ATTR_TYPE, SIDE_NR_TYPE_LABEL, SIDE_TYPE_BOOL, SIDE_TYPE_BYTE_ORDER_LE, SIDE_TYPE_GATHER_ACCESS_DIRECT, SIDE_TYPE_GATHER_ACCESS_POINTER, SIDE_TYPE_GATHER_ARRAY, SIDE_TYPE_GATHER_BOOL, SIDE_TYPE_GATHER_INTEGER, SIDE_TYPE_GATHER_POINTER, SIDE_TYPE_GATHER_STRUCT, SIDE_TYPE_GATHER_VLA, SIDE_TYPE_POINTER, SIDE_TYPE_S16, SIDE_TYPE_S32, SIDE_TYPE_S64, SIDE_TYPE_S8, SIDE_TYPE_STRING_UTF8, SIDE_TYPE_U16, SIDE_TYPE_U32, SIDE_TYPE_U64, SIDE_TYPE_U8, STRUCT_TYPE_SIZE, TYPE_SIZE,
};
use crate::bytes::{c_str_bytes, overwrite, write_rel, write_sel_rel, write_u8, write_uint};
use crate::measure::{attr_size, attrs_size_spec, str_size};
use crate::model::{Attr, AttrValue, EventSpec, Field, Layout};
use crate::shared::{find_shared, Slot};

verus! {

broadcast use vstd::std_specs::vec::group_vec_axioms, vstd::seq::group_seq_axioms;

/// A description being laid out.
pub struct Lay {
    /// The bytes written so far.
    pub bytes: Seq<u8>,
    /// Where the next object goes.
    pub pos: int,
    /// The structures laid out so far.
    pub shared: Seq<Slot>,
    /// The holes left for an address, in the order they were left.
    pub patches: Seq<int>,
}

/// Every structure the layout has laid out begins before the next free
/// byte.
pub open spec fn table_below(st: Lay) -> bool {
    &&& st.pos >= 0
    &&& forall|i: int| 0 <= i < st.shared.len() ==> 0 <= #[trigger] st.shared[i].offset <= st.pos
}

/// The holes come out in order, each `PATCH_WIDTH` wide, and never
/// overlap.
pub open spec fn holes_ordered(ps: Seq<int>) -> bool {
    forall|i: int| 1 <= i < ps.len() ==> #[trigger] ps[i - 1] + PATCH_WIDTH <= ps[i]
}

/// A shape the builder can lay out: every integer pushed at the call
/// site is one it has a label for, and no structure carries attributes
/// at the field which reads through it -- a structure keeps its
/// attributes with its definition, as it does in C.
pub open spec fn layout_wf(l: Layout) -> bool
    decreases l, 0nat,
{
    match l {
        Layout::Integer { size, .. } => is_stack_integer_size(size),
        Layout::GatherStruct { fields, .. } => fields_wf(fields@),
        Layout::GatherArray { elem, .. } => layout_wf(*elem),
        Layout::GatherVla { elem, .. } => layout_wf(*elem),
        _ => true,
    }
}

/// What `layout_wf` asks of the attributes given with a shape.
pub open spec fn type_attrs_wf(l: Layout, attrs: Seq<Attr>) -> bool {
    (l is GatherStruct || l is ExternStruct) ==> attrs.len() == 0
}

pub open spec fn field_wf(f: Field) -> bool
    decreases f, 0nat,
{
    layout_wf(f.layout) && type_attrs_wf(f.layout, f.attributes@)
}

pub open spec fn fields_wf(fs: Seq<Field>) -> bool
    decreases fs, 0nat,
{
    if fs.len() == 0 {
        true
    } else {
        fields_wf(fs.drop_last()) && field_wf(fs.last())
    }
}

/// Every event of a group has fields the builder can lay out.
pub open spec fn events_wf(es: Seq<EventSpec>) -> bool {
    forall|i: int| 0 <= i < es.len() ==> #[trigger] fields_wf(es[i].fields@)
}

/// The same layout, with other bytes.
pub open spec fn with_bytes(st: Lay, bytes: Seq<u8>) -> Lay {
    Lay { bytes, pos: st.pos, shared: st.shared, patches: st.patches }
}

/// The same layout, with the next object going at `pos`.
pub open spec fn with_pos(st: Lay, pos: int) -> Lay {
    Lay { bytes: st.bytes, pos, shared: st.shared, patches: st.patches }
}

/// A `struct side_type_raw_string` at `at`, holding the string at
/// `target`: a distance to it, its unit size and its byte order.
pub open spec fn raw_string_bytes(buf: Seq<u8>, at: int, target: int, o: u8) -> Seq<u8> {
    write_u8(
        write_u8(write_sel_rel(buf, at + O_RAWSTR_P, target, o), at + O_RAWSTR_UNIT_SIZE, 1),
        at + O_RAWSTR_BYTE_ORDER,
        o,
    )
}

/// What a value other than a string writes into a `struct
/// side_attr_value` at `at`: its type, and the value itself.
pub open spec fn attr_value_bytes(buf: Seq<u8>, at: int, v: AttrValue, o: u8) -> Seq<u8> {
    let ty = at + O_ATTRVAL_TYPE;
    let u = at + O_ATTRVAL_U;
    match v {
        AttrValue::Null => write_uint(buf, ty, SIDE_ATTR_TYPE_NULL as u64, 4, o),
        AttrValue::Bool(x) => write_u8(
            write_uint(buf, ty, SIDE_ATTR_TYPE_BOOL as u64, 4, o),
            u,
            if x { 1u8 } else { 0u8 },
        ),
        AttrValue::U8(x) => write_u8(write_uint(buf, ty, SIDE_ATTR_TYPE_U8 as u64, 4, o), u, x),
        AttrValue::U16(x) => write_uint(
            write_uint(buf, ty, SIDE_ATTR_TYPE_U16 as u64, 4, o),
            u,
            x as u64,
            2,
            o,
        ),
        AttrValue::U32(x) => write_uint(
            write_uint(buf, ty, SIDE_ATTR_TYPE_U32 as u64, 4, o),
            u,
            x as u64,
            4,
            o,
        ),
        AttrValue::U64(x) => write_uint(
            write_uint(buf, ty, SIDE_ATTR_TYPE_U64 as u64, 4, o),
            u,
            x,
            8,
            o,
        ),
        AttrValue::S8(x) => write_u8(
            write_uint(buf, ty, SIDE_ATTR_TYPE_S8 as u64, 4, o),
            u,
            x as u8,
        ),
        AttrValue::S16(x) => write_uint(
            write_uint(buf, ty, SIDE_ATTR_TYPE_S16 as u64, 4, o),
            u,
            x as u16 as u64,
            2,
            o,
        ),
        AttrValue::S32(x) => write_uint(
            write_uint(buf, ty, SIDE_ATTR_TYPE_S32 as u64, 4, o),
            u,
            x as u32 as u64,
            4,
            o,
        ),
        AttrValue::S64(x) => write_uint(
            write_uint(buf, ty, SIDE_ATTR_TYPE_S64 as u64, 4, o),
            u,
            x as u64,
            8,
            o,
        ),
        AttrValue::String(_) => write_uint(buf, ty, SIDE_ATTR_TYPE_STRING as u64, 4, o),
    }
}

/// One attribute, its entry at `attr_at`, its key and any string value
/// at the next free byte.
pub open spec fn lay_attr(st: Lay, attr_at: int, a: Attr, o: u8) -> Lay {
    let key = attr_at + O_ATTR_KEY;
    let value = attr_at + O_ATTR_VALUE;
    let at_key = st.pos;
    let b1 = overwrite(st.bytes, at_key, c_str_bytes(a.key));
    let p1 = at_key + str_size(a.key);
    let b2 = raw_string_bytes(b1, key, at_key, o);
    let b3 = attr_value_bytes(b2, value, a.value, o);
    match a.value {
        AttrValue::String(v) => {
            let b4 = overwrite(b3, p1, c_str_bytes(v));
            let b5 = raw_string_bytes(b4, value + O_ATTRVAL_U, p1, o);
            Lay { bytes: b5, pos: p1 + str_size(v), shared: st.shared, patches: st.patches }
        },
        _ => Lay { bytes: b3, pos: p1, shared: st.shared, patches: st.patches },
    }
}

/// The attributes of a list, each at its entry of the array at `array`.
pub open spec fn lay_attr_items(st: Lay, array: int, attrs: Seq<Attr>, o: u8) -> Lay
    decreases attrs.len(),
{
    if attrs.len() == 0 {
        st
    } else {
        lay_attr(
            lay_attr_items(st, array, attrs.drop_last(), o),
            array + (attrs.len() - 1) * ATTR_SIZE,
            attrs.last(),
            o,
        )
    }
}

/// An attribute list, laid out at the next free byte and pointed at from
/// `at`: by a selector pointer where `selector` says the member holds
/// one, by a distance otherwise. An empty list writes nothing: the
/// zeroed bytes it starts as are one.
pub open spec fn lay_attrs(st: Lay, at: int, selector: bool, attrs: Seq<Attr>, o: u8) -> Lay {
    if attrs.len() == 0 {
        st
    } else {
        let array = st.pos;
        let st2 = lay_attr_items(with_pos(st, array + attrs.len() * ATTR_SIZE), array, attrs, o);
        let b = if selector {
            write_uint(
                write_sel_rel(st2.bytes, at, array, o),
                at + O_SEL_ARRAY_LENGTH,
                attrs.len() as u32 as u64,
                4,
                o,
            )
        } else {
            write_uint(
                write_rel(st2.bytes, at, array, o),
                at + O_ARRAY_LENGTH,
                attrs.len() as u32 as u64,
                4,
                o,
            )
        };
        with_bytes(st2, b)
    }
}

/// The body of a `struct side_type_bool` at `at`.
pub open spec fn bool_body(buf: Seq<u8>, at: int, size: u16, o: u8) -> Seq<u8> {
    write_u8(
        write_uint(write_uint(buf, at + O_BOOL_SIZE, size as u64, 2, o), at + O_BOOL_LEN_BITS, 0, 2, o),
        at + O_BOOL_BYTE_ORDER,
        o,
    )
}

/// The body of a `struct side_type_integer` at `at`.
pub open spec fn integer_body(buf: Seq<u8>, at: int, size: u16, signed: bool, o: u8) -> Seq<u8> {
    write_u8(
        write_u8(
            write_uint(
                write_uint(buf, at + O_INT_SIZE, size as u64, 2, o),
                at + O_INT_LEN_BITS,
                0,
                2,
                o,
            ),
            at + O_INT_SIGNEDNESS,
            if signed { 1u8 } else { 0u8 },
        ),
        at + O_INT_BYTE_ORDER,
        o,
    )
}

/// The sizes an integer pushed at the call site can have.
pub open spec fn is_stack_integer_size(size: u16) -> bool {
    size == 1 || size == 2 || size == 4 || size == 8
}

/// The label of an integer pushed at the call site.
pub open spec fn stack_integer_label_spec(size: u16, signed: bool) -> u16 {
    if !signed {
        if size == 1 {
            SIDE_TYPE_U8
        } else if size == 2 {
            SIDE_TYPE_U16
        } else if size == 4 {
            SIDE_TYPE_U32
        } else {
            SIDE_TYPE_U64
        }
    } else {
        if size == 1 {
            SIDE_TYPE_S8
        } else if size == 2 {
            SIDE_TYPE_S16
        } else if size == 4 {
            SIDE_TYPE_S32
        } else {
            SIDE_TYPE_S64
        }
    }
}

/// The width of a pointer-sized integer, as a type records it.
pub open spec fn usize_size() -> u16 {
    vstd::layout::size_of::<usize>() as u16
}

/// A `struct side_type` which reaches nothing but its attributes, at
/// `at`.
pub open spec fn lay_leaf(st: Lay, at: int, l: Layout, attrs: Seq<Attr>, o: u8) -> Lay {
    let u = at + O_TYPE_U;
    let b = st.bytes;
    match l {
        Layout::Bool => {
            let b1 = bool_body(write_uint(b, at, SIDE_TYPE_BOOL as u64, 2, o), u, 1, o);
            lay_attrs(with_bytes(st, b1), u + O_BOOL_ATTRIBUTES, true, attrs, o)
        },
        Layout::Integer { size, signed } => {
            let b1 = integer_body(
                write_uint(b, at, stack_integer_label_spec(size, signed) as u64, 2, o),
                u,
                size,
                signed,
                o,
            );
            lay_attrs(with_bytes(st, b1), u + O_INT_ATTRIBUTES, true, attrs, o)
        },
        Layout::Pointer => {
            let b1 = integer_body(
                write_uint(b, at, SIDE_TYPE_POINTER as u64, 2, o),
                u,
                usize_size(),
                false,
                o,
            );
            lay_attrs(with_bytes(st, b1), u + O_INT_ATTRIBUTES, true, attrs, o)
        },
        Layout::String => {
            let b1 = write_u8(
                write_u8(
                    write_uint(b, at, SIDE_TYPE_STRING_UTF8 as u64, 2, o),
                    u + O_STR_UNIT_SIZE,
                    1,
                ),
                u + O_STR_BYTE_ORDER,
                o,
            );
            lay_attrs(with_bytes(st, b1), u + O_STR_ATTRIBUTES, true, attrs, o)
        },
        Layout::GatherBool { offset, size } => {
            let b1 = write_u8(
                write_uint(
                    write_uint(
                        write_uint(b, at, SIDE_TYPE_GATHER_BOOL as u64, 2, o),
                        u + O_GBOOL_OFFSET,
                        offset,
                        8,
                        o,
                    ),
                    u + O_GBOOL_OFFSET_BITS,
                    0,
                    2,
                    o,
                ),
                u + O_GBOOL_ACCESS,
                SIDE_TYPE_GATHER_ACCESS_DIRECT,
            );
            let b2 = bool_body(b1, u + O_GBOOL_TYPE, size, o);
            lay_attrs(with_bytes(st, b2), u + O_GBOOL_TYPE + O_BOOL_ATTRIBUTES, true, attrs, o)
        },
        Layout::GatherInteger { offset, size, signed } => {
            let b1 = write_u8(
                write_uint(
                    write_uint(
                        write_uint(b, at, SIDE_TYPE_GATHER_INTEGER as u64, 2, o),
                        u + O_GINT_OFFSET,
                        offset,
                        8,
                        o,
                    ),
                    u + O_GINT_OFFSET_BITS,
                    0,
                    2,
                    o,
                ),
                u + O_GINT_ACCESS,
                SIDE_TYPE_GATHER_ACCESS_DIRECT,
            );
            let b2 = integer_body(b1, u + O_GINT_TYPE, size, signed, o);
            lay_attrs(with_bytes(st, b2), u + O_GINT_TYPE + O_INT_ATTRIBUTES, true, attrs, o)
        },
        Layout::GatherPointer { offset } => {
            let b1 = write_u8(
                write_uint(
                    write_uint(
                        write_uint(b, at, SIDE_TYPE_GATHER_POINTER as u64, 2, o),
                        u + O_GINT_OFFSET,
                        offset,
                        8,
                        o,
                    ),
                    u + O_GINT_OFFSET_BITS,
                    0,
                    2,
                    o,
                ),
                u + O_GINT_ACCESS,
                SIDE_TYPE_GATHER_ACCESS_DIRECT,
            );
            let b2 = integer_body(b1, u + O_GINT_TYPE, usize_size(), false, o);
            lay_attrs(with_bytes(st, b2), u + O_GINT_TYPE + O_INT_ATTRIBUTES, true, attrs, o)
        },
        _ => st,
    }
}

/// The head of a `struct side_type_gather_struct` at `at`: its label,
/// the offset it is read from, how, and its size.
pub open spec fn gather_struct_head(buf: Seq<u8>, at: int, offset: u64, size: u32, access: u8, o: u8) -> Seq<u8> {
    let u = at + O_TYPE_U;
    write_uint(
        write_u8(
            write_uint(
                write_uint(buf, at, SIDE_TYPE_GATHER_STRUCT as u64, 2, o),
                u + O_GSTRUCT_OFFSET,
                offset,
                8,
                o,
            ),
            u + O_GSTRUCT_ACCESS,
            access,
        ),
        u + O_GSTRUCT_SIZE,
        size as u64,
        4,
        o,
    )
}

/// Write a `struct side_type` at `at`, putting whatever it points at at
/// the next free byte.
pub open spec fn lay_type(st: Lay, at: int, l: Layout, attrs: Seq<Attr>, o: u8) -> Lay
    decreases l, 0nat,
{
    let u = at + O_TYPE_U;
    match l {
        Layout::GatherStruct { offset, size, access, fields } => {
            let st0 = with_bytes(st, gather_struct_head(st.bytes, at, offset, size, access, o));
            match find_shared(st0.shared, fields@, size) {
                Some(off) => with_bytes(st0, write_sel_rel(st0.bytes, u + O_GSTRUCT_TYPE, off, o)),
                None => {
                    let type_ = st0.pos;
                    let st1 = Lay {
                        bytes: st0.bytes,
                        pos: type_ + STRUCT_TYPE_SIZE,
                        shared: st0.shared.push(Slot { fields: fields@, size, offset: type_ }),
                        patches: st0.patches,
                    };
                    let r = lay_fields(st1, fields@, o);
                    let st2 = r.1;
                    let b2 = write_uint(
                        write_rel(st2.bytes, type_ + O_STRUCT_FIELDS, r.0, o),
                        type_ + O_STRUCT_FIELDS + O_ARRAY_LENGTH,
                        fields@.len() as u32 as u64,
                        4,
                        o,
                    );
                    with_bytes(st2, write_sel_rel(b2, u + O_GSTRUCT_TYPE, type_, o))
                },
            }
        },
        Layout::GatherArray { offset, length, elem } => {
            let array = u + O_GARRAY_TYPE;
            let b1 = write_uint(
                write_u8(
                    write_uint(
                        write_uint(st.bytes, at, SIDE_TYPE_GATHER_ARRAY as u64, 2, o),
                        u + O_GARRAY_OFFSET,
                        offset,
                        8,
                        o,
                    ),
                    u + O_GARRAY_ACCESS,
                    SIDE_TYPE_GATHER_ACCESS_DIRECT,
                ),
                array + O_ARRAY_TYPE_LENGTH,
                length as u64,
                4,
                o,
            );
            let st1 = lay_attrs(with_bytes(st, b1), array + O_ARRAY_ATTRIBUTES, false, attrs, o);
            let elem_type = st1.pos;
            let st2 = with_pos(st1, elem_type + TYPE_SIZE);
            let st3 = with_bytes(st2, write_rel(st2.bytes, array + O_ARRAY_ELEM_TYPE, elem_type, o));
            lay_type(st3, elem_type, *elem, Seq::empty(), o)
        },
        Layout::GatherVla { offset, len_offset, elem } => {
            let vla = u + O_GVLA_TYPE;
            let b1 = write_u8(
                write_uint(
                    write_uint(st.bytes, at, SIDE_TYPE_GATHER_VLA as u64, 2, o),
                    u + O_GVLA_OFFSET,
                    offset,
                    8,
                    o,
                ),
                u + O_GVLA_ACCESS,
                SIDE_TYPE_GATHER_ACCESS_POINTER,
            );
            let st1 = lay_attrs(with_bytes(st, b1), vla + O_VLA_ATTRIBUTES, false, attrs, o);
            let elem_type = st1.pos;
            let length_type = elem_type + TYPE_SIZE;
            let st2 = with_pos(st1, length_type + TYPE_SIZE);
            let st3 = with_bytes(
                st2,
                write_rel(
                    write_rel(st2.bytes, vla + O_VLA_ELEM_TYPE, elem_type, o),
                    vla + O_VLA_LENGTH_TYPE,
                    length_type,
                    o,
                ),
            );
            let st4 = lay_type(st3, elem_type, *elem, Seq::empty(), o);
            /* The length is read from the vector itself. */
            lay_leaf(
                st4,
                length_type,
                Layout::GatherInteger { offset: len_offset, size: usize_size(), signed: false },
                Seq::empty(),
                o,
            )
        },
        Layout::ExternStruct { offset, size, access, .. } => {
            let b1 = gather_struct_head(st.bytes, at, offset, size, access, o);
            Lay {
                bytes: b1,
                pos: st.pos,
                shared: st.shared,
                patches: st.patches.push(u + O_GSTRUCT_TYPE),
            }
        },
        _ => lay_leaf(st, at, l, attrs, o),
    }
}

/// One field, its entry at `field_at`: its name at the next free byte,
/// then its type.
pub open spec fn lay_field(st: Lay, field_at: int, f: Field, o: u8) -> Lay
    decreases f, 0nat,
{
    let name = st.pos;
    let b1 = overwrite(st.bytes, name, c_str_bytes(f.name));
    let b2 = write_rel(b1, field_at + O_FIELD_NAME, name, o);
    let st1 = Lay {
        bytes: b2,
        pos: name + str_size(f.name),
        shared: st.shared,
        patches: st.patches,
    };
    lay_type(st1, field_at + O_FIELD_TYPE, f.layout, f.attributes@, o)
}

/// The fields of a list, each at its entry of the array at `array`.
pub open spec fn lay_field_items(st: Lay, array: int, fs: Seq<Field>, o: u8) -> Lay
    decreases fs, 0nat,
{
    if fs.len() == 0 {
        st
    } else {
        lay_field(
            lay_field_items(st, array, fs.drop_last(), o),
            array + (fs.len() - 1) * FIELD_SIZE,
            fs.last(),
            o,
        )
    }
}

/// A field array at the next free byte, and where it starts.
pub open spec fn lay_fields(st: Lay, fs: Seq<Field>, o: u8) -> (int, Lay)
    decreases fs, 1nat,
{
    let array = st.pos;
    (array, lay_field_items(with_pos(st, array + fs.len() * FIELD_SIZE), array, fs, o))
}

/// The fixed part of an event's description at `desc`.
pub open spec fn event_head(buf: Seq<u8>, desc: int, e: EventSpec, o: u8) -> Seq<u8> {
    write_uint(
        write_uint(
            write_uint(
                write_uint(
                    write_uint(
                        write_uint(buf, desc + O_DESC_STRUCT_SIZE, DESC_SIZE as u64, 4, o),
                        desc + O_DESC_VERSION,
                        SIDE_EVENT_DESCRIPTION_ABI_VERSION as u64,
                        4,
                        o,
                    ),
                    desc + O_DESC_FLAGS,
                    e.flags,
                    8,
                    o,
                ),
                desc + O_DESC_NR_TYPE,
                SIDE_NR_TYPE_LABEL as u64,
                2,
                o,
            ),
            desc + O_DESC_NR_ATTR,
            SIDE_NR_ATTR_TYPE as u64,
            2,
            o,
        ),
        desc + O_DESC_LOGLEVEL,
        e.loglevel as u64,
        4,
        o,
    )
}

/// One event, its description at `desc` and everything it reaches at
/// the next free byte.
pub open spec fn lay_event(st: Lay, desc: int, e: EventSpec, o: u8) -> Lay {
    let b0 = event_head(st.bytes, desc, e, o);
    let provider = st.pos;
    let b1 = write_rel(overwrite(b0, provider, c_str_bytes(e.provider)), desc + O_DESC_PROVIDER, provider, o);
    let event = provider + str_size(e.provider);
    let b2 = write_rel(overwrite(b1, event, c_str_bytes(e.event)), desc + O_DESC_EVENT, event, o);
    let st1 = Lay {
        bytes: b2,
        pos: event + str_size(e.event),
        shared: st.shared,
        patches: st.patches,
    };
    let r = lay_fields(st1, e.fields@, o);
    let st2 = r.1;
    let b3 = write_uint(
        write_rel(st2.bytes, desc + O_DESC_FIELDS, r.0, o),
        desc + O_DESC_FIELDS + O_ARRAY_LENGTH,
        e.fields@.len() as u32 as u64,
        4,
        o,
    );
    lay_attrs(with_bytes(st2, b3), desc + O_DESC_ATTRIBUTES, false, e.attributes@, o)
}

/// The first `k` events of a group laid out into `n` zeroed bytes, the
/// descriptions first, one after another.
pub open spec fn lay_events(all: Seq<EventSpec>, k: nat, n: nat, o: u8) -> Lay
    decreases k,
{
    if k == 0 {
        Lay {
            bytes: Seq::new(n, |i: int| 0u8),
            pos: all.len() * DESC_SIZE,
            shared: Seq::empty(),
            patches: Seq::empty(),
        }
    } else {
        lay_event(
            lay_events(all, (k - 1) as nat, n, o),
            (k - 1) * DESC_SIZE,
            all[k - 1],
            o,
        )
    }
}

/// A group of events laid out into `n` bytes in the byte order `o`.
pub open spec fn group_lay(events: Seq<EventSpec>, n: nat, o: u8) -> Lay {
    lay_events(events, events.len(), n, o)
}

/// The bytes of the descriptions of a group of events.
pub open spec fn group_bytes(events: Seq<EventSpec>, n: nat, o: u8) -> Seq<u8> {
    group_lay(events, n, o).bytes
}

/// Where a group of events leaves a hole for the address of a structure
/// described elsewhere, in the order it leaves them.
pub open spec fn group_holes(events: Seq<EventSpec>) -> Seq<int> {
    group_lay(events, 0, SIDE_TYPE_BYTE_ORDER_LE).patches
}

/// One structure laid out into `n` zeroed bytes on its own: its `struct
/// side_type_struct` first, then its fields.
pub open spec fn type_lay(fields: Seq<Field>, size: u32, n: nat, o: u8) -> Lay {
    let start = Lay {
        bytes: Seq::new(n, |i: int| 0u8),
        pos: STRUCT_TYPE_SIZE as int,
        shared: seq![Slot { fields, size, offset: 0 }],
        patches: Seq::empty(),
    };
    let r = lay_fields(start, fields, o);
    let b = write_uint(
        write_rel(r.1.bytes, O_STRUCT_FIELDS as int, r.0, o),
        O_STRUCT_FIELDS + O_ARRAY_LENGTH,
        fields.len() as u32 as u64,
        4,
        o,
    );
    with_bytes(r.1, b)
}

/// The bytes of one structure described on its own.
pub open spec fn type_bytes(fields: Seq<Field>, size: u32, n: nat, o: u8) -> Seq<u8> {
    type_lay(fields, size, n, o).bytes
}

/// Where one structure described on its own leaves a hole.
pub open spec fn type_holes(fields: Seq<Field>, size: u32) -> Seq<int> {
    type_lay(fields, size, 0, SIDE_TYPE_BYTE_ORDER_LE).patches
}


/* What laying out never does: move back, change the size of the bytes,
 * forget a structure, or take back a hole. */

/// `out` is `st` laid out further.
pub open spec fn extends(st: Lay, out: Lay) -> bool {
    &&& out.pos >= st.pos
    &&& out.bytes.len() == st.bytes.len()
    &&& out.shared.len() >= st.shared.len()
    &&& out.shared.subrange(0, st.shared.len() as int) == st.shared
    &&& forall|i: int|
        st.shared.len() <= i < out.shared.len() ==> st.pos <= #[trigger] out.shared[i].offset
            <= out.pos
    &&& out.patches.len() >= st.patches.len()
    &&& out.patches.subrange(0, st.patches.len() as int) == st.patches
}

pub proof fn lemma_extends_trans(a: Lay, b: Lay, c: Lay)
    requires
        extends(a, b),
        extends(b, c),
    ensures
        extends(a, c),
{
    assert(c.patches.subrange(0, a.patches.len() as int) =~= c.patches.subrange(
        0,
        b.patches.len() as int,
    ).subrange(0, a.patches.len() as int));
    assert(c.shared.subrange(0, a.shared.len() as int) =~= c.shared.subrange(
        0,
        b.shared.len() as int,
    ).subrange(0, a.shared.len() as int));
    assert forall|i: int| a.shared.len() <= i < c.shared.len() implies a.pos <= #[trigger] c.shared[i].offset
        <= c.pos by {
        if i < b.shared.len() {
            assert(c.shared.subrange(0, b.shared.len() as int)[i] == c.shared[i]);
        }
    }
}

pub proof fn lemma_extends_refl(a: Lay)
    ensures
        extends(a, a),
{
    assert(a.patches.subrange(0, a.patches.len() as int) =~= a.patches);
    assert(a.shared.subrange(0, a.shared.len() as int) =~= a.shared);
}

pub proof fn lemma_lay_attr(st: Lay, attr_at: int, a: Attr, o: u8)
    ensures
        lay_attr(st, attr_at, a, o).pos == st.pos + attr_size(a) - ATTR_SIZE,
        lay_attr(st, attr_at, a, o).bytes.len() == st.bytes.len(),
        lay_attr(st, attr_at, a, o).shared == st.shared,
        lay_attr(st, attr_at, a, o).patches == st.patches,
{
}

pub proof fn lemma_lay_attr_items(st: Lay, array: int, attrs: Seq<Attr>, o: u8)
    ensures
        lay_attr_items(st, array, attrs, o).pos == st.pos + attrs_size_spec(attrs) - attrs.len()
            * ATTR_SIZE,
        lay_attr_items(st, array, attrs, o).bytes.len() == st.bytes.len(),
        lay_attr_items(st, array, attrs, o).shared == st.shared,
        lay_attr_items(st, array, attrs, o).patches == st.patches,
    decreases attrs.len(),
{
    if attrs.len() > 0 {
        lemma_lay_attr_items(st, array, attrs.drop_last(), o);
        lemma_lay_attr(
            lay_attr_items(st, array, attrs.drop_last(), o),
            array + (attrs.len() - 1) * ATTR_SIZE,
            attrs.last(),
            o,
        );
    }
}

pub broadcast proof fn lemma_lay_attrs(st: Lay, at: int, selector: bool, attrs: Seq<Attr>, o: u8)
    ensures
        (#[trigger] lay_attrs(st, at, selector, attrs, o)).pos == st.pos + attrs_size_spec(attrs),
        lay_attrs(st, at, selector, attrs, o).bytes.len() == st.bytes.len(),
        lay_attrs(st, at, selector, attrs, o).shared == st.shared,
        lay_attrs(st, at, selector, attrs, o).patches == st.patches,
        attrs_size_spec(attrs) >= 0,
{
    crate::measure::lemma_attrs_size_prefix(attrs, 0);
    if attrs.len() > 0 {
        lemma_lay_attr_items(
            with_pos(st, st.pos + attrs.len() * ATTR_SIZE),
            st.pos,
            attrs,
            o,
        );
    }
}

/// A type which reaches nothing but its attributes takes the room they
/// take.
pub proof fn lemma_lay_leaf(st: Lay, at: int, l: Layout, attrs: Seq<Attr>, o: u8)
    ensures
        lay_leaf(st, at, l, attrs, o).bytes.len() == st.bytes.len(),
        lay_leaf(st, at, l, attrs, o).shared == st.shared,
        lay_leaf(st, at, l, attrs, o).patches == st.patches,
        match l {
            Layout::Bool | Layout::Integer { .. } | Layout::Pointer | Layout::String
            | Layout::GatherBool { .. } | Layout::GatherInteger { .. }
            | Layout::GatherPointer { .. } => lay_leaf(st, at, l, attrs, o).pos == st.pos
                + attrs_size_spec(attrs),
            _ => lay_leaf(st, at, l, attrs, o) == st,
        },
{
    broadcast use lemma_lay_attrs;

}


pub proof fn lemma_lay_type(st: Lay, at: int, l: Layout, attrs: Seq<Attr>, o: u8)
    ensures
        extends(st, lay_type(st, at, l, attrs, o)),
    decreases l, 0nat,
{
    broadcast use lemma_lay_attrs;

    let u = at + O_TYPE_U;
    lemma_extends_refl(st);
    match l {
        Layout::GatherStruct { offset, size, access, fields } => {
            let st0 = with_bytes(st, gather_struct_head(st.bytes, at, offset, size, access, o));
            if find_shared(st0.shared, fields@, size) is None {
                let type_ = st0.pos;
                let st1 = Lay {
                    bytes: st0.bytes,
                    pos: type_ + STRUCT_TYPE_SIZE,
                    shared: st0.shared.push(Slot { fields: fields@, size, offset: type_ }),
                    patches: st0.patches,
                };
                lemma_lay_fields(st1, fields@, o);
                assert(st1.shared.subrange(0, st.shared.len() as int) =~= st.shared);
                lemma_extends_trans(st, st1, lay_fields(st1, fields@, o).1);
            }
        },
        Layout::GatherArray { offset, length, elem } => {
            let array = u + O_GARRAY_TYPE;
            let b1 = write_uint(
                write_u8(
                    write_uint(
                        write_uint(st.bytes, at, SIDE_TYPE_GATHER_ARRAY as u64, 2, o),
                        u + O_GARRAY_OFFSET,
                        offset,
                        8,
                        o,
                    ),
                    u + O_GARRAY_ACCESS,
                    SIDE_TYPE_GATHER_ACCESS_DIRECT,
                ),
                array + O_ARRAY_TYPE_LENGTH,
                length as u64,
                4,
                o,
            );
            let st1 = lay_attrs(with_bytes(st, b1), array + O_ARRAY_ATTRIBUTES, false, attrs, o);
            let elem_type = st1.pos;
            let st2 = with_pos(st1, elem_type + TYPE_SIZE);
            let st3 = with_bytes(st2, write_rel(st2.bytes, array + O_ARRAY_ELEM_TYPE, elem_type, o));
            lemma_lay_type(st3, elem_type, *elem, Seq::empty(), o);
            lemma_extends_trans(st, st3, lay_type(st3, elem_type, *elem, Seq::empty(), o));
        },
        Layout::GatherVla { offset, len_offset, elem } => {
            let vla = u + O_GVLA_TYPE;
            let b1 = write_u8(
                write_uint(
                    write_uint(st.bytes, at, SIDE_TYPE_GATHER_VLA as u64, 2, o),
                    u + O_GVLA_OFFSET,
                    offset,
                    8,
                    o,
                ),
                u + O_GVLA_ACCESS,
                SIDE_TYPE_GATHER_ACCESS_POINTER,
            );
            let st1 = lay_attrs(with_bytes(st, b1), vla + O_VLA_ATTRIBUTES, false, attrs, o);
            let elem_type = st1.pos;
            let length_type = elem_type + TYPE_SIZE;
            let st2 = with_pos(st1, length_type + TYPE_SIZE);
            let st3 = with_bytes(
                st2,
                write_rel(
                    write_rel(st2.bytes, vla + O_VLA_ELEM_TYPE, elem_type, o),
                    vla + O_VLA_LENGTH_TYPE,
                    length_type,
                    o,
                ),
            );
            let st4 = lay_type(st3, elem_type, *elem, Seq::empty(), o);
            lemma_lay_type(st3, elem_type, *elem, Seq::empty(), o);
            lemma_extends_trans(st, st3, st4);
            let lt = Layout::GatherInteger { offset: len_offset, size: usize_size(), signed: false };
            lemma_lay_leaf(st4, length_type, lt, Seq::empty(), o);
            assert(extends(st4, lay_leaf(st4, length_type, lt, Seq::empty(), o))) by {
                lemma_extends_refl(st4);
            }
            lemma_extends_trans(st, st4, lay_leaf(st4, length_type, lt, Seq::empty(), o));
        },
        Layout::ExternStruct { .. } => {
            let out = lay_type(st, at, l, attrs, o);
            assert(out.patches.subrange(0, st.patches.len() as int) =~= st.patches);
            assert(out.shared.subrange(0, st.shared.len() as int) =~= st.shared);
        },
        _ => {
            lemma_lay_leaf(st, at, l, attrs, o);
        },
    }
}

pub proof fn lemma_lay_field(st: Lay, field_at: int, f: Field, o: u8)
    ensures
        extends(st, lay_field(st, field_at, f, o)),
    decreases f, 0nat,
{
    let name = st.pos;
    let b1 = overwrite(st.bytes, name, c_str_bytes(f.name));
    let b2 = write_rel(b1, field_at + O_FIELD_NAME, name, o);
    let st1 = Lay {
        bytes: b2,
        pos: name + str_size(f.name),
        shared: st.shared,
        patches: st.patches,
    };
    lemma_extends_refl(st);
    lemma_lay_type(st1, field_at + O_FIELD_TYPE, f.layout, f.attributes@, o);
    lemma_extends_trans(st, st1, lay_field(st, field_at, f, o));
}

pub proof fn lemma_lay_field_items(st: Lay, array: int, fs: Seq<Field>, o: u8)
    ensures
        extends(st, lay_field_items(st, array, fs, o)),
    decreases fs, 0nat,
{
    if fs.len() == 0 {
        lemma_extends_refl(st);
    } else {
        let mid = lay_field_items(st, array, fs.drop_last(), o);
        lemma_lay_field_items(st, array, fs.drop_last(), o);
        lemma_lay_field(mid, array + (fs.len() - 1) * FIELD_SIZE, fs.last(), o);
        lemma_extends_trans(st, mid, lay_field_items(st, array, fs, o));
    }
}

pub proof fn lemma_lay_fields(st: Lay, fs: Seq<Field>, o: u8)
    ensures
        lay_fields(st, fs, o).0 == st.pos,
        extends(st, lay_fields(st, fs, o).1),
        lay_fields(st, fs, o).1.pos >= st.pos + fs.len() * FIELD_SIZE,
    decreases fs, 1nat,
{
    let st1 = with_pos(st, st.pos + fs.len() * FIELD_SIZE);
    lemma_extends_refl(st);
    lemma_lay_field_items(st1, st.pos, fs, o);
    lemma_extends_trans(st, st1, lay_fields(st, fs, o).1);
}


pub proof fn lemma_fields_wf(fs: Seq<Field>)
    requires
        fields_wf(fs),
    ensures
        forall|i: int| 0 <= i < fs.len() ==> #[trigger] field_wf(fs[i]),
    decreases fs.len(),
{
    if fs.len() > 0 {
        lemma_fields_wf(fs.drop_last());
        assert forall|i: int| 0 <= i < fs.len() implies #[trigger] field_wf(fs[i]) by {
            if i < fs.len() - 1 {
                assert(fs.drop_last()[i] == fs[i]);
            }
        }
    }
}

/// A prefix of ordered holes is ordered.
pub proof fn lemma_holes_ordered_prefix(ps: Seq<int>, n: int)
    requires
        holes_ordered(ps),
        0 <= n <= ps.len(),
    ensures
        holes_ordered(ps.subrange(0, n)),
{
    assert forall|i: int| 1 <= i < n implies #[trigger] ps.subrange(0, n)[i - 1] + PATCH_WIDTH
        <= ps.subrange(0, n)[i] by {
        assert(ps[i - 1] + PATCH_WIDTH <= ps[i]);
    }
}

pub proof fn lemma_table_below(st: Lay, out: Lay)
    requires
        table_below(st),
        extends(st, out),
    ensures
        table_below(out),
{
    assert forall|i: int| 0 <= i < out.shared.len() implies 0 <= #[trigger] out.shared[i].offset
        <= out.pos by {
        if i < st.shared.len() {
            assert(out.shared.subrange(0, st.shared.len() as int)[i] == out.shared[i]);
            assert(st.shared[i] == out.shared[i]);
        }
    }
}

pub proof fn lemma_lay_field_items_prefix(st: Lay, array: int, fs: Seq<Field>, i: int, j: int, o: u8)
    requires
        0 <= i <= j <= fs.len(),
    ensures
        extends(
            lay_field_items(st, array, fs.take(i), o),
            lay_field_items(st, array, fs.take(j), o),
        ),
    decreases j - i,
{
    if i == j {
        lemma_extends_refl(lay_field_items(st, array, fs.take(i), o));
    } else {
        lemma_lay_field_items_prefix(st, array, fs, i, j - 1, o);
        assert(fs.take(j).drop_last() =~= fs.take(j - 1));
        let mid = lay_field_items(st, array, fs.take(j - 1), o);
        lemma_lay_field(mid, array + (j - 1) * FIELD_SIZE, fs.take(j).last(), o);
        lemma_extends_trans(
            lay_field_items(st, array, fs.take(i), o),
            mid,
            lay_field_items(st, array, fs.take(j), o),
        );
    }
}

pub proof fn lemma_lay_attr_items_prefix(st: Lay, array: int, attrs: Seq<Attr>, i: int, j: int, o: u8)
    requires
        0 <= i <= j <= attrs.len(),
    ensures
        lay_attr_items(st, array, attrs.take(i), o).pos <= lay_attr_items(
            st,
            array,
            attrs.take(j),
            o,
        ).pos,
    decreases j - i,
{
    if i < j {
        lemma_lay_attr_items_prefix(st, array, attrs, i, j - 1, o);
        assert(attrs.take(j).drop_last() =~= attrs.take(j - 1));
        let mid = lay_attr_items(st, array, attrs.take(j - 1), o);
        lemma_lay_attr(mid, array + (j - 1) * ATTR_SIZE, attrs.take(j).last(), o);
    }
}


pub proof fn lemma_lay_event(st: Lay, desc: int, e: EventSpec, o: u8)
    ensures
        extends(st, lay_event(st, desc, e, o)),
{
    broadcast use lemma_lay_attrs;

    let p = st.pos;
    let ev = p + str_size(e.provider);
    let b2 = write_rel(
        overwrite(
            write_rel(
                overwrite(event_head(st.bytes, desc, e, o), p, c_str_bytes(e.provider)),
                desc + O_DESC_PROVIDER,
                p,
                o,
            ),
            ev,
            c_str_bytes(e.event),
        ),
        desc + O_DESC_EVENT,
        ev,
        o,
    );
    let s1 = Lay { bytes: b2, pos: ev + str_size(e.event), shared: st.shared, patches: st.patches };
    lemma_extends_refl(st);
    lemma_lay_fields(s1, e.fields@, o);
    lemma_extends_trans(st, s1, lay_fields(s1, e.fields@, o).1);
    let s2 = lay_fields(s1, e.fields@, o).1;
    let b3 = write_uint(
        write_rel(s2.bytes, desc + O_DESC_FIELDS, lay_fields(s1, e.fields@, o).0, o),
        desc + O_DESC_FIELDS + O_ARRAY_LENGTH,
        e.fields@.len() as u32 as u64,
        4,
        o,
    );
    lemma_extends_refl(s2);
    lemma_extends_trans(st, s2, lay_attrs(with_bytes(s2, b3), desc + O_DESC_ATTRIBUTES, false, e.attributes@, o));
}

pub proof fn lemma_lay_events_prefix(all: Seq<EventSpec>, i: nat, j: nat, n: nat, o: u8)
    requires
        i <= j,
    ensures
        extends(lay_events(all, i, n, o), lay_events(all, j, n, o)),
    decreases j - i,
{
    if i == j {
        lemma_extends_refl(lay_events(all, i, n, o));
    } else {
        lemma_lay_events_prefix(all, i, (j - 1) as nat, n, o);
        lemma_lay_event(lay_events(all, (j - 1) as nat, n, o), (j - 1) * DESC_SIZE, all[j - 1], o);
        lemma_extends_trans(
            lay_events(all, i, n, o),
            lay_events(all, (j - 1) as nat, n, o),
            lay_events(all, j, n, o),
        );
    }
}

} // verus!
