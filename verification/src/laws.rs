//! What a laid out description says, read back.
//!
//! A reader of a description follows what libside follows: integers in
//! the byte order the description names, and distances added to the
//! address of the member holding them. The laws here say what such a
//! reader finds in the bytes `build_group` returns.
use vstd::prelude::*;

use crate::abi::{
    DESC_SIZE, O_ARRAY_LENGTH, O_DESC_ATTRIBUTES, O_DESC_EVENT, O_DESC_FIELDS, O_DESC_FLAGS,
    O_DESC_LOGLEVEL, O_DESC_NR_ATTR, O_DESC_NR_TYPE, O_DESC_PROVIDER, O_DESC_STRUCT_SIZE,
    O_DESC_VERSION, SIDE_EVENT_DESCRIPTION_ABI_VERSION, SIDE_NR_ATTR_TYPE, SIDE_NR_TYPE_LABEL,
    SIDE_TYPE_BYTE_ORDER_BE, FIELD_SIZE, PATCH_WIDTH, O_ARRAY_ELEM_TYPE, O_ARRAY_TYPE_LENGTH, O_ARRAY_ATTRIBUTES,
    O_GARRAY_ACCESS, O_GARRAY_OFFSET, O_GARRAY_TYPE, O_GVLA_ACCESS, O_GVLA_OFFSET, O_GVLA_TYPE,
    O_FIELD_TYPE, O_GSTRUCT_TYPE, O_TYPE_U, O_VLA_ATTRIBUTES, O_VLA_ELEM_TYPE, O_VLA_LENGTH_TYPE, SIDE_TYPE_GATHER_ACCESS_DIRECT,
    SIDE_TYPE_GATHER_ACCESS_POINTER, SIDE_TYPE_GATHER_ARRAY, SIDE_TYPE_GATHER_VLA,
    STRUCT_TYPE_SIZE, TYPE_SIZE, O_STRUCT_FIELDS,
};
use crate::bytes::{c_str_bytes, host_bytes, overwrite, rel_bytes, write_rel, write_u8, write_uint};
use crate::frame::{lemma_lay_attrs_frame, lemma_lay_fields_frame, only_within};
use crate::layout::{
    gather_struct_head, group_lay, holes_ordered, fields_wf, type_bytes, lay_field, lay_field_items, lay_type, usize_size, with_pos,
    event_head, events_wf, group_bytes, lay_attrs, lay_event, lay_events, lay_fields, lemma_lay_events_prefix,
    lemma_lay_fields, with_bytes, Lay,
};
use crate::agree::lemma_group_measure;
use crate::measure::{group_size_spec, str_size, type_size_spec};
use crate::model::{Attr, AttrValue, EventSpec, Field, Layout};
use crate::shape::{attr_same, attr_value_same, attrs_same, field_same, fields_same, layout_same};
use crate::shared::{find_shared, lemma_find_slot, slot_matches, Slot};

verus! {

broadcast use vstd::std_specs::vec::group_vec_axioms, vstd::seq::group_seq_axioms;

/// `b` holds `v` from byte `at` on.
pub open spec fn holds_at(b: Seq<u8>, at: int, v: Seq<u8>) -> bool {
    &&& 0 <= at
    &&& at + v.len() <= b.len()
    &&& b.subrange(at, at + v.len()) == v
}

/// The description at `d` says what `e` says, with its provider's name
/// at `p` and its own name right after it.
#[verifier::opaque]
pub open spec fn describes_at(b: Seq<u8>, d: int, e: EventSpec, o: u8, p: int) -> bool {
    let ev = p + str_size(e.provider);
    &&& holds_at(b, d + O_DESC_STRUCT_SIZE, host_bytes(DESC_SIZE as u64, 4, o))
    &&& holds_at(b, d + O_DESC_VERSION, host_bytes(SIDE_EVENT_DESCRIPTION_ABI_VERSION as u64, 4, o))
    &&& holds_at(b, d + O_DESC_FLAGS, host_bytes(e.flags, 8, o))
    &&& holds_at(b, d + O_DESC_NR_TYPE, host_bytes(SIDE_NR_TYPE_LABEL as u64, 2, o))
    &&& holds_at(b, d + O_DESC_NR_ATTR, host_bytes(SIDE_NR_ATTR_TYPE as u64, 2, o))
    &&& holds_at(b, d + O_DESC_LOGLEVEL, host_bytes(e.loglevel as u64, 4, o))
    &&& holds_at(
        b,
        d + O_DESC_FIELDS + O_ARRAY_LENGTH,
        host_bytes(e.fields@.len() as u32 as u64, 4, o),
    )
    &&& holds_at(
        b,
        d + O_DESC_ATTRIBUTES + O_ARRAY_LENGTH,
        host_bytes(e.attributes@.len() as u32 as u64, 4, o),
    )
    &&& holds_at(b, d + O_DESC_PROVIDER, rel_bytes(d + O_DESC_PROVIDER, p, o))
    &&& holds_at(b, p, c_str_bytes(e.provider))
    &&& holds_at(b, d + O_DESC_EVENT, rel_bytes(d + O_DESC_EVENT, ev, o))
    &&& holds_at(b, ev, c_str_bytes(e.event))
}

/// The parts of a description at `d` which are written before its
/// fields are laid out.
pub open spec fn head_at(b: Seq<u8>, d: int, e: EventSpec, o: u8, p: int) -> bool {
    let ev = p + str_size(e.provider);
    &&& holds_at(b, d + O_DESC_STRUCT_SIZE, host_bytes(DESC_SIZE as u64, 4, o))
    &&& holds_at(b, d + O_DESC_VERSION, host_bytes(SIDE_EVENT_DESCRIPTION_ABI_VERSION as u64, 4, o))
    &&& holds_at(b, d + O_DESC_FLAGS, host_bytes(e.flags, 8, o))
    &&& holds_at(b, d + O_DESC_NR_TYPE, host_bytes(SIDE_NR_TYPE_LABEL as u64, 2, o))
    &&& holds_at(b, d + O_DESC_NR_ATTR, host_bytes(SIDE_NR_ATTR_TYPE as u64, 2, o))
    &&& holds_at(b, d + O_DESC_LOGLEVEL, host_bytes(e.loglevel as u64, 4, o))
    &&& holds_at(b, d + O_DESC_PROVIDER, rel_bytes(d + O_DESC_PROVIDER, p, o))
    &&& holds_at(b, p, c_str_bytes(e.provider))
    &&& holds_at(b, d + O_DESC_EVENT, rel_bytes(d + O_DESC_EVENT, ev, o))
    &&& holds_at(b, ev, c_str_bytes(e.event))
}

/// `[lo, hi)` is clear of what `head_at` speaks of.
pub open spec fn clear_of_head(lo: int, hi: int, d: int, e: EventSpec, p: int) -> bool {
    ||| hi <= lo
    ||| (d + O_DESC_FIELDS <= lo && hi <= d + O_DESC_FLAGS)
    ||| p + str_size(e.provider) + str_size(e.event) <= lo
}

proof fn lemma_head_kept(
    b1: Seq<u8>,
    b2: Seq<u8>,
    lo1: int,
    hi1: int,
    lo2: int,
    hi2: int,
    d: int,
    e: EventSpec,
    o: u8,
    p: int,
)
    requires
        only_within(b1, b2, lo1, hi1, lo2, hi2),
        head_at(b1, d, e, o, p),
        d + DESC_SIZE <= p,
        clear_of_head(lo1, hi1, d, e, p),
        clear_of_head(lo2, hi2, d, e, p),
    ensures
        head_at(b2, d, e, o, p),
{
    let ev = p + str_size(e.provider);
    lemma_holds_kept(b1, b2, lo1, hi1, lo2, hi2, d + O_DESC_STRUCT_SIZE, host_bytes(DESC_SIZE as u64, 4, o));
    lemma_holds_kept(b1, b2, lo1, hi1, lo2, hi2, d + O_DESC_VERSION, host_bytes(SIDE_EVENT_DESCRIPTION_ABI_VERSION as u64, 4, o));
    lemma_holds_kept(b1, b2, lo1, hi1, lo2, hi2, d + O_DESC_FLAGS, host_bytes(e.flags, 8, o));
    lemma_holds_kept(b1, b2, lo1, hi1, lo2, hi2, d + O_DESC_NR_TYPE, host_bytes(SIDE_NR_TYPE_LABEL as u64, 2, o));
    lemma_holds_kept(b1, b2, lo1, hi1, lo2, hi2, d + O_DESC_NR_ATTR, host_bytes(SIDE_NR_ATTR_TYPE as u64, 2, o));
    lemma_holds_kept(b1, b2, lo1, hi1, lo2, hi2, d + O_DESC_LOGLEVEL, host_bytes(e.loglevel as u64, 4, o));
    lemma_holds_kept(b1, b2, lo1, hi1, lo2, hi2, d + O_DESC_PROVIDER, rel_bytes(d + O_DESC_PROVIDER, p, o));
    lemma_holds_kept(b1, b2, lo1, hi1, lo2, hi2, p, c_str_bytes(e.provider));
    lemma_holds_kept(b1, b2, lo1, hi1, lo2, hi2, d + O_DESC_EVENT, rel_bytes(d + O_DESC_EVENT, ev, o));
    lemma_holds_kept(b1, b2, lo1, hi1, lo2, hi2, ev, c_str_bytes(e.event));
}

pub(crate) proof fn lemma_overwrite_within(buf: Seq<u8>, at: int, v: Seq<u8>)
    ensures
        only_within(buf, overwrite(buf, at, v), at, at + v.len(), 0, 0),
{
}

pub(crate) proof fn lemma_overwrite_holds(buf: Seq<u8>, at: int, v: Seq<u8>)
    requires
        0 <= at,
        at + v.len() <= buf.len(),
    ensures
        holds_at(overwrite(buf, at, v), at, v),
{
    assert(overwrite(buf, at, v).subrange(at, at + v.len()) =~= v);
}

/// Writing `v` at `at` keeps what lies clear of it.
pub(crate) proof fn lemma_overwrite_keeps(buf: Seq<u8>, at: int, v: Seq<u8>, at2: int, v2: Seq<u8>)
    requires
        holds_at(buf, at2, v2),
        at2 + v2.len() <= at || at + v.len() <= at2,
    ensures
        holds_at(overwrite(buf, at, v), at2, v2),
{
    assert(overwrite(buf, at, v).subrange(at2, at2 + v2.len()) =~= buf.subrange(
        at2,
        at2 + v2.len(),
    ));
}

/// What lies clear of the ranges a change is confined to is kept.
pub(crate) proof fn lemma_holds_kept(
    b1: Seq<u8>,
    b2: Seq<u8>,
    lo1: int,
    hi1: int,
    lo2: int,
    hi2: int,
    at: int,
    v: Seq<u8>,
)
    requires
        only_within(b1, b2, lo1, hi1, lo2, hi2),
        holds_at(b1, at, v),
        at + v.len() <= lo1 || hi1 <= at || hi1 <= lo1,
        at + v.len() <= lo2 || hi2 <= at || hi2 <= lo2,
    ensures
        holds_at(b2, at, v),
{
    assert forall|k: int| 0 <= k < v.len() implies b2.subrange(at, at + v.len())[k] == v[k] by {
        assert(b2[at + k] == b1[at + k]);
        assert(b1.subrange(at, at + v.len())[k] == b1[at + k]);
    }
    assert(b2.subrange(at, at + v.len()) =~= v);
}

/// What the fixed part of a description holds once written, and that
/// writing it touches nothing else.
proof fn lemma_event_head_reads(buf: Seq<u8>, d: int, e: EventSpec, o: u8)
    requires
        0 <= d,
        d + DESC_SIZE <= buf.len(),
    ensures
        only_within(buf, event_head(buf, d, e, o), d, d + 8, d + O_DESC_FLAGS, d + DESC_SIZE),
        holds_at(event_head(buf, d, e, o), d + O_DESC_STRUCT_SIZE, host_bytes(DESC_SIZE as u64, 4, o)),
        holds_at(
            event_head(buf, d, e, o),
            d + O_DESC_VERSION,
            host_bytes(SIDE_EVENT_DESCRIPTION_ABI_VERSION as u64, 4, o),
        ),
        holds_at(event_head(buf, d, e, o), d + O_DESC_FLAGS, host_bytes(e.flags, 8, o)),
        holds_at(event_head(buf, d, e, o), d + O_DESC_NR_TYPE, host_bytes(SIDE_NR_TYPE_LABEL as u64, 2, o)),
        holds_at(event_head(buf, d, e, o), d + O_DESC_NR_ATTR, host_bytes(SIDE_NR_ATTR_TYPE as u64, 2, o)),
        holds_at(event_head(buf, d, e, o), d + O_DESC_LOGLEVEL, host_bytes(e.loglevel as u64, 4, o)),
{
    let v1 = host_bytes(DESC_SIZE as u64, 4, o);
    let v2 = host_bytes(SIDE_EVENT_DESCRIPTION_ABI_VERSION as u64, 4, o);
    let v3 = host_bytes(e.flags, 8, o);
    let v4 = host_bytes(SIDE_NR_TYPE_LABEL as u64, 2, o);
    let v5 = host_bytes(SIDE_NR_ATTR_TYPE as u64, 2, o);
    let v6 = host_bytes(e.loglevel as u64, 4, o);
    let b1 = overwrite(buf, d + O_DESC_STRUCT_SIZE, v1);
    let b2 = overwrite(b1, d + O_DESC_VERSION, v2);
    let b3 = overwrite(b2, d + O_DESC_FLAGS, v3);
    let b4 = overwrite(b3, d + O_DESC_NR_TYPE, v4);
    let b5 = overwrite(b4, d + O_DESC_NR_ATTR, v5);
    let b6 = overwrite(b5, d + O_DESC_LOGLEVEL, v6);
    assert(b6 == event_head(buf, d, e, o));
    lemma_overwrite_holds(buf, d + O_DESC_STRUCT_SIZE, v1);
    lemma_overwrite_keeps(b1, d + O_DESC_VERSION, v2, d + O_DESC_STRUCT_SIZE, v1);
    lemma_overwrite_holds(b1, d + O_DESC_VERSION, v2);
    lemma_overwrite_keeps(b2, d + O_DESC_FLAGS, v3, d + O_DESC_STRUCT_SIZE, v1);
    lemma_overwrite_keeps(b2, d + O_DESC_FLAGS, v3, d + O_DESC_VERSION, v2);
    lemma_overwrite_holds(b2, d + O_DESC_FLAGS, v3);
    lemma_overwrite_keeps(b3, d + O_DESC_NR_TYPE, v4, d + O_DESC_STRUCT_SIZE, v1);
    lemma_overwrite_keeps(b3, d + O_DESC_NR_TYPE, v4, d + O_DESC_VERSION, v2);
    lemma_overwrite_keeps(b3, d + O_DESC_NR_TYPE, v4, d + O_DESC_FLAGS, v3);
    lemma_overwrite_holds(b3, d + O_DESC_NR_TYPE, v4);
    lemma_overwrite_keeps(b4, d + O_DESC_NR_ATTR, v5, d + O_DESC_STRUCT_SIZE, v1);
    lemma_overwrite_keeps(b4, d + O_DESC_NR_ATTR, v5, d + O_DESC_VERSION, v2);
    lemma_overwrite_keeps(b4, d + O_DESC_NR_ATTR, v5, d + O_DESC_FLAGS, v3);
    lemma_overwrite_keeps(b4, d + O_DESC_NR_ATTR, v5, d + O_DESC_NR_TYPE, v4);
    lemma_overwrite_holds(b4, d + O_DESC_NR_ATTR, v5);
    lemma_overwrite_keeps(b5, d + O_DESC_LOGLEVEL, v6, d + O_DESC_STRUCT_SIZE, v1);
    lemma_overwrite_keeps(b5, d + O_DESC_LOGLEVEL, v6, d + O_DESC_VERSION, v2);
    lemma_overwrite_keeps(b5, d + O_DESC_LOGLEVEL, v6, d + O_DESC_FLAGS, v3);
    lemma_overwrite_keeps(b5, d + O_DESC_LOGLEVEL, v6, d + O_DESC_NR_TYPE, v4);
    lemma_overwrite_keeps(b5, d + O_DESC_LOGLEVEL, v6, d + O_DESC_NR_ATTR, v5);
    lemma_overwrite_holds(b5, d + O_DESC_LOGLEVEL, v6);
}

/// Laying one event out writes its description as `e` says, its names
/// at the next free byte, and touches nothing but the description and
/// what lies past the next free byte.
proof fn lemma_lay_event_reads(st: Lay, desc: int, e: EventSpec, o: u8)
    requires
        0 <= desc,
        desc + DESC_SIZE <= st.pos,
        lay_event(st, desc, e, o).pos <= st.bytes.len(),
        holds_at(st.bytes, desc + O_DESC_ATTRIBUTES + O_ARRAY_LENGTH, host_bytes(0, 4, o)),
    ensures
        only_within(
            st.bytes,
            lay_event(st, desc, e, o).bytes,
            desc,
            desc + DESC_SIZE,
            st.pos,
            lay_event(st, desc, e, o).pos,
        ),
        describes_at(lay_event(st, desc, e, o).bytes, desc, e, o, st.pos),
        st.pos + str_size(e.provider) + str_size(e.event) <= lay_event(st, desc, e, o).pos,
{
    reveal(describes_at);
    reveal(describes_at);
    let out = lay_event(st, desc, e, o);
    let n = st.bytes.len();
    let p = st.pos;
    let ev = p + str_size(e.provider);
    let b0 = event_head(st.bytes, desc, e, o);
    let vp = c_str_bytes(e.provider);
    let rp = rel_bytes(desc + O_DESC_PROVIDER, p, o);
    let ve = c_str_bytes(e.event);
    let re = rel_bytes(desc + O_DESC_EVENT, ev, o);
    let a1 = overwrite(b0, p, vp);
    let b1 = overwrite(a1, desc + O_DESC_PROVIDER, rp);
    let a2 = overwrite(b1, ev, ve);
    let b2 = overwrite(a2, desc + O_DESC_EVENT, re);
    let s1 = Lay { bytes: b2, pos: ev + str_size(e.event), shared: st.shared, patches: st.patches };
    let r = lay_fields(s1, e.fields@, o);
    let s2 = r.1;
    let vl = host_bytes(e.fields@.len() as u32 as u64, 4, o);
    let c1 = overwrite(s2.bytes, desc + O_DESC_FIELDS, rel_bytes(desc + O_DESC_FIELDS, r.0, o));
    let b3 = overwrite(c1, desc + O_DESC_FIELDS + O_ARRAY_LENGTH, vl);
    let s3 = with_bytes(s2, b3);
    assert(out == lay_attrs(s3, desc + O_DESC_ATTRIBUTES, false, e.attributes@, o));
    lemma_lay_fields(s1, e.fields@, o);
    lemma_lay_fields_frame(s1, e.fields@, o);
    crate::layout::lemma_lay_attrs(s3, desc + O_DESC_ATTRIBUTES, false, e.attributes@, o);
    lemma_lay_attrs_frame(s3, desc + O_DESC_ATTRIBUTES, false, e.attributes@, o);
    assert(s1.pos <= s2.pos <= out.pos);
    lemma_event_head_reads(st.bytes, desc, e, o);
    let za = desc + O_DESC_ATTRIBUTES + O_ARRAY_LENGTH;
    let z = host_bytes(0, 4, o);
    let vs = host_bytes(DESC_SIZE as u64, 4, o);
    let vv = host_bytes(SIDE_EVENT_DESCRIPTION_ABI_VERSION as u64, 4, o);
    let vf = host_bytes(e.flags, 8, o);
    let vt = host_bytes(SIDE_NR_TYPE_LABEL as u64, 2, o);
    let va = host_bytes(SIDE_NR_ATTR_TYPE as u64, 2, o);
    let vg = host_bytes(e.loglevel as u64, 4, o);
    let d = desc;
    lemma_holds_kept(st.bytes, b0, d, d + 8, d + O_DESC_FLAGS, d + DESC_SIZE, za, z);
    /* The provider's name. */
    lemma_overwrite_holds(b0, p, vp);
    lemma_overwrite_keeps(b0, p, vp, za, z);
    lemma_overwrite_keeps(b0, p, vp, d + O_DESC_STRUCT_SIZE, vs);
    lemma_overwrite_keeps(b0, p, vp, d + O_DESC_VERSION, vv);
    lemma_overwrite_keeps(b0, p, vp, d + O_DESC_FLAGS, vf);
    lemma_overwrite_keeps(b0, p, vp, d + O_DESC_NR_TYPE, vt);
    lemma_overwrite_keeps(b0, p, vp, d + O_DESC_NR_ATTR, va);
    lemma_overwrite_keeps(b0, p, vp, d + O_DESC_LOGLEVEL, vg);
    lemma_overwrite_holds(a1, d + O_DESC_PROVIDER, rp);
    lemma_overwrite_keeps(a1, d + O_DESC_PROVIDER, rp, p, vp);
    lemma_overwrite_keeps(a1, d + O_DESC_PROVIDER, rp, za, z);
    lemma_overwrite_keeps(a1, d + O_DESC_PROVIDER, rp, d + O_DESC_STRUCT_SIZE, vs);
    lemma_overwrite_keeps(a1, d + O_DESC_PROVIDER, rp, d + O_DESC_VERSION, vv);
    lemma_overwrite_keeps(a1, d + O_DESC_PROVIDER, rp, d + O_DESC_FLAGS, vf);
    lemma_overwrite_keeps(a1, d + O_DESC_PROVIDER, rp, d + O_DESC_NR_TYPE, vt);
    lemma_overwrite_keeps(a1, d + O_DESC_PROVIDER, rp, d + O_DESC_NR_ATTR, va);
    lemma_overwrite_keeps(a1, d + O_DESC_PROVIDER, rp, d + O_DESC_LOGLEVEL, vg);
    /* The event's name. */
    lemma_overwrite_holds(b1, ev, ve);
    lemma_overwrite_keeps(b1, ev, ve, d + O_DESC_PROVIDER, rp);
    lemma_overwrite_keeps(b1, ev, ve, p, vp);
    lemma_overwrite_keeps(b1, ev, ve, za, z);
    lemma_overwrite_keeps(b1, ev, ve, d + O_DESC_STRUCT_SIZE, vs);
    lemma_overwrite_keeps(b1, ev, ve, d + O_DESC_VERSION, vv);
    lemma_overwrite_keeps(b1, ev, ve, d + O_DESC_FLAGS, vf);
    lemma_overwrite_keeps(b1, ev, ve, d + O_DESC_NR_TYPE, vt);
    lemma_overwrite_keeps(b1, ev, ve, d + O_DESC_NR_ATTR, va);
    lemma_overwrite_keeps(b1, ev, ve, d + O_DESC_LOGLEVEL, vg);
    lemma_overwrite_holds(a2, d + O_DESC_EVENT, re);
    lemma_overwrite_keeps(a2, d + O_DESC_EVENT, re, ev, ve);
    lemma_overwrite_keeps(a2, d + O_DESC_EVENT, re, d + O_DESC_PROVIDER, rp);
    lemma_overwrite_keeps(a2, d + O_DESC_EVENT, re, p, vp);
    lemma_overwrite_keeps(a2, d + O_DESC_EVENT, re, za, z);
    lemma_overwrite_keeps(a2, d + O_DESC_EVENT, re, d + O_DESC_STRUCT_SIZE, vs);
    lemma_overwrite_keeps(a2, d + O_DESC_EVENT, re, d + O_DESC_VERSION, vv);
    lemma_overwrite_keeps(a2, d + O_DESC_EVENT, re, d + O_DESC_FLAGS, vf);
    lemma_overwrite_keeps(a2, d + O_DESC_EVENT, re, d + O_DESC_NR_TYPE, vt);
    lemma_overwrite_keeps(a2, d + O_DESC_EVENT, re, d + O_DESC_NR_ATTR, va);
    lemma_overwrite_keeps(a2, d + O_DESC_EVENT, re, d + O_DESC_LOGLEVEL, vg);
    assert(head_at(b2, d, e, o, p));
    /* The fields, past the names. */
    lemma_head_kept(b2, s2.bytes, s1.pos, s2.pos, 0, 0, d, e, o, p);
    lemma_holds_kept(b2, s2.bytes, s1.pos, s2.pos, 0, 0, za, z);
    /* The field array and its length. */
    let rf = rel_bytes(desc + O_DESC_FIELDS, r.0, o);
    lemma_overwrite_within(s2.bytes, d + O_DESC_FIELDS, rf);
    lemma_head_kept(s2.bytes, c1, d + O_DESC_FIELDS, d + O_DESC_FIELDS + 8, 0, 0, d, e, o, p);
    lemma_overwrite_keeps(s2.bytes, d + O_DESC_FIELDS, rf, za, z);
    lemma_overwrite_within(c1, d + O_DESC_FIELDS + O_ARRAY_LENGTH, vl);
    lemma_head_kept(c1, b3, d + O_DESC_FIELDS + O_ARRAY_LENGTH, d + O_DESC_FIELDS + O_ARRAY_LENGTH + 4, 0, 0, d, e, o, p);
    lemma_overwrite_keeps(c1, d + O_DESC_FIELDS + O_ARRAY_LENGTH, vl, za, z);
    lemma_overwrite_holds(c1, d + O_DESC_FIELDS + O_ARRAY_LENGTH, vl);
    /* The attributes. */
    lemma_head_kept(b3, out.bytes, d + O_DESC_ATTRIBUTES, d + O_DESC_FLAGS, s2.pos, out.pos, d, e, o, p);
    lemma_holds_kept(b3, out.bytes, d + O_DESC_ATTRIBUTES, d + O_DESC_FLAGS, s2.pos, out.pos, d + O_DESC_FIELDS + O_ARRAY_LENGTH, vl);
    let vn = host_bytes(e.attributes@.len() as u32 as u64, 4, o);
    if e.attributes@.len() == 0 {
        assert(vn == z);
    } else {
        let array = s3.pos;
        let st2 = crate::layout::lay_attr_items(
            crate::layout::with_pos(s3, array + e.attributes@.len() * crate::abi::ATTR_SIZE),
            array,
            e.attributes@,
            o,
        );
        let w = crate::bytes::write_rel(st2.bytes, d + O_DESC_ATTRIBUTES, array, o);
        assert(out.bytes == overwrite(w, za, vn));
        crate::layout::lemma_lay_attr_items(
            crate::layout::with_pos(s3, array + e.attributes@.len() * crate::abi::ATTR_SIZE),
            array,
            e.attributes@,
            o,
        );
        lemma_overwrite_holds(w, za, vn);
    }
    /* And nothing else. */
    assert forall|i: int|
        0 <= i < st.bytes.len() && !(d <= i < d + DESC_SIZE) && !(st.pos <= i < out.pos)
        implies #[trigger] out.bytes[i] == st.bytes[i] by {
        assert(b0[i] == st.bytes[i]);
        assert(b2[i] == b0[i]);
        assert(s2.bytes[i] == b2[i]);
        assert(b3[i] == s2.bytes[i]);
        assert(out.bytes[i] == b3[i]);
    }
}

/// `[lo, hi)` is clear of the description at `d` and of its names at
/// `p`.
pub open spec fn clear_of_desc(lo: int, hi: int, d: int, e: EventSpec, p: int) -> bool {
    ||| hi <= lo
    ||| hi <= d
    ||| (d + DESC_SIZE <= lo && hi <= p)
    ||| p + str_size(e.provider) + str_size(e.event) <= lo
}

proof fn lemma_describes_kept(
    b1: Seq<u8>,
    b2: Seq<u8>,
    lo1: int,
    hi1: int,
    lo2: int,
    hi2: int,
    d: int,
    e: EventSpec,
    o: u8,
    p: int,
)
    requires
        only_within(b1, b2, lo1, hi1, lo2, hi2),
        describes_at(b1, d, e, o, p),
        d + DESC_SIZE <= p,
        clear_of_desc(lo1, hi1, d, e, p),
        clear_of_desc(lo2, hi2, d, e, p),
    ensures
        describes_at(b2, d, e, o, p),
{
    reveal(describes_at);
    let ev = p + str_size(e.provider);
    lemma_holds_kept(b1, b2, lo1, hi1, lo2, hi2, d + O_DESC_STRUCT_SIZE, host_bytes(DESC_SIZE as u64, 4, o));
    lemma_holds_kept(b1, b2, lo1, hi1, lo2, hi2, d + O_DESC_VERSION, host_bytes(SIDE_EVENT_DESCRIPTION_ABI_VERSION as u64, 4, o));
    lemma_holds_kept(b1, b2, lo1, hi1, lo2, hi2, d + O_DESC_FLAGS, host_bytes(e.flags, 8, o));
    lemma_holds_kept(b1, b2, lo1, hi1, lo2, hi2, d + O_DESC_NR_TYPE, host_bytes(SIDE_NR_TYPE_LABEL as u64, 2, o));
    lemma_holds_kept(b1, b2, lo1, hi1, lo2, hi2, d + O_DESC_NR_ATTR, host_bytes(SIDE_NR_ATTR_TYPE as u64, 2, o));
    lemma_holds_kept(b1, b2, lo1, hi1, lo2, hi2, d + O_DESC_LOGLEVEL, host_bytes(e.loglevel as u64, 4, o));
    lemma_holds_kept(b1, b2, lo1, hi1, lo2, hi2, d + O_DESC_FIELDS + O_ARRAY_LENGTH, host_bytes(e.fields@.len() as u32 as u64, 4, o));
    lemma_holds_kept(b1, b2, lo1, hi1, lo2, hi2, d + O_DESC_ATTRIBUTES + O_ARRAY_LENGTH, host_bytes(e.attributes@.len() as u32 as u64, 4, o));
    lemma_holds_kept(b1, b2, lo1, hi1, lo2, hi2, d + O_DESC_PROVIDER, rel_bytes(d + O_DESC_PROVIDER, p, o));
    lemma_holds_kept(b1, b2, lo1, hi1, lo2, hi2, p, c_str_bytes(e.provider));
    lemma_holds_kept(b1, b2, lo1, hi1, lo2, hi2, d + O_DESC_EVENT, rel_bytes(d + O_DESC_EVENT, ev, o));
    lemma_holds_kept(b1, b2, lo1, hi1, lo2, hi2, ev, c_str_bytes(e.event));
}

/// Laying one event out touches nothing but its description and what
/// lies past the next free byte.
pub(crate) proof fn lemma_lay_event_frame(st: Lay, desc: int, e: EventSpec, o: u8)
    ensures
        only_within(
            st.bytes,
            lay_event(st, desc, e, o).bytes,
            desc,
            desc + DESC_SIZE,
            st.pos,
            lay_event(st, desc, e, o).pos,
        ),
{
    let out = lay_event(st, desc, e, o);
    let p = st.pos;
    let ev = p + str_size(e.provider);
    let b0 = event_head(st.bytes, desc, e, o);
    let a1 = overwrite(b0, p, c_str_bytes(e.provider));
    let b1 = overwrite(a1, desc + O_DESC_PROVIDER, rel_bytes(desc + O_DESC_PROVIDER, p, o));
    let a2 = overwrite(b1, ev, c_str_bytes(e.event));
    let b2 = overwrite(a2, desc + O_DESC_EVENT, rel_bytes(desc + O_DESC_EVENT, ev, o));
    let s1 = Lay { bytes: b2, pos: ev + str_size(e.event), shared: st.shared, patches: st.patches };
    let r = lay_fields(s1, e.fields@, o);
    let s2 = r.1;
    let c1 = overwrite(s2.bytes, desc + O_DESC_FIELDS, rel_bytes(desc + O_DESC_FIELDS, r.0, o));
    let b3 = overwrite(
        c1,
        desc + O_DESC_FIELDS + O_ARRAY_LENGTH,
        host_bytes(e.fields@.len() as u32 as u64, 4, o),
    );
    let s3 = with_bytes(s2, b3);
    assert(out == lay_attrs(s3, desc + O_DESC_ATTRIBUTES, false, e.attributes@, o));
    lemma_lay_fields(s1, e.fields@, o);
    lemma_lay_fields_frame(s1, e.fields@, o);
    crate::layout::lemma_lay_attrs(s3, desc + O_DESC_ATTRIBUTES, false, e.attributes@, o);
    lemma_lay_attrs_frame(s3, desc + O_DESC_ATTRIBUTES, false, e.attributes@, o);
    assert forall|i: int|
        0 <= i < st.bytes.len() && !(desc <= i < desc + DESC_SIZE) && !(st.pos <= i < out.pos)
        implies #[trigger] out.bytes[i] == st.bytes[i] by {
        assert(b0[i] == st.bytes[i]);
        assert(b2[i] == b0[i]);
        assert(s2.bytes[i] == b2[i]);
        assert(b3[i] == s2.bytes[i]);
        assert(out.bytes[i] == b3[i]);
    }
}

/// Laying the events from `i` to `j` out touches nothing but their
/// descriptions and what lies past where the `i`th left off.
pub(crate) proof fn lemma_lay_events_frame(all: Seq<EventSpec>, i: nat, j: nat, n: nat, o: u8)
    requires
        i <= j,
    ensures
        only_within(
            lay_events(all, i, n, o).bytes,
            lay_events(all, j, n, o).bytes,
            i * DESC_SIZE,
            j * DESC_SIZE,
            lay_events(all, i, n, o).pos,
            lay_events(all, j, n, o).pos,
        ),
    decreases j - i,
{
    let a = lay_events(all, i, n, o);
    if i < j {
        let m = lay_events(all, (j - 1) as nat, n, o);
        let b = lay_events(all, j, n, o);
        lemma_lay_events_frame(all, i, (j - 1) as nat, n, o);
        lemma_lay_event_frame(m, (j - 1) * DESC_SIZE, all[j - 1], o);
        crate::layout::lemma_lay_events_prefix(all, i, (j - 1) as nat, n, o);
        crate::layout::lemma_lay_events_prefix(all, (j - 1) as nat, j, n, o);
        assert forall|k: int|
            0 <= k < a.bytes.len() && !(i * DESC_SIZE <= k < j * DESC_SIZE) && !(a.pos <= k < b.pos)
            implies #[trigger] b.bytes[k] == a.bytes[k] by {
            assert(m.bytes[k] == a.bytes[k]);
            assert(b.bytes[k] == m.bytes[k]);
        }
    }
}

/// What every byte of `host_bytes(0, ..)` is.
proof fn lemma_zero_bytes(n: nat, o: u8)
    ensures
        forall|k: int| 0 <= k < n ==> #[trigger] host_bytes(0, n, o)[k] == 0,
{
    assert forall|s: u64| #[trigger] ((0u64 >> s) as u8) == 0 by {
        assert((0u64 >> s) as u8 == 0) by (bit_vector);
    }
}

/// Before the `i`th event is laid out, the bytes of its description
/// are still the zeroes the layout started from.
proof fn lemma_attrs_len_zero(events: Seq<EventSpec>, i: int, n: nat, o: u8)
    requires
        0 <= i < events.len(),
        events.len() * DESC_SIZE <= n,
    ensures
        holds_at(
            lay_events(events, i as nat, n, o).bytes,
            i * DESC_SIZE + O_DESC_ATTRIBUTES + O_ARRAY_LENGTH,
            host_bytes(0, 4, o),
        ),
{
    let l0 = lay_events(events, 0, n, o);
    let li = lay_events(events, i as nat, n, o);
    lemma_lay_events_frame(events, 0, i as nat, n, o);
    lemma_lay_events_prefix(events, 0, i as nat, n, o);
    lemma_zero_bytes(4, o);
    let za = i * DESC_SIZE + O_DESC_ATTRIBUTES + O_ARRAY_LENGTH;
    assert forall|k: int| 0 <= k < 4 implies li.bytes.subrange(za, za + 4)[k] == host_bytes(0, 4, o)[k] by {
        assert(li.bytes[za + k] == l0.bytes[za + k]);
    }
    assert(li.bytes.subrange(za, za + 4) =~= host_bytes(0, 4, o));
}

/// The description of every event of a group says what the event says:
/// its size and version, its flags, the label and attribute type counts
/// it was built against, its log level, how many fields and attributes
/// it has, and -- by the distances at its two name members -- its
/// provider's name and its own, each with the nul a C reader stops at.
///
/// This holds of the bytes `build_group` returns, laid out into as many
/// bytes as `group_size` measures, in either byte order.
pub proof fn law_group_describes_events(events: Seq<EventSpec>, i: int, o: u8)
    requires
        events_wf(events),
        0 <= i < events.len(),
    ensures
        exists|p: int|
            #[trigger] describes_at(
                group_bytes(events, group_size_spec(events) as nat, o),
                i * DESC_SIZE,
                events[i],
                o,
                p,
            ),
{
    lemma_group_size_covers(events);
    let n = group_size_spec(events) as nat;
    lemma_group_bounds(events, i, n, o);
    lemma_event_step(events, i, n, o);
    lemma_event_kept(events, i, n, o);
    let p = lay_events(events, i as nat, n, o).pos;
    assert(group_bytes(events, n, o) == lay_events(events, events.len(), n, o).bytes);
    assert(describes_at(group_bytes(events, n, o), i * DESC_SIZE, events[i], o, p));
}

/// A group takes at least the room of its descriptions.
pub(crate) proof fn lemma_group_size_covers(events: Seq<EventSpec>)
    requires
        events_wf(events),
    ensures
        group_size_spec(events) >= events.len() * DESC_SIZE,
{
    lemma_group_measure(events, 0, 0);
    lemma_lay_events_prefix(events, 0, events.len(), 0, 0);
}

pub(crate) proof fn lemma_group_bounds(events: Seq<EventSpec>, i: int, n: nat, o: u8)
    requires
        events_wf(events),
        0 <= i < events.len(),
        n == group_size_spec(events),
    ensures
        events.len() * DESC_SIZE <= lay_events(events, i as nat, n, o).pos,
        lay_events(events, (i + 1) as nat, n, o).pos <= lay_events(events, events.len(), n, o).pos,
        lay_events(events, events.len(), n, o).pos == n,
        lay_events(events, i as nat, n, o).bytes.len() == n,
        lay_events(events, events.len(), n, o).bytes.len() == n,
        events.len() * DESC_SIZE <= n,
{
    lemma_group_measure(events, n, o);
    lemma_lay_events_prefix(events, 0, i as nat, n, o);
    lemma_lay_events_prefix(events, i as nat, (i + 1) as nat, n, o);
    lemma_lay_events_prefix(events, (i + 1) as nat, events.len(), n, o);
}

proof fn lemma_event_step(events: Seq<EventSpec>, i: int, n: nat, o: u8)
    requires
        0 <= i < events.len(),
        events.len() * DESC_SIZE <= lay_events(events, i as nat, n, o).pos,
        lay_events(events, (i + 1) as nat, n, o).pos <= n,
        lay_events(events, i as nat, n, o).bytes.len() == n,
        events.len() * DESC_SIZE <= n,
    ensures
        describes_at(
            lay_events(events, (i + 1) as nat, n, o).bytes,
            i * DESC_SIZE,
            events[i],
            o,
            lay_events(events, i as nat, n, o).pos,
        ),
        lay_events(events, i as nat, n, o).pos + str_size(events[i].provider) + str_size(
            events[i].event,
        ) <= lay_events(events, (i + 1) as nat, n, o).pos,
{
    let li = lay_events(events, i as nat, n, o);
    lemma_attrs_len_zero(events, i, n, o);
    assert(lay_events(events, (i + 1) as nat, n, o) == lay_event(li, i * DESC_SIZE, events[i], o));
    lemma_lay_event_reads(li, i * DESC_SIZE, events[i], o);
}

proof fn lemma_event_kept(events: Seq<EventSpec>, i: int, n: nat, o: u8)
    requires
        0 <= i < events.len(),
        events.len() * DESC_SIZE <= lay_events(events, i as nat, n, o).pos,
        describes_at(
            lay_events(events, (i + 1) as nat, n, o).bytes,
            i * DESC_SIZE,
            events[i],
            o,
            lay_events(events, i as nat, n, o).pos,
        ),
        lay_events(events, i as nat, n, o).pos + str_size(events[i].provider) + str_size(
            events[i].event,
        ) <= lay_events(events, (i + 1) as nat, n, o).pos,
    ensures
        describes_at(
            lay_events(events, events.len(), n, o).bytes,
            i * DESC_SIZE,
            events[i],
            o,
            lay_events(events, i as nat, n, o).pos,
        ),
{
    let len = events.len();
    let li = lay_events(events, i as nat, n, o);
    let lj = lay_events(events, (i + 1) as nat, n, o);
    let fin = lay_events(events, len, n, o);
    lemma_lay_events_frame(events, (i + 1) as nat, len, n, o);
    lemma_describes_kept(
        lj.bytes,
        fin.bytes,
        (i + 1) * DESC_SIZE,
        len * DESC_SIZE,
        lj.pos,
        fin.pos,
        i * DESC_SIZE,
        events[i],
        o,
        li.pos,
    );
}

/* Reading an integer back. */

/// The value of bytes read least significant first.
pub open spec fn le_value(b: Seq<u8>) -> int
    decreases b.len(),
{
    if b.len() == 0 {
        0
    } else {
        b[0] + 256 * le_value(b.drop_first())
    }
}

/// The value of bytes read most significant first.
pub open spec fn be_value(b: Seq<u8>) -> int
    decreases b.len(),
{
    if b.len() == 0 {
        0
    } else {
        be_value(b.drop_last()) * 256 + b.last()
    }
}

/// The unsigned integer a reader of a description in the byte order `o`
/// takes `b` for.
pub open spec fn read_uint(b: Seq<u8>, o: u8) -> int {
    if o == SIDE_TYPE_BYTE_ORDER_BE {
        be_value(b)
    } else {
        le_value(b)
    }
}

/// The byte a reader at `at` reaches through the distance `b` holds, as
/// `side_ptr_rel_get()` adds it: a 64 bit two's complement integer.
pub open spec fn read_rel(b: Seq<u8>, at: int, o: u8) -> int {
    let x = read_uint(b, o);
    if x >= 0x8000_0000_0000_0000 {
        at + x - 0x1_0000_0000_0000_0000
    } else {
        at + x
    }
}

proof fn lemma_read8(v: u64, o: u8)
    ensures
        read_uint(host_bytes(v, 8, o), o) == v,
{
    let b = host_bytes(v, 8, o);
    let b0 = (v >> 0u64) as u8;
    let b1 = (v >> 8u64) as u8;
    let b2 = (v >> 16u64) as u8;
    let b3 = (v >> 24u64) as u8;
    let b4 = (v >> 32u64) as u8;
    let b5 = (v >> 40u64) as u8;
    let b6 = (v >> 48u64) as u8;
    let b7 = (v >> 56u64) as u8;
    assert(v == b0 + 256 * (b1 + 256 * (b2 + 256 * (b3 + 256 * (b4 + 256 * (b5 + 256 * (b6
        + 256 * b7))))))) by (bit_vector)
        requires
            b0 == (v >> 0u64) as u8,
            b1 == (v >> 8u64) as u8,
            b2 == (v >> 16u64) as u8,
            b3 == (v >> 24u64) as u8,
            b4 == (v >> 32u64) as u8,
            b5 == (v >> 40u64) as u8,
            b6 == (v >> 48u64) as u8,
            b7 == (v >> 56u64) as u8,
    ;
    if o == SIDE_TYPE_BYTE_ORDER_BE {
        assert(b =~= seq![b7, b6, b5, b4, b3, b2, b1, b0]);
        reveal_with_fuel(be_value, 9);
        assert(b.drop_last() =~= seq![b7, b6, b5, b4, b3, b2, b1]);
        assert(b.drop_last().drop_last() =~= seq![b7, b6, b5, b4, b3, b2]);
        assert(b.drop_last().drop_last().drop_last() =~= seq![b7, b6, b5, b4, b3]);
        assert(b.drop_last().drop_last().drop_last().drop_last() =~= seq![b7, b6, b5, b4]);
        assert(b.drop_last().drop_last().drop_last().drop_last().drop_last() =~= seq![b7, b6, b5]);
        assert(b.drop_last().drop_last().drop_last().drop_last().drop_last().drop_last() =~= seq![b7, b6]);
        assert(b.drop_last().drop_last().drop_last().drop_last().drop_last().drop_last().drop_last() =~= seq![b7]);
    } else {
        assert(b =~= seq![b0, b1, b2, b3, b4, b5, b6, b7]);
        reveal_with_fuel(le_value, 9);
        assert(b.drop_first() =~= seq![b1, b2, b3, b4, b5, b6, b7]);
        assert(b.drop_first().drop_first() =~= seq![b2, b3, b4, b5, b6, b7]);
        assert(b.drop_first().drop_first().drop_first() =~= seq![b3, b4, b5, b6, b7]);
        assert(b.drop_first().drop_first().drop_first().drop_first() =~= seq![b4, b5, b6, b7]);
        assert(b.drop_first().drop_first().drop_first().drop_first().drop_first() =~= seq![b5, b6, b7]);
        assert(b.drop_first().drop_first().drop_first().drop_first().drop_first().drop_first() =~= seq![b6, b7]);
        assert(b.drop_first().drop_first().drop_first().drop_first().drop_first().drop_first().drop_first() =~= seq![b7]);
    }
}

/// An integer a description holds in eight bytes reads back as itself,
/// in either byte order.
pub proof fn law_read_u64(v: u64, o: u8)
    ensures
        read_uint(host_bytes(v, 8, o), o) == v,
{
    lemma_read8(v, o);
}

proof fn lemma_read4(v: u32, o: u8)
    ensures
        read_uint(host_bytes(v as u64, 4, o), o) == v,
{
    let w = v as u64;
    let b = host_bytes(w, 4, o);
    let b0 = (w >> 0u64) as u8;
    let b1 = (w >> 8u64) as u8;
    let b2 = (w >> 16u64) as u8;
    let b3 = (w >> 24u64) as u8;
    assert(w == b0 + 256 * (b1 + 256 * (b2 + 256 * b3))) by (bit_vector)
        requires
            w == v as u64,
            b0 == (w >> 0u64) as u8,
            b1 == (w >> 8u64) as u8,
            b2 == (w >> 16u64) as u8,
            b3 == (w >> 24u64) as u8,
    ;
    if o == SIDE_TYPE_BYTE_ORDER_BE {
        assert(b =~= seq![b3, b2, b1, b0]);
        reveal_with_fuel(be_value, 5);
        assert(b.drop_last() =~= seq![b3, b2, b1]);
        assert(b.drop_last().drop_last() =~= seq![b3, b2]);
        assert(b.drop_last().drop_last().drop_last() =~= seq![b3]);
    } else {
        assert(b =~= seq![b0, b1, b2, b3]);
        reveal_with_fuel(le_value, 5);
        assert(b.drop_first() =~= seq![b1, b2, b3]);
        assert(b.drop_first().drop_first() =~= seq![b2, b3]);
        assert(b.drop_first().drop_first().drop_first() =~= seq![b3]);
    }
}

proof fn lemma_read2(v: u16, o: u8)
    ensures
        read_uint(host_bytes(v as u64, 2, o), o) == v,
{
    let w = v as u64;
    let b = host_bytes(w, 2, o);
    let b0 = (w >> 0u64) as u8;
    let b1 = (w >> 8u64) as u8;
    assert(w == b0 + 256 * b1) by (bit_vector)
        requires
            w == v as u64,
            b0 == (w >> 0u64) as u8,
            b1 == (w >> 8u64) as u8,
    ;
    if o == SIDE_TYPE_BYTE_ORDER_BE {
        assert(b =~= seq![b1, b0]);
        reveal_with_fuel(be_value, 3);
        assert(b.drop_last() =~= seq![b1]);
    } else {
        assert(b =~= seq![b0, b1]);
        reveal_with_fuel(le_value, 3);
        assert(b.drop_first() =~= seq![b1]);
    }
}

/// The same of four bytes.
pub proof fn law_read_u32(v: u32, o: u8)
    ensures
        read_uint(host_bytes(v as u64, 4, o), o) == v,
{
    lemma_read4(v, o);
}

/// The same of two bytes.
pub proof fn law_read_u16(v: u16, o: u8)
    ensures
        read_uint(host_bytes(v as u64, 2, o), o) == v,
{
    lemma_read2(v, o);
}

/// A distance a description holds takes a reader from the member holding
/// it to the byte it was written to reach, in either byte order and in
/// either direction.
pub proof fn law_read_rel(at: int, target: int, o: u8)
    requires
        0 <= at < 0x8000_0000_0000_0000,
        0 <= target < 0x8000_0000_0000_0000,
    ensures
        read_rel(rel_bytes(at, target, o), at, o) == target,
{
    let a = at as u64;
    let t = target as u64;
    assert(((t - a) as u64) as int == if t >= a {
        t - a
    } else {
        t - a + 0x1_0000_0000_0000_0000
    }) by (bit_vector);
    lemma_read8((target - at) as u64, o);
}

/* Each distinct structure is laid out once. */

/// No structure of `t` has the shape of one laid out before it.
pub open spec fn laid_out_once(t: Seq<Slot>) -> bool {
    forall|j: int, i: int|
        0 <= j < i < t.len() ==> !slot_matches(#[trigger] t[j], #[trigger] t[i].fields, t[i].size)
}

proof fn lemma_once_type(st: Lay, at: int, l: Layout, attrs: Seq<Attr>, o: u8)
    requires
        laid_out_once(st.shared),
    ensures
        laid_out_once(lay_type(st, at, l, attrs, o).shared),
    decreases l, 0nat,
{
    broadcast use crate::layout::lemma_lay_attrs;

    let u = at + O_TYPE_U;
    match l {
        Layout::GatherStruct { offset, size, access, fields } => {
            let st0 = with_bytes(st, gather_struct_head(st.bytes, at, offset, size, access, o));
            if find_shared(st0.shared, fields@, size) is None {
                let type_ = st0.pos;
                let t1 = st0.shared.push(Slot { fields: fields@, size, offset: type_ });
                let st1 = Lay {
                    bytes: st0.bytes,
                    pos: type_ + STRUCT_TYPE_SIZE,
                    shared: t1,
                    patches: st0.patches,
                };
                lemma_find_slot(st0.shared, fields@, size);
                assert forall|j: int, i: int| 0 <= j < i < t1.len() implies !slot_matches(
                    #[trigger] t1[j],
                    #[trigger] t1[i].fields,
                    t1[i].size,
                ) by {
                    assert(t1[j] == st0.shared[j]);
                    if i < st0.shared.len() {
                        assert(t1[i] == st0.shared[i]);
                    }
                }
                lemma_once_fields(st1, fields@, o);
            }
        },
        Layout::GatherArray { offset, length, elem } => {
            let array = u + O_GARRAY_TYPE;
            let b1 = write_uint(
                write_u8(
                    write_uint(
                        write_uint(st.bytes, at, SIDE_TYPE_GATHER_ARRAY as u64, 2, o),
                        u + O_GARRAY_OFFSET,
                        offset,
                        8,
                        o,
                    ),
                    u + O_GARRAY_ACCESS,
                    SIDE_TYPE_GATHER_ACCESS_DIRECT,
                ),
                array + O_ARRAY_TYPE_LENGTH,
                length as u64,
                4,
                o,
            );
            let st1 = lay_attrs(with_bytes(st, b1), array + O_ARRAY_ATTRIBUTES, false, attrs, o);
            let elem_type = st1.pos;
            let st2 = with_pos(st1, elem_type + TYPE_SIZE);
            let st3 = with_bytes(st2, write_rel(st2.bytes, array + O_ARRAY_ELEM_TYPE, elem_type, o));
            lemma_once_type(st3, elem_type, *elem, Seq::empty(), o);
        },
        Layout::GatherVla { offset, len_offset, elem } => {
            let vla = u + O_GVLA_TYPE;
            let b1 = write_u8(
                write_uint(
                    write_uint(st.bytes, at, SIDE_TYPE_GATHER_VLA as u64, 2, o),
                    u + O_GVLA_OFFSET,
                    offset,
                    8,
                    o,
                ),
                u + O_GVLA_ACCESS,
                SIDE_TYPE_GATHER_ACCESS_POINTER,
            );
            let st1 = lay_attrs(with_bytes(st, b1), vla + O_VLA_ATTRIBUTES, false, attrs, o);
            let elem_type = st1.pos;
            let length_type = elem_type + TYPE_SIZE;
            let st2 = with_pos(st1, length_type + TYPE_SIZE);
            let st3 = with_bytes(
                st2,
                write_rel(
                    write_rel(st2.bytes, vla + O_VLA_ELEM_TYPE, elem_type, o),
                    vla + O_VLA_LENGTH_TYPE,
                    length_type,
                    o,
                ),
            );
            let st4 = lay_type(st3, elem_type, *elem, Seq::empty(), o);
            lemma_once_type(st3, elem_type, *elem, Seq::empty(), o);
            let lt = Layout::GatherInteger { offset: len_offset, size: usize_size(), signed: false };
            crate::layout::lemma_lay_leaf(st4, length_type, lt, Seq::empty(), o);
        },
        Layout::ExternStruct { .. } => {},
        _ => {
            crate::layout::lemma_lay_leaf(st, at, l, attrs, o);
        },
    }
}

proof fn lemma_once_field(st: Lay, field_at: int, f: Field, o: u8)
    requires
        laid_out_once(st.shared),
    ensures
        laid_out_once(lay_field(st, field_at, f, o).shared),
    decreases f, 0nat,
{
    let name = st.pos;
    let st1 = Lay {
        bytes: crate::bytes::write_rel(
            overwrite(st.bytes, name, c_str_bytes(f.name)),
            field_at + crate::abi::O_FIELD_NAME,
            name,
            o,
        ),
        pos: name + str_size(f.name),
        shared: st.shared,
        patches: st.patches,
    };
    lemma_once_type(st1, field_at + crate::abi::O_FIELD_TYPE, f.layout, f.attributes@, o);
}

proof fn lemma_once_field_items(st: Lay, array: int, fs: Seq<Field>, o: u8)
    requires
        laid_out_once(st.shared),
    ensures
        laid_out_once(lay_field_items(st, array, fs, o).shared),
    decreases fs, 0nat,
{
    if fs.len() > 0 {
        lemma_once_field_items(st, array, fs.drop_last(), o);
        lemma_once_field(
            lay_field_items(st, array, fs.drop_last(), o),
            array + (fs.len() - 1) * FIELD_SIZE,
            fs.last(),
            o,
        );
    }
}

proof fn lemma_once_fields(st: Lay, fs: Seq<Field>, o: u8)
    requires
        laid_out_once(st.shared),
    ensures
        laid_out_once(lay_fields(st, fs, o).1.shared),
    decreases fs, 1nat,
{
    lemma_once_field_items(crate::layout::with_pos(st, st.pos + fs.len() * FIELD_SIZE), st.pos, fs, o);
}

proof fn lemma_once_events(all: Seq<EventSpec>, k: nat, n: nat, o: u8)
    ensures
        laid_out_once(lay_events(all, k, n, o).shared),
    decreases k,
{
    broadcast use crate::layout::lemma_lay_attrs;

    if k > 0 {
        let st = lay_events(all, (k - 1) as nat, n, o);
        let e = all[k - 1];
        let desc = (k - 1) * DESC_SIZE;
        lemma_once_events(all, (k - 1) as nat, n, o);
        let p = st.pos;
        let ev = p + str_size(e.provider);
        let b2 = crate::bytes::write_rel(
            overwrite(
                crate::bytes::write_rel(
                    overwrite(event_head(st.bytes, desc, e, o), p, c_str_bytes(e.provider)),
                    desc + O_DESC_PROVIDER,
                    p,
                    o,
                ),
                ev,
                c_str_bytes(e.event),
            ),
            desc + O_DESC_EVENT,
            ev,
            o,
        );
        let s1 = Lay { bytes: b2, pos: ev + str_size(e.event), shared: st.shared, patches: st.patches };
        lemma_once_fields(s1, e.fields@, o);
    }
}

/// A group lays each distinct structure out once: no structure it lays
/// out describes the same way -- the same fields, of the same shapes,
/// and the same size -- as one it laid out before, so two uses of a
/// structure, by one event or by two, reach one copy of it.
pub proof fn law_group_lays_structure_once(events: Seq<EventSpec>, n: nat, o: u8)
    ensures
        laid_out_once(group_lay(events, n, o).shared),
{
    lemma_once_events(events, events.len(), n, o);
}

/* One hole per reference to a structure described elsewhere. */

/// A shape which reaches no structure described elsewhere.
pub open spec fn no_extern(l: Layout) -> bool
    decreases l, 0nat,
{
    match l {
        Layout::ExternStruct { .. } => false,
        Layout::GatherStruct { fields, .. } => fields_no_extern(fields@),
        Layout::GatherArray { elem, .. } => no_extern(*elem),
        Layout::GatherVla { elem, .. } => no_extern(*elem),
        _ => true,
    }
}

pub open spec fn fields_no_extern(fs: Seq<Field>) -> bool
    decreases fs, 0nat,
{
    if fs.len() == 0 {
        true
    } else {
        fields_no_extern(fs.drop_last()) && no_extern(fs.last().layout)
    }
}

/// A field which is a reference to a structure described elsewhere, or
/// reaches none: what an event declared with `side_extern()` has.
pub open spec fn extern_at_top(f: Field) -> bool {
    f.layout is ExternStruct || no_extern(f.layout)
}

pub open spec fn events_extern_at_top(es: Seq<EventSpec>) -> bool {
    forall|i: int, j: int|
        0 <= i < es.len() && 0 <= j < es[i].fields@.len() ==> #[trigger] extern_at_top(
            es[i].fields@[j],
        )
}

/// Where the fields of an array at `array` leave a hole: in the type of
/// each which is a reference to a structure described elsewhere.
pub open spec fn field_holes(array: int, fs: Seq<Field>) -> Seq<int>
    decreases fs.len(),
{
    if fs.len() == 0 {
        Seq::empty()
    } else {
        let rest = field_holes(array, fs.drop_last());
        if fs.last().layout is ExternStruct {
            rest.push(array + (fs.len() - 1) * FIELD_SIZE + O_FIELD_TYPE + O_TYPE_U + O_GSTRUCT_TYPE)
        } else {
            rest
        }
    }
}

/// How many fields of a list are references to a structure described
/// elsewhere.
pub open spec fn extern_count(fs: Seq<Field>) -> nat
    decreases fs.len(),
{
    if fs.len() == 0 {
        0
    } else {
        extern_count(fs.drop_last()) + if fs.last().layout is ExternStruct {
            1nat
        } else {
            0nat
        }
    }
}

/// How many fields of a group's events are references to a structure
/// described elsewhere.
pub open spec fn group_extern_count(es: Seq<EventSpec>) -> nat
    decreases es.len(),
{
    if es.len() == 0 {
        0
    } else {
        group_extern_count(es.drop_last()) + extern_count(es.last().fields@)
    }
}

proof fn lemma_no_extern_type(st: Lay, at: int, l: Layout, attrs: Seq<Attr>, o: u8)
    requires
        no_extern(l),
    ensures
        lay_type(st, at, l, attrs, o).patches == st.patches,
    decreases l, 0nat,
{
    broadcast use crate::layout::lemma_lay_attrs;

    let u = at + O_TYPE_U;
    match l {
        Layout::GatherStruct { offset, size, access, fields } => {
            let st0 = with_bytes(st, gather_struct_head(st.bytes, at, offset, size, access, o));
            if find_shared(st0.shared, fields@, size) is None {
                let type_ = st0.pos;
                let st1 = Lay {
                    bytes: st0.bytes,
                    pos: type_ + STRUCT_TYPE_SIZE,
                    shared: st0.shared.push(Slot { fields: fields@, size, offset: type_ }),
                    patches: st0.patches,
                };
                lemma_no_extern_fields(st1, fields@, o);
            }
        },
        Layout::GatherArray { offset, length, elem } => {
            let array = u + O_GARRAY_TYPE;
            let b1 = write_uint(
                write_u8(
                    write_uint(
                        write_uint(st.bytes, at, SIDE_TYPE_GATHER_ARRAY as u64, 2, o),
                        u + O_GARRAY_OFFSET,
                        offset,
                        8,
                        o,
                    ),
                    u + O_GARRAY_ACCESS,
                    SIDE_TYPE_GATHER_ACCESS_DIRECT,
                ),
                array + O_ARRAY_TYPE_LENGTH,
                length as u64,
                4,
                o,
            );
            let st1 = lay_attrs(with_bytes(st, b1), array + O_ARRAY_ATTRIBUTES, false, attrs, o);
            let elem_type = st1.pos;
            let st2 = with_pos(st1, elem_type + TYPE_SIZE);
            let st3 = with_bytes(st2, write_rel(st2.bytes, array + O_ARRAY_ELEM_TYPE, elem_type, o));
            lemma_no_extern_type(st3, elem_type, *elem, Seq::empty(), o);
        },
        Layout::GatherVla { offset, len_offset, elem } => {
            let vla = u + O_GVLA_TYPE;
            let b1 = write_u8(
                write_uint(
                    write_uint(st.bytes, at, SIDE_TYPE_GATHER_VLA as u64, 2, o),
                    u + O_GVLA_OFFSET,
                    offset,
                    8,
                    o,
                ),
                u + O_GVLA_ACCESS,
                SIDE_TYPE_GATHER_ACCESS_POINTER,
            );
            let st1 = lay_attrs(with_bytes(st, b1), vla + O_VLA_ATTRIBUTES, false, attrs, o);
            let elem_type = st1.pos;
            let length_type = elem_type + TYPE_SIZE;
            let st2 = with_pos(st1, length_type + TYPE_SIZE);
            let st3 = with_bytes(
                st2,
                write_rel(
                    write_rel(st2.bytes, vla + O_VLA_ELEM_TYPE, elem_type, o),
                    vla + O_VLA_LENGTH_TYPE,
                    length_type,
                    o,
                ),
            );
            let st4 = lay_type(st3, elem_type, *elem, Seq::empty(), o);
            lemma_no_extern_type(st3, elem_type, *elem, Seq::empty(), o);
            let lt = Layout::GatherInteger { offset: len_offset, size: usize_size(), signed: false };
            crate::layout::lemma_lay_leaf(st4, length_type, lt, Seq::empty(), o);
        },
        _ => {
            crate::layout::lemma_lay_leaf(st, at, l, attrs, o);
        },
    }
}

proof fn lemma_no_extern_field_items(st: Lay, array: int, fs: Seq<Field>, o: u8)
    requires
        fields_no_extern(fs),
    ensures
        lay_field_items(st, array, fs, o).patches == st.patches,
    decreases fs, 0nat,
{
    if fs.len() > 0 {
        let mid = lay_field_items(st, array, fs.drop_last(), o);
        let f = fs.last();
        lemma_no_extern_field_items(st, array, fs.drop_last(), o);
        let field_at = array + (fs.len() - 1) * FIELD_SIZE;
        let name = mid.pos;
        let st1 = Lay {
            bytes: write_rel(
                overwrite(mid.bytes, name, c_str_bytes(f.name)),
                field_at + crate::abi::O_FIELD_NAME,
                name,
                o,
            ),
            pos: name + str_size(f.name),
            shared: mid.shared,
            patches: mid.patches,
        };
        lemma_no_extern_type(st1, field_at + O_FIELD_TYPE, f.layout, f.attributes@, o);
        assert(lay_field_items(st, array, fs, o) == lay_field(mid, field_at, f, o));
        assert(lay_field(mid, field_at, f, o) == lay_type(st1, field_at + O_FIELD_TYPE, f.layout, f.attributes@, o));
    }
}

proof fn lemma_no_extern_fields(st: Lay, fs: Seq<Field>, o: u8)
    requires
        fields_no_extern(fs),
    ensures
        lay_fields(st, fs, o).1.patches == st.patches,
    decreases fs, 1nat,
{
    lemma_no_extern_field_items(with_pos(st, st.pos + fs.len() * FIELD_SIZE), st.pos, fs, o);
}

pub(crate) proof fn lemma_field_holes(array: int, fs: Seq<Field>)
    ensures
        field_holes(array, fs).len() == extern_count(fs),
        holes_ordered(field_holes(array, fs)),
        forall|k: int|
            0 <= k < field_holes(array, fs).len() ==> array + O_FIELD_TYPE <= #[trigger] field_holes(
                array,
                fs,
            )[k] && field_holes(array, fs)[k] + PATCH_WIDTH + 1 <= array + fs.len() * FIELD_SIZE,
    decreases fs.len(),
{
    if fs.len() > 0 {
        lemma_field_holes(array, fs.drop_last());
    }
}

proof fn lemma_top_field_items(st: Lay, array: int, fs: Seq<Field>, o: u8)
    requires
        forall|j: int| 0 <= j < fs.len() ==> #[trigger] extern_at_top(fs[j]),
    ensures
        lay_field_items(st, array, fs, o).patches == st.patches + field_holes(array, fs),
    decreases fs.len(),
{
    if fs.len() == 0 {
        assert(st.patches + field_holes(array, fs) =~= st.patches);
    } else {
        let mid = lay_field_items(st, array, fs.drop_last(), o);
        let f = fs.last();
        assert(extern_at_top(fs[fs.len() - 1]));
        lemma_top_field_items(st, array, fs.drop_last(), o);
        let field_at = array + (fs.len() - 1) * FIELD_SIZE;
        let name = mid.pos;
        let st1 = Lay {
            bytes: write_rel(
                overwrite(mid.bytes, name, c_str_bytes(f.name)),
                field_at + crate::abi::O_FIELD_NAME,
                name,
                o,
            ),
            pos: name + str_size(f.name),
            shared: mid.shared,
            patches: mid.patches,
        };
        assert(lay_field_items(st, array, fs, o) == lay_field(mid, field_at, f, o));
        assert(lay_field(mid, field_at, f, o) == lay_type(st1, field_at + O_FIELD_TYPE, f.layout, f.attributes@, o));
        if f.layout is ExternStruct {
            assert(st.patches + field_holes(array, fs) =~= (st.patches + field_holes(array, fs.drop_last())).push(
                field_at + O_FIELD_TYPE + O_TYPE_U + O_GSTRUCT_TYPE,
            ));
        } else {
            lemma_no_extern_type(st1, field_at + O_FIELD_TYPE, f.layout, f.attributes@, o);
        }
    }
}

/// The holes of a layout are in order, and all before the next free
/// byte.
pub open spec fn holes_behind(st: Lay) -> bool {
    &&& holes_ordered(st.patches)
    &&& forall|k: int| 0 <= k < st.patches.len() ==> #[trigger] st.patches[k] + PATCH_WIDTH <= st.pos
}

/// Where one event whose references to structures described elsewhere
/// are all its fields leaves its holes: in the types of those fields.
pub(crate) proof fn lemma_event_holes(st: Lay, desc: int, e: EventSpec, o: u8)
    requires
        forall|j: int| 0 <= j < e.fields@.len() ==> #[trigger] extern_at_top(e.fields@[j]),
    ensures
        ({
            let array = st.pos + str_size(e.provider) + str_size(e.event);
            &&& lay_event(st, desc, e, o).patches == st.patches + field_holes(array, e.fields@)
            &&& lay_event(st, desc, e, o).pos >= array + e.fields@.len() * FIELD_SIZE
        }),
{
    broadcast use crate::layout::lemma_lay_attrs;

    let p = st.pos;
    let ev = p + str_size(e.provider);
    let b2 = write_rel(
        overwrite(
            write_rel(
                overwrite(event_head(st.bytes, desc, e, o), p, c_str_bytes(e.provider)),
                desc + O_DESC_PROVIDER,
                p,
                o,
            ),
            ev,
            c_str_bytes(e.event),
        ),
        desc + O_DESC_EVENT,
        ev,
        o,
    );
    let s1 = Lay { bytes: b2, pos: ev + str_size(e.event), shared: st.shared, patches: st.patches };
    let fs = e.fields@;
    let array = s1.pos;
    lemma_top_field_items(with_pos(s1, array + fs.len() * FIELD_SIZE), array, fs, o);
    lemma_lay_fields(s1, fs, o);
}

pub(crate) proof fn lemma_holes_events(all: Seq<EventSpec>, k: nat, n: nat, o: u8)
    requires
        events_extern_at_top(all),
        k <= all.len(),
    ensures
        lay_events(all, k, n, o).patches.len() == group_extern_count(all.take(k as int)),
        holes_behind(lay_events(all, k, n, o)),
    decreases k,
{
    if k == 0 {
        assert(all.take(0) =~= Seq::<EventSpec>::empty());
    } else {
        let st = lay_events(all, (k - 1) as nat, n, o);
        let e = all[k - 1];
        let desc = (k - 1) * DESC_SIZE;
        lemma_holes_events(all, (k - 1) as nat, n, o);
        assert(all.take(k as int).drop_last() =~= all.take(k - 1));
        let fs = e.fields@;
        let array = st.pos + str_size(e.provider) + str_size(e.event);
        assert forall|j: int| 0 <= j < fs.len() implies #[trigger] extern_at_top(fs[j]) by {
            assert(extern_at_top(all[k - 1].fields@[j]));
        }
        lemma_event_holes(st, desc, e, o);
        lemma_field_holes(array, fs);
        assert forall|j: int| 0 <= j < field_holes(array, fs).len() implies array <= #[trigger] field_holes(array, fs)[j] by {}
        let out = lay_events(all, k, n, o);
        assert(out == lay_event(st, desc, e, o));
        lemma_append_holes(st.patches, field_holes(array, fs), st.pos, array, out.pos);
    }
}

/// Holes in order and behind `pos`, followed by holes in order from
/// `array` on and behind `next`, are in order and behind `next`.
proof fn lemma_append_holes(old: Seq<int>, holes: Seq<int>, pos: int, array: int, next: int)
    requires
        holes_ordered(old),
        forall|k: int| 0 <= k < old.len() ==> #[trigger] old[k] + PATCH_WIDTH <= pos,
        pos <= array,
        pos <= next,
        holes_ordered(holes),
        forall|k: int|
            0 <= k < holes.len() ==> array <= #[trigger] holes[k] && holes[k] + PATCH_WIDTH <= next,
    ensures
        holes_ordered(old + holes),
        forall|k: int| 0 <= k < (old + holes).len() ==> #[trigger] (old + holes)[k] + PATCH_WIDTH <= next,
{
    let all = old + holes;
    assert forall|i: int| 1 <= i < all.len() implies #[trigger] all[i - 1] + PATCH_WIDTH <= all[i] by {
        if i < old.len() {
            assert(all[i] == old[i]);
            assert(all[i - 1] == old[i - 1]);
            assert(old[i - 1] + PATCH_WIDTH <= old[i]);
        } else if i == old.len() {
            assert(all[i] == holes[0]);
            assert(all[i - 1] == old[i - 1]);
            assert(old[i - 1] + PATCH_WIDTH <= pos);
        } else {
            let j = i - old.len();
            assert(all[i] == holes[j]);
            assert(all[i - 1] == holes[j - 1]);
            assert(holes[j - 1] + PATCH_WIDTH <= holes[j]);
        }
    }
    assert forall|k: int| 0 <= k < all.len() implies #[trigger] all[k] + PATCH_WIDTH <= next by {
        if k >= old.len() {
            assert(all[k] == holes[k - old.len()]);
        }
    }
}

/// A group whose references to structures described elsewhere are all
/// fields of its events, as `side_extern()` writes them, leaves one hole
/// for each of those fields, in the order they were written: so the
/// count a group is built with is its number of such fields, and the
/// holes come out in order and never overlap, as `build_group` asks,
/// and each ends within what the group lays out.
pub proof fn law_group_holes(events: Seq<EventSpec>, n: nat, o: u8)
    requires
        events_extern_at_top(events),
    ensures
        group_lay(events, n, o).patches.len() == group_extern_count(events),
        holes_ordered(group_lay(events, n, o).patches),
        forall|k: int|
            0 <= k < group_lay(events, n, o).patches.len() ==> #[trigger] group_lay(
                events,
                n,
                o,
            ).patches[k] + PATCH_WIDTH <= group_lay(events, n, o).pos,
{
    lemma_holes_events(events, events.len(), n, o);
    assert(events.take(events.len() as int) =~= events);
}

/* Describing the same way is an equivalence. */

proof fn lemma_same_layout(a: Layout, b: Layout, c: Layout)
    ensures
        layout_same(a, a),
        layout_same(a, b) ==> layout_same(b, a),
        layout_same(a, b) && layout_same(b, c) ==> layout_same(a, c),
    decreases a,
{
    match a {
        Layout::GatherStruct { fields, .. } => {
            match (b, c) {
                (
                    Layout::GatherStruct { fields: bf, .. },
                    Layout::GatherStruct { fields: cf, .. },
                ) => {
                    lemma_same_fields(fields@, bf@, cf@);
                },
                (Layout::GatherStruct { fields: bf, .. }, _) => {
                    lemma_same_fields(fields@, bf@, bf@);
                },
                _ => {
                    lemma_same_fields(fields@, fields@, fields@);
                },
            }
        },
        Layout::GatherArray { elem, .. } => {
            match (b, c) {
                (Layout::GatherArray { elem: be, .. }, Layout::GatherArray { elem: ce, .. }) => {
                    lemma_same_layout(*elem, *be, *ce);
                },
                (Layout::GatherArray { elem: be, .. }, _) => {
                    lemma_same_layout(*elem, *be, *be);
                },
                _ => {
                    lemma_same_layout(*elem, *elem, *elem);
                },
            }
        },
        Layout::GatherVla { elem, .. } => {
            match (b, c) {
                (Layout::GatherVla { elem: be, .. }, Layout::GatherVla { elem: ce, .. }) => {
                    lemma_same_layout(*elem, *be, *ce);
                },
                (Layout::GatherVla { elem: be, .. }, _) => {
                    lemma_same_layout(*elem, *be, *be);
                },
                _ => {
                    lemma_same_layout(*elem, *elem, *elem);
                },
            }
        },
        _ => {},
    }
}

proof fn lemma_same_field(a: Field, b: Field, c: Field)
    ensures
        field_same(a, a),
        field_same(a, b) ==> field_same(b, a),
        field_same(a, b) && field_same(b, c) ==> field_same(a, c),
    decreases a,
{
    lemma_same_layout(a.layout, b.layout, c.layout);
    lemma_same_attrs(a.attributes@, b.attributes@, c.attributes@);
}

proof fn lemma_same_attrs(a: Seq<Attr>, b: Seq<Attr>, c: Seq<Attr>)
    ensures
        attrs_same(a, a),
        attrs_same(a, b) ==> attrs_same(b, a),
        attrs_same(a, b) && attrs_same(b, c) ==> attrs_same(a, c),
{
    assert forall|i: int| 0 <= i < a.len() implies #[trigger] attr_same(a[i], a[i]) by {
        lemma_same_attr_value(a[i].value, a[i].value, a[i].value);
    }
    if attrs_same(a, b) {
        assert forall|i: int| 0 <= i < b.len() implies #[trigger] attr_same(b[i], a[i]) by {
            assert(attr_same(a[i], b[i]));
            lemma_same_attr_value(a[i].value, b[i].value, b[i].value);
        }
        if attrs_same(b, c) {
            assert forall|i: int| 0 <= i < a.len() implies #[trigger] attr_same(a[i], c[i]) by {
                assert(attr_same(a[i], b[i]));
                assert(attr_same(b[i], c[i]));
                lemma_same_attr_value(a[i].value, b[i].value, c[i].value);
            }
        }
    }
}

proof fn lemma_same_attr_value(a: AttrValue, b: AttrValue, c: AttrValue)
    ensures
        attr_value_same(a, a),
        attr_value_same(a, b) ==> attr_value_same(b, a),
        attr_value_same(a, b) && attr_value_same(b, c) ==> attr_value_same(a, c),
{
}

proof fn lemma_same_fields(a: Seq<Field>, b: Seq<Field>, c: Seq<Field>)
    ensures
        fields_same(a, a),
        fields_same(a, b) ==> fields_same(b, a),
        fields_same(a, b) && fields_same(b, c) ==> fields_same(a, c),
    decreases a,
{
    if a.len() > 0 {
        if b.len() == a.len() && c.len() == a.len() {
            lemma_same_fields(a.drop_last(), b.drop_last(), c.drop_last());
            lemma_same_field(a.last(), b.last(), c.last());
        } else if b.len() == a.len() {
            lemma_same_fields(a.drop_last(), b.drop_last(), b.drop_last());
            lemma_same_field(a.last(), b.last(), b.last());
        } else {
            lemma_same_fields(a.drop_last(), a.drop_last(), a.drop_last());
            lemma_same_field(a.last(), a.last(), a.last());
        }
    }
}

/// Describing the same way, which is what a group compares two
/// structures by to lay them out once, is an equivalence: every shape
/// describes the same way as itself, in either order, and through a
/// third.
pub proof fn law_same_shape_is_an_equivalence(a: Layout, b: Layout, c: Layout)
    ensures
        layout_same(a, a),
        layout_same(a, b) ==> layout_same(b, a),
        layout_same(a, b) && layout_same(b, c) ==> layout_same(a, c),
{
    lemma_same_layout(a, b, c);
}

/// The same of field lists, which is what the structures a group lays
/// out are keyed by.
pub proof fn law_same_fields_is_an_equivalence(a: Seq<Field>, b: Seq<Field>, c: Seq<Field>)
    ensures
        fields_same(a, a),
        fields_same(a, b) ==> fields_same(b, a),
        fields_same(a, b) && fields_same(b, c) ==> fields_same(a, c),
{
    lemma_same_fields(a, b, c);
}

/// The object `build_type` lays out for a structure described on its
/// own begins with the `struct side_type_struct` an address reaches:
/// its field array is the distance from there to right after it, and it
/// says how many fields it has.
pub proof fn law_type_begins_with_its_struct(fields: Seq<Field>, size: u32, o: u8)
    requires
        fields_wf(fields),
    ensures
        holds_at(
            type_bytes(fields, size, type_size_spec(fields, size) as nat, o),
            O_STRUCT_FIELDS as int,
            rel_bytes(O_STRUCT_FIELDS as int, STRUCT_TYPE_SIZE as int, o),
        ),
        holds_at(
            type_bytes(fields, size, type_size_spec(fields, size) as nat, o),
            O_STRUCT_FIELDS + O_ARRAY_LENGTH,
            host_bytes(fields.len() as u32 as u64, 4, o),
        ),
{
    let n = type_size_spec(fields, size) as nat;
    let start = Lay {
        bytes: Seq::new(n, |i: int| 0u8),
        pos: STRUCT_TYPE_SIZE as int,
        shared: seq![Slot { fields, size, offset: 0 }],
        patches: Seq::empty(),
    };
    let r = lay_fields(start, fields, o);
    lemma_lay_fields(start, fields, o);
    crate::agree::lemma_type_measure(fields, size, n, o);
    let rr = rel_bytes(O_STRUCT_FIELDS as int, r.0, o);
    let vl = host_bytes(fields.len() as u32 as u64, 4, o);
    let b1 = overwrite(r.1.bytes, O_STRUCT_FIELDS as int, rr);
    lemma_overwrite_holds(r.1.bytes, O_STRUCT_FIELDS as int, rr);
    lemma_overwrite_keeps(b1, O_STRUCT_FIELDS + O_ARRAY_LENGTH, vl, O_STRUCT_FIELDS as int, rr);
    lemma_overwrite_holds(b1, O_STRUCT_FIELDS + O_ARRAY_LENGTH, vl);
}

/// Two shapes describe the same way only where they are the same shape
/// but for the field lists of their structures and the elements of their
/// arrays and vectors, which describe the same way in turn: every scalar
/// shape -- an integer with its width and signedness, a boolean, a
/// pointer, a string, a structure described elsewhere -- is equal, and
/// so is every offset, size, access and length. So a structure shared
/// between two uses reads each member as both would.
pub proof fn law_same_shape_same_scalars(a: Layout, b: Layout)
    requires
        layout_same(a, b),
    ensures
        match a {
            Layout::GatherStruct { offset, size, access, fields } => b matches Layout::GatherStruct {
                offset: bo,
                size: bs,
                access: ba,
                fields: bf,
            } && bo == offset && bs == size && ba == access && fields_same(fields@, bf@),
            Layout::GatherArray { offset, length, elem } => b matches Layout::GatherArray {
                offset: bo,
                length: bl,
                elem: be,
            } && bo == offset && bl == length && layout_same(*elem, *be),
            Layout::GatherVla { offset, len_offset, elem } => b matches Layout::GatherVla {
                offset: bo,
                len_offset: bl,
                elem: be,
            } && bo == offset && bl == len_offset && layout_same(*elem, *be),
            _ => a == b,
        },
{
}

} // verus!
