//! Where the holes of a description fall, wherever the references which
//! leave them stand, and how the runs between them tile the bytes.
use vstd::prelude::*;

use crate::abi::{DESC_SIZE, FIELD_SIZE, O_FIELD_TYPE, O_TYPE_U, PATCH_WIDTH, STRUCT_TYPE_SIZE, TYPE_SIZE};
use crate::agree::{lemma_group_geometry, lemma_group_measure};
use crate::frame::only_within;
use crate::layout::{
    events_wf, extends, group_holes, group_lay, holes_ordered, lay_event, lay_events, lay_field,
    lay_field_items, lay_fields, lay_type, lemma_extends_trans, lemma_lay_event, lemma_lay_field,
    lemma_lay_field_items, lemma_lay_fields, lemma_lay_type, with_pos, Lay,
};
use crate::measure::group_size_spec;
use crate::model::{Attr, EventSpec, Field, Layout};

verus! {

broadcast use vstd::seq::group_seq_axioms;

/// Every hole left so far lies after the label of the type it belongs
/// to, and ends, its selector byte included, before the next free byte.
pub open spec fn holes_within(st: Lay) -> bool {
    forall|k: int|
        0 <= k < st.patches.len() ==> O_TYPE_U <= #[trigger] st.patches[k] && st.patches[k]
            + PATCH_WIDTH + 1 <= st.pos
}

proof fn lemma_holes_within_extends(st: Lay, out: Lay)
    requires
        holes_within(st),
        extends(st, out),
    ensures
        forall|k: int|
            0 <= k < st.patches.len() ==> O_TYPE_U <= #[trigger] out.patches[k] && out.patches[k]
                + PATCH_WIDTH + 1 <= out.pos,
{
    assert forall|k: int| 0 <= k < st.patches.len() implies O_TYPE_U <= #[trigger] out.patches[k]
        && out.patches[k] + PATCH_WIDTH + 1 <= out.pos by {
        assert(out.patches[k] == out.patches.subrange(0, st.patches.len() as int)[k]);
        assert(st.patches[k] + PATCH_WIDTH + 1 <= st.pos);
    }
}

/// A type laid out in a slot before the next free byte leaves its holes
/// within what is laid out.
pub proof fn lemma_type_holes_within(st: Lay, at: int, l: Layout, attrs: Seq<Attr>, o: u8)
    requires
        holes_within(st),
        0 <= at,
        at + TYPE_SIZE <= st.pos,
    ensures
        holes_within(lay_type(st, at, l, attrs, o)),
    decreases l, 0nat,
{
    let out = lay_type(st, at, l, attrs, o);
    lemma_lay_type(st, at, l, attrs, o);
    lemma_holes_within_extends(st, out);
    match l {
        Layout::GatherStruct { offset, size, access, fields } => {
            let s0 = crate::layout::with_bytes(
                st,
                crate::layout::gather_struct_head(st.bytes, at, offset, size, access, o),
            );
            if crate::shared::find_shared(s0.shared, fields@, size) is None {
                let type_ = s0.pos;
                let s1 = Lay {
                    bytes: s0.bytes,
                    pos: type_ + STRUCT_TYPE_SIZE,
                    shared: s0.shared.push(crate::shared::Slot { fields: fields@, size, offset: type_ }),
                    patches: s0.patches,
                };
                assert(holes_within(s1));
                lemma_fields_holes_within(s1, fields@, o);
                let r = lay_fields(s1, fields@, o);
                assert(out.patches == r.1.patches && out.pos == r.1.pos);
                assert(holes_within(r.1));
            } else {
                assert(out.patches == st.patches && out.pos == st.pos);
            }
            assert(holes_within(out));
        },
        Layout::GatherArray { offset, length, elem } => {
            let u = at + O_TYPE_U;
            let array = u + crate::abi::O_GARRAY_TYPE;
            let b1 = crate::bytes::write_uint(
                crate::bytes::write_u8(
                    crate::bytes::write_uint(
                        crate::bytes::write_uint(st.bytes, at, crate::abi::SIDE_TYPE_GATHER_ARRAY as u64, 2, o),
                        u + crate::abi::O_GARRAY_OFFSET,
                        offset,
                        8,
                        o,
                    ),
                    u + crate::abi::O_GARRAY_ACCESS,
                    crate::abi::SIDE_TYPE_GATHER_ACCESS_DIRECT,
                ),
                array + crate::abi::O_ARRAY_TYPE_LENGTH,
                length as u64,
                4,
                o,
            );
            let st1 = crate::layout::lay_attrs(
                crate::layout::with_bytes(st, b1),
                array + crate::abi::O_ARRAY_ATTRIBUTES,
                false,
                attrs,
                o,
            );
            crate::layout::lemma_lay_attrs(crate::layout::with_bytes(st, b1), array + crate::abi::O_ARRAY_ATTRIBUTES, false, attrs, o);
            let e = st1.pos;
            let st2 = with_pos(st1, e + TYPE_SIZE);
            let st3 = crate::layout::with_bytes(st2, crate::bytes::write_rel(st2.bytes, array + crate::abi::O_ARRAY_ELEM_TYPE, e, o));
            crate::measure::lemma_attrs_size_prefix(attrs, 0);
            lemma_type_holes_within(st3, e, *elem, Seq::empty(), o);
            assert(holes_within(out));
        },
        Layout::GatherVla { offset, len_offset, elem } => {
            let u = at + O_TYPE_U;
            let vla = u + crate::abi::O_GVLA_TYPE;
            let b1 = crate::bytes::write_u8(
                crate::bytes::write_uint(
                    crate::bytes::write_uint(st.bytes, at, crate::abi::SIDE_TYPE_GATHER_VLA as u64, 2, o),
                    u + crate::abi::O_GVLA_OFFSET,
                    offset,
                    8,
                    o,
                ),
                u + crate::abi::O_GVLA_ACCESS,
                crate::abi::SIDE_TYPE_GATHER_ACCESS_POINTER,
            );
            let st1 = crate::layout::lay_attrs(
                crate::layout::with_bytes(st, b1),
                vla + crate::abi::O_VLA_ATTRIBUTES,
                false,
                attrs,
                o,
            );
            crate::layout::lemma_lay_attrs(crate::layout::with_bytes(st, b1), vla + crate::abi::O_VLA_ATTRIBUTES, false, attrs, o);
            crate::measure::lemma_attrs_size_prefix(attrs, 0);
            let e = st1.pos;
            let lt = e + TYPE_SIZE;
            let st2 = with_pos(st1, lt + TYPE_SIZE);
            let st3 = crate::layout::with_bytes(
                st2,
                crate::bytes::write_rel(
                    crate::bytes::write_rel(st2.bytes, vla + crate::abi::O_VLA_ELEM_TYPE, e, o),
                    vla + crate::abi::O_VLA_LENGTH_TYPE,
                    lt,
                    o,
                ),
            );
            lemma_type_holes_within(st3, e, *elem, Seq::empty(), o);
            let st4 = lay_type(st3, e, *elem, Seq::empty(), o);
            lemma_lay_type(st3, e, *elem, Seq::empty(), o);
            let li = Layout::GatherInteger { offset: len_offset, size: crate::layout::usize_size(), signed: false };
            crate::layout::lemma_lay_leaf(st4, lt, li, Seq::empty(), o);
            assert(holes_within(out));
        },
        Layout::ExternStruct { .. } => {
            let h = at + O_TYPE_U + crate::abi::O_GSTRUCT_TYPE;
            assert(out.patches == st.patches.push(h));
            assert(out.pos == st.pos);
            assert forall|k: int| 0 <= k < out.patches.len() implies O_TYPE_U <= #[trigger] out.patches[k]
                && out.patches[k] + PATCH_WIDTH + 1 <= out.pos by {
                if k < st.patches.len() {
                    assert(out.patches[k] == st.patches[k]);
                }
            }
            assert(holes_within(out));
        },
        _ => {
            crate::layout::lemma_lay_leaf(st, at, l, attrs, o);
            crate::measure::lemma_attrs_size_prefix(attrs, 0);
            assert(holes_within(out));
        },
    }
}

pub proof fn lemma_field_holes_within(st: Lay, field_at: int, f: Field, o: u8)
    requires
        holes_within(st),
        0 <= field_at,
        field_at + FIELD_SIZE <= st.pos,
    ensures
        holes_within(lay_field(st, field_at, f, o)),
    decreases f, 0nat,
{
    let name = st.pos;
    let b1 = crate::bytes::overwrite(st.bytes, name, crate::bytes::c_str_bytes(f.name));
    let b2 = crate::bytes::write_rel(b1, field_at + crate::abi::O_FIELD_NAME, name, o);
    let st1 = Lay {
        bytes: b2,
        pos: name + crate::measure::str_size(f.name),
        shared: st.shared,
        patches: st.patches,
    };
    assert(lay_field(st, field_at, f, o) == lay_type(st1, field_at + O_FIELD_TYPE, f.layout, f.attributes@, o));
    lemma_type_holes_within(st1, field_at + O_FIELD_TYPE, f.layout, f.attributes@, o);
}

pub proof fn lemma_field_items_holes_within(st: Lay, array: int, fs: Seq<Field>, o: u8)
    requires
        holes_within(st),
        0 <= array,
        array + fs.len() * FIELD_SIZE <= st.pos,
    ensures
        holes_within(lay_field_items(st, array, fs, o)),
    decreases fs, 0nat,
{
    if fs.len() > 0 {
        let n = fs.len();
        lemma_field_items_holes_within(st, array, fs.drop_last(), o);
        let mid = lay_field_items(st, array, fs.drop_last(), o);
        lemma_lay_field_items(st, array, fs.drop_last(), o);
        assert(array + (n - 1) * FIELD_SIZE + FIELD_SIZE == array + n * FIELD_SIZE) by (nonlinear_arith);
        lemma_field_holes_within(mid, array + (n - 1) * FIELD_SIZE, fs.last(), o);
    }
}

pub proof fn lemma_fields_holes_within(st: Lay, fs: Seq<Field>, o: u8)
    requires
        holes_within(st),
        0 <= st.pos,
    ensures
        holes_within(lay_fields(st, fs, o).1),
    decreases fs, 1nat,
{
    let st1 = with_pos(st, st.pos + fs.len() * FIELD_SIZE);
    assert(fs.len() * FIELD_SIZE >= 0) by (nonlinear_arith);
    lemma_field_items_holes_within(st1, st.pos, fs, o);
}

pub proof fn lemma_events_holes_within(all: Seq<EventSpec>, k: nat, n: nat, o: u8)
    requires
        k <= all.len(),
    ensures
        holes_within(lay_events(all, k, n, o)),
    decreases k,
{
    if k > 0 {
        lemma_events_holes_within(all, (k - 1) as nat, n, o);
        let st = lay_events(all, (k - 1) as nat, n, o);
        let desc = (k - 1) * DESC_SIZE;
        let e = all[k - 1];
        crate::layout::lemma_lay_events_prefix(all, 0, (k - 1) as nat, n, o);
        assert(all.len() * DESC_SIZE >= 0) by (nonlinear_arith);
        let b0 = crate::layout::event_head(st.bytes, desc, e, o);
        let provider = st.pos;
        let b1 = crate::bytes::write_rel(crate::bytes::overwrite(b0, provider, crate::bytes::c_str_bytes(e.provider)), desc + crate::abi::O_DESC_PROVIDER, provider, o);
        let ev = provider + crate::measure::str_size(e.provider);
        let b2 = crate::bytes::write_rel(crate::bytes::overwrite(b1, ev, crate::bytes::c_str_bytes(e.event)), desc + crate::abi::O_DESC_EVENT, ev, o);
        let st1 = Lay { bytes: b2, pos: ev + crate::measure::str_size(e.event), shared: st.shared, patches: st.patches };
        lemma_fields_holes_within(st1, e.fields@, o);
        let r = lay_fields(st1, e.fields@, o);
        lemma_lay_fields(st1, e.fields@, o);
        let b3 = crate::bytes::write_uint(
            crate::bytes::write_rel(r.1.bytes, desc + crate::abi::O_DESC_FIELDS, r.0, o),
            desc + crate::abi::O_DESC_FIELDS + crate::abi::O_ARRAY_LENGTH,
            e.fields@.len() as u32 as u64,
            4,
            o,
        );
        crate::layout::lemma_lay_attrs(crate::layout::with_bytes(r.1, b3), desc + crate::abi::O_DESC_ATTRIBUTES, false, e.attributes@, o);
    }
}

/// Where run `i` of a description between its holes `ps` begins: at
/// the start, or right after the hole before it.
pub open spec fn run_from(ps: Seq<int>, i: int) -> int {
    if i == 0 {
        0
    } else {
        ps[i - 1] + PATCH_WIDTH
    }
}

/// Where run `i` ends: at the hole after it, or at the end of the `n`
/// bytes.
pub open spec fn run_to(ps: Seq<int>, i: int, n: int) -> int {
    if i == ps.len() {
        n
    } else {
        ps[i]
    }
}

/// Every hole a group leaves, wherever the reference which leaves it
/// stands -- a field of an event, or a member of a structure, an array
/// or a vector -- lies after the label of its type and ends, with its
/// selector byte, within the bytes the group is measured to take. Where
/// the holes come in order, as `build_group` asks, the runs
/// `description_run` takes between them and the holes tile the bytes
/// from 0 to the end in order: each run begins where the hole before it
/// ends, ends where the next hole begins, and none runs backwards.
pub proof fn law_runs_tile(events: Seq<EventSpec>)
    requires
        events_wf(events),
        holes_ordered(group_holes(events)),
    ensures
        ({
            let ps = group_holes(events);
            let n = group_size_spec(events);
            &&& forall|k: int|
                0 <= k < ps.len() ==> O_TYPE_U <= #[trigger] ps[k] && ps[k] + PATCH_WIDTH + 1 <= n
            &&& forall|i: int|
                0 <= i <= ps.len() ==> 0 <= #[trigger] run_from(ps, i) <= run_to(ps, i, n) <= n
            &&& forall|i: int|
                0 <= i < ps.len() ==> #[trigger] run_to(ps, i, n) + PATCH_WIDTH == run_from(ps, i + 1)
        }),
{
    let ps = group_holes(events);
    let n = group_size_spec(events);
    lemma_events_holes_within(events, events.len(), 0, crate::abi::SIDE_TYPE_BYTE_ORDER_LE);
    lemma_group_measure(events, 0, crate::abi::SIDE_TYPE_BYTE_ORDER_LE);
    let g = group_lay(events, 0, crate::abi::SIDE_TYPE_BYTE_ORDER_LE);
    assert(g == lay_events(events, events.len(), 0, crate::abi::SIDE_TYPE_BYTE_ORDER_LE));
    assert(holes_within(g));
    assert(g.pos == n);
    crate::layout::lemma_lay_events_prefix(events, 0, events.len(), 0, crate::abi::SIDE_TYPE_BYTE_ORDER_LE);
    assert(events.len() * DESC_SIZE >= 0) by (nonlinear_arith);
    assert(n >= 0);
    if ps.len() > 0 {
        assert(O_TYPE_U <= g.patches[0]);
    }
    assert(g.patches == ps);
    assert forall|k: int| 0 <= k < ps.len() implies O_TYPE_U <= #[trigger] ps[k] && ps[k]
        + PATCH_WIDTH + 1 <= n by {
        assert(O_TYPE_U <= g.patches[k] && g.patches[k] + PATCH_WIDTH + 1 <= g.pos);
    }
    assert forall|i: int| 0 <= i <= ps.len() implies 0 <= #[trigger] run_from(ps, i) <= run_to(
        ps,
        i,
        n,
    ) <= n by {
        if i > 0 && i < ps.len() {
            assert(ps[i - 1] + PATCH_WIDTH <= ps[i]);
        }
        if i > 0 {
            assert(ps[i - 1] + PATCH_WIDTH + 1 <= n);
        }
        if i < ps.len() {
            assert(ps[i] + PATCH_WIDTH + 1 <= n);
        }
    }
}

/* What a hole holds, wherever it is left. */

/// The label of the type a hole belongs to.
pub open spec fn struct_label(o: u8) -> Seq<u8> {
    crate::bytes::host_bytes(crate::abi::SIDE_TYPE_GATHER_STRUCT as u64, 2, o)
}

/// The hole at `h` is whole: the label of a gathered structure right
/// before it, and nothing written in it or in its selector byte, which
/// so says it holds an address.
pub open spec fn hole_ok(b: Seq<u8>, h: int, o: u8) -> bool {
    &&& h >= O_TYPE_U
    &&& crate::laws::holds_at(b, h - O_TYPE_U, struct_label(o))
    &&& crate::readback::hole_zero(b, h)
}

/// The hole at `h`, with the label before it, lies within `[lo, hi)`.
pub open spec fn in_region(h: int, lo: int, hi: int) -> bool {
    lo <= h - O_TYPE_U && h + PATCH_WIDTH + 1 <= hi
}

/// Nothing is written in `[lo, hi)`.
pub open spec fn zero_in(b: Seq<u8>, lo: int, hi: int) -> bool {
    &&& hi <= b.len()
    &&& forall|i: int| lo <= i < hi ==> #[trigger] b[i] == 0
}

/// The holes `a..b` of `out` are whole, and each lies within
/// `[lo1, hi1)` or `[lo2, hi2)`.
pub open spec fn holes_ok_in(out: Lay, a: int, b: int, lo1: int, hi1: int, lo2: int, hi2: int, o: u8) -> bool {
    forall|k: int|
        a <= k < b ==> hole_ok(out.bytes, #[trigger] out.patches[k], o) && (in_region(
            out.patches[k],
            lo1,
            hi1,
        ) || in_region(out.patches[k], lo2, hi2))
}

/// `[a, b)` and `[c, d)` do not meet.
pub open spec fn apart(a: int, b: int, c: int, d: int) -> bool {
    b <= c || d <= a || d <= c
}

/// A whole hole stays whole where what changes lies apart from it.
proof fn lemma_hole_kept(b1: Seq<u8>, b2: Seq<u8>, lo1: int, hi1: int, lo2: int, hi2: int, h: int, o: u8)
    requires
        hole_ok(b1, h, o),
        only_within(b1, b2, lo1, hi1, lo2, hi2),
        apart(h - O_TYPE_U, h + PATCH_WIDTH + 1, lo1, hi1),
        apart(h - O_TYPE_U, h + PATCH_WIDTH + 1, lo2, hi2),
    ensures
        hole_ok(b2, h, o),
{
    crate::laws::lemma_holds_kept(b1, b2, lo1, hi1, lo2, hi2, h - O_TYPE_U, struct_label(o));
    assert forall|i: int| h <= i < h + PATCH_WIDTH + 1 implies #[trigger] b2[i] == 0 by {
        assert(b1[i] == 0);
    }
}

/// `out` keeps the holes of `mid`, and may leave more after them.
pub open spec fn keeps_holes(mid: Lay, out: Lay) -> bool {
    out.patches.len() >= mid.patches.len() && out.patches.subrange(0, mid.patches.len() as int)
        == mid.patches
}

/// Holes left whole stay so where what changes next lies apart from the
/// regions they lie in.
proof fn lemma_holes_kept(
    mid: Lay,
    out: Lay,
    a: int,
    b: int,
    lo1: int,
    hi1: int,
    lo2: int,
    hi2: int,
    w1: int,
    x1: int,
    w2: int,
    x2: int,
    o: u8,
)
    requires
        holes_ok_in(mid, a, b, lo1, hi1, lo2, hi2, o),
        0 <= a,
        b <= mid.patches.len(),
        only_within(mid.bytes, out.bytes, w1, x1, w2, x2),
        keeps_holes(mid, out),
        apart(lo1, hi1, w1, x1),
        apart(lo1, hi1, w2, x2),
        apart(lo2, hi2, w1, x1),
        apart(lo2, hi2, w2, x2),
    ensures
        holes_ok_in(out, a, b, lo1, hi1, lo2, hi2, o),
{
    assert forall|k: int| a <= k < b implies hole_ok(out.bytes, #[trigger] out.patches[k], o) && (
    in_region(out.patches[k], lo1, hi1) || in_region(out.patches[k], lo2, hi2)) by {
        assert(out.patches[k] == out.patches.subrange(0, mid.patches.len() as int)[k]);
        assert(hole_ok(mid.bytes, mid.patches[k], o));
        lemma_hole_kept(mid.bytes, out.bytes, w1, x1, w2, x2, mid.patches[k], o);
    }
}

/// Regions may be taken wider.
proof fn lemma_holes_widen(
    out: Lay,
    a: int,
    b: int,
    lo1: int,
    hi1: int,
    lo2: int,
    hi2: int,
    lo3: int,
    hi3: int,
    lo4: int,
    hi4: int,
    o: u8,
)
    requires
        holes_ok_in(out, a, b, lo1, hi1, lo2, hi2, o),
        (lo3 <= lo1 && hi1 <= hi3) || (lo4 <= lo1 && hi1 <= hi4),
        (lo3 <= lo2 && hi2 <= hi3) || (lo4 <= lo2 && hi2 <= hi4),
    ensures
        holes_ok_in(out, a, b, lo3, hi3, lo4, hi4, o),
{
}

/// Two runs of holes, one after the other, are one.
proof fn lemma_holes_join(out: Lay, a: int, b: int, c: int, lo1: int, hi1: int, lo2: int, hi2: int, o: u8)
    requires
        holes_ok_in(out, a, b, lo1, hi1, lo2, hi2, o),
        holes_ok_in(out, b, c, lo1, hi1, lo2, hi2, o),
    ensures
        holes_ok_in(out, a, c, lo1, hi1, lo2, hi2, o),
{
    assert forall|k: int| a <= k < c implies hole_ok(out.bytes, #[trigger] out.patches[k], o) && (
    in_region(out.patches[k], lo1, hi1) || in_region(out.patches[k], lo2, hi2)) by {
        if k < b {
        } else {
        }
    }
}

/// What is zero from `x` on stays zero from `y` on where what changes
/// lies before `y`.
proof fn lemma_zero_kept(b1: Seq<u8>, b2: Seq<u8>, lo1: int, hi1: int, lo2: int, hi2: int, x: int, y: int)
    requires
        crate::readback::zero_from(b1, x),
        only_within(b1, b2, lo1, hi1, lo2, hi2),
        0 <= x <= y,
        hi1 <= y || hi1 <= lo1,
        hi2 <= y || hi2 <= lo2,
    ensures
        crate::readback::zero_from(b2, y),
{
    assert(b1.len() == b2.len());
    assert forall|i: int| y <= i < b2.len() implies #[trigger] b2[i] == 0 by {
        assert(0 <= i < b1.len() && !(lo1 <= i < hi1) && !(lo2 <= i < hi2));
        assert(b2[i] == b1[i]);
        assert(b1[i] == 0);
    }
}

/// Writing `v` at `at` changes nothing outside it.
proof fn lemma_overwrite_frame(b: Seq<u8>, at: int, v: Seq<u8>)
    ensures
        only_within(b, crate::bytes::overwrite(b, at, v), at, at + v.len(), 0, 0),
{
}

proof fn lemma_keeps_same(mid: Lay, out: Lay)
    requires
        out.patches == mid.patches,
    ensures
        keeps_holes(mid, out),
{
    assert(out.patches.subrange(0, mid.patches.len() as int) =~= mid.patches);
}

proof fn lemma_keeps_extends(mid: Lay, out: Lay)
    requires
        extends(mid, out),
    ensures
        keeps_holes(mid, out),
{
}

/// A type laid out in a slot nothing has been written in yet leaves
/// every hole it leaves whole, in its slot or in what it lays out.
pub proof fn lemma_type_holes_whole(st: Lay, at: int, l: Layout, attrs: Seq<Attr>, o: u8)
    requires
        0 <= at,
        at + TYPE_SIZE <= st.pos,
        lay_type(st, at, l, attrs, o).pos <= st.bytes.len(),
        crate::readback::zero_from(st.bytes, st.pos),
        zero_in(st.bytes, at, at + TYPE_SIZE),
    ensures
        holes_ok_in(
            lay_type(st, at, l, attrs, o),
            st.patches.len() as int,
            lay_type(st, at, l, attrs, o).patches.len() as int,
            at,
            at + TYPE_SIZE,
            st.pos,
            lay_type(st, at, l, attrs, o).pos,
            o,
        ),
        crate::readback::zero_from(lay_type(st, at, l, attrs, o).bytes, lay_type(st, at, l, attrs, o).pos),
    decreases l, 0nat,
{
    let out = lay_type(st, at, l, attrs, o);
    let u = at + O_TYPE_U;
    lemma_lay_type(st, at, l, attrs, o);
    crate::frame::lemma_lay_type_frame(st, at, l, attrs, o);
    lemma_zero_kept(st.bytes, out.bytes, at, at + TYPE_SIZE, st.pos, out.pos, st.pos, out.pos);
    match l {
        Layout::ExternStruct { offset, size, access, .. } => {
            let h = u + crate::abi::O_GSTRUCT_TYPE;
            let lab = struct_label(o);
            let w0 = crate::bytes::overwrite(st.bytes, at, lab);
            let w1 = crate::bytes::overwrite(w0, u + crate::abi::O_GSTRUCT_OFFSET, crate::bytes::host_bytes(offset, 8, o));
            let w2 = crate::bytes::overwrite(w1, u + crate::abi::O_GSTRUCT_ACCESS, seq![access]);
            let w3 = crate::bytes::overwrite(w2, u + crate::abi::O_GSTRUCT_SIZE, crate::bytes::host_bytes(size as u64, 4, o));
            assert(out.bytes == w3);
            crate::laws::lemma_overwrite_holds(st.bytes, at, lab);
            crate::laws::lemma_overwrite_keeps(w0, u + crate::abi::O_GSTRUCT_OFFSET, crate::bytes::host_bytes(offset, 8, o), at, lab);
            crate::laws::lemma_overwrite_keeps(w1, u + crate::abi::O_GSTRUCT_ACCESS, seq![access], at, lab);
            crate::laws::lemma_overwrite_keeps(w2, u + crate::abi::O_GSTRUCT_SIZE, crate::bytes::host_bytes(size as u64, 4, o), at, lab);
            assert forall|i: int| h <= i < h + PATCH_WIDTH + 1 implies #[trigger] out.bytes[i] == 0 by {
                assert(out.bytes[i] == st.bytes[i]);
            }
            assert(out.patches == st.patches.push(h));
            assert(hole_ok(out.bytes, out.patches[st.patches.len() as int], o));
        },
        Layout::GatherStruct { offset, size, access, fields } => {
            let s0 = crate::layout::with_bytes(
                st,
                crate::layout::gather_struct_head(st.bytes, at, offset, size, access, o),
            );
            if crate::shared::find_shared(s0.shared, fields@, size) is None {
                assert(only_within(st.bytes, s0.bytes, at, at + TYPE_SIZE, 0, 0)) by {
                    assert forall|i: int|
                        0 <= i < st.bytes.len() && !(at <= i < at + TYPE_SIZE) implies #[trigger] s0.bytes[i]
                        == st.bytes[i] by {}
                }
                let type_ = s0.pos;
                let s1 = Lay {
                    bytes: s0.bytes,
                    pos: type_ + STRUCT_TYPE_SIZE,
                    shared: s0.shared.push(crate::shared::Slot { fields: fields@, size, offset: type_ }),
                    patches: s0.patches,
                };
                lemma_zero_kept(st.bytes, s0.bytes, at, at + TYPE_SIZE, 0, 0, st.pos, s1.pos);
                let r = lay_fields(s1, fields@, o);
                lemma_lay_fields(s1, fields@, o);
                lemma_fields_holes_whole(s1, fields@, o);
                let m = r.1;
                let c1 = crate::bytes::overwrite(m.bytes, type_ + crate::abi::O_STRUCT_FIELDS, crate::bytes::rel_bytes(type_ + crate::abi::O_STRUCT_FIELDS, r.0, o));
                let c2 = crate::bytes::overwrite(c1, type_ + crate::abi::O_STRUCT_FIELDS + crate::abi::O_ARRAY_LENGTH, crate::bytes::host_bytes(fields@.len() as u32 as u64, 4, o));
                let d1 = crate::bytes::overwrite(c2, u + crate::abi::O_GSTRUCT_TYPE, crate::bytes::rel_bytes(u + crate::abi::O_GSTRUCT_TYPE, type_, o));
                let d2 = crate::bytes::overwrite(d1, u + crate::abi::O_GSTRUCT_TYPE + crate::abi::O_SEL_IS_OFFSET, seq![1u8]);
                assert(out.bytes == d2);
                let m1 = crate::layout::with_bytes(m, c1);
                let m2 = crate::layout::with_bytes(m, c2);
                let m3 = crate::layout::with_bytes(m, d1);
                lemma_keeps_same(m, m1);
                lemma_keeps_same(m1, m2);
                lemma_keeps_same(m2, m3);
                lemma_keeps_same(m3, out);
                let a = st.patches.len() as int;
                let b = m.patches.len() as int;
                lemma_overwrite_frame(m.bytes, type_ + crate::abi::O_STRUCT_FIELDS, crate::bytes::rel_bytes(type_ + crate::abi::O_STRUCT_FIELDS, r.0, o));
                lemma_holes_kept(m, m1, a, b, s1.pos, m.pos, s1.pos, m.pos, type_, type_ + 8, 0, 0, o);
                lemma_overwrite_frame(c1, type_ + crate::abi::O_STRUCT_FIELDS + crate::abi::O_ARRAY_LENGTH, crate::bytes::host_bytes(fields@.len() as u32 as u64, 4, o));
                lemma_holes_kept(m1, m2, a, b, s1.pos, m.pos, s1.pos, m.pos, type_ + 8, type_ + 12, 0, 0, o);
                lemma_overwrite_frame(c2, u + crate::abi::O_GSTRUCT_TYPE, crate::bytes::rel_bytes(u + crate::abi::O_GSTRUCT_TYPE, type_, o));
                lemma_holes_kept(m2, m3, a, b, s1.pos, m.pos, s1.pos, m.pos, u, u + 8, 0, 0, o);
                lemma_overwrite_frame(d1, u + crate::abi::O_GSTRUCT_TYPE + crate::abi::O_SEL_IS_OFFSET, seq![1u8]);
                lemma_holes_kept(m3, out, a, b, s1.pos, m.pos, s1.pos, m.pos, u + 16, u + 17, 0, 0, o);
                lemma_holes_widen(out, a, b, s1.pos, m.pos, s1.pos, m.pos, at, at + TYPE_SIZE, st.pos, out.pos, o);
            }
        },
        Layout::GatherArray { offset, length, elem } => {
            let array = u + crate::abi::O_GARRAY_TYPE;
            let b1 = crate::bytes::write_uint(
                crate::bytes::write_u8(
                    crate::bytes::write_uint(
                        crate::bytes::write_uint(st.bytes, at, crate::abi::SIDE_TYPE_GATHER_ARRAY as u64, 2, o),
                        u + crate::abi::O_GARRAY_OFFSET,
                        offset,
                        8,
                        o,
                    ),
                    u + crate::abi::O_GARRAY_ACCESS,
                    crate::abi::SIDE_TYPE_GATHER_ACCESS_DIRECT,
                ),
                array + crate::abi::O_ARRAY_TYPE_LENGTH,
                length as u64,
                4,
                o,
            );
            assert(only_within(st.bytes, b1, at, at + TYPE_SIZE, 0, 0)) by {
                assert forall|i: int|
                    0 <= i < st.bytes.len() && !(at <= i < at + TYPE_SIZE) implies #[trigger] b1[i]
                    == st.bytes[i] by {}
            }
            let s0 = crate::layout::with_bytes(st, b1);
            let member = array + crate::abi::O_ARRAY_ATTRIBUTES;
            let st1 = crate::layout::lay_attrs(s0, member, false, attrs, o);
            crate::layout::lemma_lay_attrs(s0, member, false, attrs, o);
            crate::frame::lemma_lay_attrs_frame(s0, member, false, attrs, o);
            crate::measure::lemma_attrs_size_prefix(attrs, 0);
            let e = st1.pos;
            let st2 = with_pos(st1, e + TYPE_SIZE);
            let rel = crate::bytes::rel_bytes(array + crate::abi::O_ARRAY_ELEM_TYPE, e, o);
            let st3 = crate::layout::with_bytes(st2, crate::bytes::overwrite(st2.bytes, array + crate::abi::O_ARRAY_ELEM_TYPE, rel));
            lemma_overwrite_frame(st2.bytes, array + crate::abi::O_ARRAY_ELEM_TYPE, rel);
            lemma_zero_kept(st.bytes, b1, at, at + TYPE_SIZE, 0, 0, st.pos, st.pos);
            lemma_zero_kept(b1, st1.bytes, member, member + 12, st.pos, e, st.pos, e);
            lemma_zero_kept(st1.bytes, st3.bytes, array, array + 8, 0, 0, e, e);
            lemma_lay_type(st3, e, *elem, Seq::empty(), o);
            assert(out == lay_type(st3, e, *elem, Seq::empty(), o));
            lemma_zero_kept(st3.bytes, st3.bytes, 0, 0, 0, 0, e, st3.pos);
            assert(zero_in(st3.bytes, e, e + TYPE_SIZE));
            lemma_type_holes_whole(st3, e, *elem, Seq::empty(), o);
            lemma_holes_widen(out, st.patches.len() as int, out.patches.len() as int, e, e + TYPE_SIZE, st3.pos, out.pos, at, at + TYPE_SIZE, st.pos, out.pos, o);
        },
        Layout::GatherVla { offset, len_offset, elem } => {
            let vla = u + crate::abi::O_GVLA_TYPE;
            let b1 = crate::bytes::write_u8(
                crate::bytes::write_uint(
                    crate::bytes::write_uint(st.bytes, at, crate::abi::SIDE_TYPE_GATHER_VLA as u64, 2, o),
                    u + crate::abi::O_GVLA_OFFSET,
                    offset,
                    8,
                    o,
                ),
                u + crate::abi::O_GVLA_ACCESS,
                crate::abi::SIDE_TYPE_GATHER_ACCESS_POINTER,
            );
            assert(only_within(st.bytes, b1, at, at + TYPE_SIZE, 0, 0)) by {
                assert forall|i: int|
                    0 <= i < st.bytes.len() && !(at <= i < at + TYPE_SIZE) implies #[trigger] b1[i]
                    == st.bytes[i] by {}
            }
            let s0 = crate::layout::with_bytes(st, b1);
            let member = vla + crate::abi::O_VLA_ATTRIBUTES;
            let st1 = crate::layout::lay_attrs(s0, member, false, attrs, o);
            crate::layout::lemma_lay_attrs(s0, member, false, attrs, o);
            crate::frame::lemma_lay_attrs_frame(s0, member, false, attrs, o);
            crate::measure::lemma_attrs_size_prefix(attrs, 0);
            let e = st1.pos;
            let lt = e + TYPE_SIZE;
            let st2 = with_pos(st1, lt + TYPE_SIZE);
            let r1 = crate::bytes::rel_bytes(vla + crate::abi::O_VLA_ELEM_TYPE, e, o);
            let r2 = crate::bytes::rel_bytes(vla + crate::abi::O_VLA_LENGTH_TYPE, lt, o);
            let x1 = crate::bytes::overwrite(st2.bytes, vla + crate::abi::O_VLA_ELEM_TYPE, r1);
            let x2 = crate::bytes::overwrite(x1, vla + crate::abi::O_VLA_LENGTH_TYPE, r2);
            let st3 = crate::layout::with_bytes(st2, x2);
            lemma_overwrite_frame(st2.bytes, vla + crate::abi::O_VLA_ELEM_TYPE, r1);
            lemma_overwrite_frame(x1, vla + crate::abi::O_VLA_LENGTH_TYPE, r2);
            lemma_zero_kept(st.bytes, b1, at, at + TYPE_SIZE, 0, 0, st.pos, st.pos);
            lemma_zero_kept(b1, st1.bytes, member, member + 12, st.pos, e, st.pos, e);
            lemma_zero_kept(st1.bytes, x1, vla, vla + 8, 0, 0, e, e);
            lemma_zero_kept(x1, x2, vla + 8, vla + 16, 0, 0, e, e);
            let st4 = lay_type(st3, e, *elem, Seq::empty(), o);
            lemma_lay_type(st3, e, *elem, Seq::empty(), o);
            let li = Layout::GatherInteger { offset: len_offset, size: crate::layout::usize_size(), signed: false };
            assert(out == crate::layout::lay_leaf(st4, lt, li, Seq::empty(), o));
            crate::layout::lemma_lay_leaf(st4, lt, li, Seq::empty(), o);
            crate::frame::lemma_lay_leaf_frame(st4, lt, li, Seq::empty(), o);
            crate::measure::lemma_attrs_size_prefix(Seq::<Attr>::empty(), 0);
            lemma_zero_kept(st3.bytes, st3.bytes, 0, 0, 0, 0, e, st3.pos);
            assert(zero_in(st3.bytes, e, e + TYPE_SIZE));
            lemma_type_holes_whole(st3, e, *elem, Seq::empty(), o);
            lemma_keeps_same(st4, out);
            lemma_holes_kept(st4, out, st.patches.len() as int, st4.patches.len() as int, e, lt, st3.pos, st4.pos, lt, lt + TYPE_SIZE, st4.pos, out.pos, o);
            lemma_holes_widen(out, st.patches.len() as int, out.patches.len() as int, e, lt, st3.pos, st4.pos, at, at + TYPE_SIZE, st.pos, out.pos, o);
        },
        _ => {
            crate::layout::lemma_lay_leaf(st, at, l, attrs, o);
        },
    }
}

pub proof fn lemma_field_holes_whole(st: Lay, field_at: int, f: Field, o: u8)
    requires
        0 <= field_at,
        field_at + FIELD_SIZE <= st.pos,
        lay_field(st, field_at, f, o).pos <= st.bytes.len(),
        crate::readback::zero_from(st.bytes, st.pos),
        zero_in(st.bytes, field_at, field_at + FIELD_SIZE),
    ensures
        holes_ok_in(
            lay_field(st, field_at, f, o),
            st.patches.len() as int,
            lay_field(st, field_at, f, o).patches.len() as int,
            field_at,
            field_at + FIELD_SIZE,
            st.pos,
            lay_field(st, field_at, f, o).pos,
            o,
        ),
        crate::readback::zero_from(lay_field(st, field_at, f, o).bytes, lay_field(st, field_at, f, o).pos),
    decreases f, 0nat,
{
    let name = st.pos;
    let v = crate::bytes::c_str_bytes(f.name);
    let b1 = crate::bytes::overwrite(st.bytes, name, v);
    let rel = crate::bytes::rel_bytes(field_at + crate::abi::O_FIELD_NAME, name, o);
    let b2 = crate::bytes::overwrite(b1, field_at + crate::abi::O_FIELD_NAME, rel);
    let st1 = Lay {
        bytes: b2,
        pos: name + crate::measure::str_size(f.name),
        shared: st.shared,
        patches: st.patches,
    };
    let out = lay_field(st, field_at, f, o);
    assert(out == lay_type(st1, field_at + O_FIELD_TYPE, f.layout, f.attributes@, o));
    lemma_lay_type(st1, field_at + O_FIELD_TYPE, f.layout, f.attributes@, o);
    assert(v.len() == crate::measure::str_size(f.name));
    lemma_overwrite_frame(st.bytes, name, v);
    lemma_overwrite_frame(b1, field_at, rel);
    lemma_zero_kept(st.bytes, b1, name, name + v.len(), 0, 0, st.pos, st1.pos);
    lemma_zero_kept(b1, b2, field_at, field_at + 8, 0, 0, st1.pos, st1.pos);
    assert forall|i: int| field_at + O_FIELD_TYPE <= i < field_at + FIELD_SIZE implies #[trigger] b2[i] == 0 by {
        assert(b2[i] == b1[i]);
        assert(b1[i] == st.bytes[i]);
    }
    lemma_type_holes_whole(st1, field_at + O_FIELD_TYPE, f.layout, f.attributes@, o);
    lemma_holes_widen(
        out,
        st.patches.len() as int,
        out.patches.len() as int,
        field_at + O_FIELD_TYPE,
        field_at + O_FIELD_TYPE + TYPE_SIZE,
        st1.pos,
        out.pos,
        field_at,
        field_at + FIELD_SIZE,
        st.pos,
        out.pos,
        o,
    );
}

pub proof fn lemma_field_items_holes_whole(st: Lay, array: int, fs: Seq<Field>, o: u8)
    requires
        0 <= array,
        array + fs.len() * FIELD_SIZE <= st.pos,
        lay_field_items(st, array, fs, o).pos <= st.bytes.len(),
        crate::readback::zero_from(st.bytes, st.pos),
        zero_in(st.bytes, array, array + fs.len() * FIELD_SIZE),
    ensures
        holes_ok_in(
            lay_field_items(st, array, fs, o),
            st.patches.len() as int,
            lay_field_items(st, array, fs, o).patches.len() as int,
            array,
            array + fs.len() * FIELD_SIZE,
            st.pos,
            lay_field_items(st, array, fs, o).pos,
            o,
        ),
        crate::readback::zero_from(lay_field_items(st, array, fs, o).bytes, lay_field_items(st, array, fs, o).pos),
    decreases fs, 0nat,
{
    let out = lay_field_items(st, array, fs, o);
    if fs.len() > 0 {
        let n = fs.len();
        let pre = fs.drop_last();
        let mid = lay_field_items(st, array, pre, o);
        let slot = array + (n - 1) * FIELD_SIZE;
        assert(slot + FIELD_SIZE == array + n * FIELD_SIZE) by (nonlinear_arith)
            requires slot == array + (n - 1) * FIELD_SIZE;
        assert(array <= slot) by (nonlinear_arith)
            requires slot == array + (n - 1) * FIELD_SIZE, n >= 1;
        lemma_lay_field_items(st, array, pre, o);
        crate::frame::lemma_lay_field_items_frame(st, array, pre, o);
        assert(out == lay_field(mid, slot, fs.last(), o));
        lemma_lay_field(mid, slot, fs.last(), o);
        crate::frame::lemma_lay_field_frame(mid, slot, fs.last(), o);
        assert(zero_in(st.bytes, array, slot + FIELD_SIZE));
        assert(zero_in(st.bytes, array, array + pre.len() * FIELD_SIZE));
        lemma_field_items_holes_whole(st, array, pre, o);
        assert forall|i: int| slot <= i < slot + FIELD_SIZE implies #[trigger] mid.bytes[i] == 0 by {
            assert(mid.bytes[i] == st.bytes[i]);
        }
        lemma_field_holes_whole(mid, slot, fs.last(), o);
        lemma_keeps_extends(mid, out);
        lemma_holes_kept(mid, out, st.patches.len() as int, mid.patches.len() as int, array, slot, st.pos, mid.pos, slot, slot + FIELD_SIZE, mid.pos, out.pos, o);
        lemma_holes_widen(out, st.patches.len() as int, mid.patches.len() as int, array, slot, st.pos, mid.pos, array, slot + FIELD_SIZE, st.pos, out.pos, o);
        lemma_holes_widen(out, mid.patches.len() as int, out.patches.len() as int, slot, slot + FIELD_SIZE, mid.pos, out.pos, array, slot + FIELD_SIZE, st.pos, out.pos, o);
        lemma_holes_join(out, st.patches.len() as int, mid.patches.len() as int, out.patches.len() as int, array, slot + FIELD_SIZE, st.pos, out.pos, o);
    }
}

pub proof fn lemma_fields_holes_whole(st: Lay, fs: Seq<Field>, o: u8)
    requires
        0 <= st.pos,
        lay_fields(st, fs, o).1.pos <= st.bytes.len(),
        crate::readback::zero_from(st.bytes, st.pos),
    ensures
        holes_ok_in(
            lay_fields(st, fs, o).1,
            st.patches.len() as int,
            lay_fields(st, fs, o).1.patches.len() as int,
            st.pos,
            lay_fields(st, fs, o).1.pos,
            st.pos,
            lay_fields(st, fs, o).1.pos,
            o,
        ),
        crate::readback::zero_from(lay_fields(st, fs, o).1.bytes, lay_fields(st, fs, o).1.pos),
    decreases fs, 1nat,
{
    let st1 = with_pos(st, st.pos + fs.len() * FIELD_SIZE);
    assert(fs.len() * FIELD_SIZE >= 0) by (nonlinear_arith);
    lemma_lay_fields(st, fs, o);
    let out = lay_fields(st, fs, o).1;
    assert(zero_in(st1.bytes, st.pos, st.pos + fs.len() * FIELD_SIZE));
    lemma_zero_kept(st.bytes, st.bytes, 0, 0, 0, 0, st.pos, st1.pos);
    lemma_field_items_holes_whole(st1, st.pos, fs, o);
    lemma_holes_widen(out, st.patches.len() as int, out.patches.len() as int, st.pos, st.pos + fs.len() * FIELD_SIZE, st1.pos, out.pos, st.pos, out.pos, st.pos, out.pos, o);
}

pub proof fn lemma_events_holes_whole(all: Seq<EventSpec>, k: nat, n: nat, o: u8)
    requires
        k <= all.len(),
        lay_events(all, k, n, o).pos <= n,
    ensures
        holes_ok_in(
            lay_events(all, k, n, o),
            0,
            lay_events(all, k, n, o).patches.len() as int,
            all.len() * DESC_SIZE,
            lay_events(all, k, n, o).pos,
            all.len() * DESC_SIZE,
            lay_events(all, k, n, o).pos,
            o,
        ),
        crate::readback::zero_from(lay_events(all, k, n, o).bytes, lay_events(all, k, n, o).pos),
        lay_events(all, k, n, o).bytes.len() == n,
    decreases k,
{
    let l0 = all.len() * DESC_SIZE;
    crate::layout::lemma_lay_events_prefix(all, 0, k, n, o);
    if k > 0 {
        let st = lay_events(all, (k - 1) as nat, n, o);
        crate::layout::lemma_lay_events_prefix(all, (k - 1) as nat, k, n, o);
        lemma_events_holes_whole(all, (k - 1) as nat, n, o);
        crate::layout::lemma_lay_events_prefix(all, 0, (k - 1) as nat, n, o);
        let desc = (k - 1) * DESC_SIZE;
        assert(desc + DESC_SIZE <= l0) by (nonlinear_arith)
            requires desc == (k - 1) * DESC_SIZE, l0 == all.len() * DESC_SIZE, k <= all.len();
        assert(0 <= desc) by (nonlinear_arith)
            requires desc == (k - 1) * DESC_SIZE, k >= 1;
        let e = all[k - 1];
        let out = lay_events(all, k, n, o);
        assert(out == lay_event(st, desc, e, o));
        lemma_lay_event(st, desc, e, o);
        crate::laws::lemma_lay_event_frame(st, desc, e, o);
        /* The holes of the events before. */
        lemma_keeps_extends(st, out);
        lemma_holes_kept(st, out, 0, st.patches.len() as int, l0, st.pos, l0, st.pos, desc, desc + DESC_SIZE, st.pos, out.pos, o);
        lemma_holes_widen(out, 0, st.patches.len() as int, l0, st.pos, l0, st.pos, l0, out.pos, l0, out.pos, o);
        /* The holes of this one. */
        let p = st.pos;
        let ev = p + crate::measure::str_size(e.provider);
        let b0 = crate::layout::event_head(st.bytes, desc, e, o);
        let a1 = crate::bytes::overwrite(b0, p, crate::bytes::c_str_bytes(e.provider));
        let b1 = crate::bytes::overwrite(a1, desc + crate::abi::O_DESC_PROVIDER, crate::bytes::rel_bytes(desc + crate::abi::O_DESC_PROVIDER, p, o));
        let a2 = crate::bytes::overwrite(b1, ev, crate::bytes::c_str_bytes(e.event));
        let b2 = crate::bytes::overwrite(a2, desc + crate::abi::O_DESC_EVENT, crate::bytes::rel_bytes(desc + crate::abi::O_DESC_EVENT, ev, o));
        let s1 = Lay { bytes: b2, pos: ev + crate::measure::str_size(e.event), shared: st.shared, patches: st.patches };
        assert forall|i: int| s1.pos <= i < b2.len() implies #[trigger] b2[i] == 0 by {
            assert(b0[i] == st.bytes[i]);
            assert(b2[i] == b0[i]);
        }
        let r = lay_fields(s1, e.fields@, o);
        let s2 = r.1;
        lemma_lay_fields(s1, e.fields@, o);
        let c1 = crate::bytes::overwrite(s2.bytes, desc + crate::abi::O_DESC_FIELDS, crate::bytes::rel_bytes(desc + crate::abi::O_DESC_FIELDS, r.0, o));
        let b3 = crate::bytes::overwrite(c1, desc + crate::abi::O_DESC_FIELDS + crate::abi::O_ARRAY_LENGTH, crate::bytes::host_bytes(e.fields@.len() as u32 as u64, 4, o));
        let s3 = crate::layout::with_bytes(s2, b3);
        assert(out == crate::layout::lay_attrs(s3, desc + crate::abi::O_DESC_ATTRIBUTES, false, e.attributes@, o));
        crate::layout::lemma_lay_attrs(s3, desc + crate::abi::O_DESC_ATTRIBUTES, false, e.attributes@, o);
        crate::frame::lemma_lay_attrs_frame(s3, desc + crate::abi::O_DESC_ATTRIBUTES, false, e.attributes@, o);
        lemma_fields_holes_whole(s1, e.fields@, o);
        let m1 = crate::layout::with_bytes(s2, c1);
        lemma_keeps_same(s2, m1);
        lemma_keeps_same(m1, s3);
        lemma_keeps_same(s3, out);
        let a = st.patches.len() as int;
        let b = s2.patches.len() as int;
        lemma_overwrite_frame(s2.bytes, desc + crate::abi::O_DESC_FIELDS, crate::bytes::rel_bytes(desc + crate::abi::O_DESC_FIELDS, r.0, o));
        lemma_holes_kept(s2, m1, a, b, s1.pos, s2.pos, s1.pos, s2.pos, desc + 24, desc + 32, 0, 0, o);
        lemma_overwrite_frame(c1, desc + crate::abi::O_DESC_FIELDS + crate::abi::O_ARRAY_LENGTH, crate::bytes::host_bytes(e.fields@.len() as u32 as u64, 4, o));
        lemma_holes_kept(m1, s3, a, b, s1.pos, s2.pos, s1.pos, s2.pos, desc + 32, desc + 36, 0, 0, o);
        lemma_holes_kept(s3, out, a, b, s1.pos, s2.pos, s1.pos, s2.pos, desc + 36, desc + 48, s2.pos, out.pos, o);
        lemma_holes_widen(out, a, b, s1.pos, s2.pos, s1.pos, s2.pos, l0, out.pos, l0, out.pos, o);
        lemma_holes_join(out, 0, a, b, l0, out.pos, l0, out.pos, o);
        lemma_zero_kept(st.bytes, out.bytes, desc, desc + DESC_SIZE, st.pos, out.pos, st.pos, out.pos);
    }
}

/// Every hole `build_group` leaves, wherever the reference which leaves
/// it stands -- a field of an event, or a member of a structure, an
/// array or a vector -- is whole in the bytes it returns: the label of a
/// gathered structure right before it, and the hole and its selector
/// byte left zero, a selector which says the member holds an address.
/// This holds in either byte order.
pub proof fn law_group_holes_whole(events: Seq<EventSpec>, o: u8)
    requires
        events_wf(events),
    ensures
        forall|k: int|
            0 <= k < group_holes(events).len() ==> hole_ok(
                crate::layout::group_bytes(events, group_size_spec(events) as nat, o),
                #[trigger] group_holes(events)[k],
                o,
            ),
{
    let n = group_size_spec(events) as nat;
    crate::layout::lemma_lay_events_prefix(events, 0, events.len(), n, o);
    assert(events.len() * DESC_SIZE >= 0) by (nonlinear_arith);
    lemma_group_measure(events, n, o);
    lemma_group_geometry(events, n, 0, o, crate::abi::SIDE_TYPE_BYTE_ORDER_LE);
    lemma_events_holes_whole(events, events.len(), n, o);
    let g = group_lay(events, n, o);
    assert(g.patches == group_holes(events));
    assert forall|k: int| 0 <= k < group_holes(events).len() implies hole_ok(
        crate::layout::group_bytes(events, n, o),
        #[trigger] group_holes(events)[k],
        o,
    ) by {
        assert(hole_ok(g.bytes, g.patches[k], o));
    }
}

/// The same of every hole `build_type` leaves in one structure described
/// on its own.
pub proof fn law_type_holes_whole(fields: Seq<Field>, size: u32, o: u8)
    requires
        crate::layout::fields_wf(fields),
    ensures
        forall|k: int|
            0 <= k < crate::layout::type_holes(fields, size).len() ==> hole_ok(
                crate::layout::type_bytes(fields, size, crate::measure::type_size_spec(fields, size) as nat, o),
                #[trigger] crate::layout::type_holes(fields, size)[k],
                o,
            ),
{
    let n = crate::measure::type_size_spec(fields, size) as nat;
    crate::agree::lemma_type_measure(fields, size, n, o);
    crate::agree::lemma_type_geometry(fields, size, n, 0, o, crate::abi::SIDE_TYPE_BYTE_ORDER_LE);
    let start = Lay {
        bytes: Seq::new(n, |i: int| 0u8),
        pos: STRUCT_TYPE_SIZE as int,
        shared: seq![crate::shared::Slot { fields, size, offset: 0 }],
        patches: Seq::empty(),
    };
    let r = lay_fields(start, fields, o);
    lemma_lay_fields(start, fields, o);
    let t = crate::layout::type_lay(fields, size, n, o);
    assert(t.pos == r.1.pos);
    lemma_fields_holes_whole(start, fields, o);
    let c1 = crate::bytes::overwrite(r.1.bytes, crate::abi::O_STRUCT_FIELDS as int, crate::bytes::rel_bytes(crate::abi::O_STRUCT_FIELDS as int, r.0, o));
    let c2 = crate::bytes::overwrite(c1, crate::abi::O_STRUCT_FIELDS + crate::abi::O_ARRAY_LENGTH, crate::bytes::host_bytes(fields.len() as u32 as u64, 4, o));
    assert(t.bytes == c2);
    let m1 = crate::layout::with_bytes(r.1, c1);
    lemma_keeps_same(r.1, m1);
    lemma_keeps_same(m1, t);
    let b = r.1.patches.len() as int;
    lemma_overwrite_frame(r.1.bytes, crate::abi::O_STRUCT_FIELDS as int, crate::bytes::rel_bytes(crate::abi::O_STRUCT_FIELDS as int, r.0, o));
    lemma_holes_kept(r.1, m1, 0, b, start.pos, r.1.pos, start.pos, r.1.pos, 0, 8, 0, 0, o);
    lemma_overwrite_frame(c1, crate::abi::O_STRUCT_FIELDS + crate::abi::O_ARRAY_LENGTH, crate::bytes::host_bytes(fields.len() as u32 as u64, 4, o));
    lemma_holes_kept(m1, t, 0, b, start.pos, r.1.pos, start.pos, r.1.pos, 8, 12, 0, 0, o);
    assert(t.patches == crate::layout::type_holes(fields, size));
    assert forall|k: int| 0 <= k < crate::layout::type_holes(fields, size).len() implies hole_ok(
        crate::layout::type_bytes(fields, size, n, o),
        #[trigger] crate::layout::type_holes(fields, size)[k],
        o,
    ) by {
        assert(hole_ok(t.bytes, t.patches[k], o));
    }
}

} // verus!
