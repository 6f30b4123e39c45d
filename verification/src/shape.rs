//! When two shapes describe the same way.
//!
//! Two structures which describe the same way *are* the same
//! description, so what a group compares is the shape, name for name and
//! byte for byte, rather than which Rust type it came from.
use vstd::prelude::*;

use crate::model::{Attr, AttrValue, Field, Layout};
use vstd::string::StringSliceAdditionalSpecFns;

verus! {

broadcast use vstd::std_specs::vec::group_vec_axioms, vstd::seq::group_seq_axioms;

/// Two attribute values are the same: the same variant holding the same
/// value, a string compared by its characters.
pub open spec fn attr_value_same(a: AttrValue, b: AttrValue) -> bool {
    match (a, b) {
        (AttrValue::Null, AttrValue::Null) => true,
        (AttrValue::Bool(x), AttrValue::Bool(y)) => x == y,
        (AttrValue::U8(x), AttrValue::U8(y)) => x == y,
        (AttrValue::U16(x), AttrValue::U16(y)) => x == y,
        (AttrValue::U32(x), AttrValue::U32(y)) => x == y,
        (AttrValue::U64(x), AttrValue::U64(y)) => x == y,
        (AttrValue::S8(x), AttrValue::S8(y)) => x == y,
        (AttrValue::S16(x), AttrValue::S16(y)) => x == y,
        (AttrValue::S32(x), AttrValue::S32(y)) => x == y,
        (AttrValue::S64(x), AttrValue::S64(y)) => x == y,
        (AttrValue::String(x), AttrValue::String(y)) => x@ == y@,
        _ => false,
    }
}

pub open spec fn attr_same(a: Attr, b: Attr) -> bool {
    a.key@ == b.key@ && attr_value_same(a.value, b.value)
}

/// Two attribute lists are the same, attribute for attribute.
pub open spec fn attrs_same(a: Seq<Attr>, b: Seq<Attr>) -> bool {
    &&& a.len() == b.len()
    &&& forall|i: int| 0 <= i < a.len() ==> #[trigger] attr_same(a[i], b[i])
}

/// Two shapes describe the same way.
pub open spec fn layout_same(a: Layout, b: Layout) -> bool
    decreases a,
{
    match a {
        Layout::Bool => b is Bool,
        Layout::Integer { size, signed } => b == Layout::Integer { size, signed },
        Layout::Pointer => b is Pointer,
        Layout::String => b is String,
        Layout::GatherBool { offset, size } => b == Layout::GatherBool { offset, size },
        Layout::GatherInteger { offset, size, signed } => b == Layout::GatherInteger {
            offset,
            size,
            signed,
        },
        Layout::GatherPointer { offset } => b == Layout::GatherPointer { offset },
        Layout::GatherStruct { offset, size, access, fields } => match b {
            Layout::GatherStruct { offset: bo, size: bs, access: ba, fields: bf } => offset == bo
                && size == bs && access == ba && fields_same(fields@, bf@),
            _ => false,
        },
        Layout::GatherArray { offset, length, elem } => match b {
            Layout::GatherArray { offset: bo, length: bl, elem: be } => offset == bo && length
                == bl && layout_same(*elem, *be),
            _ => false,
        },
        Layout::GatherVla { offset, len_offset, elem } => match b {
            Layout::GatherVla { offset: bo, len_offset: bl, elem: be } => offset == bo
                && len_offset == bl && layout_same(*elem, *be),
            _ => false,
        },
        Layout::ExternStruct { offset, size, access, target } => b == Layout::ExternStruct {
            offset,
            size,
            access,
            target,
        },
    }
}

/// Two fields describe the same way: the same name, shape and
/// attributes.
pub open spec fn field_same(a: Field, b: Field) -> bool
    decreases a,
{
    a.name@ == b.name@ && layout_same(a.layout, b.layout) && attrs_same(
        a.attributes@,
        b.attributes@,
    )
}

/// Two field lists describe the same way, field for field.
pub open spec fn fields_same(a: Seq<Field>, b: Seq<Field>) -> bool
    decreases a,
{
    if a.len() != b.len() {
        false
    } else if a.len() == 0 {
        true
    } else {
        fields_same(a.drop_last(), b.drop_last()) && field_same(a.last(), b.last())
    }
}


/// Field lists describe the same way exactly when they are as long and
/// describe the same way field for field.
pub proof fn lemma_fields_same_pointwise(a: Seq<Field>, b: Seq<Field>)
    ensures
        fields_same(a, b) <==> (a.len() == b.len() && forall|i: int|
            0 <= i < a.len() ==> #[trigger] field_same(a[i], b[i])),
    decreases a.len(),
{
    if a.len() == b.len() && a.len() > 0 {
        lemma_fields_same_pointwise(a.drop_last(), b.drop_last());
        if fields_same(a, b) {
            assert forall|i: int| 0 <= i < a.len() implies #[trigger] field_same(a[i], b[i]) by {
                if i < a.len() - 1 {
                    assert(a.drop_last()[i] == a[i]);
                    assert(b.drop_last()[i] == b[i]);
                }
            }
        }
        if forall|i: int| 0 <= i < a.len() ==> #[trigger] field_same(a[i], b[i]) {
            assert forall|i: int| 0 <= i < a.drop_last().len() implies #[trigger] field_same(
                a.drop_last()[i],
                b.drop_last()[i],
            ) by {
                assert(field_same(a[i], b[i]));
            }
            assert(field_same(a[a.len() - 1], b[a.len() - 1]));
            assert(fields_same(a, b));
        }
    }
}

/// The bytes of two strings are the same exactly when the strings are.
pub proof fn lemma_str_bytes_same(a: &str, b: &str)
    ensures
        (a.spec_bytes() == b.spec_bytes()) <==> (a@ == b@),
{
    vstd::utf8::encode_utf8_decode_utf8(a@);
    vstd::utf8::encode_utf8_decode_utf8(b@);
}

/// Whether two strings are the same, compared byte for byte.
pub fn str_eq(a: &str, b: &str) -> (r: bool)
    ensures
        r == (a@ == b@),
{
    proof {
        lemma_str_bytes_same(a, b);
    }
    let (x, y) = (a.as_bytes(), b.as_bytes());
    if x.len() != y.len() {
        return false;
    }
    let mut i: usize = 0;
    while i < x.len()
        invariant
            x@ == a.spec_bytes(),
            y@ == b.spec_bytes(),
            x@.len() == y@.len(),
            0 <= i <= x@.len(),
            forall|j: int| 0 <= j < i ==> x@[j] == y@[j],
        decreases x@.len() - i,
    {
        if x[i] != y[i] {
            return false;
        }
        i += 1;
    }
    proof {
        assert(x@ =~= y@);
    }
    true
}

/// Whether two attribute values are the same.
pub fn attr_value_eq(a: &AttrValue, b: &AttrValue) -> (r: bool)
    ensures
        r == attr_value_same(*a, *b),
{
    match (*a, *b) {
        (AttrValue::Null, AttrValue::Null) => true,
        (AttrValue::Bool(x), AttrValue::Bool(y)) => x == y,
        (AttrValue::U8(x), AttrValue::U8(y)) => x == y,
        (AttrValue::U16(x), AttrValue::U16(y)) => x == y,
        (AttrValue::U32(x), AttrValue::U32(y)) => x == y,
        (AttrValue::U64(x), AttrValue::U64(y)) => x == y,
        (AttrValue::S8(x), AttrValue::S8(y)) => x == y,
        (AttrValue::S16(x), AttrValue::S16(y)) => x == y,
        (AttrValue::S32(x), AttrValue::S32(y)) => x == y,
        (AttrValue::S64(x), AttrValue::S64(y)) => x == y,
        (AttrValue::String(x), AttrValue::String(y)) => str_eq(x, y),
        _ => false,
    }
}

/// Whether two attribute lists are the same.
pub fn attrs_eq(a: &[Attr], b: &[Attr]) -> (r: bool)
    ensures
        r == attrs_same(a@, b@),
{
    if a.len() != b.len() {
        return false;
    }
    let mut i: usize = 0;
    while i < a.len()
        invariant
            a@.len() == b@.len(),
            0 <= i <= a@.len(),
            forall|j: int| 0 <= j < i ==> #[trigger] attr_same(a@[j], b@[j]),
        decreases a@.len() - i,
    {
        if !str_eq(a[i].key, b[i].key) || !attr_value_eq(&a[i].value, &b[i].value) {
            assert(!attr_same(a@[i as int], b@[i as int]));
            return false;
        }
        i += 1;
    }
    true
}

/// Whether two shapes describe the same way.
pub fn layout_eq(a: &Layout, b: &Layout) -> (r: bool)
    ensures
        r == layout_same(*a, *b),
    decreases a,
{
    match a {
        Layout::Bool => matches!(b, Layout::Bool),
        Layout::Integer { size, signed } => match b {
            Layout::Integer { size: bs, signed: bg } => *size == *bs && *signed == *bg,
            _ => false,
        },
        Layout::Pointer => matches!(b, Layout::Pointer),
        Layout::String => matches!(b, Layout::String),
        Layout::GatherBool { offset, size } => match b {
            Layout::GatherBool { offset: bo, size: bs } => *offset == *bo && *size == *bs,
            _ => false,
        },
        Layout::GatherInteger { offset, size, signed } => match b {
            Layout::GatherInteger { offset: bo, size: bs, signed: bg } => *offset == *bo && *size
                == *bs && *signed == *bg,
            _ => false,
        },
        Layout::GatherPointer { offset } => match b {
            Layout::GatherPointer { offset: bo } => *offset == *bo,
            _ => false,
        },
        Layout::GatherStruct { offset, size, access, fields } => match b {
            Layout::GatherStruct { offset: bo, size: bs, access: ba, fields: bf } => *offset == *bo
                && *size == *bs && *access == *ba && fields_eq(fields, bf),
            _ => false,
        },
        Layout::GatherArray { offset, length, elem } => match b {
            Layout::GatherArray { offset: bo, length: bl, elem: be } => *offset == *bo && *length
                == *bl && layout_eq(elem, be),
            _ => false,
        },
        Layout::GatherVla { offset, len_offset, elem } => match b {
            Layout::GatherVla { offset: bo, len_offset: bl, elem: be } => *offset == *bo
                && *len_offset == *bl && layout_eq(elem, be),
            _ => false,
        },
        Layout::ExternStruct { offset, size, access, target } => match b {
            Layout::ExternStruct { offset: bo, size: bs, access: ba, target: bt } => *offset == *bo
                && *size == *bs && *access == *ba && *target == *bt,
            _ => false,
        },
    }
}

/// Whether two field lists describe the same way.
pub fn fields_eq(a: &Vec<Field>, b: &Vec<Field>) -> (r: bool)
    ensures
        r == fields_same(a@, b@),
    decreases a,
{
    proof {
        lemma_fields_same_pointwise(a@, b@);
    }
    if a.len() != b.len() {
        return false;
    }
    let mut i: usize = 0;
    while i < a.len()
        invariant
            a@.len() == b@.len(),
            0 <= i <= a@.len(),
            forall|j: int| 0 <= j < i ==> #[trigger] field_same(a@[j], b@[j]),
        decreases a@.len() - i,
    {
        let same = str_eq(a[i].name, b[i].name) && layout_eq(&a[i].layout, &b[i].layout)
            && attrs_eq(a[i].attributes, b[i].attributes);
        if !same {
            proof {
                lemma_fields_same_pointwise(a@, b@);
                assert(!field_same(a@[i as int], b@[i as int]));
            }
            return false;
        }
        i += 1;
    }
    true
}

} // verus!
