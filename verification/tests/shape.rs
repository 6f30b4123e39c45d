use libside::abi::SIDE_TYPE_GATHER_ACCESS_DIRECT;
use libside::model::{struct_element, Attr, AttrValue, Field, Layout};
use libside::shape::{attr_value_eq, attrs_eq, fields_eq, layout_eq, str_eq};

const HEX: [Attr; 1] = [Attr { key: "std.integer.base", value: AttrValue::U8(16) }];
const DEC: [Attr; 1] = [Attr { key: "std.integer.base", value: AttrValue::U8(10) }];

fn point(y_name: &'static str) -> Vec<Field> {
    vec![
        Field { name: "x", layout: Layout::GatherInteger { offset: 0, size: 4, signed: true }, attributes: &[] },
        Field { name: y_name, layout: Layout::GatherInteger { offset: 4, size: 4, signed: true }, attributes: &[] },
    ]
}

#[test]
fn strings_compare_by_their_bytes() {
    assert!(str_eq("abc", "abc"));
    assert!(!str_eq("abc", "abd"));
    assert!(!str_eq("abc", "ab"));
    assert!(str_eq("", ""));
}

#[test]
fn attribute_values_compare_by_type_and_value() {
    assert!(attr_value_eq(&AttrValue::U8(1), &AttrValue::U8(1)));
    assert!(!attr_value_eq(&AttrValue::U8(1), &AttrValue::U16(1)));
    assert!(!attr_value_eq(&AttrValue::S64(-1), &AttrValue::S64(1)));
    assert!(attr_value_eq(&AttrValue::String("a"), &AttrValue::String("a")));
    assert!(attr_value_eq(&AttrValue::Null, &AttrValue::Null));
    assert!(attrs_eq(&HEX, &HEX));
    assert!(!attrs_eq(&HEX, &DEC));
    assert!(!attrs_eq(&HEX, &[]));
}

#[test]
fn two_structures_described_the_same_way_are_the_same() {
    assert!(fields_eq(&point("y"), &point("y")));
    assert!(!fields_eq(&point("y"), &point("z")));
    let a = Layout::GatherArray { offset: 8, length: 2, elem: Box::new(struct_element(point("y"), 8)) };
    let b = Layout::GatherArray { offset: 8, length: 2, elem: Box::new(struct_element(point("y"), 8)) };
    let c = Layout::GatherArray { offset: 8, length: 3, elem: Box::new(struct_element(point("y"), 8)) };
    assert!(layout_eq(&a, &b));
    assert!(!layout_eq(&a, &c));
    let s1 = Layout::GatherStruct { offset: 0, size: 8, access: SIDE_TYPE_GATHER_ACCESS_DIRECT, fields: point("y") };
    let s2 = Layout::GatherStruct { offset: 0, size: 8, access: SIDE_TYPE_GATHER_ACCESS_DIRECT, fields: point("z") };
    assert!(!layout_eq(&s1, &s2));
    assert!(!layout_eq(&Layout::Bool, &Layout::String));
    assert!(layout_eq(&Layout::Integer { size: 2, signed: true }, &Layout::Integer { size: 2, signed: true }));
}
