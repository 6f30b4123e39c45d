use libside::abi::{
    SIDE_ATTR_TYPE_BOOL, SIDE_ATTR_TYPE_NULL, SIDE_ATTR_TYPE_S16, SIDE_ATTR_TYPE_S32, SIDE_ATTR_TYPE_S64,
    SIDE_ATTR_TYPE_S8, SIDE_ATTR_TYPE_STRING, SIDE_ATTR_TYPE_U16, SIDE_ATTR_TYPE_U32, SIDE_ATTR_TYPE_U64,
    SIDE_ATTR_TYPE_U8, SIDE_LOGLEVEL_WARNING, SIDE_TYPE_BYTE_ORDER_LE,
};
use libside::builder::build_group_for;
use libside::measure::{attrs_size, group_size};
use libside::model::{
    side_attr, side_attr_bool, side_attr_null, side_attr_s16, side_attr_s32, side_attr_s64, side_attr_s8,
    side_attr_string, side_attr_u16, side_attr_u32, side_attr_u64, side_attr_u8, Attr, AttrValue, EventSpec,
    Field, Layout,
};

const EVENT_ATTRS: [Attr; 11] = [
    Attr { key: "n", value: AttrValue::Null },
    Attr { key: "b", value: AttrValue::Bool(true) },
    Attr { key: "u8", value: AttrValue::U8(0xab) },
    Attr { key: "u16", value: AttrValue::U16(0xabcd) },
    Attr { key: "u32", value: AttrValue::U32(0x0102_0304) },
    Attr { key: "u64", value: AttrValue::U64(0x0102_0304_0506_0708) },
    Attr { key: "s8", value: AttrValue::S8(-2) },
    Attr { key: "s16", value: AttrValue::S16(-3) },
    Attr { key: "s32", value: AttrValue::S32(-4) },
    Attr { key: "s64", value: AttrValue::S64(-5) },
    Attr { key: "s", value: AttrValue::String("hi") },
];

const BASE: [Attr; 1] = [Attr { key: "std.integer.base", value: AttrValue::U8(16) }];

fn rel_le(b: &[u8], at: usize) -> usize {
    (at as i64 + i64::from_le_bytes(b[at..at + 8].try_into().unwrap())) as usize
}

#[test]
fn attribute_constructors_build_what_they_name() {
    assert!(matches!(side_attr_null(), AttrValue::Null));
    assert!(matches!(side_attr_bool(true), AttrValue::Bool(true)));
    assert!(matches!(side_attr_u8(7), AttrValue::U8(7)));
    assert!(matches!(side_attr_u16(7), AttrValue::U16(7)));
    assert!(matches!(side_attr_u32(7), AttrValue::U32(7)));
    assert!(matches!(side_attr_u64(7), AttrValue::U64(7)));
    assert!(matches!(side_attr_s8(-7), AttrValue::S8(-7)));
    assert!(matches!(side_attr_s16(-7), AttrValue::S16(-7)));
    assert!(matches!(side_attr_s32(-7), AttrValue::S32(-7)));
    assert!(matches!(side_attr_s64(-7), AttrValue::S64(-7)));
    assert!(matches!(side_attr_string("x"), AttrValue::String("x")));
    let a = side_attr("k", side_attr_u8(3));
    assert_eq!(a.key, "k");
    assert!(matches!(a.value, AttrValue::U8(3)));
}

#[test]
fn attribute_list_takes_its_entries_keys_and_strings() {
    /* 11 entries of 55 bytes, the keys and their nuls, and "hi\0". */
    let keys = 2 + 2 + 3 + 4 + 4 + 4 + 3 + 4 + 4 + 4 + 2;
    assert_eq!(attrs_size(&EVENT_ATTRS), 11 * 55 + keys + 3);
    assert_eq!(attrs_size(&[]), 0);
}

#[test]
fn every_attribute_value_is_written_with_its_type() {
    let events = vec![EventSpec {
        provider: "p",
        event: "e",
        loglevel: SIDE_LOGLEVEL_WARNING,
        flags: 0,
        fields: vec![Field { name: "code", layout: Layout::Integer { size: 4, signed: false }, attributes: &BASE }],
        attributes: &EVENT_ATTRS,
    }];
    let n = group_size(&events);
    assert_eq!(n, 64 + 4 + 72 + 5 + (55 + 17) + (11 * 55 + 36 + 3));
    let built = build_group_for::<861, 0>(&events, SIDE_TYPE_BYTE_ORDER_LE);
    let b = &built.bytes;
    assert_eq!(&b[44..48], &11u32.to_le_bytes());
    let array = rel_le(b, 36);
    let expect: [(u32, &[u8]); 11] = [
        (SIDE_ATTR_TYPE_NULL, &[]),
        (SIDE_ATTR_TYPE_BOOL, &[1]),
        (SIDE_ATTR_TYPE_U8, &[0xab]),
        (SIDE_ATTR_TYPE_U16, &[0xcd, 0xab]),
        (SIDE_ATTR_TYPE_U32, &[4, 3, 2, 1]),
        (SIDE_ATTR_TYPE_U64, &[8, 7, 6, 5, 4, 3, 2, 1]),
        (SIDE_ATTR_TYPE_S8, &[0xfe]),
        (SIDE_ATTR_TYPE_S16, &[0xfd, 0xff]),
        (SIDE_ATTR_TYPE_S32, &[0xfc, 0xff, 0xff, 0xff]),
        (SIDE_ATTR_TYPE_S64, &[0xfb, 0xff, 0xff, 0xff, 0xff, 0xff, 0xff, 0xff]),
        (SIDE_ATTR_TYPE_STRING, &[]),
    ];
    for (k, (ty, value)) in expect.iter().enumerate() {
        let entry = array + k * 55;
        let key = rel_le(b, entry);
        let name = EVENT_ATTRS[k].key.as_bytes();
        assert_eq!(&b[key..key + name.len()], name);
        assert_eq!(b[key + name.len()], 0);
        /* The key is a string of one byte units, in the description's order. */
        assert_eq!(b[entry + 16], 1);
        assert_eq!(b[entry + 17], 1);
        assert_eq!(&b[entry + 19..entry + 23], &ty.to_le_bytes());
        assert_eq!(&b[entry + 23..entry + 23 + value.len()], *value);
    }
    let last = array + 10 * 55 + 23;
    let s = rel_le(b, last);
    assert_eq!(&b[s..s + 3], b"hi\0");
    /* The field's type carries its own attribute list. */
    let fields = rel_le(b, 24);
    let attrs = rel_le(b, fields + 8 + 2);
    assert_eq!(b[fields + 8 + 2 + 16], 1);
    assert_eq!(&b[fields + 8 + 2 + 17..fields + 8 + 2 + 21], &1u32.to_le_bytes());
    assert_eq!(&b[attrs + 19..attrs + 23], &SIDE_ATTR_TYPE_U8.to_le_bytes());
    assert_eq!(b[attrs + 23], 16);
}
