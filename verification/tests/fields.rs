use libside::abi::{
    SIDE_LOGLEVEL_INFO, SIDE_TYPE_BOOL, SIDE_TYPE_BYTE_ORDER_BE, SIDE_TYPE_BYTE_ORDER_LE, SIDE_TYPE_GATHER_ACCESS_DIRECT,
    SIDE_TYPE_GATHER_ARRAY, SIDE_TYPE_GATHER_STRUCT, SIDE_TYPE_GATHER_VLA, SIDE_TYPE_POINTER, SIDE_TYPE_S16,
    SIDE_TYPE_STRING_UTF8, SIDE_TYPE_U64,
};
use libside::builder::build_group_for;
use libside::measure::group_size;
use libside::model::{struct_element, EventSpec, Field, Layout};

fn sample() -> Vec<EventSpec> {
    let point = || {
        vec![
            Field { name: "x", layout: Layout::GatherInteger { offset: 0, size: 2, signed: true }, attributes: &[] },
            Field { name: "y", layout: Layout::GatherInteger { offset: 2, size: 2, signed: true }, attributes: &[] },
        ]
    };
    vec![
        EventSpec {
            provider: "prov",
            event: "first",
            loglevel: SIDE_LOGLEVEL_INFO,
            flags: 0,
            fields: vec![
                Field { name: "flag", layout: Layout::Bool, attributes: &[] },
                Field { name: "count", layout: Layout::Integer { size: 8, signed: false }, attributes: &[] },
                Field { name: "delta", layout: Layout::Integer { size: 2, signed: true }, attributes: &[] },
                Field { name: "ptr", layout: Layout::Pointer, attributes: &[] },
                Field { name: "text", layout: Layout::String, attributes: &[] },
            ],
            attributes: &[],
        },
        EventSpec {
            provider: "prov",
            event: "second",
            loglevel: SIDE_LOGLEVEL_INFO,
            flags: 0,
            fields: vec![
                Field {
                    name: "at",
                    layout: Layout::GatherStruct { offset: 0, size: 4, access: SIDE_TYPE_GATHER_ACCESS_DIRECT, fields: point() },
                    attributes: &[],
                },
                Field {
                    name: "trail",
                    layout: Layout::GatherArray { offset: 4, length: 3, elem: Box::new(struct_element(point(), 4)) },
                    attributes: &[],
                },
                Field {
                    name: "more",
                    layout: Layout::GatherVla { offset: 16, len_offset: 24, elem: Box::new(struct_element(point(), 4)) },
                    attributes: &[],
                },
            ],
            attributes: &[],
        },
    ]
}

fn rel(b: &[u8], at: usize, big: bool) -> usize {
    let bytes: [u8; 8] = b[at..at + 8].try_into().unwrap();
    let d = if big { i64::from_be_bytes(bytes) } else { i64::from_le_bytes(bytes) };
    (at as i64 + d) as usize
}

fn label(b: &[u8], at: usize, big: bool) -> u16 {
    if big {
        u16::from_be_bytes([b[at], b[at + 1]])
    } else {
        u16::from_le_bytes([b[at], b[at + 1]])
    }
}

fn check(b: &[u8], events: &[EventSpec], big: bool) {
    let labels: [&[u16]; 2] = [
        &[SIDE_TYPE_BOOL, SIDE_TYPE_U64, SIDE_TYPE_S16, SIDE_TYPE_POINTER, SIDE_TYPE_STRING_UTF8],
        &[SIDE_TYPE_GATHER_STRUCT, SIDE_TYPE_GATHER_ARRAY, SIDE_TYPE_GATHER_VLA],
    ];
    for (i, e) in events.iter().enumerate() {
        let array = rel(b, i * 64 + 24, big);
        for (j, f) in e.fields.iter().enumerate() {
            let entry = array + j * 72;
            let name = rel(b, entry, big);
            assert_eq!(&b[name..name + f.name.len()], f.name.as_bytes());
            assert_eq!(b[name + f.name.len()], 0);
            assert_eq!(label(b, entry + 8, big), labels[i][j]);
        }
    }
}

#[test]
fn every_field_is_named_and_labelled_in_either_order() {
    let events = sample();
    let n = group_size(&events);
    assert_eq!(n, 1131);
    let le = build_group_for::<1131, 0>(&events, SIDE_TYPE_BYTE_ORDER_LE);
    check(&le.bytes, &events, false);
    let be = build_group_for::<1131, 0>(&events, SIDE_TYPE_BYTE_ORDER_BE);
    check(&be.bytes, &events, true);
}

#[test]
fn each_use_of_a_shared_structure_says_its_own_offset_and_size() {
    let point = || {
        vec![
            Field { name: "x", layout: Layout::GatherInteger { offset: 0, size: 2, signed: true }, attributes: &[] },
            Field { name: "y", layout: Layout::GatherInteger { offset: 2, size: 2, signed: true }, attributes: &[] },
        ]
    };
    let events = vec![EventSpec {
        provider: "prov",
        event: "segment",
        loglevel: SIDE_LOGLEVEL_INFO,
        flags: 0,
        fields: vec![
            Field {
                name: "from",
                layout: Layout::GatherStruct { offset: 0, size: 4, access: SIDE_TYPE_GATHER_ACCESS_DIRECT, fields: point() },
                attributes: &[],
            },
            Field {
                name: "to",
                layout: Layout::GatherStruct { offset: 8, size: 4, access: SIDE_TYPE_GATHER_ACCESS_DIRECT, fields: point() },
                attributes: &[],
            },
        ],
        attributes: &[],
    }];
    let n = group_size(&events);
    assert_eq!(n, 64 + 5 + 8 + 2 * 72 + 5 + 3 + 24 + 2 * 72 + 2 + 2);
    let built = build_group_for::<401, 0>(&events, SIDE_TYPE_BYTE_ORDER_LE);
    let b = &built.bytes;
    let array = rel(b, 24, false);
    let mut shared = Vec::new();
    for (j, offset) in [0u64, 8].iter().enumerate() {
        let u = array + j * 72 + 8 + 2;
        assert_eq!(&b[u + 17..u + 25], &offset.to_le_bytes());
        assert_eq!(b[u + 25], SIDE_TYPE_GATHER_ACCESS_DIRECT);
        assert_eq!(&b[u + 26..u + 30], &4u32.to_le_bytes());
        shared.push(rel(b, u, false));
    }
    /* Both uses reach the one description of the structure. */
    assert_eq!(shared[0], shared[1]);
}
