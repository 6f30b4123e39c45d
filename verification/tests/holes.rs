use libside::abi::{PATCH_WIDTH, SIDE_LOGLEVEL_INFO, SIDE_TYPE_BYTE_ORDER_LE, SIDE_TYPE_GATHER_ACCESS_DIRECT, SIDE_TYPE_GATHER_STRUCT, SIDE_TYPE_U8};
use libside::builder::{build_group_for, build_type_for};
use libside::bytes::description_run;
use libside::measure::{group_size, type_size};
use libside::model::{EventSpec, Field, Layout};

fn reference(target: usize) -> Layout {
    Layout::ExternStruct { offset: 0, size: 12, access: SIDE_TYPE_GATHER_ACCESS_DIRECT, target }
}

fn events() -> Vec<EventSpec> {
    vec![
        EventSpec {
            provider: "p",
            event: "a",
            loglevel: SIDE_LOGLEVEL_INFO,
            flags: 0,
            fields: vec![
                Field { name: "n", layout: Layout::Integer { size: 1, signed: false }, attributes: &[] },
                Field { name: "one", layout: reference(0), attributes: &[] },
            ],
            attributes: &[],
        },
        EventSpec {
            provider: "p",
            event: "b",
            loglevel: SIDE_LOGLEVEL_INFO,
            flags: 0,
            fields: vec![
                Field { name: "two", layout: reference(1), attributes: &[] },
                Field { name: "again", layout: reference(0), attributes: &[] },
            ],
            attributes: &[],
        },
    ]
}

fn rel_le(b: &[u8], at: usize) -> usize {
    (at as i64 + i64::from_le_bytes(b[at..at + 8].try_into().unwrap())) as usize
}

#[test]
fn one_hole_per_reference_in_the_order_written() {
    let events = events();
    let n = group_size(&events);
    assert_eq!(n, 2 * 64 + 2 * (2 + 2) + 2 * 72 + 2 + 4 + 2 * 72 + 4 + 6);
    let built = build_group_for::<440, 3>(&events, SIDE_TYPE_BYTE_ORDER_LE);
    let b = &built.bytes;
    let a0 = rel_le(b, 24);
    let a1 = rel_le(b, 64 + 24);
    let holes: Vec<usize> = built.patches.iter().map(|p| p.at).collect();
    assert_eq!(holes, vec![a0 + 72 + 10, a1 + 10, a1 + 72 + 10]);
    for w in holes.windows(2) {
        assert!(w[0] + PATCH_WIDTH <= w[1]);
    }
    for &h in &holes {
        /* The address and the selector byte are left zero: an address. */
        assert!(b[h..h + PATCH_WIDTH + 1].iter().all(|&x| x == 0));
        assert!(h + PATCH_WIDTH <= n);
        assert_eq!(u16::from_le_bytes([b[h - 2], b[h - 1]]), SIDE_TYPE_GATHER_STRUCT);
    }
    /* The integer before the first reference is described in place. */
    assert_eq!(u16::from_le_bytes([b[a0 + 8], b[a0 + 9]]), SIDE_TYPE_U8);
}

#[test]
fn the_runs_between_holes_rebuild_the_description() {
    let events = events();
    let built = build_group_for::<440, 3>(&events, SIDE_TYPE_BYTE_ORDER_LE);
    let h: Vec<usize> = built.patches.iter().map(|p| p.at).collect();
    let mut whole: Vec<u8> = Vec::new();
    let run0: [u8; 214] = description_run(&built.bytes, 0);
    assert_eq!(h[0], 214);
    whole.extend_from_slice(&run0);
    whole.extend_from_slice(&[0u8; 16]);
    let run1 = &built.bytes[h[0] + 16..h[1]];
    whole.extend_from_slice(run1);
    whole.extend_from_slice(&[0u8; 16]);
    whole.extend_from_slice(&built.bytes[h[1] + 16..h[2]]);
    whole.extend_from_slice(&[0u8; 16]);
    whole.extend_from_slice(&built.bytes[h[2] + 16..]);
    assert_eq!(whole.as_slice(), &built.bytes[..]);
}

#[test]
fn a_structure_on_its_own_begins_with_its_struct_type() {
    let fields = vec![
        Field { name: "id", layout: Layout::GatherInteger { offset: 0, size: 4, signed: false }, attributes: &[] },
        Field { name: "next", layout: reference(0), attributes: &[] },
    ];
    let n = type_size(&fields, 12);
    assert_eq!(n, 24 + 2 * 72 + 3 + 5);
    let built = build_type_for::<176, 1>(&fields, 12, SIDE_TYPE_BYTE_ORDER_LE);
    let b = &built.bytes;
    assert_eq!(rel_le(b, 0), 24);
    assert_eq!(&b[8..12], &2u32.to_le_bytes());
    assert_eq!(built.patches[0].at, 24 + 72 + 10);
    let name = rel_le(b, 24);
    assert_eq!(&b[name..name + 3], b"id\0");
}

#[test]
fn an_empty_run_is_taken_from_anywhere() {
    let bytes = [1u8, 2, 3];
    let run: [u8; 0] = description_run(&bytes, 7);
    assert_eq!(run.len(), 0);
    let last: [u8; 1] = description_run(&bytes, 2);
    assert_eq!(last, [3]);
}

#[test]
fn a_reference_inside_a_structure_leaves_a_whole_hole() {
    let inner = vec![
        Field { name: "id", layout: Layout::GatherInteger { offset: 0, size: 4, signed: false }, attributes: &[] },
        Field { name: "owner", layout: reference(0), attributes: &[] },
    ];
    let events = vec![EventSpec {
        provider: "p",
        event: "nested",
        loglevel: SIDE_LOGLEVEL_INFO,
        flags: 0,
        fields: vec![
            Field {
                name: "item",
                layout: Layout::GatherStruct { offset: 0, size: 16, access: SIDE_TYPE_GATHER_ACCESS_DIRECT, fields: inner },
                attributes: &[],
            },
            Field { name: "top", layout: reference(1), attributes: &[] },
        ],
        attributes: &[],
    }];
    let n = group_size(&events);
    assert_eq!(n, 64 + 2 + 7 + 2 * 72 + 5 + 24 + 2 * 72 + 3 + 6 + 4);
    let built = build_group_for::<403, 2>(&events, SIDE_TYPE_BYTE_ORDER_LE);
    let b = &built.bytes;
    let holes: Vec<usize> = built.patches.iter().map(|p| p.at).collect();
    assert_eq!(holes.len(), 2);
    for &h in &holes {
        assert!(h >= 2 && h + PATCH_WIDTH + 1 <= n);
        assert!(b[h..h + PATCH_WIDTH + 1].iter().all(|&x| x == 0));
        assert_eq!(u16::from_le_bytes([b[h - 2], b[h - 1]]), SIDE_TYPE_GATHER_STRUCT);
    }
}
