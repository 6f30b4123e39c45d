use libside::abi::{SIDE_LOGLEVEL_INFO, SIDE_TYPE_BYTE_ORDER_BE, SIDE_TYPE_BYTE_ORDER_LE, SIDE_TYPE_GATHER_ACCESS_DIRECT};
use libside::builder::build_group_for;
use libside::bytes::host_byte_order;
use libside::measure::group_size;
use libside::model::{EventSpec, Field, Layout};

fn point_fields() -> Vec<Field> {
    vec![
        Field { name: "x", layout: Layout::GatherInteger { offset: 0, size: 4, signed: true }, attributes: &[] },
        Field { name: "y", layout: Layout::GatherInteger { offset: 4, size: 4, signed: true }, attributes: &[] },
    ]
}

fn event(name: &'static str, offset: u64) -> EventSpec {
    EventSpec {
        provider: "geo",
        event: name,
        loglevel: SIDE_LOGLEVEL_INFO,
        flags: 7,
        fields: vec![Field {
            name: "at",
            layout: Layout::GatherStruct { offset, size: 8, access: SIDE_TYPE_GATHER_ACCESS_DIRECT, fields: point_fields() },
            attributes: &[],
        }],
        attributes: &[],
    }
}

fn rel_le(b: &[u8], at: usize) -> usize {
    (at as i64 + i64::from_le_bytes(b[at..at + 8].try_into().unwrap())) as usize
}

fn rel_be(b: &[u8], at: usize) -> usize {
    (at as i64 + i64::from_be_bytes(b[at..at + 8].try_into().unwrap())) as usize
}

/// Where the `side_type_struct` the first field of event `i` reaches is.
fn struct_of_first_field(b: &[u8], i: usize, rel: fn(&[u8], usize) -> usize) -> usize {
    let array = rel(b, i * 64 + 24);
    let type_ = array + 8;
    /* A selector pointer holding a distance says so in its last byte. */
    assert_eq!(b[type_ + 2 + 16], 1);
    rel(b, type_ + 2)
}

#[test]
fn a_structure_two_events_use_is_laid_out_once() {
    let events = vec![event("first", 0), event("second", 16)];
    let alone = group_size(&[event("first", 0)]);
    let together = group_size(&events);
    /* The second event costs its own description and names, no structure. */
    assert_eq!(alone, 64 + 4 + 6 + 72 + 3 + 24 + 2 * 72 + 2 + 2);
    assert_eq!(together, alone + 64 + 4 + 7 + 72 + 3);
    let built = build_group_for::<471, 0>(&events, SIDE_TYPE_BYTE_ORDER_LE);
    let b = &built.bytes;
    let s0 = struct_of_first_field(b, 0, rel_le);
    let s1 = struct_of_first_field(b, 1, rel_le);
    assert_eq!(s0, s1);
    /* Each use keeps its own offset. */
    let t1 = rel_le(b, 64 + 24) + 8;
    assert_eq!(&b[t1 + 2 + 17..t1 + 2 + 25], &16u64.to_le_bytes());
}

#[test]
fn big_endian_group_says_the_same_in_the_other_order() {
    let events = vec![event("first", 0), event("second", 16)];
    let le = build_group_for::<471, 0>(&events, SIDE_TYPE_BYTE_ORDER_LE);
    let be = build_group_for::<471, 0>(&events, SIDE_TYPE_BYTE_ORDER_BE);
    assert_eq!(&be.bytes[0..4], &[0, 0, 0, 64]);
    assert_eq!(&be.bytes[48..56], &7u64.to_be_bytes());
    assert_eq!(&le.bytes[48..56], &7u64.to_le_bytes());
    /* Everything lands in the same place either way. */
    assert_eq!(struct_of_first_field(&be.bytes, 1, rel_be), struct_of_first_field(&le.bytes, 1, rel_le));
    /* The names are the same bytes. */
    let at = rel_be(&be.bytes, 8);
    assert_eq!(&be.bytes[at..at + 4], b"geo\0");
}

#[test]
fn host_byte_order_is_the_machines() {
    let little = u16::from_ne_bytes([1, 0]) == 1;
    assert_eq!(host_byte_order(), if little { 0 } else { 1 });
}
