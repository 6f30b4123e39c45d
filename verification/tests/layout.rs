use libside::bytes::{byte_order_from_probe, host_byte_order};
use libside::abi::{SIDE_LOGLEVEL_INFO, SIDE_TYPE_BYTE_ORDER_BE, SIDE_TYPE_BYTE_ORDER_LE, SIDE_TYPE_U32};
use libside::builder::build_group_for;
use libside::measure::group_size;
use libside::model::{EventSpec, Field, Layout};

fn one_u32_event() -> Vec<EventSpec> {
    vec![EventSpec {
        provider: "p",
        event: "e",
        loglevel: SIDE_LOGLEVEL_INFO,
        flags: 0,
        fields: vec![Field {
            name: "count",
            layout: Layout::Integer { size: 4, signed: false },
            attributes: &[],
        }],
        attributes: &[],
    }]
}

#[test]
fn one_event_is_laid_out_as_measured() {
    let events = one_u32_event();
    assert_eq!(group_size(&events), 146);
    let built = build_group_for::<146, 0>(&events, SIDE_TYPE_BYTE_ORDER_LE);
    let b = &built.bytes;
    assert_eq!(&b[0..4], &[64, 0, 0, 0]);
    assert_eq!(b[8], 56);
    assert_eq!(b[16], 50);
    assert_eq!(b[24], 44);
    assert_eq!(b[32], 1);
    assert_eq!(b[56], 48);
    assert_eq!(b[58], 17);
    assert_eq!(b[60], SIDE_LOGLEVEL_INFO as u8);
    assert_eq!(&b[64..68], b"p\0e\0");
    assert_eq!(b[68], 72);
    assert_eq!(b[76] as u16, SIDE_TYPE_U32);
    assert_eq!(b[99], 4);
    assert_eq!(&b[140..146], b"count\0");
}

#[test]
fn the_byte_order_is_told_from_how_one_is_written() {
    assert_eq!(byte_order_from_probe([1, 0]), SIDE_TYPE_BYTE_ORDER_LE);
    assert_eq!(byte_order_from_probe([0, 1]), SIDE_TYPE_BYTE_ORDER_BE);
    assert_eq!(host_byte_order(), byte_order_from_probe(1u16.to_ne_bytes()));
}
