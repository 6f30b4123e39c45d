use libside::abi::{SIDE_LOGLEVEL_DEBUG, SIDE_LOGLEVEL_INFO, SIDE_TYPE_BYTE_ORDER_LE};
use libside::builder::build_group_for;
use libside::measure::{event_offset, group_size, type_size};
use libside::model::{struct_element, EventSpec, Field, Layout};
use libside::abi::SIDE_TYPE_GATHER_ACCESS_DIRECT;

fn thread_fields() -> Vec<Field> {
    vec![
        Field { name: "id", layout: Layout::GatherInteger { offset: 0, size: 4, signed: false }, attributes: &[] },
        Field { name: "prio", layout: Layout::GatherInteger { offset: 4, size: 4, signed: true }, attributes: &[] },
        Field { name: "running", layout: Layout::GatherBool { offset: 8, size: 1 }, attributes: &[] },
    ]
}

fn process_fields() -> Vec<Field> {
    vec![
        Field { name: "pid", layout: Layout::GatherInteger { offset: 0, size: 4, signed: false }, attributes: &[] },
        Field { name: "ppid", layout: Layout::GatherInteger { offset: 4, size: 4, signed: false }, attributes: &[] },
        Field { name: "nice", layout: Layout::GatherInteger { offset: 8, size: 4, signed: true }, attributes: &[] },
        Field { name: "alive", layout: Layout::GatherBool { offset: 12, size: 1 }, attributes: &[] },
        Field {
            name: "main_thread",
            layout: Layout::GatherStruct {
                offset: 16,
                size: 12,
                access: SIDE_TYPE_GATHER_ACCESS_DIRECT,
                fields: thread_fields(),
            },
            attributes: &[],
        },
        Field {
            name: "threads",
            layout: Layout::GatherArray {
                offset: 28,
                length: 4,
                elem: Box::new(struct_element(thread_fields(), 12)),
            },
            attributes: &[],
        },
    ]
}

fn process_ref() -> Layout {
    Layout::GatherStruct { offset: 0, size: 76, access: SIDE_TYPE_GATHER_ACCESS_DIRECT, fields: process_fields() }
}

fn thread_ref() -> Layout {
    Layout::GatherStruct { offset: 0, size: 12, access: SIDE_TYPE_GATHER_ACCESS_DIRECT, fields: thread_fields() }
}

fn started() -> EventSpec {
    EventSpec {
        provider: "rust",
        event: "process_started",
        loglevel: SIDE_LOGLEVEL_INFO,
        flags: 0,
        fields: vec![
            Field { name: "seq", layout: Layout::Integer { size: 4, signed: false }, attributes: &[] },
            Field { name: "process", layout: process_ref(), attributes: &[] },
        ],
        attributes: &[],
    }
}

fn exited() -> EventSpec {
    EventSpec {
        provider: "rust",
        event: "process_exited",
        loglevel: SIDE_LOGLEVEL_INFO,
        flags: 0,
        fields: vec![
            Field { name: "status", layout: Layout::Integer { size: 4, signed: true }, attributes: &[] },
            Field { name: "process", layout: process_ref(), attributes: &[] },
        ],
        attributes: &[],
    }
}

fn switched() -> EventSpec {
    EventSpec {
        provider: "rust",
        event: "thread_switched",
        loglevel: SIDE_LOGLEVEL_DEBUG,
        flags: 0,
        fields: vec![
            Field { name: "from", layout: thread_ref(), attributes: &[] },
            Field { name: "to", layout: thread_ref(), attributes: &[] },
        ],
        attributes: &[],
    }
}

/// What a description object occupies in its section, which aligns
/// each to 16 bytes.
fn in_section(size: usize) -> usize {
    (size + 15) / 16 * 16
}

#[test]
fn provider_group_is_smaller_than_its_events_apart() {
    assert_eq!(group_size(&[started()]), 1057);
    assert_eq!(group_size(&[exited()]), 1059);
    assert_eq!(group_size(&[switched()]), 493);
    let apart = in_section(group_size(&[started()]))
        + in_section(group_size(&[exited()]))
        + in_section(group_size(&[switched()]));
    let together = group_size(&[started(), exited(), switched()]);
    assert_eq!(together, 1537);
    assert_eq!(apart, 2640);
    assert_eq!(in_section(together), 1552);
}

#[test]
fn provider_group_describes_each_event_at_its_offset() {
    let events = vec![started(), exited(), switched()];
    let built = build_group_for::<1537, 0>(&events, SIDE_TYPE_BYTE_ORDER_LE);
    let b = &built.bytes;
    for (i, e) in events.iter().enumerate() {
        let d = event_offset(i);
        assert_eq!(d, i * 64);
        assert_eq!(&b[d..d + 4], &[64, 0, 0, 0]);
        assert_eq!(&b[d + 60..d + 64], &e.loglevel.to_le_bytes());
        let rel = i64::from_le_bytes(b[d + 16..d + 24].try_into().unwrap());
        let at = (d as i64 + 16 + rel) as usize;
        let name = e.event.as_bytes();
        assert_eq!(&b[at..at + name.len()], name);
        assert_eq!(b[at + name.len()], 0);
        assert_eq!(&b[d + 32..d + 36], &(e.fields.len() as u32).to_le_bytes());
    }
}

#[test]
fn grouping_never_costs_more_than_the_events_apart() {
    let alone = group_size(&[started()]) + group_size(&[exited()]) + group_size(&[switched()]);
    assert_eq!(alone, 2609);
    for events in [
        vec![started(), exited(), switched()],
        vec![switched(), exited(), started()],
        vec![exited(), switched()],
    ] {
        let apart: usize = events.iter().map(|e| group_size(&[clone_event(e)])).sum();
        assert!(group_size(&events) <= apart);
    }
    /* The same event twice lays its structures out once: the second
     * takes its description (64), its two names (5 + 16), its field
     * array (2 * 72) and the names of its fields (4 + 8). */
    assert_eq!(group_size(&[started(), started()]), 1057 + 241);
}

fn clone_event(e: &EventSpec) -> EventSpec {
    match e.event {
        "process_started" => started(),
        "process_exited" => exited(),
        _ => switched(),
    }
}

#[test]
fn events_without_structures_take_the_same_room_grouped() {
    let scalar = |name: &'static str| EventSpec {
        provider: "rust",
        event: name,
        loglevel: SIDE_LOGLEVEL_INFO,
        flags: 0,
        fields: vec![
            Field { name: "seq", layout: Layout::Integer { size: 4, signed: false }, attributes: &[] },
            Field {
                name: "bytes",
                layout: Layout::GatherArray { offset: 0, length: 4, elem: Box::new(Layout::GatherInteger { offset: 0, size: 1, signed: false }) },
                attributes: &[],
            },
        ],
        attributes: &[],
    };
    let a = group_size(&[scalar("a")]);
    let b = group_size(&[scalar("bb")]);
    assert_eq!(group_size(&[scalar("a"), scalar("bb")]), a + b);
}

#[test]
fn two_events_sharing_a_structure_take_strictly_less_grouped() {
    /* The thread structure, laid out once: its 24 byte head, three field
     * entries and their names "id", "prio" and "running". */
    assert_eq!(
        group_size(&[started(), switched()]),
        group_size(&[started()]) + group_size(&[switched()]) - (24 + 3 * 72 + 3 + 5 + 8)
    );
    assert!(group_size(&[started(), exited()]) < group_size(&[started()]) + group_size(&[exited()]));
}

#[test]
fn a_structure_alone_takes_what_an_event_of_it_lays_out() {
    let event = EventSpec {
        provider: "rust",
        event: "process",
        loglevel: SIDE_LOGLEVEL_INFO,
        flags: 0,
        fields: vec![Field { name: "process", layout: process_ref(), attributes: &[] }],
        attributes: &[],
    };
    assert_eq!(
        group_size(&[event]),
        64 + 5 + 8 + 72 + 8 + type_size(&process_fields(), 76)
    );
}
