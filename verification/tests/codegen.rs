use libside::codegen::{
    argument_type, description_object, is_primitive, member_layout, nested_struct_layout, vec_element_type,
    with_side_args, Event, EventField, FieldKind, GroupStatedump,
};
use libside::gather::gather_text;
use libside::group::{extern_uses, first_mentioned, group_body, group_statedump, statedump_settings};

fn s(x: &str) -> String {
    x.to_string()
}

#[test]
fn vector_element_types() {
    assert_eq!(vec_element_type("Vec<u32>"), Some(s("u32")));
    assert_eq!(vec_element_type("Vec < u32 >"), Some(s("u32")));
    assert_eq!(vec_element_type("Vec<Vec<u8>>"), Some(s("Vec<u8>")));
    assert_eq!(vec_element_type("Vec<>"), Some(s("")));
    assert_eq!(vec_element_type("Vec<"), None);
    assert_eq!(vec_element_type("u32"), None);
}

#[test]
fn primitive_member_types() {
    for t in ["bool", "u8", "u16", "u32", "u64", "i8", "i16", "i32", "i64"] {
        assert!(is_primitive(t));
    }
    for t in ["usize", "f32", "u128", "Point", "u 8", ""] {
        assert!(!is_primitive(t));
    }
}

#[test]
fn member_layouts() {
    assert_eq!(
        member_layout("S", "v", "::libside::side::SideVla<u32>", "OFF"),
        Ok(s("::libside::side::Layout::GatherVla { offset: OFF, len_offset: ::core::mem::offset_of!(S, v) as u64 + ::core::mem::offset_of!(::libside::side::SideVla<u32>, len) as u64, elem: <u32 as ::libside::side::GatherType>::ELEMENT }"))
    );
    assert_eq!(
        member_layout("S", "a", "[Point; 4]", "OFF"),
        Ok(s("::libside::side::Layout::GatherArray { offset: OFF, length: ( 4) as u32, elem: <Point as ::libside::side::GatherType>::ELEMENT }"))
    );
    assert_eq!(member_layout("S", "a", "[u8]", "OFF"), Err(s("SIDE arrays require an element type and length")));
    assert_eq!(member_layout("S", "b", "bool", "OFF"), Ok(s("::libside::side::Layout::GatherBool { offset: OFF, size: 1 }")));
    assert_eq!(
        member_layout("S", "i", "i16", "OFF"),
        Ok(s("::libside::side::Layout::GatherInteger { offset: OFF, size: 2, signed: true }"))
    );
    assert_eq!(
        member_layout("S", "u", "u64", "OFF"),
        Ok(s("::libside::side::Layout::GatherInteger { offset: OFF, size: 8, signed: false }"))
    );
    assert_eq!(
        member_layout("S", "p", "Point", "OFF"),
        Ok(s("::libside::side::Layout::GatherStruct { offset: OFF, size: <Point as ::libside::side::GatherType>::SIZE, access: ::libside::side::SIDE_TYPE_GATHER_ACCESS_DIRECT, fields: <Point as ::libside::side::GatherType>::FIELDS }"))
    );
}

#[test]
fn nested_structures_in_place_and_by_reference() {
    assert_eq!(
        nested_struct_layout("& 'static Point", "OFF"),
        Ok(s("::libside::side::Layout::GatherStruct { offset: OFF, size: <Point as ::libside::side::GatherType>::SIZE, access: ::libside::side::SIDE_TYPE_GATHER_ACCESS_POINTER, fields: <Point as ::libside::side::GatherType>::FIELDS }"))
    );
    assert_eq!(
        nested_struct_layout("&Point", "0"),
        Ok(s("::libside::side::Layout::GatherStruct { offset: 0, size: <Point as ::libside::side::GatherType>::SIZE, access: ::libside::side::SIDE_TYPE_GATHER_ACCESS_POINTER, fields: <Point as ::libside::side::GatherType>::FIELDS }"))
    );
    assert_eq!(nested_struct_layout("&", "0"), Err(s("SideGather requires a concrete referenced struct type")));
    assert_eq!(nested_struct_layout("& 'static", "0"), Err(s("SideGather requires a concrete referenced struct type")));
}

#[test]
fn argument_types() {
    assert_eq!(argument_type(&FieldKind::Rust(s("u32"))), "u32");
    assert_eq!(argument_type(&FieldKind::Extern(s("crate::T"))), "&crate::T::Type");
}

#[test]
fn arguments_kept_alive_in_nested_closures() {
    let args = vec![(s("a"), s("u32")), (s("b"), s("&str"))];
    assert_eq!(
        with_side_args(&args, "f(&[{args}])"),
        "<u32 as ::libside::side::FieldType>::with_side_arg(a, |a| { <&str as ::libside::side::FieldType>::with_side_arg(b, |b| { f(&[a, b]) }) })"
    );
    assert_eq!(with_side_args(&[], "x {args} y {args}"), "x  y ");
}

#[test]
fn description_object_with_no_hole_is_one_run() {
    let (holes, fields, init) = description_object(&[]);
    assert_eq!(holes, "const RUN_0: usize = SIZE;\n");
    assert_eq!(fields, "run_0: [u8; RUN_0],");
    assert_eq!(init, "run_0: ::libside::side::description_run::<RUN_0>(&BUILT.bytes, 0),");
}

#[test]
fn description_object_cut_at_each_hole() {
    let (holes, fields, init) = description_object(&[s("A"), s("B")]);
    assert_eq!(
        holes,
        "const HOLE_0: usize = BUILT.patches[0].at;\nconst RUN_0: usize = HOLE_0;\nconst HOLE_1: usize = BUILT.patches[1].at;\nconst RUN_1: usize = HOLE_1 - HOLE_0 - ::libside::side::PATCH_WIDTH;\nconst RUN_2: usize = SIZE - HOLE_1 - ::libside::side::PATCH_WIDTH;\n"
    );
    assert_eq!(
        fields,
        "run_0: [u8; RUN_0], ptr_0: ::libside::side::SideRawPtr,run_1: [u8; RUN_1], ptr_1: ::libside::side::SideRawPtr,run_2: [u8; RUN_2],"
    );
    assert_eq!(
        init,
        "run_0: ::libside::side::description_run::<RUN_0>(&BUILT.bytes, 0),ptr_0: ::libside::side::SideRawPtr::from_ptr(unsafe { ::core::ptr::addr_of_mut!(A::DESC) }.cast()),run_1: ::libside::side::description_run::<RUN_1>(&BUILT.bytes, HOLE_0 + ::libside::side::PATCH_WIDTH),ptr_1: ::libside::side::SideRawPtr::from_ptr(unsafe { ::core::ptr::addr_of_mut!(B::DESC) }.cast()),run_2: ::libside::side::description_run::<RUN_2>(&BUILT.bytes, HOLE_1 + ::libside::side::PATCH_WIDTH),"
    );
}

#[test]
fn gather_of_a_plain_structure() {
    let out = gather_text("P", &[(s("x"), s("u32")), (s("name"), s("& ' static str"))]);
    let out = match out {
        Ok(t) => t,
        Err(e) => panic!("{}", e),
    };
    assert!(out.starts_with("#[doc(hidden)] mod __side_gather_for_P {"));
    assert!(out.contains("fn assert_field_types(value: &P) { let _: &u32 = &value.x;let _: &&'static str = &value.name; }"));
    assert!(out.contains("&[::libside::side::Field { name: ::core::stringify!(x), layout: ::libside::side::Layout::GatherInteger { offset: ::core::mem::offset_of!(P, x) as u64, size: 4, signed: false }, attributes: &[] },"));
    assert!(out.contains("::core::mem::size_of::<P>() as u32"));
    assert!(out.contains("::libside::side::PreparedSideArg::new(::libside::side::SideArg::gather_struct(self as *const P))"));
    assert!(!out.contains("__side_gather_view_for_P"));
}

#[test]
fn gather_of_a_structure_with_a_vector_goes_through_a_view() {
    let out = gather_text("V", &[(s("n"), s("u32")), (s("items"), s("Vec < u8 >"))]).unwrap();
    assert!(out.contains("#[repr(C)] struct __side_gather_view_for_V { n: u32,items: ::libside::side::SideVla<u8>, }"));
    assert!(out.contains("::core::mem::offset_of!(__side_gather_view_for_V, items) as u64 + ::core::mem::offset_of!(::libside::side::SideVla<u8>, len) as u64"));
    assert!(out.contains("::libside::side::PreparedSideArg::owned_gather(__side_gather_view_for_V { n: self.n,items: ::libside::side::SideVla::from_slice(&self.items), })"));
    assert!(out.contains("fn with_side_arg<R>(self, f: impl FnOnce(::libside::side::SideArg) -> R) -> R { let view = __side_gather_view_for_V { n: self.n,items: ::libside::side::SideVla::from_slice(&self.items), };"));
}

#[test]
fn gather_errors() {
    assert_eq!(
        gather_text("W", &[(s("p"), s("Point")), (s("v"), s("Vec<u8>"))]),
        Err(s("SIDE structs containing Vec members currently support primitive and Vec fields"))
    );
    assert_eq!(gather_text("W", &[(s("a"), s("[u8]"))]), Err(s("SIDE arrays require an element type and length")));
}

#[test]
fn statedump_settings_read() {
    assert!(matches!(statedump_settings(&[]), Ok(None)));
    let sd = statedump_settings(&[Some((s("statedump"), s("dump"))), Some((s("mode"), s("polling")))]).unwrap().unwrap();
    assert_eq!(sd.callback, "dump");
    assert_eq!(sd.mode, "Polling");
    let sd = statedump_settings(&[Some((s("mode"), s("agent_thread"))), Some((s("statedump"), s("d")))]).unwrap().unwrap();
    assert_eq!((sd.callback.as_str(), sd.mode.as_str()), ("d", "AgentThread"));
}

#[test]
fn statedump_settings_errors() {
    let err = |parts: &[Option<(String, String)>]| match statedump_settings(parts) {
        Err(e) => e,
        Ok(_) => panic!("accepted"),
    };
    assert_eq!(err(&[None]), "side: #[events] takes `statedump = <callback>, mode = <mode>'");
    assert_eq!(
        err(&[Some((s("mode"), s("fast"))), None]),
        "side: `fast' is not a state dump mode; it is `polling' or `agent_thread'"
    );
    assert_eq!(err(&[Some((s("when"), s("x")))]), "side: #[events] knows `statedump' and `mode', not `when'");
    assert_eq!(
        err(&[Some((s("statedump"), s("d")))]),
        "side: a state dump needs `mode = polling' -- the application runs the callback from run_pending_statedumps() -- or `mode = agent_thread' -- a thread libside spawns runs it"
    );
    assert_eq!(
        err(&[Some((s("mode"), s("polling")))]),
        "side: `mode' says who runs a state dump callback, and no `statedump' names one"
    );
}

#[test]
fn statedump_of_each_mode() {
    let polling = GroupStatedump { callback: s("dump"), mode: s("Polling") };
    let (items, register, unregister, calls) = group_statedump("grp", &polling);
    assert!(items.contains("const _: fn(::libside::side::StatedumpKey<'_>) = dump;"));
    assert!(items.contains("dump(unsafe { ::libside::side::StatedumpKey::from_raw(key) });"));
    assert!(register.contains("b\"grp\".as_ptr().cast(),"));
    assert!(register.contains("::libside::side::StatedumpMode::Polling);"));
    assert!(unregister.contains("side_statedump_request_notification_unregister("));
    assert!(calls.contains("pub fn statedump_pending() -> bool {"));
    assert!(calls.contains("pub fn run_pending_statedumps() {"));
    let agent = GroupStatedump { callback: s("dump"), mode: s("AgentThread") };
    let (_, register, _, calls) = group_statedump("grp", &agent);
    assert!(register.contains("::libside::side::StatedumpMode::AgentThread);"));
    assert_eq!(calls, "");
}

fn field(name: &str, kind: FieldKind) -> EventField {
    EventField { name: s(name), kind, attributes: String::new() }
}

fn group() -> Vec<Event> {
    vec![
        Event {
            name: s("ev"),
            provider: s("\"p\""),
            event: s("\"e\""),
            level: s("SIDE_LOGLEVEL_INFO"),
            fields: vec![field("n", FieldKind::Rust(s("u32"))), field("t", FieldKind::Extern(s("crate::A")))],
            attributes: String::new(),
        },
        Event {
            name: s("other"),
            provider: s("\"p\""),
            event: s("\"o\""),
            level: s("SIDE_LOGLEVEL_DEBUG"),
            fields: vec![field("b", FieldKind::Extern(s("crate::B"))), field("a", FieldKind::Extern(s("crate::A")))],
            attributes: s("side_attr(\"k\", side_attr_u8(1))"),
        },
    ]
}

#[test]
fn structures_described_elsewhere_in_order_of_mention() {
    let uses = extern_uses(&group());
    assert_eq!(uses, vec![s("crate::A"), s("crate::B"), s("crate::A")]);
    assert_eq!(first_mentioned(&uses), vec![s("crate::A"), s("crate::B")]);
}

#[test]
fn group_body_of_two_events() {
    let out = group_body("trace", &group(), None);
    assert!(out.contains("const FIELDS_0: &[::libside::side::Field] = &[::libside::side::Field { name: \"n\", layout: <u32 as ::libside::side::FieldType>::LAYOUT, attributes: &[] },::libside::side::Field { name: \"t\", layout: ::libside::side::Layout::ExternStruct { offset: 0, size: crate::A::SIZE, access: ::libside::side::SIDE_TYPE_GATHER_ACCESS_DIRECT, target: 0 }, attributes: &[] },];"));
    assert!(out.contains("target: 1 }"));
    assert!(out.contains("::libside::side::EventSpec { provider: \"p\", event: \"o\", loglevel: SIDE_LOGLEVEL_DEBUG, flags: 0, fields: FIELDS_1, attributes: &[side_attr(\"k\", side_attr_u8(1))] },"));
    assert!(out.contains("pub const NR_PATCHES: usize = 3;"));
    assert!(out.contains("static mut STATE_PTRS: [*mut ::libside::side::SideEventState; 2] = [::core::ptr::addr_of_mut!(STATE_0).cast::<::libside::side::SideEventState>(),::core::ptr::addr_of_mut!(STATE_1).cast::<::libside::side::SideEventState>(),];"));
    assert!(out.contains(".add(::libside::side::event_offset(1))"));
    assert!(out.contains("pub mod ev {"));
    assert!(out.contains("pub fn emit(n: u32,t: &crate::A::Type,) {"));
    assert!(out.contains("<u32 as ::libside::side::FieldType>::with_side_arg(n, |n| { <&crate::A::Type as ::libside::side::FieldType>::with_side_arg(t, |t| { unsafe { ::libside::side::call(state, &[n, t]); } }) })"));
    assert!(out.contains("ptr_2: ::libside::side::SideRawPtr::from_ptr(unsafe { ::core::ptr::addr_of_mut!(crate::A::DESC) }.cast()),"));
    assert!(!out.contains("STATEDUMP_HANDLE"));
}

#[test]
fn group_body_with_a_state_dump() {
    let sd = GroupStatedump { callback: s("dump"), mode: s("Polling") };
    let out = group_body("trace", &group(), Some(&sd));
    assert!(out.contains("b\"trace\".as_ptr().cast(),"));
    assert!(out.contains("pub fn run_pending_statedumps() {"));
}
