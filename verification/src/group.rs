//! What `#[libside::events]` writes for a group of events: the
//! descriptions laid out together, the state of each event, the object
//! they are built into, one module per event, and the group's state
//! dump where it has one.
use vstd::prelude::*;

use crate::codegen::{
    argument_type, argument_type_spec, description_object, description_object_spec, views, with_side_args, with_side_args_spec, Event, EventField, FieldKind, GroupStatedump,
};
use crate::templates::{
    BODY_0, BODY_1, BODY_10, BODY_11, BODY_12, BODY_13, BODY_14, BODY_15, BODY_2, BODY_3, BODY_4, BODY_5, BODY_6, BODY_7, BODY_8, BODY_9, CALL_0, CALL_1, CALL_2, CALL_3, CALL_4, CALL_5, CALL_6, CALL_7, CALL_8, CALL_9, SD_ITEMS_0, SD_ITEMS_1, SD_ITEMS_2, SD_POLL_0, SD_REG_0, SD_REG_1, SD_REG_2, SD_UNREG_0, STATE_0, STATE_1, STATE_2,
};
use crate::text::{
    begins_with, decimal, ends_with, push_decimal, text_eq,
};

verus! {

broadcast use vstd::seq::group_seq_axioms;

/* The state dump. */

pub const POLLING: &'static str = "Polling";

pub open spec fn group_statedump_spec(name: Seq<char>, callback: Seq<char>, mode: Seq<char>) -> (
    Seq<char>,
    Seq<char>,
    Seq<char>,
    Seq<char>,
) {
    (
        SD_ITEMS_0@ + callback + SD_ITEMS_1@ + callback + SD_ITEMS_2@,
        SD_REG_0@ + name + SD_REG_1@ + mode + SD_REG_2@,
        SD_UNREG_0@,
        if mode == POLLING@ {
            SD_POLL_0@
        } else {
            Seq::empty()
        },
    )
}

/// What a group's state dump adds: the callback libside can call, the
/// registration, and -- in polling mode -- the two calls the
/// application owes.
///
/// Returns what to declare inside `__side`, what `register()` and
/// `unregister()` add, and what the group module itself gains.
pub fn group_statedump(name: &str, statedump: &GroupStatedump) -> (r: (String, String, String, String))
    ensures
        (r.0@, r.1@, r.2@, r.3@) == group_statedump_spec(
            name@,
            statedump.callback@,
            statedump.mode@,
        ),
{
    let callback = statedump.callback.as_str();
    let mode = statedump.mode.as_str();
    let mut items = String::from_str(SD_ITEMS_0);
    items.append(callback);
    items.append(SD_ITEMS_1);
    items.append(callback);
    items.append(SD_ITEMS_2);
    let mut register = String::from_str(SD_REG_0);
    register.append(name);
    register.append(SD_REG_1);
    register.append(mode);
    register.append(SD_REG_2);
    let unregister = String::from_str(SD_UNREG_0);
    let calls = if text_eq(mode, POLLING) {
        String::from_str(SD_POLL_0)
    } else {
        String::new()
    };
    (items, register, unregister, calls)
}

/* Where each structure described elsewhere is named. */

/// The structures described elsewhere which fields name, in the order
/// they name them.
pub open spec fn extern_paths_in(fs: Seq<EventField>) -> Seq<Seq<char>>
    decreases fs.len(),
{
    if fs.len() == 0 {
        Seq::empty()
    } else {
        let rest = extern_paths_in(fs.drop_last());
        match fs.last().kind {
            FieldKind::Extern(path) => rest.push(path@),
            FieldKind::Rust(_) => rest,
        }
    }
}

/// The same, over the fields of every event of a group.
pub open spec fn extern_paths(es: Seq<Event>) -> Seq<Seq<char>>
    decreases es.len(),
{
    if es.len() == 0 {
        Seq::empty()
    } else {
        extern_paths(es.drop_last()) + extern_paths_in(es.last().fields@)
    }
}

/// Each element of `s` once, in order of first mention.
pub open spec fn first_mentions(s: Seq<Seq<char>>) -> Seq<Seq<char>>
    decreases s.len(),
{
    if s.len() == 0 {
        Seq::empty()
    } else {
        let t = first_mentions(s.drop_last());
        if t.contains(s.last()) {
            t
        } else {
            t.push(s.last())
        }
    }
}

/// Where `x` first is in `s`.
pub open spec fn position(s: Seq<Seq<char>>, x: Seq<char>) -> nat
    decreases s.len(),
{
    if s.len() == 0 || s[0] == x {
        0
    } else {
        1 + position(s.drop_first(), x)
    }
}

pub proof fn lemma_position(s: Seq<Seq<char>>, x: Seq<char>)
    requires
        s.contains(x),
    ensures
        position(s, x) < s.len(),
        s[position(s, x) as int] == x,
    decreases s.len(),
{
    if s[0] != x {
        let k = choose|k: int| 0 <= k < s.len() && s[k] == x;
        assert(s.drop_first()[k - 1] == x);
        lemma_position(s.drop_first(), x);
    }
}

pub proof fn lemma_first_mentions(s: Seq<Seq<char>>)
    ensures
        forall|x: Seq<char>| s.contains(x) ==> #[trigger] first_mentions(s).contains(x),
    decreases s.len(),
{
    if s.len() > 0 {
        lemma_first_mentions(s.drop_last());
        assert forall|x: Seq<char>| s.contains(x) implies #[trigger] first_mentions(s).contains(x) by {
            let k = choose|k: int| 0 <= k < s.len() && s[k] == x;
            if k < s.len() - 1 {
                assert(s.drop_last()[k] == x);
                assert(s.drop_last().contains(x));
                let t = first_mentions(s.drop_last());
                assert(t.contains(x));
                let m = choose|m: int| 0 <= m < t.len() && t[m] == x;
                if !t.contains(s.last()) {
                    assert(t.push(s.last())[m] == x);
                }
            } else {
                let t = first_mentions(s.drop_last());
                if !t.contains(s.last()) {
                    assert(t.push(s.last())[t.len() as int] == x);
                }
            }
        }
    }
}

pub proof fn lemma_extern_paths_in(fs: Seq<EventField>, j: int)
    requires
        0 <= j < fs.len(),
        fs[j].kind is Extern,
    ensures
        extern_paths_in(fs).contains(fs[j].kind->Extern_0@),
    decreases fs.len(),
{
    if j < fs.len() - 1 {
        assert(fs.drop_last()[j] == fs[j]);
        lemma_extern_paths_in(fs.drop_last(), j);
        let t = extern_paths_in(fs.drop_last());
        let m = choose|m: int| 0 <= m < t.len() && t[m] == fs[j].kind->Extern_0@;
        match fs.last().kind {
            FieldKind::Extern(path) => {
                assert(t.push(path@)[m] == t[m]);
            },
            FieldKind::Rust(_) => {},
        }
    } else {
        let t = extern_paths_in(fs.drop_last());
        assert(t.push(fs[j].kind->Extern_0@)[t.len() as int] == fs[j].kind->Extern_0@);
    }
}

pub proof fn lemma_extern_paths(es: Seq<Event>, i: int, j: int)
    requires
        0 <= i < es.len(),
        0 <= j < es[i].fields@.len(),
        es[i].fields@[j].kind is Extern,
    ensures
        extern_paths(es).contains(es[i].fields@[j].kind->Extern_0@),
    decreases es.len(),
{
    let x = es[i].fields@[j].kind->Extern_0@;
    let a = extern_paths(es.drop_last());
    let b = extern_paths_in(es.last().fields@);
    if i < es.len() - 1 {
        assert(es.drop_last()[i] == es[i]);
        lemma_extern_paths(es.drop_last(), i, j);
        let m = choose|m: int| 0 <= m < a.len() && a[m] == x;
        assert((a + b)[m] == x);
    } else {
        lemma_extern_paths_in(es.last().fields@, j);
        let m = choose|m: int| 0 <= m < b.len() && b[m] == x;
        assert((a + b)[a.len() + m] == x);
    }
}

/// A field which names a structure described elsewhere names one of
/// `targets`.
pub open spec fn known_target(f: EventField, targets: Seq<Seq<char>>) -> bool {
    match f.kind {
        FieldKind::Extern(path) => targets.contains(path@),
        FieldKind::Rust(_) => true,
    }
}

/* The text written for each event. */

pub const LAYOUT_0: &'static str = "<";
pub const LAYOUT_1: &'static str = " as ::libside::side::FieldType>::LAYOUT";
pub const EXT_0: &'static str = "::libside::side::Layout::ExternStruct { offset: 0, size: ";
pub const EXT_1: &'static str = "::SIZE, access: ::libside::side::SIDE_TYPE_GATHER_ACCESS_DIRECT, target: ";
pub const EXT_2: &'static str = " }";
pub const FT_0: &'static str = "::libside::side::Field { name: \"";
pub const FT_1: &'static str = "\", layout: ";
pub const FT_2: &'static str = ", attributes: &[";
pub const FT_3: &'static str = "] },";
pub const FL_0: &'static str = "const FIELDS_";
pub const FL_1: &'static str = ": &[::libside::side::Field] = &[";
pub const FL_2: &'static str = "];";
pub const SPEC_0: &'static str = "::libside::side::EventSpec { provider: ";
pub const SPEC_1: &'static str = ", event: ";
pub const SPEC_2: &'static str = ", loglevel: ";
pub const SPEC_3: &'static str = ", flags: 0, fields: FIELDS_";
pub const SPEC_4: &'static str = ", attributes: &[";
pub const SPEC_5: &'static str = "] },";
pub const SPTR_0: &'static str = "::core::ptr::addr_of_mut!(STATE_";
pub const SPTR_1: &'static str = ").cast::<::libside::side::SideEventState>(),";
pub const SIG_0: &'static str = ": ";
pub const SIG_1: &'static str = ",";
pub const EMIT_CALL: &'static str = "unsafe { ::libside::side::call(state, &[{args}]); }";
pub const STATEDUMP_CALL: &'static str = "unsafe { ::libside::side::statedump_call(state, &[{args}], key); }";

/// The shape of a field: its type's own, or a reference to a structure
/// described elsewhere, by its position among those the group names.
pub open spec fn field_layout_text(f: EventField, targets: Seq<Seq<char>>) -> Seq<char> {
    match f.kind {
        FieldKind::Rust(t) => LAYOUT_0@ + t@ + LAYOUT_1@,
        FieldKind::Extern(path) => EXT_0@ + path@ + EXT_1@ + decimal(position(targets, path@))
            + EXT_2@,
    }
}

pub open spec fn field_text(f: EventField, targets: Seq<Seq<char>>) -> Seq<char> {
    FT_0@ + f.name@ + FT_1@ + field_layout_text(f, targets) + FT_2@ + f.attributes@ + FT_3@
}

pub open spec fn fields_text(fs: Seq<EventField>, targets: Seq<Seq<char>>) -> Seq<char>
    decreases fs.len(),
{
    if fs.len() == 0 {
        Seq::empty()
    } else {
        fields_text(fs.drop_last(), targets) + field_text(fs.last(), targets)
    }
}

/// Each argument of an event: its name and its type.
pub open spec fn event_args(e: Event) -> Seq<(Seq<char>, Seq<char>)> {
    Seq::new(
        e.fields@.len(),
        |j: int| (e.fields@[j].name@, argument_type_spec(e.fields@[j].kind)),
    )
}

pub open spec fn signature_text(args: Seq<(Seq<char>, Seq<char>)>) -> Seq<char>
    decreases args.len(),
{
    if args.len() == 0 {
        Seq::empty()
    } else {
        signature_text(args.drop_last()) + args.last().0 + SIG_0@ + args.last().1 + SIG_1@
    }
}

pub open spec fn field_list_text(i: nat, e: Event, targets: Seq<Seq<char>>) -> Seq<char> {
    FL_0@ + decimal(i) + FL_1@ + fields_text(e.fields@, targets) + FL_2@
}

pub open spec fn spec_text(i: nat, e: Event) -> Seq<char> {
    SPEC_0@ + e.provider@ + SPEC_1@ + e.event@ + SPEC_2@ + e.level@ + SPEC_3@ + decimal(i) + SPEC_4@
        + e.attributes@ + SPEC_5@
}

pub open spec fn state_text(i: nat) -> Seq<char> {
    STATE_0@ + decimal(i) + STATE_1@ + decimal(i) + STATE_2@
}

pub open spec fn state_ptr_text(i: nat) -> Seq<char> {
    SPTR_0@ + decimal(i) + SPTR_1@
}

pub open spec fn calls_text(i: nat, e: Event) -> Seq<char> {
    let args = event_args(e);
    let sig = signature_text(args);
    CALL_0@ + e.name@ + CALL_1@ + e.name@ + CALL_2@ + decimal(i) + CALL_3@ + sig + CALL_4@
        + decimal(i) + CALL_5@ + with_side_args_spec(args, EMIT_CALL@) + CALL_6@ + sig + CALL_7@
        + decimal(i) + CALL_8@ + with_side_args_spec(args, STATEDUMP_CALL@) + CALL_9@
}

/* Working the text out. */

/// Every structure described elsewhere which the events name, in the
/// order they name them.
pub fn extern_uses(events: &[Event]) -> (r: Vec<String>)
    ensures
        views(r@) == extern_paths(events@),
{
    let mut r: Vec<String> = Vec::new();
    let mut i: usize = 0;
    while i < events.len()
        invariant
            i <= events@.len(),
            views(r@) == extern_paths(events@.subrange(0, i as int)),
        decreases events@.len() - i,
    {
        let fields = &events[i].fields;
        let ghost before = views(r@);
        let mut j: usize = 0;
        while j < fields.len()
            invariant
                i < events@.len(),
                fields@ == events@[i as int].fields@,
                j <= fields@.len(),
                views(r@) == before + extern_paths_in(fields@.subrange(0, j as int)),
            decreases fields@.len() - j,
        {
            assert(fields@.subrange(0, j + 1).drop_last() =~= fields@.subrange(0, j as int));
            assert(fields@.subrange(0, j + 1).last() == fields@[j as int]);
            let ghost old_r = r@;
            match &fields[j].kind {
                FieldKind::Extern(path) => {
                    r.push(path.clone());
                    assert(views(r@) =~= views(old_r).push(path@));
                },
                FieldKind::Rust(_) => {},
            }
            assert(views(r@) =~= before + extern_paths_in(fields@.subrange(0, j + 1)));
            j += 1;
        }
        assert(fields@.subrange(0, fields@.len() as int) =~= fields@);
        assert(events@.subrange(0, i + 1).drop_last() =~= events@.subrange(0, i as int));
        assert(views(r@) =~= extern_paths(events@.subrange(0, i + 1)));
        i += 1;
    }
    assert(events@.subrange(0, events@.len() as int) =~= events@);
    r
}

/// Whether `x` is one of `v`.
fn contains_text(v: &Vec<String>, x: &String) -> (r: bool)
    ensures
        r == views(v@).contains(x@),
{
    let mut k: usize = 0;
    while k < v.len()
        invariant
            k <= v@.len(),
            forall|m: int| 0 <= m < k ==> v@[m]@ != x@,
        decreases v@.len() - k,
    {
        if v[k] == *x {
            assert(views(v@)[k as int] == x@);
            return true;
        }
        k += 1;
    }
    assert forall|m: int| 0 <= m < views(v@).len() implies views(v@)[m] != x@ by {
        assert(v@[m]@ != x@);
    }
    false
}

/// Each of `uses` once, in order of first mention.
pub fn first_mentioned(uses: &Vec<String>) -> (r: Vec<String>)
    ensures
        views(r@) == first_mentions(views(uses@)),
{
    let mut r: Vec<String> = Vec::new();
    let mut k: usize = 0;
    while k < uses.len()
        invariant
            k <= uses@.len(),
            views(r@) == first_mentions(views(uses@).subrange(0, k as int)),
        decreases uses@.len() - k,
    {
        let ghost sub = views(uses@).subrange(0, k + 1);
        assert(sub.drop_last() =~= views(uses@).subrange(0, k as int));
        assert(sub.last() == uses@[k as int]@);
        if !contains_text(&r, &uses[k]) {
            r.push(uses[k].clone());
        }
        assert(views(r@) =~= first_mentions(sub));
        k += 1;
    }
    assert(views(uses@).subrange(0, uses@.len() as int) =~= views(uses@));
    r
}

/// Where `x` first is among `targets`.
fn position_of(targets: &Vec<String>, x: &String) -> (r: usize)
    requires
        views(targets@).contains(x@),
    ensures
        r == position(views(targets@), x@),
{
    let ghost t = views(targets@);
    proof {
        lemma_position(t, x@);
    }
    let mut k: usize = 0;
    assert(t.subrange(0, t.len() as int) =~= t);
    while k < targets.len()
        invariant
            t == views(targets@),
            k <= position(t, x@),
            position(t, x@) < t.len(),
            t[position(t, x@) as int] == x@,
            position(t.subrange(k as int, t.len() as int), x@) + k == position(t, x@),
        decreases targets@.len() - k,
    {
        let ghost rest = t.subrange(k as int, t.len() as int);
        if targets[k] == *x {
            assert(rest[0] == x@);
            return k;
        }
        assert(rest.drop_first() =~= t.subrange(k + 1, t.len() as int));
        k += 1;
    }
    k
}

fn field_text_of(f: &EventField, targets: &Vec<String>) -> (r: String)
    requires
        known_target(*f, views(targets@)),
    ensures
        r@ == field_text(*f, views(targets@)),
{
    let mut out = String::from_str(FT_0);
    out.append(f.name.as_str());
    out.append(FT_1);
    match &f.kind {
        FieldKind::Rust(t) => {
            out.append(LAYOUT_0);
            out.append(t.as_str());
            out.append(LAYOUT_1);
        },
        FieldKind::Extern(path) => {
            let target = position_of(targets, path);
            out.append(EXT_0);
            out.append(path.as_str());
            out.append(EXT_1);
            push_decimal(&mut out, target);
            out.append(EXT_2);
        },
    }
    out.append(FT_2);
    out.append(f.attributes.as_str());
    out.append(FT_3);
    assert(out@ =~= field_text(*f, views(targets@)));
    out
}

/// The arguments of an event: each field's name and the type it takes.
fn event_arguments(e: &Event) -> (r: Vec<(String, String)>)
    ensures
        crate::codegen::pair_views(r@) == event_args(*e),
{
    let mut r: Vec<(String, String)> = Vec::new();
    let mut j: usize = 0;
    while j < e.fields.len()
        invariant
            j <= e.fields@.len(),
            crate::codegen::pair_views(r@) == event_args(*e).subrange(0, j as int),
        decreases e.fields@.len() - j,
    {
        let f = &e.fields[j];
        let ghost old_r = r@;
        let name = f.name.clone();
        let type_ = argument_type(&f.kind);
        r.push((name, type_));
        assert(event_args(*e)[j as int] == (name@, type_@));
        assert(crate::codegen::pair_views(r@) =~= crate::codegen::pair_views(old_r).push((name@, type_@)));
        assert(crate::codegen::pair_views(r@) =~= event_args(*e).subrange(0, j + 1));
        j += 1;
    }
    assert(event_args(*e).subrange(0, e.fields@.len() as int) =~= event_args(*e));
    r
}

fn signature_of(args: &Vec<(String, String)>) -> (r: String)
    ensures
        r@ == signature_text(crate::codegen::pair_views(args@)),
{
    let ghost a = crate::codegen::pair_views(args@);
    let mut out = String::new();
    let mut k: usize = 0;
    while k < args.len()
        invariant
            a == crate::codegen::pair_views(args@),
            k <= args@.len(),
            out@ == signature_text(a.subrange(0, k as int)),
        decreases args@.len() - k,
    {
        out.append(args[k].0.as_str());
        out.append(SIG_0);
        out.append(args[k].1.as_str());
        out.append(SIG_1);
        assert(a.subrange(0, k + 1).drop_last() =~= a.subrange(0, k as int));
        assert(out@ =~= signature_text(a.subrange(0, k + 1)));
        k += 1;
    }
    assert(a.subrange(0, args@.len() as int) =~= a);
    out
}

fn fields_text_of(fs: &Vec<EventField>, targets: &Vec<String>) -> (r: String)
    requires
        forall|j: int|
            0 <= j < fs@.len() ==> known_target(#[trigger] fs@[j], views(targets@)),
    ensures
        r@ == fields_text(fs@, views(targets@)),
{
    let mut out = String::new();
    let mut j: usize = 0;
    while j < fs.len()
        invariant
            j <= fs@.len(),
            forall|j: int|
                0 <= j < fs@.len() ==> known_target(#[trigger] fs@[j], views(targets@)),
            out@ == fields_text(fs@.subrange(0, j as int), views(targets@)),
        decreases fs@.len() - j,
    {
        let one = field_text_of(&fs[j], targets);
        out.append(one.as_str());
        assert(fs@.subrange(0, j + 1).drop_last() =~= fs@.subrange(0, j as int));
        assert(out@ =~= fields_text(fs@.subrange(0, j + 1), views(targets@)));
        j += 1;
    }
    assert(fs@.subrange(0, fs@.len() as int) =~= fs@);
    out
}

/// What the group writes for the event at index `i`: its field list, its
/// entry in the group's list of events, its state, the pointer to that
/// state, and the module it becomes.
fn event_texts(i: usize, e: &Event, targets: &Vec<String>) -> (r: (String, String, String, String, String))
    requires
        forall|j: int|
            0 <= j < e.fields@.len() ==> known_target(#[trigger] e.fields@[j], views(targets@)),
    ensures
        r.0@ == field_list_text(i as nat, *e, views(targets@)),
        r.1@ == spec_text(i as nat, *e),
        r.2@ == state_text(i as nat),
        r.3@ == state_ptr_text(i as nat),
        r.4@ == calls_text(i as nat, *e),
{
    let fields = fields_text_of(&e.fields, targets);
    let mut field_list = String::from_str(FL_0);
    push_decimal(&mut field_list, i);
    field_list.append(FL_1);
    field_list.append(fields.as_str());
    field_list.append(FL_2);

    let mut spec = String::from_str(SPEC_0);
    spec.append(e.provider.as_str());
    spec.append(SPEC_1);
    spec.append(e.event.as_str());
    spec.append(SPEC_2);
    spec.append(e.level.as_str());
    spec.append(SPEC_3);
    push_decimal(&mut spec, i);
    spec.append(SPEC_4);
    spec.append(e.attributes.as_str());
    spec.append(SPEC_5);

    let mut state = String::from_str(STATE_0);
    push_decimal(&mut state, i);
    state.append(STATE_1);
    push_decimal(&mut state, i);
    state.append(STATE_2);

    let mut state_ptr = String::from_str(SPTR_0);
    push_decimal(&mut state_ptr, i);
    state_ptr.append(SPTR_1);

    let arguments = event_arguments(e);
    let signature = signature_of(&arguments);
    let emission = with_side_args(arguments.as_slice(), EMIT_CALL);
    let statedump_emission = with_side_args(arguments.as_slice(), STATEDUMP_CALL);
    let mut calls = String::from_str(CALL_0);
    calls.append(e.name.as_str());
    calls.append(CALL_1);
    calls.append(e.name.as_str());
    calls.append(CALL_2);
    push_decimal(&mut calls, i);
    calls.append(CALL_3);
    calls.append(signature.as_str());
    calls.append(CALL_4);
    push_decimal(&mut calls, i);
    calls.append(CALL_5);
    calls.append(emission.as_str());
    calls.append(CALL_6);
    calls.append(signature.as_str());
    calls.append(CALL_7);
    push_decimal(&mut calls, i);
    calls.append(CALL_8);
    calls.append(statedump_emission.as_str());
    calls.append(CALL_9);
    assert(field_list@ =~= field_list_text(i as nat, *e, views(targets@)));
    assert(spec@ =~= spec_text(i as nat, *e));
    assert(state@ =~= state_text(i as nat));
    assert(state_ptr@ =~= state_ptr_text(i as nat));
    assert(calls@ =~= calls_text(i as nat, *e));
    (field_list, spec, state, state_ptr, calls)
}

/* The group. */

pub open spec fn field_lists_upto(es: Seq<Event>, t: Seq<Seq<char>>, k: nat) -> Seq<char>
    decreases k,
{
    if k == 0 {
        Seq::empty()
    } else {
        field_lists_upto(es, t, (k - 1) as nat) + field_list_text((k - 1) as nat, es[k - 1], t)
    }
}

pub open spec fn specs_upto(es: Seq<Event>, k: nat) -> Seq<char>
    decreases k,
{
    if k == 0 {
        Seq::empty()
    } else {
        specs_upto(es, (k - 1) as nat) + spec_text((k - 1) as nat, es[k - 1])
    }
}

pub open spec fn states_upto(k: nat) -> Seq<char>
    decreases k,
{
    if k == 0 {
        Seq::empty()
    } else {
        states_upto((k - 1) as nat) + state_text((k - 1) as nat)
    }
}

pub open spec fn state_ptrs_upto(k: nat) -> Seq<char>
    decreases k,
{
    if k == 0 {
        Seq::empty()
    } else {
        state_ptrs_upto((k - 1) as nat) + state_ptr_text((k - 1) as nat)
    }
}

pub open spec fn calls_upto(es: Seq<Event>, k: nat) -> Seq<char>
    decreases k,
{
    if k == 0 {
        Seq::empty()
    } else {
        calls_upto(es, (k - 1) as nat) + calls_text((k - 1) as nat, es[k - 1])
    }
}

/// A state dump, as text.
pub open spec fn statedump_view(sd: Option<&GroupStatedump>) -> Option<(Seq<char>, Seq<char>)> {
    match sd {
        Some(s) => Some((s.callback@, s.mode@)),
        None => None,
    }
}

pub open spec fn group_body_spec(
    name: Seq<char>,
    es: Seq<Event>,
    sd: Option<(Seq<char>, Seq<char>)>,
) -> Seq<char> {
    let uses = extern_paths(es);
    let t = first_mentions(uses);
    let k = es.len();
    let object = description_object_spec(uses);
    let dump = match sd {
        Some(x) => group_statedump_spec(name, x.0, x.1),
        None => (Seq::empty(), Seq::empty(), Seq::empty(), Seq::empty()),
    };
    BODY_0@ + field_lists_upto(es, t, k) + BODY_1@ + specs_upto(es, k) + BODY_2@ + decimal(
        uses.len(),
    ) + BODY_3@ + object.0 + BODY_4@ + object.1 + BODY_5@ + object.2 + BODY_6@ + states_upto(k)
        + BODY_7@ + decimal(k) + BODY_8@ + state_ptrs_upto(k) + BODY_9@ + dump.0 + BODY_10@
        + decimal(k) + BODY_11@ + dump.1 + BODY_12@ + dump.2 + BODY_13@ + dump.3 + BODY_14@
        + calls_upto(es, k) + BODY_15@
}

/// Everything a group of events becomes, inside the module `name`: the
/// module `__side` holding the descriptions, the states and their
/// registration, the group's state dump where it has one, and one
/// module per event.
pub fn group_body(name: &str, events: &[Event], statedump: Option<&GroupStatedump>) -> (r: String)
    ensures
        r@ == group_body_spec(name@, events@, statedump_view(statedump)),
{
    /* Each structure described elsewhere, in order of first mention. */
    let uses = extern_uses(events);
    let targets = first_mentioned(&uses);
    let ghost t = views(targets@);
    proof {
        lemma_targets_known(events@);
    }

    let (field_lists, specs, states, state_ptrs, calls) = events_parts(events, &targets);
    let count = events.len();
    let nuses = uses.len();
    let (holes, desc_fields, desc_init) = description_object(uses.as_slice());
    let (statedump_items, statedump_register, statedump_unregister, statedump_calls) =
        match statedump {
        None => (String::new(), String::new(), String::new(), String::new()),
        Some(statedump) => group_statedump(name, statedump),
    };

    let out = assemble(
        &field_lists,
        &specs,
        nuses,
        &holes,
        &desc_fields,
        &desc_init,
        &states,
        count,
        &state_ptrs,
        &statedump_items,
        &statedump_register,
        &statedump_unregister,
        &statedump_calls,
        &calls,
    );
    assert(out@ =~= group_body_spec(name@, events@, statedump_view(statedump)));
    out
}

/// Every structure a field of the group names is among those the group
/// names, in order of first mention.
proof fn lemma_targets_known(es: Seq<Event>)
    ensures
        forall|i: int, j: int|
            0 <= i < es.len() && 0 <= j < es[i].fields@.len() ==> known_target(
                #[trigger] es[i].fields@[j],
                first_mentions(extern_paths(es)),
            ),
{
    lemma_first_mentions(extern_paths(es));
    assert forall|i: int, j: int|
        0 <= i < es.len() && 0 <= j < es[i].fields@.len() implies known_target(
        #[trigger] es[i].fields@[j],
        first_mentions(extern_paths(es)),
    ) by {
        if es[i].fields@[j].kind is Extern {
            lemma_extern_paths(es, i, j);
        }
    }
}

/// The group's text, put together from its parts.
fn assemble(
    field_lists: &String,
    specs: &String,
    nuses: usize,
    holes: &String,
    desc_fields: &String,
    desc_init: &String,
    states: &String,
    count: usize,
    state_ptrs: &String,
    statedump_items: &String,
    statedump_register: &String,
    statedump_unregister: &String,
    statedump_calls: &String,
    calls: &String,
) -> (r: String)
    ensures
        r@ == BODY_0@ + field_lists@ + BODY_1@ + specs@ + BODY_2@ + decimal(nuses as nat) + BODY_3@
            + holes@ + BODY_4@ + desc_fields@ + BODY_5@ + desc_init@ + BODY_6@ + states@ + BODY_7@
            + decimal(count as nat) + BODY_8@ + state_ptrs@ + BODY_9@ + statedump_items@ + BODY_10@
            + decimal(count as nat) + BODY_11@ + statedump_register@ + BODY_12@
            + statedump_unregister@ + BODY_13@ + statedump_calls@ + BODY_14@ + calls@ + BODY_15@,
{
    let mut out = String::from_str(BODY_0);
    out.append(field_lists.as_str());
    out.append(BODY_1);
    out.append(specs.as_str());
    out.append(BODY_2);
    push_decimal(&mut out, nuses);
    out.append(BODY_3);
    out.append(holes.as_str());
    out.append(BODY_4);
    out.append(desc_fields.as_str());
    out.append(BODY_5);
    out.append(desc_init.as_str());
    out.append(BODY_6);
    out.append(states.as_str());
    out.append(BODY_7);
    push_decimal(&mut out, count);
    out.append(BODY_8);
    out.append(state_ptrs.as_str());
    out.append(BODY_9);
    out.append(statedump_items.as_str());
    out.append(BODY_10);
    push_decimal(&mut out, count);
    out.append(BODY_11);
    out.append(statedump_register.as_str());
    out.append(BODY_12);
    out.append(statedump_unregister.as_str());
    out.append(BODY_13);
    out.append(statedump_calls.as_str());
    out.append(BODY_14);
    out.append(calls.as_str());
    out.append(BODY_15);
    out
}

/// The parts of the group written once per event, for every event.
fn events_parts(events: &[Event], targets: &Vec<String>) -> (r: (String, String, String, String, String))
    requires
        forall|i: int, j: int|
            0 <= i < events@.len() && 0 <= j < events@[i].fields@.len() ==> known_target(
                #[trigger] events@[i].fields@[j],
                views(targets@),
            ),
    ensures
        r.0@ == field_lists_upto(events@, views(targets@), events@.len()),
        r.1@ == specs_upto(events@, events@.len()),
        r.2@ == states_upto(events@.len()),
        r.3@ == state_ptrs_upto(events@.len()),
        r.4@ == calls_upto(events@, events@.len()),
{
    let ghost t = views(targets@);
    let mut field_lists = String::new();
    let mut specs = String::new();
    let mut states = String::new();
    let mut state_ptrs = String::new();
    let mut calls = String::new();
    let mut i: usize = 0;
    while i < events.len()
        invariant
            i <= events@.len(),
            t == views(targets@),
            forall|i: int, j: int|
                0 <= i < events@.len() && 0 <= j < events@[i].fields@.len() ==> known_target(
                    #[trigger] events@[i].fields@[j],
                    t,
                ),
            field_lists@ == field_lists_upto(events@, t, i as nat),
            specs@ == specs_upto(events@, i as nat),
            states@ == states_upto(i as nat),
            state_ptrs@ == state_ptrs_upto(i as nat),
            calls@ == calls_upto(events@, i as nat),
        decreases events@.len() - i,
    {
        assert forall|j: int| 0 <= j < events@[i as int].fields@.len() implies known_target(
            #[trigger] events@[i as int].fields@[j],
            t,
        ) by {}
        let (a, b, c, d, e) = event_texts(i, &events[i], &targets);
        field_lists.append(a.as_str());
        specs.append(b.as_str());
        states.append(c.as_str());
        state_ptrs.append(d.as_str());
        calls.append(e.as_str());
        i += 1;
    }

    (field_lists, specs, states, state_ptrs, calls)
}

/* What `#[libside::events(..)]` is given. */

pub const STATEDUMP_KEY: &'static str = "statedump";
pub const MODE_KEY: &'static str = "mode";
pub const MODE_POLLING: &'static str = "polling";
pub const MODE_AGENT_THREAD: &'static str = "agent_thread";
pub const AGENT_THREAD: &'static str = "AgentThread";
pub const E_SYNTAX: &'static str = "side: #[events] takes `statedump = <callback>, mode = <mode>'";
pub const E_MODE_0: &'static str = "side: `";
pub const E_MODE_1: &'static str = "' is not a state dump mode; it is `polling' or `agent_thread'";
pub const E_KEY_0: &'static str = "side: #[events] knows `statedump' and `mode', not `";
pub const E_KEY_1: &'static str = "'";
pub const E_NO_MODE: &'static str = "side: a state dump needs `mode = polling' -- the application runs the callback from run_pending_statedumps() -- or `mode = agent_thread' -- a thread libside spawns runs it";
pub const E_NO_CALLBACK: &'static str = "side: `mode' says who runs a state dump callback, and no `statedump' names one";

/// A setting, as text: `None` where it has no `=`.
pub open spec fn setting_views(parts: Seq<Option<(String, String)>>) -> Seq<Option<(Seq<char>, Seq<char>)>> {
    Seq::new(
        parts.len(),
        |i: int|
            match parts[i] {
                Some(p) => Some((p.0@, p.1@)),
                None => None,
            },
    )
}

/// The callback and the mode read so far, after one more setting.
pub open spec fn setting_step(
    st: (Option<Seq<char>>, Option<Seq<char>>),
    part: Option<(Seq<char>, Seq<char>)>,
) -> Result<(Option<Seq<char>>, Option<Seq<char>>), Seq<char>> {
    match part {
        None => Err(E_SYNTAX@),
        Some((key, value)) => if key == STATEDUMP_KEY@ {
            Ok((Some(value), st.1))
        } else if key == MODE_KEY@ {
            if value == MODE_POLLING@ {
                Ok((st.0, Some(POLLING@)))
            } else if value == MODE_AGENT_THREAD@ {
                Ok((st.0, Some(AGENT_THREAD@)))
            } else {
                Err(E_MODE_0@ + value + E_MODE_1@)
            }
        } else {
            Err(E_KEY_0@ + key + E_KEY_1@)
        },
    }
}

pub open spec fn settings_upto(parts: Seq<Option<(Seq<char>, Seq<char>)>>, k: nat) -> Result<
    (Option<Seq<char>>, Option<Seq<char>>),
    Seq<char>,
>
    decreases k,
{
    if k == 0 {
        Ok((None, None))
    } else {
        match settings_upto(parts, (k - 1) as nat) {
            Err(e) => Err(e),
            Ok(st) => setting_step(st, parts[k - 1]),
        }
    }
}

pub open spec fn statedump_settings_spec(parts: Seq<Option<(Seq<char>, Seq<char>)>>) -> Result<
    Option<(Seq<char>, Seq<char>)>,
    Seq<char>,
> {
    match settings_upto(parts, parts.len()) {
        Err(e) => Err(e),
        Ok(st) => match st {
            (None, None) => Ok(None),
            (Some(c), Some(m)) => Ok(Some((c, m))),
            (Some(_), None) => Err(E_NO_MODE@),
            (None, Some(_)) => Err(E_NO_CALLBACK@),
        },
    }
}

/// A group's state dump, or why it has none, as text.
pub open spec fn statedump_result(r: Result<Option<GroupStatedump>, String>) -> Result<
    Option<(Seq<char>, Seq<char>)>,
    Seq<char>,
> {
    match r {
        Ok(Some(s)) => Ok(Some((s.callback@, s.mode@))),
        Ok(None) => Ok(None),
        Err(e) => Err(e@),
    }
}

/// Once a setting is wrong, so is every longer list of settings.
proof fn lemma_settings_err(parts: Seq<Option<(Seq<char>, Seq<char>)>>, k: nat)
    requires
        k <= parts.len(),
        settings_upto(parts, k) is Err,
    ensures
        settings_upto(parts, parts.len()) == settings_upto(parts, k),
    decreases parts.len() - k,
{
    if k < parts.len() {
        lemma_settings_err(parts, k + 1);
    }
}

/// Read `statedump = <path>, mode = polling | agent_thread`, each
/// setting a key and a value, or `None` where it has no `=`.
///
/// The mode is not defaulted. libside makes a C caller say it because
/// the two are different bargains -- one spawns a thread, the other
/// leaves the application owing a call -- and neither is a quiet
/// default to hand somebody who wrote only `statedump = dump`.
pub fn statedump_settings(parts: &[Option<(String, String)>]) -> (r: Result<
    Option<GroupStatedump>,
    String,
>)
    ensures
        statedump_result(r) == statedump_settings_spec(setting_views(parts@)),
{
    let ghost v = setting_views(parts@);
    let mut callback: Option<String> = None;
    let mut mode: Option<&'static str> = None;
    let mut k: usize = 0;
    while k < parts.len()
        invariant
            v == setting_views(parts@),
            k <= parts@.len(),
            settings_upto(v, k as nat) == Ok::<(Option<Seq<char>>, Option<Seq<char>>), Seq<char>>(
                (
                    match callback {
                        Some(c) => Some(c@),
                        None => None,
                    },
                    match mode {
                        Some(m) => Some(m@),
                        None => None,
                    },
                ),
            ),
        decreases parts@.len() - k,
    {
        match &parts[k] {
            None => {
                proof {
                    lemma_settings_err(v, (k + 1) as nat);
                }
                return Err(String::from_str(E_SYNTAX));
            },
            Some((key, value)) => {
                if text_eq(key.as_str(), STATEDUMP_KEY) {
                    callback = Some(value.clone());
                } else if text_eq(key.as_str(), MODE_KEY) {
                    if text_eq(value.as_str(), MODE_POLLING) {
                        mode = Some(POLLING);
                    } else if text_eq(value.as_str(), MODE_AGENT_THREAD) {
                        mode = Some(AGENT_THREAD);
                    } else {
                        let mut e = String::from_str(E_MODE_0);
                        e.append(value.as_str());
                        e.append(E_MODE_1);
                        proof {
                            lemma_settings_err(v, (k + 1) as nat);
                        }
                        return Err(e);
                    }
                } else {
                    let mut e = String::from_str(E_KEY_0);
                    e.append(key.as_str());
                    e.append(E_KEY_1);
                    proof {
                        lemma_settings_err(v, (k + 1) as nat);
                    }
                    return Err(e);
                }
            },
        }
        k += 1;
    }
    match (callback, mode) {
        (None, None) => Ok(None),
        (Some(callback), Some(mode)) => Ok(Some(GroupStatedump { callback, mode: String::from_str(mode) })),
        (Some(_), None) => Err(String::from_str(E_NO_MODE)),
        (None, Some(_)) => Err(String::from_str(E_NO_CALLBACK)),
    }
}

pub const MODULE_0: &'static str = " mod ";
pub const MODULE_1: &'static str = " { ";
pub const MODULE_2: &'static str = " ";
pub const MODULE_3: &'static str = " }";

/// What `#[libside::events]` writes in place of the module it is put
/// on: what came before `mod`, then the module `name` holding the tokens
/// of its body which are not events, and what its events become.
pub fn module_text(
    prefix: &str,
    name: &str,
    passthrough: &str,
    events: &[Event],
    statedump: Option<&GroupStatedump>,
) -> (r: String)
    ensures
        r@ == prefix@ + MODULE_0@ + name@ + MODULE_1@ + passthrough@ + MODULE_2@ + group_body_spec(
            name@,
            events@,
            statedump_view(statedump),
        ) + MODULE_3@,
{
    let body = group_body(name, events, statedump);
    let mut out = String::from_str(prefix);
    out.append(MODULE_0);
    out.append(name);
    out.append(MODULE_1);
    out.append(passthrough);
    out.append(MODULE_2);
    out.append(body.as_str());
    out.append(MODULE_3);
    out
}

proof fn lemma_ends_with_more(a: Seq<char>, b: Seq<char>, x: Seq<char>)
    requires
        ends_with(b, x),
    ensures
        ends_with(a + b, x),
{
    assert((a + b).subrange((a + b).len() - x.len(), (a + b).len() as int) =~= b.subrange(
        b.len() - x.len(),
        b.len() as int,
    ));
}

proof fn lemma_begins_with_more(a: Seq<char>, b: Seq<char>, x: Seq<char>)
    requires
        begins_with(a, x),
    ensures
        begins_with(a + b, x),
{
    assert((a + b).subrange(0, x.len() as int) =~= a.subrange(0, x.len() as int));
}

/// The module written for an event names the state of that event and of
/// no other: its text depends on the event's index in exactly three
/// places, and is the same elsewhere whatever the index. Each of the
/// three stands right after `__side::STATE_`: the first is read by
/// `enabled()`, which goes on with `)).enabled`, the second and third
/// are the parent `emit()` and `emit_statedump()` go out through, each
/// going on with `)).parent)`.
pub proof fn law_event_module_names_its_state(e: Event) -> (p: (Seq<char>, Seq<char>, Seq<char>, Seq<char>))
    ensures
        forall|k: nat|
            #[trigger] calls_text(k, e) == p.0 + decimal(k) + p.1 + decimal(k) + p.2 + decimal(k)
                + p.3,
        ends_with(p.0, "__side::STATE_"@),
        begins_with(p.1, ")).enabled"@),
        ends_with(p.1, "__side::STATE_"@),
        begins_with(p.2, ")).parent)"@),
        ends_with(p.2, "__side::STATE_"@),
        begins_with(p.3, ")).parent)"@),
{
    let args = event_args(e);
    let sig = signature_text(args);
    let p0 = CALL_0@ + e.name@ + CALL_1@ + e.name@ + CALL_2@;
    let p1 = CALL_3@ + sig + CALL_4@;
    let p2 = CALL_5@ + with_side_args_spec(args, EMIT_CALL@) + CALL_6@ + sig + CALL_7@;
    let p3 = CALL_8@ + with_side_args_spec(args, STATEDUMP_CALL@) + CALL_9@;
    assert forall|k: nat| #[trigger] calls_text(k, e) == p0 + decimal(k) + p1 + decimal(k) + p2
        + decimal(k) + p3 by {
        assert(calls_text(k, e) =~= p0 + decimal(k) + p1 + decimal(k) + p2 + decimal(k) + p3);
    }
    reveal_strlit("__side::STATE_");
    reveal_strlit(")).enabled");
    reveal_strlit(")).parent)");
    reveal_strlit(" {\n            use super::*;\n\n            /// Whether a tracer is listening for this event.\n            #[inline(always)]\n            pub fn enabled() -> bool {\n                /*\n                 * Relaxed, which is what side_event_enabled() reads it\n                 * with: nothing is ordered against it, and the only\n                 * thing asked of the compiler is that it read it here\n                 * rather than remember what it held.\n                 */\n                let enabled = unsafe {\n                    &(*::core::ptr::addr_of_mut!(__side::STATE_");
    reveal_strlit(")).enabled\n                };\n                enabled.load(::core::sync::atomic::Ordering::Relaxed) != 0\n            }\n\n            /// Emit it, without asking again.\n            ///\n            /// Inlined, into the unlikely half of the branch\n            /// `side_event!()` writes around it.\n            #[inline(always)]\n            pub fn emit(");
    reveal_strlit(") {\n                let state = unsafe {\n                    ::core::ptr::addr_of!(\n                        (*::core::ptr::addr_of_mut!(__side::STATE_");
    reveal_strlit(")).parent)\n                };\n                ");
    reveal_strlit("\n            ) {\n                let state = unsafe {\n                    ::core::ptr::addr_of!(\n                        (*::core::ptr::addr_of_mut!(__side::STATE_");
    reveal_strlit(")).parent)\n                };\n                ");
    assert(CALL_2@.len() == 568);
    assert(CALL_2@.subrange(554, 568) =~= "__side::STATE_"@);
    assert(ends_with(CALL_2@, "__side::STATE_"@));
    assert(CALL_4@.len() == 150);
    assert(CALL_4@.subrange(136, 150) =~= "__side::STATE_"@);
    assert(ends_with(CALL_4@, "__side::STATE_"@));
    assert(CALL_7@.len() == 163);
    assert(CALL_7@.subrange(149, 163) =~= "__side::STATE_"@);
    assert(ends_with(CALL_7@, "__side::STATE_"@));
    assert(CALL_3@.len() == 349);
    assert(CALL_3@.subrange(0, 10) =~= ")).enabled"@);
    assert(begins_with(CALL_3@, ")).enabled"@));
    assert(CALL_5@.len() == 46);
    assert(CALL_5@.subrange(0, 10) =~= ")).parent)"@);
    assert(begins_with(CALL_5@, ")).parent)"@));
    assert(CALL_8@.len() == 46);
    assert(CALL_8@.subrange(0, 10) =~= ")).parent)"@);
    assert(begins_with(CALL_8@, ")).parent)"@));
    lemma_ends_with_more(CALL_0@ + e.name@ + CALL_1@ + e.name@, CALL_2@, "__side::STATE_"@);
    lemma_ends_with_more(CALL_3@ + sig, CALL_4@, "__side::STATE_"@);
    lemma_begins_with_more(CALL_3@, sig + CALL_4@, ")).enabled"@);
    assert(p1 =~= CALL_3@ + (sig + CALL_4@));
    lemma_ends_with_more(CALL_5@ + with_side_args_spec(args, EMIT_CALL@) + CALL_6@ + sig, CALL_7@, "__side::STATE_"@);
    lemma_begins_with_more(CALL_5@, with_side_args_spec(args, EMIT_CALL@) + CALL_6@ + sig + CALL_7@, ")).parent)"@);
    assert(p2 =~= CALL_5@ + (with_side_args_spec(args, EMIT_CALL@) + CALL_6@ + sig + CALL_7@));
    lemma_begins_with_more(CALL_8@, with_side_args_spec(args, STATEDUMP_CALL@) + CALL_9@, ")).parent)"@);
    assert(p3 =~= CALL_8@ + (with_side_args_spec(args, STATEDUMP_CALL@) + CALL_9@));
    (p0, p1, p2, p3)
}

/// What a group writes for the event at index `k` -- its field list,
/// its description, its state and the pointer to that state -- depends
/// on the index only in the places returned here, where the decimal of
/// the index stands, and is the same elsewhere whatever the index: the
/// field list and the description name `k` once, the state twice (its
/// name and the description it points at), and the pointer once.
pub proof fn law_event_items_name_their_index(e: Event, targets: Seq<Seq<char>>) -> (p: (
    (Seq<char>, Seq<char>),
    (Seq<char>, Seq<char>),
    (Seq<char>, Seq<char>, Seq<char>),
    (Seq<char>, Seq<char>),
))
    ensures
        forall|k: nat| #[trigger] field_list_text(k, e, targets) == p.0.0 + decimal(k) + p.0.1,
        forall|k: nat| #[trigger] spec_text(k, e) == p.1.0 + decimal(k) + p.1.1,
        forall|k: nat| #[trigger] state_text(k) == p.2.0 + decimal(k) + p.2.1 + decimal(k) + p.2.2,
        forall|k: nat| #[trigger] state_ptr_text(k) == p.3.0 + decimal(k) + p.3.1,
{
    let f = (FL_0@, FL_1@ + fields_text(e.fields@, targets) + FL_2@);
    let sp = (
        SPEC_0@ + e.provider@ + SPEC_1@ + e.event@ + SPEC_2@ + e.level@ + SPEC_3@,
        SPEC_4@ + e.attributes@ + SPEC_5@,
    );
    let st = (STATE_0@, STATE_1@, STATE_2@);
    let pt = (SPTR_0@, SPTR_1@);
    assert forall|k: nat| #[trigger] field_list_text(k, e, targets) == f.0 + decimal(k) + f.1 by {
        assert(field_list_text(k, e, targets) =~= f.0 + decimal(k) + f.1);
    }
    assert forall|k: nat| #[trigger] spec_text(k, e) == sp.0 + decimal(k) + sp.1 by {
        assert(spec_text(k, e) =~= sp.0 + decimal(k) + sp.1);
    }
    (f, sp, st, pt)
}

} // verus!
