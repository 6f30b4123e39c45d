//! What the event macros write: the shape of a member of a structure,
//! the arguments of an event, and the object a group's description is
//! built into.
//!
//! The macros read their input as tokens; what they read comes here as
//! text, and what they write goes back as text for the compiler to
//! read.
use vstd::prelude::*;

use crate::text::{
    begins_with, decimal, ends_with, find_char, first_index, has_prefix, has_suffix, join, no_spaces, push_decimal, remove_spaces, replace_all, replace_text, text_eq,
};

verus! {

broadcast use vstd::seq::group_seq_axioms;

/// A field of an event is either a Rust type, or a structure described
/// elsewhere.
pub enum FieldKind {
    /// The Rust type, which is also the type of the argument.
    Rust(String),
    /// The path of a `define_type!`, whose description is reached by
    /// address rather than by a distance.
    Extern(String),
}

/// A field of an event, as the group macro reads it.
pub struct EventField {
    pub name: String,
    pub kind: FieldKind,
    /// The attributes of the field's type, as they were written.
    pub attributes: String,
}

/// An event, as the group macro reads it.
pub struct Event {
    pub name: String,
    pub provider: String,
    pub event: String,
    pub level: String,
    pub fields: Vec<EventField>,
    pub attributes: String,
}

/// The state dump of a group: whose callback, and who runs it.
pub struct GroupStatedump {
    /// The path of the callback, which takes a `StatedumpKey`.
    pub callback: String,
    /// The `side::StatedumpMode` variant, spelled as libside spells it.
    pub mode: String,
}

/// Text or an error, as views.
pub open spec fn text_result(r: Result<String, String>) -> Result<Seq<char>, Seq<char>> {
    match r {
        Ok(s) => Ok(s@),
        Err(e) => Err(e@),
    }
}

/// The text of each string.
pub open spec fn views(s: Seq<String>) -> Seq<Seq<char>> {
    Seq::new(s.len(), |i: int| s[i]@)
}

/// The text of each pair of strings.
pub open spec fn pair_views(s: Seq<(String, String)>) -> Seq<(Seq<char>, Seq<char>)> {
    Seq::new(s.len(), |i: int| (s[i].0@, s[i].1@))
}

/* The element of a vector. */

pub open spec fn vec_element_spec(t: Seq<char>) -> Option<Seq<char>> {
    let c = no_spaces(t);
    let p = "Vec<"@;
    if begins_with(c, p) && ends_with(c.subrange(p.len() as int, c.len() as int), ">"@) {
        Some(c.subrange(p.len() as int, c.len() - 1))
    } else {
        None
    }
}

/// The element type of `Vec<T>`, spaces and all taken out; `None` for
/// any other type.
pub fn vec_element_type(type_: &str) -> (r: Option<String>)
    ensures
        r matches Some(e) ==> vec_element_spec(type_@) == Some(e@),
        r is None ==> vec_element_spec(type_@) is None,
{
    proof {
        reveal_strlit("Vec<");
        reveal_strlit(">");
    }
    let c = remove_spaces(type_);
    let s = c.as_str();
    let n = s.unicode_len();
    if has_prefix(s, "Vec<") {
        let rest = s.substring_char(4, n);
        if has_suffix(rest, ">") {
            assert(rest@ =~= s@.subrange(4, n as int));
            let e = rest.substring_char(0, n - 5);
            assert(e@ =~= s@.subrange(4, n - 1));
            return Some(String::from_str(e));
        }
    }
    None
}

/* The integers and the boolean a member can be read as. */

pub open spec fn is_primitive_spec(t: Seq<char>) -> bool {
    ||| t == "bool"@
    ||| t == "u8"@
    ||| t == "u16"@
    ||| t == "u32"@
    ||| t == "u64"@
    ||| t == "i8"@
    ||| t == "i16"@
    ||| t == "i32"@
    ||| t == "i64"@
}

/// Whether a member of this type is read as it is, without a
/// description of its own.
pub fn is_primitive(type_: &str) -> (r: bool)
    ensures
        r == is_primitive_spec(type_@),
{
    text_eq(type_, "bool") || text_eq(type_, "u8") || text_eq(type_, "u16") || text_eq(
        type_,
        "u32",
    ) || text_eq(type_, "u64") || text_eq(type_, "i8") || text_eq(type_, "i16") || text_eq(
        type_,
        "i32",
    ) || text_eq(type_, "i64")
}

/* A structure nested in another. */

pub const GATHER_ACCESS_POINTER: &'static str = "::libside::side::SIDE_TYPE_GATHER_ACCESS_POINTER";
pub const GATHER_ACCESS_DIRECT: &'static str = "::libside::side::SIDE_TYPE_GATHER_ACCESS_DIRECT";
pub const NESTED_EMPTY: &'static str = "SideGather requires a concrete referenced struct type";
pub const NESTED_0: &'static str = "::libside::side::Layout::GatherStruct { offset: ";
pub const NESTED_1: &'static str = ", size: <";
pub const NESTED_2: &'static str = " as ::libside::side::GatherType>::SIZE, access: ";
pub const NESTED_3: &'static str = ", fields: <";
pub const NESTED_4: &'static str = " as ::libside::side::GatherType>::FIELDS }";

/// The type a nested member names, and how it is read: through a
/// reference, or in place.
pub open spec fn nested_target(t: Seq<char>) -> (Seq<char>, Seq<char>) {
    let c = no_spaces(t);
    if begins_with(c, "&"@) {
        let r = c.subrange(1, c.len() as int);
        let s = if begins_with(r, "'static"@) {
            r.subrange("'static"@.len() as int, r.len() as int)
        } else {
            r
        };
        (s, GATHER_ACCESS_POINTER@)
    } else {
        (c, GATHER_ACCESS_DIRECT@)
    }
}

pub open spec fn nested_struct_spec(t: Seq<char>, offset: Seq<char>) -> Result<Seq<char>, Seq<char>> {
    let (ty, access) = nested_target(t);
    if ty.len() == 0 {
        Err(NESTED_EMPTY@)
    } else {
        Ok(
            NESTED_0@ + offset + NESTED_1@ + ty + NESTED_2@ + access + NESTED_3@ + ty
                + NESTED_4@,
        )
    }
}

/// The shape of a member which is a structure, or a reference to one.
pub fn nested_struct_layout(type_: &str, offset: &str) -> (r: Result<String, String>)
    ensures
        text_result(r) == nested_struct_spec(type_@, offset@),
{
    proof {
        reveal_strlit("&");
        reveal_strlit("'static");
    }
    let c = remove_spaces(type_);
    let s = c.as_str();
    let n = s.unicode_len();
    let (ty, access) = if has_prefix(s, "&") {
        let r = s.substring_char(1, n);
        if has_prefix(r, "'static") {
            (r.substring_char(7, n - 1), GATHER_ACCESS_POINTER)
        } else {
            (r, GATHER_ACCESS_POINTER)
        }
    } else {
        (s, GATHER_ACCESS_DIRECT)
    };
    if ty.unicode_len() == 0 {
        return Err(String::from_str(NESTED_EMPTY));
    }
    let mut out = String::from_str(NESTED_0);
    out.append(offset);
    out.append(NESTED_1);
    out.append(ty);
    out.append(NESTED_2);
    out.append(access);
    out.append(NESTED_3);
    out.append(ty);
    out.append(NESTED_4);
    Ok(out)
}

/* The shape of one member of a structure. */

pub const VLA_PREFIX: &'static str = "::libside::side::SideVla<";
pub const LEN_0: &'static str = "::core::mem::offset_of!(";
pub const COMMA: &'static str = ", ";
pub const LEN_1: &'static str = ") as u64 + ::core::mem::offset_of!(::libside::side::SideVla<";
pub const LEN_2: &'static str = ">, len) as u64";
pub const VLA_0: &'static str = "::libside::side::Layout::GatherVla { offset: ";
pub const VLA_1: &'static str = ", len_offset: ";
pub const VLA_2: &'static str = ", elem: <";
pub const ELEMENT_TAIL: &'static str = " as ::libside::side::GatherType>::ELEMENT }";
pub const ARRAY_ERR: &'static str = "SIDE arrays require an element type and length";
pub const ARRAY_0: &'static str = "::libside::side::Layout::GatherArray { offset: ";
pub const ARRAY_1: &'static str = ", length: (";
pub const ARRAY_2: &'static str = ") as u32, elem: <";
pub const BOOL_0: &'static str = "::libside::side::Layout::GatherBool { offset: ";
pub const BOOL_1: &'static str = ", size: 1 }";
pub const INT_0: &'static str = "::libside::side::Layout::GatherInteger { offset: ";
pub const INT_U8: &'static str = ", size: 1, signed: false }";
pub const INT_U16: &'static str = ", size: 2, signed: false }";
pub const INT_U32: &'static str = ", size: 4, signed: false }";
pub const INT_U64: &'static str = ", size: 8, signed: false }";
pub const INT_I8: &'static str = ", size: 1, signed: true }";
pub const INT_I16: &'static str = ", size: 2, signed: true }";
pub const INT_I32: &'static str = ", size: 4, signed: true }";
pub const INT_I64: &'static str = ", size: 8, signed: true }";

/// How the integer a member of this type is read as is described, after
/// its offset.
pub open spec fn integer_tail(t: Seq<char>) -> Option<Seq<char>> {
    if t == "u8"@ {
        Some(INT_U8@)
    } else if t == "u16"@ {
        Some(INT_U16@)
    } else if t == "u32"@ {
        Some(INT_U32@)
    } else if t == "u64"@ {
        Some(INT_U64@)
    } else if t == "i8"@ {
        Some(INT_I8@)
    } else if t == "i16"@ {
        Some(INT_I16@)
    } else if t == "i32"@ {
        Some(INT_I32@)
    } else if t == "i64"@ {
        Some(INT_I64@)
    } else {
        None
    }
}

pub open spec fn member_layout_spec(
    struct_name: Seq<char>,
    field_name: Seq<char>,
    t: Seq<char>,
    offset: Seq<char>,
) -> Result<Seq<char>, Seq<char>> {
    let c = no_spaces(t);
    let vp = VLA_PREFIX@;
    if begins_with(c, vp) && ends_with(c.subrange(vp.len() as int, c.len() as int), ">"@) {
        let e = c.subrange(vp.len() as int, c.len() - 1);
        let len_offset = LEN_0@ + struct_name + COMMA@ + field_name + LEN_1@ + e + LEN_2@;
        Ok(VLA_0@ + offset + VLA_1@ + len_offset + VLA_2@ + e + ELEMENT_TAIL@)
    } else if begins_with(t, "["@) && ends_with(t.subrange(1, t.len() as int), "]"@) {
        let a = t.subrange(1, t.len() - 1);
        match first_index(a, ';') {
            None => Err(ARRAY_ERR@),
            Some(k) => Ok(
                ARRAY_0@ + offset + ARRAY_1@ + a.subrange(k + 1, a.len() as int) + ARRAY_2@
                    + a.subrange(0, k) + ELEMENT_TAIL@,
            ),
        }
    } else if t == "bool"@ {
        Ok(BOOL_0@ + offset + BOOL_1@)
    } else if integer_tail(t) is Some {
        Ok(INT_0@ + offset + integer_tail(t)->0)
    } else {
        nested_struct_spec(t, offset)
    }
}

fn integer_tail_text(t: &str) -> (r: Option<&'static str>)
    ensures
        r matches Some(x) ==> integer_tail(t@) == Some(x@),
        r is None ==> integer_tail(t@) is None,
{
    if text_eq(t, "u8") {
        Some(INT_U8)
    } else if text_eq(t, "u16") {
        Some(INT_U16)
    } else if text_eq(t, "u32") {
        Some(INT_U32)
    } else if text_eq(t, "u64") {
        Some(INT_U64)
    } else if text_eq(t, "i8") {
        Some(INT_I8)
    } else if text_eq(t, "i16") {
        Some(INT_I16)
    } else if text_eq(t, "i32") {
        Some(INT_I32)
    } else if text_eq(t, "i64") {
        Some(INT_I64)
    } else {
        None
    }
}

/// The shape of the member `field_name` of `struct_name`, of type
/// `type_`, at the offset `offset` spells: a vector, an array, a
/// boolean, an integer, or a structure.
pub fn member_layout(struct_name: &str, field_name: &str, type_: &str, offset: &str) -> (r: Result<
    String,
    String,
>)
    ensures
        text_result(r) == member_layout_spec(struct_name@, field_name@, type_@, offset@),
{
    proof {
        reveal_strlit(">");
        reveal_strlit("[");
        reveal_strlit("]");
    }
    let compact = remove_spaces(type_);
    let c = compact.as_str();
    let n = c.unicode_len();
    let vp = VLA_PREFIX.unicode_len();
    if has_prefix(c, VLA_PREFIX) {
        let rest = c.substring_char(vp, n);
        if has_suffix(rest, ">") {
            assert(rest@ =~= c@.subrange(vp as int, n as int));
            let e = c.substring_char(vp, n - 1);
            let mut len_offset = String::from_str(LEN_0);
            len_offset.append(struct_name);
            len_offset.append(COMMA);
            len_offset.append(field_name);
            len_offset.append(LEN_1);
            len_offset.append(e);
            len_offset.append(LEN_2);
            let mut out = String::from_str(VLA_0);
            out.append(offset);
            out.append(VLA_1);
            out.append(len_offset.as_str());
            out.append(VLA_2);
            out.append(e);
            out.append(ELEMENT_TAIL);
            return Ok(out);
        }
    }
    let m = type_.unicode_len();
    if has_prefix(type_, "[") {
        let rest = type_.substring_char(1, m);
        if has_suffix(rest, "]") {
            assert(rest@ =~= type_@.subrange(1, m as int));
            let a = type_.substring_char(1, m - 1);
            match find_char(a, ';') {
                None => {
                    return Err(String::from_str(ARRAY_ERR));
                },
                Some(k) => {
                    let length = a.substring_char(k + 1, a.unicode_len());
                    let element = a.substring_char(0, k);
                    let mut out = String::from_str(ARRAY_0);
                    out.append(offset);
                    out.append(ARRAY_1);
                    out.append(length);
                    out.append(ARRAY_2);
                    out.append(element);
                    out.append(ELEMENT_TAIL);
                    return Ok(out);
                },
            }
        }
    }
    if text_eq(type_, "bool") {
        let mut out = String::from_str(BOOL_0);
        out.append(offset);
        out.append(BOOL_1);
        return Ok(out);
    }
    match integer_tail_text(type_) {
        Some(tail) => {
            let mut out = String::from_str(INT_0);
            out.append(offset);
            out.append(tail);
            Ok(out)
        },
        None => nested_struct_layout(type_, offset),
    }
}

/* The arguments of an event. */

pub const EXTERN_ARG_0: &'static str = "&";
pub const EXTERN_ARG_1: &'static str = "::Type";

pub open spec fn argument_type_spec(kind: FieldKind) -> Seq<char> {
    match kind {
        FieldKind::Rust(t) => t@,
        FieldKind::Extern(path) => EXTERN_ARG_0@ + path@ + EXTERN_ARG_1@,
    }
}

/// The Rust type of the argument a field takes: its own type, or a
/// reference to the structure described elsewhere.
pub fn argument_type(kind: &FieldKind) -> (r: String)
    ensures
        r@ == argument_type_spec(*kind),
{
    match kind {
        FieldKind::Rust(t) => t.clone(),
        FieldKind::Extern(path) => {
            let mut out = String::from_str(EXTERN_ARG_0);
            out.append(path.as_str());
            out.append(EXTERN_ARG_1);
            out
        },
    }
}

pub const ARGS_PLACEHOLDER: &'static str = "{args}";
pub const WITH_0: &'static str = "<";
pub const WITH_1: &'static str = " as ::libside::side::FieldType>::with_side_arg(";
pub const WITH_2: &'static str = ", |";
pub const WITH_3: &'static str = "| { ";
pub const WITH_4: &'static str = " })";

/// The names of the arguments.
pub open spec fn arg_names(args: Seq<(Seq<char>, Seq<char>)>) -> Seq<Seq<char>> {
    Seq::new(args.len(), |i: int| args[i].0)
}

/// `body` inside one closure per argument, the first outermost.
pub open spec fn wrap_args(args: Seq<(Seq<char>, Seq<char>)>, body: Seq<char>) -> Seq<char>
    decreases args.len(),
{
    if args.len() == 0 {
        body
    } else {
        let name = args[0].0;
        WITH_0@ + args[0].1 + WITH_1@ + name + WITH_2@ + name + WITH_3@ + wrap_args(
            args.drop_first(),
            body,
        ) + WITH_4@
    }
}

pub open spec fn with_side_args_spec(args: Seq<(Seq<char>, Seq<char>)>, call: Seq<char>) -> Seq<char> {
    wrap_args(args, replace_all(call, ARGS_PLACEHOLDER@, join(arg_names(args), COMMA@)))
}

/// The nest of closures which keeps every argument alive until the call.
///
/// `call` is what to do once they all are, with `{args}` standing for
/// the arguments as libside wants them.
pub fn with_side_args(arguments: &[(String, String)], call: &str) -> (r: String)
    ensures
        r@ == with_side_args_spec(pair_views(arguments@), call@),
{
    proof {
        reveal_strlit("{args}");
    }
    let n = arguments.len();
    let mut names = String::new();
    let mut i: usize = 0;
    while i < n
        invariant
            n == arguments@.len(),
            i <= n,
            names@ == join(arg_names(pair_views(arguments@).subrange(0, i as int)), COMMA@),
        decreases n - i,
    {
        let ghost before = arg_names(pair_views(arguments@).subrange(0, i as int));
        let ghost after = arg_names(pair_views(arguments@).subrange(0, i + 1));
        assert(after.drop_last() =~= before);
        if i > 0 {
            names.append(COMMA);
        }
        names.append(arguments[i].0.as_str());
        assert(after.len() == 1 ==> after[0] == arguments@[i as int].0@);
        assert(names@ =~= join(after, COMMA@));
        i += 1;
    }
    assert(pair_views(arguments@).subrange(0, n as int) =~= pair_views(arguments@));
    let mut body = replace_text(call, ARGS_PLACEHOLDER, names.as_str());
    let ghost base = body@;
    let ghost args = pair_views(arguments@);
    let mut k: usize = n;
    assert(args.subrange(n as int, n as int) =~= Seq::<(Seq<char>, Seq<char>)>::empty());
    while k > 0
        invariant
            n == arguments@.len(),
            args == pair_views(arguments@),
            k <= n,
            body@ == wrap_args(args.subrange(k as int, n as int), base),
        decreases k,
    {
        let (name, type_) = &arguments[k - 1];
        let mut next = String::from_str(WITH_0);
        next.append(type_.as_str());
        next.append(WITH_1);
        next.append(name.as_str());
        next.append(WITH_2);
        next.append(name.as_str());
        next.append(WITH_3);
        next.append(body.as_str());
        next.append(WITH_4);
        assert(args.subrange(k - 1, n as int).drop_first() =~= args.subrange(k as int, n as int));
        body = next;
        k -= 1;
    }
    assert(args.subrange(0, n as int) =~= args);
    body
}

/* The object a group's description is built into. */

pub const HOLE_0: &'static str = "const HOLE_";
pub const HOLE_1: &'static str = ": usize = BUILT.patches[";
pub const HOLE_2: &'static str = "].at;\n";
pub const RUN_FIRST: &'static str = "const RUN_0: usize = HOLE_0;\n";
pub const RUN_0: &'static str = "const RUN_";
pub const RUN_1: &'static str = ": usize = HOLE_";
pub const RUN_2: &'static str = " - HOLE_";
pub const RUN_3: &'static str = " - ::libside::side::PATCH_WIDTH;\n";
pub const RUN_ONLY: &'static str = "const RUN_0: usize = SIZE;\n";
pub const RUN_LAST: &'static str = ": usize = SIZE - HOLE_";
pub const INIT_FIRST: &'static str = "run_0: ::libside::side::description_run::<RUN_0>(&BUILT.bytes, 0),";
pub const INIT_0: &'static str = "run_";
pub const INIT_1: &'static str = ": ::libside::side::description_run::<RUN_";
pub const INIT_2: &'static str = ">(&BUILT.bytes, HOLE_";
pub const INIT_3: &'static str = " + ::libside::side::PATCH_WIDTH),";
pub const PTR_0: &'static str = "ptr_";
pub const PTR_1: &'static str = ": ::libside::side::SideRawPtr::from_ptr(unsafe { ::core::ptr::addr_of_mut!(";
pub const PTR_2: &'static str = "::DESC) }.cast()),";
pub const FIELD_0: &'static str = "run_";
pub const FIELD_1: &'static str = ": [u8; RUN_";
pub const FIELD_2: &'static str = "], ptr_";
pub const FIELD_3: &'static str = ": ::libside::side::SideRawPtr,";
pub const FIELD_LAST: &'static str = "],";

/// How the run before hole `i` is initialised.
pub open spec fn run_init(i: nat) -> Seq<char> {
    if i == 0 {
        INIT_FIRST@
    } else {
        INIT_0@ + decimal(i) + INIT_1@ + decimal(i) + INIT_2@ + decimal((i - 1) as nat) + INIT_3@
    }
}

/// What hole `i` declares.
pub open spec fn hole_decls(i: nat) -> Seq<char> {
    HOLE_0@ + decimal(i) + HOLE_1@ + decimal(i) + HOLE_2@ + if i == 0 {
        RUN_FIRST@
    } else {
        RUN_0@ + decimal(i) + RUN_1@ + decimal(i) + RUN_2@ + decimal((i - 1) as nat) + RUN_3@
    }
}

/// The members for the run before hole `i` and the pointer in it.
pub open spec fn hole_fields(i: nat) -> Seq<char> {
    FIELD_0@ + decimal(i) + FIELD_1@ + decimal(i) + FIELD_2@ + decimal(i) + FIELD_3@
}

/// How the run before hole `i` and the pointer in it are initialised.
pub open spec fn hole_init(i: nat, path: Seq<char>) -> Seq<char> {
    run_init(i) + PTR_0@ + decimal(i) + PTR_1@ + path + PTR_2@
}

pub open spec fn holes_decls(k: nat) -> Seq<char>
    decreases k,
{
    if k == 0 {
        Seq::empty()
    } else {
        holes_decls((k - 1) as nat) + hole_decls((k - 1) as nat)
    }
}

pub open spec fn holes_fields(k: nat) -> Seq<char>
    decreases k,
{
    if k == 0 {
        Seq::empty()
    } else {
        holes_fields((k - 1) as nat) + hole_fields((k - 1) as nat)
    }
}

pub open spec fn holes_init(uses: Seq<Seq<char>>, k: nat) -> Seq<char>
    decreases k,
{
    if k == 0 {
        Seq::empty()
    } else {
        holes_init(uses, (k - 1) as nat) + hole_init((k - 1) as nat, uses[k - 1])
    }
}

/// What the run after the last hole declares.
pub open spec fn last_decl(k: nat) -> Seq<char> {
    if k == 0 {
        RUN_ONLY@
    } else {
        RUN_0@ + decimal(k) + RUN_LAST@ + decimal((k - 1) as nat) + RUN_3@
    }
}

pub open spec fn description_object_spec(uses: Seq<Seq<char>>) -> (Seq<char>, Seq<char>, Seq<char>) {
    let k = uses.len();
    (
        holes_decls(k) + last_decl(k),
        holes_fields(k) + FIELD_0@ + decimal(k) + FIELD_1@ + decimal(k) + FIELD_LAST@,
        holes_init(uses, k) + run_init(k),
    )
}

/// The description as an object: the runs of bytes the const evaluator
/// laid out, and a pointer at each hole it left, one for each of
/// `uses`, the structures described elsewhere.
///
/// Returns what to declare before the object, what it holds, and how it
/// is built. A group with no reference to a structure described
/// elsewhere is one run and nothing else.
pub fn description_object(uses: &[String]) -> (r: (String, String, String))
    ensures
        (r.0@, r.1@, r.2@) == description_object_spec(views(uses@)),
{
    let mut holes = String::new();
    let mut fields = String::new();
    let mut init = String::new();
    let n = uses.len();
    let mut i: usize = 0;
    while i < n
        invariant
            n == uses@.len(),
            i <= n,
            holes@ == holes_decls(i as nat),
            fields@ == holes_fields(i as nat),
            init@ == holes_init(views(uses@), i as nat),
        decreases n - i,
    {
        push_hole_decls(&mut holes, i);
        push_hole_fields(&mut fields, i);
        push_hole_init(&mut init, i, uses[i].as_str());
        assert(holes@ =~= holes_decls((i + 1) as nat));
        assert(fields@ =~= holes_fields((i + 1) as nat));
        assert(init@ =~= holes_init(views(uses@), (i + 1) as nat));
        i += 1;
    }
    if n == 0 {
        holes.append(RUN_ONLY);
    } else {
        holes.append(RUN_0);
        push_decimal(&mut holes, n);
        holes.append(RUN_LAST);
        push_decimal(&mut holes, n - 1);
        holes.append(RUN_3);
    }
    push_run_init(&mut init, n);
    fields.append(FIELD_0);
    push_decimal(&mut fields, n);
    fields.append(FIELD_1);
    push_decimal(&mut fields, n);
    fields.append(FIELD_LAST);
    assert(holes@ =~= holes_decls(n as nat) + last_decl(n as nat));
    assert(fields@ =~= holes_fields(n as nat) + FIELD_0@ + decimal(n as nat) + FIELD_1@ + decimal(
        n as nat,
    ) + FIELD_LAST@);
    (holes, fields, init)
}

fn push_run_init(out: &mut String, i: usize)
    ensures
        final(out)@ == old(out)@ + run_init(i as nat),
{
    if i == 0 {
        out.append(INIT_FIRST);
    } else {
        out.append(INIT_0);
        push_decimal(out, i);
        out.append(INIT_1);
        push_decimal(out, i);
        out.append(INIT_2);
        push_decimal(out, i - 1);
        out.append(INIT_3);
    }
    assert(out@ =~= old(out)@ + run_init(i as nat));
}

fn push_hole_decls(out: &mut String, i: usize)
    ensures
        final(out)@ == old(out)@ + hole_decls(i as nat),
{
    out.append(HOLE_0);
    push_decimal(out, i);
    out.append(HOLE_1);
    push_decimal(out, i);
    out.append(HOLE_2);
    if i == 0 {
        out.append(RUN_FIRST);
    } else {
        out.append(RUN_0);
        push_decimal(out, i);
        out.append(RUN_1);
        push_decimal(out, i);
        out.append(RUN_2);
        push_decimal(out, i - 1);
        out.append(RUN_3);
    }
    assert(out@ =~= old(out)@ + hole_decls(i as nat));
}

fn push_hole_fields(out: &mut String, i: usize)
    ensures
        final(out)@ == old(out)@ + hole_fields(i as nat),
{
    out.append(FIELD_0);
    push_decimal(out, i);
    out.append(FIELD_1);
    push_decimal(out, i);
    out.append(FIELD_2);
    push_decimal(out, i);
    out.append(FIELD_3);
    assert(out@ =~= old(out)@ + hole_fields(i as nat));
}

fn push_hole_init(out: &mut String, i: usize, path: &str)
    ensures
        final(out)@ == old(out)@ + hole_init(i as nat, path@),
{
    push_run_init(out, i);
    out.append(PTR_0);
    push_decimal(out, i);
    out.append(PTR_1);
    out.append(path);
    out.append(PTR_2);
    assert(out@ =~= old(out)@ + hole_init(i as nat, path@));
}

/// A member whose type is one of Rust's fixed-width integers is
/// described as a gathered integer of that type's width in bytes and of
/// its signedness, read at the member's offset: `u8`, `u16`, `u32` and
/// `u64` unsigned, of 1, 2, 4 and 8 bytes, and `i8`, `i16`, `i32` and
/// `i64` signed, of 1, 2, 4 and 8 bytes.
pub proof fn law_integer_members(s: Seq<char>, f: Seq<char>, off: Seq<char>)
    ensures
        member_layout_spec(s, f, "u8"@, off) == Ok::<Seq<char>, Seq<char>>(
            "::libside::side::Layout::GatherInteger { offset: "@ + off + ", size: 1, signed: false }"@,
        ),
        member_layout_spec(s, f, "u16"@, off) == Ok::<Seq<char>, Seq<char>>(
            "::libside::side::Layout::GatherInteger { offset: "@ + off + ", size: 2, signed: false }"@,
        ),
        member_layout_spec(s, f, "u32"@, off) == Ok::<Seq<char>, Seq<char>>(
            "::libside::side::Layout::GatherInteger { offset: "@ + off + ", size: 4, signed: false }"@,
        ),
        member_layout_spec(s, f, "u64"@, off) == Ok::<Seq<char>, Seq<char>>(
            "::libside::side::Layout::GatherInteger { offset: "@ + off + ", size: 8, signed: false }"@,
        ),
        member_layout_spec(s, f, "i8"@, off) == Ok::<Seq<char>, Seq<char>>(
            "::libside::side::Layout::GatherInteger { offset: "@ + off + ", size: 1, signed: true }"@,
        ),
        member_layout_spec(s, f, "i16"@, off) == Ok::<Seq<char>, Seq<char>>(
            "::libside::side::Layout::GatherInteger { offset: "@ + off + ", size: 2, signed: true }"@,
        ),
        member_layout_spec(s, f, "i32"@, off) == Ok::<Seq<char>, Seq<char>>(
            "::libside::side::Layout::GatherInteger { offset: "@ + off + ", size: 4, signed: true }"@,
        ),
        member_layout_spec(s, f, "i64"@, off) == Ok::<Seq<char>, Seq<char>>(
            "::libside::side::Layout::GatherInteger { offset: "@ + off + ", size: 8, signed: true }"@,
        ),
{
    reveal_strlit("u8");
    reveal_strlit("u16");
    reveal_strlit("u32");
    reveal_strlit("u64");
    reveal_strlit("i8");
    reveal_strlit("i16");
    reveal_strlit("i32");
    reveal_strlit("i64");
    reveal_strlit("bool");
    reveal_strlit("[");
    reveal_strlit(", size: 1, signed: false }");
    reveal_strlit(", size: 2, signed: false }");
    reveal_strlit(", size: 4, signed: false }");
    reveal_strlit(", size: 8, signed: false }");
    reveal_strlit(", size: 1, signed: true }");
    reveal_strlit(", size: 2, signed: true }");
    reveal_strlit(", size: 4, signed: true }");
    reveal_strlit(", size: 8, signed: true }");
    reveal_strlit("::libside::side::Layout::GatherInteger { offset: ");
    reveal_strlit("::libside::side::SideVla<");
    reveal_with_fuel(no_spaces, 4);
}

} // verus!
