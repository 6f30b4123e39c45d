//! What `#[derive(SideGather)]` writes for a structure: the shape of
//! each member, a check that each member has the type it was read as,
//! and -- for a structure holding a vector -- a view of it laid out the
//! way libside reads it.
use vstd::prelude::*;

use crate::codegen::{
    is_primitive, is_primitive_spec, member_layout, member_layout_spec, pair_views, text_result,
    vec_element_spec, vec_element_type, COMMA,
};
use crate::templates::{
    GATHER_0, GATHER_1, GATHER_10, GATHER_11, GATHER_12, GATHER_2, GATHER_3, GATHER_4, GATHER_5,
    GATHER_6, GATHER_7, GATHER_8, GATHER_9,
};
use crate::text::{replace_all, replace_text};

verus! {

broadcast use vstd::seq::group_seq_axioms;

pub const MODULE_PREFIX: &'static str = "__side_gather_for_";
pub const VIEW_PREFIX: &'static str = "__side_gather_view_for_";
pub const SIDEVLA_0: &'static str = "::libside::side::SideVla<";
pub const SIDEVLA_1: &'static str = ">";
pub const OFFSET_0: &'static str = "::core::mem::offset_of!(";
pub const OFFSET_1: &'static str = ") as u64";
pub const FIELD_0: &'static str = "::libside::side::Field { name: ::core::stringify!(";
pub const FIELD_1: &'static str = "), layout: ";
pub const FIELD_2: &'static str = ", attributes: &[] },";
pub const ASSERT_0: &'static str = "let _: &";
pub const ASSERT_1: &'static str = " = &value.";
pub const ASSERT_2: &'static str = ";";
pub const REF_SPACED: &'static str = "& ' ";
pub const REF_TIGHT: &'static str = "&'";
pub const VIEW_VLA_0: &'static str = ": ::libside::side::SideVla<";
pub const VIEW_VLA_1: &'static str = ">,";
pub const VALUE_VLA_0: &'static str = ": ::libside::side::SideVla::from_slice(&self.";
pub const VALUE_VLA_1: &'static str = "),";
pub const VIEW_0: &'static str = ": ";
pub const VIEW_1: &'static str = ",";
pub const VALUE_0: &'static str = ": self.";
pub const VALUE_1: &'static str = ",";
pub const VEC_ERR: &'static str = "SIDE structs containing Vec members currently support primitive and Vec fields";
pub const VIEW_DEF_0: &'static str = "#[repr(C)] struct ";
pub const VIEW_DEF_1: &'static str = " { ";
pub const VIEW_DEF_2: &'static str = " }";
pub const OWNED_0: &'static str = "::libside::side::PreparedSideArg::owned_gather(";
pub const OWNED_1: &'static str = " { ";
pub const OWNED_2: &'static str = " })";
pub const BORROWED_0: &'static str = "::libside::side::PreparedSideArg::new(::libside::side::SideArg::gather_struct(self as *const ";
pub const BORROWED_1: &'static str = "))";
pub const WITH_ARG_0: &'static str = "fn with_side_arg<R>(self, f: impl FnOnce(::libside::side::SideArg) -> R) -> R { let view = ";
pub const WITH_ARG_1: &'static str = " { ";
pub const WITH_ARG_2: &'static str = " }; f(::libside::side::SideArg::gather_struct(::core::ptr::addr_of!(view))) }";

/// Whether a member of the structure is a vector.
pub open spec fn any_vec(fields: Seq<(Seq<char>, Seq<char>)>) -> bool
    decreases fields.len(),
{
    fields.len() > 0 && (any_vec(fields.drop_last()) || vec_element_spec(fields.last().1) is Some)
}

/// What one member adds: to the member shapes, to the type checks, and
/// -- where the structure is read through a view -- to the view's
/// members and to how it is filled in.
pub open spec fn member_parts(
    layout_struct: Seq<char>,
    has_vec: bool,
    name: Seq<char>,
    t: Seq<char>,
) -> Result<(Seq<char>, Seq<char>, Seq<char>, Seq<char>), Seq<char>> {
    let element = vec_element_spec(t);
    let member_type = match element {
        Some(e) => SIDEVLA_0@ + e + SIDEVLA_1@,
        None => t,
    };
    let offset = OFFSET_0@ + layout_struct + COMMA@ + name + OFFSET_1@;
    match member_layout_spec(layout_struct, name, member_type, offset) {
        Err(e) => Err(e),
        Ok(layout) => {
            let layouts = FIELD_0@ + name + FIELD_1@ + layout + FIELD_2@;
            let assertion = ASSERT_0@ + replace_all(t, REF_SPACED@, REF_TIGHT@) + ASSERT_1@ + name
                + ASSERT_2@;
            if !has_vec {
                Ok((layouts, assertion, Seq::empty(), Seq::empty()))
            } else {
                match element {
                    Some(e) => Ok(
                        (
                            layouts,
                            assertion,
                            name + VIEW_VLA_0@ + e + VIEW_VLA_1@,
                            name + VALUE_VLA_0@ + name + VALUE_VLA_1@,
                        ),
                    ),
                    None => if is_primitive_spec(t) {
                        Ok(
                            (
                                layouts,
                                assertion,
                                name + VIEW_0@ + t + VIEW_1@,
                                name + VALUE_0@ + name + VALUE_1@,
                            ),
                        )
                    } else {
                        Err(VEC_ERR@)
                    },
                }
            }
        },
    }
}

/// What the first `k` members add, or what is wrong with the first of
/// them which is wrong.
pub open spec fn members_parts(
    layout_struct: Seq<char>,
    has_vec: bool,
    fields: Seq<(Seq<char>, Seq<char>)>,
    k: nat,
) -> Result<(Seq<char>, Seq<char>, Seq<char>, Seq<char>), Seq<char>>
    decreases k,
{
    if k == 0 {
        Ok((Seq::empty(), Seq::empty(), Seq::empty(), Seq::empty()))
    } else {
        match members_parts(layout_struct, has_vec, fields, (k - 1) as nat) {
            Err(e) => Err(e),
            Ok(p) => match member_parts(layout_struct, has_vec, fields[k - 1].0, fields[k - 1].1) {
                Err(e) => Err(e),
                Ok(q) => Ok((p.0 + q.0, p.1 + q.1, p.2 + q.2, p.3 + q.3)),
            },
        }
    }
}

pub open spec fn gather_spec(struct_name: Seq<char>, fields: Seq<(Seq<char>, Seq<char>)>) -> Result<
    Seq<char>,
    Seq<char>,
> {
    let module_name = MODULE_PREFIX@ + struct_name;
    let view_name = VIEW_PREFIX@ + struct_name;
    let has_vec = any_vec(fields);
    let layout_struct = if has_vec {
        view_name
    } else {
        struct_name
    };
    match members_parts(layout_struct, has_vec, fields, fields.len()) {
        Err(e) => Err(e),
        Ok(p) => {
            let view_definition = if has_vec {
                VIEW_DEF_0@ + view_name + VIEW_DEF_1@ + p.2 + VIEW_DEF_2@
            } else {
                Seq::empty()
            };
            let prepared_arg = if has_vec {
                OWNED_0@ + view_name + OWNED_1@ + p.3 + OWNED_2@
            } else {
                BORROWED_0@ + struct_name + BORROWED_1@
            };
            let with_side_arg = if has_vec {
                WITH_ARG_0@ + view_name + WITH_ARG_1@ + p.3 + WITH_ARG_2@
            } else {
                Seq::empty()
            };
            Ok(
                GATHER_0@ + module_name + GATHER_1@ + struct_name + GATHER_2@ + p.1 + GATHER_3@
                    + view_definition + GATHER_4@ + struct_name + GATHER_5@ + p.0 + GATHER_6@
                    + layout_struct + GATHER_7@ + struct_name + GATHER_8@ + struct_name
                    + GATHER_9@ + struct_name + GATHER_10@ + prepared_arg + GATHER_11@
                    + with_side_arg + GATHER_12@,
            )
        },
    }
}

/// Four texts or an error, as views.
pub open spec fn parts_result(r: Result<(String, String, String, String), String>) -> Result<
    (Seq<char>, Seq<char>, Seq<char>, Seq<char>),
    Seq<char>,
> {
    match r {
        Ok(p) => Ok((p.0@, p.1@, p.2@, p.3@)),
        Err(e) => Err(e@),
    }
}

fn member_parts_of(layout_struct: &str, has_vec: bool, name: &str, t: &str) -> (r: Result<
    (String, String, String, String),
    String,
>)
    ensures
        parts_result(r) == member_parts(layout_struct@, has_vec, name@, t@),
{
    let element = vec_element_type(t);
    let member_type = match &element {
        Some(e) => {
            let mut m = String::from_str(SIDEVLA_0);
            m.append(e.as_str());
            m.append(SIDEVLA_1);
            m
        },
        None => String::from_str(t),
    };
    let mut offset = String::from_str(OFFSET_0);
    offset.append(layout_struct);
    offset.append(COMMA);
    offset.append(name);
    offset.append(OFFSET_1);
    let layout = match member_layout(layout_struct, name, member_type.as_str(), offset.as_str()) {
        Err(e) => {
            return Err(e);
        },
        Ok(layout) => layout,
    };
    let mut layouts = String::from_str(FIELD_0);
    layouts.append(name);
    layouts.append(FIELD_1);
    layouts.append(layout.as_str());
    layouts.append(FIELD_2);
    proof {
        reveal_strlit("& ' ");
    }
    let tight = replace_text(t, REF_SPACED, REF_TIGHT);
    let mut assertion = String::from_str(ASSERT_0);
    assertion.append(tight.as_str());
    assertion.append(ASSERT_1);
    assertion.append(name);
    assertion.append(ASSERT_2);
    if !has_vec {
        return Ok((layouts, assertion, String::new(), String::new()));
    }
    match &element {
        Some(e) => {
            let mut view = String::from_str(name);
            view.append(VIEW_VLA_0);
            view.append(e.as_str());
            view.append(VIEW_VLA_1);
            let mut value = String::from_str(name);
            value.append(VALUE_VLA_0);
            value.append(name);
            value.append(VALUE_VLA_1);
            Ok((layouts, assertion, view, value))
        },
        None => {
            if is_primitive(t) {
                let mut view = String::from_str(name);
                view.append(VIEW_0);
                view.append(t);
                view.append(VIEW_1);
                let mut value = String::from_str(name);
                value.append(VALUE_0);
                value.append(name);
                value.append(VALUE_1);
                Ok((layouts, assertion, view, value))
            } else {
                Err(String::from_str(VEC_ERR))
            }
        },
    }
}

fn any_vec_of(fields: &[(String, String)]) -> (r: bool)
    ensures
        r == any_vec(pair_views(fields@)),
{
    let ghost f = pair_views(fields@);
    let mut found = false;
    let mut k: usize = 0;
    while k < fields.len()
        invariant
            f == pair_views(fields@),
            k <= fields@.len(),
            found == any_vec(f.subrange(0, k as int)),
        decreases fields@.len() - k,
    {
        assert(f.subrange(0, k + 1).drop_last() =~= f.subrange(0, k as int));
        let e = vec_element_type(fields[k].1.as_str());
        found = found || e.is_some();
        k += 1;
    }
    assert(f.subrange(0, fields@.len() as int) =~= f);
    found
}

/// What `#[derive(SideGather)]` writes for the structure `struct_name`
/// with the members `fields`, each a name and the type as written: the
/// module describing it, or why it cannot be described.
pub fn gather_text(struct_name: &str, fields: &[(String, String)]) -> (r: Result<String, String>)
    ensures
        text_result(r) == gather_spec(struct_name@, pair_views(fields@)),
{
    let ghost f = pair_views(fields@);
    let mut module_name = String::from_str(MODULE_PREFIX);
    module_name.append(struct_name);
    let mut view_name = String::from_str(VIEW_PREFIX);
    view_name.append(struct_name);
    let has_vec = any_vec_of(fields);
    /*
     * A Vec is three words in an order Rust does not promise, so a
     * structure holding one is described through a view whose vectors
     * are laid out the way libside reads them. Everything a member
     * offset is measured against is then that view.
     */
    let layout_struct: &str = if has_vec {
        view_name.as_str()
    } else {
        struct_name
    };

    let mut layouts = String::new();
    let mut assertions = String::new();
    let mut view_fields = String::new();
    let mut view_values = String::new();
    let mut k: usize = 0;
    while k < fields.len()
        invariant
            f == pair_views(fields@),
            k <= fields@.len(),
            has_vec == any_vec(f),
            view_name@ == VIEW_PREFIX@ + struct_name@,
            module_name@ == MODULE_PREFIX@ + struct_name@,
            layout_struct@ == if has_vec {
                view_name@
            } else {
                struct_name@
            },
            members_parts(layout_struct@, has_vec, f, k as nat) == Ok::<
                (Seq<char>, Seq<char>, Seq<char>, Seq<char>),
                Seq<char>,
            >((layouts@, assertions@, view_fields@, view_values@)),
        decreases fields@.len() - k,
    {
        match member_parts_of(layout_struct, has_vec, fields[k].0.as_str(), fields[k].1.as_str()) {
            Err(e) => {
                proof {
                    assert(f[k as int] == (fields@[k as int].0@, fields@[k as int].1@));
                    assert(members_parts(layout_struct@, has_vec, f, (k + 1) as nat) == Err::<
                        (Seq<char>, Seq<char>, Seq<char>, Seq<char>),
                        Seq<char>,
                    >(e@));
                    lemma_members_err(layout_struct@, has_vec, f, (k + 1) as nat);
                }
                return Err(e);
            },
            Ok((a, b, c, d)) => {
                layouts.append(a.as_str());
                assertions.append(b.as_str());
                view_fields.append(c.as_str());
                view_values.append(d.as_str());
            },
        }
        k += 1;
    }

    let view_definition = if has_vec {
        let mut v = String::from_str(VIEW_DEF_0);
        v.append(view_name.as_str());
        v.append(VIEW_DEF_1);
        v.append(view_fields.as_str());
        v.append(VIEW_DEF_2);
        v
    } else {
        String::new()
    };
    let prepared_arg = if has_vec {
        let mut v = String::from_str(OWNED_0);
        v.append(view_name.as_str());
        v.append(OWNED_1);
        v.append(view_values.as_str());
        v.append(OWNED_2);
        v
    } else {
        let mut v = String::from_str(BORROWED_0);
        v.append(struct_name);
        v.append(BORROWED_1);
        v
    };
    let with_side_arg = if has_vec {
        let mut v = String::from_str(WITH_ARG_0);
        v.append(view_name.as_str());
        v.append(WITH_ARG_1);
        v.append(view_values.as_str());
        v.append(WITH_ARG_2);
        v
    } else {
        String::new()
    };

    let mut out = String::from_str(GATHER_0);
    out.append(module_name.as_str());
    out.append(GATHER_1);
    out.append(struct_name);
    out.append(GATHER_2);
    out.append(assertions.as_str());
    out.append(GATHER_3);
    out.append(view_definition.as_str());
    out.append(GATHER_4);
    out.append(struct_name);
    out.append(GATHER_5);
    out.append(layouts.as_str());
    out.append(GATHER_6);
    out.append(layout_struct);
    out.append(GATHER_7);
    out.append(struct_name);
    out.append(GATHER_8);
    out.append(struct_name);
    out.append(GATHER_9);
    out.append(struct_name);
    out.append(GATHER_10);
    out.append(prepared_arg.as_str());
    out.append(GATHER_11);
    out.append(with_side_arg.as_str());
    out.append(GATHER_12);
    assert(out@ =~= gather_spec(struct_name@, f)->Ok_0);
    Ok(out)
}

/// Once a member is wrong, so is every longer list of members.
proof fn lemma_members_err(
    layout_struct: Seq<char>,
    has_vec: bool,
    fields: Seq<(Seq<char>, Seq<char>)>,
    k: nat,
)
    requires
        k <= fields.len(),
        members_parts(layout_struct, has_vec, fields, k) is Err,
    ensures
        members_parts(layout_struct, has_vec, fields, fields.len()) == members_parts(
            layout_struct,
            has_vec,
            fields,
            k,
        ),
    decreases fields.len() - k,
{
    if k < fields.len() {
        lemma_members_err(layout_struct, has_vec, fields, k + 1);
    }
}

} // verus!
