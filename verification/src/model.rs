//! What a description is laid out from: the shape of each field, the
//! attributes of a type or an event, and the events of a group.
use vstd::prelude::*;

use crate::abi::SIDE_TYPE_GATHER_ACCESS_DIRECT;

verus! {

/// What an attribute holds.
///
/// The types libside gives an attribute value, of which these are the
/// ones a description built here can carry.
#[derive(Clone, Copy)]
pub enum AttrValue {
    Null,
    Bool(bool),
    U8(u8),
    U16(u16),
    U32(u32),
    U64(u64),
    S8(i8),
    S16(i16),
    S32(i32),
    S64(i64),
    String(&'static str),
}

/// One attribute of an event or of a type: a key and a value.
#[derive(Clone, Copy)]
pub struct Attr {
    pub key: &'static str,
    pub value: AttrValue,
}

/// What the description of one field looks like.
///
/// A structure owns the shapes of its fields and an array or a vector
/// the shape of its element, so that every shape is a finite tree.
pub enum Layout {
    /* Stack-copy types: the value is pushed at the call site. */
    Bool,
    Integer { size: u16, signed: bool },
    Pointer,
    String,
    /*
     * Gather types: the call site pushes a base address and the
     * description says what to read from it.
     */
    GatherBool { offset: u64, size: u16 },
    GatherInteger { offset: u64, size: u16, signed: bool },
    GatherPointer { offset: u64 },
    GatherStruct { offset: u64, size: u32, access: u8, fields: Vec<Field> },
    GatherArray { offset: u64, length: u32, elem: Box<Layout> },
    GatherVla { offset: u64, len_offset: u64, elem: Box<Layout> },
    /*
     * A structure described in another object: its address is left as a
     * hole for the loader to fill; see `Patch`. `target` names which
     * structure, by position in the list of those a group refers to, so
     * that two references which describe the same way but name
     * different structures are not taken for one.
     */
    ExternStruct { offset: u64, size: u32, access: u8, target: usize },
}

/// A named field, of an event or of a gather structure.
pub struct Field {
    pub name: &'static str,
    pub layout: Layout,
    /// The attributes of the field's type, which is where libside keeps
    /// them.
    pub attributes: &'static [Attr],
}

/// One event, as a group lays it out.
pub struct EventSpec {
    pub provider: &'static str,
    pub event: &'static str,
    pub loglevel: u32,
    pub flags: u64,
    pub fields: Vec<Field>,
    pub attributes: &'static [Attr],
}

/// Where a foreign address goes: the byte of the description at which a
/// hole `PATCH_WIDTH` wide was left for the loader to fill.
#[derive(Clone, Copy)]
pub struct Patch {
    pub at: usize,
}

/// What the builder lays out: the bytes, and the `K` places in them
/// where an address belongs.
pub struct Built<const N: usize, const K: usize> {
    pub bytes: [u8; N],
    pub patches: [Patch; K],
}

/// The shape of a gather structure as the element of an array or of a
/// vector, where the base address is the element itself.
pub fn struct_element(fields: Vec<Field>, size: u32) -> (r: Layout)
    ensures
        r == (Layout::GatherStruct {
            offset: 0,
            size,
            access: SIDE_TYPE_GATHER_ACCESS_DIRECT,
            fields,
        }),
{
    Layout::GatherStruct { offset: 0, size, access: SIDE_TYPE_GATHER_ACCESS_DIRECT, fields }
}

/// A Rust structure libside reads members out of.
///
/// The derive names the members; the two methods below are what a field
/// site needs to describe the structure wherever it appears.
pub trait GatherType {
    fn fields() -> Vec<Field>;

    fn size() -> u32;

    /// The structure as the element of an array or of a vector: read in
    /// place, from the start of the element.
    fn element() -> (r: Layout)
        default_ensures
            r matches Layout::GatherStruct { offset, access, .. } && offset == 0 && access
                == SIDE_TYPE_GATHER_ACCESS_DIRECT,
    {
        struct_element(Self::fields(), Self::size())
    }
}

/// An attribute, spelled as `side_attr()` spells one in C.
pub fn side_attr(key: &'static str, value: AttrValue) -> (r: Attr)
    ensures
        r == (Attr { key, value }),
{
    Attr { key, value }
}

pub fn side_attr_null() -> (r: AttrValue)
    ensures
        r == AttrValue::Null,
{
    AttrValue::Null
}

pub fn side_attr_bool(value: bool) -> (r: AttrValue)
    ensures
        r == AttrValue::Bool(value),
{
    AttrValue::Bool(value)
}

pub fn side_attr_u8(value: u8) -> (r: AttrValue)
    ensures
        r == AttrValue::U8(value),
{
    AttrValue::U8(value)
}

pub fn side_attr_u16(value: u16) -> (r: AttrValue)
    ensures
        r == AttrValue::U16(value),
{
    AttrValue::U16(value)
}

pub fn side_attr_u32(value: u32) -> (r: AttrValue)
    ensures
        r == AttrValue::U32(value),
{
    AttrValue::U32(value)
}

pub fn side_attr_u64(value: u64) -> (r: AttrValue)
    ensures
        r == AttrValue::U64(value),
{
    AttrValue::U64(value)
}

pub fn side_attr_s8(value: i8) -> (r: AttrValue)
    ensures
        r == AttrValue::S8(value),
{
    AttrValue::S8(value)
}

pub fn side_attr_s16(value: i16) -> (r: AttrValue)
    ensures
        r == AttrValue::S16(value),
{
    AttrValue::S16(value)
}

pub fn side_attr_s32(value: i32) -> (r: AttrValue)
    ensures
        r == AttrValue::S32(value),
{
    AttrValue::S32(value)
}

pub fn side_attr_s64(value: i64) -> (r: AttrValue)
    ensures
        r == AttrValue::S64(value),
{
    AttrValue::S64(value)
}

pub fn side_attr_string(value: &'static str) -> (r: AttrValue)
    ensures
        r == AttrValue::String(value),
{
    AttrValue::String(value)
}

} // verus!
