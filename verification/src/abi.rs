//! The numbers of the libside description ABI: type labels, attribute
//! types, log levels, and where each member of the packed structures a
//! description is made of sits.
//!
//! The structures themselves hold raw pointers and unions, so they are
//! declared by the FFI layer beside this crate, which checks that the
//! offsets below are the ones the compiler gives them. What is here is
//! what a description is laid out from.
use vstd::prelude::*;

verus! {

pub const SIDE_EVENT_STATE_ABI_VERSION: u32 = 0;
pub const SIDE_EVENT_DESCRIPTION_ABI_VERSION: u32 = 0;

pub const SIDE_TYPE_NULL: u16 = 0;
pub const SIDE_TYPE_BOOL: u16 = 1;
pub const SIDE_TYPE_U8: u16 = 2;
pub const SIDE_TYPE_U16: u16 = 3;
pub const SIDE_TYPE_U32: u16 = 4;
pub const SIDE_TYPE_U64: u16 = 5;
pub const SIDE_TYPE_S8: u16 = 7;
pub const SIDE_TYPE_S16: u16 = 8;
pub const SIDE_TYPE_S32: u16 = 9;
pub const SIDE_TYPE_S64: u16 = 10;
pub const SIDE_TYPE_BYTE: u16 = 12;
pub const SIDE_TYPE_POINTER: u16 = 13;
pub const SIDE_TYPE_STRING_UTF8: u16 = 18;
pub const SIDE_TYPE_GATHER_BOOL: u16 = 29;
pub const SIDE_TYPE_GATHER_INTEGER: u16 = 30;
pub const SIDE_TYPE_GATHER_POINTER: u16 = 32;
pub const SIDE_TYPE_GATHER_STRUCT: u16 = 35;
pub const SIDE_TYPE_GATHER_ARRAY: u16 = 36;
pub const SIDE_TYPE_GATHER_VLA: u16 = 37;

pub const SIDE_TYPE_GATHER_ACCESS_DIRECT: u8 = 0;
pub const SIDE_TYPE_GATHER_ACCESS_POINTER: u8 = 1;

pub const SIDE_TYPE_BYTE_ORDER_LE: u8 = 0;
pub const SIDE_TYPE_BYTE_ORDER_BE: u8 = 1;

pub const SIDE_ATTR_TYPE_NULL: u32 = 0;
pub const SIDE_ATTR_TYPE_BOOL: u32 = 1;
pub const SIDE_ATTR_TYPE_U8: u32 = 2;
pub const SIDE_ATTR_TYPE_U16: u32 = 3;
pub const SIDE_ATTR_TYPE_U32: u32 = 4;
pub const SIDE_ATTR_TYPE_U64: u32 = 5;
pub const SIDE_ATTR_TYPE_S8: u32 = 7;
pub const SIDE_ATTR_TYPE_S16: u32 = 8;
pub const SIDE_ATTR_TYPE_S32: u32 = 9;
pub const SIDE_ATTR_TYPE_S64: u32 = 10;
pub const SIDE_ATTR_TYPE_STRING: u32 = 16;

pub const SIDE_NR_TYPE_LABEL: u16 = 48;
pub const SIDE_NR_ATTR_TYPE: u16 = 17;

pub const SIDE_LOGLEVEL_EMERG: u32 = 0;
pub const SIDE_LOGLEVEL_ALERT: u32 = 1;
pub const SIDE_LOGLEVEL_CRIT: u32 = 2;
pub const SIDE_LOGLEVEL_ERR: u32 = 3;
pub const SIDE_LOGLEVEL_WARNING: u32 = 4;
pub const SIDE_LOGLEVEL_NOTICE: u32 = 5;
pub const SIDE_LOGLEVEL_INFO: u32 = 6;
pub const SIDE_LOGLEVEL_DEBUG: u32 = 7;

/* Sizes of the packed structures: side_ptr_t is a fixed 16 bytes. */

/// `side_ptr_t`: an address, in a fixed 16 bytes whatever a pointer is.
pub const SIDE_PTR_SIZE: usize = 16;
/// `side_ptr_rel_t`: a distance, in a fixed 8 bytes.
pub const SIDE_REL_SIZE: usize = 8;
/// `side_ptr_sel_t`: an address or a distance, and the selector byte.
pub const SIDE_SEL_PTR_SIZE: usize = 17;
/// `side_array_rel_t`.
pub const SIDE_REL_ARRAY_SIZE: usize = 12;
/// `side_array_sel_t`.
pub const SIDE_SEL_ARRAY_SIZE: usize = 21;
/// `struct side_event_description`.
pub const DESC_SIZE: usize = 64;
/// `struct side_event_field`.
pub const FIELD_SIZE: usize = 72;
/// `struct side_type`.
pub const TYPE_SIZE: usize = 64;
/// `struct side_type_struct`.
pub const STRUCT_TYPE_SIZE: usize = 24;
/// `struct side_attr`.
pub const ATTR_SIZE: usize = 55;

/// How wide a hole is: what an address occupies in a selector pointer.
pub const PATCH_WIDTH: usize = 16;

/* Where the members sit. */

pub const O_DESC_STRUCT_SIZE: usize = 0;
pub const O_DESC_VERSION: usize = 4;
pub const O_DESC_PROVIDER: usize = 8;
pub const O_DESC_EVENT: usize = 16;
pub const O_DESC_FIELDS: usize = 24;
pub const O_DESC_ATTRIBUTES: usize = 36;
pub const O_DESC_FLAGS: usize = 48;
pub const O_DESC_NR_TYPE: usize = 56;
pub const O_DESC_NR_ATTR: usize = 58;
pub const O_DESC_LOGLEVEL: usize = 60;

pub const O_ARRAY_LENGTH: usize = 8;
pub const O_SEL_ARRAY_LENGTH: usize = 17;
pub const O_SEL_IS_OFFSET: usize = 16;

pub const O_ATTR_KEY: usize = 0;
pub const O_ATTR_VALUE: usize = 19;
pub const O_RAWSTR_P: usize = 0;
pub const O_RAWSTR_UNIT_SIZE: usize = 17;
pub const O_RAWSTR_BYTE_ORDER: usize = 18;
pub const O_ATTRVAL_TYPE: usize = 0;
pub const O_ATTRVAL_U: usize = 4;

pub const O_BOOL_ATTRIBUTES: usize = 0;
pub const O_INT_ATTRIBUTES: usize = 0;
pub const O_STR_ATTRIBUTES: usize = 0;
pub const O_ARRAY_ATTRIBUTES: usize = 12;
pub const O_VLA_ATTRIBUTES: usize = 16;

pub const O_FIELD_NAME: usize = 0;
pub const O_FIELD_TYPE: usize = 8;
pub const O_TYPE_U: usize = 2;

pub const O_BOOL_SIZE: usize = 21;
pub const O_BOOL_LEN_BITS: usize = 23;
pub const O_BOOL_BYTE_ORDER: usize = 25;

pub const O_INT_SIZE: usize = 21;
pub const O_INT_LEN_BITS: usize = 23;
pub const O_INT_SIGNEDNESS: usize = 25;
pub const O_INT_BYTE_ORDER: usize = 26;

pub const O_STR_UNIT_SIZE: usize = 21;
pub const O_STR_BYTE_ORDER: usize = 22;

pub const O_GBOOL_OFFSET: usize = 0;
pub const O_GBOOL_OFFSET_BITS: usize = 8;
pub const O_GBOOL_ACCESS: usize = 10;
pub const O_GBOOL_TYPE: usize = 11;

pub const O_GINT_OFFSET: usize = 0;
pub const O_GINT_OFFSET_BITS: usize = 8;
pub const O_GINT_ACCESS: usize = 10;
pub const O_GINT_TYPE: usize = 11;

pub const O_GSTRUCT_TYPE: usize = 0;
pub const O_GSTRUCT_OFFSET: usize = 17;
pub const O_GSTRUCT_ACCESS: usize = 25;
pub const O_GSTRUCT_SIZE: usize = 26;

pub const O_GARRAY_OFFSET: usize = 0;
pub const O_GARRAY_ACCESS: usize = 8;
pub const O_GARRAY_TYPE: usize = 9;

pub const O_GVLA_OFFSET: usize = 0;
pub const O_GVLA_ACCESS: usize = 8;
pub const O_GVLA_TYPE: usize = 9;

pub const O_ARRAY_ELEM_TYPE: usize = 0;
pub const O_ARRAY_TYPE_LENGTH: usize = 8;

pub const O_VLA_ELEM_TYPE: usize = 0;
pub const O_VLA_LENGTH_TYPE: usize = 8;

pub const O_STRUCT_FIELDS: usize = 0;

} // verus!
