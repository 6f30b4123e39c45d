//! Verified layout of libside event descriptions.
//!
//! A libside description points at everything it reaches by the
//! distance from the member holding the pointer to what it points at,
//! so the bytes of a type depend on where it sits. What is constant is
//! the *shape* of a field (`Layout`); this crate measures a group of
//! events and lays their descriptions out into one object, sharing one
//! copy of every structure two of them describe the same way. It also
//! reads the declarations the event macros are given, as positions among
//! their tokens, and writes the code they expand to.
pub mod abi;
pub mod model;

pub mod shape;
pub mod bytes;
pub mod shared;
pub mod measure;
pub mod layout;
pub mod builder;
pub mod agree;
pub mod frame;
pub mod laws;
pub mod readback;
pub mod text;
pub mod codegen;
pub mod templates;
pub mod group;
pub mod gather;
pub mod tokens;
pub mod parse;
pub mod saving;
pub mod runs;
