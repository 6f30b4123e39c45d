# libside

The layout of libside event descriptions, verified with Verus, and the
code generator of the event macros that use it.

A libside description points at everything it reaches by the distance
from the member holding the pointer to what it points at, so the bytes
of a type depend on where it sits. This library measures a group of
events, lays their descriptions out into one object -- sharing one copy
of every structure two of them describe the same way -- and leaves a
hole wherever the address of a structure described in another object
belongs.

## Layout

- `src/abi.rs` -- the numbers of the description ABI: labels, attribute
  types, log levels, and where each member of the packed structures sits.
- `src/model.rs` -- what a description is laid out from: shapes, fields,
  attributes, events.
- `src/shape.rs`, `src/shared.rs` -- when two structures describe the
  same way, and the table a group keeps of those it has laid out.
- `src/bytes.rs` -- writing integers, distances and strings.
- `src/measure.rs` -- how many bytes a group, or one structure, takes;
  `src/saving.rs` -- that a group never takes more than its events
  laid out each on its own.
- `src/layout.rs` -- what laying out writes, and where, as spec
  functions; `src/builder.rs` -- the builder, proved to write exactly
  that.
- `src/agree.rs`, `src/frame.rs` -- the layout reaches as far as it was
  measured, and touches nothing it was not given.
- `src/runs.rs` -- where every hole falls, what it holds, and how the
  runs between holes tile the bytes.
- `src/laws.rs`, `src/readback.rs` -- what a reader of the bytes finds:
  each event's description, each field's name and label, the holes and
  what they hold, integers and distances read back, each structure
  laid out once.
- `src/tokens.rs`, `src/parse.rs` -- what the macros read: the tokens
  they are given, as plain values, and the declarations in them, found
  by position.
- `src/text.rs`, `src/codegen.rs`, `src/gather.rs`, `src/group.rs`,
  `src/templates.rs` -- the text the macros write, from what they read.
- `app/` -- the FFI declarations, the arguments of a call, and the
  compiler's side of the macros (tokens in, runs of them written back as
  text), none of which Verus checks.
- `tests/` -- the library on concrete groups and inputs.
