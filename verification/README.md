# lucent

Verified core of the Lucent compiler, a compiler for a transparent systems
language aimed at freestanding and embedded targets. Every function in
`src/` carries a Verus contract. All are proved against their contracts
except the sixteen small wrappers in `mach.rs` that read goblin's Mach-O
constants and encode values with scroll: their contracts are trusted, and
each states exactly the constant or the bytes that the outside code gives.

## Layout

- `node.rs` — widths, signs, operand sizes, target architectures, spans and
  item symbols.
- `types.rs` — resolved types, their compatibility (`unifies`) and the
  expectations of the type checker (`IType`, `unify`), with the laws that
  compatibility is reflexive and symmetric and that `Never` fits everywhere.
- `hir.rs` — written types and signatures and their resolution inside an item
  (`lift`, `lift_signature`, `signatures`).
- `layout.rs` — sizes of types and field offsets of structures, with cycle
  detection (`size`, `offsets`).
- `analysis.rs` — the target of an item and the check that every `break` and
  `continue` is enclosed in a loop (`loops`).
- `inference.rs` — type inference of value bodies: `synthesize` infers a
  node's type from the node alone, `check` asserts an expected type and
  reports a mismatch; `hint`, `types`, `function` and `statics` infer whole
  values. A node that `check` gives a type gets one that meets the
  expectation unless an error is reported.
- `lower.rs` — the decisions of lowering: pointer widths, architecture
  checks, the operation and width of binary and unary operators, and the
  widths of conversions.
- `lowering.rs` — lowering of typed bodies into expressions and statements
  (`lower`, `unit`, `place`, `function`, `low`), which only ever adds stack
  slots.
- `generate.rs` — x86 code generation of typed function bodies (`value`,
  `set`, `translate`): every recorded call stands at a call instruction.
- `x86.rs` — x86 registers: names, register sets, operating modes, the sets
  that a function reserves and the choice of its scratch registers; the
  encodings chosen for pushes, pops, extensions, loads and moves; the
  frame of a function (variable offsets, labels, the opening instructions
  and the settling of the frame's size). Instructions are the library's own
  values (`Code`, `Instruction`); turning them into machine bytes is not part
  of this library.
- `binary.rs` — grouping placed symbols into segments and filling in the
  displacements of machine code.
- `mach.rs` — the 64-bit Mach-O executable writer, using `goblin` for the
  format's constants and `scroll` for the byte encoding.
- `arena.rs` — a store that keeps every value pushed into it.

The tests in `tests/` run the library on concrete inputs.
