# wasmlink

Loading and checking of WebAssembly modules that are about to be linked with
one another, written in Rust and verified with Verus.

* `src/` is the library. `Module` holds what linking needs to know of a module;
  `Module::resolve_import` decides whether an import of one module is met by
  another; `Module::encode` writes a module out again; `Interface` works out
  which functions of an interface need adapting, and what adapting takes.
  `laws.rs` states what holds across these parts.
* `tests/` runs the library on binaries and definitions.
* `app/` reads interface files and parses `witx` definitions.

A module may contain the definition of its interface, in a custom section named
`.interface`. Loading stops there: `Module::new` gives `Loading::Waiting` with the
text of the definition, and `Pending::resume` goes on with what parsing it has
come to.

`Module::new` asks for a binary whose code section does not reach past its end and
whose announced lengths can be added to offsets; `Module::new_checked` tests both.
Where offsets have 64 bits, all lengths can. Where they have 32 bits, a length of
nearly four gibibytes cannot (`src/room.rs`).

The library relies on `wasmparser` for reading and validating binaries and on
`wasm-encoder` for writing them. What it takes for granted of the two is stated
in `src/binary.rs` and `src/encoder.rs`.
