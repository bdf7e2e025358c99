# firedbg_rust_debugger

The value and event encoding of a time travel debugger for Rust programs,
verified with Verus.

The debugger stops a program at breakpoints, reads the values it finds and
writes them, with the events of the run, as a stream of bytes. This library
holds what that stream is and what reads it back:

- `writer`, `bytes`, `native`, `decimal`, `addr_table`: the postfix token
  stream that values are written as, and the environment of referenced
  memory, an `IndexMap` kept in the order of allocation;
- `reader`, `rvalue`, `value`: reading the stream back into values, and
  lifting the standard library's types into their higher level forms;
- `roundtrip`, `counted`: what a written value reads back as;
- `event`: the events of a run (breakpoints, function calls and returns);
- `return_value`: return values that come back in registers: primitives,
  `Option`s and `Result`s of primitives, and structs of two fields;
- `value_type`, `shape`, `typename`, `basic_type`, `std_values`: type names,
  type layouts and values of standard library types in memory;
- `config`, `cfg`, `probe`, `version`, `util`, `text`: the debugger's
  settings, `firedbg.toml`, probed layouts, the `rustc` version, and the
  lines that the debugger reads from its tools;
- `pages`, `samples`: small programs that the debugger is tested on.

`app/` holds what surrounds the library: the environment, files, child
processes, the terminal, and the serde forms of the settings.
