# mimas

The compiler back end and host-side logic of the mimas scripting language, verified with Verus.

`src/` is the library:

- `ids`, `ops`, `constant`, `field`, `op`, `list`, `wire`, `bytecode`, `decode`: the register
  machine's instruction set and its byte encoding, with the law that decoding an encoded op
  gives the op back.
- `ir`: the intermediate representation (bodies of blocks of instructions) and how bodies are
  built.
- `clean`: the optimizer passes (unreachable code, dead values, jump threading, phi threading,
  return sinking, constant folding) and the analyses code generation uses. Cleaning runs the
  passes until none changes the body; a cleaned body is a fixed point of every pass.
- `lower`, `codegen`: register allocation and code generation. A compiled body's jumps are
  resolved to byte offsets that land on op boundaries, and every register it names fits its
  frame.
- `pattern`, `plan`: the IR that tests a value against a `match` pattern, and whether a `match`
  dispatches through a jump table, with the table.
- `text`, `dump`: the text of IR instructions and the IR dump of a program's bodies; `disasm`:
  the text of ops as a bytecode dump shows them.
- `locs`: the table of source locations of a compiled body; looking up the first byte of any
  op gives that op's location.
- `project`, `cli`: which files make up a project, the command line's plain logic and the text
  of its reports.
- `host`, `reflect`: the engine plugin's plain logic: hooks, integer conversion, and the catalog
  of reflected host types scripts can use.

`app/` is the `mimas` command around it: argument parsing, walking and reading the project's
files, and printing. `tests/` exercises the library.
