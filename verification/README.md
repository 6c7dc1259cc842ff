# wasm_poke

A WebAssembly function size explorer: it parses a `.wasm` module, lists each
defined function with its body size and share of the total code, demangles
Rust names, builds the direct call graph, computes the cumulative size
reachable from a function, disassembles function bodies, maps them to source
lines through DWARF, and renders text and JSON reports.

The library in `src/` is written in Verus; every function in it carries a
contract checked by the verifier.

- `model` - functions, modules, call graphs, source locations
- `wasm_read`, `walk`, `module` - the payload walk over a module and the
  per-function information assembled from it
- `matching` - case-insensitive `*` patterns, multi-term search, filtering
  and ordering by size
- `graph` - call graph, reachability and cumulative sizes
- `hexdump`, `disasm` - body bytes, hex dumps and WAT-like listings
- `dwarf` - DWARF line tables: offsets and whole bodies to source
- `output` - the text summary and the plain parts of the JSON report
- `cli` - command-line arguments
- `panels` - state and decisions of the interactive views
- `laws` - properties of the library as a whole

`app/` is the program around it: argument handling, file I/O, JSON
serialization, float formatting and the egui front end. `tests/` exercises
the library.
