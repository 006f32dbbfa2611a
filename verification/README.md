# wamex_object

A model of WebAssembly object files, with which programs are split into modules that are loaded
when they are needed. The library in `src/` is verified with Verus:

- `helpers`, `index`, `sorting`, `text`, `tables`: ranges and shifts, typed indices and maps, stable
  sorting, texts.
- `raw`, `typed`, `linkage`: the parts of object files, modules and their entities, relocations and
  their owners.
- `layouts`: where data and table elements stand in memories, tables and files.
- `analysis`: split points, the modules of a split program, and the plans that make them.
- `emit`: copies of entities, changes to their bodies, relocation and writing.

`app/` reads object files with `wasmparser` and hands out the modules that are written.
