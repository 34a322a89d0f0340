# typst_lua

A Lua module that compiles Typst documents to PDF and hands data from Lua to
the document:

```lua
local typst = require"typst"
local pdf_bytes, err = typst.compile("helloworld.typ", { who = "World!" })
```

The data table becomes the document's `sys.inputs`, always a dictionary.
Nested tables become Typst arrays when they are dense, 1-indexed sequences
(their keys are exactly 1, 2, ..., n, in whatever order Lua walks them), with
the values ordered by key; otherwise they become dictionaries whose keys are
the table's keys rendered as strings.

## Layout

- `src/` is the library, verified with Verus:
  - `value.rs`: Typst values and insertion-ordered dictionaries;
  - `lua.rs`: Lua values and conversion errors;
  - `convert.rs`: Lua values to Typst values, and the data handed to a
    document, with the laws of the array/dictionary rule;
  - `legacy.rs`: the earlier conversion, whose result is bound as
    `_LUADATA`;
  - `world.rs`: file entries and their sources, position lookups, the date in
    an offset, the root directory of a document;
  - `package.rs`: package locations, archive decompression, the retry
    policy of a download;
  - `diagnostics.rs`: the reports rendered for a compilation's diagnostics;
  - `compiler.rs`: the values a compilation world defines;
  - `text.rs`: decimal and boolean rendering, UTF-8 decoding.
- `app/` holds what talks to the Lua state, the file system, the network and
  the Typst compiler: the Lua module itself, the Typst world, PDF output and
  diagnostic rendering.
- `tests/` runs the library on concrete values.
