# protobufts

A compiler of protocol buffer schemas (`.proto` files) into TypeScript modules,
written in Verus: for each message it generates a folder with the modules `types`,
`encode` and `decode`, for each enum a module.

Layout:

- `src/` — the verified library.
  - `lexems`, `syntax`: the lexer and the parser, each against a functional model
    of what it reads (`lexems_of`, `parse_file`).
  - `package`, `protopath`, `package_tree`, `schema_text`: the parsed schema, the
    tree of packages and files, and the schema written back as text.
  - `scope_builder`, `proto_scope`, `block_scope`, `well_known`: the scope tree,
    name resolution and the bundled `google.protobuf` files.
  - `compiler/`: the TypeScript syntax tree (`ast`), its rendering (`render`), the
    generators of interfaces (`types_compiler`), encoders (`encode_compiler`) and
    decoders (`decode_compiler`), imports between modules (`imports`) and the
    layout of the generated folders (`folders`).
  - `laws`: properties that relate several operations, stated and proved.
  - `reader`: command-line paths and relative file paths.
- `tests/` — tests of the library.
- `app/` — the command-line program: reads the schema folder, runs the library,
  writes the generated modules.
