# vhdl_lang

Part of the semantic analysis of VHDL: design units as named entities, and the
instantiation of generic packages (`package p is new q generic map (...)`),
written in Verus. Every function's contract is proved, except those of the
few functions in `fnv_map.rs` and `protected.rs` that call `fnv` and
`arc-swap`: Verus takes their contracts as given.

Layout of `src/`:

- `syntax.rs`: positions, designators, operators, names, expressions and the
  package instantiation declaration.
- `named_entity.rs`: named entities, their kinds, types and objects; the arena
  that hands out entity identities.
- `region.rs`: the declarations of a region, keyed by designator, with
  overloaded subprograms grouped under one designator.
- `formal_region.rs`: the generics of a package.
- `design.rs`: design units as named entities, and selected names in them.
- `diagnostic.rs`: diagnostics and analysis errors.
- `resolution.rs`: the resolver that analysis asks about names and
  expressions, with the record of each question and its answer.
- `package_instance.rs`: the instantiation itself, with the mapping of type
  generics to actuals and the laws it keeps.
- `fnv_map.rs`, `protected.rs`: the calls into `fnv` and `arc-swap`, with the
  contracts that the rest of the library relies on.
