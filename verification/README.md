# federation_merger

Merging of GraphQL subgraph schemas into a supergraph, with contracts proved by Verus.

- `src/` is the verified library.
  - `ast`, `schema`, `subgraph`, `index_map`, `report`, `text`: the data that merging works on.
  - `merger`, `composition`, `shallow`: the state of a merge, its set-up and its passes.
  - `merge_types`, `enum_usage`: merging of type references.
  - `applications`, `merge_directives`: merging of directive applications.
  - `overrides`, `override_pass`, `override_messages`, `field_context`, `labels`, `directives`:
    validation of `@override`.
  - `suggest`, `threshold`, `human_readable`, `mismatch`, `version`, `sources`: what reports say.
  - `merge_laws`, `override_laws`, `suggest_laws`: what holds of these as a whole.
- `tests/` runs the library with the outside crates linked.
- `app/` reads the schemas of `apollo_compiler` into the types of the library.
