# lvv-macros

The logic of the `VectorDatabase` and `VectorDatabaseItem` derives for
[lvv](https://crates.io/crates/lvv), verified with Verus.

- `src/` is the verified library. It reads a model of the derive input
  (`input`): the `#[lvv(...)]` command grammar (`grammar`), the commands of
  each field and the serde keys (`attributes`), serde's field rename rules
  (`rename_rule`), the shape of each
  `VectorDatabase` field (`vector_database`), and the description fields and
  payload keys of a `VectorDatabaseItem` (`vector_database_item`). Each
  derive's `expand` decides what is generated, or why the input is refused.
- `app/` is the proc-macro front end: it parses the input with syn, converts
  it into the library's model, and renders the library's decision with quote.
- `tests/` runs the library on concrete inputs.
