# tesseract

The schema model and the request-parameter logic of the tesseract OLAP server,
written in Verus.

- `src/schema.rs`: the schema types (schema, cube, dimension, hierarchy, level,
  measure, table, property, annotation), their models, and the lookups of a
  cube: all level names, all measure names, `identify_level`,
  `identify_property`; `Table::full_name`.
- `src/config.rs`, `src/convert.rs`: the schema configuration and its
  conversion into a schema, shared dimensions included.
- `src/time.rs`: time precisions, time values and `precision.value` times.
- `src/logic_layer.rs`: list arguments such as `[a],[b,c]` and the query
  options read from the parameters of a request.
- `src/schema_config.rs`: the format of a schema file, by its name.
- `src/text.rs`, `src/flatten.rs`, `src/names.rs`, `src/error.rs`: strings,
  sequences of sequences, qualified names and errors.
- `app/`: serializable copies of the types, and reading a schema file.
