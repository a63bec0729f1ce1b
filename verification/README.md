# postcard_core

The postcard wire format and its schemas, written in Verus and verified.

- `src/varint.rs`, `src/ser.rs`, `src/de.rs`: varints, zig-zag encoding, and the encoders
  and decoders of each primitive over a flavor (a growable or bounded buffer to write to, a
  byte slice to read from). Varint integers, bools, byte arrays and strings (a char is
  written as a string) are proved to be read back as they were written.
- `src/schema/`: the data model of a schema (`DataModelType`), its owned copy, the largest
  encoded size of a type, its pseudocode text, the types it uses, and interning of a schema
  into flat tables.
- `src/key/`: FNV-1a keys of a path and a schema, over a canonical byte form of the schema.
- `src/max_len.rs`, `src/bounded.rs`: strings and byte strings with a length limit.
- `src/impls.rs`: the schemas of the standard types.
- `app/`: serde support for the schema and length-limited types, as copies of them that
  carry serde derives or impls.
- `tests/`: tests run against the compiled library.
