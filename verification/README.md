# typst_serde

A Serde serializer that turns Rust values into Typst runtime values
(`typst::foundations::Value`), with the serializer's decisions verified by
Verus.

- `src/` is the verified library. `serializer` decides what each part of
  Serde's data model becomes (a `value::Node`) and when serialization fails;
  `value` holds the node tree, its insertion-ordered dictionary and the
  conversion into Typst values; `text` writes decimal numerals; `error` is the
  error type; `typst_value` declares the Typst constructors that the library
  calls.
- `app/` implements Serde's `Serializer` traits on top of the library and
  offers `to_value`, `to_dict` and `ToTypstValueExt`.
- `tests/` drives the library through the calls a Serde serializer makes.

Numeric semantics: signed integers and `u8`/`u16`/`u32` become Typst
integers; a `u64` becomes an integer only up to `i64::MAX` and is refused
above it; floats are carried as Typst floats. Map keys must serialize to a
string or an integer (written in decimal); other keys are refused.
