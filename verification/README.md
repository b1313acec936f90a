# parsitext

Persian (Farsi) text processing — normalisation, tokenisation, entity
recognition, numbers and money, Jalali dates, validators for Iranian
identifiers — written in Verus, with the behaviour of every public function
stated in its contract and proved.

- `src/` — the verified library. Each module states its results over spec
  functions on `Seq<char>`, integers and the library's own types; the
  `law_*` proof functions state properties that span functions (round trips,
  idempotence, ordering and nesting facts).
- `src/engine.rs` — `Parsitext`, the pipeline that ties the passes together.
- The outside crates are called through small trusted wrappers whose doc
  comments say what is assumed of them: `aho-corasick` (`src/matcher.rs`),
  `regex` (`src/entity/mod.rs`), `jalali-calendar` (`src/jalali.rs`),
  `rayon` (`src/engine.rs`).
- `app/` — what sits on outside traits: the `tantivy` tokenizer adapter,
  serde-ready copies of the value types, `Display`/`std::error::Error`, and
  the floating-point Persian-letter ratio of the text statistics.
- `tests/` — the test suite.
