# dowsing

Coverage-guided randomness for tests, with its logic verified.

A harness takes one generator after another from a search. Each generator records the bytes that
were drawn from it and what they were drawn for. `curious` looks for coverage that was not seen
before; `cautious` starts from a case and makes it smaller.

- `src/` is the verified library: cases and their spans (`trace`, `rng`, `execution`), coverage
  (`coverage`, `sancov`, `llvm`, `llvm_coverage`), rewrites (`mutation`, `rewrite`, `mutate`,
  `havoc`), reductions (`targets`, `reduction`, `reducer`), searches (`search`, `optimizer`),
  sequences of operations (`pipeline`, `reduce`, `coverage_guided`, `exploration`), the schedules of
  a program's threads (`scheduler`) and a program's virtual time (`virtual_time`).
- `tests/` runs the library.
- `app/` is the ordinary Rust around it: threads and iterators, weights in floating point, the
  callbacks of instrumented code, and the calls into Linux of the two supervisors.

What is trusted without proof stands in `src/random.rs`, `src/search/frequency.rs` and
`src/llvm_coverage.rs`: draws of `rand`, the hash map of `rustc_hash`, and the JSON of
`serde_json`.
