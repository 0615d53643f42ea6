# avx2_kernels

Emitters for unrolled AVX2 matrix-multiplication micro-kernels, verified with
Verus.

- `src/tokens.rs`: the token model that the emitters produce (flat tokens
  with explicit group delimiters; expressions carried as source text). Its
  type invariant keeps every stream's groups balanced.
- `src/avx2/emitters.rs`, `src/avx2/common.rs`: addressing, loads, fused
  multiply-adds, tails by binary decomposition, triangular blocks, stores.
- `src/avx2/kernel/`: whole kernels read from nine macro arguments.
- `src/avx2.rs`: packing of a line of data.
- `src/instructs/perms.rs`: data-independent reorderings of statements.
- `src/parse.rs`: splitting macro input into expressions (with `syn`) and
  reading integer literals.
- `app/lib.rs`: the macro entry points, which convert between
  `proc_macro2` tokens and the token model.

Every emitter states in its contract the exact tokens it produces. Each
kernel and pack has a `*_from_split` function that takes the expressions
`syn` split off the input (or its error) and states exactly what is
returned; the functions that take the raw input call it.
