# pg_infer

Model inference inside a database, with its logic verified by Verus.

- `src/` is the library. Every item in it is verified, but for the few calls
  into other crates and the standard library, which are stated in place.
  - `text`, `le`, `float_bits`, `order`, `ternary`: texts, little-endian
    numbers, the order of IEEE 754 bit patterns, stable sorting, packed trits.
  - `compute`: ternary and k-quant blocks, buffer reuse, matrix products,
    attention heads, the steps of a prefill.
  - `vindex`: number formats, ternary weights on disk, the residual cache.
  - `models`: architectures, quantised model files, eight-bit floats.
  - `inference`: the residual store, key and value caches, layer graphs,
    greedy decoding, weights.
  - `client`: addresses, requests and responses of a remote server.
  - `pg`: index pages and their building, scans, describing, walking and
    comparing entities, options, model management.
- `tests/` runs the library on concrete values.
- `app/` holds what is around it: floating-point kernels, files, the network,
  the GPU and the database's callbacks.

Floating-point numbers appear in `src/` as their bit patterns.
