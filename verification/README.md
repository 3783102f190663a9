# skeg_rigging

The capability contract between memory engines and the plugins built on
them: stable record and tenant ids, event subscriptions with per-kind
filters, quota accounting, tenant discovery and lifecycle, and read-only
views. Alongside it, the engine-neutral logic that engines share: an
in-memory reference tenant, stable top-k ranking of similarity scores, the
metadata sidecar of the on-disk adapter, file chunking and ingest planning.

## Layout

- `src/` is the library, verified with Verus. Every public function states
  what it returns or changes; laws that span several functions are public
  proof functions (`lemma_*`) beside the code they speak of.
- `tests/` runs the library on concrete values.
- `app/` is plain Rust around the library: the `f32` vector traits and hits,
  the on-disk tenant over `skeg-vector`, JSON persistence of the sidecar,
  the file walk and watcher, the HTTP embedder, event waits with deadlines,
  and the async bridges. The decisions it acts on are the library's.

Embeddings inside the library are carried as the bit patterns of their
`f32` components (`u32`), and similarity scores are ranked by an integer key
that orders every non-NaN value as `f32::partial_cmp` does.
