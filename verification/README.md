# daf

A tier-aware cache hierarchy, verified with Verus.

- `src/` is the verified library:
  - `model`: tiers, cache entries, identifiers, generation counters.
  - `error`: the error values and the text each reads as.
  - `memory`: the in-process L1 cache — entries, a least-recently-used
    list from the `lru` crate that bounds its size, and a key index for
    prefix invalidation.
  - `recency`: the `lru` crate's recency list as the memory cache uses it,
    and lemmas about ordered key lists.
  - `prefix_index`: the prefix index that the L2 tier keeps beside its store.
  - `sled_store`: the durable L4 tier over a `sled` database.
  - `hierarchical`: the six-tier hierarchy and the decisions of each of its
    operations, stated as steps.
  - `text`: prefix tests on strings.
- `app/` holds the asynchronous service traits (`Cache`, `Repository`,
  `Algorithm`, `Authorizer`), the tiers that talk to `moka` and Redis, the
  locks around the memory cache, the loops that carry out the hierarchy's
  steps, and the `serde` and `thiserror` forms of the library's types.
- `tests/` exercises the library.
