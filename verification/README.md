# by_blocks

Adaptors for rayon's indexed parallel iterators that process the input block by block:
with block sizes drawn from an iterator (`by_blocks`, `by_blocks_iter`), or with blocks
that grow while they run fast and run in parallel only when needed to meet a deadline
(`deadline`).

- `src/` is the verified library (Verus): the block schedules (`schedule`, `deadline`),
  the halving of a block (`producer`), the two-level reduction (`two_levels`) and the
  list-collecting consumer (`list`), each with its contract and laws.
- `app/` plugs these decisions into rayon's producer/consumer traits and holds the
  `BlockedParallelIterator` extension trait and a small demo `main`.
- `tests/` exercises the library on concrete values.
