# arena_bench

Bump arenas carved out of one shared buffer, and a benchmark that compares them
with other ways of allocating. Every core builds the same table of short strings,
again and again; what differs is where the rows and strings live.

- `src/` is the library, verified with Verus.
  - `memory`, `words`, `align`, `item`: bytes, machine words, alignment, and values kept
    as words.
  - `arena`, `bump`: the shared buffer, and one thread's part of it.
  - `arena_string`, `arena_vec`: strings and vectors inside such a part.
  - `workload`, `heap`, `bumpalo_table`, `arena_table`: the table, on the heap, in a
    `bumpalo` arena, and in a shared buffer.
  - `sizing`, `cores`, `platform`, `stats`, `schedule`: chunk sizes, cores, answers of the
    system, medians, and the order of the runs.
- `tests/` runs it.
- `app/` is the program: threads, memory from the system, the clock and the output.

Outside crates are called only from `bumpalo_table` and `cores`. What is taken on trust
of them, and of the standard library, stands in the comments of the functions marked
`external_body`.
