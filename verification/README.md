# knn

Nearest-neighbor queries over the rows of a `polars` data frame, verified with
Verus.

- `src/` is the library. A query runs a spatial search from every row of a
  table, or from one point, and gathers the answers into a column. The search
  works on floating-point coordinates and is handed in as a function. Verified
  are the reading of the inputs, which rows are searched and with which
  arguments, what each answer becomes, the cutting of the rows into pieces for
  the thread pool and the joining of what the pieces give.
- `src/laws.rs` states what holds of the queries as a whole: what the thread
  pool can and cannot change, when a row has a null, how the queries relate to
  each other.
- `src/comparisons.rs` states how the columns of two queries compare when the
  searches behind them do: more neighbors, a larger radius, rows in another
  order, another tree.
- `src/series.rs`, `src/pool.rs` and `src/error.rs` hold what is trusted of
  `polars`, `rayon` and `kdtree`.
- `app/` is the expression plugin: it reads the coordinate columns, builds the
  k-d tree and hands its searches to the library.
- `tests/` runs the library with real columns, trees and threads.

The contracts are stated over what a call of the search may answer
(`call_ensures`), so they hold for every search.

With a filter, a query for nearest neighbors that runs in pieces reads the
flag of a row at the place of the row within its piece, and a query that goes
through the rows in order reads it at the number of the row.
`pieces_agree_with_rows` says exactly when the two come out the same.
