# queryexe

Query operators of a small database, verified with Verus.

- `src/field.rs`: field values, their order (integers by value, integers before
  strings, strings by their UTF-8 bytes), predicates and aggregate functions.
- `src/tuple.rs`: tuples, attributes and schemas.
- `src/opiterator.rs`: the `OpIterator` protocol (open, next, rewind, close),
  stated over the sequence of tuples an operator produces and the error, if
  any, with which each call fails or its tuples end; and `TupleIterator`.
- `src/join.rs`: nested-loop join and hash equi-join; `src/join_laws.rs` proves
  what tuples they produce and that the hash equi-join produces the tuples of
  the nested-loop join on equality, each as many times.
- `src/aggregate.rs`: grouping and aggregation; `src/aggregate_laws.rs` proves
  that the result has one row per group, with counts, sums, averages, maxima
  and minima as their mathematical definitions give them, whatever the order
  in which the tuples are merged.
- `src/heapfileiter.rs`: the page-by-page iteration over a heap file, as steps
  that ask the caller for pages, with the proof that a whole run produces every
  record of the file in page order and then stays ended; `app/lib.rs` reads
  the pages and exposes the records as an `Iterator`.
