# cuely

Two parts of a web search engine, verified with [Verus](https://github.com/verus-lang/verus).

- `src/query/`: the query language. `parser` turns a query into terms, `plan` says what each
  term asks of the index, `schema` is what it has to know of the index's fields, `analysis`
  takes a text apart with the index's own tokenizers, and `words` splits a query at its
  white space.
- `src/mapreduce/`: running jobs on other machines. `manager` gives every job to a worker,
  and to another one where that fails; `pool` keeps the workers; `exchange` is the
  conversation with one worker, with `connect` and `message` as its parts; `reduce` brings
  the results together.

What each function does is stated in its contract; what holds of several of them together
is stated in the proof functions whose names begin with `law_`.

`app/` is the code around the library: the network, the threads, and the queries of
`tantivy`.
