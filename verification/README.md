# shopli

The logic of `shoptools`, a command-line tool that exports, imports and
clones the data of Shopify stores (customers, products, gift cards, store
credit, discounts, delivery profiles, metaobjects) through the Admin GraphQL
API, written in Verus and proved against its contracts.

## Layout

- `src/` — the verified library.
  - `json`, `text`, `lookup`: the values everything works on (a JSON model
    with its view, character-level string helpers, an id table).
  - `config`: stores and their credentials, the default store, how a role's
    environment variables override the config file, where the file lives.
  - `client`: the client's decisions — throttling back-off and its bound,
    what a GraphQL response means, how pagination advances.
  - `bulk`: framing JSONL for bulk mutations, reassembling a bulk query's
    flattened result, the staged-upload and polling decisions.
  - `resource/`: one module per resource, turning the shape the API reads
    into the shape it writes, with the per-line import outcome.
  - `commands/`: the plan of each verb (`store`, `export`, `import`,
    `clone`, `query`), and `run` in `lib.rs`, which turns a parsed command
    line into one of them.
- `tests/` — tests of the library on concrete values.
- `app/` — the executable: argument parsing, files, HTTP, and the loops that
  carry out the plans the library makes.

The public proof functions named `law_*` state the properties that hold
across calls (for example, that a store added to the config reads back, that
reassembly keeps every root line, that throttling retries are bounded).
