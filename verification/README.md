# policysql

A policy gateway for SQL, verified with Verus: a Catalog of resources and
columns, policy bundles that say which role may read or write what, and the
compilation of a bound statement into a protected plan whose results are
checked against the Catalog before they leave the gateway.

## Layout

- `src/` — the verified library.
  - `identity`, `text`, `text_map`, `catalog`, `catalog_manifest`: names,
    ordered maps, the Catalog and the manifest it is activated from.
  - `yaml`, `predicate`, `activation`, `policy`, `bundle`: policy bundles and
    their filters, activated against the Catalog.
  - `ir`, `parser`, `scan`, `protect`, `instantiate`, `select`, `compile`,
    `emit`, `describe`: bound statements, policy application, and the result
    descriptors of a compiled plan.
  - `params`, `parameter_types`, `admission`, `contract`, `formats`,
    `json_path`, `json_values`: caller parameters, value contracts and the
    JSON values requests and results carry.
  - `execution`, `adapter`, `transaction`, `results`, `gateway`, `auth`,
    `deployment`, `public_error`, `names`: plans, checked transactions,
    result validation, the gateway and its envelopes, and the public answers
    it gives.
  - `catalog_view`: the Catalog as one role may read and write it.
  - `oracle`, `policy_oracle`, `coverage`, `report`, `evidence`, `id_sets`:
    the reference truth algebra and the coverage report.
- `tests/` — tests of the library.
- `app/` — reading YAML and JSON documents and fixture files, and the
  floating-point comparisons the library takes as arguments.

## What this crate does not contain

- Parsing SQL text and binding it against the Catalog. The gateway takes
  statements already bound (`BoundStatement`, `BoundRequest`); the SQL
  grammar, its syntax tree and the binder that walks it belong to the
  `turso_parser` crate, on which this crate does not depend.
- Emitting a protected plan as SQLite SQL, and the check of the emitted
  syntax tree against the plan: both build and read `turso_parser` syntax
  nodes. Plans are handed to executors as `VerifiedExecutionPlan` values
  that a caller-supplied `PlanVerifier` accepts.
- The SQLite reference executor, which needs `rusqlite`, and the
  WebAssembly runtime, which needs `wasm_bindgen` and an asynchronous host.
  Executors and transactions are reached through the traits in `adapter`
  and `transaction`, which callers implement.
