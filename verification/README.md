# mentedb

An embedded memory store for agents: memories with embeddings, tags, a graph of
typed edges, entities, claims with their evidence, and an audit trail, kept in
one SQLite database.

The library under `src/` decides; it is written in Verus and proved. It plans
every write as a list of steps, encodes and decodes the rows, builds the
statements, says which hits of a search count and in which order, extracts
entities from text, validates derived knowledge, and works out what policies do.
It opens no file and holds no connection.

The code under `app/` performs: it runs the steps in transactions, reads the
rows, does the arithmetic on similarities and renders audit payloads.

## Layout

- `memory`, `records`, `config`: the data.
- `ids`, `clock`, `json`, `text`, `float`, `order`, `keyed`: the ground they
  stand on. Single-precision numbers are held as their bits.
- `codec`, `rows`, `traces`: the rows of the tables, and that they are read back
  as they were written.
- `writes`, `audit`: writes as steps, and what is recorded of them.
- `tables`, `table_laws`, `record_laws`, `write_laws`: the tables as
  mathematical objects, and what holds of them after every write.
- `query`, `graph`, `search`, `hybrid`, `recall`: statements, neighbours, hits and
  their ranks, hybrid searches and scans from request to trace, and recall at a point in time.
- `entity_extraction`, `entities`, `contexts`, `enrichment`, `enrichment_laws`:
  entities and what is made of them.
- `extraction_jobs`: validation of derived knowledge.
- `lifecycle`, `policies`, `policy_runs`, `policy_laws`: inference, decay,
  consolidation, archival, corrections and forgetting.
- `storage`: handles for callers that only store and load.

What is taken on trust is stated beside each declaration that says so: the UUIDs
of `uuid`, the JSON texts of `serde_json`, the clock, and three functions on
text of the standard library.
