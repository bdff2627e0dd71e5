# alternator-driver

Client-side logic for ScyllaDB's Alternator, the DynamoDB compatible API: which
node a request goes to, how its body and headers are rewritten, and how the live
nodes of a cluster are kept up to date.

- `src/` is the library. Its behaviour is stated in contracts and proved with
  Verus. It decides; it does no I/O.
- `app/` is the client around it: the AWS SDK, the network, the runtime and
  floating point. It hands the library plain values and carries out what the
  library decides.
- `tests/` runs the library on concrete values.

| Module | What it decides |
| --- | --- |
| `config`, `client` | settings, and how a client is put together from them |
| `live_nodes`, `discovery`, `routing_scope`, `node_url` | the live nodes, and whom to ask for them |
| `query_plan`, `affinity_plan`, `batch_votes`, `keyrouting` | the node of each attempt of a request |
| `interceptors`, `http`, `compression`, `optimize_headers`, `user_agent` | what is sent and how a response is read |
| `vector`, `float32_vector`, `vector_request`, `vector_response`, `json` | vector indexes, vector searches and vector values |
| `sorting`, `text`, `base64_text` | what the others are stated over |
