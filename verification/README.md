# vtiger_client

A client library for the Vtiger CRM REST API, verified with Verus.

- `src/` is the verified library. `client` gives the HTTP request of each
  API operation (URL, query parameters, credentials, headers); `json`
  renders record fields as the JSON object that create, update and revise
  send; `export` and `sink` hold the decisions of a batched export (count
  queries, reading counts, batch planning, page queries, and what each
  output file receives per record); `text` holds decimal rendering, the
  `i32` grammar that counts are read with, and cell escaping; `types`
  holds the response types and the record model.
- `app/` is the async client around it: it sends the requests with
  `reqwest`, reads the answers with `serde`, and writes the export files.
- `tests/` runs the library on concrete values.
