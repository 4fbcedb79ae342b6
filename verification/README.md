# shadow_proxy

A shadowing HTTP proxy: every client request is forwarded to a group of "old"
servers and a group of "new" servers at once; the client is answered from the
first old server, and the answers of both groups are logged side by side.

- `src/` is the verified library (Verus): configuration defaults, parsing and
  validation (`config`, `parse`, `text`), the forwarding plan, header rules and
  response records (`proxy`), the completion of a request from its upstream
  exchanges: the record grouped by the plan and the client answer relayed from
  the first old server (`exchange`), the per-request log summary
  (`summary`), and the bound on concurrent requests (`admission`), each with
  its contract, plus proofs of the laws that tie them together.
- `app/` is the program around it: environment and socket-address reading,
  the axum server, the reqwest client, the JSON log file and the console log.
- `tests/` exercises the library on concrete inputs.
