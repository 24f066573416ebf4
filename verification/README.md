# responses-api-proxy

A proxy that speaks the Responses API to its clients. It forwards their requests to a Responses
upstream as they are, or carries them over to a Chat Completions upstream and carries the replies
back as an event stream.

- `src/` is the verified library.
  - `text`, `json`, `names`, `ids`: text, JSON values, sets of names and identifiers.
  - `content`, `custom`, `tools`, `request`: requests, from the Responses API to the Chat
    Completions API.
  - `sse`, `response`, `render`, `error`: replies, whole or in chunks, and the events that they
    become.
  - `headers`, `config`, `proxy`: which headers go where, which upstream is used, and what is
    answered.
- `app/` is the program around it: arguments, sockets, threads and files.
- `tests/` runs the library together with the crates that it uses.

What the library takes from `serde_json`, `reqwest`, `tiny_http` and the clock stands in the modules
that use it, under a heading of its own or beside the function that calls it. Each such item says
what is relied on without proof.
