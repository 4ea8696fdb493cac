# grok2api-appchat

A gateway that serves OpenAI-compatible endpoints on top of the Grok web
service. Its logic is a Verus library: every function in `src/` is verified
against its contract, except for the wrappers in `src/outside.rs`. Their
contracts, and that of `String::push` in `src/text.rs`, are taken for granted.

- `src/server`: configuration, errors, authentication, batch tasks, storage
- `src/token`: tokens, pools of tokens, quotas and their refreshing
- `src/grok`: what is sent upstream and how the answers are read: gRPC-Web
  frames, usage, videos, streamed chats and images, and images over a web socket
- `src/api`: requests and answers of the endpoints
- `src/json.rs`, `src/text.rs`, `src/text_map.rs`: values, texts and maps
- `src/outside.rs`: the calls into other crates and into the standard library,
  and what is taken for granted of them
- `tests/`: the library on concrete values
- `app/`: the program around the library: network, files and routes

`SERVER_HOST` and `SERVER_PORT` say where the program listens; by default that
is `0.0.0.0:8000`. It reads `config.defaults.toml`, `data/config.toml` and
`data/token.json` from its working directory, and the pages of the
administration from `static/`. The models that are offered are listed in the
configuration under `models.catalog`.
