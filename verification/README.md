# ai_lib

A runtime for providers of language models that are described by manifests:
what a request looks like, where it goes, how it is authenticated, what a
response says, and what fits into a context. The decisions are written in Verus
and proved against their contracts; files, HTTP, the environment and threads
are left to the code around them.

## Layout

- `src/` is the library. Every function states in its contract what it returns
  or changes.
  - `context/` puts the parts of a prompt together within a token budget.
  - `types/` holds messages and tools, reads tool calls and thoughts that models
    write as text, and encodes contents for other APIs.
  - `protocol/` finds manifests and models, and applies a provider's defaults.
  - `credentials.rs` and `transport/` choose the credential, the authentication
    and the route of a request.
  - `drivers.rs` and `pipeline/` turn requests and responses into one form.
  - `embeddings.rs`, `rerank.rs`, `tts.rs` and `generative/` say what is sent to
    a service and what its answer means.
  - `wasm/` is the state behind the module's C interface.
  - `json.rs`, `pattern.rs`, `text.rs`, `record.rs`, `sorting.rs` and `table.rs`
    are what the rest is built on.
- `tests/` runs the library.
- `app/` is ordinary Rust around it: it reads and sends, and hands the library
  plain values.

## What is trusted

`serde_json`, `regex`, `lru`, `base64` and a few functions of std are called
through small functions whose contracts are believed. Each says in its comment
what it claims. They stand in `json.rs`, `pattern.rs`, `text.rs`,
`protocol/cache.rs` and `generative/audio.rs`.
