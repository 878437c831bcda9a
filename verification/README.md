# Rust LLM Gateway

A gateway in front of OpenAI-compatible model providers. It checks bearer keys, limits
requests and model tokens per client, caches deterministic answers, tries the providers in
order of priority behind circuit breakers, and passes streams through while it measures and
accounts for them.

What the gateway decides is a library under `src/`, verified with [Verus]. It does no input
or output: a request goes through it as events and actions, and the time comes in as a
number. The server under `app/` performs the actions.

## The library

| Module | What it holds |
|---|---|
| `middleware::auth` | bearer keys, and who they belong to |
| `middleware::rate_limit` | token buckets without rounding, reservations |
| `middleware::trace` | what a traced request carries |
| `router::circuit_breaker` | the state machine of a breaker |
| `router::selector` | the providers to try |
| `cache::exact` | the exact cache and its keys |
| `cache::semantic` | the semantic cache |
| `proxy::client` | the requests that go out |
| `proxy::sse_parser` | the parser for server-sent events |
| `proxy::stream` | what is read of a stream on its way |
| `handlers::dispatch` | a request on its way through the providers |
| `handlers::chat`, `handlers::embeddings` | the two endpoints |
| `handlers::health`, `handlers::metrics` | the two reports |
| `telemetry::metrics` | the metrics and their updates |
| `state`, `registry` | what all requests share |
| `config`, `error`, `types` | the configuration, the errors, the requests |
| `benchmark` | scripted providers and latency statistics |
| `clock`, `digest`, `float_bits`, `json`, `text` | helpers |

Each data type has a model, a mathematical value that contracts speak of, and each
operation is stated as a function on models. Properties that relate several operations are
public proof functions whose names start with `law_`.

What an outside crate computes stands behind a small trusted item whose comment says what
is believed of it: `sha2` digests, `serde_json` values, `dashmap` and `moka` contents,
`bytes` buffers, `http` headers and status lines, and the words of errors.

## The server

`app/` reads `config/default.toml` and the environment (`APP__SERVER__PORT=9000` overrides
`server.port`), serves `POST /v1/chat/completions`, `POST /v1/embeddings`, `GET /healthz`
and `GET /metrics`, and drains on a signal. `rust-llm-gateway bench` measures the gateway
against two scripted providers.

[Verus]: https://github.com/verus-lang/verus
