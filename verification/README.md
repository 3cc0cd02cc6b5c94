# axum_rate_limiter

Per-client rate limiting for Axum services, with its decision logic verified
by Verus.

- `src/` is the verified library:
  - `table.rs`: the per-identifier counter table (a string-keyed hash map plus
    the list of its keys), the clock reading and the window arithmetic.
  - `hashmap.rs`: the limiter that counts every request of a sixty-second
    window and allows at most `RATE_LIMIT_MAX` of them.
  - `memory.rs`: the limiter whose window moves with each allowed request.
  - `redis.rs`: the Redis-backed limiters' counter keys and verdicts, a model
    of the counter script (increment, expiry on creation) with the per-window
    laws proved over it, the AI model families, token counting and quota
    charges.
  - `surrealdb.rs`: what the SurrealDB backend's upsert outcome and record
    count mean. The SurrealDB client itself, with its storage engine, is too
    large a dependency to take on, so the limiter type, its queries and its
    backend in `app/` are absent.
  - `lib.rs`: the limit itself and the choice of the client identifier.
- `app/` is the demo server: the asynchronous `RateLimiter` trait, the Axum
  middleware, the locks around the in-memory limiters, the Redis script calls
  and the JSON parsing of AI requests.
- `tests/` runs the library on concrete values.
