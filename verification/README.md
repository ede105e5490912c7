# aoxy

An HTTP proxy that forwards every request to one upstream API, answers
cacheable requests from Redis, limits the rate of upstream requests and retries
failed ones. What the proxy decides is a library whose contracts Verus proves;
what it does to the network, the clock and Redis is a thin program around it.

- `src/text.rs`: text operations and number parsing.
- `src/headers.rs`: header fields and the operations of `http` on header maps.
- `src/models.rs`: configuration, header tables, cache entries, responses, errors.
- `src/response.rs`: putting a response together.
- `src/utils.rs`: cache keys, hop-by-hop headers, conversions, default headers.
- `src/build_response.rs`: cached, streamed and buffered responses.
- `src/cache.rs`: making, finding and writing cache entries.
- `src/handler.rs`: the course of a request, step by step.
- `src/entrypoint.rs`: what the configuration asks for at the start.
- `src/laws.rs`: what holds of the proxy as a whole.
- `app/`: command line, HTTP server and client, Redis.
