# coce

A cover image URLs cache exposing its content as a REST web service. The
service asks book-cover providers (Amazon, Google Books, Open Library, ORB)
for the cover image URLs of resource IDs (ISBNs, EANs), keeps their answers
in Redis, and answers each request with the first URL available in the
provider order the client asked for, or with all of them (`&all`), as JSON or
JSONP (`&callback=`).

## Layout

- `src/`: the library, verified with Verus.
  - `config.rs`: the configuration, its defaults, and the `COCE_*`
    environment overrides (the environment is handed in as a map).
  - `maps.rs`: the string maps the service works with.
  - `text.rs`: splitting, joining, trimming, replacing and number parsing
    on strings.
  - `fetcher.rs`: one provider's fetch as a sequence of steps (read the
    cache, ask the provider for what it did not know, store the answers and
    the misses), the local copies of images, and the gathering of all
    providers' answers.
  - `http.rs`: validation of cover requests, choice of the first URL,
    the answer's JSON document and JSONP, and the `/set` write.
  - `providers/`: what is asked of each provider and what is read from its
    replies (parsed with `serde_json`); the JSON text of the answers; the
    ISBN-13 to ISBN-10 conversion used for Amazon.
  - `redis_store.rs`, `error.rs`: how keys are read; why requests are refused.
- `app/`: the program: HTTP server (axum), Redis, HTTP clients, timeouts
  and tasks.
- `tests/`: tests of the library.

## Run

```sh
COCE_CONFIG=config.json ./coce
```

`config.json` is read when it exists; `COCE_*` variables always win over it.
