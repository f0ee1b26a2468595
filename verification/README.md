# oci-cache

A pull-through cache for OCI registries that serves several upstreams without changing the paths
of images. Which upstream a request goes to is decided by a namespace hint (`?ns=docker.io`), else
by what was found before, else by asking the upstreams in the configured order.

What is asked for by digest and is in the store is served without asking any upstream. What a tag
names is known of each upstream by itself; while an upstream gives no answer, what the tag last
named there serves, marked as not confirmed.

Only public content is kept: a token that can be had without credentials is required before
credentials are used, and they only serve to relax an upstream's rate limit.

## Layout

- `src/` is a library in Verus. It decides; it neither sends nor reads anything. What takes time is
  a machine: a call returns the next step, the caller performs it and hands back the event.
  - `routing`: the configured upstreams, the memo of earlier findings, and the search for the
    upstream that has a repository.
  - `registry_auth`: challenges, the places that may issue tokens, and requests for tokens.
  - `cache`: content by digest, manifests by tag, authentication for fetching them, and what the
    files of the store hold in the course of the work on them.
  - `server`: the requests of clients and the responses to them.
  - `text`, `clock`: operations on strings and on time.
- `app/` performs the steps: HTTP, files, locks, TLS.
- `tests/` runs the library against upstreams and stores in memory.

Each of `routing`, `cache`, `registry_auth` and `server` states, as `law_*`, what holds of its
machines as a whole.

## What is not proved

- `registry_auth::parse_url` takes the scheme, the host and the port of a URL from `reqwest`.
- `clock` states what `Duration::from_secs` and `Duration::as_nanos` return.
