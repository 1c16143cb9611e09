# mapi_plugins

Verified logic of two Mayhem-for-API plugins.

* **IDOR/BOLA detector** (`src/idor.rs`, `src/url_parts.rs`): which
  requests are re-issued with alternate identities (method filter,
  object-path filter, blocklist of endpoint shapes, 1-in-N sampling), what
  the side-channel requests send (the unauthenticated canary and one request
  per identity), how a request is tagged with a correlation id in its URL
  fragment, and how the response is judged against the stashed side-channel
  results.
* **OpenID token injector** (`src/openid.rs`): when the access token is
  fetched again, the body of the token request, the header that carries the
  token, and the parsing of the `--header` / `--data-urlencode` arguments.

`src/foreign.rs` holds the contracts taken on trust for the outside crates
(`dashmap`, `uuid`, `form_urlencoded`, `reqwest`/`http`) and for the few
standard-library functions that Verus does not specify.

`app/` is the program around the library: the gRPC services, the HTTP
side channels, the clock and the command line. It expects the mAPI plugin
`.proto` definitions to be compiled into `OUT_DIR` (`tonic::include_proto!`).
