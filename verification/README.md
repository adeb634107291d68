# kutil_http

HTTP utilities: content negotiation (`Accept`, `Accept-Encoding`,
`Accept-Language` preferences), entity tags and conditional requests, typed
header access, a response cache keyed by request and encoding, transcoding
decisions, and host-based routing tables.

Layout:

- `src/` is the library, written in Verus and verified. Its functions state
  what they return or change in their contracts where Verus can see it (a few,
  such as the clock or the assembly of an opaque response, state nothing), and
  the laws of the library (round trips of parsed header values,
  read-after-write on headers, what a cache lookup gives back of a store, what
  the caching state machine does on a hit) are public proof functions.
  Calls into `http`, `httpdate`, `bytes`, `base64-simd`, `duration-str`, `url`
  and `urlencoding`
  stand behind small trusted wrappers whose doc comments say what is assumed.
- `app/` is ordinary Rust around the library: async body readers, the tower
  service and axum glue, the moka-backed cache, compression streams and TLS.
- `tests/` runs the library on concrete values.
