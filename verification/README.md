# dy_xhs

A Verus-verified library that computes the `X-Bogus` signature of a Douyin
web API query, and the decisions of a small crawler built on it.

- `src/xbogus.rs` — the signature: payload of MD5 digests and the time,
  even/odd split, shuffle, RC4, and the 3-to-4 character encoding.
- `src/signature.rs` — what the signature keeps of its inputs: which
  characters depend on the query or the time, when two signatures are equal,
  and how a signature reads back to its payload.
- `src/encoding.rs`, `src/hex.rs`, `src/latin1.rs` — the text encodings it
  uses, with their round-trip laws.
- `src/douyin.rs` — which monitored links name a Douyin user, the signed
  post-list query, and what is done with each page and post.
- `src/outside.rs` — the calls into `md5`, `rc4`, `regex` and `std` that the
  proofs take on trust.
- `app/main.rs` — the HTTP hook, Redis, configuration and HTTP requests.
