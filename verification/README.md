# rlp_derive

Verified planning and execution of the RLP decoders that the
`RlpDecodable` and `RlpDecodableWrapper` derives generate.

- `src/model.rs` — the derive input as plain data: attributes and their
  comma-separated entries, fields, field types, generics.
- `src/attrs.rs` — reading `#[rlp(...)]` on a struct and on its fields.
- `src/plan.rs` — the checks of the derives and the plan of the decoder.
- `src/decode.rs` — running a plan on an RLP buffer.
- `src/rlp.rs` — the calls into `alloy_rlp` that decoding makes.
- `src/error.rs` — errors and their messages.
- `app/` — the derives over `syn`: reading a `syn::DeriveInput` into the
  model and writing the plan out with `quote`.
