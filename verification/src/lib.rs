//! Verified planning and execution of RLP decoders derived from struct
//! declarations.
//!
//! A derive input is described by plain data (`model`): the struct's
//! attributes, fields, field types and generics. From that description the
//! library reads the `#[rlp(...)]` attributes (`attrs`), checks the rules of
//! the derive and builds a decoding plan (`plan`), and runs such a plan on an
//! RLP byte buffer (`decode`), calling `alloy_rlp` for the header and the
//! primitive items (`rlp`).

pub mod model;
pub mod error;
pub mod attrs;
pub mod plan;
pub mod rlp;
pub mod decode;
