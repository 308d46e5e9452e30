//! The calls into `alloy_rlp` that decoding makes, with what they are
//! trusted to do.
//!
//! `alloy_rlp::Header::decode` and `<u64 as alloy_rlp::Decodable>::decode`
//! read RLP items by rules that take pages to state; their results, errors
//! included, are named here (`rlp_header`, `rlp_u64`) as functions of the
//! bytes they read.
//! `Header::decode_bytes` is stated through `rlp_header`, as its source
//! shows it: the header, a check that it is a string, then its payload.

use vstd::prelude::*;

verus! {

/// An error of RLP decoding, variant for variant those of `alloy_rlp::Error`.
#[derive(Debug)]
pub enum RlpError {
    Overflow,
    LeadingZero,
    InputTooShort,
    NonCanonicalSingleByte,
    NonCanonicalSize,
    UnexpectedLength,
    UnexpectedString,
    UnexpectedList,
    ListLengthMismatch { expected: usize, got: usize },
    Custom(&'static str),
}

#[verifier::external_type_specification]
#[verifier::external_body]
pub struct ExRlpDecodeError(alloy_rlp::Error);

/// What `alloy_rlp::Header::decode` gives for `input`: whether the item is
/// a list, the length of its payload, and how many bytes are left after
/// the header; or the error it reports.
pub uninterp spec fn rlp_header(input: Seq<u8>) -> Result<(bool, nat, nat), RlpError>;

/// What `<u64 as alloy_rlp::Decodable>::decode` gives for `input`: the
/// value and how many bytes are left after it; or the error it reports.
pub uninterp spec fn rlp_u64(input: Seq<u8>) -> Result<(u64, nat), RlpError>;

/// `alloy_rlp::Header::decode` on `buf[pos..]`, its error converted.
///
/// Trusted: it returns what `rlp_header` gives; on success the payload fits
/// in what is left after the header, which is at most what was there (the
/// source returns `InputTooShort` otherwise, and a single byte below 0x80 is
/// its own header, not consumed).
#[verifier::external_body]
pub(crate) fn decode_header(buf: &[u8], pos: usize) -> (r: Result<(bool, usize, usize), RlpError>)
    requires
        pos <= buf.len(),
    ensures
        match r {
            Ok((list, len, rest)) => rlp_header(buf@.skip(pos as int)) == Ok::<(bool, nat, nat), RlpError>(
                (list, len as nat, rest as nat),
            ),
            Err(e) => rlp_header(buf@.skip(pos as int)) == Err::<(bool, nat, nat), RlpError>(e),
        },
        r matches Ok((_, len, rest)) ==> len <= rest <= buf.len() - pos,
{
    let mut rest = &buf[pos..];
    match alloy_rlp::Header::decode(&mut rest) {
        Ok(h) => Ok((h.list, h.payload_length, rest.len())),
        Err(e) => Err(rlp_error_kind(e)),
    }
}

/// `<u64 as alloy_rlp::Decodable>::decode` on `buf[pos..]`, its error
/// converted.
///
/// Trusted: it returns what `rlp_u64` gives; on success it has consumed at
/// least one byte (every path of the source advances the buffer).
#[verifier::external_body]
pub(crate) fn decode_u64(buf: &[u8], pos: usize) -> (r: Result<(u64, usize), RlpError>)
    requires
        pos <= buf.len(),
    ensures
        match r {
            Ok((v, rest)) => rlp_u64(buf@.skip(pos as int)) == Ok::<(u64, nat), RlpError>((v, rest as nat)),
            Err(e) => rlp_u64(buf@.skip(pos as int)) == Err::<(u64, nat), RlpError>(e),
        },
        r matches Ok((_, rest)) ==> rest < buf.len() - pos,
{
    let mut rest = &buf[pos..];
    match <u64 as alloy_rlp::Decodable>::decode(&mut rest) {
        Ok(v) => Ok((v, rest.len())),
        Err(e) => Err(rlp_error_kind(e)),
    }
}

/// `alloy_rlp::Header::decode_bytes(_, false)` on `buf[pos..]`, its payload
/// copied out and its error converted.
///
/// Trusted, as its source shows it: it decodes the header (passing on its
/// error), fails with `UnexpectedList` on a list, and otherwise returns the
/// payload that follows the header, advancing past it; the payload fits in
/// what follows the header.
#[verifier::external_body]
pub(crate) fn decode_string(buf: &[u8], pos: usize) -> (r: Result<(Vec<u8>, usize), RlpError>)
    requires
        pos <= buf.len(),
    ensures
        match rlp_header(buf@.skip(pos as int)) {
            Err(e) => r == Err::<(Vec<u8>, usize), RlpError>(e),
            Ok((list, len, hrest)) => if list {
                r == Err::<(Vec<u8>, usize), RlpError>(RlpError::UnexpectedList)
            } else {
                r matches Ok((payload, rest)) && len <= hrest <= buf.len() - pos && rest == hrest
                    - len && payload@ == buf@.subrange(
                    buf.len() - hrest,
                    buf.len() - hrest + len,
                )
            },
        },
{
    let mut rest = &buf[pos..];
    match alloy_rlp::Header::decode_bytes(&mut rest, false) {
        Ok(payload) => Ok((payload.to_vec(), rest.len())),
        Err(e) => Err(rlp_error_kind(e)),
    }
}

/// The variant of an `alloy_rlp::Error`, one for one, with its fields: the
/// conversion the wrappers above apply to the errors they pass on.
#[verifier::external_body]
fn rlp_error_kind(e: alloy_rlp::Error) -> RlpError {
    match e {
        alloy_rlp::Error::Overflow => RlpError::Overflow,
        alloy_rlp::Error::LeadingZero => RlpError::LeadingZero,
        alloy_rlp::Error::InputTooShort => RlpError::InputTooShort,
        alloy_rlp::Error::NonCanonicalSingleByte => RlpError::NonCanonicalSingleByte,
        alloy_rlp::Error::NonCanonicalSize => RlpError::NonCanonicalSize,
        alloy_rlp::Error::UnexpectedLength => RlpError::UnexpectedLength,
        alloy_rlp::Error::UnexpectedString => RlpError::UnexpectedString,
        alloy_rlp::Error::UnexpectedList => RlpError::UnexpectedList,
        alloy_rlp::Error::ListLengthMismatch { expected, got } => RlpError::ListLengthMismatch { expected, got },
        alloy_rlp::Error::Custom(s) => RlpError::Custom(s),
    }
}

} // verus!
