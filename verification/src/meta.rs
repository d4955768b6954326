//! Decoding one raw metadata envelope into an authorization event.
//!
//! A raw record is an ASCII string: an eighteen-character magic-number prefix
//! (an optional `0x` and sixteen hexadecimal digits), then hex-encoded CBOR
//! bytes. The CBOR document is a map whose entry at key zero is a byte
//! string: one action tag byte followed by twenty address bytes.

use vstd::prelude::*;
use crate::address::Address;
use crate::address::ADDRESS_LEN;
use crate::hexstr::spec_hex_decode;
use crate::hexstr::hex_decode;

verus! {

/// Number of leading characters that hold the magic-number prefix.
pub const MAGIC_PREFIX_LEN: usize = 18;

/// Why one raw metadata record could not be decoded.
#[derive(Clone, Copy, Debug, PartialEq, Eq, Structural)]
pub enum DecodeError {
    /// The record is shorter than the magic-number prefix.
    TooShort,
    /// The text after the prefix is not a hexadecimal byte string.
    HexDecode,
    /// The bytes are not a CBOR document carrying a payload byte string.
    CborDecode,
    /// The payload holds no bytes at all.
    EmptyPayload,
    /// The payload's address part is not exactly twenty bytes.
    BadAddressLength,
}

/// One decoded authorization event: the affected address and whether the
/// event adds it (`true`) or removes it.
#[derive(Debug)]
pub struct AuthorRecord {
    pub address: Address,
    pub is_add: bool,
}

/// The payload byte string that the CBOR document `b` carries at key zero of
/// its map, or nothing when `b` is not such a document.
pub uninterp spec fn cbor_payload_of(b: Seq<u8>) -> Option<Seq<u8>>;

/// Relies on serde_cbor::from_slice: decodes `data` as one CBOR map with
/// unsigned integer keys and hands back the byte-string entry at key zero.
/// Decoding and projection stand in one body because the intermediate CBOR
/// value has no stable form to specify; the composed result is a function of
/// the input bytes alone, named `cbor_payload_of`.
#[verifier::external_body]
pub fn cbor_decode(data: &Vec<u8>) -> (r: Option<Vec<u8>>)
    ensures
        r matches Some(p) ==> cbor_payload_of(data@) == Some(p@),
        r is None ==> cbor_payload_of(data@) is None,
{
    match serde_cbor::from_slice::<std::collections::BTreeMap<u8, serde_cbor::Value>>(
        data.as_slice(),
    ) {
        Ok(mut map) => match map.remove(&0u8) {
            Some(serde_cbor::Value::Bytes(payload)) => Some(payload),
            _ => None,
        },
        Err(_) => None,
    }
}

/// What decoding one raw record yields: the address bytes and the add flag,
/// or the first failure in prefix, hex, CBOR, payload or address length.
pub open spec fn spec_decode_meta(s: Seq<char>) -> Result<(Seq<u8>, bool), DecodeError> {
    if s.len() < MAGIC_PREFIX_LEN {
        Err(DecodeError::TooShort)
    } else {
        match spec_hex_decode(s.skip(MAGIC_PREFIX_LEN as int)) {
            None => Err(DecodeError::HexDecode),
            Some(bytes) => match cbor_payload_of(bytes) {
                None => Err(DecodeError::CborDecode),
                Some(payload) => if payload.len() == 0 {
                    Err(DecodeError::EmptyPayload)
                } else if payload.len() != ADDRESS_LEN + 1 {
                    Err(DecodeError::BadAddressLength)
                } else {
                    Ok((payload.skip(1), payload[0] == 1))
                },
            },
        }
    }
}

/// Decodes one raw metadata record into an authorization event.
///
/// The record must carry, after its eighteen-character magic-number prefix,
/// hex-encoded CBOR whose payload is one tag byte (one means add, anything
/// else means remove) and exactly twenty address bytes; each malformed stage
/// is reported as its own error.
#[verifier::loop_isolation(false)]
pub fn decode_meta(meta: &str) -> (r: Result<AuthorRecord, DecodeError>)
    ensures
        r matches Ok(rec) ==> spec_decode_meta(meta@) == Ok::<_, DecodeError>(
            (rec.address@, rec.is_add),
        ) && rec.address.wf(),
        r matches Err(e) ==> spec_decode_meta(meta@) == Err::<(Seq<u8>, bool), _>(e),
{
    let n = meta.unicode_len();
    if n < MAGIC_PREFIX_LEN {
        return Err(DecodeError::TooShort);
    }
    let tail = meta.substring_char(MAGIC_PREFIX_LEN, n);
    let bytes = match hex_decode(tail) {
        Some(b) => b,
        None => {
            return Err(DecodeError::HexDecode);
        },
    };
    let payload = match cbor_decode(&bytes) {
        Some(p) => p,
        None => {
            return Err(DecodeError::CborDecode);
        },
    };
    if payload.len() == 0 {
        return Err(DecodeError::EmptyPayload);
    }
    if payload.len() != ADDRESS_LEN + 1 {
        return Err(DecodeError::BadAddressLength);
    }
    let is_add = payload[0] == 1;
    let mut addr_bytes: Vec<u8> = Vec::new();
    let mut i: usize = 1;
    while i < payload.len()
        invariant
            1 <= i <= payload.len(),
            addr_bytes@ == payload@.subrange(1, i as int),
        decreases payload.len() - i,
    {
        addr_bytes.push(payload[i]);
        proof {
            assert(payload@.subrange(1, i + 1) =~= payload@.subrange(1, i as int).push(
                payload@[i as int],
            ));
        }
        i = i + 1;
    }
    proof {
        assert(addr_bytes@ =~= payload@.skip(1));
    }
    let address = Address::from_bytes(addr_bytes).unwrap();
    Ok(AuthorRecord { address, is_add })
}

} // verus!
