//! Content identifiers: validated multihash bytes and their decoding from
//! base58 text.

use vstd::prelude::*;

verus! {

/// Largest digest, in bytes, that a content identifier may carry.
pub const MAX_DIGEST_LEN: usize = 32;

/// The raw bytes that `s` denotes in base58 with the bitcoin alphabet, or
/// nothing when `s` is not such an encoding.
pub uninterp spec fn base58_of(s: Seq<char>) -> Option<Seq<u8>>;

/// True when `b` is exactly one well-formed multihash encoding: a
/// hash-function code varint, a digest-size varint of at most the digest
/// capacity, and exactly that many digest bytes, with nothing left over.
pub uninterp spec fn multihash_ok(b: Seq<u8>) -> bool;

/// Relies on bs58::decode (bitcoin alphabet, no checksum): the decoded bytes
/// are a function of the input characters alone, and decoding fails exactly
/// on text that is no base58 encoding.
#[verifier::external_body]
fn base58_decode(s: &str) -> (r: Option<Vec<u8>>)
    ensures
        r matches Some(v) ==> base58_of(s@) == Some(v@),
        r is None ==> base58_of(s@) is None,
{
    bs58::decode(s).into_vec().ok()
}

/// Relies on multihash::MultihashGeneric::from_bytes, which succeeds exactly
/// when the bytes are one whole multihash whose digest fits the capacity.
#[verifier::external_body]
fn multihash_valid(b: &Vec<u8>) -> (r: bool)
    ensures
        r == multihash_ok(b@),
{
    multihash::MultihashGeneric::<MAX_DIGEST_LEN>::from_bytes(b.as_slice()).is_ok()
}

/// One content identifier: the raw bytes of a validated multihash. Equality
/// is byte-exact; the canonical text form is the base58 encoding of the
/// bytes.
#[derive(Debug, PartialEq, Eq, Hash)]
pub struct ContentId {
    bytes: Vec<u8>,
}

impl View for ContentId {
    type V = Seq<u8>;

    closed spec fn view(&self) -> Seq<u8> {
        self.bytes@
    }
}

impl ContentId {
    /// The bytes of a content identifier are a well-formed multihash.
    pub open spec fn wf(&self) -> bool {
        multihash_ok(self@)
    }

    /// The raw multihash bytes.
    pub fn bytes(&self) -> (r: &Vec<u8>)
        ensures
            r@ == self@,
    {
        &self.bytes
    }

    /// True when both identifiers hold the same bytes.
    pub fn same(&self, other: &ContentId) -> (r: bool)
        ensures
            r == (self@ == other@),
    {
        let r = self.bytes == other.bytes;
        proof {
            if r {
                assert(self.bytes@ =~= other.bytes@);
            }
        }
        r
    }

    /// An independent copy of the identifier.
    pub fn duplicate(&self) -> (r: ContentId)
        ensures
            r@ == self@,
    {
        let mut bytes: Vec<u8> = Vec::new();
        let mut i: usize = 0;
        while i < self.bytes.len()
            invariant
                i <= self.bytes.len(),
                bytes@ == self.bytes@.take(i as int),
            decreases self.bytes.len() - i,
        {
            bytes.push(self.bytes[i]);
            proof {
                assert(self.bytes@.take(i + 1) =~= self.bytes@.take(i as int).push(
                    self.bytes@[i as int],
                ));
            }
            i = i + 1;
        }
        proof {
            assert(self.bytes@.take(self.bytes@.len() as int) =~= self.bytes@);
        }
        ContentId { bytes }
    }
}

/// What one hash string yields: its base58 bytes when they form a
/// well-formed multihash, nothing otherwise.
pub open spec fn spec_decode_hash(s: Seq<char>) -> Option<Seq<u8>> {
    match base58_of(s) {
        Some(b) => if multihash_ok(b) {
            Some(b)
        } else {
            None
        },
        None => None,
    }
}

/// Decodes one hash string into a content identifier: base58 first, then
/// multihash validation. Either failure yields nothing, so a caller can drop
/// the record and go on.
pub fn decode_hash(s: &str) -> (r: Option<ContentId>)
    ensures
        r matches Some(c) ==> spec_decode_hash(s@) == Some(c@) && c.wf(),
        r is None <==> spec_decode_hash(s@) is None,
{
    match base58_decode(s) {
        Some(bytes) => if multihash_valid(&bytes) {
            Some(ContentId { bytes })
        } else {
            None
        },
        None => None,
    }
}

} // verus!
