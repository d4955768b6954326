//! Twenty-byte account identifiers and their canonical text form.

use vstd::prelude::*;
use crate::hexstr::hex_str_lower;
use crate::hexstr::hex_encode_lower;

verus! {

/// Number of bytes in an account identifier.
pub const ADDRESS_LEN: usize = 20;

/// A twenty-byte account identifier. Its canonical text form is `0x` followed
/// by forty lowercase hexadecimal digits.
#[derive(Debug, PartialEq, Eq, Hash)]
pub struct Address {
    bytes: Vec<u8>,
}

impl View for Address {
    type V = Seq<u8>;

    closed spec fn view(&self) -> Seq<u8> {
        self.bytes@
    }
}

/// The canonical text of an address with the given bytes.
pub open spec fn spec_address_text(b: Seq<u8>) -> Seq<char> {
    "0x"@ + hex_str_lower(b)
}

impl Address {
    /// An address holds exactly twenty bytes.
    pub open spec fn wf(&self) -> bool {
        self@.len() == ADDRESS_LEN
    }

    /// Wraps twenty raw bytes as an address; yields nothing for any other
    /// length.
    pub fn from_bytes(bytes: Vec<u8>) -> (r: Option<Address>)
        ensures
            r matches Some(a) ==> a@ == bytes@ && a.wf(),
            r is None <==> bytes@.len() != ADDRESS_LEN,
    {
        if bytes.len() == ADDRESS_LEN {
            Some(Address { bytes })
        } else {
            None
        }
    }

    /// The raw bytes of the address.
    pub fn bytes(&self) -> (r: &Vec<u8>)
        ensures
            r@ == self@,
    {
        &self.bytes
    }

    /// True when both addresses hold the same bytes.
    pub fn same(&self, other: &Address) -> (r: bool)
        ensures
            r == (self@ == other@),
    {
        let r = self.bytes == other.bytes;
        proof {
            if r {
                assert(self.bytes@ =~= other.bytes@);
            }
        }
        r
    }

    /// An independent copy of the address.
    pub fn duplicate(&self) -> (r: Address)
        ensures
            r@ == self@,
    {
        let mut bytes: Vec<u8> = Vec::new();
        let mut i: usize = 0;
        while i < self.bytes.len()
            invariant
                i <= self.bytes.len(),
                bytes@ == self.bytes@.take(i as int),
            decreases self.bytes.len() - i,
        {
            bytes.push(self.bytes[i]);
            proof {
                assert(self.bytes@.take(i + 1) =~= self.bytes@.take(i as int).push(
                    self.bytes@[i as int],
                ));
            }
            i = i + 1;
        }
        proof {
            assert(self.bytes@.take(self.bytes@.len() as int) =~= self.bytes@);
        }
        Address { bytes }
    }

    /// The canonical text form: `0x` followed by the bytes in lowercase
    /// hexadecimal.
    pub fn to_text(&self) -> (r: String)
        ensures
            r@ == spec_address_text(self@),
    {
        let mut out = String::from_str("0x");
        out.append(hex_encode_lower(&self.bytes).as_str());
        out
    }
}

} // verus!
