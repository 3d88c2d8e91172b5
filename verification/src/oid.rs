//! Object identifiers: twenty raw bytes, forty hexadecimal digits as text.

use crate::bytes::bytes_eq;
use crate::error::GitError;
use crate::hex_text::{decode_hex, encode_hex, hex_decoded, hex_encoded, is_hex_text};
use vstd::array::array_as_slice;
use vstd::prelude::*;

verus! {

/// The identifier of an object: the SHA-1 digest of its framed bytes.
#[derive(Clone, Copy, Debug, PartialEq, Eq, PartialOrd, Ord, Hash)]
pub struct Oid {
    /// The twenty raw bytes of the digest.
    pub bytes: [u8; 20],
}

impl View for Oid {
    type V = Seq<u8>;

    open spec fn view(&self) -> Seq<u8> {
        self.bytes@
    }
}

impl DeepView for Oid {
    type V = Seq<u8>;

    open spec fn deep_view(&self) -> Seq<u8> {
        self@
    }
}

impl Oid {
    /// The identifier made of the given twenty bytes.
    pub fn from_bytes(bytes: [u8; 20]) -> (oid: Oid)
        ensures
            oid@ == bytes@,
    {
        Oid { bytes }
    }

    /// The identifier held in `raw`, which has to be twenty bytes long.
    pub fn from_slice(raw: &[u8]) -> (res: Option<Oid>)
        ensures
            res is Some <==> raw@.len() == 20,
            res matches Some(oid) ==> oid@ == raw@,
    {
        if raw.len() != 20 {
            return None;
        }
        let mut bytes: [u8; 20] = [0u8; 20];
        let mut i: usize = 0;
        while i < 20
            invariant
                i <= 20,
                raw@.len() == 20,
                forall|j: int| 0 <= j < i ==> bytes@[j] == raw@[j],
            decreases 20 - i,
        {
            bytes[i] = raw[i];
            i += 1;
        }
        Some(Oid { bytes })
    }

    /// The twenty raw bytes.
    pub fn as_bytes(&self) -> (raw: &[u8])
        ensures
            raw@ == self@,
            raw@.len() == 20,
    {
        array_as_slice(&self.bytes)
    }

    /// Whether both identifiers hold the same bytes.
    pub fn same_as(&self, other: &Oid) -> (r: bool)
        ensures
            r == (self@ == other@),
    {
        bytes_eq(self.as_bytes(), other.as_bytes())
    }

    /// The canonical text form: forty lower-case hexadecimal digits.
    pub fn to_hex(&self) -> (text: String)
        ensures
            text@ == hex_encoded(self@),
            text@.len() == 40,
    {
        encode_hex(self.as_bytes())
    }

    /// Reads the text form. Text that is not forty hexadecimal digits, of
    /// either case, is `BadOid`.
    pub fn from_hex(text: &str) -> (res: Result<Oid, GitError>)
        ensures
            res is Ok <==> text@.len() == 40 && is_hex_text(text@),
            res matches Ok(oid) ==> oid@ == hex_decoded(text@),
            res matches Err(e) ==> e == GitError::BadOid,
    {
        match decode_hex(text) {
            Some(raw) => match Oid::from_slice(raw.as_slice()) {
                Some(oid) => Ok(oid),
                None => Err(GitError::BadOid),
            },
            None => Err(GitError::BadOid),
        }
    }
}

} // verus!
