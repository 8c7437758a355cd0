//! The opaque twelve-byte identifier: a fixed-size byte value with a
//! hexadecimal string round trip.

use crate::hex::{bytes_of_hex, from_hex, hex_of, is_hex_seq, to_hex};
use vstd::prelude::*;

verus! {

/// An opaque twelve-byte identifier.
#[derive(Debug, Clone, Copy, PartialEq, Eq, PartialOrd, Ord, Hash)]
pub struct ObjectId {
    pub(crate) id: [u8; 12],
}

impl ObjectId {
    /// The twelve bytes of the identifier.
    pub open(crate) spec fn bytes_spec(self) -> Seq<u8> {
        self.id@
    }

    /// Builds an identifier from its twelve raw bytes.
    pub fn with_bytes(bytes: [u8; 12]) -> (r: ObjectId)
        ensures
            r.bytes_spec() == bytes@,
    {
        ObjectId { id: bytes }
    }

    /// Builds an identifier from twenty-four hexadecimal digits, or returns
    /// `None` when the text is not of that shape.
    pub fn with_string(s: &str) -> (r: Option<ObjectId>)
        ensures
            r is Some <==> is_hex_seq(s@) && s@.len() == 24,
            r matches Some(oid) ==> oid.bytes_spec() == bytes_of_hex(s@),
    {
        let v = match from_hex(s) {
            Some(v) => v,
            None => {
                return None;
            },
        };
        if v.len() != 12 {
            return None;
        }
        let id = [v[0], v[1], v[2], v[3], v[4], v[5], v[6], v[7], v[8], v[9], v[10], v[11]];
        proof {
            assert(id@ =~= bytes_of_hex(s@));
        }
        Some(ObjectId { id })
    }

    /// The raw bytes.
    pub fn bytes(&self) -> (r: [u8; 12])
        ensures
            r@ == self.bytes_spec(),
    {
        self.id
    }

    /// The twenty-four-digit lowercase hexadecimal spelling.
    pub fn to_hex(&self) -> (r: String)
        ensures
            r@ == hex_of(self.bytes_spec()),
    {
        to_hex(self.id.as_slice())
    }
}

} // verus!
