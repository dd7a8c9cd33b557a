//! Identities of owners and of the service itself.

use vstd::prelude::*;

verus! {

/// The most bytes an identity can hold.
pub const MAX_IDENTITY_BYTES: usize = 29;

/// An account or service identity: an opaque blob of at most 29 bytes.
///
/// Its view is the blob. Two identities are the same owner exactly when
/// their views are equal.
#[derive(Debug, PartialEq, Eq)]
pub struct Identity {
    bytes: Vec<u8>,
}

impl View for Identity {
    type V = Seq<u8>;

    closed spec fn view(&self) -> Seq<u8> {
        self.bytes@
    }
}

impl Identity {
    #[verifier::type_invariant]
    spec fn within_limit(&self) -> bool {
        self.bytes@.len() <= MAX_IDENTITY_BYTES
    }

    /// Wraps a blob, or refuses it when it is longer than 29 bytes.
    pub fn from_bytes(bytes: Vec<u8>) -> (r: Option<Identity>)
        ensures
            bytes@.len() <= MAX_IDENTITY_BYTES ==> (r matches Some(id) && id@ == bytes@),
            bytes@.len() > MAX_IDENTITY_BYTES ==> r is None,
    {
        if bytes.len() <= MAX_IDENTITY_BYTES {
            Some(Identity { bytes })
        } else {
            None
        }
    }

    /// The blob, which is never longer than 29 bytes.
    pub fn as_bytes(&self) -> (bytes: &Vec<u8>)
        ensures
            bytes@ == self@,
            bytes@.len() <= MAX_IDENTITY_BYTES,
    {
        proof {
            use_type_invariant(self);
        }
        &self.bytes
    }

    /// Whether two identities name the same owner.
    pub fn same(&self, other: &Identity) -> (r: bool)
        ensures
            r == (self@ == other@),
    {
        let r = self.bytes == other.bytes;
        proof {
            if r {
                assert(self.bytes@ =~= other.bytes@);
            }
        }
        r
    }
}

impl Clone for Identity {
    fn clone(&self) -> (r: Identity)
        ensures
            r@ == self@,
    {
        proof {
            use_type_invariant(self);
        }
        Identity { bytes: self.bytes.clone() }
    }
}

} // verus!
