//! Identities: opaque, totally ordered addresses derived from public keys.
//!
//! An identity is either the anonymous sentinel (a legitimate sender but never
//! a destination of an authenticated call), a public-key identity (the SHA-256
//! digest of a public key), or a subresource identity derived from a public-key
//! identity and a numeric discriminator (how accounts get their addresses).

use vstd::prelude::*;

verus! {

/// Tag of the anonymous identity.
pub const TAG_ANONYMOUS: u8 = 0;
/// Tag of an identity derived from a public key.
pub const TAG_PUBLIC_KEY: u8 = 1;
/// Tag of a subresource identity (parent identity plus discriminator).
pub const TAG_SUBRESOURCE: u8 = 2;

/// The mathematical value of an identity: its tag, the hash it carries (empty
/// for the anonymous identity), and its subresource discriminator (0 unless it
/// is a subresource identity).
pub type IdentityView = (u8, Seq<u8>, u64);

#[derive(Clone, Copy, PartialEq, Eq, Debug)]
pub struct Identity {
    tag: u8,
    hash: [u8; 32],
    sub: u64,
}

impl View for Identity {
    type V = IdentityView;

    closed spec fn view(&self) -> IdentityView {
        (
            self.tag,
            if self.tag == TAG_ANONYMOUS {
                Seq::<u8>::empty()
            } else {
                self.hash@
            },
            if self.tag == TAG_SUBRESOURCE {
                self.sub
            } else {
                0
            },
        )
    }
}

impl Identity {
    pub open spec fn spec_is_anonymous(&self) -> bool {
        self@.0 == TAG_ANONYMOUS
    }

    pub open spec fn spec_is_addressable(&self) -> bool {
        self@.0 == TAG_PUBLIC_KEY || self@.0 == TAG_SUBRESOURCE
    }

    /// The anonymous sentinel identity.
    pub fn anonymous() -> (r: Identity)
        ensures
            r@ == (TAG_ANONYMOUS, Seq::<u8>::empty(), 0u64),
    {
        Identity { tag: TAG_ANONYMOUS, hash: [0u8; 32], sub: 0 }
    }

    /// The identity derived from a public key: a one-way, collision-resistant
    /// mapping (the SHA-256 digest of the key bytes).
    pub fn from_public_key(key: &[u8]) -> (r: Identity)
        ensures
            r@ == (TAG_PUBLIC_KEY, crate::crypto::key_hash(key@), 0u64),
            r.spec_is_addressable(),
            !r.spec_is_anonymous(),
    {
        let hash = crate::crypto::sha256_hash(key);
        Identity { tag: TAG_PUBLIC_KEY, hash, sub: 0 }
    }

    /// The subresource identity derived from `self` and the discriminator
    /// `sub`: same hash, subresource tag. This is how an account's own address
    /// is derived from its parent's identity.
    pub fn subresource(&self, sub: u64) -> (r: Identity)
        requires
            self@.0 == TAG_PUBLIC_KEY,
        ensures
            r@ == (TAG_SUBRESOURCE, self@.1, sub),
            r.spec_is_addressable(),
    {
        Identity { tag: TAG_SUBRESOURCE, hash: self.hash, sub }
    }

    pub fn is_anonymous(&self) -> (r: bool)
        ensures
            r == self.spec_is_anonymous(),
    {
        self.tag == TAG_ANONYMOUS
    }

    pub fn is_addressable(&self) -> (r: bool)
        ensures
            r == self.spec_is_addressable(),
    {
        self.tag == TAG_PUBLIC_KEY || self.tag == TAG_SUBRESOURCE
    }

    /// An addressable identity reconstructed from a transmitted 32-byte hash
    /// (the external representation of a public-key identity).
    pub fn from_hash(hash: &[u8; 32]) -> (r: Identity)
        ensures
            r@ == (TAG_PUBLIC_KEY, hash@, 0u64),
            r.spec_is_addressable(),
    {
        Identity { tag: TAG_PUBLIC_KEY, hash: *hash, sub: 0 }
    }

    /// The subresource discriminator (0 unless this is a subresource
    /// identity).
    pub fn discriminator(&self) -> (r: u64)
        ensures
            r == self@.2,
    {
        if self.tag == TAG_SUBRESOURCE {
            self.sub
        } else {
            0
        }
    }

    /// The tag of this identity.
    pub fn tag(&self) -> (r: u8)
        ensures
            r == self@.0,
    {
        self.tag
    }

    /// The hash this identity carries (empty for the anonymous identity).
    pub fn hash_bytes(&self) -> (r: Vec<u8>)
        ensures
            r@ == self@.1,
    {
        let mut out: Vec<u8> = Vec::new();
        if self.tag == TAG_ANONYMOUS {
            return out;
        }
        let mut i: usize = 0;
        while i < 32
            invariant
                i <= 32,
                self.tag != TAG_ANONYMOUS,
                out@ == self.hash@.subrange(0, i as int),
            decreases 32 - i,
        {
            out.push(self.hash[i]);
            i += 1;
        }
        proof {
            assert(self.hash@.subrange(0, 32) =~= self.hash@);
        }
        out
    }
}

/// Byte-wise equality of two identities (equality of their mathematical
/// values).
pub fn identity_eq(a: &Identity, b: &Identity) -> (r: bool)
    ensures
        r == (a@ == b@),
{
    if a.tag != b.tag {
        proof {
            assert(a@.0 != b@.0);
        }
        return false;
    }
    if a.tag == TAG_ANONYMOUS {
        proof {
            assert(a@ =~= b@);
        }
        return true;
    }
    if a.tag == TAG_SUBRESOURCE && a.sub != b.sub {
        proof {
            assert(a@.2 != b@.2);
        }
        return false;
    }
    let mut i: usize = 0;
    while i < 32
        invariant
            i <= 32,
            a.tag == b.tag,
            a.tag != TAG_ANONYMOUS,
            a.tag == TAG_SUBRESOURCE ==> a.sub == b.sub,
            forall|j: int| 0 <= j < i ==> a.hash@[j] == b.hash@[j],
        decreases 32 - i,
    {
        if a.hash[i] != b.hash[i] {
            proof {
                assert(a@.1[i as int] != b@.1[i as int]);
            }
            return false;
        }
        i += 1;
    }
    proof {
        assert(a@.1 =~= b@.1);
        assert(a@ =~= b@);
    }
    true
}

} // verus!
