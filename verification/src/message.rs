//! Request and response envelopes, and the stateless sender-verification
//! contract that runs before dispatch.

use vstd::prelude::*;
use crate::crypto::{ed25519_verifies, ed25519_verify, key_hash};
use crate::error::OmniError;
use crate::identity::{identity_eq, Identity, TAG_PUBLIC_KEY};

verus! {

/// A method call addressed from one identity to another. The argument bytes
/// are opaque to the dispatcher. A non-anonymous sender carries its public key
/// and a detached signature over the canonical encoding of the envelope (the
/// canonical bytes are produced by the transport layer, outside this library).
#[derive(Debug)]
pub struct RequestMessage {
    pub from: Identity,
    pub to: Identity,
    pub method: String,
    pub data: Vec<u8>,
    pub public_key: Option<Vec<u8>>,
    pub signature: Option<Vec<u8>>,
}

/// The answer to a request: sent by the responder back to the original
/// sender, carrying either a payload or a request-scoped error.
#[derive(Debug)]
pub struct ResponseMessage {
    pub from: Identity,
    pub to: Identity,
    pub result: Result<Vec<u8>, OmniError>,
}

impl ResponseMessage {
    /// The response to `request`, addressed back to its sender.
    pub fn from_request(
        request: &RequestMessage,
        from: &Identity,
        result: Result<Vec<u8>, OmniError>,
    ) -> (r: ResponseMessage)
        ensures
            r.from == *from,
            r.to == request.from,
            r.result == result,
    {
        ResponseMessage { from: *from, to: request.from, result }
    }
}

/// Whether the envelope's sender claim holds: the sender is anonymous, or the
/// signature over the canonical envelope bytes verifies against a key whose
/// derived identity equals the sender.
pub open spec fn spec_sender_verifies(msg: RequestMessage, canonical: Seq<u8>) -> bool {
    ||| msg.from.spec_is_anonymous()
    ||| {
        &&& msg.public_key matches Some(key)
        &&& msg.signature matches Some(sig)
        &&& msg.from@ == (TAG_PUBLIC_KEY, key_hash(key@), 0u64)
        &&& ed25519_verifies(key@, canonical, sig@)
    }
}

/// The stateless verification executed before dispatch: a pure function of
/// the envelope and its canonical bytes, mutating nothing. Accepts exactly
/// when the sender claim holds.
pub fn verify_sender(msg: &RequestMessage, canonical: &[u8]) -> (r: Result<(), OmniError>)
    ensures
        r matches Ok(u) <==> spec_sender_verifies(*msg, canonical@),
        r matches Err(e) ==> e == OmniError::CouldNotVerifySignature,
{
    if msg.from.is_anonymous() {
        return Ok(());
    }
    match (&msg.public_key, &msg.signature) {
        (Some(key), Some(sig)) => {
            let claimed = Identity::from_public_key(key.as_slice());
            if identity_eq(&claimed, &msg.from) && ed25519_verify(key.as_slice(), canonical, sig.as_slice()) {
                Ok(())
            } else {
                Err(OmniError::CouldNotVerifySignature)
            }
        },
        _ => Err(OmniError::CouldNotVerifySignature),
    }
}

} // verus!
