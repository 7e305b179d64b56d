//! Trusted boundary to the wire codec (`minicbor`). The encodings are opaque
//! binary: the library names them and never restates the format.

use vstd::prelude::*;

verus! {

/// The CBOR encoding of a list of text strings, as produced by minicbor. A
/// function of the strings alone.
pub uninterp spec fn cbor_of_text_array(v: Seq<Seq<char>>) -> Seq<u8>;

/// The CBOR encoding of the status fields, as produced by minicbor. A
/// function of the field values alone.
pub uninterp spec fn status_encoding(
    version: u64,
    public_key: Seq<u8>,
    identity_tag: u8,
    identity_hash: Seq<u8>,
    attributes: Seq<u64>,
    internal_version: Seq<u8>,
) -> Seq<u8>;

/// Relies on `minicbor::to_vec`: the encoding of a list of text strings
/// depends on the strings alone, and encoding into a byte vector cannot fail
/// (the writer is infallible).
#[verifier::external_body]
pub(crate) fn cbor_encode_text_array(v: &Vec<String>) -> (r: Vec<u8>)
    ensures
        r@ == cbor_of_text_array(v.deep_view()),
{
    minicbor::to_vec(v).unwrap()
}

/// Relies on `minicbor::to_vec`: the encoding of the status tuple depends on
/// the field values alone, and encoding into a byte vector cannot fail.
#[verifier::external_body]
pub(crate) fn cbor_encode_status(
    version: u64,
    public_key: &Vec<u8>,
    identity_tag: u8,
    identity_hash: &Vec<u8>,
    attributes: &Vec<u64>,
    internal_version: &Vec<u8>,
) -> (r: Vec<u8>)
    ensures
        r@ == status_encoding(
            version,
            public_key@,
            identity_tag,
            identity_hash@,
            attributes@,
            internal_version@,
        ),
{
    minicbor::to_vec(
        (version, public_key, identity_tag, identity_hash, attributes, internal_version),
    ).unwrap()
}

} // verus!
