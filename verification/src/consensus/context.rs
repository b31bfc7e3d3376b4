//! What the protocol needs from its surroundings: a digest, signatures, and the
//! knowledge of which values have to be validated before they are accepted.
//!
//! The protocol is verified for every implementation whose functions compute what
//! their specification functions say, that is, for which the same arguments always
//! give the same result. An implementation that is not verified leaves the
//! specification functions as they are: each then stands for whatever the
//! executable function computes.

use vstd::prelude::*;
use crate::consensus::types::{ConsensusValue, Digest, Signature, ValidatorId};

verus! {

/// The secret of a validator, with which it signs.
pub trait ValidatorSecret {
    /// The signature of this secret over `hash`.
    closed spec fn spec_sign(&self, hash: Digest) -> Signature {
        arbitrary()
    }

    /// Signs `hash`.
    fn sign(&self, hash: Digest) -> (signature: Signature)
        ensures
            signature == self.spec_sign(hash),
    ;
}

/// The cryptography and the values of a network.
pub trait Context: Sized {
    /// The secret with which a validator signs.
    type ValidatorSecret: ValidatorSecret;

    /// The digest of `data`.
    closed spec fn spec_hash(data: Seq<u8>) -> Digest {
        arbitrary()
    }

    /// Computes the digest of `data`.
    fn hash(data: &Vec<u8>) -> (hash: Digest)
        ensures
            hash == Self::spec_hash(data@),
    ;

    /// Whether `signature` is the signature of `validator` over `hash`.
    closed spec fn spec_verify_signature(
        hash: Digest,
        validator: ValidatorId,
        signature: Signature,
    ) -> bool {
        arbitrary()
    }

    /// Checks whether `signature` is the signature of `validator` over `hash`.
    fn verify_signature(hash: Digest, validator: ValidatorId, signature: Signature) -> (valid: bool)
        ensures
            valid == Self::spec_verify_signature(hash, validator, signature),
    ;

    /// Whether `value` has to be validated before a proposal of it is processed.
    closed spec fn spec_needs_validation(value: ConsensusValue) -> bool {
        arbitrary()
    }

    /// Tells whether `value` has to be validated before a proposal of it is processed.
    fn needs_validation(value: ConsensusValue) -> (needed: bool)
        ensures
            needed == Self::spec_needs_validation(value),
    ;
}

} // verus!
