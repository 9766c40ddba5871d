//! The audit hash chain's link computation.
//!
//! Each audit entry is chained to its predecessor by a hash over the entry's
//! fields and the previous link's hash; a link is valid exactly when its
//! recorded hash matches the hash recomputed from its fields. The digest
//! itself comes from the `sha2` crate, the textual form from `hex`.

use vstd::prelude::*;
use vstd::string::StrSliceExecFns;
use vstd::string::StringSliceAdditionalSpecFns;
use sha2::Digest;

verus! {

/// The SHA-256 digest of a byte sequence: a function of the input alone.
pub uninterp spec fn sha256_of(data: Seq<u8>) -> Seq<u8>;

/// The lowercase hexadecimal digit for a value below 16.
pub open spec fn hex_digit(n: u8) -> char {
    if n < 10 {
        (48 + n) as char
    } else {
        (87 + n) as char
    }
}

/// Lowercase hexadecimal text for a byte sequence: two digits per byte,
/// high digit first.
pub open spec fn hex_of(data: Seq<u8>) -> Seq<char> {
    Seq::new(
        data.len() * 2,
        |i: int|
            if i % 2 == 0 {
                hex_digit(data[i / 2] / 16)
            } else {
                hex_digit(data[i / 2] % 16)
            },
    )
}

/// Relies on `sha2::Sha256::digest`: a 32-byte digest determined by the
/// input bytes alone.
#[verifier::external_body]
fn sha256(data: &Vec<u8>) -> (r: Vec<u8>)
    ensures
        r@ == sha256_of(data@),
        r@.len() == 32,
{
    sha2::Sha256::digest(data.as_slice()).to_vec()
}

/// Relies on `hex::encode`: the lowercase hexadecimal spelling of the
/// bytes, two digits per byte, high digit first.
#[verifier::external_body]
fn hex_encode(data: &Vec<u8>) -> (r: String)
    ensures
        r@ == hex_of(data@),
{
    hex::encode(data.as_slice())
}

/// The UTF-8 bytes an optional field contributes to the hash input, with
/// its fixed placeholder when absent.
pub open spec fn opt_bytes(s: Option<&str>, placeholder: Seq<u8>) -> Seq<u8> {
    match s {
        Some(x) => x.spec_bytes(),
        None => placeholder,
    }
}

/// The byte string an audit entry hashes: its fields and the previous
/// link's hash, concatenated, with `"SYSTEM"`, `"NULL"` and
/// `"GENESIS_BLOCK"` standing in for absent fields.
pub open spec fn audit_input(
    user_id: Option<&str>,
    resource_id: Option<&str>,
    action: &str,
    details: &str,
    prev_hash: Option<&str>,
) -> Seq<u8> {
    opt_bytes(user_id, "SYSTEM".spec_bytes()) + opt_bytes(resource_id, "NULL".spec_bytes())
        + action.spec_bytes() + details.spec_bytes() + opt_bytes(
        prev_hash,
        "GENESIS_BLOCK".spec_bytes(),
    )
}

/// The hash that chains an audit entry to its predecessor.
pub open spec fn audit_hash(
    user_id: Option<&str>,
    resource_id: Option<&str>,
    action: &str,
    details: &str,
    prev_hash: Option<&str>,
) -> Seq<char> {
    hex_of(sha256_of(audit_input(user_id, resource_id, action, details, prev_hash)))
}

/// Append a string's UTF-8 bytes to a buffer.
fn push_str_bytes(out: &mut Vec<u8>, s: &str)
    ensures
        final(out)@ == old(out)@ + s.spec_bytes(),
{
    let bytes = s.as_bytes_vec();
    crate::codec::push_bytes(out, &bytes);
}

/// Computes and checks the links of the audit chain.
pub struct IntegrityEngine;

impl IntegrityEngine {
    /// The hash for one link of the audit chain: the entry's fields and the
    /// previous link's hash, digested and spelled in lowercase hex.
    pub fn calculate_audit_hash(
        user_id: Option<&str>,
        resource_id: Option<&str>,
        action: &str,
        details: &str,
        prev_hash: Option<&str>,
    ) -> (r: String)
        ensures
            r@ == audit_hash(user_id, resource_id, action, details, prev_hash),
    {
        let mut input: Vec<u8> = Vec::new();
        push_str_bytes(
            &mut input,
            match user_id {
                Some(s) => s,
                None => "SYSTEM",
            },
        );
        push_str_bytes(
            &mut input,
            match resource_id {
                Some(s) => s,
                None => "NULL",
            },
        );
        push_str_bytes(&mut input, action);
        push_str_bytes(&mut input, details);
        push_str_bytes(
            &mut input,
            match prev_hash {
                Some(s) => s,
                None => "GENESIS_BLOCK",
            },
        );
        proof {
            assert(input@ =~= audit_input(user_id, resource_id, action, details, prev_hash));
        }
        let digest = sha256(&input);
        hex_encode(&digest)
    }

    /// Whether a link of the chain is valid: its recorded hash is exactly
    /// the hash recomputed from its fields.
    pub fn verify_link(
        current_hash: &str,
        user_id: Option<&str>,
        resource_id: Option<&str>,
        action: &str,
        details: &str,
        prev_hash: Option<&str>,
    ) -> (r: bool)
        ensures
            r == (current_hash@ == audit_hash(user_id, resource_id, action, details, prev_hash)),
    {
        let calculated = Self::calculate_audit_hash(
            user_id,
            resource_id,
            action,
            details,
            prev_hash,
        );
        crate::storage::str_eq(calculated.as_str(), current_hash)
    }
}

} // verus!
