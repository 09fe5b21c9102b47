//! Hashing, hex encoding and the enclave signing key.
//!
//! The process keypair is modelled as an explicitly created value that is
//! injected into the components that need it; it is created from the
//! operating system's secure random source and never persisted.

use vstd::prelude::*;
use vstd::string::*;

use crate::json::{
    canon_bytes, canon_of, canonical_for, canonical_json_bytes, rep, wf, JsonRep, JsonValue,
};

use sha2::Digest;

verus! {

/// Lowercase hexadecimal digit character for a value below 16.
pub open spec fn hex_char(n: int) -> char {
    if n == 0 {
        '0'
    } else if n == 1 {
        '1'
    } else if n == 2 {
        '2'
    } else if n == 3 {
        '3'
    } else if n == 4 {
        '4'
    } else if n == 5 {
        '5'
    } else if n == 6 {
        '6'
    } else if n == 7 {
        '7'
    } else if n == 8 {
        '8'
    } else if n == 9 {
        '9'
    } else if n == 10 {
        'a'
    } else if n == 11 {
        'b'
    } else if n == 12 {
        'c'
    } else if n == 13 {
        'd'
    } else if n == 14 {
        'e'
    } else {
        'f'
    }
}

/// Lowercase hexadecimal encoding of a byte sequence: two digits per byte,
/// most significant digit first.
pub open spec fn spec_hex(bytes: Seq<u8>) -> Seq<char>
    decreases bytes.len(),
{
    if bytes.len() == 0 {
        Seq::empty()
    } else {
        spec_hex(bytes.drop_last()) + seq![
            hex_char(bytes.last() as int / 16),
            hex_char(bytes.last() as int % 16),
        ]
    }
}

pub proof fn lemma_spec_hex_len(bytes: Seq<u8>)
    ensures
        spec_hex(bytes).len() == 2 * bytes.len(),
    decreases bytes.len(),
{
    if bytes.len() > 0 {
        lemma_spec_hex_len(bytes.drop_last());
    }
}

/// Relies on hex::encode: each input byte becomes two lowercase
/// hexadecimal digits, in input order.
#[verifier::external_body]
fn hex_encode(data: &[u8]) -> (r: String)
    ensures
        r@ == spec_hex(data@),
{
    hex::encode(data)
}

/// Relies on hex::decode: it inverts hexadecimal encoding, so a string that
/// is the encoding of some bytes decodes to exactly those bytes.  The flag
/// reports whether decoding succeeded.
#[verifier::external_body]
fn hex_decode(s: &str) -> (r: (bool, Vec<u8>))
    ensures
        forall|b: Seq<u8>| s@ == spec_hex(b) ==> r.0 && r.1@ == b,
{
    match hex::decode(s) {
        Ok(v) => (true, v),
        Err(_) => (false, Vec::new()),
    }
}

/// The SHA-256 digest of a byte sequence, as the outside hash function
/// computes it.
pub uninterp spec fn sha256_of(data: Seq<u8>) -> Seq<u8>;

/// Relies on sha2::Sha256 (FIPS 180-4): the digest is 32 bytes and a
/// function of the input bytes alone.
#[verifier::external_body]
fn sha256_digest(data: &[u8]) -> (r: Vec<u8>)
    ensures
        r@ == sha256_of(data@),
        r@.len() == 32,
{
    sha2::Sha256::digest(data).to_vec()
}

/// Relies on rand_core::OsRng::fill_bytes: 32 bytes from the operating
/// system's secure random source.  Nothing is assumed of their values; it
/// aborts the process if that source fails.
#[verifier::external_body]
fn random_bytes_32() -> (r: Vec<u8>)
    ensures
        r@.len() == 32,
{
    let mut buf = [0u8; 32];
    rand_core::RngCore::fill_bytes(&mut rand_core::OsRng, &mut buf);
    buf.to_vec()
}

/// The Ed25519 signature of a message under a 32-byte secret key.
pub uninterp spec fn sig_of(key: Seq<u8>, msg: Seq<u8>) -> Seq<u8>;

/// The Ed25519 public key derived from a 32-byte secret key.
pub uninterp spec fn vk_of(key: Seq<u8>) -> Seq<u8>;

/// Whether an Ed25519 signature verifies for a public key and message.
pub uninterp spec fn sig_verifies(pk: Seq<u8>, msg: Seq<u8>, sig: Seq<u8>) -> bool;

/// Relies on ed25519_dalek::SigningKey::{from_bytes, sign}: Ed25519 signing
/// is deterministic (RFC 8032), so the 64-byte signature is a function of
/// the key bytes and message alone, and a signature so produced verifies
/// under the key's verifying key.
#[verifier::external_body]
fn ed25519_sign(key: &[u8], msg: &[u8]) -> (r: Vec<u8>)
    requires
        key@.len() == 32,
    ensures
        r@ == sig_of(key@, msg@),
        r@.len() == 64,
        sig_verifies(vk_of(key@), msg@, r@),
{
    let mut kb = [0u8; 32];
    kb.copy_from_slice(key);
    let sk = ed25519_dalek::SigningKey::from_bytes(&kb);
    ed25519_dalek::Signer::sign(&sk, msg).to_bytes().to_vec()
}

/// Relies on ed25519_dalek::SigningKey::{from_bytes, verifying_key} and
/// VerifyingKey::to_bytes: the 32-byte public key is a function of the
/// secret key bytes alone.
#[verifier::external_body]
fn ed25519_public_key(key: &[u8]) -> (r: Vec<u8>)
    requires
        key@.len() == 32,
    ensures
        r@ == vk_of(key@),
        r@.len() == 32,
{
    let mut kb = [0u8; 32];
    kb.copy_from_slice(key);
    let sk = ed25519_dalek::SigningKey::from_bytes(&kb);
    sk.verifying_key().to_bytes().to_vec()
}

/// Relies on ed25519_dalek::VerifyingKey::{try_from, verify} and
/// Signature::from_slice: the outcome is a function of the key, message and
/// signature bytes; malformed keys or signatures verify nothing.
#[verifier::external_body]
fn ed25519_verify(pk: &[u8], msg: &[u8], sig: &[u8]) -> (r: bool)
    ensures
        r == sig_verifies(pk@, msg@, sig@),
{
    let vk = match ed25519_dalek::VerifyingKey::try_from(pk) {
        Ok(k) => k,
        Err(_) => return false,
    };
    let sg = match ed25519_dalek::Signature::from_slice(sig) {
        Ok(s) => s,
        Err(_) => return false,
    };
    ed25519_dalek::Verifier::verify(&vk, msg, &sg).is_ok()
}

/// A `0x`-prefixed SHA-256 hex string of some bytes.
pub open spec fn hash_hex(data: Seq<u8>) -> Seq<char> {
    "0x"@ + spec_hex(sha256_of(data))
}

/// Compute a SHA-256 hash and return it as a 0x-prefixed hex string.
pub fn sha256_hex_prefixed(data: &[u8]) -> (r: String)
    ensures
        r@ == hash_hex(data@),
{
    let digest = sha256_digest(data);
    let tail = hex_encode(digest.as_slice());
    let mut out = String::from_str("0x");
    out.append(tail.as_str());
    out
}

/// The hash of the canonical byte encoding of a value, as a 0x-prefixed
/// hex string.
pub open spec fn report_hash_of(a: JsonRep) -> Seq<char> {
    hash_hex(canon_bytes(a))
}

/// Compute a deterministic report hash: hash the canonical form.
pub fn compute_report_hash(v: &JsonValue) -> (r: String)
    requires
        wf(rep(*v)),
    ensures
        r@ == report_hash_of(rep(*v)),
        canonical_for(canon_of(rep(*v)), rep(*v)),
{
    let bytes = canonical_json_bytes(v);
    sha256_hex_prefixed(bytes.as_slice())
}

/// Generate a random nonce binding an attestation to its payload: 32 random
/// bytes as a 0x-prefixed hex string.
pub fn generate_tee_nonce() -> (r: String)
    ensures
        exists|b: Seq<u8>| b.len() == 32 && r@ == "0x"@ + spec_hex(b),
        r@.len() == 66,
{
    let bytes = random_bytes_32();
    let tail = hex_encode(bytes.as_slice());
    let mut out = String::from_str("0x");
    out.append(tail.as_str());
    proof {
        lemma_spec_hex_len(bytes@);
        reveal_strlit("0x");
        assert(bytes@.len() == 32 && out@ == "0x"@ + spec_hex(bytes@));
    }
    out
}

/// The process-held enclave signing key: 32 secret bytes, created once from
/// the secure random source and immutable afterwards.
pub struct EnclaveKey {
    bytes: Vec<u8>,
}

/// A 0x-prefixed hex rendering of the public key of a secret key.
pub open spec fn pubkey_hex_of(key: Seq<u8>) -> Seq<char> {
    "0x"@ + spec_hex(vk_of(key))
}

/// A 0x-prefixed hex rendering of the signature of a value's canonical
/// bytes under a secret key.
pub open spec fn signature_hex_of(key: Seq<u8>, a: JsonRep) -> Seq<char> {
    "0x"@ + spec_hex(sig_of(key, canon_bytes(a)))
}

impl EnclaveKey {
    /// The secret key bytes.
    pub closed spec fn key_bytes(&self) -> Seq<u8> {
        self.bytes@
    }

    /// A usable key holds exactly 32 secret bytes.
    pub closed spec fn valid(&self) -> bool {
        self.bytes@.len() == 32
    }

    /// Create the process keypair from the secure random source.
    pub fn generate() -> (k: Self)
        ensures
            k.valid(),
    {
        EnclaveKey { bytes: random_bytes_32() }
    }

    /// Return the enclave public key as a 0x-prefixed hex string.
    pub fn enclave_public_key_hex(&self) -> (r: String)
        requires
            self.valid(),
        ensures
            r@ == pubkey_hex_of(self.key_bytes()),
    {
        let pk = ed25519_public_key(self.bytes.as_slice());
        let tail = hex_encode(pk.as_slice());
        let mut out = String::from_str("0x");
        out.append(tail.as_str());
        out
    }

    /// Sign the canonical byte encoding of the payload with the enclave
    /// secret key; the signature is returned as a 0x-prefixed hex string
    /// and verifies under the enclave public key.
    pub fn sign_payload(&self, payload: &JsonValue) -> (r: String)
        requires
            self.valid(),
            wf(rep(*payload)),
        ensures
            r@ == signature_hex_of(self.key_bytes(), rep(*payload)),
            sig_verifies(
                vk_of(self.key_bytes()),
                canon_bytes(rep(*payload)),
                sig_of(self.key_bytes(), canon_bytes(rep(*payload))),
            ),
    {
        let bytes = canonical_json_bytes(payload);
        let sig = ed25519_sign(self.bytes.as_slice(), bytes.as_slice());
        let tail = hex_encode(sig.as_slice());
        let mut out = String::from_str("0x");
        out.append(tail.as_str());
        out
    }
}

/// Check a detached signature over a payload's canonical bytes.  For the
/// hex strings that `sign_payload` and `enclave_public_key_hex` produce
/// from some key, the result is exactly whether the Ed25519 signature
/// verifies; in particular a payload's own signature always verifies.
pub fn verify_payload(payload: &JsonValue, signature_hex: &str, public_key_hex: &str) -> (r: bool)
    requires
        wf(rep(*payload)),
    ensures
        forall|key: Seq<u8>|
            signature_hex@ == signature_hex_of(key, rep(*payload)) && public_key_hex@
                == pubkey_hex_of(key) ==> r == sig_verifies(
                vk_of(key),
                canon_bytes(rep(*payload)),
                sig_of(key, canon_bytes(rep(*payload))),
            ),
{
    let bytes = canonical_json_bytes(payload);
    let sig_tail = strip_0x(signature_hex);
    let pk_tail = strip_0x(public_key_hex);
    let (sig_ok, sig) = hex_decode(sig_tail.as_str());
    let (pk_ok, pk) = hex_decode(pk_tail.as_str());
    if !sig_ok || !pk_ok {
        proof {
            assert forall|key: Seq<u8>|
                signature_hex@ == signature_hex_of(key, rep(*payload)) && public_key_hex@
                    == pubkey_hex_of(key) implies false == sig_verifies(
                vk_of(key),
                canon_bytes(rep(*payload)),
                sig_of(key, canon_bytes(rep(*payload))),
            ) by {
                reveal_strlit("0x");
                assert(sig_tail@ =~= spec_hex(sig_of(key, canon_bytes(rep(*payload)))));
                assert(pk_tail@ =~= spec_hex(vk_of(key)));
                assert(sig_ok && pk_ok);
            }
        }
        return false;
    }
    let r = ed25519_verify(pk.as_slice(), bytes.as_slice(), sig.as_slice());
    proof {
        assert forall|key: Seq<u8>|
            signature_hex@ == signature_hex_of(key, rep(*payload)) && public_key_hex@
                == pubkey_hex_of(key) implies r == sig_verifies(
            vk_of(key),
            canon_bytes(rep(*payload)),
            sig_of(key, canon_bytes(rep(*payload))),
        ) by {
            reveal_strlit("0x");
            assert(sig_tail@ =~= spec_hex(sig_of(key, canon_bytes(rep(*payload)))));
            assert(pk_tail@ =~= spec_hex(vk_of(key)));
            assert(sig@ == sig_of(key, canon_bytes(rep(*payload))));
            assert(pk@ == vk_of(key));
        }
    }
    r
}

/// Drop a leading `0x` prefix, if present.
fn strip_0x(s: &str) -> (r: String)
    ensures
        (s@.len() >= 2 && s@[0] == '0' && s@[1] == 'x') ==> r@ == s@.skip(2),
        !(s@.len() >= 2 && s@[0] == '0' && s@[1] == 'x') ==> r@ == s@,
{
    let n = s.unicode_len();
    if n >= 2 {
        let c0 = s.get_char(0);
        let c1 = s.get_char(1);
        if c0 == '0' && c1 == 'x' {
            let tail = s.substring_char(2, n);
            proof {
                assert(tail@ =~= s@.skip(2));
            }
            return tail.to_owned();
        }
    }
    s.to_owned()
}

} // verus!
