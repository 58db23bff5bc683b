use solana_sdk::bs58;
use solana_sdk::signature;
use solana_sdk::signer::Signer;
use vstd::prelude::*;

use crate::error::PipelineError;

verus! {

/// Whether the bytes form an Ed25519 key pair: a secret half whose derived
/// public key equals the public half.
pub uninterp spec fn valid_key_bytes(b: Seq<u8>) -> bool;

/// The Ed25519 signature that the key pair `key` makes over `msg`.
pub uninterp spec fn signature_of(key: Seq<u8>, msg: Seq<u8>) -> Seq<u8>;

/// Whether `sig` is a valid Ed25519 signature of `msg` under the public key `pk`.
pub uninterp spec fn signature_verifies(pk: Seq<u8>, msg: Seq<u8>, sig: Seq<u8>) -> bool;

/// The base-58 text of the bytes.
pub uninterp spec fn base58_text_of(b: Seq<u8>) -> Seq<char>;

/// The bytes that a base-58 text stands for, if every character is a digit.
pub uninterp spec fn base58_decode_of(t: Seq<char>) -> Option<Seq<u8>>;

/// A digit of the Bitcoin base-58 alphabet:
/// `123456789ABCDEFGHJKLMNPQRSTUVWXYZabcdefghijkmnopqrstuvwxyz`.
pub open spec fn is_base58_digit(c: char) -> bool {
    let u = c as u32;
    (49 <= u <= 57) || (65 <= u <= 72) || (74 <= u <= 78) || (80 <= u <= 90) || (97 <= u <= 107)
        || (109 <= u <= 122)
}

/// Some character of the text is not a base-58 digit.
pub open spec fn has_foreign_char(t: Seq<char>) -> bool {
    exists|i: int| 0 <= i < t.len() && !is_base58_digit(#[trigger] t[i])
}

/// The public identity held in the last 32 bytes of key material.
pub open spec fn public_part(key: Seq<u8>) -> Seq<u8> {
    key.subrange(32, 64)
}

/// The key material that a text stands for: base-58 text of exactly 64 bytes.
pub open spec fn decoded_key(t: Seq<char>) -> Option<Seq<u8>> {
    match base58_decode_of(t) {
        Some(b) => if b.len() == 64 {
            Some(b)
        } else {
            None
        },
        None => None,
    }
}

/// Relies on `solana_keypair::Keypair::try_from(&[u8])` (what `from_bytes`
/// calls) and `Signer::pubkey`: the bytes are accepted exactly when they form
/// a key pair, and the public key is then the last 32 bytes as given.
#[verifier::external_body]
fn rebuilt_public_key(b: &[u8; 64]) -> (r: Option<[u8; 32]>)
    ensures
        r is Some <==> valid_key_bytes(b@),
        r matches Some(p) ==> p@ == public_part(b@),
{
    signature::Keypair::try_from(&b[..]).ok().map(|kp| kp.pubkey().to_bytes())
}

/// Relies on `solana_keypair::Keypair::try_from(&[u8])` and
/// `Signer::sign_message`: signing succeeds exactly on a valid key pair, and
/// the Ed25519 signature depends on the key and the message alone. A pair
/// whose public half was checked against its secret half makes signatures
/// that `Signature::verify` accepts under that public half.
#[verifier::external_body]
fn rebuilt_signature(b: &[u8; 64], msg: &[u8]) -> (r: Option<[u8; 64]>)
    ensures
        r is Some <==> valid_key_bytes(b@),
        r matches Some(s) ==> s@ == signature_of(b@, msg@),
        r matches Some(s) ==> signature_verifies(public_part(b@), msg@, s@),
{
    signature::Keypair::try_from(&b[..]).ok().map(|kp| <[u8; 64]>::from(kp.sign_message(msg)))
}

/// Relies on `bs58::encode(..).into_string()`: the base-58 text of the
/// bytes, which `bs58::decode` maps back to the same bytes.
#[verifier::external_body]
fn base58_encode(b: &[u8; 64]) -> (r: String)
    ensures
        r@ == base58_text_of(b@),
        base58_decode_of(r@) == Some(b@),
{
    bs58::encode(b).into_string()
}

/// Relies on `bs58::decode(..).into_vec()`: the decoded bytes, or an error
/// (`InvalidCharacter`, `NonAsciiCharacter`) when a character is not a digit
/// of the Bitcoin alphabet.
#[verifier::external_body]
fn base58_decode(s: &str) -> (r: Option<Vec<u8>>)
    ensures
        has_foreign_char(s@) ==> r is None,
        match r {
            Some(v) => base58_decode_of(s@) == Some(v@),
            None => base58_decode_of(s@) is None,
        },
{
    bs58::decode(s).into_vec().ok()
}

/// Relies on `Signature::verify`: Ed25519 verification of the signature
/// over the message under the 32-byte public key.
#[verifier::external_body]
pub(crate) fn verify_signature(pk: &[u8; 32], msg: &[u8], sig: &[u8; 64]) -> (r: bool)
    ensures
        r == signature_verifies(pk@, msg@, sig@),
{
    signature::Signature::from(*sig).verify(pk, msg)
}

/// Raw key material (secret half, then public half) that can be shared
/// between workers. The scheme's signing context is rebuilt inside each
/// call that needs it and dropped before the call returns.
#[derive(Clone, Copy, PartialEq, Eq)]
pub struct Keypair {
    keypair: [u8; 64],
}

impl View for Keypair {
    type V = Seq<u8>;

    closed spec fn view(&self) -> Seq<u8> {
        self.keypair@
    }
}

impl Keypair {
    /// Takes the raw bytes as they are; they are checked when first used.
    pub fn from_bytes(raw: [u8; 64]) -> (r: Keypair)
        ensures
            r@ == raw@,
    {
        Keypair { keypair: raw }
    }

    /// The stored bytes.
    pub fn to_bytes(&self) -> (r: [u8; 64])
        ensures
            r@ == self@,
    {
        self.keypair
    }

    /// Decodes base-58 text of exactly 64 bytes.
    pub fn from_base58_string(s: &str) -> (r: Result<Keypair, PipelineError>)
        ensures
            r is Ok <==> decoded_key(s@) is Some,
            r matches Ok(k) ==> decoded_key(s@) == Some(k@),
            r matches Err(e) ==> e == PipelineError::DecodeError,
            has_foreign_char(s@) ==> r == Err::<Keypair, PipelineError>(PipelineError::DecodeError),
    {
        let v = match base58_decode(s) {
            Some(v) => v,
            None => return Err(PipelineError::DecodeError),
        };
        if v.len() != 64 {
            return Err(PipelineError::DecodeError);
        }
        let mut raw = [0u8; 64];
        let mut i: usize = 0;
        while i < 64
            invariant
                v@.len() == 64,
                i <= 64,
                forall|j: int| 0 <= j < i ==> raw@[j] == v@[j],
            decreases 64 - i,
        {
            raw[i] = v[i];
            i = i + 1;
        }
        assert(raw@ =~= v@);
        Ok(Keypair { keypair: raw })
    }

    /// The base-58 text of the key, after checking that the material forms a
    /// key pair. The text decodes back to the same key.
    pub fn to_base58_string(&self) -> (r: Result<String, PipelineError>)
        ensures
            r is Ok <==> valid_key_bytes(self@),
            r matches Ok(t) ==> t@ == base58_text_of(self@) && decoded_key(t@) == Some(self@),
            r matches Err(e) ==> e == PipelineError::KeyMaterialInvalid,
    {
        if rebuilt_public_key(&self.keypair).is_none() {
            return Err(PipelineError::KeyMaterialInvalid);
        }
        Ok(base58_encode(&self.keypair))
    }

    /// The public identity of the key.
    pub fn try_pubkey(&self) -> (r: Result<[u8; 32], PipelineError>)
        ensures
            r is Ok <==> valid_key_bytes(self@),
            r matches Ok(p) ==> p@ == public_part(self@),
            r matches Err(e) ==> e == PipelineError::KeyMaterialInvalid,
    {
        match rebuilt_public_key(&self.keypair) {
            Some(p) => Ok(p),
            None => Err(PipelineError::KeyMaterialInvalid),
        }
    }

    /// Signs the message with a context that lives only for this call.
    pub fn try_sign_message(&self, message: &[u8]) -> (r: Result<[u8; 64], PipelineError>)
        ensures
            r is Ok <==> valid_key_bytes(self@),
            r matches Ok(s) ==> s@ == signature_of(self@, message@),
            r matches Ok(s) ==> signature_verifies(public_part(self@), message@, s@),
            r matches Err(e) ==> e == PipelineError::KeyMaterialInvalid,
    {
        match rebuilt_signature(&self.keypair, message) {
            Some(s) => Ok(s),
            None => Err(PipelineError::KeyMaterialInvalid),
        }
    }

    /// This key never asks anyone to confirm a signature.
    pub fn is_interactive(&self) -> (r: bool)
        ensures
            !r,
    {
        false
    }
}

/// Bytes read back from a key are the bytes it was made from.
pub proof fn lemma_bytes_round_trip(raw: [u8; 64], k: Keypair, out: [u8; 64])
    requires
        k@ == raw@,
        out@ == k@,
    ensures
        out@ == raw@,
{
}

} // verus!
