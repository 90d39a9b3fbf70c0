use vstd::prelude::*;

use crate::hashval::vec_to_arr32;
use crate::hexcode::{hex_bytes, hex_chars, valid_hex};
use crate::CodecError;

verus! {

/// The public key that belongs to a 32-byte signing key: a function of the
/// key bytes alone.
pub uninterp spec fn ed25519_pk_of(sk: Seq<u8>) -> Seq<u8>;

/// The signature a 32-byte signing key produces over a message; signing is
/// deterministic, so it is a function of key and message alone.
pub uninterp spec fn ed25519_sig_of(sk: Seq<u8>, msg: Seq<u8>) -> Seq<u8>;

/// Whether a 64-byte signature verifies under a 32-byte public key for a
/// message: a function of the three alone.
pub uninterp spec fn ed25519_verifies(pk: Seq<u8>, msg: Seq<u8>, sig: Seq<u8>) -> bool;

/// Relies on `ed25519_consensus::SigningKey::new` with the operating-system
/// generator.  The bytes are random: nothing is promised of them.
#[verifier::external_body]
fn gen_signing_bytes() -> [u8; 32] {
    ed25519_consensus::SigningKey::new(rand::rngs::OsRng).to_bytes()
}

/// Relies on `ed25519_consensus::VerificationKey::from`, which derives the
/// public key from the signing key's bytes alone.
#[verifier::external_body]
fn public_from_secret(sk: &[u8; 32]) -> (r: [u8; 32])
    ensures
        r@ == ed25519_pk_of(sk@),
{
    let key = ed25519_consensus::SigningKey::from(*sk);
    ed25519_consensus::VerificationKey::from(&key).to_bytes()
}

/// Relies on `ed25519_consensus::SigningKey::sign`, which derives its nonce
/// by hashing, so the signature depends on key and message alone.
#[verifier::external_body]
fn sign_with_secret(sk: &[u8; 32], msg: &[u8]) -> (r: [u8; 64])
    ensures
        r@ == ed25519_sig_of(sk@, msg@),
{
    ed25519_consensus::SigningKey::from(*sk).sign(msg).to_bytes()
}

/// Relies on `ed25519_consensus::VerificationKey::verify` (with `try_from` on
/// the key bytes and `Signature::from` on the signature bytes as the
/// conversions): acceptance depends on key, message and signature alone.
#[verifier::external_body]
fn verify_with_key(pk: &[u8; 32], msg: &[u8], sig: &[u8; 64]) -> (r: bool)
    ensures
        r == ed25519_verifies(pk@, msg@, sig@),
{
    let signature = ed25519_consensus::Signature::from(*sig);
    match <ed25519_consensus::VerificationKey as core::convert::TryFrom<[u8; 32]>>::try_from(*pk) {
        Ok(vk) => vk.verify(&signature, msg).is_ok(),
        Err(_) => false,
    }
}

/// An ed25519 public key.
#[derive(Clone, Copy, Debug, PartialEq, Eq, Hash)]
pub struct Ed25519PK(pub [u8; 32]);

impl Ed25519PK {
    /// Whether `sig` is a valid signature over `msg` under this key; any
    /// signature that is not 64 bytes long is invalid outright.
    pub fn verify(&self, msg: &[u8], sig: &[u8]) -> (r: bool)
        ensures
            r == (sig@.len() == 64 && ed25519_verifies(self.0@, msg@, sig@)),
    {
        if sig.len() != 64 {
            return false;
        }
        let mut arr = [0u8; 64];
        let mut i: usize = 0;
        while i < 64
            invariant
                i <= 64,
                sig@.len() == 64,
                forall|j: int| 0 <= j < i ==> arr@[j] == sig@[j],
            decreases 64 - i,
        {
            arr[i] = sig[i];
            i = i + 1;
        }
        proof {
            assert(arr@ =~= sig@);
        }
        verify_with_key(&self.0, msg, &arr)
    }

    /// Reads a key from exactly 32 bytes; `None` for any other length.
    pub fn from_bytes(bts: &[u8]) -> (r: Option<Self>)
        ensures
            bts@.len() == 32 ==> (r matches Some(k) && k.0@ == bts@),
            bts@.len() != 32 ==> r is None,
    {
        if bts.len() != 32 {
            None
        } else {
            let v = vstd::slice::slice_to_vec(bts);
            Some(Ed25519PK(vec_to_arr32(&v)))
        }
    }

    /// Reads a key from 64 hex digits.  `InvalidHex` for text that is not
    /// hex; `ParseError` for hex of any other length.
    pub fn from_hex(s: &str) -> (r: Result<Self, CodecError>)
        ensures
            !valid_hex(s@) ==> r == Err::<Self, CodecError>(CodecError::InvalidHex),
            valid_hex(s@) && s@.len() != 64 ==> r == Err::<Self, CodecError>(
                CodecError::ParseError,
            ),
            valid_hex(s@) && s@.len() == 64 ==> (r matches Ok(k) && k.0@ == hex_bytes(s@)),
    {
        match crate::hexcode::hex_decode(s) {
            Ok(v) => {
                proof {
                    crate::hexcode::lemma_hex_bytes_len(s@);
                }
                if v.len() != 32 {
                    Err(CodecError::ParseError)
                } else {
                    Ok(Ed25519PK(vec_to_arr32(&v)))
                }
            }
            Err(e) => Err(e),
        }
    }

    /// The key as 64 lowercase hex digits.
    pub fn to_hex(&self) -> (r: String)
        ensures
            r@ == hex_chars(self.0@),
    {
        crate::hexcode::hex_encode(self.0.as_slice())
    }
}

/// An ed25519 secret key: the 32 signing-key bytes, then the 32 bytes of the
/// public key they determine.
#[derive(Clone, Copy, Debug, PartialEq, Eq, Hash)]
pub struct Ed25519SK(pub [u8; 64]);

/// A well-formed secret key carries the public key its first half determines.
pub open spec fn sk_well_formed(k: Ed25519SK) -> bool {
    k.0@.subrange(32, 64) == ed25519_pk_of(k.0@.subrange(0, 32))
}

impl Ed25519SK {
    /// Generates a fresh key from the operating-system generator.
    pub fn generate() -> (r: Self)
        ensures
            sk_well_formed(r),
    {
        let sk = gen_signing_bytes();
        let pk = public_from_secret(&sk);
        let mut arr = [0u8; 64];
        let mut i: usize = 0;
        while i < 32
            invariant
                i <= 32,
                forall|j: int| 0 <= j < i ==> arr@[j] == sk@[j],
            decreases 32 - i,
        {
            arr[i] = sk[i];
            i = i + 1;
        }
        let mut i2: usize = 32;
        while i2 < 64
            invariant
                32 <= i2 <= 64,
                forall|j: int| 0 <= j < 32 ==> arr@[j] == sk@[j],
                forall|j: int| 32 <= j < i2 ==> arr@[j] == pk@[j - 32],
            decreases 64 - i2,
        {
            arr[i2] = pk[i2 - 32];
            i2 = i2 + 1;
        }
        proof {
            assert(arr@.subrange(0, 32) =~= sk@);
            assert(arr@.subrange(32, 64) =~= pk@);
        }
        Ed25519SK(arr)
    }

    /// Signs a message with the signing half of the key; the 64-byte
    /// signature is a function of key and message alone.
    pub fn sign(&self, msg: &[u8]) -> (r: Vec<u8>)
        ensures
            r@ == ed25519_sig_of(self.0@.subrange(0, 32), msg@),
            r@.len() == 64,
    {
        let mut sk = [0u8; 32];
        let mut i: usize = 0;
        while i < 32
            invariant
                i <= 32,
                forall|j: int| 0 <= j < i ==> sk@[j] == self.0@[j],
            decreases 32 - i,
        {
            sk[i] = self.0[i];
            i = i + 1;
        }
        proof {
            assert(sk@ =~= self.0@.subrange(0, 32));
        }
        let sig = sign_with_secret(&sk, msg);
        vstd::slice::slice_to_vec(sig.as_slice())
    }

    /// Reads a key from exactly 64 bytes; `None` for any other length.
    pub fn from_bytes(bts: &[u8]) -> (r: Option<Self>)
        ensures
            bts@.len() == 64 ==> (r matches Some(k) && k.0@ == bts@),
            bts@.len() != 64 ==> r is None,
    {
        if bts.len() != 64 {
            None
        } else {
            let mut arr = [0u8; 64];
            let mut i: usize = 0;
            while i < 64
                invariant
                    i <= 64,
                    bts@.len() == 64,
                    forall|j: int| 0 <= j < i ==> arr@[j] == bts@[j],
                decreases 64 - i,
            {
                arr[i] = bts[i];
                i = i + 1;
            }
            proof {
                assert(arr@ =~= bts@);
            }
            Some(Ed25519SK(arr))
        }
    }

    /// Reads a key from 128 hex digits.  `InvalidHex` for text that is not
    /// hex; `ParseError` for hex of any other length.
    pub fn from_hex(s: &str) -> (r: Result<Self, CodecError>)
        ensures
            !valid_hex(s@) ==> r == Err::<Self, CodecError>(CodecError::InvalidHex),
            valid_hex(s@) && s@.len() != 128 ==> r == Err::<Self, CodecError>(
                CodecError::ParseError,
            ),
            valid_hex(s@) && s@.len() == 128 ==> (r matches Ok(k) && k.0@ == hex_bytes(s@)),
    {
        match crate::hexcode::hex_decode(s) {
            Ok(v) => {
                proof {
                    crate::hexcode::lemma_hex_bytes_len(s@);
                }
                if v.len() != 64 {
                    Err(CodecError::ParseError)
                } else {
                    match Self::from_bytes(v.as_slice()) {
                        Some(k) => Ok(k),
                        None => Err(CodecError::ParseError),
                    }
                }
            }
            Err(e) => Err(e),
        }
    }

    /// The key as 128 lowercase hex digits.
    pub fn to_hex(&self) -> (r: String)
        ensures
            r@ == hex_chars(self.0@),
    {
        crate::hexcode::hex_encode(self.0.as_slice())
    }

    /// The public half stored in the key.
    pub fn to_public(&self) -> (r: Ed25519PK)
        ensures
            r.0@ == self.0@.subrange(32, 64),
    {
        let mut pk = [0u8; 32];
        let mut i: usize = 0;
        while i < 32
            invariant
                i <= 32,
                forall|j: int| 0 <= j < i ==> pk@[j] == self.0@[j + 32],
            decreases 32 - i,
        {
            pk[i] = self.0[i + 32];
            i = i + 1;
        }
        proof {
            assert(pk@ =~= self.0@.subrange(32, 64));
        }
        Ed25519PK(pk)
    }
}

/// Generates an ed25519 keypair.  Kept for compatibility: it only forwards
/// to `Ed25519SK::generate` and hands the public half out beside the key.
pub fn ed25519_keygen() -> (r: (Ed25519PK, Ed25519SK))
    ensures
        sk_well_formed(r.1),
        r.0.0@ == r.1.0@.subrange(32, 64),
{
    let sk = Ed25519SK::generate();
    (sk.to_public(), sk)
}

} // verus!
