//! Post-quantum key pairs and signatures.
use crate::crypto::error::{CryptoError, CryptoFault, CryptoResult};
use crate::crypto::hash::{array_of_32, blake3_hash, Digest};
use crate::crypto::hex_text::{encode_hex, hex_chars, hex_read, read_hex};
use ml_dsa::{Generate, KeyExport, KeyInit, Keypair, Signer, Verifier};
use vstd::prelude::*;

verus! {

/// Length of an ML-DSA-65 seed.
pub const MLDSA_SEED_LEN: usize = 32;

/// Length of an encoded ML-DSA-65 verifying key.
pub const MLDSA_PUBLIC_LEN: usize = 1952;

/// Length of an encoded ML-DSA-65 signature.
pub const MLDSA_SIGNATURE_LEN: usize = 3309;

/// Length of an SLH-DSA-SHA2-192s signing key; its second half is the verifying key.
pub const SLH_SECRET_LEN: usize = 96;

/// Length of an SLH-DSA-SHA2-192s verifying key.
pub const SLH_PUBLIC_LEN: usize = 48;

/// Length of an SLH-DSA-SHA2-192s signature.
pub const SLH_SIGNATURE_LEN: usize = 16224;

/// The encoded verifying key that ML-DSA-65 derives from a seed.
pub uninterp spec fn mldsa_public(seed: Seq<u8>) -> Seq<u8>;

/// The deterministic ML-DSA-65 signature of a message, or `None` where signing gives up.
pub uninterp spec fn mldsa_signature(seed: Seq<u8>, message: Seq<u8>) -> Option<Seq<u8>>;

/// Whether some bytes of the right length decode to an ML-DSA-65 signature.
pub uninterp spec fn mldsa_decodes(signature: Seq<u8>) -> bool;

/// Whether ML-DSA-65 accepts a signature of a message under a verifying key.
pub uninterp spec fn mldsa_accepts(key: Seq<u8>, message: Seq<u8>, signature: Seq<u8>) -> bool;

/// The deterministic SLH-DSA-SHA2-192s signature of a message.
pub uninterp spec fn slh_signature(secret: Seq<u8>, message: Seq<u8>) -> Seq<u8>;

/// Whether SLH-DSA-SHA2-192s accepts a signature of a message under a verifying key.
pub uninterp spec fn slh_accepts(key: Seq<u8>, message: Seq<u8>, signature: Seq<u8>) -> bool;

/// `ml_dsa::SigningKey::generate` with its `verifying_key` and `to_bytes`: a
/// seed from the operating system's randomness, and the verifying key that
/// belongs to it. Which seed comes is left to chance.
#[verifier::external_body]
fn mldsa_generate() -> (r: ([u8; 32], Vec<u8>))
    ensures
        r.1@ == mldsa_public(r.0@),
        r.1@.len() == MLDSA_PUBLIC_LEN,
{
    let sk = ml_dsa::SigningKey::<ml_dsa::MlDsa65>::generate();
    (KeyExport::to_bytes(&sk).into(), sk.verifying_key().encode().to_vec())
}

/// `ml_dsa::SigningKey::new` and `verifying_key`: the verifying key that a seed determines.
#[verifier::external_body]
fn mldsa_derive(seed: &[u8; 32]) -> (r: Vec<u8>)
    ensures
        r@ == mldsa_public(seed@),
        r@.len() == MLDSA_PUBLIC_LEN,
{
    let sk = ml_dsa::SigningKey::<ml_dsa::MlDsa65>::new(&ml_dsa::B32::from(*seed));
    sk.verifying_key().encode().to_vec()
}

/// `ml_dsa::SigningKey::new` and `try_sign`: the deterministic signature of
/// the message. It has the scheme's length and is accepted under the seed's own
/// verifying key; where signing gives up, the error's text is fixed.
#[verifier::external_body]
fn mldsa_sign(seed: &[u8; 32], message: &[u8]) -> (r: Result<Vec<u8>, String>)
    ensures
        match r {
            Ok(s) => {
                &&& mldsa_signature(seed@, message@) == Some(s@)
                &&& s@.len() == MLDSA_SIGNATURE_LEN
                &&& mldsa_decodes(s@)
                &&& mldsa_public(seed@).len() == MLDSA_PUBLIC_LEN
                &&& mldsa_accepts(mldsa_public(seed@), message@, s@)
            },
            Err(e) => mldsa_signature(seed@, message@) is None && e@ == "signature error"@,
        },
{
    let sk = ml_dsa::SigningKey::<ml_dsa::MlDsa65>::new(&ml_dsa::B32::from(*seed));
    match sk.try_sign(message) {
        Ok(s) => Ok(s.encode().to_vec()),
        Err(e) => Err(e.to_string()),
    }
}

/// `ml_dsa::Signature::decode`: whether the bytes are an encoded signature at
/// all. A function of the bytes alone.
#[verifier::external_body]
fn mldsa_parse(signature: &[u8]) -> (r: bool)
    requires
        signature@.len() == MLDSA_SIGNATURE_LEN,
    ensures
        r == mldsa_decodes(signature@),
{
    let enc = ml_dsa::EncodedSignature::<ml_dsa::MlDsa65>::try_from(signature).unwrap();
    ml_dsa::Signature::<ml_dsa::MlDsa65>::decode(&enc).is_some()
}

/// `ml_dsa::VerifyingKey::verify`, after decoding the key and the signature:
/// whether the signature is accepted. A function of the three arguments alone.
#[verifier::external_body]
fn mldsa_verify(key: &[u8], message: &[u8], signature: &[u8]) -> (r: bool)
    requires
        key@.len() == MLDSA_PUBLIC_LEN,
        signature@.len() == MLDSA_SIGNATURE_LEN,
        mldsa_decodes(signature@),
    ensures
        r == mldsa_accepts(key@, message@, signature@),
{
    let enc_key = ml_dsa::EncodedVerifyingKey::<ml_dsa::MlDsa65>::try_from(key).unwrap();
    let vk = ml_dsa::VerifyingKey::<ml_dsa::MlDsa65>::decode(&enc_key);
    let enc = ml_dsa::EncodedSignature::<ml_dsa::MlDsa65>::try_from(signature).unwrap();
    let sig = ml_dsa::Signature::<ml_dsa::MlDsa65>::decode(&enc).unwrap();
    vk.verify(message, &sig).is_ok()
}

/// `slh_dsa::SigningKey::new` on the operating system's randomness: a signing
/// key whose second half is its verifying key, and under which every message it
/// signs is accepted. Which key comes is left to chance.
#[verifier::external_body]
fn slh_generate() -> (r: (Vec<u8>, Vec<u8>))
    ensures
        r.0@.len() == SLH_SECRET_LEN,
        r.1@ == r.0@.subrange(SLH_PUBLIC_LEN as int, SLH_SECRET_LEN as int),
        forall|m: Seq<u8>| slh_accepts(r.1@, m, #[trigger] slh_signature(r.0@, m)),
{
    let mut rng = ml_dsa::common::getrandom::rand_core::UnwrapErr(
        ml_dsa::common::getrandom::SysRng,
    );
    let sk = slh_dsa::SigningKey::<slh_dsa::Sha2_192s>::new(&mut rng);
    (sk.to_bytes().to_vec(), sk.verifying_key().to_bytes().to_vec())
}

/// `slh_dsa::SigningKey::try_sign`: the deterministic signature of the
/// message, of the scheme's length; with the empty context it never fails.
#[verifier::external_body]
fn slh_sign(secret: &[u8], message: &[u8]) -> (r: Result<Vec<u8>, String>)
    requires
        secret@.len() == SLH_SECRET_LEN,
    ensures
        r is Ok,
        r->Ok_0@ == slh_signature(secret@, message@),
        r->Ok_0@.len() == SLH_SIGNATURE_LEN,
{
    let sk = slh_dsa::SigningKey::<slh_dsa::Sha2_192s>::try_from(secret).unwrap();
    match sk.try_sign(message) {
        Ok(s) => Ok(s.to_bytes().to_vec()),
        Err(e) => Err(e.to_string()),
    }
}

/// `slh_dsa::VerifyingKey::verify`: whether the signature is accepted. A
/// function of the three arguments alone.
#[verifier::external_body]
fn slh_verify(key: &[u8], message: &[u8], signature: &[u8]) -> (r: bool)
    requires
        key@.len() == SLH_PUBLIC_LEN,
        signature@.len() == SLH_SIGNATURE_LEN,
    ensures
        r == slh_accepts(key@, message@, signature@),
{
    let vk = slh_dsa::VerifyingKey::<slh_dsa::Sha2_192s>::try_from(key).unwrap();
    let sig = slh_dsa::Signature::<slh_dsa::Sha2_192s>::try_from(signature).unwrap();
    vk.verify(message, &sig).is_ok()
}

/// `zeroize::Zeroize::zeroize` on a byte vector: its bytes are overwritten and it is left empty.
#[verifier::external_body]
pub(crate) fn wipe(bytes: &mut Vec<u8>)
    ensures
        final(bytes)@.len() == 0,
    opens_invariants none
    no_unwind
{
    zeroize::Zeroize::zeroize(bytes)
}

/// Which signature scheme a key or signature belongs to. Each signed thing
/// records its own, so that both stay verifiable through a migration.
#[derive(Debug, Clone, Copy, PartialEq, Eq, Structural)]
pub enum CryptoScheme {
    /// ML-DSA-65 (FIPS 204).
    MlDsa,
    /// SLH-DSA-SHA2-192s (FIPS 205).
    SphincsPlus,
}

impl Default for CryptoScheme {
    fn default() -> (r: Self)
        ensures
            r == CryptoScheme::MlDsa,
    {
        CryptoScheme::MlDsa
    }
}

impl CryptoScheme {
    /// The byte that stands for the scheme.
    pub open spec fn tag_spec(self) -> u8 {
        match self {
            CryptoScheme::MlDsa => 1,
            CryptoScheme::SphincsPlus => 2,
        }
    }

    pub fn tag(self) -> (r: u8)
        ensures
            r == self.tag_spec(),
    {
        match self {
            CryptoScheme::MlDsa => 1,
            CryptoScheme::SphincsPlus => 2,
        }
    }

    pub fn from_tag(tag: u8) -> (r: CryptoResult<Self>)
        ensures
            match r {
                Ok(scheme) => scheme.tag_spec() == tag,
                Err(e) => {
                    &&& tag != 1 && tag != 2
                    &&& e@ == CryptoFault::InvalidPublicKey(
                        "unknown crypto scheme tag "@ + crate::text::decimal(tag as nat),
                    )
                },
            },
    {
        match tag {
            1 => Ok(CryptoScheme::MlDsa),
            2 => Ok(CryptoScheme::SphincsPlus),
            other => {
                let n = crate::text::decimal_text(other as u64);
                Err(
                    CryptoError::InvalidPublicKey(
                        crate::text::joined2("unknown crypto scheme tag ", n.as_str()),
                    ),
                )
            },
        }
    }

    pub open spec fn secret_len(self) -> nat {
        match self {
            CryptoScheme::MlDsa => MLDSA_SEED_LEN as nat,
            CryptoScheme::SphincsPlus => SLH_SECRET_LEN as nat,
        }
    }

    pub open spec fn public_len(self) -> nat {
        match self {
            CryptoScheme::MlDsa => MLDSA_PUBLIC_LEN as nat,
            CryptoScheme::SphincsPlus => SLH_PUBLIC_LEN as nat,
        }
    }

    pub open spec fn signature_len(self) -> nat {
        match self {
            CryptoScheme::MlDsa => MLDSA_SIGNATURE_LEN as nat,
            CryptoScheme::SphincsPlus => SLH_SIGNATURE_LEN as nat,
        }
    }

    /// Length of a stored secret key. ML-DSA stores the seed alone.
    pub fn secret_key_len(self) -> (r: usize)
        ensures
            r == self.secret_len(),
    {
        match self {
            CryptoScheme::MlDsa => MLDSA_SEED_LEN,
            CryptoScheme::SphincsPlus => SLH_SECRET_LEN,
        }
    }

    pub fn public_key_len(self) -> (r: usize)
        ensures
            r == self.public_len(),
    {
        match self {
            CryptoScheme::MlDsa => MLDSA_PUBLIC_LEN,
            CryptoScheme::SphincsPlus => SLH_PUBLIC_LEN,
        }
    }
}

/// Whether two byte strings are equal.
pub fn same_bytes(a: &[u8], b: &[u8]) -> (r: bool)
    ensures
        r == (a@ == b@),
{
    match crate::order::rank_bytes(a, b) {
        crate::order::Rank::Same => true,
        _ => false,
    }
}

/// A verifying key: opaque bytes, of whichever scheme.
#[derive(Debug, PartialEq, Eq)]
pub struct PublicKey(Vec<u8>);

impl View for PublicKey {
    type V = Seq<u8>;

    closed spec fn view(&self) -> Seq<u8> {
        self.0@
    }
}

impl Clone for PublicKey {
    fn clone(&self) -> (r: Self)
        ensures
            r@ == self@,
    {
        PublicKey(vstd::slice::slice_to_vec(self.0.as_slice()))
    }
}

impl PublicKey {
    pub fn from_bytes(bytes: Vec<u8>) -> (r: Self)
        ensures
            r@ == bytes@,
    {
        PublicKey(bytes)
    }

    pub fn as_bytes(&self) -> (r: &[u8])
        ensures
            r@ == self@,
    {
        self.0.as_slice()
    }

    pub fn to_hex(&self) -> (r: String)
        ensures
            r@ == hex_chars(self@),
    {
        encode_hex(self.0.as_slice())
    }

    pub fn from_hex(s: &str) -> (r: CryptoResult<Self>)
        ensures
            match hex_read(s@) {
                Ok(bytes) => r is Ok && r->Ok_0@ == bytes,
                Err(e) => r is Err && r->Err_0@ == CryptoFault::HexError(e),
            },
    {
        match read_hex(s) {
            Ok(bytes) => Ok(PublicKey(bytes)),
            Err(e) => Err(CryptoError::HexError(e)),
        }
    }

    /// The first eight bytes of the key's hash, in hexadecimal.
    pub fn fingerprint(&self) -> (r: String)
        ensures
            r@ == hex_chars(blake3_hash(self@).take(8)),
    {
        let h = Digest::digest(self.0.as_slice());
        let all = vstd::array::array_as_slice(h.as_bytes());
        let head = vstd::slice::slice_subrange(all, 0, 8);
        assert(head@ =~= blake3_hash(self@).take(8));
        encode_hex(head)
    }

    /// Whether the bytes have the shape of a key of the scheme.
    pub fn is_valid_for(&self, scheme: CryptoScheme) -> (r: bool)
        ensures
            r == (self@.len() == scheme.public_len()),
    {
        self.0.len() == scheme.public_key_len()
    }

    /// Whether the bytes have the shape of a key of any scheme.
    pub fn is_valid(&self) -> (r: bool)
        ensures
            r == valid_key_shape(self@),
    {
        self.is_valid_for(CryptoScheme::MlDsa) || self.is_valid_for(CryptoScheme::SphincsPlus)
    }

    pub fn same(&self, other: &PublicKey) -> (r: bool)
        ensures
            r == (self@ == other@),
    {
        same_bytes(self.0.as_slice(), other.0.as_slice())
    }
}

/// The bytes have the length of a verifying key of some scheme.
pub open spec fn valid_key_shape(key: Seq<u8>) -> bool {
    key.len() == CryptoScheme::MlDsa.public_len() || key.len()
        == CryptoScheme::SphincsPlus.public_len()
}

/// A secret key, wiped when dropped. For ML-DSA it is the 32-byte seed.
pub struct SecretKey(Vec<u8>);

impl View for SecretKey {
    type V = Seq<u8>;

    closed spec fn view(&self) -> Seq<u8> {
        self.0@
    }
}

impl Drop for SecretKey {
    fn drop(&mut self)
        opens_invariants none
        no_unwind
    {
        wipe(&mut self.0);
    }
}

impl SecretKey {
    pub fn from_bytes(bytes: Vec<u8>) -> (r: Self)
        ensures
            r@ == bytes@,
    {
        SecretKey(bytes)
    }

    pub fn as_bytes(&self) -> (r: &[u8])
        ensures
            r@ == self@,
    {
        self.0.as_slice()
    }
}

/// A detached signature: opaque bytes, of whichever scheme.
#[derive(Debug, PartialEq, Eq)]
pub struct Signature(Vec<u8>);

impl View for Signature {
    type V = Seq<u8>;

    closed spec fn view(&self) -> Seq<u8> {
        self.0@
    }
}

impl Clone for Signature {
    fn clone(&self) -> (r: Self)
        ensures
            r@ == self@,
    {
        Signature(vstd::slice::slice_to_vec(self.0.as_slice()))
    }
}

impl Signature {
    pub fn from_bytes(bytes: Vec<u8>) -> (r: Self)
        ensures
            r@ == bytes@,
    {
        Signature(bytes)
    }

    pub fn as_bytes(&self) -> (r: &[u8])
        ensures
            r@ == self@,
    {
        self.0.as_slice()
    }

    pub fn to_hex(&self) -> (r: String)
        ensures
            r@ == hex_chars(self@),
    {
        encode_hex(self.0.as_slice())
    }

    pub fn from_hex(s: &str) -> (r: CryptoResult<Self>)
        ensures
            match hex_read(s@) {
                Ok(bytes) => r is Ok && r->Ok_0@ == bytes,
                Err(e) => r is Err && r->Err_0@ == CryptoFault::HexError(e),
            },
    {
        match read_hex(s) {
            Ok(bytes) => Ok(Signature(bytes)),
            Err(e) => Err(CryptoError::HexError(e)),
        }
    }
}

/// A key pair with the scheme it was made for.
pub struct KeyPair {
    pub public: PublicKey,
    pub secret: SecretKey,
    pub scheme: CryptoScheme,
}

/// The public key is the one that belongs to the secret.
pub open spec fn keys_match(scheme: CryptoScheme, secret: Seq<u8>, public: Seq<u8>) -> bool {
    match scheme {
        CryptoScheme::MlDsa => secret.len() == MLDSA_SEED_LEN && public == mldsa_public(secret),
        CryptoScheme::SphincsPlus => secret.len() == SLH_SECRET_LEN && public == secret.subrange(
            SLH_PUBLIC_LEN as int,
            SLH_SECRET_LEN as int,
        ),
    }
}

/// What signing a message with stored secret bytes gives.
pub open spec fn sign_outcome(
    scheme: CryptoScheme,
    secret: Seq<u8>,
    message: Seq<u8>,
) -> Result<Seq<u8>, CryptoFault> {
    match scheme {
        CryptoScheme::MlDsa => if secret.len() != MLDSA_SEED_LEN {
            Err(CryptoFault::InvalidSecretKey("ML-DSA seed must be 32 bytes"@))
        } else {
            match mldsa_signature(secret, message) {
                Some(s) => Ok(s),
                None => Err(CryptoFault::InvalidSignature("signature error"@)),
            }
        },
        CryptoScheme::SphincsPlus => if secret.len() != SLH_SECRET_LEN {
            Err(CryptoFault::InvalidSecretKey("signature error"@))
        } else {
            Ok(slh_signature(secret, message))
        },
    }
}

/// What verifying a signature gives: the first thing wrong with it, if any.
pub open spec fn verify_outcome(
    scheme: CryptoScheme,
    key: Seq<u8>,
    message: Seq<u8>,
    signature: Seq<u8>,
) -> Result<(), CryptoFault> {
    match scheme {
        CryptoScheme::MlDsa => if key.len() != MLDSA_PUBLIC_LEN {
            Err(CryptoFault::InvalidPublicKey("bad ML-DSA public key length"@))
        } else if signature.len() != MLDSA_SIGNATURE_LEN {
            Err(CryptoFault::InvalidSignature("bad ML-DSA signature length"@))
        } else if !mldsa_decodes(signature) {
            Err(CryptoFault::InvalidSignature("malformed ML-DSA signature"@))
        } else if !mldsa_accepts(key, message, signature) {
            Err(CryptoFault::VerificationFailed)
        } else {
            Ok(())
        },
        CryptoScheme::SphincsPlus => if key.len() != SLH_PUBLIC_LEN {
            Err(CryptoFault::InvalidPublicKey("signature error"@))
        } else if signature.len() != SLH_SIGNATURE_LEN {
            Err(CryptoFault::InvalidSignature("signature error"@))
        } else if !slh_accepts(key, message, signature) {
            Err(CryptoFault::VerificationFailed)
        } else {
            Ok(())
        },
    }
}

/// The pair's keys belong together, so that what it signs is accepted under its
/// own public key. For SLH-DSA the stored verifying key has to be the genuine
/// one, which `KeyPair::generate_for` promises of its results.
pub open spec fn signs_for(kp: KeyPair, message: Seq<u8>) -> bool {
    &&& keys_match(kp.scheme, kp.secret@, kp.public@)
    &&& kp.scheme is SphincsPlus ==> slh_accepts(
        kp.public@,
        message,
        slh_signature(kp.secret@, message),
    )
}

impl KeyPair {
    /// A fresh pair of the default scheme.
    pub fn generate() -> (r: Self)
        ensures
            r.scheme == CryptoScheme::MlDsa,
            keys_match(r.scheme, r.secret@, r.public@),
            r.public@.len() == 1952,
            r.secret@.len() == 32,
    {
        Self::generate_for(CryptoScheme::MlDsa)
    }

    /// A fresh pair of the given scheme.
    pub fn generate_for(scheme: CryptoScheme) -> (r: Self)
        ensures
            r.scheme == scheme,
            keys_match(scheme, r.secret@, r.public@),
            r.public@.len() == scheme.public_len(),
            scheme is SphincsPlus ==> forall|m: Seq<u8>|
                slh_accepts(r.public@, m, #[trigger] slh_signature(r.secret@, m)),
    {
        match scheme {
            CryptoScheme::MlDsa => {
                let (seed, public) = mldsa_generate();
                KeyPair {
                    public: PublicKey::from_bytes(public),
                    secret: SecretKey::from_bytes(
                        vstd::slice::slice_to_vec(vstd::array::array_as_slice(&seed)),
                    ),
                    scheme,
                }
            },
            CryptoScheme::SphincsPlus => {
                let (secret, public) = slh_generate();
                KeyPair {
                    public: PublicKey::from_bytes(public),
                    secret: SecretKey::from_bytes(secret),
                    scheme,
                }
            },
        }
    }

    /// The ML-DSA pair of a seed: the seed determines the whole key.
    pub fn from_mldsa_seed(seed: &[u8]) -> (r: CryptoResult<Self>)
        ensures
            match r {
                Ok(kp) => {
                    &&& seed@.len() == MLDSA_SEED_LEN
                    &&& kp.scheme == CryptoScheme::MlDsa
                    &&& kp.secret@ == seed@
                    &&& kp.public@ == mldsa_public(seed@)
                },
                Err(e) => {
                    &&& seed@.len() != MLDSA_SEED_LEN
                    &&& e@ == CryptoFault::InvalidSecretKey("ML-DSA seed must be 32 bytes"@)
                },
            },
    {
        match mldsa_seed(seed) {
            Ok(xi) => {
                let public = mldsa_derive(&xi);
                Ok(
                    KeyPair {
                        public: PublicKey::from_bytes(public),
                        secret: SecretKey::from_bytes(
                            vstd::slice::slice_to_vec(vstd::array::array_as_slice(&xi)),
                        ),
                        scheme: CryptoScheme::MlDsa,
                    },
                )
            },
            Err(e) => Err(e),
        }
    }

    /// Puts a stored pair back together, refusing a public key that does not
    /// belong to the secret.
    pub fn from_raw(scheme: CryptoScheme, secret_bytes: Vec<u8>, public_bytes: Vec<u8>) -> (r:
        CryptoResult<Self>)
        ensures
            match r {
                Ok(kp) => {
                    &&& keys_match(scheme, secret_bytes@, public_bytes@)
                    &&& kp.scheme == scheme
                    &&& kp.secret@ == secret_bytes@
                    &&& kp.public@ == public_bytes@
                },
                Err(e) => raw_pair_fault(scheme, secret_bytes@, public_bytes@) == Some(e@),
            },
            r is Ok <==> keys_match(scheme, secret_bytes@, public_bytes@),
    {
        match scheme {
            CryptoScheme::MlDsa => {
                let seed = match mldsa_seed(secret_bytes.as_slice()) {
                    Ok(s) => s,
                    Err(e) => {
                        return Err(e);
                    },
                };
                let derived = mldsa_derive(&seed);
                if !same_bytes(derived.as_slice(), public_bytes.as_slice()) {
                    return Err(
                        CryptoError::InvalidPublicKey(
                            "ML-DSA public key does not match the secret seed".to_owned(),
                        ),
                    );
                }
            },
            CryptoScheme::SphincsPlus => {
                if secret_bytes.len() != SLH_SECRET_LEN {
                    return Err(CryptoError::InvalidSecretKey("signature error".to_owned()));
                }
                if public_bytes.len() != SLH_PUBLIC_LEN {
                    return Err(CryptoError::InvalidPublicKey("signature error".to_owned()));
                }
                let own = vstd::slice::slice_subrange(
                    secret_bytes.as_slice(),
                    SLH_PUBLIC_LEN,
                    SLH_SECRET_LEN,
                );
                if !same_bytes(own, public_bytes.as_slice()) {
                    return Err(
                        CryptoError::InvalidPublicKey(
                            "SLH-DSA public key does not match the secret key".to_owned(),
                        ),
                    );
                }
            },
        }
        Ok(
            KeyPair {
                public: PublicKey::from_bytes(public_bytes),
                secret: SecretKey::from_bytes(secret_bytes),
                scheme,
            },
        )
    }

    /// Signs a message under the pair's scheme.
    pub fn sign(&self, message: &[u8]) -> (r: CryptoResult<Signature>)
        ensures
            match r {
                Ok(s) => {
                    &&& sign_outcome(self.scheme, self.secret@, message@) == Ok::<
                        Seq<u8>,
                        CryptoFault,
                    >(s@)
                    &&& s@.len() == self.scheme.signature_len()
                    &&& signs_for(*self, message@) ==> verify_outcome(
                        self.scheme,
                        self.public@,
                        message@,
                        s@,
                    ) is Ok
                },
                Err(e) => sign_outcome(self.scheme, self.secret@, message@) == Err::<
                    Seq<u8>,
                    CryptoFault,
                >(e@),
            },
    {
        match self.scheme {
            CryptoScheme::MlDsa => {
                let seed = match mldsa_seed(self.secret.as_bytes()) {
                    Ok(s) => s,
                    Err(e) => {
                        return Err(e);
                    },
                };
                match mldsa_sign(&seed, message) {
                    Ok(s) => Ok(Signature::from_bytes(s)),
                    Err(e) => Err(CryptoError::InvalidSignature(e)),
                }
            },
            CryptoScheme::SphincsPlus => {
                if self.secret.as_bytes().len() != SLH_SECRET_LEN {
                    return Err(CryptoError::InvalidSecretKey("signature error".to_owned()));
                }
                match slh_sign(self.secret.as_bytes(), message) {
                    Ok(s) => Ok(Signature::from_bytes(s)),
                    Err(e) => Err(CryptoError::InvalidSignature(e)),
                }
            },
        }
    }
}

/// What is wrong with a stored pair, if anything.
pub open spec fn raw_pair_fault(
    scheme: CryptoScheme,
    secret: Seq<u8>,
    public: Seq<u8>,
) -> Option<CryptoFault> {
    match scheme {
        CryptoScheme::MlDsa => if secret.len() != MLDSA_SEED_LEN {
            Some(CryptoFault::InvalidSecretKey("ML-DSA seed must be 32 bytes"@))
        } else if public != mldsa_public(secret) {
            Some(
                CryptoFault::InvalidPublicKey("ML-DSA public key does not match the secret seed"@),
            )
        } else {
            None
        },
        CryptoScheme::SphincsPlus => if secret.len() != SLH_SECRET_LEN {
            Some(CryptoFault::InvalidSecretKey("signature error"@))
        } else if public.len() != SLH_PUBLIC_LEN {
            Some(CryptoFault::InvalidPublicKey("signature error"@))
        } else if public != secret.subrange(SLH_PUBLIC_LEN as int, SLH_SECRET_LEN as int) {
            Some(
                CryptoFault::InvalidPublicKey("SLH-DSA public key does not match the secret key"@),
            )
        } else {
            None
        },
    }
}

/// Stored secret bytes as an ML-DSA seed.
fn mldsa_seed(bytes: &[u8]) -> (r: CryptoResult<[u8; 32]>)
    ensures
        match r {
            Ok(seed) => bytes@.len() == MLDSA_SEED_LEN && seed@ == bytes@,
            Err(e) => bytes@.len() != MLDSA_SEED_LEN && e@ == CryptoFault::InvalidSecretKey(
                "ML-DSA seed must be 32 bytes"@,
            ),
        },
{
    if bytes.len() != MLDSA_SEED_LEN {
        return Err(CryptoError::InvalidSecretKey("ML-DSA seed must be 32 bytes".to_owned()));
    }
    Ok(array_of_32(bytes))
}

/// Verifies a signature of the default scheme.
pub fn verify(public_key: &PublicKey, message: &[u8], signature: &Signature) -> (r: CryptoResult<()>)
    ensures
        match r {
            Ok(()) => verify_outcome(CryptoScheme::MlDsa, public_key@, message@, signature@) is Ok,
            Err(e) => verify_outcome(CryptoScheme::MlDsa, public_key@, message@, signature@) == Err::<
                (),
                CryptoFault,
            >(e@),
        },
{
    verify_with_scheme(CryptoScheme::MlDsa, public_key, message, signature)
}

/// Verifies a signature of a given scheme.
pub fn verify_with_scheme(
    scheme: CryptoScheme,
    public_key: &PublicKey,
    message: &[u8],
    signature: &Signature,
) -> (r: CryptoResult<()>)
    ensures
        match r {
            Ok(()) => verify_outcome(scheme, public_key@, message@, signature@) is Ok,
            Err(e) => verify_outcome(scheme, public_key@, message@, signature@) == Err::<
                (),
                CryptoFault,
            >(e@),
        },
{
    let key = public_key.as_bytes();
    let sig = signature.as_bytes();
    match scheme {
        CryptoScheme::MlDsa => {
            if key.len() != MLDSA_PUBLIC_LEN {
                return Err(
                    CryptoError::InvalidPublicKey("bad ML-DSA public key length".to_owned()),
                );
            }
            if sig.len() != MLDSA_SIGNATURE_LEN {
                return Err(
                    CryptoError::InvalidSignature("bad ML-DSA signature length".to_owned()),
                );
            }
            if !mldsa_parse(sig) {
                return Err(
                    CryptoError::InvalidSignature("malformed ML-DSA signature".to_owned()),
                );
            }
            if mldsa_verify(key, message, sig) {
                Ok(())
            } else {
                Err(CryptoError::VerificationFailed)
            }
        },
        CryptoScheme::SphincsPlus => {
            if key.len() != SLH_PUBLIC_LEN {
                return Err(CryptoError::InvalidPublicKey("signature error".to_owned()));
            }
            if sig.len() != SLH_SIGNATURE_LEN {
                return Err(CryptoError::InvalidSignature("signature error".to_owned()));
            }
            if slh_verify(key, message, sig) {
                Ok(())
            } else {
                Err(CryptoError::VerificationFailed)
            }
        },
    }
}

} // verus!
