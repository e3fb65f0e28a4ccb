//! Key encapsulation: agreeing on a secret with the holder of a key.
use crate::crypto::error::{CryptoError, CryptoFault, CryptoResult};
use crate::crypto::keys::wipe;
use ml_kem::{Decapsulate, Encapsulate, Kem, KeyExport, KeyInit, TryKeyInit};
use vstd::prelude::*;

verus! {

/// Length of an ML-KEM-768 decapsulation key in its seed form.
pub const KEM_SEED_LEN: usize = 64;

/// Length of an encoded ML-KEM-768 encapsulation key.
pub const KEM_KEY_LEN: usize = 1184;

/// Length of an ML-KEM-768 ciphertext.
pub const KEM_CIPHERTEXT_LEN: usize = 1088;

/// The encoded encapsulation key that ML-KEM-768 derives from a seed.
pub uninterp spec fn mlkem_public(seed: Seq<u8>) -> Seq<u8>;

/// Whether some bytes pass as an encoded ML-KEM-768 encapsulation key.
pub uninterp spec fn mlkem_key_decodes(key: Seq<u8>) -> bool;

/// The ciphertext and the shared secret that 32 random bytes lead to under an
/// encapsulation key.
pub uninterp spec fn mlkem_sealed(key: Seq<u8>, randomness: Seq<u8>) -> (Seq<u8>, Seq<u8>);

/// The shared secret that the holder of a seed reads out of a ciphertext.
pub uninterp spec fn mlkem_opened(seed: Seq<u8>, ciphertext: Seq<u8>) -> Seq<u8>;

/// Which of the two inputs of a decapsulation has the wrong length.
enum OpenFault {
    Key,
    Ciphertext,
}

/// `ml_kem::MlKem768::generate_keypair` and `KeyExport::to_bytes` on both keys: a
/// seed from the operating system's randomness, and the encapsulation key that
/// belongs to it, which decodes. Which seed comes is left to chance.
#[verifier::external_body]
fn mlkem_generate() -> (r: (Vec<u8>, Vec<u8>))
    ensures
        r.0@.len() == KEM_SEED_LEN,
        r.1@ == mlkem_public(r.0@),
        r.1@.len() == KEM_KEY_LEN,
        mlkem_key_decodes(r.1@),
{
    let (dk, ek) = ml_kem::MlKem768::generate_keypair();
    (KeyExport::to_bytes(&dk).to_vec(), KeyExport::to_bytes(&ek).to_vec())
}

/// `ml_kem::EncapsulationKey::new_from_slice` and `encapsulate`: nothing where
/// the bytes do not pass as a key, which depends on them alone and asks for the
/// key's length; otherwise what some 32 random bytes lead to. Which bytes those
/// are is left to chance.
#[verifier::external_body]
fn mlkem_encapsulate(key: &[u8]) -> (r: Option<(Vec<u8>, [u8; 32])>)
    ensures
        r is Some <==> mlkem_key_decodes(key@),
        r is Some ==> key@.len() == KEM_KEY_LEN,
        r is Some ==> (r->0).0@.len() == KEM_CIPHERTEXT_LEN,
        r is Some ==> exists|m: Seq<u8>|
            m.len() == 32 && #[trigger] mlkem_sealed(key@, m) == ((r->0).0@, (r->0).1@),
{
    match ml_kem::EncapsulationKey::<ml_kem::MlKem768>::new_from_slice(key) {
        Ok(ek) => {
            let (ct, secret) = ek.encapsulate();
            Some((ct.to_vec(), secret.into()))
        },
        Err(_) => None,
    }
}

/// `ml_kem::DecapsulationKey::new_from_slice`, `ml_kem::Ciphertext::try_from` and
/// `decapsulate`: only lengths can be wrong, the key's before the ciphertext's;
/// otherwise the result depends on the two arguments alone. A ciphertext made for
/// another key is not told apart: it gives some other secret. Left unsaid: that
/// the secret is the encapsulator's, which holds but for a vanishing part of
/// all keys and random bytes.
#[verifier::external_body]
fn mlkem_decapsulate(seed: &[u8], ciphertext: &[u8]) -> (r: Result<[u8; 32], OpenFault>)
    ensures
        match r {
            Ok(secret) => {
                &&& seed@.len() == KEM_SEED_LEN
                &&& ciphertext@.len() == KEM_CIPHERTEXT_LEN
                &&& secret@ == mlkem_opened(seed@, ciphertext@)
            },
            Err(OpenFault::Key) => seed@.len() != KEM_SEED_LEN,
            Err(OpenFault::Ciphertext) => {
                &&& seed@.len() == KEM_SEED_LEN
                &&& ciphertext@.len() != KEM_CIPHERTEXT_LEN
            },
        },
{
    match ml_kem::DecapsulationKey::<ml_kem::MlKem768>::new_from_slice(seed) {
        Err(_) => Err(OpenFault::Key),
        Ok(dk) => match ml_kem::Ciphertext::<ml_kem::MlKem768>::try_from(ciphertext) {
            Err(_) => Err(OpenFault::Ciphertext),
            Ok(ct) => Ok(dk.decapsulate(&ct).into()),
        },
    }
}

/// An ML-KEM-768 encapsulation key (FIPS 203), to be given to peers.
#[derive(PartialEq, Eq)]
pub struct KemEncapsulationKey(Vec<u8>);

impl View for KemEncapsulationKey {
    type V = Seq<u8>;

    closed spec fn view(&self) -> Seq<u8> {
        self.0@
    }
}

impl Clone for KemEncapsulationKey {
    fn clone(&self) -> (r: Self)
        ensures
            r@ == self@,
    {
        KemEncapsulationKey(vstd::slice::slice_to_vec(self.0.as_slice()))
    }
}

impl KemEncapsulationKey {
    pub fn from_bytes(bytes: Vec<u8>) -> (r: Self)
        ensures
            r@ == bytes@,
    {
        KemEncapsulationKey(bytes)
    }

    pub fn as_bytes(&self) -> (r: &[u8])
        ensures
            r@ == self@,
    {
        self.0.as_slice()
    }
}

/// An ML-KEM-768 ciphertext, to be sent to the holder of the key pair.
#[derive(PartialEq, Eq)]
pub struct KemCiphertext(Vec<u8>);

impl View for KemCiphertext {
    type V = Seq<u8>;

    closed spec fn view(&self) -> Seq<u8> {
        self.0@
    }
}

impl Clone for KemCiphertext {
    fn clone(&self) -> (r: Self)
        ensures
            r@ == self@,
    {
        KemCiphertext(vstd::slice::slice_to_vec(self.0.as_slice()))
    }
}

impl KemCiphertext {
    pub fn from_bytes(bytes: Vec<u8>) -> (r: Self)
        ensures
            r@ == bytes@,
    {
        KemCiphertext(bytes)
    }

    pub fn as_bytes(&self) -> (r: &[u8])
        ensures
            r@ == self@,
    {
        self.0.as_slice()
    }
}

/// What decapsulating a ciphertext with a stored seed gives.
pub open spec fn decapsulation(seed: Seq<u8>, ciphertext: Seq<u8>) -> Result<Seq<u8>, CryptoFault> {
    if seed.len() != KEM_SEED_LEN {
        Err(CryptoFault::InvalidSecretKey("bad ML-KEM decapsulation key"@))
    } else if ciphertext.len() != KEM_CIPHERTEXT_LEN {
        Err(CryptoFault::InvalidSignature("bad ML-KEM ciphertext"@))
    } else {
        Ok(mlkem_opened(seed, ciphertext))
    }
}

/// A key pair for one session. The decapsulation key is wiped when dropped.
pub struct KemKeyPair {
    pub encapsulation_key: KemEncapsulationKey,
    dk: Vec<u8>,
}

impl Drop for KemKeyPair {
    fn drop(&mut self)
        opens_invariants none
        no_unwind
    {
        wipe(&mut self.dk);
    }
}

impl KemKeyPair {
    /// The seed of the decapsulation key.
    pub closed spec fn seed(&self) -> Seq<u8> {
        self.dk@
    }

    /// The encapsulation key.
    pub closed spec fn public_key(&self) -> Seq<u8> {
        self.encapsulation_key@
    }

    /// A fresh pair.
    pub fn generate() -> (r: Self)
        ensures
            r.seed().len() == KEM_SEED_LEN,
            r.public_key() == mlkem_public(r.seed()),
            r.public_key().len() == KEM_KEY_LEN,
            mlkem_key_decodes(r.public_key()),
    {
        let (dk, ek) = mlkem_generate();
        KemKeyPair { encapsulation_key: KemEncapsulationKey::from_bytes(ek), dk }
    }

    /// The secret in a ciphertext. Only the lengths of key and ciphertext can be
    /// wrong: a ciphertext for another pair gives an unrelated secret, no error.
    pub fn decapsulate(&self, ct: &KemCiphertext) -> (r: CryptoResult<[u8; 32]>)
        ensures
            match r {
                Ok(secret) => decapsulation(self.seed(), ct@) == Ok::<Seq<u8>, CryptoFault>(
                    secret@,
                ),
                Err(e) => decapsulation(self.seed(), ct@) == Err::<Seq<u8>, CryptoFault>(e@),
            },
    {
        match mlkem_decapsulate(self.dk.as_slice(), ct.as_bytes()) {
            Ok(secret) => Ok(secret),
            Err(OpenFault::Key) => Err(
                CryptoError::InvalidSecretKey("bad ML-KEM decapsulation key".to_owned()),
            ),
            Err(OpenFault::Ciphertext) => Err(
                CryptoError::InvalidSignature("bad ML-KEM ciphertext".to_owned()),
            ),
        }
    }
}

/// A fresh secret for the holder of a key: the ciphertext to send and the secret.
pub fn kem_encapsulate(ek: &KemEncapsulationKey) -> (r: CryptoResult<(KemCiphertext, [u8; 32])>)
    ensures
        match r {
            Ok((ct, secret)) => {
                &&& mlkem_key_decodes(ek@)
                &&& ek@.len() == KEM_KEY_LEN
                &&& ct@.len() == KEM_CIPHERTEXT_LEN
                &&& exists|m: Seq<u8>|
                    m.len() == 32 && #[trigger] mlkem_sealed(ek@, m) == (ct@, secret@)
            },
            Err(e) => {
                &&& !mlkem_key_decodes(ek@)
                &&& e@ == CryptoFault::InvalidPublicKey("bad ML-KEM encapsulation key"@)
            },
        },
{
    match mlkem_encapsulate(ek.as_bytes()) {
        Some((ct, secret)) => Ok((KemCiphertext::from_bytes(ct), secret)),
        None => Err(CryptoError::InvalidPublicKey("bad ML-KEM encapsulation key".to_owned())),
    }
}

/// A fresh pair reads every ciphertext of the right length: what a peer sent
/// never leads to an error.
pub proof fn sound_lengths_always_open(seed: Seq<u8>, ciphertext: Seq<u8>)
    requires
        seed.len() == KEM_SEED_LEN,
        ciphertext.len() == KEM_CIPHERTEXT_LEN,
    ensures
        decapsulation(seed, ciphertext) is Ok,
{
}

} // verus!
