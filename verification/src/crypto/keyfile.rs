//! Key files: a key pair as it is kept between runs, in the open or sealed with
//! a passphrase.
use crate::crypto::address::{address_fault, address_of, Address};
use crate::crypto::error::{CryptoError, CryptoFault, HexFault};
use crate::crypto::hex_text::{
    encode_hex, hex_chars, hex_read, hex_round_trip, read_hex,
};
use crate::crypto::keys::{keys_match, raw_pair_fault, CryptoScheme, KeyPair, PublicKey};
use crate::text::{joined2, joined3, same_text};
use aes_gcm::aead::{Aead, AeadCore, KeyInit, OsRng};
use argon2::password_hash::SaltString;
use argon2::PasswordHasher;
use vstd::prelude::*;
use vstd::string::StringSliceAdditionalSpecFns;

verus! {

/// Argon2id memory cost of new files, in KiB. A leaked key file can be attacked
/// offline, so the costs are far above what an interactive login would take.
pub const ARGON2_M_COST_KIB: u32 = 65_536;

pub const ARGON2_T_COST: u32 = 3;

pub const ARGON2_P_COST: u32 = 1;

/// The longest plaintext that AES-GCM's block counter has room for.
pub const SEAL_LIMIT: u64 = 68_719_476_704;

/// The number of lanes beyond which the lanes' least memory no longer fits 32 bits.
pub const LANE_LIMIT: u32 = 536_870_911;

/// What the salt's reader says against a text, if anything.
pub uninterp spec fn salt_refusal(salt: Seq<char>) -> Option<Seq<char>>;

/// The bytes that a salt stands for, if it is properly encoded.
pub uninterp spec fn salt_bytes(salt: Seq<char>) -> Option<Seq<u8>>;

/// The 32 bytes that Argon2id derives from a passphrase and a salt, or its words
/// on why it does not.
pub uninterp spec fn argon2id_key(
    m_cost: u32,
    t_cost: u32,
    p_cost: u32,
    passphrase: Seq<u8>,
    salt: Seq<char>,
) -> Result<Seq<u8>, Seq<char>>;

/// AES-256-GCM: the ciphertext of a plaintext, with its tag behind it.
pub uninterp spec fn aes_sealed(key: Seq<u8>, nonce: Seq<u8>, plain: Seq<u8>) -> Seq<u8>;

/// AES-256-GCM: the plaintext of a ciphertext with a tag, if the tag is right.
pub uninterp spec fn aes_opened(key: Seq<u8>, nonce: Seq<u8>, sealed: Seq<u8>) -> Option<Seq<u8>>;

/// The characters that a salt may hold.
pub open spec fn salt_char(c: char) -> bool {
    'a' <= c <= 'z' || 'A' <= c <= 'Z' || '0' <= c <= '9' || c == '/' || c == '+' || c == '.' || c
        == '-'
}

/// Whether a text can be a salt.
pub open spec fn salt_is_sound(salt: Seq<char>) -> bool {
    4 <= salt.len() <= 64 && forall|i: int| 0 <= i < salt.len() ==> salt_char(#[trigger] salt[i])
}

/// What Argon2 says against cost parameters, if anything. It reckons the lanes'
/// least memory in 32 bits.
pub open spec fn cost_refusal(m_cost: u32, t_cost: u32, p_cost: u32) -> Option<Seq<char>> {
    if m_cost < 8 || m_cost < p_cost * 8 % 0x1_0000_0000 {
        Some("memory cost is too small"@)
    } else if t_cost < 1 {
        Some("time cost is too small"@)
    } else if p_cost < 1 {
        Some("not enough threads"@)
    } else if p_cost > 0xFF_FFFF {
        Some("too many threads"@)
    } else {
        None
    }
}

/// `argon2::password_hash::SaltString::generate` on the operating system's
/// randomness: a sound salt for 16 bytes. Which comes is left to chance.
#[verifier::external_body]
fn salt_generate() -> (r: String)
    ensures
        salt_is_sound(r@),
        salt_refusal(r@) is None,
        salt_bytes(r@) is Some,
        salt_bytes(r@)->0.len() == 16,
{
    SaltString::generate(&mut OsRng).to_string()
}

/// `argon2::password_hash::SaltString::from_b64`: a text is taken if it has 4 to
/// 64 characters, all of them letters, digits or one of `/+.-`; the words of a
/// refusal depend on the text alone.
#[verifier::external_body]
fn salt_check(salt: &str) -> (r: Result<(), String>)
    ensures
        match r {
            Ok(()) => salt_refusal(salt@) is None && salt_is_sound(salt@),
            Err(words) => salt_refusal(salt@) == Some(words@) && !salt_is_sound(salt@),
        },
{
    match SaltString::from_b64(salt) {
        Ok(_) => Ok(()),
        Err(e) => Err(e.to_string()),
    }
}

/// `argon2::Params::DEFAULT` through its getters: 19 MiB, two passes, one lane.
#[verifier::external_body]
fn argon2_defaults() -> (r: (u32, u32, u32))
    ensures
        r == (19_456u32, 2u32, 1u32),
{
    let d = argon2::Params::DEFAULT;
    (d.m_cost(), d.t_cost(), d.p_cost())
}

/// `argon2::Params::new` for 32 bytes of output: the first bound that the costs
/// break is named. Once there are eight blocks of memory, it multiplies the lanes
/// by eight in 32 bits, which must fit.
#[verifier::external_body]
fn argon2_check(m_cost: u32, t_cost: u32, p_cost: u32) -> (r: Result<(), String>)
    requires
        m_cost < 8 || p_cost <= LANE_LIMIT,
    ensures
        match r {
            Ok(()) => cost_refusal(m_cost, t_cost, p_cost) is None,
            Err(words) => cost_refusal(m_cost, t_cost, p_cost) == Some(words@),
        },
{
    match argon2::Params::new(m_cost, t_cost, p_cost, Some(32)) {
        Ok(_) => Ok(()),
        Err(e) => Err(e.to_string()),
    }
}

/// `argon2::Argon2::hash_password` (Argon2id, version 0x13, 32 bytes of output):
/// a function of the costs, the passphrase and the salt alone. It succeeds where
/// the salt stands for at least 8 bytes and the passphrase's length fits 32
/// bits. It takes `m_cost` KiB of memory.
#[verifier::external_body]
fn argon2_derive(m_cost: u32, t_cost: u32, p_cost: u32, passphrase: &[u8], salt: &str) -> (r: Result<
    Vec<u8>,
    String,
>)
    requires
        cost_refusal(m_cost, t_cost, p_cost) is None,
        salt_is_sound(salt@),
    ensures
        match r {
            Ok(key) => {
                &&& argon2id_key(m_cost, t_cost, p_cost, passphrase@, salt@) is Ok
                &&& argon2id_key(m_cost, t_cost, p_cost, passphrase@, salt@)->Ok_0 == key@
                &&& key@.len() == 32
            },
            Err(words) => {
                &&& argon2id_key(m_cost, t_cost, p_cost, passphrase@, salt@) is Err
                &&& argon2id_key(m_cost, t_cost, p_cost, passphrase@, salt@)->Err_0 == words@
            },
        },
        r is Ok <==> derivable(passphrase@, salt@),
{
    let params = argon2::Params::new(m_cost, t_cost, p_cost, Some(32)).unwrap();
    let hasher = argon2::Argon2::new(argon2::Algorithm::Argon2id, argon2::Version::V0x13, params);
    let salt = SaltString::from_b64(salt).unwrap();
    let r = match hasher.hash_password(passphrase, &salt) {
        Ok(hash) => Ok(hash.hash.unwrap().as_bytes().to_vec()),
        Err(e) => Err(e.to_string()),
    };
    r
}

/// Whether Argon2id can derive a key from a passphrase and a salt.
pub open spec fn derivable(passphrase: Seq<u8>, salt: Seq<char>) -> bool {
    &&& passphrase.len() <= 0xFFFF_FFFF
    &&& salt_bytes(salt) is Some
    &&& salt_bytes(salt)->0.len() >= 8
}

/// `aes_gcm::Aes256Gcm::generate_nonce` on the operating system's randomness:
/// 12 bytes. Which come is left to chance.
#[verifier::external_body]
fn aes_nonce() -> (r: Vec<u8>)
    ensures
        r@.len() == 12,
{
    aes_gcm::Aes256Gcm::generate_nonce(&mut OsRng).to_vec()
}

/// `aes_gcm::Aes256Gcm::encrypt` without associated data: a function of key, nonce
/// and plaintext alone, 16 bytes longer than the plaintext, which `decrypt` with
/// the same key and nonce gives back.
#[verifier::external_body]
fn aes_seal(key: &[u8], nonce: &[u8], plain: &[u8]) -> (r: Vec<u8>)
    requires
        key@.len() == 32,
        nonce@.len() == 12,
        plain@.len() <= SEAL_LIMIT,
    ensures
        r@ == aes_sealed(key@, nonce@, plain@),
        r@.len() == plain@.len() + 16,
        aes_opened(key@, nonce@, r@) == Some(plain@),
{
    let cipher = aes_gcm::Aes256Gcm::new(aes_gcm::Key::<aes_gcm::Aes256Gcm>::from_slice(key));
    cipher.encrypt(aes_gcm::Nonce::from_slice(nonce), plain).unwrap()
}

/// `aes_gcm::Aes256Gcm::decrypt` without associated data: a function of its
/// arguments alone.
#[verifier::external_body]
fn aes_open(key: &[u8], nonce: &[u8], sealed: &[u8]) -> (r: Option<Vec<u8>>)
    requires
        key@.len() == 32,
        nonce@.len() == 12,
        sealed@.len() <= SEAL_LIMIT + 16,
    ensures
        match r {
            Some(plain) => aes_opened(key@, nonce@, sealed@) == Some(plain@),
            None => aes_opened(key@, nonce@, sealed@) is None,
        },
{
    let cipher = aes_gcm::Aes256Gcm::new(aes_gcm::Key::<aes_gcm::Aes256Gcm>::from_slice(key));
    cipher.decrypt(aes_gcm::Nonce::from_slice(nonce), sealed).ok()
}

/// Why a key file cannot be read, opened or made.
#[derive(Debug)]
pub enum KeyFileError {
    UnknownAlgorithm(String),
    PublicKeyNotHex(HexFault),
    /// The stored key is none of the named algorithm.
    InvalidKey(String),
    /// The stored address is not that of the stored key.
    AddressMismatch(String),
    PassphraseRequired,
    MissingSalt,
    MissingNonce,
    InvalidSalt(String),
    InvalidCosts(String),
    Derivation(String),
    /// The nonce or the secret is not hexadecimal.
    NotHex(HexFault),
    /// The nonce has not 12 bytes.
    InvalidNonce,
    WrongPassphrase,
    EncryptionFailed,
    UnknownEncryption(String),
    /// The secret does not belong to the stored key.
    Key(CryptoError),
}

/// A `KeyFileError` with its texts as characters.
pub enum KeyFileFault {
    UnknownAlgorithm(Seq<char>),
    PublicKeyNotHex(HexFault),
    InvalidKey(Seq<char>),
    AddressMismatch(Seq<char>),
    PassphraseRequired,
    MissingSalt,
    MissingNonce,
    InvalidSalt(Seq<char>),
    InvalidCosts(Seq<char>),
    Derivation(Seq<char>),
    NotHex(HexFault),
    InvalidNonce,
    WrongPassphrase,
    EncryptionFailed,
    UnknownEncryption(Seq<char>),
    Key(CryptoFault),
}

impl View for KeyFileError {
    type V = KeyFileFault;

    open spec fn view(&self) -> KeyFileFault {
        match *self {
            KeyFileError::UnknownAlgorithm(s) => KeyFileFault::UnknownAlgorithm(s@),
            KeyFileError::PublicKeyNotHex(h) => KeyFileFault::PublicKeyNotHex(h),
            KeyFileError::InvalidKey(s) => KeyFileFault::InvalidKey(s@),
            KeyFileError::AddressMismatch(s) => KeyFileFault::AddressMismatch(s@),
            KeyFileError::PassphraseRequired => KeyFileFault::PassphraseRequired,
            KeyFileError::MissingSalt => KeyFileFault::MissingSalt,
            KeyFileError::MissingNonce => KeyFileFault::MissingNonce,
            KeyFileError::InvalidSalt(s) => KeyFileFault::InvalidSalt(s@),
            KeyFileError::InvalidCosts(s) => KeyFileFault::InvalidCosts(s@),
            KeyFileError::Derivation(s) => KeyFileFault::Derivation(s@),
            KeyFileError::NotHex(h) => KeyFileFault::NotHex(h),
            KeyFileError::InvalidNonce => KeyFileFault::InvalidNonce,
            KeyFileError::WrongPassphrase => KeyFileFault::WrongPassphrase,
            KeyFileError::EncryptionFailed => KeyFileFault::EncryptionFailed,
            KeyFileError::UnknownEncryption(s) => KeyFileFault::UnknownEncryption(s@),
            KeyFileError::Key(e) => KeyFileFault::Key(e@),
        }
    }
}

impl KeyFileFault {
    pub open spec fn words(self) -> Seq<char> {
        match self {
            KeyFileFault::UnknownAlgorithm(s) => "Unknown key algorithm in wallet file: "@ + s,
            KeyFileFault::PublicKeyNotHex(h) => "Wallet file's public key is not valid hex: "@
                + CryptoFault::HexError(h).words(),
            KeyFileFault::InvalidKey(s) => "Wallet file's public key is not a valid "@ + s
                + " key"@,
            KeyFileFault::AddressMismatch(s) => "The address in this wallet file ("@ + s
                + ") does not belong to the key stored in it — the file has been altered or damaged. Do not use that address or give it to anyone. Restore the wallet from its recovery phrase (`hlx wallet restore`) or from a backup."@,
            KeyFileFault::PassphraseRequired => "Passphrase required for encrypted wallet"@,
            KeyFileFault::MissingSalt => "Missing KDF salt"@,
            KeyFileFault::MissingNonce => "Missing nonce"@,
            KeyFileFault::InvalidSalt(s) => "Invalid salt: "@ + s,
            KeyFileFault::InvalidCosts(s) => "invalid Argon2 parameters: "@ + s,
            KeyFileFault::Derivation(s) => "KDF error: "@ + s,
            KeyFileFault::NotHex(h) => h.words(),
            KeyFileFault::InvalidNonce => "Invalid nonce length"@,
            KeyFileFault::WrongPassphrase => "Decryption failed — wrong passphrase?"@,
            KeyFileFault::EncryptionFailed => "Encryption error: aead::Error"@,
            KeyFileFault::UnknownEncryption(s) => "Unknown encryption format: "@ + s,
            KeyFileFault::Key(e) => e.words(),
        }
    }
}

impl KeyFileError {
    /// The error in words.
    pub fn message(&self) -> (r: String)
        ensures
            r@ == self@.words(),
    {
        match self {
            KeyFileError::UnknownAlgorithm(s) => joined2(
                "Unknown key algorithm in wallet file: ",
                s.as_str(),
            ),
            KeyFileError::PublicKeyNotHex(h) => {
                let words = CryptoError::HexError(*h).message();
                joined2("Wallet file's public key is not valid hex: ", words.as_str())
            },
            KeyFileError::InvalidKey(s) => joined3(
                "Wallet file's public key is not a valid ",
                s.as_str(),
                " key",
            ),
            KeyFileError::AddressMismatch(s) => joined3(
                "The address in this wallet file (",
                s.as_str(),
                ") does not belong to the key stored in it — the file has been altered or damaged. Do not use that address or give it to anyone. Restore the wallet from its recovery phrase (`hlx wallet restore`) or from a backup.",
            ),
            KeyFileError::PassphraseRequired => {
                "Passphrase required for encrypted wallet".to_owned()
            },
            KeyFileError::MissingSalt => "Missing KDF salt".to_owned(),
            KeyFileError::MissingNonce => "Missing nonce".to_owned(),
            KeyFileError::InvalidSalt(s) => joined2("Invalid salt: ", s.as_str()),
            KeyFileError::InvalidCosts(s) => joined2("invalid Argon2 parameters: ", s.as_str()),
            KeyFileError::Derivation(s) => joined2("KDF error: ", s.as_str()),
            KeyFileError::NotHex(h) => h.message(),
            KeyFileError::InvalidNonce => "Invalid nonce length".to_owned(),
            KeyFileError::WrongPassphrase => "Decryption failed — wrong passphrase?".to_owned(),
            KeyFileError::EncryptionFailed => "Encryption error: aead::Error".to_owned(),
            KeyFileError::UnknownEncryption(s) => joined2("Unknown encryption format: ", s.as_str()),
            KeyFileError::Key(e) => e.message(),
        }
    }
}

/// Argon2id costs, recorded beside what was sealed with them.
#[derive(Debug, Clone, Copy, PartialEq, Eq, Structural)]
pub struct KdfParams {
    pub m_cost: u32,
    pub t_cost: u32,
    pub p_cost: u32,
}

impl KdfParams {
    pub open spec fn current_spec() -> KdfParams {
        KdfParams { m_cost: ARGON2_M_COST_KIB, t_cost: ARGON2_T_COST, p_cost: ARGON2_P_COST }
    }

    pub open spec fn legacy_spec() -> KdfParams {
        KdfParams { m_cost: 19_456, t_cost: 2, p_cost: 1 }
    }

    /// The costs of new files.
    pub fn current() -> (r: Self)
        ensures
            r == Self::current_spec(),
    {
        KdfParams { m_cost: ARGON2_M_COST_KIB, t_cost: ARGON2_T_COST, p_cost: ARGON2_P_COST }
    }

    /// The costs of files that record none.
    pub fn legacy_default() -> (r: Self)
        ensures
            r == Self::legacy_spec(),
    {
        let (m_cost, t_cost, p_cost) = argon2_defaults();
        KdfParams { m_cost, t_cost, p_cost }
    }

    /// What is wrong with the costs, if anything.
    pub open spec fn fault(self) -> Option<KeyFileFault> {
        match cost_refusal(self.m_cost, self.t_cost, self.p_cost) {
            Some(words) => Some(KeyFileFault::InvalidCosts(words)),
            None => None,
        }
    }

    /// Checks the costs. Lanes whose least memory does not fit 32 bits are too many
    /// at best.
    fn check(&self) -> (r: Result<(), String>)
        ensures
            match r {
                Ok(()) => cost_refusal(self.m_cost, self.t_cost, self.p_cost) is None,
                Err(words) => cost_refusal(self.m_cost, self.t_cost, self.p_cost) == Some(words@),
            },
    {
        if self.m_cost < 8 || self.p_cost <= LANE_LIMIT {
            argon2_check(self.m_cost, self.t_cost, self.p_cost)
        } else if self.m_cost < self.p_cost.wrapping_mul(8) {
            Err("memory cost is too small".to_owned())
        } else if self.t_cost < 1 {
            Err("time cost is too small".to_owned())
        } else {
            Err("too many threads".to_owned())
        }
    }

    /// Derives the key that a passphrase and a salt stand for.
    pub fn derive(&self, passphrase: &str, salt: &str) -> (r: Result<Vec<u8>, KeyFileError>)
        ensures
            match r {
                Ok(key) => {
                    &&& derived(*self, passphrase.spec_bytes(), salt@) == Ok::<
                        Seq<u8>,
                        KeyFileFault,
                    >(key@)
                    &&& key@.len() == 32
                },
                Err(e) => derived(*self, passphrase.spec_bytes(), salt@) == Err::<
                    Seq<u8>,
                    KeyFileFault,
                >(e@),
            },
            r is Ok <==> salt_is_sound(salt@) && self.fault() is None && derivable(
                passphrase.spec_bytes(),
                salt@,
            ),
    {
        match salt_check(salt) {
            Ok(()) => {},
            Err(words) => {
                return Err(KeyFileError::InvalidSalt(words));
            },
        }
        match self.check() {
            Ok(()) => {},
            Err(words) => {
                return Err(KeyFileError::InvalidCosts(words));
            },
        }
        match argon2_derive(self.m_cost, self.t_cost, self.p_cost, passphrase.as_bytes(), salt) {
            Ok(key) => Ok(key),
            Err(words) => Err(KeyFileError::Derivation(words)),
        }
    }
}

/// The key that costs, a passphrase and a salt lead to.
pub open spec fn derived(params: KdfParams, passphrase: Seq<u8>, salt: Seq<char>) -> Result<
    Seq<u8>,
    KeyFileFault,
> {
    match salt_refusal(salt) {
        Some(words) => Err(KeyFileFault::InvalidSalt(words)),
        None => match params.fault() {
            Some(f) => Err(f),
            None => match argon2id_key(
                params.m_cost,
                params.t_cost,
                params.p_cost,
                passphrase,
                salt,
            ) {
                Ok(key) => Ok(key),
                Err(words) => Err(KeyFileFault::Derivation(words)),
            },
        },
    }
}

/// The name of a scheme in key files.
pub open spec fn algo_text(scheme: CryptoScheme) -> Seq<char> {
    match scheme {
        CryptoScheme::MlDsa => "ML-DSA-65"@,
        CryptoScheme::SphincsPlus => "SLH-DSA-SHA2-192s"@,
    }
}

pub fn algo_name(scheme: CryptoScheme) -> (r: &'static str)
    ensures
        r@ == algo_text(scheme),
{
    match scheme {
        CryptoScheme::MlDsa => "ML-DSA-65",
        CryptoScheme::SphincsPlus => "SLH-DSA-SHA2-192s",
    }
}

/// The scheme that a name in a key file stands for.
pub open spec fn algo_scheme(algo: Seq<char>) -> Option<CryptoScheme> {
    if algo == "ML-DSA-65"@ {
        Some(CryptoScheme::MlDsa)
    } else if algo == "SLH-DSA-SHA2-192s"@ {
        Some(CryptoScheme::SphincsPlus)
    } else {
        None
    }
}

pub fn scheme_from_algo(algo: &str) -> (r: Result<CryptoScheme, KeyFileError>)
    ensures
        match r {
            Ok(scheme) => algo_scheme(algo@) == Some(scheme),
            Err(e) => algo_scheme(algo@) is None && e@ == KeyFileFault::UnknownAlgorithm(algo@),
        },
{
    if same_text(algo, "ML-DSA-65") {
        Ok(CryptoScheme::MlDsa)
    } else if same_text(algo, "SLH-DSA-SHA2-192s") {
        Ok(CryptoScheme::SphincsPlus)
    } else {
        Err(KeyFileError::UnknownAlgorithm(algo.to_owned()))
    }
}

/// Reading a scheme's name gives the scheme back.
pub proof fn algo_names_read_back(scheme: CryptoScheme)
    ensures
        algo_scheme(algo_text(scheme)) == Some(scheme),
{
    reveal_strlit("ML-DSA-65");
    reveal_strlit("SLH-DSA-SHA2-192s");
    assert("ML-DSA-65"@.len() != "SLH-DSA-SHA2-192s"@.len());
}

/// A key pair as wallets and validators keep it. The address is a copy of what the
/// public key hashes to, there so that it can be shown without a passphrase.
pub struct KeyFile {
    pub address: String,
    pub public_key: String,
    pub algo: String,
    /// `plaintext` or `aes256gcm-argon2id`.
    pub encryption: String,
    /// The secret in hexadecimal, sealed or not.
    pub secret_key: String,
    pub kdf_salt: Option<String>,
    pub nonce: Option<String>,
    /// Missing in files from before the costs were recorded.
    pub kdf_params: Option<KdfParams>,
}

/// A `KeyFile` with its texts as characters.
pub struct KeyFileModel {
    pub address: Seq<char>,
    pub public_key: Seq<char>,
    pub algo: Seq<char>,
    pub encryption: Seq<char>,
    pub secret_key: Seq<char>,
    pub kdf_salt: Option<Seq<char>>,
    pub nonce: Option<Seq<char>>,
    pub kdf_params: Option<KdfParams>,
}

pub open spec fn maybe_text(s: Option<String>) -> Option<Seq<char>> {
    match s {
        Some(t) => Some(t@),
        None => None,
    }
}

impl View for KeyFile {
    type V = KeyFileModel;

    open spec fn view(&self) -> KeyFileModel {
        KeyFileModel {
            address: self.address@,
            public_key: self.public_key@,
            algo: self.algo@,
            encryption: self.encryption@,
            secret_key: self.secret_key@,
            kdf_salt: maybe_text(self.kdf_salt),
            nonce: maybe_text(self.nonce),
            kdf_params: self.kdf_params,
        }
    }
}

/// What can be said of a file without its passphrase: the scheme and the public
/// key, or the first thing that does not fit.
pub open spec fn open_fields(f: KeyFileModel) -> Result<(CryptoScheme, Seq<u8>), KeyFileFault> {
    match algo_scheme(f.algo) {
        None => Err(KeyFileFault::UnknownAlgorithm(f.algo)),
        Some(scheme) => match hex_read(f.public_key) {
            Err(h) => Err(KeyFileFault::PublicKeyNotHex(h)),
            Ok(key) => if key.len() != scheme.public_len() {
                Err(KeyFileFault::InvalidKey(f.algo))
            } else if address_fault(f.address) is Some || f.address != address_of(key) {
                Err(KeyFileFault::AddressMismatch(f.address))
            } else {
                Ok((scheme, key))
            },
        },
    }
}

/// The secret bytes in a sealed file.
pub open spec fn unsealed(f: KeyFileModel, passphrase: Option<Seq<u8>>) -> Result<
    Seq<u8>,
    KeyFileFault,
> {
    if passphrase is None {
        Err(KeyFileFault::PassphraseRequired)
    } else if f.kdf_salt is None {
        Err(KeyFileFault::MissingSalt)
    } else if f.nonce is None {
        Err(KeyFileFault::MissingNonce)
    } else {
        let params = match f.kdf_params {
            Some(p) => p,
            None => KdfParams::legacy_spec(),
        };
        match derived(params, passphrase->0, f.kdf_salt->0) {
            Err(e) => Err(e),
            Ok(key) => match hex_read(f.nonce->0) {
                Err(h) => Err(KeyFileFault::NotHex(h)),
                Ok(nonce) => match hex_read(f.secret_key) {
                    Err(h) => Err(KeyFileFault::NotHex(h)),
                    Ok(sealed) => if nonce.len() != 12 {
                        Err(KeyFileFault::InvalidNonce)
                    } else if sealed.len() > SEAL_LIMIT + 16 {
                        Err(KeyFileFault::WrongPassphrase)
                    } else {
                        match aes_opened(key, nonce, sealed) {
                            Some(plain) => Ok(plain),
                            None => Err(KeyFileFault::WrongPassphrase),
                        }
                    },
                },
            },
        }
    }
}

/// The secret bytes in a file.
pub open spec fn secret_in(f: KeyFileModel, passphrase: Option<Seq<u8>>) -> Result<
    Seq<u8>,
    KeyFileFault,
> {
    if f.encryption == "plaintext"@ {
        match hex_read(f.secret_key) {
            Ok(bytes) => Ok(bytes),
            Err(h) => Err(KeyFileFault::NotHex(h)),
        }
    } else if f.encryption == "aes256gcm-argon2id"@ {
        unsealed(f, passphrase)
    } else {
        Err(KeyFileFault::UnknownEncryption(f.encryption))
    }
}

/// The pair in a file: scheme, secret and public key.
pub open spec fn pair_in(f: KeyFileModel, passphrase: Option<Seq<u8>>) -> Result<
    (CryptoScheme, Seq<u8>, Seq<u8>),
    KeyFileFault,
> {
    match open_fields(f) {
        Err(e) => Err(e),
        Ok((scheme, public)) => match secret_in(f, passphrase) {
            Err(e) => Err(e),
            Ok(secret) => match raw_pair_fault(scheme, secret, public) {
                Some(e) => Err(KeyFileFault::Key(e)),
                None => Ok((scheme, secret, public)),
            },
        },
    }
}

/// The bytes of a passphrase.
pub open spec fn phrase_bytes(passphrase: Option<&str>) -> Option<Seq<u8>> {
    match passphrase {
        Some(p) => Some(p.spec_bytes()),
        None => None,
    }
}

/// The file of a pair that is not sealed.
pub open spec fn plain_file(scheme: CryptoScheme, secret: Seq<u8>, public: Seq<u8>) -> KeyFileModel {
    KeyFileModel {
        address: address_of(public),
        public_key: hex_chars(public),
        algo: algo_text(scheme),
        encryption: "plaintext"@,
        secret_key: hex_chars(secret),
        kdf_salt: None,
        nonce: None,
        kdf_params: None,
    }
}

/// The file of a pair that is sealed with a key, a salt and a nonce.
pub open spec fn sealed_file(
    scheme: CryptoScheme,
    secret: Seq<u8>,
    public: Seq<u8>,
    key: Seq<u8>,
    salt: Seq<char>,
    nonce: Seq<u8>,
) -> KeyFileModel {
    KeyFileModel {
        address: address_of(public),
        public_key: hex_chars(public),
        algo: algo_text(scheme),
        encryption: "aes256gcm-argon2id"@,
        secret_key: hex_chars(aes_sealed(key, nonce, secret)),
        kdf_salt: Some(salt),
        nonce: Some(hex_chars(nonce)),
        kdf_params: Some(KdfParams::current_spec()),
    }
}

impl KeyFile {
    /// The checks that need no passphrase: a known scheme, a key of its shape, and
    /// the address that the key hashes to. The address is checked because it is
    /// shown without unlocking, and could otherwise be replaced by anyone who can
    /// write the file.
    pub fn check_plaintext_fields(&self) -> (r: Result<CryptoScheme, KeyFileError>)
        ensures
            match r {
                Ok(scheme) => open_fields(self@) is Ok && open_fields(self@)->Ok_0.0 == scheme,
                Err(e) => open_fields(self@) is Err && open_fields(self@)->Err_0 == e@,
            },
    {
        let scheme = match scheme_from_algo(self.algo.as_str()) {
            Ok(s) => s,
            Err(e) => {
                return Err(e);
            },
        };
        let public = match read_hex(self.public_key.as_str()) {
            Ok(bytes) => PublicKey::from_bytes(bytes),
            Err(h) => {
                return Err(KeyFileError::PublicKeyNotHex(h));
            },
        };
        if !public.is_valid_for(scheme) {
            return Err(KeyFileError::InvalidKey(self.algo.clone()));
        }
        // The address that the key hashes to is not named: if the key was what got
        // replaced, that address is not the owner's.
        match Address::from_str(self.address.as_str()) {
            Ok(stated) => if stated.same(&Address::from_public_key(&public)) {
                Ok(scheme)
            } else {
                Err(KeyFileError::AddressMismatch(self.address.clone()))
            },
            Err(_) => Err(KeyFileError::AddressMismatch(self.address.clone())),
        }
    }

    /// A file as it was read becomes a key file only if its open fields fit together.
    pub fn checked(self) -> (r: Result<KeyFile, KeyFileError>)
        ensures
            match r {
                Ok(f) => f@ == self@ && open_fields(self@) is Ok,
                Err(e) => open_fields(self@) is Err && open_fields(self@)->Err_0 == e@,
            },
    {
        match self.check_plaintext_fields() {
            Ok(_) => Ok(self),
            Err(e) => Err(e),
        }
    }

    /// A file that is not sealed. It opens to the same pair.
    pub fn from_keypair_plain(kp: &KeyPair) -> (r: Self)
        ensures
            r@ == plain_file(kp.scheme, kp.secret@, kp.public@),
            keys_match(kp.scheme, kp.secret@, kp.public@) && kp.public@.len()
                == kp.scheme.public_len() ==> forall|p: Option<Seq<u8>>| #[trigger]
                pair_in(r@, p) == Ok::<(CryptoScheme, Seq<u8>, Seq<u8>), KeyFileFault>(
                    (kp.scheme, kp.secret@, kp.public@),
                ),
    {
        let address = Address::from_public_key(&kp.public);
        proof {
            hex_round_trip(kp.public@);
            hex_round_trip(kp.secret@);
            algo_names_read_back(kp.scheme);
        }
        KeyFile {
            address: address.to_string(),
            public_key: kp.public.to_hex(),
            algo: algo_name(kp.scheme).to_owned(),
            encryption: "plaintext".to_owned(),
            secret_key: encode_hex(kp.secret.as_bytes()),
            kdf_salt: None,
            nonce: None,
            kdf_params: None,
        }
    }

    /// A file whose secret is sealed with a key derived from the passphrase, under a
    /// fresh salt and a fresh nonce. The same passphrase opens it to the same pair.
    pub fn from_keypair_encrypted(kp: &KeyPair, passphrase: &str) -> (r: Result<Self, KeyFileError>)
        ensures
            r is Ok <==> passphrase.spec_bytes().len() <= 0xFFFF_FFFF && kp.secret@.len()
                <= SEAL_LIMIT,
            match r {
                Ok(f) => {
                    &&& exists|key: Seq<u8>, salt: Seq<char>, nonce: Seq<u8>|
                        {
                            &&& f@ == #[trigger] sealed_file(
                                kp.scheme,
                                kp.secret@,
                                kp.public@,
                                key,
                                salt,
                                nonce,
                            )
                            &&& nonce.len() == 12
                            &&& derived(
                                KdfParams::current_spec(),
                                passphrase.spec_bytes(),
                                salt,
                            ) == Ok::<Seq<u8>, KeyFileFault>(key)
                        }
                    &&& keys_match(kp.scheme, kp.secret@, kp.public@) && kp.public@.len()
                        == kp.scheme.public_len() ==> pair_in(f@, Some(passphrase.spec_bytes()))
                        == Ok::<(CryptoScheme, Seq<u8>, Seq<u8>), KeyFileFault>(
                        (kp.scheme, kp.secret@, kp.public@),
                    )
                },
                Err(e) => if passphrase.spec_bytes().len() > 0xFFFF_FFFF {
                    &&& e@ is Derivation
                    &&& exists|salt: Seq<char>| #[trigger]
                        derived(KdfParams::current_spec(), passphrase.spec_bytes(), salt) == Err::<
                            Seq<u8>,
                            KeyFileFault,
                        >(e@)
                } else {
                    e@ == KeyFileFault::EncryptionFailed
                },
            },
    {
        let address = Address::from_public_key(&kp.public);
        let params = KdfParams::current();
        let salt = salt_generate();
        let key = match params.derive(passphrase, salt.as_str()) {
            Ok(k) => k,
            Err(e) => {
                return Err(e);
            },
        };
        if kp.secret.as_bytes().len() as u64 > SEAL_LIMIT {
            return Err(KeyFileError::EncryptionFailed);
        }
        let nonce = aes_nonce();
        let sealed = aes_seal(key.as_slice(), nonce.as_slice(), kp.secret.as_bytes());
        let file = KeyFile {
            address: address.to_string(),
            public_key: kp.public.to_hex(),
            algo: algo_name(kp.scheme).to_owned(),
            encryption: "aes256gcm-argon2id".to_owned(),
            secret_key: encode_hex(sealed.as_slice()),
            kdf_salt: Some(salt),
            nonce: Some(encode_hex(nonce.as_slice())),
            kdf_params: Some(params),
        };
        proof {
            hex_round_trip(kp.public@);
            hex_round_trip(sealed@);
            hex_round_trip(nonce@);
            algo_names_read_back(kp.scheme);
            reveal_strlit("plaintext");
            reveal_strlit("aes256gcm-argon2id");
            assert("plaintext"@.len() != "aes256gcm-argon2id"@.len());
            assert(file@ == sealed_file(
                kp.scheme,
                kp.secret@,
                kp.public@,
                key@,
                file@.kdf_salt->0,
                nonce@,
            ));
        }
        Ok(file)
    }

    fn unseal(&self, passphrase: Option<&str>) -> (r: Result<Vec<u8>, KeyFileError>)
        ensures
            match r {
                Ok(v) => unsealed(self@, phrase_bytes(passphrase)) == Ok::<Seq<u8>, KeyFileFault>(
                    v@,
                ),
                Err(e) => unsealed(self@, phrase_bytes(passphrase)) == Err::<
                    Seq<u8>,
                    KeyFileFault,
                >(e@),
            },
    {
        let phrase = match passphrase {
            Some(p) => p,
            None => {
                return Err(KeyFileError::PassphraseRequired);
            },
        };
        let salt = match &self.kdf_salt {
            Some(s) => s,
            None => {
                return Err(KeyFileError::MissingSalt);
            },
        };
        let nonce_text = match &self.nonce {
            Some(s) => s,
            None => {
                return Err(KeyFileError::MissingNonce);
            },
        };
        let params = match self.kdf_params {
            Some(p) => p,
            None => KdfParams::legacy_default(),
        };
        let key = match params.derive(phrase, salt.as_str()) {
            Ok(k) => k,
            Err(e) => {
                return Err(e);
            },
        };
        let nonce = match read_hex(nonce_text.as_str()) {
            Ok(v) => v,
            Err(h) => {
                return Err(KeyFileError::NotHex(h));
            },
        };
        let sealed = match read_hex(self.secret_key.as_str()) {
            Ok(v) => v,
            Err(h) => {
                return Err(KeyFileError::NotHex(h));
            },
        };
        if nonce.len() != 12 {
            return Err(KeyFileError::InvalidNonce);
        }
        if sealed.len() as u64 > SEAL_LIMIT + 16 {
            return Err(KeyFileError::WrongPassphrase);
        }
        match aes_open(key.as_slice(), nonce.as_slice(), sealed.as_slice()) {
            Some(plain) => Ok(plain),
            None => Err(KeyFileError::WrongPassphrase),
        }
    }

    /// The pair in the file, unsealed if need be. The open fields are checked again,
    /// and the secret must belong to the stored key: a pair handed out is the one
    /// that the file's address belongs to.
    pub fn to_keypair(&self, passphrase: Option<&str>) -> (r: Result<KeyPair, KeyFileError>)
        ensures
            match r {
                Ok(kp) => {
                    &&& pair_in(self@, phrase_bytes(passphrase)) == Ok::<
                        (CryptoScheme, Seq<u8>, Seq<u8>),
                        KeyFileFault,
                    >((kp.scheme, kp.secret@, kp.public@))
                    &&& self@.address == address_of(kp.public@)
                    &&& keys_match(kp.scheme, kp.secret@, kp.public@)
                },
                Err(e) => pair_in(self@, phrase_bytes(passphrase)) == Err::<
                    (CryptoScheme, Seq<u8>, Seq<u8>),
                    KeyFileFault,
                >(e@),
            },
    {
        let scheme = match self.check_plaintext_fields() {
            Ok(s) => s,
            Err(e) => {
                return Err(e);
            },
        };
        let secret = if same_text(self.encryption.as_str(), "plaintext") {
            match read_hex(self.secret_key.as_str()) {
                Ok(v) => v,
                Err(h) => {
                    return Err(KeyFileError::NotHex(h));
                },
            }
        } else if same_text(self.encryption.as_str(), "aes256gcm-argon2id") {
            match self.unseal(passphrase) {
                Ok(v) => v,
                Err(e) => {
                    return Err(e);
                },
            }
        } else {
            return Err(KeyFileError::UnknownEncryption(self.encryption.clone()));
        };
        let public = match read_hex(self.public_key.as_str()) {
            Ok(v) => v,
            Err(h) => {
                return Err(KeyFileError::NotHex(h));
            },
        };
        match KeyPair::from_raw(scheme, secret, public) {
            Ok(kp) => Ok(kp),
            Err(e) => Err(KeyFileError::Key(e)),
        }
    }

    /// Whether the secret is sealed.
    pub fn is_encrypted(&self) -> (r: bool)
        ensures
            r == (self@.encryption != "plaintext"@),
    {
        !same_text(self.encryption.as_str(), "plaintext")
    }
}

} // verus!
