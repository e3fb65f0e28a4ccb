//! Hashes, addresses, keys and key files.
pub mod address;
pub mod error;
pub mod hash;
pub mod hex_text;
pub mod kem;
pub mod keyfile;
pub mod keys;
pub mod merkle;
pub mod promises;

pub use address::Address;
pub use error::{CryptoError, CryptoResult, HexFault};
pub use hash::Digest;
pub use kem::{kem_encapsulate, KemCiphertext, KemEncapsulationKey, KemKeyPair};
pub use keyfile::{KdfParams, KeyFile, KeyFileError};
pub use keys::{verify, verify_with_scheme, CryptoScheme, KeyPair, PublicKey, SecretKey, Signature};
pub use merkle::{merkle_proof, merkle_root, verify_merkle_proof, MerkleProofStep};
