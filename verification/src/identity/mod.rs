//! Names, personhood and social recovery.
pub mod name;
pub mod personhood;
pub mod profile;
pub mod promises;
pub mod recovery;

pub use name::{HelixName, NameError};
pub use personhood::{
    Attestation, PersonhoodError, PersonhoodProof, PersonhoodStatus, ATTESTATION_THRESHOLD,
};
pub use profile::Identity;
pub use recovery::{GuardianSet, RecoveryError, RecoveryRequest, MAX_GUARDIANS, MIN_GUARDIANS};
