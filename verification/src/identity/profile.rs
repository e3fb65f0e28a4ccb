//! An identity on the network.
use crate::crypto::Address;
use crate::identity::name::HelixName;
use crate::identity::personhood::PersonhoodStatus;
use crate::identity::recovery::{quorum_of, three_fifths};
use vstd::prelude::*;

verus! {

/// Everything known of one identity.
#[derive(Debug)]
pub struct Identity {
    pub address: Address,
    pub name: Option<HelixName>,
    pub personhood: PersonhoodStatus,
    /// Guardians for social recovery.
    pub guardians: Vec<Address>,
}

impl Identity {
    pub fn new(address: Address) -> (r: Self)
        ensures
            r.address == address,
            r.name is None,
            r.personhood == PersonhoodStatus::Unverified,
            r.guardians@.len() == 0,
    {
        Identity {
            address,
            name: None,
            personhood: PersonhoodStatus::Unverified,
            guardians: Vec::new(),
        }
    }

    pub fn has_personhood(&self) -> (r: bool)
        ensures
            r == (self.personhood@ is Verified),
    {
        self.personhood.is_verified()
    }

    /// How many guardians a recovery needs: three fifths, rounded up.
    pub fn recovery_threshold(&self) -> (r: usize)
        ensures
            r == quorum_of(self.guardians@.len()),
    {
        three_fifths(self.guardians.len())
    }
}

} // verus!
