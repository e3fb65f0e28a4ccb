//! Proof of personhood.
use crate::crypto::Address;
use vstd::prelude::*;

verus! {

/// Attestations that an identity needs before it counts as verified.
pub const ATTESTATION_THRESHOLD: usize = 3;

#[derive(Debug, PartialEq, Eq)]
pub enum PersonhoodError {
    AlreadyVerified,
    Revoked(String),
    DuplicateAttestation,
}

impl PersonhoodError {
    pub open spec fn words(self) -> Seq<char> {
        match self {
            PersonhoodError::AlreadyVerified => "identity is already verified"@,
            PersonhoodError::Revoked(reason) => "identity was revoked: "@ + reason@,
            PersonhoodError::DuplicateAttestation => {
                "this address has already attested this identity"@
            },
        }
    }

    /// The error in words.
    pub fn message(&self) -> (r: String)
        ensures
            r@ == self.words(),
    {
        match self {
            PersonhoodError::AlreadyVerified => "identity is already verified".to_owned(),
            PersonhoodError::Revoked(reason) => {
                crate::text::joined2("identity was revoked: ", reason.as_str())
            },
            PersonhoodError::DuplicateAttestation => {
                "this address has already attested this identity".to_owned()
            },
        }
    }
}

/// The addresses in a list, as texts.
pub open spec fn address_texts(s: Seq<Address>) -> Seq<Seq<char>> {
    Seq::new(s.len(), |i: int| s[i]@)
}

/// Whether a list of addresses holds an address.
pub fn holds_address(list: &Vec<Address>, addr: &Address) -> (r: bool)
    ensures
        r == address_texts(list@).contains(addr@),
{
    let mut i: usize = 0;
    while i < list.len()
        invariant
            i <= list.len(),
            forall|k: int| 0 <= k < i ==> (#[trigger] list@[k])@ != addr@,
        decreases list.len() - i,
    {
        if list[i].same(addr) {
            assert(address_texts(list@)[i as int] == addr@);
            return true;
        }
        i = i + 1;
    }
    proof {
        if address_texts(list@).contains(addr@) {
            let k = choose|k: int|
                0 <= k < address_texts(list@).len() && address_texts(list@)[k] == addr@;
            assert(list@[k]@ == addr@);
        }
    }
    false
}

/// A list of addresses, copied.
pub fn copy_addresses(list: &Vec<Address>) -> (r: Vec<Address>)
    ensures
        address_texts(r@) == address_texts(list@),
        r.len() == list.len(),
{
    let mut r: Vec<Address> = Vec::new();
    let mut i: usize = 0;
    while i < list.len()
        invariant
            i <= list.len(),
            r.len() == i,
            forall|k: int| 0 <= k < i ==> (#[trigger] r@[k])@ == list@[k]@,
        decreases list.len() - i,
    {
        r.push(list[i].clone());
        i = i + 1;
    }
    assert(address_texts(r@) =~= address_texts(list@));
    r
}

/// Where an identity stands in being verified.
#[derive(Debug, PartialEq, Eq)]
pub enum PersonhoodStatus {
    Unverified,
    /// Awaiting attestations.
    Pending { attestations: Vec<Address>, threshold: usize },
    Verified { verified_at_height: u64 },
    Revoked { reason: String },
}

/// A `PersonhoodStatus` with its addresses and texts as characters.
pub enum StatusModel {
    Unverified,
    Pending { attestations: Seq<Seq<char>>, threshold: usize },
    Verified { verified_at_height: u64 },
    Revoked { reason: Seq<char> },
}

impl View for PersonhoodStatus {
    type V = StatusModel;

    open spec fn view(&self) -> StatusModel {
        match *self {
            PersonhoodStatus::Unverified => StatusModel::Unverified,
            PersonhoodStatus::Pending { attestations, threshold } => StatusModel::Pending {
                attestations: address_texts(attestations@),
                threshold,
            },
            PersonhoodStatus::Verified { verified_at_height } => StatusModel::Verified {
                verified_at_height,
            },
            PersonhoodStatus::Revoked { reason } => StatusModel::Revoked { reason: reason@ },
        }
    }
}

impl Clone for PersonhoodStatus {
    fn clone(&self) -> (r: Self)
        ensures
            r@ == self@,
    {
        match self {
            PersonhoodStatus::Unverified => PersonhoodStatus::Unverified,
            PersonhoodStatus::Pending { attestations, threshold } => PersonhoodStatus::Pending {
                attestations: copy_addresses(attestations),
                threshold: *threshold,
            },
            PersonhoodStatus::Verified { verified_at_height } => PersonhoodStatus::Verified {
                verified_at_height: *verified_at_height,
            },
            PersonhoodStatus::Revoked { reason } => PersonhoodStatus::Revoked {
                reason: reason.clone(),
            },
        }
    }
}

/// A standing after one more attestation, if it is taken.
pub open spec fn attested(s: StatusModel, attester: Seq<char>, height: u64) -> Option<StatusModel> {
    match s {
        StatusModel::Verified { verified_at_height: _ } => None,
        StatusModel::Revoked { reason: _ } => None,
        StatusModel::Unverified => Some(
            StatusModel::Pending {
                attestations: seq![attester],
                threshold: ATTESTATION_THRESHOLD,
            },
        ),
        StatusModel::Pending { attestations, threshold } => if attestations.contains(attester) {
            None
        } else if attestations.len() + 1 >= threshold {
            Some(StatusModel::Verified { verified_at_height: height })
        } else {
            Some(StatusModel::Pending { attestations: attestations.push(attester), threshold })
        },
    }
}

/// Three different attesters make an unverified identity verified, at the height of
/// the third and not before; nobody is counted twice; and a standing that is verified
/// or revoked takes no attestation.
pub proof fn three_attesters_verify(
    a: Seq<char>,
    b: Seq<char>,
    c: Seq<char>,
    x: u64,
    y: u64,
    z: u64,
    reason: Seq<char>,
)
    requires
        a != b,
        a != c,
        b != c,
    ensures
        ({
            let one = attested(StatusModel::Unverified, a, x)->0;
            let two = attested(one, b, y)->0;
            &&& attested(StatusModel::Unverified, a, x) is Some && one is Pending
            &&& attested(one, a, y) is None
            &&& attested(one, b, y) is Some && two is Pending
            &&& attested(two, a, z) is None
            &&& attested(two, b, z) is None
            &&& attested(two, c, z) == Some(StatusModel::Verified { verified_at_height: z })
            &&& attested(StatusModel::Verified { verified_at_height: x }, a, y) is None
            &&& attested(StatusModel::Revoked { reason }, a, y) is None
        }),
{
    let first = seq![a];
    let second = first.push(b);
    assert(first[0] == a);
    assert(second[0] == a && second[1] == b);
    assert(!first.contains(b));
    assert(!second.contains(c));
}

impl PersonhoodStatus {
    pub fn is_verified(&self) -> (r: bool)
        ensures
            r == (self@ is Verified),
    {
        match self {
            PersonhoodStatus::Verified { verified_at_height: _ } => true,
            _ => false,
        }
    }

    /// Records an attestation. The first makes an unverified identity pending; the
    /// one that fills the threshold makes it verified.
    pub fn attest(self, attester: Address, height: u64) -> (r: Result<Self, PersonhoodError>)
        ensures
            r is Ok <==> attested(self@, attester@, height) is Some,
            r is Ok ==> attested(self@, attester@, height) == Some(r->Ok_0@),
            match self@ {
                StatusModel::Verified { verified_at_height: _ } => r
                    == Err::<PersonhoodStatus, PersonhoodError>(PersonhoodError::AlreadyVerified),
                StatusModel::Revoked { reason } => r matches Err(PersonhoodError::Revoked(why))
                    && why@ == reason,
                StatusModel::Unverified => r is Ok && r->Ok_0@ == (StatusModel::Pending {
                    attestations: seq![attester@],
                    threshold: ATTESTATION_THRESHOLD,
                }),
                StatusModel::Pending { attestations, threshold } => if attestations.contains(
                    attester@,
                ) {
                    r == Err::<PersonhoodStatus, PersonhoodError>(
                        PersonhoodError::DuplicateAttestation,
                    )
                } else if attestations.len() + 1 >= threshold {
                    r is Ok && r->Ok_0@ == (StatusModel::Verified { verified_at_height: height })
                } else {
                    r is Ok && r->Ok_0@ == (StatusModel::Pending {
                        attestations: attestations.push(attester@),
                        threshold,
                    })
                },
            },
    {
        match self {
            PersonhoodStatus::Verified { verified_at_height: _ } => {
                Err(PersonhoodError::AlreadyVerified)
            },
            PersonhoodStatus::Revoked { reason } => Err(PersonhoodError::Revoked(reason)),
            PersonhoodStatus::Unverified => {
                let mut attestations: Vec<Address> = Vec::new();
                attestations.push(attester);
                assert(address_texts(attestations@) =~= seq![attester@]);
                Ok(
                    PersonhoodStatus::Pending {
                        attestations,
                        threshold: ATTESTATION_THRESHOLD,
                    },
                )
            },
            PersonhoodStatus::Pending { attestations, threshold } => {
                if holds_address(&attestations, &attester) {
                    return Err(PersonhoodError::DuplicateAttestation);
                }
                let ghost before = address_texts(attestations@);
                let mut attestations = attestations;
                attestations.push(attester);
                assert(address_texts(attestations@) =~= before.push(attester@));
                if attestations.len() >= threshold {
                    Ok(PersonhoodStatus::Verified { verified_at_height: height })
                } else {
                    Ok(PersonhoodStatus::Pending { attestations, threshold })
                }
            },
        }
    }
}

/// What an address puts forward as proof of being one human.
#[derive(Debug)]
pub struct PersonhoodProof {
    pub address: Address,
    pub attestations: Vec<Attestation>,
    pub zk_proof: Option<Vec<u8>>,
}

#[derive(Debug)]
pub struct Attestation {
    pub attester: Address,
    pub attestee: Address,
    /// Block height at which the attestation was submitted.
    pub height: u64,
}

impl PersonhoodProof {
    pub fn from_social(address: Address, attestations: Vec<Attestation>) -> (r: Self)
        ensures
            r.address == address,
            r.attestations == attestations,
            r.zk_proof is None,
    {
        PersonhoodProof { address, attestations, zk_proof: None }
    }

    pub fn attestation_count(&self) -> (r: usize)
        ensures
            r == self.attestations@.len(),
    {
        self.attestations.len()
    }
}

} // verus!
