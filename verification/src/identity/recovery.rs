//! Social recovery: guardians who can together hand an address to a new key.
use crate::crypto::{Address, PublicKey};
use crate::identity::personhood::{address_texts, copy_addresses, holds_address};
use vstd::prelude::*;

verus! {

pub const MIN_GUARDIANS: usize = 3;

pub const MAX_GUARDIANS: usize = 10;

#[derive(Debug, Clone, Copy, PartialEq, Eq, Structural)]
pub enum RecoveryError {
    TooFewGuardians,
    TooManyGuardians,
    DuplicateGuardian,
    SelfGuardian,
    NotAGuardian,
    DuplicateApproval,
}

impl RecoveryError {
    pub open spec fn words(self) -> Seq<char> {
        match self {
            RecoveryError::TooFewGuardians => "at least 3 guardians are required"@,
            RecoveryError::TooManyGuardians => "at most 10 guardians are allowed"@,
            RecoveryError::DuplicateGuardian => "duplicate guardian address"@,
            RecoveryError::SelfGuardian => "an address cannot be its own guardian"@,
            RecoveryError::NotAGuardian => {
                "sender is not a registered guardian for this address"@
            },
            RecoveryError::DuplicateApproval => {
                "this guardian has already approved this recovery request"@
            },
        }
    }

    /// The error in words.
    pub fn message(&self) -> (r: String)
        ensures
            r@ == self.words(),
    {
        match self {
            RecoveryError::TooFewGuardians => "at least 3 guardians are required".to_owned(),
            RecoveryError::TooManyGuardians => "at most 10 guardians are allowed".to_owned(),
            RecoveryError::DuplicateGuardian => "duplicate guardian address".to_owned(),
            RecoveryError::SelfGuardian => "an address cannot be its own guardian".to_owned(),
            RecoveryError::NotAGuardian => {
                "sender is not a registered guardian for this address".to_owned()
            },
            RecoveryError::DuplicateApproval => {
                "this guardian has already approved this recovery request".to_owned()
            },
        }
    }
}

/// The guardians of an address.
#[derive(Debug, PartialEq, Eq)]
pub struct GuardianSet {
    pub guardians: Vec<Address>,
}

impl View for GuardianSet {
    type V = Seq<Seq<char>>;

    open spec fn view(&self) -> Seq<Seq<char>> {
        address_texts(self.guardians@)
    }
}

impl Clone for GuardianSet {
    fn clone(&self) -> (r: Self)
        ensures
            r@ == self@,
    {
        GuardianSet { guardians: copy_addresses(&self.guardians) }
    }
}

/// What is wrong with a choice of guardians, if anything.
pub open spec fn guardian_fault(
    owner: Seq<char>,
    guardians: Seq<Seq<char>>,
) -> Option<RecoveryError> {
    if guardians.len() < MIN_GUARDIANS {
        Some(RecoveryError::TooFewGuardians)
    } else if guardians.len() > MAX_GUARDIANS {
        Some(RecoveryError::TooManyGuardians)
    } else if guardians.contains(owner) {
        Some(RecoveryError::SelfGuardian)
    } else if !guardians.no_duplicates() {
        Some(RecoveryError::DuplicateGuardian)
    } else {
        None
    }
}

/// Three fifths of a number of guardians, rounded up.
pub open spec fn quorum_of(n: nat) -> nat {
    ((n * 3 + 4) / 5) as nat
}

/// Three of five, rounded up, without a product that could outgrow the machine's numbers.
pub(crate) fn three_fifths(n: usize) -> (r: usize)
    ensures
        r == quorum_of(n as nat),
{
    n / 5 * 3 + (n % 5 * 3 + 4) / 5
}

/// The quorum is the least number that is at least three fifths of all.
pub proof fn quorum_is_the_least(n: nat, r: nat)
    ensures
        5 * quorum_of(n) >= 3 * n,
        5 * r >= 3 * n ==> r >= quorum_of(n),
        quorum_of(0) == 0,
{
}

impl GuardianSet {
    pub fn new(owner: &Address, guardians: Vec<Address>) -> (r: Result<Self, RecoveryError>)
        ensures
            match r {
                Ok(set) => {
                    &&& guardian_fault(owner@, address_texts(guardians@)) is None
                    &&& set@ == address_texts(guardians@)
                },
                Err(e) => guardian_fault(owner@, address_texts(guardians@)) == Some(e),
            },
    {
        if guardians.len() < MIN_GUARDIANS {
            return Err(RecoveryError::TooFewGuardians);
        }
        if guardians.len() > MAX_GUARDIANS {
            return Err(RecoveryError::TooManyGuardians);
        }
        if holds_address(&guardians, owner) {
            return Err(RecoveryError::SelfGuardian);
        }
        let ghost texts = address_texts(guardians@);
        let mut seen: crate::table::KeySet<Address> = crate::table::KeySet::new();
        let mut i: usize = 0;
        while i < guardians.len()
            invariant
                i <= guardians.len(),
                texts == address_texts(guardians@),
                guardian_fault(owner@, texts) is None || guardian_fault(owner@, texts)
                    == Some(RecoveryError::DuplicateGuardian),
                forall|k: Seq<char>| #[trigger]
                    seen@.contains(k) <==> texts.take(i as int).contains(k),
                forall|a: int, b: int| 0 <= a < i && 0 <= b < i && a != b ==> texts[a] != texts[b],
            decreases guardians.len() - i,
        {
            let ghost here = texts[i as int];
            let ghost was = seen@;
            if !seen.insert(guardians[i].clone()) {
                proof {
                    let k = choose|k: int| 0 <= k < i && texts.take(i as int)[k] == here;
                    assert(texts[k] == texts[i as int]);
                }
                return Err(RecoveryError::DuplicateGuardian);
            }
            proof {
                assert(!texts.take(i as int).contains(here));
                assert forall|k: Seq<char>| #[trigger] seen@.contains(k) <==> texts.take(
                    i + 1,
                ).contains(k) by {
                    if texts.take(i as int).contains(k) {
                        let j = choose|j: int| 0 <= j < i && texts.take(i as int)[j] == k;
                        assert(texts.take(i + 1)[j] == k);
                    }
                    if k == here {
                        assert(texts.take(i + 1)[i as int] == k);
                    }
                    if texts.take(i + 1).contains(k) {
                        let j = choose|j: int| 0 <= j < i + 1 && #[trigger] texts.take(i + 1)[j] == k;
                        if j < i {
                            assert(texts.take(i as int)[j] == k);
                        }
                    }
                    assert(was.contains(k) <==> texts.take(i as int).contains(k));
                }
                assert forall|a: int| 0 <= a < i implies texts[a] != here by {
                    assert(texts.take(i as int)[a] == texts[a]);
                }
            }
            i = i + 1;
        }
        assert(texts.no_duplicates());
        Ok(GuardianSet { guardians })
    }

    /// How many guardians have to agree: three of five, rounded up.
    pub fn threshold(&self) -> (r: usize)
        ensures
            r == quorum_of(self@.len()),
    {
        three_fifths(self.guardians.len())
    }

    pub fn contains(&self, addr: &Address) -> (r: bool)
        ensures
            r == self@.contains(addr@),
    {
        holds_address(&self.guardians, addr)
    }
}

/// A vote of guardians on a new key.
#[derive(Debug, PartialEq, Eq)]
pub struct RecoveryRequest {
    pub new_public_key: PublicKey,
    pub approvals: Vec<Address>,
}

/// A `RecoveryRequest` as bytes and texts.
pub struct RequestModel {
    pub new_public_key: Seq<u8>,
    pub approvals: Seq<Seq<char>>,
}

impl View for RecoveryRequest {
    type V = RequestModel;

    open spec fn view(&self) -> RequestModel {
        RequestModel {
            new_public_key: self.new_public_key@,
            approvals: address_texts(self.approvals@),
        }
    }
}

impl Clone for RecoveryRequest {
    fn clone(&self) -> (r: Self)
        ensures
            r@ == self@,
    {
        RecoveryRequest {
            new_public_key: self.new_public_key.clone(),
            approvals: copy_addresses(&self.approvals),
        }
    }
}

/// A vote after one more approval, if it is taken, and whether it has reached the threshold.
pub open spec fn vote_joined(q: RequestModel, guardian: Seq<char>, threshold: usize) -> Option<
    (RequestModel, bool),
> {
    if q.approvals.contains(guardian) {
        None
    } else {
        Some(
            (
                RequestModel { approvals: q.approvals.push(guardian), ..q },
                q.approvals.len() + 1 >= threshold,
            ),
        )
    }
}

/// An approval is taken once from each guardian, for the key that the vote is on; the
/// threshold is reached exactly with that many approvals.
pub proof fn approvals_are_counted(
    q: RequestModel,
    guardian: Seq<char>,
    other: Seq<char>,
    threshold: usize,
)
    requires
        !q.approvals.contains(guardian),
    ensures
        ({
            let (t, reached) = vote_joined(q, guardian, threshold)->0;
            &&& vote_joined(q, guardian, threshold) is Some
            &&& vote_joined(t, guardian, threshold) is None
            &&& t.new_public_key == q.new_public_key
            &&& t.approvals.len() == q.approvals.len() + 1
            &&& t.approvals.contains(other) <==> q.approvals.contains(other) || other == guardian
            &&& reached <==> t.approvals.len() >= threshold
        }),
{
    let t = q.approvals.push(guardian);
    assert(t[q.approvals.len() as int] == guardian);
    if q.approvals.contains(other) {
        let i = choose|i: int| 0 <= i < q.approvals.len() && q.approvals[i] == other;
        assert(t[i] == other);
    }
    if t.contains(other) && other != guardian {
        let i = choose|i: int| 0 <= i < t.len() && t[i] == other;
        assert(q.approvals[i] == other);
    }
}

impl RecoveryRequest {
    pub fn new(new_public_key: PublicKey) -> (r: Self)
        ensures
            r@ == (RequestModel {
                new_public_key: new_public_key@,
                approvals: Seq::<Seq<char>>::empty(),
            }),
    {
        let r = RecoveryRequest { new_public_key, approvals: Vec::new() };
        assert(r@.approvals =~= Seq::<Seq<char>>::empty());
        r
    }

    /// Records a guardian's approval, and says whether the threshold is reached.
    pub fn approve(&mut self, guardian: Address, threshold: usize) -> (r: Result<
        bool,
        RecoveryError,
    >)
        ensures
            r is Ok <==> vote_joined(old(self)@, guardian@, threshold) is Some,
            r is Ok ==> vote_joined(old(self)@, guardian@, threshold) == Some(
                (final(self)@, r->Ok_0),
            ),
            if old(self)@.approvals.contains(guardian@) {
                &&& r == Err::<bool, RecoveryError>(RecoveryError::DuplicateApproval)
                &&& final(self)@ == old(self)@
            } else {
                &&& final(self)@ == (RequestModel {
                    new_public_key: old(self)@.new_public_key,
                    approvals: old(self)@.approvals.push(guardian@),
                })
                &&& r == Ok::<bool, RecoveryError>(old(self)@.approvals.len() + 1 >= threshold)
            },
    {
        if holds_address(&self.approvals, &guardian) {
            return Err(RecoveryError::DuplicateApproval);
        }
        self.approvals.push(guardian);
        proof {
            assert(self@.approvals =~= old(self)@.approvals.push(guardian@));
        }
        Ok(self.approvals.len() >= threshold)
    }
}

/// A set that was accepted holds three to ten different guardians, none of them
/// the owner, and its quorum is a majority of them.
pub proof fn accepted_guardians(owner: Seq<char>, guardians: Seq<Seq<char>>)
    requires
        guardian_fault(owner, guardians) is None,
    ensures
        MIN_GUARDIANS <= guardians.len() <= MAX_GUARDIANS,
        guardians.no_duplicates(),
        !guardians.contains(owner),
        guardians.len() < 2 * quorum_of(guardians.len()),
        quorum_of(guardians.len()) <= guardians.len(),
{
}

} // verus!
