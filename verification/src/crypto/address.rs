//! Account addresses.
use crate::crypto::error::{CryptoError, CryptoFault, CryptoResult};
use crate::crypto::hash::{blake3_hash, Digest};
use crate::crypto::keys::{same_bytes, PublicKey};
use crate::order::{rank_text, text_before, Key, Rank};
use vstd::prelude::*;
use vstd::string::StrSliceExecFns;

verus! {

pub const CHECKSUM_LEN: usize = 4;

/// Version byte, body and checksum.
pub const ADDRESS_DATA_LEN: usize = 25;

/// The base58 text of a byte string.
pub uninterp spec fn base58_text(data: Seq<u8>) -> Seq<char>;

/// The bytes that a base58 text stands for, or the decoder's words on what is wrong with it.
pub uninterp spec fn base58_data(text: Seq<char>) -> Result<Seq<u8>, Seq<char>>;

/// `bs58::encode(..).into_string()`: the base58 text of the bytes, which
/// `bs58::decode` turns back into them.
#[verifier::external_body]
fn base58_encode(data: &[u8]) -> (r: String)
    ensures
        r@ == base58_text(data@),
        base58_data(r@) is Ok,
        base58_data(r@)->Ok_0 == data@,
{
    bs58::encode(data).into_string()
}

/// `bs58::decode(..).into_vec()`: a function of the text alone; an error is
/// given by its text.
#[verifier::external_body]
fn base58_decode(text: &str) -> (r: Result<Vec<u8>, String>)
    ensures
        match r {
            Ok(v) => base58_data(text@) == Ok::<Seq<u8>, Seq<char>>(v@),
            Err(e) => base58_data(text@) == Err::<Seq<u8>, Seq<char>>(e@),
        },
{
    match bs58::decode(text).into_vec() {
        Ok(v) => Ok(v),
        Err(e) => Err(e.to_string()),
    }
}

/// An account address: `hlx` and the base58 form of a version byte, the first
/// twenty bytes of the key's hash and a checksum.
#[derive(Debug, PartialEq, Eq, PartialOrd, Ord, Hash)]
pub struct Address(String);

impl View for Address {
    type V = Seq<char>;

    closed spec fn view(&self) -> Seq<char> {
        self.0@
    }
}

impl Clone for Address {
    fn clone(&self) -> (r: Self)
        ensures
            r@ == self@,
    {
        proof {
            use_type_invariant(self);
        }
        Address(self.0.clone())
    }
}

/// Version one and the first twenty bytes of the key's hash.
pub open spec fn address_payload(key: Seq<u8>) -> Seq<u8> {
    seq![1u8] + blake3_hash(key).take(20)
}

/// The first four bytes of the double hash.
pub open spec fn checksum_of(payload: Seq<u8>) -> Seq<u8> {
    blake3_hash(blake3_hash(payload)).take(4)
}

/// The address of a public key.
pub open spec fn address_of(key: Seq<u8>) -> Seq<char> {
    "hlx"@ + base58_text(address_payload(key) + checksum_of(address_payload(key)))
}

/// What is wrong with decoded address data, if anything.
pub open spec fn data_fault(data: Seq<u8>) -> Option<CryptoFault> {
    if data.len() < ADDRESS_DATA_LEN {
        Some(CryptoFault::InvalidAddress("too short"@))
    } else if data.skip(data.len() - CHECKSUM_LEN) != checksum_of(
        data.take(data.len() - CHECKSUM_LEN),
    ) {
        Some(CryptoFault::InvalidAddress("checksum mismatch"@))
    } else {
        None
    }
}

/// What is wrong with a text as an address, if anything.
pub open spec fn address_fault(text: Seq<char>) -> Option<CryptoFault> {
    if !("hlx"@.is_prefix_of(text)) {
        Some(CryptoFault::InvalidAddress("missing 'hlx' prefix"@))
    } else {
        match base58_data(text.skip(3)) {
            Err(words) => Some(CryptoFault::InvalidAddress(words)),
            Ok(data) => data_fault(data),
        }
    }
}

fn starts_with_hlx(s: &str) -> (r: bool)
    ensures
        r == "hlx"@.is_prefix_of(s@),
        r ==> s@.len() >= 3,
{
    proof {
        reveal_strlit("hlx");
    }
    let n: usize = s.unicode_len();
    if n < 3 {
        return false;
    }
    let r = s.get_char(0) == 'h' && s.get_char(1) == 'l' && s.get_char(2) == 'x';
    proof {
        if r {
            assert("hlx"@ =~= s@.subrange(0, 3));
        } else if "hlx"@.is_prefix_of(s@) {
            assert("hlx"@[0] == s@[0] && "hlx"@[1] == s@[1] && "hlx"@[2] == s@[2]);
        }
    }
    r
}

/// Checks the length and the checksum of decoded address data.
pub fn check_address_data(data: &[u8]) -> (r: CryptoResult<()>)
    ensures
        match r {
            Ok(()) => data_fault(data@) is None,
            Err(e) => data_fault(data@) == Some(e@),
        },
{
    if data.len() < ADDRESS_DATA_LEN {
        return Err(CryptoError::InvalidAddress("too short".to_owned()));
    }
    let split: usize = data.len() - CHECKSUM_LEN;
    let payload = vstd::slice::slice_subrange(data, 0, split);
    let checksum = vstd::slice::slice_subrange(data, split, data.len());
    let expected = checksum_bytes(payload);
    proof {
        assert(payload@ =~= data@.take(split as int));
        assert(checksum@ =~= data@.skip(split as int));
    }
    if !same_bytes(checksum, expected.as_slice()) {
        return Err(CryptoError::InvalidAddress("checksum mismatch".to_owned()));
    }
    Ok(())
}

/// The first `n` bytes of a hash.
fn hash_head(h: &Digest, n: usize) -> (r: Vec<u8>)
    requires
        h@.len() == 32,
        n <= 32,
    ensures
        r@ == h@.take(n as int),
{
    let all = vstd::array::array_as_slice(h.as_bytes());
    let r = vstd::slice::slice_to_vec(vstd::slice::slice_subrange(all, 0, n));
    proof {
        assert(r@ =~= h@.take(n as int));
    }
    r
}

fn checksum_bytes(payload: &[u8]) -> (r: Vec<u8>)
    ensures
        r@ == checksum_of(payload@),
        r@.len() == 4,
{
    let once = Digest::digest(payload);
    let twice = Digest::digest(vstd::array::array_as_slice(once.as_bytes()));
    hash_head(&twice, CHECKSUM_LEN)
}

impl Address {
    #[verifier::type_invariant]
    spec fn well_formed(self) -> bool {
        address_fault(self.0@) is None
    }

    /// The address of a public key (version 1).
    pub fn from_public_key(pk: &PublicKey) -> (r: Self)
        ensures
            r@ == address_of(pk@),
            address_fault(r@) is None,
            decoded_version(r@) == Some(1u8),
    {
        let full_hash = Digest::digest(pk.as_bytes());
        let body = hash_head(&full_hash, 20);
        let mut data: Vec<u8> = Vec::new();
        // The version byte is part of the checksum's input, so changing it is detected.
        data.push(1u8);
        let mut body_part = body;
        data.append(&mut body_part);
        let ghost payload = data@;
        proof {
            assert(payload =~= address_payload(pk@));
        }
        let mut checksum = checksum_bytes(data.as_slice());
        data.append(&mut checksum);
        let encoded = base58_encode(data.as_slice());
        let text = crate::text::joined2("hlx", encoded.as_str());
        proof {
            reveal_strlit("hlx");
            assert(data@ =~= payload + checksum_of(payload));
            assert(data@.take(21) =~= payload);
            assert(data@.skip(21) =~= checksum_of(payload));
            assert(text@.skip(3) =~= encoded@);
            assert("hlx"@ =~= text@.subrange(0, 3));
        }
        Address(text)
    }

    pub fn as_str(&self) -> (r: &str)
        ensures
            r@ == self@,
            address_fault(self@) is None,
    {
        proof {
            use_type_invariant(self);
        }
        self.0.as_str()
    }

    /// The address as a string of its own.
    pub fn to_string(&self) -> (r: String)
        ensures
            r@ == self@,
            address_fault(self@) is None,
    {
        proof {
            use_type_invariant(self);
        }
        self.0.clone()
    }

    /// Reads an address, checking its prefix, its encoding and its checksum.
    pub fn from_str(s: &str) -> (r: CryptoResult<Self>)
        ensures
            match r {
                Ok(a) => address_fault(s@) is None && a@ == s@,
                Err(e) => address_fault(s@) == Some(e@),
            },
    {
        if !starts_with_hlx(s) {
            return Err(CryptoError::InvalidAddress("missing 'hlx' prefix".to_owned()));
        }
        let encoded = s.substring_char(3, s.unicode_len());
        proof {
            assert(encoded@ =~= s@.skip(3));
        }
        match base58_decode(encoded) {
            Err(words) => Err(CryptoError::InvalidAddress(words)),
            Ok(data) => match check_address_data(data.as_slice()) {
                Ok(()) => Ok(Address(s.to_owned())),
                Err(e) => Err(e),
            },
        }
    }

    /// The version byte, which says which signing algorithm the address is for.
    pub fn version(&self) -> (r: Option<u8>)
        ensures
            r == decoded_version(self@),
            r is Some,
    {
        proof {
            use_type_invariant(self);
            reveal_strlit("hlx");
        }
        let s = self.0.as_str();
        let encoded = s.substring_char(3, s.unicode_len());
        proof {
            assert(encoded@ =~= self@.skip(3));
        }
        match base58_decode(encoded) {
            Ok(data) => if data.len() > 0 {
                Some(data[0])
            } else {
                None
            },
            Err(_) => None,
        }
    }

    pub fn same(&self, other: &Address) -> (r: bool)
        ensures
            r == (self@ == other@),
    {
        self.0 == other.0
    }
}

/// The first byte behind the prefix, if it decodes to any.
pub open spec fn decoded_version(text: Seq<char>) -> Option<u8> {
    match base58_data(text.skip(3)) {
        Ok(data) => if data.len() > 0 {
            Some(data[0])
        } else {
            None
        },
        Err(_) => None,
    }
}

impl Key for Address {
    open spec fn precedes(a: Seq<char>, b: Seq<char>) -> bool {
        text_before(a, b)
    }

    proof fn order_is_irreflexive(a: Seq<char>) {
        <String as Key>::order_is_irreflexive(a);
    }

    proof fn order_is_transitive(a: Seq<char>, b: Seq<char>, c: Seq<char>) {
        <String as Key>::order_is_transitive(a, b, c);
    }

    proof fn order_is_total(a: Seq<char>, b: Seq<char>) {
        <String as Key>::order_is_total(a, b);
    }

    fn rank(&self, other: &Self) -> (r: Rank) {
        rank_text(self.0.as_str(), other.0.as_str())
    }

    fn copy_key(&self) -> (r: Self) {
        self.clone()
    }
}

} // verus!
