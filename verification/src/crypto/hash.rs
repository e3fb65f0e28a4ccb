//! 32-byte BLAKE3 hashes.
use crate::crypto::error::HexFault;
use crate::crypto::hex_text::{encode_hex, hex_chars, hex_read, read_hex};
use vstd::prelude::*;

verus! {

/// The BLAKE3 hash of a byte string.
pub uninterp spec fn blake3_hash(data: Seq<u8>) -> Seq<u8>;

/// The bytes that an incremental hasher has taken in so far.
pub uninterp spec fn hasher_input(hasher: blake3::Hasher) -> Seq<u8>;

#[verifier::external_type_specification]
#[verifier::external_body]
pub struct ExHasher(blake3::Hasher);

/// `blake3::hash`: a 32-byte function of the input alone.
#[verifier::external_body]
fn blake3_digest(data: &[u8]) -> (r: [u8; 32])
    ensures
        r@ == blake3_hash(data@),
{
    *blake3::hash(data).as_bytes()
}

/// `blake3::Hasher::new`: a hasher that has taken in nothing yet.
#[verifier::external_body]
fn hasher_start() -> (r: blake3::Hasher)
    ensures
        hasher_input(r) == Seq::<u8>::empty(),
{
    blake3::Hasher::new()
}

/// `blake3::Hasher::update`: the bytes join what was taken in before.
#[verifier::external_body]
fn hasher_take(hasher: &mut blake3::Hasher, data: &[u8])
    ensures
        hasher_input(*final(hasher)) == hasher_input(*old(hasher)) + data@,
{
    hasher.update(data);
}

/// `blake3::Hasher::finalize`: the hash of everything taken in, the same as
/// hashing it in one piece.
#[verifier::external_body]
fn hasher_finish(hasher: &blake3::Hasher) -> (r: [u8; 32])
    ensures
        r@ == blake3_hash(hasher_input(*hasher)),
{
    *hasher.finalize().as_bytes()
}

/// A 32-byte BLAKE3 hash.
#[derive(Debug, Clone, Copy, PartialEq, Eq, Hash)]
pub struct Hash([u8; 32]);

/// `Hash` under a name that other modules can import beside std's `Hash`.
pub type Digest = Hash;

impl View for Hash {
    type V = Seq<u8>;

    closed spec fn view(&self) -> Seq<u8> {
        self.0@
    }
}

/// The parts of a message, one after another.
pub open spec fn joined(parts: Seq<&[u8]>) -> Seq<u8>
    decreases parts.len(),
{
    if parts.len() == 0 {
        Seq::empty()
    } else {
        joined(parts.drop_last()) + parts.last()@
    }
}

/// Thirty-two zero bytes.
pub open spec fn zero_hash() -> Seq<u8> {
    Seq::new(32, |i: int| 0u8)
}

impl Hash {
    /// The all-zero hash.
    pub fn zero() -> (r: Self)
        ensures
            r@ == zero_hash(),
    {
        let r = Hash([0u8; 32]);
        assert(r@ =~= zero_hash());
        r
    }

    pub fn digest(data: &[u8]) -> (r: Self)
        ensures
            r@ == blake3_hash(data@),
            r@.len() == 32,
    {
        Hash(blake3_digest(data))
    }

    /// The hash of the parts joined end to end.
    pub fn digest_many(parts: &[&[u8]]) -> (r: Self)
        ensures
            r@ == blake3_hash(joined(parts@)),
            r@.len() == 32,
    {
        let mut hasher = hasher_start();
        let mut i: usize = 0;
        while i < parts.len()
            invariant
                i <= parts.len(),
                hasher_input(hasher) == joined(parts@.take(i as int)),
            decreases parts.len() - i,
        {
            hasher_take(&mut hasher, parts[i]);
            proof {
                let next = parts@.take(i + 1);
                assert(next.drop_last() =~= parts@.take(i as int));
                assert(next.last() == parts@[i as int]);
            }
            i = i + 1;
        }
        proof {
            assert(parts@.take(i as int) =~= parts@);
        }
        Hash(hasher_finish(&hasher))
    }

    pub fn as_bytes(&self) -> (r: &[u8; 32])
        ensures
            r@ == self@,
    {
        &self.0
    }

    pub fn to_hex(&self) -> (r: String)
        ensures
            r@ == hex_chars(self@),
    {
        encode_hex(vstd::array::array_as_slice(&self.0))
    }

    /// Reads 64 hexadecimal digits; anything else is an error.
    pub fn from_hex(s: &str) -> (r: Result<Self, HexFault>)
        ensures
            match hex_read(s@) {
                Ok(bytes) => if bytes.len() == 32 {
                    r is Ok && r->Ok_0@ == bytes
                } else {
                    r == Err::<Hash, HexFault>(HexFault::InvalidStringLength)
                },
                Err(e) => r == Err::<Hash, HexFault>(e),
            },
    {
        match read_hex(s) {
            Ok(bytes) => {
                if bytes.len() != 32 {
                    return Err(HexFault::InvalidStringLength);
                }
                Ok(Hash(array_of_32(bytes.as_slice())))
            },
            Err(e) => Err(e),
        }
    }

    pub fn from_bytes(bytes: [u8; 32]) -> (r: Self)
        ensures
            r@ == bytes@,
    {
        Hash(bytes)
    }

    /// Whether the two hashes are the same bytes.
    pub fn same(&self, other: &Hash) -> (r: bool)
        ensures
            r == (self@ == other@),
    {
        let mut i: usize = 0;
        while i < 32
            invariant
                i <= 32,
                forall|k: int| 0 <= k < i ==> self@[k] == other@[k],
            decreases 32 - i,
        {
            if self.0[i] != other.0[i] {
                assert(self@[i as int] != other@[i as int]);
                return false;
            }
            i = i + 1;
        }
        assert(self@ =~= other@);
        true
    }
}

/// The first 32 bytes of a slice as an array.
pub(crate) fn array_of_32(bytes: &[u8]) -> (r: [u8; 32])
    requires
        bytes@.len() == 32,
    ensures
        r@ == bytes@,
{
    let mut out: [u8; 32] = [0u8; 32];
    let mut i: usize = 0;
    while i < 32
        invariant
            i <= 32,
            bytes@.len() == 32,
            forall|k: int| 0 <= k < i ==> out@[k] == bytes@[k],
        decreases 32 - i,
    {
        out[i] = bytes[i];
        i = i + 1;
    }
    assert(out@ =~= bytes@);
    out
}

impl From<[u8; 32]> for Hash {
    fn from(bytes: [u8; 32]) -> (r: Self) {
        Hash(bytes)
    }
}

impl vstd::std_specs::convert::FromSpecImpl<[u8; 32]> for Hash {
    closed spec fn obeys_from_spec() -> bool {
        true
    }

    closed spec fn from_spec(bytes: [u8; 32]) -> Self {
        Hash(bytes)
    }
}

} // verus!
