//! Total orders on the key types that the ledger's tables are sorted by.
use vstd::prelude::*;
use vstd::string::StringSliceAdditionalSpecFns;

verus! {

/// How one key stands to another.
#[derive(Clone, Copy, PartialEq, Eq, Structural)]
pub enum Rank {
    Below,
    Same,
    Above,
}

/// A type whose values can key a sorted table.
///
/// `precedes` is a strict total order on the keys' views.
pub trait Key: View + Sized {
    spec fn precedes(a: Self::V, b: Self::V) -> bool;

    proof fn order_is_irreflexive(a: Self::V)
        ensures
            !Self::precedes(a, a),
    ;

    proof fn order_is_transitive(a: Self::V, b: Self::V, c: Self::V)
        requires
            Self::precedes(a, b),
            Self::precedes(b, c),
        ensures
            Self::precedes(a, c),
    ;

    proof fn order_is_total(a: Self::V, b: Self::V)
        ensures
            a == b || Self::precedes(a, b) || Self::precedes(b, a),
    ;

    fn rank(&self, other: &Self) -> (r: Rank)
        ensures
            r == (if self@ == other@ {
                Rank::Same
            } else if Self::precedes(self@, other@) {
                Rank::Below
            } else {
                Rank::Above
            }),
    ;

    fn copy_key(&self) -> (r: Self)
        ensures
            r@ == self@,
    ;
}

/// Lexicographic order on byte strings: the first difference decides, and a
/// proper prefix comes first.
pub open spec fn bytes_before(a: Seq<u8>, b: Seq<u8>) -> bool
    decreases a.len(),
{
    if b.len() == 0 {
        false
    } else if a.len() == 0 {
        true
    } else if a[0] != b[0] {
        a[0] < b[0]
    } else {
        bytes_before(a.drop_first(), b.drop_first())
    }
}

pub proof fn bytes_before_irreflexive(a: Seq<u8>)
    ensures
        !bytes_before(a, a),
    decreases a.len(),
{
    if a.len() > 0 {
        bytes_before_irreflexive(a.drop_first());
    }
}

pub proof fn bytes_before_transitive(a: Seq<u8>, b: Seq<u8>, c: Seq<u8>)
    requires
        bytes_before(a, b),
        bytes_before(b, c),
    ensures
        bytes_before(a, c),
    decreases a.len(),
{
    if a.len() > 0 && a[0] == b[0] && b[0] == c[0] {
        bytes_before_transitive(a.drop_first(), b.drop_first(), c.drop_first());
    }
}

pub proof fn bytes_before_total(a: Seq<u8>, b: Seq<u8>)
    ensures
        a == b || bytes_before(a, b) || bytes_before(b, a),
    decreases a.len(),
{
    if a.len() == 0 || b.len() == 0 {
        if a.len() == b.len() {
            assert(a =~= b);
        }
    } else if a[0] == b[0] {
        bytes_before_total(a.drop_first(), b.drop_first());
        if a.drop_first() == b.drop_first() {
            assert(a =~= seq![a[0]] + a.drop_first());
            assert(b =~= seq![b[0]] + b.drop_first());
        }
    }
}

/// A common prefix does not decide the order.
proof fn bytes_before_skips_common_prefix(a: Seq<u8>, b: Seq<u8>, n: nat)
    requires
        n <= a.len(),
        n <= b.len(),
        forall|i: int| 0 <= i < n ==> a[i] == b[i],
    ensures
        bytes_before(a, b) == bytes_before(a.skip(n as int), b.skip(n as int)),
    decreases n,
{
    if n == 0 {
        assert(a.skip(0) =~= a);
        assert(b.skip(0) =~= b);
    } else {
        bytes_before_skips_common_prefix(a.drop_first(), b.drop_first(), (n - 1) as nat);
        assert(a.drop_first().skip(n - 1) =~= a.skip(n as int));
        assert(b.drop_first().skip(n - 1) =~= b.skip(n as int));
    }
}

/// Compares two byte strings lexicographically.
pub fn rank_bytes(a: &[u8], b: &[u8]) -> (r: Rank)
    ensures
        r == (if a@ == b@ {
            Rank::Same
        } else if bytes_before(a@, b@) {
            Rank::Below
        } else {
            Rank::Above
        }),
{
    let shorter: usize = if a.len() < b.len() { a.len() } else { b.len() };
    let mut i: usize = 0;
    while i < shorter && a[i] == b[i]
        invariant
            i <= shorter,
            shorter <= a.len(),
            shorter <= b.len(),
            forall|k: int| 0 <= k < i ==> a@[k] == b@[k],
        decreases shorter - i,
    {
        i = i + 1;
    }
    proof {
        bytes_before_skips_common_prefix(a@, b@, i as nat);
        if a@ == b@ {
            bytes_before_irreflexive(a@);
        }
    }
    if i < shorter {
        if a[i] < b[i] {
            Rank::Below
        } else {
            Rank::Above
        }
    } else if a.len() < b.len() {
        Rank::Below
    } else if b.len() < a.len() {
        Rank::Above
    } else {
        proof {
            assert(a@ =~= b@);
        }
        Rank::Same
    }
}

/// The order that `String` itself has: lexicographic on the UTF-8 bytes.
pub open spec fn text_before(a: Seq<char>, b: Seq<char>) -> bool {
    bytes_before(vstd::utf8::encode_utf8(a), vstd::utf8::encode_utf8(b))
}

pub proof fn utf8_is_injective(a: Seq<char>, b: Seq<char>)
    requires
        vstd::utf8::encode_utf8(a) == vstd::utf8::encode_utf8(b),
    ensures
        a == b,
{
    vstd::utf8::encode_utf8_decode_utf8(a);
    vstd::utf8::encode_utf8_decode_utf8(b);
}

/// Compares two strings as `str` orders them.
pub fn rank_text(a: &str, b: &str) -> (r: Rank)
    ensures
        r == (if a@ == b@ {
            Rank::Same
        } else if text_before(a@, b@) {
            Rank::Below
        } else {
            Rank::Above
        }),
{
    let r = rank_bytes(a.as_bytes(), b.as_bytes());
    proof {
        if a.spec_bytes() == b.spec_bytes() {
            utf8_is_injective(a@, b@);
        }
    }
    r
}

impl Key for String {
    open spec fn precedes(a: Seq<char>, b: Seq<char>) -> bool {
        text_before(a, b)
    }

    proof fn order_is_irreflexive(a: Seq<char>) {
        let bytes = vstd::utf8::encode_utf8(a);
        bytes_before_irreflexive(bytes);
        assert(!bytes_before(bytes, bytes));
        assert(Self::precedes(a, a) == text_before(a, a));
    }

    proof fn order_is_transitive(a: Seq<char>, b: Seq<char>, c: Seq<char>) {
        bytes_before_transitive(
            vstd::utf8::encode_utf8(a),
            vstd::utf8::encode_utf8(b),
            vstd::utf8::encode_utf8(c),
        );
    }

    proof fn order_is_total(a: Seq<char>, b: Seq<char>) {
        bytes_before_total(vstd::utf8::encode_utf8(a), vstd::utf8::encode_utf8(b));
        if vstd::utf8::encode_utf8(a) == vstd::utf8::encode_utf8(b) {
            utf8_is_injective(a, b);
        }
    }

    fn rank(&self, other: &Self) -> (r: Rank) {
        rank_text(self.as_str(), other.as_str())
    }

    fn copy_key(&self) -> (r: Self) {
        self.clone()
    }
}

impl Key for Vec<u8> {
    open spec fn precedes(a: Seq<u8>, b: Seq<u8>) -> bool {
        bytes_before(a, b)
    }

    proof fn order_is_irreflexive(a: Seq<u8>) {
        bytes_before_irreflexive(a);
    }

    proof fn order_is_transitive(a: Seq<u8>, b: Seq<u8>, c: Seq<u8>) {
        bytes_before_transitive(a, b, c);
    }

    proof fn order_is_total(a: Seq<u8>, b: Seq<u8>) {
        bytes_before_total(a, b);
    }

    fn rank(&self, other: &Self) -> (r: Rank) {
        rank_bytes(self.as_slice(), other.as_slice())
    }

    fn copy_key(&self) -> (r: Self) {
        vstd::slice::slice_to_vec(self.as_slice())
    }
}

impl Key for [u8; 16] {
    open spec fn precedes(a: Seq<u8>, b: Seq<u8>) -> bool {
        bytes_before(a, b)
    }

    proof fn order_is_irreflexive(a: Seq<u8>) {
        bytes_before_irreflexive(a);
    }

    proof fn order_is_transitive(a: Seq<u8>, b: Seq<u8>, c: Seq<u8>) {
        bytes_before_transitive(a, b, c);
    }

    proof fn order_is_total(a: Seq<u8>, b: Seq<u8>) {
        bytes_before_total(a, b);
    }

    fn rank(&self, other: &Self) -> (r: Rank) {
        rank_bytes(vstd::array::array_as_slice(self), vstd::array::array_as_slice(other))
    }

    fn copy_key(&self) -> (r: Self) {
        *self
    }
}

impl Key for u64 {
    open spec fn precedes(a: u64, b: u64) -> bool {
        a < b
    }

    proof fn order_is_irreflexive(a: u64) {
    }

    proof fn order_is_transitive(a: u64, b: u64, c: u64) {
    }

    proof fn order_is_total(a: u64, b: u64) {
    }

    fn rank(&self, other: &Self) -> (r: Rank) {
        if *self == *other {
            Rank::Same
        } else if *self < *other {
            Rank::Below
        } else {
            Rank::Above
        }
    }

    fn copy_key(&self) -> (r: Self) {
        *self
    }
}

/// The first difference decides which of two byte strings comes first, and a string
/// comes before those that go on where it ends.
pub proof fn the_first_difference_decides(p: Seq<u8>, c: u8, x: Seq<u8>, d: u8, y: Seq<u8>)
    ensures
        c != d ==> (bytes_before(p.push(c) + x, p.push(d) + y) <==> c < d),
        bytes_before(p, p.push(c) + x),
        !bytes_before(p.push(c) + x, p),
    decreases p.len(),
{
    let a = p.push(c) + x;
    let b = p.push(d) + y;
    if p.len() > 0 {
        let q = p.drop_first();
        the_first_difference_decides(q, c, x, d, y);
        assert(a.drop_first() =~= q.push(c) + x);
        assert(b.drop_first() =~= q.push(d) + y);
        assert(a[0] == p[0] && b[0] == p[0]);
    } else {
        assert(a[0] == c && b[0] == d);
    }
}

/// Texts are ordered by their bytes.
pub proof fn texts_are_ordered_by_bytes(a: Seq<char>, b: Seq<char>)
    ensures
        text_before(a, b) == bytes_before(
            vstd::utf8::encode_utf8(a),
            vstd::utf8::encode_utf8(b),
        ),
{
}

} // verus!
