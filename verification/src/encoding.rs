//! Little-endian numbers and length-prefixed bytes.
use vstd::prelude::*;

verus! {

/// The `width` low-order base-256 digits of a number, lowest first.
pub open spec fn le_bytes(n: nat, width: nat) -> Seq<u8>
    decreases width,
{
    if width == 0 {
        Seq::empty()
    } else {
        seq![(n % 256) as u8] + le_bytes(n / 256, (width - 1) as nat)
    }
}

/// The number whose base-256 digits these are, lowest first.
pub open spec fn le_value(b: Seq<u8>) -> nat
    decreases b.len(),
{
    if b.len() == 0 {
        0
    } else {
        b[0] as nat + 256 * le_value(b.drop_first())
    }
}

/// 256 to the power of `width`.
pub open spec fn le_limit(width: nat) -> nat
    decreases width,
{
    if width == 0 {
        1
    } else {
        256 * le_limit((width - 1) as nat)
    }
}

pub proof fn le_bytes_len(n: nat, width: nat)
    ensures
        le_bytes(n, width).len() == width,
    decreases width,
{
    if width > 0 {
        le_bytes_len(n / 256, (width - 1) as nat);
    }
}

pub proof fn le_value_bound(b: Seq<u8>)
    ensures
        le_value(b) < le_limit(b.len()),
    decreases b.len(),
{
    if b.len() > 0 {
        le_value_bound(b.drop_first());
    }
}

/// A number that fits is read back from its digits.
pub proof fn le_reads_back(n: nat, width: nat)
    requires
        n < le_limit(width),
    ensures
        le_value(le_bytes(n, width)) == n,
    decreases width,
{
    if width > 0 {
        let rest = le_bytes(n / 256, (width - 1) as nat);
        le_reads_back(n / 256, (width - 1) as nat);
        assert(le_bytes(n, width).drop_first() =~= rest);
    }
}

/// Digits are written back from their number.
pub proof fn le_writes_back(b: Seq<u8>)
    ensures
        le_bytes(le_value(b), b.len()) == b,
    decreases b.len(),
{
    if b.len() > 0 {
        let rest = le_value(b.drop_first());
        le_writes_back(b.drop_first());
        assert((b[0] as nat + 256 * rest) % 256 == b[0] as nat);
        assert((b[0] as nat + 256 * rest) / 256 == rest);
        assert(le_bytes(le_value(b), b.len()) =~= b);
    } else {
        assert(le_bytes(le_value(b), 0) =~= b);
    }
}

pub proof fn le_limits()
    ensures
        le_limit(2) == 0x1_0000,
        le_limit(4) == 0x1_0000_0000,
        le_limit(8) == 0x1_0000_0000_0000_0000,
{
    reveal_with_fuel(le_limit, 9);
}

/// Appends the eight little-endian bytes of a number.
pub fn push_u64(out: &mut Vec<u8>, n: u64)
    ensures
        final(out)@ == old(out)@ + le_bytes(n as nat, 8),
{
    push_le(out, n, 8);
}

/// Appends the four little-endian bytes of a number.
pub fn push_u32(out: &mut Vec<u8>, n: u32)
    ensures
        final(out)@ == old(out)@ + le_bytes(n as nat, 4),
{
    push_le(out, n as u64, 4);
}

/// Appends the two little-endian bytes of a number.
pub fn push_u16(out: &mut Vec<u8>, n: u16)
    ensures
        final(out)@ == old(out)@ + le_bytes(n as nat, 2),
{
    push_le(out, n as u64, 2);
}

fn push_le(out: &mut Vec<u8>, n: u64, width: usize)
    ensures
        final(out)@ == old(out)@ + le_bytes(n as nat, width as nat),
{
    let ghost start = out@;
    let mut rest: u64 = n;
    let mut left: usize = width;
    while left > 0
        invariant
            out@ + le_bytes(rest as nat, left as nat) == start + le_bytes(n as nat, width as nat),
        decreases left,
    {
        let ghost before = out@;
        let ghost tail = le_bytes((rest / 256) as nat, (left - 1) as nat);
        out.push((rest % 256) as u8);
        proof {
            assert(before + (seq![(rest % 256) as u8] + tail) =~= out@ + tail);
        }
        rest = rest / 256;
        left = left - 1;
    }
    proof {
        assert(out@ + le_bytes(rest as nat, 0) =~= out@);
    }
}

/// The number that up to eight little-endian bytes spell.
pub fn read_le(bytes: &[u8]) -> (r: u64)
    requires
        bytes@.len() <= 8,
    ensures
        r == le_value(bytes@),
{
    let mut i: usize = bytes.len();
    let mut value: u64 = 0;
    proof {
        assert(bytes@.skip(i as int) =~= Seq::<u8>::empty());
    }
    while i > 0
        invariant
            i <= bytes@.len() <= 8,
            value == le_value(bytes@.skip(i as int)),
        decreases i,
    {
        proof {
            let tail = bytes@.skip(i as int);
            let longer = bytes@.skip(i - 1);
            assert(longer.drop_first() =~= tail);
            le_value_bound(longer);
            limit_is_monotone(longer.len(), 8);
            le_limits();
        }
        i = i - 1;
        value = bytes[i] as u64 + 256 * value;
    }
    proof {
        assert(bytes@.skip(0) =~= bytes@);
    }
    value
}

proof fn limit_is_monotone(a: nat, b: nat)
    requires
        a <= b,
    ensures
        le_limit(a) <= le_limit(b),
        1 <= le_limit(a),
    decreases b,
{
    if a < b {
        limit_is_monotone(a, (b - 1) as nat);
    } else if a > 0 {
        limit_is_monotone((a - 1) as nat, (b - 1) as nat);
    }
}

/// Appends some bytes.
pub fn push_raw(out: &mut Vec<u8>, bytes: &[u8])
    ensures
        final(out)@ == old(out)@ + bytes@,
{
    let mut part = vstd::slice::slice_to_vec(bytes);
    out.append(&mut part);
}

/// A byte string behind its length.
pub open spec fn counted(bytes: Seq<u8>) -> Seq<u8> {
    le_bytes(bytes.len(), 8) + bytes
}

/// Appends a byte string behind its length.
pub fn push_counted(out: &mut Vec<u8>, bytes: &[u8])
    ensures
        final(out)@ == old(out)@ + counted(bytes@),
{
    let ghost start = out@;
    push_u64(out, bytes.len() as u64);
    push_raw(out, bytes);
    proof {
        assert(out@ =~= start + counted(bytes@));
    }
}

} // verus!
