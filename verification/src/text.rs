//! Text built from pieces.
use vstd::prelude::*;
use vstd::string::StringExecFns;

verus! {

/// The decimal digits of a number, most significant first.
pub open spec fn decimal(n: nat) -> Seq<char>
    decreases n,
{
    if n < 10 {
        seq![(48 + n) as char]
    } else {
        decimal(n / 10).push((48 + n % 10) as char)
    }
}

fn digit_text(d: u64) -> (r: &'static str)
    requires
        d < 10,
    ensures
        r@ == seq![(48 + d) as char],
{
    proof {
        reveal_strlit("0");
        reveal_strlit("1");
        reveal_strlit("2");
        reveal_strlit("3");
        reveal_strlit("4");
        reveal_strlit("5");
        reveal_strlit("6");
        reveal_strlit("7");
        reveal_strlit("8");
        reveal_strlit("9");
    }
    let r = match d {
        0 => "0",
        1 => "1",
        2 => "2",
        3 => "3",
        4 => "4",
        5 => "5",
        6 => "6",
        7 => "7",
        8 => "8",
        _ => "9",
    };
    proof {
        assert(r@ =~= seq![(48 + d) as char]);
    }
    r
}

/// A number in decimal.
pub fn decimal_text(n: u64) -> (r: String)
    ensures
        r@ == decimal(n as nat),
    decreases n,
{
    if n < 10 {
        digit_text(n).to_owned()
    } else {
        let mut r = decimal_text(n / 10);
        r.append(digit_text(n % 10));
        proof {
            assert(r@ =~= decimal((n / 10) as nat).push((48 + n % 10) as char));
        }
        r
    }
}

/// `std::str::from_utf8`: the text that the bytes encode, if they are valid UTF-8.
#[verifier::external_body]
pub(crate) fn utf8_text(bytes: &[u8]) -> (r: Option<String>)
    ensures
        match r {
            Some(s) => vstd::utf8::valid_utf8(bytes@) && s@ == vstd::utf8::decode_utf8(bytes@),
            None => !vstd::utf8::valid_utf8(bytes@),
        },
{
    match std::str::from_utf8(bytes) {
        Ok(s) => Some(s.to_owned()),
        Err(_) => None,
    }
}

pub fn same_text(a: &str, b: &str) -> (r: bool)
    ensures
        r == (a@ == b@),
{
    a.to_owned() == b.to_owned()
}

pub fn joined2(a: &str, b: &str) -> (r: String)
    ensures
        r@ == a@ + b@,
{
    let mut r = a.to_owned();
    r.append(b);
    r
}

pub fn joined3(a: &str, b: &str, c: &str) -> (r: String)
    ensures
        r@ == a@ + b@ + c@,
{
    let mut r = a.to_owned();
    r.append(b);
    r.append(c);
    r
}

pub fn joined4(a: &str, b: &str, c: &str, d: &str) -> (r: String)
    ensures
        r@ == a@ + b@ + c@ + d@,
{
    let mut r = a.to_owned();
    r.append(b);
    r.append(c);
    r.append(d);
    r
}

pub fn joined5(a: &str, b: &str, c: &str, d: &str, e: &str) -> (r: String)
    ensures
        r@ == a@ + b@ + c@ + d@ + e@,
{
    let mut r = a.to_owned();
    r.append(b);
    r.append(c);
    r.append(d);
    r.append(e);
    r
}

/// Where the first line feed stands, or the length if there is none.
pub open spec fn newline_at(b: Seq<u8>) -> int
    decreases b.len(),
{
    if b.len() == 0 || b[0] == 10 {
        0
    } else {
        1 + newline_at(b.drop_first())
    }
}

/// A line without a carriage return at its end.
pub open spec fn without_return(b: Seq<u8>) -> Seq<u8> {
    if b.len() > 0 && b.last() == 13 {
        b.drop_last()
    } else {
        b
    }
}

/// The lines of a text: each ends at a line feed, which a carriage return may
/// precede; the last may end with the text.
pub open spec fn byte_lines(b: Seq<u8>) -> Seq<Seq<u8>>
    decreases b.len(),
{
    if b.len() == 0 {
        Seq::empty()
    } else if newline_at(b) >= b.len() || newline_at(b) < 0 {
        seq![b]
    } else {
        seq![without_return(b.take(newline_at(b)))] + byte_lines(b.skip(newline_at(b) + 1))
    }
}

/// The lines of a text, decoded.
pub open spec fn lines_of(b: Seq<u8>) -> Seq<Seq<char>> {
    byte_lines(b).map_values(|l: Seq<u8>| vstd::utf8::decode_utf8(l))
}

pub open spec fn texts(s: Seq<String>) -> Seq<Seq<char>> {
    Seq::new(s.len(), |i: int| s[i]@)
}

proof fn newline_at_facts(b: Seq<u8>)
    ensures
        0 <= newline_at(b) <= b.len(),
        newline_at(b) < b.len() ==> b[newline_at(b)] == 10,
        forall|i: int| 0 <= i < newline_at(b) ==> b[i] != 10,
    decreases b.len(),
{
    if b.len() > 0 && b[0] != 10 {
        newline_at_facts(b.drop_first());
        assert forall|i: int| 0 <= i < newline_at(b) implies b[i] != 10 by {
            if i > 0 {
                assert(b.drop_first()[i - 1] == b[i]);
            }
        }
    }
}

proof fn newline_at_is(b: Seq<u8>, n: int)
    requires
        0 <= n <= b.len(),
        n < b.len() ==> b[n] == 10,
        forall|i: int| 0 <= i < n ==> b[i] != 10,
    ensures
        newline_at(b) == n,
    decreases b.len(),
{
    if n > 0 {
        assert(b[0] != 10);
        assert forall|i: int| 0 <= i < n - 1 implies b.drop_first()[i] != 10 by {
            assert(b[i + 1] != 10);
        }
        newline_at_is(b.drop_first(), n - 1);
    }
}

/// Valid UTF-8 can be cut in front of, and behind, an ASCII byte.
proof fn cut_at_ascii(b: Seq<u8>, i: int)
    requires
        vstd::utf8::valid_utf8(b),
        0 <= i < b.len(),
        b[i] < 128,
    ensures
        vstd::utf8::valid_utf8(b.take(i)),
        vstd::utf8::valid_utf8(b.skip(i + 1)),
{
    let byte = b[i];
    assert(vstd::utf8::is_leading_byte_width_1(byte)) by {
        vstd::utf8::utf8_byte_ranges_bitwise(byte);
    }
    vstd::utf8::is_char_boundary_iff_is_leading_byte(b, i);
    vstd::utf8::valid_utf8_split(b, i);
    assert(b.subrange(0, i) =~= b.take(i));
    let tail = b.subrange(i, b.len() as int);
    assert(tail[0] == byte);
    assert(vstd::utf8::pop_first_scalar(tail) =~= b.skip(i + 1));
}

/// The lines of valid UTF-8, as texts.
pub fn split_lines(bytes: &[u8]) -> (r: Vec<String>)
    requires
        vstd::utf8::valid_utf8(bytes@),
    ensures
        texts(r@) == lines_of(bytes@),
{
    let ghost whole = lines_of(bytes@);
    let n: usize = bytes.len();
    let mut out: Vec<String> = Vec::new();
    let mut start: usize = 0;
    proof {
        assert(bytes@.skip(0) =~= bytes@);
        assert(texts(out@) + lines_of(bytes@) =~= whole);
    }
    while start < n
        invariant
            start <= n == bytes@.len(),
            vstd::utf8::valid_utf8(bytes@.skip(start as int)),
            texts(out@) + lines_of(bytes@.skip(start as int)) == whole,
        decreases n - start,
    {
        let ghost rest = bytes@.skip(start as int);
        let ghost was = out@;
        let mut end: usize = start;
        while end < n && bytes[end] != 10
            invariant
                start <= end <= n == bytes@.len(),
                rest == bytes@.skip(start as int),
                forall|i: int| 0 <= i < end - start ==> rest[i] != 10,
            decreases n - end,
        {
            proof {
                assert(rest[end - start] == bytes@[end as int]);
            }
            end = end + 1;
        }
        proof {
            if end < n {
                assert(rest[end - start] == bytes@[end as int]);
            }
            newline_at_is(rest, end - start);
        }
        let ghost line = rest.take(end - start);
        if end < n {
            proof {
                cut_at_ascii(rest, end - start);
            }
            let mut stop: usize = end;
            if stop > start && bytes[stop - 1] == 13 {
                proof {
                    assert(line.last() == bytes@[end - 1]);
                    cut_at_ascii(line, line.len() - 1);
                    assert(line.take(line.len() - 1) =~= line.drop_last());
                }
                stop = stop - 1;
            } else {
                proof {
                    if line.len() > 0 {
                        assert(line.last() == bytes@[end - 1]);
                    }
                }
            }
            let piece = vstd::slice::slice_subrange(bytes, start, stop);
            proof {
                assert(piece@ =~= without_return(line));
            }
            match utf8_text(piece) {
                Some(t) => {
                    out.push(t);
                },
                None => {
                    proof {
                        assert(false);
                    }
                },
            }
            proof {
                let next = rest.skip(end - start + 1);
                assert(next =~= bytes@.skip(end + 1));
                let text = vstd::utf8::decode_utf8(without_return(line));
                assert(lines_of(rest) =~= seq![text] + lines_of(next));
                assert(texts(out@) =~= texts(was).push(text));
                assert(texts(was) + (seq![text] + lines_of(next)) =~= texts(was).push(text)
                    + lines_of(next));
            }
            start = end + 1;
        } else {
            let piece = vstd::slice::slice_subrange(bytes, start, n);
            proof {
                assert(piece@ =~= rest);
            }
            match utf8_text(piece) {
                Some(t) => {
                    out.push(t);
                },
                None => {
                    proof {
                        assert(false);
                    }
                },
            }
            proof {
                let text = vstd::utf8::decode_utf8(rest);
                assert(lines_of(rest) =~= seq![text]);
                assert(texts(out@) =~= texts(was).push(text));
                assert(bytes@.skip(n as int) =~= Seq::<u8>::empty());
                assert(lines_of(bytes@.skip(n as int)) =~= Seq::empty());
                assert(texts(was) + seq![text] =~= texts(out@) + lines_of(bytes@.skip(n as int)));
            }
            start = n;
        }
    }
    proof {
        assert(bytes@.skip(start as int) =~= Seq::<u8>::empty());
        assert(lines_of(bytes@.skip(start as int)) =~= Seq::empty());
        assert(texts(out@) =~= whole);
    }
    out
}

/// A number is written in decimal digits, the last of them its last digit.
pub proof fn decimal_digits_are_the_number(n: nat, d: nat)
    requires
        d < 10,
    ensures
        decimal(d) == seq![(48 + d) as char],
        n > 0 ==> decimal(10 * n + d) == decimal(n).push((48 + d) as char),
{
}

/// A decimal text holds digits alone, at least one.
pub proof fn decimal_holds_digits(n: nat)
    ensures
        decimal(n).len() > 0,
        forall|i: int| 0 <= i < decimal(n).len() ==> '0' <= #[trigger] decimal(n)[i] <= '9',
    decreases n,
{
    if n >= 10 {
        decimal_holds_digits(n / 10);
    }
}

/// Different numbers are written differently.
pub proof fn decimal_tells_numbers_apart(a: nat, b: nat)
    requires
        decimal(a) == decimal(b),
    ensures
        a == b,
    decreases a,
{
    decimal_holds_digits(a / 10);
    decimal_holds_digits(b / 10);
    let (x, y) = (decimal(a), decimal(b));
    assert(x.last() == (48 + a % 10) as char);
    assert(y.last() == (48 + b % 10) as char);
    assert((48 + a % 10) as char as int == 48 + a % 10);
    assert((48 + b % 10) as char as int == 48 + b % 10);
    assert(a % 10 == b % 10);
    if a >= 10 && b >= 10 {
        assert(x.drop_last() =~= decimal(a / 10));
        assert(y.drop_last() =~= decimal(b / 10));
        decimal_tells_numbers_apart(a / 10, b / 10);
    } else if a >= 10 {
        assert(x.len() > 1);
    } else if b >= 10 {
        assert(y.len() > 1);
    }
}

/// A line ends at its line feed, without a carriage return before that; the rest is
/// read on its own; and a text without a line feed is one line.
pub proof fn lines_end_at_line_feeds(line: Seq<u8>, rest: Seq<u8>)
    requires
        !line.contains(10u8),
    ensures
        line.len() > 0 ==> byte_lines(line) == seq![line],
        byte_lines(Seq::empty()) == Seq::<Seq<u8>>::empty(),
        line.len() > 0 && line.last() == 13 ==> byte_lines(line + seq![10u8] + rest)
            == seq![line.drop_last()] + byte_lines(rest),
        line.len() == 0 || line.last() != 13 ==> byte_lines(line + seq![10u8] + rest) == seq![line]
            + byte_lines(rest),
{
    newline_at_facts(line);
    if newline_at(line) < line.len() {
        assert(line[newline_at(line)] == 10);
        assert(line.contains(10u8));
    }
    let all = line + seq![10u8] + rest;
    newline_at_facts(all);
    let n = newline_at(all);
    assert(all[line.len() as int] == 10);
    if n < line.len() {
        assert(line[n] == all[n]);
        assert(line.contains(10u8));
    }
    assert(n == line.len());
    assert(all.take(n) =~= line);
    assert(all.skip(n + 1) =~= rest);
}

} // verus!
