//! Byte forms that can be told apart: each says where it ends, so that values
//! written one after another can only be read in one way.
use crate::crypto::{Address, PublicKey};
use crate::encoding::{
    counted, le_bytes, le_bytes_len, le_limit, le_limits, le_reads_back, push_counted, push_raw,
    push_u32, push_u64,
};
use crate::identity::personhood::address_texts;
use crate::order::{utf8_is_injective, Key};
use crate::table::{
    entries_in_order, in_key_order, map_of, KeySet, Table,
};
use vstd::prelude::*;

verus! {

/// Something with a byte form of its own.
pub trait Encode: View {
    spec fn code(v: Self::V) -> Seq<u8>;

    /// No length in the value is out of the range that its byte form has room for.
    spec fn fits(v: Self::V) -> bool;

    /// Where the byte form ends, and what it stands for, shows from the bytes.
    proof fn code_is_prefix_free(a: Self::V, b: Self::V, x: Seq<u8>, y: Seq<u8>)
        requires
            Self::fits(a),
            Self::fits(b),
            Self::code(a) + x == Self::code(b) + y,
        ensures
            a == b,
            x == y,
    ;

    /// Appends the byte form.
    fn write(&self, out: &mut Vec<u8>)
        ensures
            final(out)@ == old(out)@ + Self::code(self@),
            Self::fits(self@),
    ;
}

/// Whether the byte forms of sound values tell where they end and what they stand for.
pub open spec fn prefix_free<T>(code: spec_fn(T) -> Seq<u8>, sound: spec_fn(T) -> bool) -> bool {
    forall|a: T, b: T, x: Seq<u8>, y: Seq<u8>|
        sound(a) && sound(b) && #[trigger] (code(a) + x) == #[trigger] (code(b) + y) ==> a == b && x
            == y
}

pub proof fn split_equal(a: Seq<u8>, b: Seq<u8>, x: Seq<u8>, y: Seq<u8>)
    requires
        a + x == b + y,
        a.len() == b.len(),
    ensures
        a == b,
        x == y,
{
    let whole = a + x;
    assert(a =~= whole.take(a.len() as int));
    assert(b =~= whole.take(b.len() as int));
    assert(x =~= whole.skip(a.len() as int));
    assert(y =~= whole.skip(b.len() as int));
}

pub proof fn number_ends(n: nat, m: nat, width: nat, x: Seq<u8>, y: Seq<u8>)
    requires
        n < le_limit(width),
        m < le_limit(width),
        le_bytes(n, width) + x == le_bytes(m, width) + y,
    ensures
        n == m,
        x == y,
{
    le_bytes_len(n, width);
    le_bytes_len(m, width);
    split_equal(le_bytes(n, width), le_bytes(m, width), x, y);
    le_reads_back(n, width);
    le_reads_back(m, width);
}

pub proof fn u64_ends(n: u64, m: u64, x: Seq<u8>, y: Seq<u8>)
    requires
        le_bytes(n as nat, 8) + x == le_bytes(m as nat, 8) + y,
    ensures
        n == m,
        x == y,
{
    le_limits();
    number_ends(n as nat, m as nat, 8, x, y);
}

pub proof fn counted_ends(a: Seq<u8>, b: Seq<u8>, x: Seq<u8>, y: Seq<u8>)
    requires
        a.len() <= u64::MAX,
        b.len() <= u64::MAX,
        counted(a) + x == counted(b) + y,
    ensures
        a == b,
        x == y,
{
    le_limits();
    assert(counted(a) + x =~= le_bytes(a.len(), 8) + (a + x));
    assert(counted(b) + y =~= le_bytes(b.len(), 8) + (b + y));
    number_ends(a.len(), b.len(), 8, a + x, b + y);
    split_equal(a, b, x, y);
}

/// The byte forms of a list's items, one after another.
pub open spec fn items_code<T>(s: Seq<T>, code: spec_fn(T) -> Seq<u8>) -> Seq<u8>
    decreases s.len(),
{
    if s.len() == 0 {
        Seq::empty()
    } else {
        items_code(s.drop_last(), code) + code(s.last())
    }
}

/// A list: its length, then its items.
pub open spec fn list_code<T>(s: Seq<T>, code: spec_fn(T) -> Seq<u8>) -> Seq<u8> {
    le_bytes(s.len(), 8) + items_code(s, code)
}

pub open spec fn list_fits<T>(s: Seq<T>, sound: spec_fn(T) -> bool) -> bool {
    s.len() <= u64::MAX && forall|i: int| 0 <= i < s.len() ==> sound(#[trigger] s[i])
}

pub proof fn items_code_step<T>(s: Seq<T>, code: spec_fn(T) -> Seq<u8>, i: int)
    requires
        0 <= i < s.len(),
    ensures
        items_code(s.take(i + 1), code) == items_code(s.take(i), code) + code(s[i]),
{
    assert(s.take(i + 1).drop_last() =~= s.take(i));
    assert(s.take(i + 1).last() == s[i]);
}

proof fn items_code_from_front<T>(s: Seq<T>, code: spec_fn(T) -> Seq<u8>)
    requires
        s.len() > 0,
    ensures
        items_code(s, code) == code(s[0]) + items_code(s.drop_first(), code),
    decreases s.len(),
{
    let front = s.drop_last();
    if s.len() == 1 {
        assert(front =~= Seq::<T>::empty());
        assert(s.drop_first() =~= Seq::<T>::empty());
        assert(items_code(s, code) =~= code(s[0]) + items_code(s.drop_first(), code));
    } else {
        items_code_from_front(front, code);
        assert(s.drop_first().drop_last() =~= front.drop_first());
        assert(s.drop_first().last() == s.last());
        assert(items_code(s, code) =~= code(s[0]) + items_code(s.drop_first(), code));
    }
}

proof fn items_end<T>(
    s: Seq<T>,
    t: Seq<T>,
    code: spec_fn(T) -> Seq<u8>,
    sound: spec_fn(T) -> bool,
    x: Seq<u8>,
    y: Seq<u8>,
)
    requires
        prefix_free(code, sound),
        s.len() == t.len(),
        forall|i: int| 0 <= i < s.len() ==> sound(#[trigger] s[i]),
        forall|i: int| 0 <= i < t.len() ==> sound(#[trigger] t[i]),
        items_code(s, code) + x == items_code(t, code) + y,
    ensures
        s == t,
        x == y,
    decreases s.len(),
{
    if s.len() == 0 {
        assert(items_code(s, code) + x =~= x);
        assert(items_code(t, code) + y =~= y);
        assert(s =~= t);
    } else {
        let s1 = s.drop_first();
        let t1 = t.drop_first();
        items_code_from_front(s, code);
        items_code_from_front(t, code);
        assert(items_code(s, code) + x =~= code(s[0]) + (items_code(s1, code) + x));
        assert(items_code(t, code) + y =~= code(t[0]) + (items_code(t1, code) + y));
        assert(sound(s[0]) && sound(t[0]));
        assert forall|i: int| 0 <= i < s1.len() implies sound(#[trigger] s1[i]) by {
            assert(s1[i] == s[i + 1]);
        }
        assert forall|i: int| 0 <= i < t1.len() implies sound(#[trigger] t1[i]) by {
            assert(t1[i] == t[i + 1]);
        }
        items_end(s1, t1, code, sound, x, y);
        assert(s =~= seq![s[0]] + s1);
        assert(t =~= seq![t[0]] + t1);
    }
}

pub proof fn list_ends<T>(
    s: Seq<T>,
    t: Seq<T>,
    code: spec_fn(T) -> Seq<u8>,
    sound: spec_fn(T) -> bool,
    x: Seq<u8>,
    y: Seq<u8>,
)
    requires
        prefix_free(code, sound),
        list_fits(s, sound),
        list_fits(t, sound),
        list_code(s, code) + x == list_code(t, code) + y,
    ensures
        s == t,
        x == y,
{
    le_limits();
    assert(list_code(s, code) + x =~= le_bytes(s.len(), 8) + (items_code(s, code) + x));
    assert(list_code(t, code) + y =~= le_bytes(t.len(), 8) + (items_code(t, code) + y));
    number_ends(s.len(), t.len(), 8, items_code(s, code) + x, items_code(t, code) + y);
    items_end(s, t, code, sound, x, y);
}

pub open spec fn text_code(t: Seq<char>) -> Seq<u8> {
    counted(vstd::utf8::encode_utf8(t))
}

pub open spec fn text_fits(t: Seq<char>) -> bool {
    vstd::utf8::encode_utf8(t).len() <= u64::MAX
}

pub proof fn text_ends(s: Seq<char>, t: Seq<char>, x: Seq<u8>, y: Seq<u8>)
    requires
        text_fits(s),
        text_fits(t),
        text_code(s) + x == text_code(t) + y,
    ensures
        s == t,
        x == y,
{
    counted_ends(vstd::utf8::encode_utf8(s), vstd::utf8::encode_utf8(t), x, y);
    utf8_is_injective(s, t);
}

pub fn write_text(t: &str, out: &mut Vec<u8>)
    ensures
        final(out)@ == old(out)@ + text_code(t@),
        text_fits(t@),
{
    let bytes = t.as_bytes();
    let n: usize = bytes.len();
    push_counted(out, bytes);
}

pub open spec fn texts_code(s: Seq<Seq<char>>) -> Seq<u8> {
    list_code(s, |t: Seq<char>| text_code(t))
}

pub open spec fn texts_fit(s: Seq<Seq<char>>) -> bool {
    list_fits(s, |t: Seq<char>| text_fits(t))
}

pub proof fn texts_end(s: Seq<Seq<char>>, t: Seq<Seq<char>>, x: Seq<u8>, y: Seq<u8>)
    requires
        texts_fit(s),
        texts_fit(t),
        texts_code(s) + x == texts_code(t) + y,
    ensures
        s == t,
        x == y,
{
    let code = |t: Seq<char>| text_code(t);
    let sound = |t: Seq<char>| text_fits(t);
    assert(prefix_free(code, sound)) by {
        assert forall|a: Seq<char>, b: Seq<char>, x: Seq<u8>, y: Seq<u8>|
            sound(a) && sound(b) && #[trigger] (code(a) + x) == #[trigger] (code(b) + y) implies a
            == b && x == y by {
            text_ends(a, b, x, y);
        }
    }
    list_ends(s, t, code, sound, x, y);
}

pub fn write_addresses(list: &Vec<Address>, out: &mut Vec<u8>)
    ensures
        final(out)@ == old(out)@ + texts_code(address_texts(list@)),
        texts_fit(address_texts(list@)),
{
    let ghost start = out@;
    let ghost all = address_texts(list@);
    let ghost code = |t: Seq<char>| text_code(t);
    push_u64(out, list.len() as u64);
    let ghost head = out@;
    let mut i: usize = 0;
    proof {
        assert(all.take(0) =~= Seq::empty());
        assert(head + items_code(all.take(0), code) =~= head);
    }
    while i < list.len()
        invariant
            i <= list@.len(),
            all == address_texts(list@),
            code == (|t: Seq<char>| text_code(t)),
            out@ == head + items_code(all.take(i as int), code),
            forall|k: int| 0 <= k < i ==> text_fits(#[trigger] all[k]),
        decreases list.len() - i,
    {
        write_text(list[i].as_str(), out);
        proof {
            items_code_step(all, code, i as int);
            assert(all[i as int] == list@[i as int]@);
            assert(out@ =~= head + items_code(all.take(i + 1), code));
        }
        i = i + 1;
    }
    proof {
        assert(all.take(i as int) =~= all);
        assert(out@ =~= start + list_code(all, code));
    }
}

pub open spec fn flag_code(b: bool) -> Seq<u8> {
    seq![if b { 1u8 } else { 0u8 }]
}

pub proof fn flag_ends(a: bool, b: bool, x: Seq<u8>, y: Seq<u8>)
    requires
        flag_code(a) + x == flag_code(b) + y,
    ensures
        a == b,
        x == y,
{
    split_equal(flag_code(a), flag_code(b), x, y);
    assert(flag_code(a)[0] == flag_code(b)[0]);
}

pub fn write_flag(b: bool, out: &mut Vec<u8>)
    ensures
        final(out)@ == old(out)@ + flag_code(b),
{
    let ghost start = out@;
    out.push(if b { 1u8 } else { 0u8 });
    proof {
        assert(out@ =~= start + flag_code(b));
    }
}

/// An optional value behind a byte that says whether it is there.
pub open spec fn maybe_code<T>(v: Option<T>, code: spec_fn(T) -> Seq<u8>) -> Seq<u8> {
    match v {
        None => seq![0u8],
        Some(t) => seq![1u8] + code(t),
    }
}

pub open spec fn maybe_fits<T>(v: Option<T>, sound: spec_fn(T) -> bool) -> bool {
    match v {
        None => true,
        Some(t) => sound(t),
    }
}

pub proof fn maybe_ends<T>(
    a: Option<T>,
    b: Option<T>,
    code: spec_fn(T) -> Seq<u8>,
    sound: spec_fn(T) -> bool,
    x: Seq<u8>,
    y: Seq<u8>,
)
    requires
        prefix_free(code, sound),
        maybe_fits(a, sound),
        maybe_fits(b, sound),
        maybe_code(a, code) + x == maybe_code(b, code) + y,
    ensures
        a == b,
        x == y,
{
    let u = maybe_code(a, code) + x;
    let v = maybe_code(b, code) + y;
    assert(u[0] == v[0]);
    match (a, b) {
        (None, None) => {
            split_equal(seq![0u8], seq![0u8], x, y);
        },
        (Some(s), Some(t)) => {
            assert(u =~= seq![1u8] + (code(s) + x));
            assert(v =~= seq![1u8] + (code(t) + y));
            split_equal(seq![1u8], seq![1u8], code(s) + x, code(t) + y);
        },
        _ => {},
    }
}

impl Encode for String {
    open spec fn code(v: Seq<char>) -> Seq<u8> {
        text_code(v)
    }

    open spec fn fits(v: Seq<char>) -> bool {
        text_fits(v)
    }

    proof fn code_is_prefix_free(a: Seq<char>, b: Seq<char>, x: Seq<u8>, y: Seq<u8>) {
        text_ends(a, b, x, y);
    }

    fn write(&self, out: &mut Vec<u8>) {
        write_text(self.as_str(), out);
    }
}

impl Encode for Address {
    open spec fn code(v: Seq<char>) -> Seq<u8> {
        text_code(v)
    }

    open spec fn fits(v: Seq<char>) -> bool {
        text_fits(v)
    }

    proof fn code_is_prefix_free(a: Seq<char>, b: Seq<char>, x: Seq<u8>, y: Seq<u8>) {
        text_ends(a, b, x, y);
    }

    fn write(&self, out: &mut Vec<u8>) {
        write_text(self.as_str(), out);
    }
}

impl Encode for u64 {
    open spec fn code(v: u64) -> Seq<u8> {
        le_bytes(v as nat, 8)
    }

    open spec fn fits(v: u64) -> bool {
        true
    }

    proof fn code_is_prefix_free(a: u64, b: u64, x: Seq<u8>, y: Seq<u8>) {
        u64_ends(a, b, x, y);
    }

    fn write(&self, out: &mut Vec<u8>) {
        push_u64(out, *self);
    }
}

impl Encode for u32 {
    open spec fn code(v: u32) -> Seq<u8> {
        le_bytes(v as nat, 4)
    }

    open spec fn fits(v: u32) -> bool {
        true
    }

    proof fn code_is_prefix_free(a: u32, b: u32, x: Seq<u8>, y: Seq<u8>) {
        le_limits();
        number_ends(a as nat, b as nat, 4, x, y);
    }

    fn write(&self, out: &mut Vec<u8>) {
        push_u32(out, *self);
    }
}

impl Encode for Vec<u8> {
    open spec fn code(v: Seq<u8>) -> Seq<u8> {
        counted(v)
    }

    open spec fn fits(v: Seq<u8>) -> bool {
        v.len() <= u64::MAX
    }

    proof fn code_is_prefix_free(a: Seq<u8>, b: Seq<u8>, x: Seq<u8>, y: Seq<u8>) {
        counted_ends(a, b, x, y);
    }

    fn write(&self, out: &mut Vec<u8>) {
        let n: usize = self.len();
        push_counted(out, self.as_slice());
    }
}

impl Encode for PublicKey {
    open spec fn code(v: Seq<u8>) -> Seq<u8> {
        counted(v)
    }

    open spec fn fits(v: Seq<u8>) -> bool {
        v.len() <= u64::MAX
    }

    proof fn code_is_prefix_free(a: Seq<u8>, b: Seq<u8>, x: Seq<u8>, y: Seq<u8>) {
        counted_ends(a, b, x, y);
    }

    fn write(&self, out: &mut Vec<u8>) {
        let bytes = self.as_bytes();
        let n: usize = bytes.len();
        push_counted(out, bytes);
    }
}

impl Encode for [u8; 16] {
    open spec fn code(v: Seq<u8>) -> Seq<u8> {
        v
    }

    open spec fn fits(v: Seq<u8>) -> bool {
        v.len() == 16
    }

    proof fn code_is_prefix_free(a: Seq<u8>, b: Seq<u8>, x: Seq<u8>, y: Seq<u8>) {
        split_equal(a, b, x, y);
    }

    fn write(&self, out: &mut Vec<u8>) {
        push_raw(out, vstd::array::array_as_slice(self));
    }
}

/// A key and its value.
pub open spec fn entry_code<K: Key + Encode, V: Encode>(p: (K::V, V::V)) -> Seq<u8> {
    <K as Encode>::code(p.0) + V::code(p.1)
}

pub open spec fn entry_fits<K: Key + Encode, V: Encode>(p: (K::V, V::V)) -> bool {
    <K as Encode>::fits(p.0) && V::fits(p.1)
}

/// A table: how many entries it has, then each key with its value, in key order.
pub open spec fn table_code<K: Key + Encode, V: Encode>(m: Map<K::V, V::V>) -> Seq<u8> {
    list_code(entries_in_order::<K, V::V>(m), |p: (K::V, V::V)| entry_code::<K, V>(p))
}

/// The map can be listed in key order, and its entries fit.
pub open spec fn table_fits<K: Key + Encode, V: Encode>(m: Map<K::V, V::V>) -> bool {
    &&& m == map_of(entries_in_order::<K, V::V>(m))
    &&& list_fits(entries_in_order::<K, V::V>(m), |p: (K::V, V::V)| entry_fits::<K, V>(p))
}

pub proof fn table_ends<K: Key + Encode, V: Encode>(
    a: Map<K::V, V::V>,
    b: Map<K::V, V::V>,
    x: Seq<u8>,
    y: Seq<u8>,
)
    requires
        table_fits::<K, V>(a),
        table_fits::<K, V>(b),
        table_code::<K, V>(a) + x == table_code::<K, V>(b) + y,
    ensures
        a == b,
        x == y,
{
    let code = |p: (K::V, V::V)| entry_code::<K, V>(p);
    let sound = |p: (K::V, V::V)| entry_fits::<K, V>(p);
    assert(prefix_free(code, sound)) by {
        assert forall|p: (K::V, V::V), q: (K::V, V::V), x: Seq<u8>, y: Seq<u8>|
            sound(p) && sound(q) && #[trigger] (code(p) + x) == #[trigger] (code(q) + y) implies p
            == q && x == y by {
            assert(code(p) + x =~= <K as Encode>::code(p.0) + (V::code(p.1) + x));
            assert(code(q) + y =~= <K as Encode>::code(q.0) + (V::code(q.1) + y));
            K::code_is_prefix_free(p.0, q.0, V::code(p.1) + x, V::code(q.1) + y);
            V::code_is_prefix_free(p.1, q.1, x, y);
        }
    }
    list_ends(
        entries_in_order::<K, V::V>(a),
        entries_in_order::<K, V::V>(b),
        code,
        sound,
        x,
        y,
    );
}

impl<K: Key + Encode, V: Encode> Encode for Table<K, V> {
    open spec fn code(v: Map<K::V, V::V>) -> Seq<u8> {
        table_code::<K, V>(v)
    }

    open spec fn fits(v: Map<K::V, V::V>) -> bool {
        table_fits::<K, V>(v)
    }

    proof fn code_is_prefix_free(
        a: Map<K::V, V::V>,
        b: Map<K::V, V::V>,
        x: Seq<u8>,
        y: Seq<u8>,
    ) {
        table_ends::<K, V>(a, b, x, y);
    }

    fn write(&self, out: &mut Vec<u8>) {
        let ghost start = out@;
        let n: usize = self.len();
        let ghost all = self.pairs();
        let ghost code = |p: (K::V, V::V)| entry_code::<K, V>(p);
        push_u64(out, n as u64);
        let ghost head = out@;
        let mut i: usize = 0;
        proof {
            assert(all.take(0) =~= Seq::empty());
            assert(head + items_code(all.take(0), code) =~= head);
        }
        while i < n
            invariant
                i <= n == all.len(),
                all == self.pairs(),
                code == (|p: (K::V, V::V)| entry_code::<K, V>(p)),
                out@ == head + items_code(all.take(i as int), code),
                forall|k: int| 0 <= k < i ==> entry_fits::<K, V>(#[trigger] all[k]),
            decreases n - i,
        {
            let ghost before = out@;
            self.key_at(i).write(out);
            self.value_at(i).write(out);
            proof {
                items_code_step(all, code, i as int);
                assert(out@ =~= before + code(all[i as int]));
                assert(out@ =~= head + items_code(all.take(i + 1), code));
            }
            i = i + 1;
        }
        proof {
            assert(all.take(i as int) =~= all);
            assert(out@ =~= start + list_code(all, code));
        }
    }
}

/// A set: how many members it has, then each, in key order.
pub open spec fn set_code<K: Key + Encode>(s: Set<K::V>) -> Seq<u8> {
    list_code(in_key_order::<K>(s), |k: K::V| <K as Encode>::code(k))
}

/// The set can be listed in key order, and its members fit.
pub open spec fn set_fits<K: Key + Encode>(s: Set<K::V>) -> bool {
    &&& s == in_key_order::<K>(s).to_set()
    &&& list_fits(in_key_order::<K>(s), |k: K::V| <K as Encode>::fits(k))
}

pub proof fn set_ends<K: Key + Encode>(a: Set<K::V>, b: Set<K::V>, x: Seq<u8>, y: Seq<u8>)
    requires
        set_fits::<K>(a),
        set_fits::<K>(b),
        set_code::<K>(a) + x == set_code::<K>(b) + y,
    ensures
        a == b,
        x == y,
{
    let code = |k: K::V| <K as Encode>::code(k);
    let sound = |k: K::V| <K as Encode>::fits(k);
    assert(prefix_free(code, sound)) by {
        assert forall|p: K::V, q: K::V, x: Seq<u8>, y: Seq<u8>|
            sound(p) && sound(q) && #[trigger] (code(p) + x) == #[trigger] (code(q) + y) implies p
            == q && x == y by {
            K::code_is_prefix_free(p, q, x, y);
        }
    }
    list_ends(in_key_order::<K>(a), in_key_order::<K>(b), code, sound, x, y);
}

pub fn write_set<K: Key + Encode>(set: &KeySet<K>, out: &mut Vec<u8>)
    ensures
        final(out)@ == old(out)@ + set_code::<K>(set@),
        set_fits::<K>(set@),
{
    let ghost start = out@;
    let n: usize = set.len();
    let ghost all = set.items();
    let ghost code = |k: K::V| <K as Encode>::code(k);
    push_u64(out, n as u64);
    let ghost head = out@;
    let mut i: usize = 0;
    proof {
        assert(all.take(0) =~= Seq::empty());
        assert(head + items_code(all.take(0), code) =~= head);
    }
    while i < n
        invariant
            i <= n == all.len(),
            all == set.items(),
            code == (|k: K::V| <K as Encode>::code(k)),
            out@ == head + items_code(all.take(i as int), code),
            forall|k: int| 0 <= k < i ==> <K as Encode>::fits(#[trigger] all[k]),
        decreases n - i,
    {
        let ghost before = out@;
        set.item_at(i).write(out);
        proof {
            items_code_step(all, code, i as int);
            assert(out@ =~= before + code(all[i as int]));
            assert(out@ =~= head + items_code(all.take(i + 1), code));
        }
        i = i + 1;
    }
    proof {
        assert(set@ =~= all.to_set());
        assert(all.take(i as int) =~= all);
        assert(out@ =~= start + list_code(all, code));
    }
}

} // verus!
