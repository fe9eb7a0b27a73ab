//! The byte-level wire format shared by the state store document and the
//! archive stream: little-endian fixed-width integers, length-prefixed byte
//! strings, UTF-8 text, optional fields behind a one-byte tag, and counted
//! lists. Every serializer has a parser that inverts it, proved below.
use vstd::prelude::*;
use vstd::bytes::{
    lemma_auto_spec_u128_to_from_le_bytes, lemma_auto_spec_u32_to_from_le_bytes,
    lemma_auto_spec_u64_to_from_le_bytes, spec_u128_from_le_bytes, spec_u128_to_le_bytes,
    spec_u32_from_le_bytes, spec_u32_to_le_bytes, spec_u64_from_le_bytes, spec_u64_to_le_bytes,
    u128_from_le_bytes, u128_to_le_bytes, u32_from_le_bytes, u32_to_le_bytes, u64_from_le_bytes,
    u64_to_le_bytes,
};
use vstd::slice::{slice_subrange, slice_to_vec};
use vstd::utf8::{
    decode_utf8, encode_utf8, encode_utf8_decode_utf8, encode_utf8_valid_utf8, valid_utf8,
};
use crate::strutil::string_from_utf8;

verus! {

/// Upper bound (exclusive) a length prefix can hold.
pub open spec fn len_limit() -> int {
    0x1_0000_0000_0000_0000
}

/// A character sequence whose UTF-8 encoding fits behind a length prefix.
pub open spec fn str_ok(s: Seq<char>) -> bool {
    encode_utf8(s).len() < len_limit()
}

pub open spec fn bytes_ok(b: Seq<u8>) -> bool {
    b.len() < len_limit()
}

pub open spec fn strings_ok(ss: Seq<Seq<char>>) -> bool {
    &&& ss.len() < len_limit()
    &&& forall|i: int| 0 <= i < ss.len() ==> str_ok(#[trigger] ss[i])
}

// ---------------------------------------------------------------------------
// serializers
// ---------------------------------------------------------------------------
pub open spec fn ser_u32(x: u32) -> Seq<u8> {
    spec_u32_to_le_bytes(x)
}

pub open spec fn ser_u64(x: u64) -> Seq<u8> {
    spec_u64_to_le_bytes(x)
}

pub open spec fn ser_u128(x: u128) -> Seq<u8> {
    spec_u128_to_le_bytes(x)
}

pub open spec fn ser_i64(x: i64) -> Seq<u8> {
    spec_u64_to_le_bytes(x as u64)
}

pub open spec fn ser_bytes(b: Seq<u8>) -> Seq<u8> {
    ser_u64(b.len() as u64) + b
}

pub open spec fn ser_string(s: Seq<char>) -> Seq<u8> {
    ser_bytes(encode_utf8(s))
}

pub open spec fn ser_opt_string(o: Option<Seq<char>>) -> Seq<u8> {
    match o {
        Option::None => seq![0u8],
        Option::Some(s) => seq![1u8] + ser_string(s),
    }
}

pub open spec fn ser_opt_i64(o: Option<i64>) -> Seq<u8> {
    match o {
        Option::None => seq![0u8],
        Option::Some(x) => seq![1u8] + ser_i64(x),
    }
}

pub open spec fn ser_strings_items(ss: Seq<Seq<char>>) -> Seq<u8>
    decreases ss.len(),
{
    if ss.len() == 0 {
        Seq::empty()
    } else {
        ser_string(ss[0]) + ser_strings_items(ss.drop_first())
    }
}

pub open spec fn ser_strings(ss: Seq<Seq<char>>) -> Seq<u8> {
    ser_u64(ss.len() as u64) + ser_strings_items(ss)
}

// ---------------------------------------------------------------------------
// parsers: each yields the value and the number of bytes consumed
// ---------------------------------------------------------------------------
pub open spec fn sp_u32(b: Seq<u8>) -> Option<(u32, int)> {
    if b.len() >= 4 {
        Some((spec_u32_from_le_bytes(b.take(4)), 4int))
    } else {
        None
    }
}

pub open spec fn sp_u64(b: Seq<u8>) -> Option<(u64, int)> {
    if b.len() >= 8 {
        Some((spec_u64_from_le_bytes(b.take(8)), 8int))
    } else {
        None
    }
}

pub open spec fn sp_u128(b: Seq<u8>) -> Option<(u128, int)> {
    if b.len() >= 16 {
        Some((spec_u128_from_le_bytes(b.take(16)), 16int))
    } else {
        None
    }
}

pub open spec fn sp_i64(b: Seq<u8>) -> Option<(i64, int)> {
    match sp_u64(b) {
        Option::None => None,
        Option::Some((x, c)) => Some((x as i64, c)),
    }
}

pub open spec fn sp_bytes(b: Seq<u8>) -> Option<(Seq<u8>, int)> {
    match sp_u64(b) {
        Option::None => None,
        Option::Some((n, c)) => if b.len() >= c + n {
            Some((b.subrange(c, c + n), c + n))
        } else {
            None
        },
    }
}

pub open spec fn sp_string(b: Seq<u8>) -> Option<(Seq<char>, int)> {
    match sp_bytes(b) {
        Option::None => None,
        Option::Some((bs, c)) => if valid_utf8(bs) {
            Some((decode_utf8(bs), c))
        } else {
            None
        },
    }
}

pub open spec fn sp_opt_string(b: Seq<u8>) -> Option<(Option<Seq<char>>, int)> {
    if b.len() < 1 {
        None
    } else if b[0] == 0u8 {
        Some((Option::None, 1int))
    } else if b[0] == 1u8 {
        match sp_string(b.skip(1)) {
            Option::None => None,
            Option::Some((s, c)) => Some((Some(s), c + 1)),
        }
    } else {
        None
    }
}

pub open spec fn sp_opt_i64(b: Seq<u8>) -> Option<(Option<i64>, int)> {
    if b.len() < 1 {
        None
    } else if b[0] == 0u8 {
        Some((Option::None, 1int))
    } else if b[0] == 1u8 {
        match sp_i64(b.skip(1)) {
            Option::None => None,
            Option::Some((x, c)) => Some((Some(x), c + 1)),
        }
    } else {
        None
    }
}

pub open spec fn sp_strings_items(b: Seq<u8>, count: nat) -> Option<(Seq<Seq<char>>, int)>
    decreases count,
{
    if count == 0 {
        Some((Seq::empty(), 0int))
    } else {
        match sp_string(b) {
            Option::None => None,
            Option::Some((s, c)) => match sp_strings_items(b.skip(c), (count - 1) as nat) {
                Option::None => None,
                Option::Some((ss, c2)) => Some((seq![s] + ss, c + c2)),
            },
        }
    }
}

pub open spec fn sp_strings(b: Seq<u8>) -> Option<(Seq<Seq<char>>, int)> {
    match sp_u64(b) {
        Option::None => None,
        Option::Some((n, c)) => match sp_strings_items(b.skip(c), n as nat) {
            Option::None => None,
            Option::Some((ss, c2)) => Some((ss, c + c2)),
        },
    }
}

// ---------------------------------------------------------------------------
// small facts about concatenation and skipping, used to peel one field at a
// time off a composite serialization
// ---------------------------------------------------------------------------
pub proof fn lemma_concat_assoc(a: Seq<u8>, b: Seq<u8>, c: Seq<u8>)
    ensures
        (a + b) + c == a + (b + c),
{
    assert((a + b) + c =~= a + (b + c));
}

pub proof fn lemma_skip_concat(pre: Seq<u8>, suf: Seq<u8>)
    ensures
        (pre + suf).skip(pre.len() as int) == suf,
        (pre + suf).len() == pre.len() + suf.len(),
{
    assert((pre + suf).skip(pre.len() as int) =~= suf);
}

pub proof fn lemma_skip_two(b: Seq<u8>, a1: int, a2: int)
    requires
        0 <= a1,
        0 <= a2,
        a1 + a2 <= b.len(),
    ensures
        b.skip(a1).skip(a2) == b.skip(a1 + a2),
{
    assert(b.skip(a1).skip(a2) =~= b.skip(a1 + a2));
}

// ---------------------------------------------------------------------------
// round trips: parsing a serialization, with anything after it, yields the
// value back and consumes exactly the serialization
// ---------------------------------------------------------------------------
pub proof fn lemma_rt_u32(x: u32, rest: Seq<u8>)
    ensures
        sp_u32(ser_u32(x) + rest) == Some((x, 4int)),
        ser_u32(x).len() == 4,
{
    lemma_auto_spec_u32_to_from_le_bytes();
    assert((ser_u32(x) + rest).take(4) =~= ser_u32(x));
}

pub proof fn lemma_rt_u64(x: u64, rest: Seq<u8>)
    ensures
        sp_u64(ser_u64(x) + rest) == Some((x, 8int)),
        ser_u64(x).len() == 8,
{
    lemma_auto_spec_u64_to_from_le_bytes();
    assert((ser_u64(x) + rest).take(8) =~= ser_u64(x));
}

pub proof fn lemma_rt_u128(x: u128, rest: Seq<u8>)
    ensures
        sp_u128(ser_u128(x) + rest) == Some((x, 16int)),
        ser_u128(x).len() == 16,
{
    lemma_auto_spec_u128_to_from_le_bytes();
    assert((ser_u128(x) + rest).take(16) =~= ser_u128(x));
}

pub proof fn lemma_rt_i64(x: i64, rest: Seq<u8>)
    ensures
        sp_i64(ser_i64(x) + rest) == Some((x, 8int)),
        ser_i64(x).len() == 8,
{
    lemma_rt_u64(x as u64, rest);
    assert(x as u64 as i64 == x) by (bit_vector);
}

pub proof fn lemma_rt_bytes(s: Seq<u8>, rest: Seq<u8>)
    requires
        bytes_ok(s),
    ensures
        sp_bytes(ser_bytes(s) + rest) == Some((s, 8 + s.len() as int)),
        ser_bytes(s).len() == 8 + s.len(),
{
    let n = s.len() as u64;
    lemma_rt_u64(n, s + rest);
    let whole = ser_bytes(s) + rest;
    assert(whole =~= ser_u64(n) + (s + rest));
    assert(whole.take(8) =~= ser_u64(n).take(8));
    lemma_auto_spec_u64_to_from_le_bytes();
    assert(ser_u64(n).take(8) =~= ser_u64(n));
    assert(whole.subrange(8, 8 + n as int) =~= s);
}

pub proof fn lemma_rt_string(s: Seq<char>, rest: Seq<u8>)
    requires
        str_ok(s),
    ensures
        sp_string(ser_string(s) + rest) == Some((s, ser_string(s).len() as int)),
        ser_string(s).len() == 8 + encode_utf8(s).len(),
{
    let e = encode_utf8(s);
    lemma_rt_bytes(e, rest);
    assert(ser_string(s) + rest =~= ser_bytes(e) + rest);
    encode_utf8_valid_utf8(s);
    encode_utf8_decode_utf8(s);
}

pub proof fn lemma_rt_opt_string(o: Option<Seq<char>>, rest: Seq<u8>)
    requires
        o matches Some(s) ==> str_ok(s),
    ensures
        sp_opt_string(ser_opt_string(o) + rest) == Some((o, ser_opt_string(o).len() as int)),
{
    match o {
        Option::None => {
            assert((ser_opt_string(o) + rest)[0] == 0u8);
        },
        Option::Some(s) => {
            let whole = ser_opt_string(o) + rest;
            assert(whole[0] == 1u8);
            assert(whole.skip(1) =~= ser_string(s) + rest);
            lemma_rt_string(s, rest);
        },
    }
}

pub proof fn lemma_rt_opt_i64(o: Option<i64>, rest: Seq<u8>)
    ensures
        sp_opt_i64(ser_opt_i64(o) + rest) == Some((o, ser_opt_i64(o).len() as int)),
{
    match o {
        Option::None => {
            assert((ser_opt_i64(o) + rest)[0] == 0u8);
        },
        Option::Some(x) => {
            let whole = ser_opt_i64(o) + rest;
            assert(whole[0] == 1u8);
            assert(whole.skip(1) =~= ser_i64(x) + rest);
            lemma_rt_i64(x, rest);
        },
    }
}

pub proof fn lemma_ser_strings_items_snoc(ss: Seq<Seq<char>>, s: Seq<char>)
    ensures
        ser_strings_items(ss.push(s)) == ser_strings_items(ss) + ser_string(s),
    decreases ss.len(),
{
    reveal_with_fuel(ser_strings_items, 3);
    if ss.len() == 0 {
        assert(ss.push(s)[0] == s);
        assert(ss.push(s).drop_first() =~= Seq::<Seq<char>>::empty());
        assert(ser_strings_items(ss.push(s)) =~= ser_strings_items(ss) + ser_string(s));
    } else {
        assert(ss.push(s)[0] == ss[0]);
        assert(ss.push(s).drop_first() =~= ss.drop_first().push(s));
        lemma_ser_strings_items_snoc(ss.drop_first(), s);
        assert(ser_strings_items(ss.push(s)) == ser_string(ss[0]) + ser_strings_items(
            ss.drop_first().push(s),
        ));
        assert(ser_strings_items(ss.push(s)) =~= ser_strings_items(ss) + ser_string(s));
    }
}

pub proof fn lemma_rt_strings_items(ss: Seq<Seq<char>>, rest: Seq<u8>)
    requires
        forall|i: int| 0 <= i < ss.len() ==> str_ok(#[trigger] ss[i]),
    ensures
        sp_strings_items(ser_strings_items(ss) + rest, ss.len() as nat) == Some(
            (ss, ser_strings_items(ss).len() as int),
        ),
    decreases ss.len(),
{
    if ss.len() == 0 {
        assert(ss =~= Seq::<Seq<char>>::empty());
    } else {
        let s0 = ss[0];
        let tail = ss.drop_first();
        let whole = ser_strings_items(ss) + rest;
        assert(whole =~= ser_string(s0) + (ser_strings_items(tail) + rest));
        lemma_rt_string(s0, ser_strings_items(tail) + rest);
        let c = ser_string(s0).len() as int;
        assert(whole.skip(c) =~= ser_strings_items(tail) + rest);
        lemma_rt_strings_items(tail, rest);
        assert(seq![s0] + tail =~= ss);
    }
}

pub proof fn lemma_rt_strings(ss: Seq<Seq<char>>, rest: Seq<u8>)
    requires
        strings_ok(ss),
    ensures
        sp_strings(ser_strings(ss) + rest) == Some((ss, ser_strings(ss).len() as int)),
{
    let n = ss.len() as u64;
    let body = ser_strings_items(ss);
    lemma_rt_u64(n, body + rest);
    let whole = ser_strings(ss) + rest;
    assert(whole =~= ser_u64(n) + (body + rest));
    assert(whole.skip(8) =~= body + rest);
    lemma_rt_strings_items(ss, rest);
}

// ---------------------------------------------------------------------------
// canonicity: a successful parse consumes exactly the serialization of the
// value it returns — the format holds no second spelling of any value
// ---------------------------------------------------------------------------
pub proof fn lemma_take_split(b: Seq<u8>, o: int, c: int)
    requires
        0 <= o,
        0 <= c,
        o + c <= b.len(),
    ensures
        b.take(o + c) == b.take(o) + b.skip(o).take(c),
{
    assert(b.take(o + c) =~= b.take(o) + b.skip(o).take(c));
}

pub proof fn lemma_canon_u32(b: Seq<u8>)
    ensures
        sp_u32(b) matches Some((x, c)) ==> ser_u32(x) == b.take(c) && c == 4 && c <= b.len(),
{
    lemma_auto_spec_u32_to_from_le_bytes();
}

pub proof fn lemma_canon_u64(b: Seq<u8>)
    ensures
        sp_u64(b) matches Some((x, c)) ==> ser_u64(x) == b.take(c) && c == 8 && c <= b.len(),
{
    lemma_auto_spec_u64_to_from_le_bytes();
}

pub proof fn lemma_canon_u128(b: Seq<u8>)
    ensures
        sp_u128(b) matches Some((x, c)) ==> ser_u128(x) == b.take(c) && c == 16 && c <= b.len(),
{
    lemma_auto_spec_u128_to_from_le_bytes();
}

pub proof fn lemma_canon_i64(b: Seq<u8>)
    ensures
        sp_i64(b) matches Some((x, c)) ==> ser_i64(x) == b.take(c) && c == 8 && c <= b.len(),
{
    lemma_canon_u64(b);
    match sp_u64(b) {
        Some((u, _)) => {
            assert((u as i64) as u64 == u) by (bit_vector);
        },
        None => {},
    }
}

pub proof fn lemma_canon_bytes(b: Seq<u8>)
    ensures
        sp_bytes(b) matches Some((v, c)) ==> ser_bytes(v) == b.take(c) && 8 <= c <= b.len()
            && v.len() == c - 8,
{
    lemma_canon_u64(b);
    match sp_bytes(b) {
        Some((v, c)) => {
            let n = sp_u64(b).unwrap().0;
            assert(v.len() == n as int);
            assert((v.len() as u64) == n);
            assert(ser_bytes(v) =~= b.take(8) + b.subrange(8, c));
            assert(b.take(8) + b.subrange(8, c) =~= b.take(c));
        },
        None => {},
    }
}

pub proof fn lemma_canon_string(b: Seq<u8>)
    ensures
        sp_string(b) matches Some((s, c)) ==> ser_string(s) == b.take(c) && 8 <= c <= b.len(),
{
    lemma_canon_bytes(b);
    match sp_bytes(b) {
        Some((bs, _)) => {
            if valid_utf8(bs) {
                vstd::utf8::decode_utf8_encode_utf8(bs);
            }
        },
        None => {},
    }
}

pub proof fn lemma_canon_opt_string(b: Seq<u8>)
    ensures
        sp_opt_string(b) matches Some((o, c)) ==> ser_opt_string(o) == b.take(c) && 1 <= c
            <= b.len(),
{
    if b.len() >= 1 && b[0] == 1u8 {
        lemma_canon_string(b.skip(1));
        match sp_string(b.skip(1)) {
            Some((s, c1)) => {
                assert(ser_opt_string(Some(s)) =~= seq![1u8] + b.skip(1).take(c1));
                assert(seq![1u8] + b.skip(1).take(c1) =~= b.take(c1 + 1));
            },
            None => {},
        }
    } else if b.len() >= 1 && b[0] == 0u8 {
        assert(ser_opt_string(Option::<Seq<char>>::None) =~= b.take(1));
    }
}

pub proof fn lemma_canon_opt_i64(b: Seq<u8>)
    ensures
        sp_opt_i64(b) matches Some((o, c)) ==> ser_opt_i64(o) == b.take(c) && 1 <= c <= b.len(),
{
    if b.len() >= 1 && b[0] == 1u8 {
        lemma_canon_i64(b.skip(1));
        match sp_i64(b.skip(1)) {
            Some((x, c1)) => {
                assert(ser_opt_i64(Some(x)) =~= seq![1u8] + b.skip(1).take(c1));
                assert(seq![1u8] + b.skip(1).take(c1) =~= b.take(c1 + 1));
            },
            None => {},
        }
    } else if b.len() >= 1 && b[0] == 0u8 {
        assert(ser_opt_i64(Option::<i64>::None) =~= b.take(1));
    }
}

pub proof fn lemma_canon_strings_items(b: Seq<u8>, count: nat)
    ensures
        sp_strings_items(b, count) matches Some((ss, c)) ==> ser_strings_items(ss) == b.take(c)
            && 0 <= c <= b.len() && ss.len() == count,
    decreases count,
{
    if count == 0 {
        assert(ser_strings_items(Seq::<Seq<char>>::empty()) =~= b.take(0));
    } else {
        lemma_canon_string(b);
        match sp_string(b) {
            Some((s, c1)) => {
                lemma_canon_strings_items(b.skip(c1), (count - 1) as nat);
                match sp_strings_items(b.skip(c1), (count - 1) as nat) {
                    Some((ss, c2)) => {
                        assert((seq![s] + ss)[0] == s);
                        assert((seq![s] + ss).drop_first() =~= ss);
                        assert(ser_strings_items(seq![s] + ss) == ser_string(s)
                            + ser_strings_items(ss));
                        lemma_take_split(b, c1, c2);
                    },
                    None => {},
                }
            },
            None => {},
        }
    }
}

pub proof fn lemma_canon_strings(b: Seq<u8>)
    ensures
        sp_strings(b) matches Some((ss, c)) ==> ser_strings(ss) == b.take(c) && 8 <= c
            <= b.len(),
{
    lemma_canon_u64(b);
    match sp_u64(b) {
        Some((n, _)) => {
            lemma_canon_strings_items(b.skip(8), n as nat);
            match sp_strings_items(b.skip(8), n as nat) {
                Some((ss, c2)) => {
                    assert((ss.len() as u64) == n);
                    lemma_take_split(b, 8, c2);
                },
                None => {},
            }
        },
        None => {},
    }
}

// ---------------------------------------------------------------------------
// executable encoders: append one field's serialization to the output
// ---------------------------------------------------------------------------
pub fn enc_u32(out: &mut Vec<u8>, x: u32)
    ensures
        final(out)@ == old(out)@ + ser_u32(x),
{
    let mut b = u32_to_le_bytes(x);
    out.append(&mut b);
}

pub fn enc_u64(out: &mut Vec<u8>, x: u64)
    ensures
        final(out)@ == old(out)@ + ser_u64(x),
{
    let mut b = u64_to_le_bytes(x);
    out.append(&mut b);
}

pub fn enc_u128(out: &mut Vec<u8>, x: u128)
    ensures
        final(out)@ == old(out)@ + ser_u128(x),
{
    let mut b = u128_to_le_bytes(x);
    out.append(&mut b);
}

pub fn enc_i64(out: &mut Vec<u8>, x: i64)
    ensures
        final(out)@ == old(out)@ + ser_i64(x),
{
    enc_u64(out, x as u64);
}

pub fn enc_bytes(out: &mut Vec<u8>, b: &[u8])
    ensures
        final(out)@ == old(out)@ + ser_bytes(b@),
        bytes_ok(b@),
{
    enc_u64(out, b.len() as u64);
    out.extend_from_slice(b);
    proof {
        assert(final(out)@ =~= old(out)@ + ser_bytes(b@));
    }
}

pub fn enc_string(out: &mut Vec<u8>, s: &str)
    ensures
        final(out)@ == old(out)@ + ser_string(s@),
        str_ok(s@),
{
    let bytes = s.as_bytes();
    enc_bytes(out, bytes);
}

pub fn enc_opt_string(out: &mut Vec<u8>, o: &Option<String>)
    ensures
        final(out)@ == old(out)@ + ser_opt_string(o.deep_view()),
        o.deep_view() matches Some(s) ==> str_ok(s),
{
    match o {
        Option::None => {
            out.push(0u8);
            proof {
                assert(final(out)@ =~= old(out)@ + ser_opt_string(o.deep_view()));
            }
        },
        Option::Some(s) => {
            out.push(1u8);
            enc_string(out, s.as_str());
            proof {
                assert(final(out)@ =~= old(out)@ + ser_opt_string(o.deep_view()));
            }
        },
    }
}

pub fn enc_opt_i64(out: &mut Vec<u8>, o: &Option<i64>)
    ensures
        final(out)@ == old(out)@ + ser_opt_i64(*o),
{
    match o {
        Option::None => {
            out.push(0u8);
            proof {
                assert(final(out)@ =~= old(out)@ + ser_opt_i64(*o));
            }
        },
        Option::Some(x) => {
            out.push(1u8);
            enc_i64(out, *x);
            proof {
                assert(final(out)@ =~= old(out)@ + ser_opt_i64(*o));
            }
        },
    }
}

pub fn enc_strings(out: &mut Vec<u8>, ss: &Vec<String>)
    ensures
        final(out)@ == old(out)@ + ser_strings(ss.deep_view()),
        strings_ok(ss.deep_view()),
{
    enc_u64(out, ss.len() as u64);
    let ghost base = out@;
    let n = ss.len();
    let mut i: usize = 0;
    while i < n
        invariant
            i <= n == ss@.len(),
            out@ == base + ser_strings_items(ss.deep_view().take(i as int)),
            forall|j: int| 0 <= j < i ==> str_ok(#[trigger] ss.deep_view()[j]),
        decreases n - i,
    {
        let ghost pre = ss.deep_view().take(i as int);
        enc_string(out, ss[i].as_str());
        proof {
            assert(ss.deep_view().take(i + 1) =~= pre.push(ss.deep_view()[i as int]));
            assert(ss.deep_view()[i as int] == ss@[i as int]@);
            lemma_ser_strings_items_snoc(pre, ss.deep_view()[i as int]);
        }
        i += 1;
    }
    proof {
        assert(ss.deep_view().take(n as int) =~= ss.deep_view());
        assert(ser_u64(ss@.len() as u64) == ser_u64(ss.deep_view().len() as u64));
        assert(final(out)@ =~= old(out)@ + ser_strings(ss.deep_view()));
    }
}

// ---------------------------------------------------------------------------
// executable decoders: read one field at a position, returning the value and
// the position after it; their results agree exactly with the spec parsers
// ---------------------------------------------------------------------------
pub fn dec_u32(b: &[u8], pos: usize) -> (r: Option<(u32, usize)>)
    requires
        pos <= b@.len(),
    ensures
        match r {
            Some(p) => pos <= p.1 <= b@.len() && sp_u32(b@.skip(pos as int)) == Some(
                (p.0, p.1 - pos as int),
            ),
            None => sp_u32(b@.skip(pos as int)) is None,
        },
{
    if b.len() - pos >= 4 {
        let s = slice_subrange(b, pos, pos + 4);
        let x = u32_from_le_bytes(s);
        proof {
            assert(b@.skip(pos as int).take(4) =~= b@.subrange(pos as int, pos + 4));
        }
        Some((x, pos + 4))
    } else {
        None
    }
}

pub fn dec_u64(b: &[u8], pos: usize) -> (r: Option<(u64, usize)>)
    requires
        pos <= b@.len(),
    ensures
        match r {
            Some(p) => pos <= p.1 <= b@.len() && sp_u64(b@.skip(pos as int)) == Some(
                (p.0, p.1 - pos as int),
            ),
            None => sp_u64(b@.skip(pos as int)) is None,
        },
{
    if b.len() - pos >= 8 {
        let s = slice_subrange(b, pos, pos + 8);
        let x = u64_from_le_bytes(s);
        proof {
            assert(b@.skip(pos as int).take(8) =~= b@.subrange(pos as int, pos + 8));
        }
        Some((x, pos + 8))
    } else {
        None
    }
}

pub fn dec_u128(b: &[u8], pos: usize) -> (r: Option<(u128, usize)>)
    requires
        pos <= b@.len(),
    ensures
        match r {
            Some(p) => pos <= p.1 <= b@.len() && sp_u128(b@.skip(pos as int)) == Some(
                (p.0, p.1 - pos as int),
            ),
            None => sp_u128(b@.skip(pos as int)) is None,
        },
{
    if b.len() - pos >= 16 {
        let s = slice_subrange(b, pos, pos + 16);
        let x = u128_from_le_bytes(s);
        proof {
            assert(b@.skip(pos as int).take(16) =~= b@.subrange(pos as int, pos + 16));
        }
        Some((x, pos + 16))
    } else {
        None
    }
}

pub fn dec_i64(b: &[u8], pos: usize) -> (r: Option<(i64, usize)>)
    requires
        pos <= b@.len(),
    ensures
        match r {
            Some(p) => pos <= p.1 <= b@.len() && sp_i64(b@.skip(pos as int)) == Some(
                (p.0, p.1 - pos as int),
            ),
            None => sp_i64(b@.skip(pos as int)) is None,
        },
{
    match dec_u64(b, pos) {
        Some((x, end)) => Some((x as i64, end)),
        None => None,
    }
}

pub fn dec_bytes(b: &[u8], pos: usize) -> (r: Option<(Vec<u8>, usize)>)
    requires
        pos <= b@.len(),
    ensures
        match r {
            Some((v, end)) => pos <= end <= b@.len() && sp_bytes(b@.skip(pos as int)) == Some(
                (v@, end - pos as int),
            ),
            None => sp_bytes(b@.skip(pos as int)) is None,
        },
{
    match dec_u64(b, pos) {
        Some((n, mid)) => {
            if n <= (b.len() - mid) as u64 {
                let end = mid + (n as usize);
                let s = slice_subrange(b, mid, end);
                let v = slice_to_vec(s);
                proof {
                    let t = b@.skip(pos as int);
                    assert(t.subrange(8, 8 + n as int) =~= b@.subrange(mid as int, end as int));
                }
                Some((v, end))
            } else {
                None
            }
        },
        None => None,
    }
}

pub fn dec_string(b: &[u8], pos: usize) -> (r: Option<(String, usize)>)
    requires
        pos <= b@.len(),
    ensures
        match r {
            Some((s, end)) => pos <= end <= b@.len() && sp_string(b@.skip(pos as int)) == Some(
                (s@, end - pos as int),
            ),
            None => sp_string(b@.skip(pos as int)) is None,
        },
{
    match dec_bytes(b, pos) {
        Some((v, end)) => {
            match string_from_utf8(v) {
                Some(s) => Some((s, end)),
                None => None,
            }
        },
        None => None,
    }
}

pub fn dec_opt_string(b: &[u8], pos: usize) -> (r: Option<(Option<String>, usize)>)
    requires
        pos <= b@.len(),
    ensures
        match r {
            Some((o, end)) => pos <= end <= b@.len() && sp_opt_string(b@.skip(pos as int))
                == Some((o.deep_view(), end - pos as int)),
            None => sp_opt_string(b@.skip(pos as int)) is None,
        },
{
    if b.len() - pos < 1 {
        return None;
    }
    let tag = b[pos];
    proof {
        assert(b@.skip(pos as int)[0] == b@[pos as int]);
    }
    if tag == 0u8 {
        let r: Option<String> = None;
        proof {
            assert(r.deep_view() is None);
        }
        Some((r, pos + 1))
    } else if tag == 1u8 {
        proof {
            assert(b@.skip(pos as int).skip(1) =~= b@.skip(pos + 1));
        }
        match dec_string(b, pos + 1) {
            Some((s, end)) => {
                let r: Option<String> = Some(s);
                Some((r, end))
            },
            None => None,
        }
    } else {
        None
    }
}

pub fn dec_opt_i64(b: &[u8], pos: usize) -> (r: Option<(Option<i64>, usize)>)
    requires
        pos <= b@.len(),
    ensures
        match r {
            Some((o, end)) => pos <= end <= b@.len() && sp_opt_i64(b@.skip(pos as int)) == Some(
                (o, end - pos as int),
            ),
            None => sp_opt_i64(b@.skip(pos as int)) is None,
        },
{
    if b.len() - pos < 1 {
        return None;
    }
    let tag = b[pos];
    proof {
        assert(b@.skip(pos as int)[0] == b@[pos as int]);
    }
    if tag == 0u8 {
        Some((None, pos + 1))
    } else if tag == 1u8 {
        proof {
            assert(b@.skip(pos as int).skip(1) =~= b@.skip(pos + 1));
        }
        match dec_i64(b, pos + 1) {
            Some((x, end)) => Some((Some(x), end)),
            None => None,
        }
    } else {
        None
    }
}

pub fn dec_strings(b: &[u8], pos: usize) -> (r: Option<(Vec<String>, usize)>)
    requires
        pos <= b@.len(),
    ensures
        match r {
            Some((ss, end)) => pos <= end <= b@.len() && sp_strings(b@.skip(pos as int)) == Some(
                (ss.deep_view(), end - pos as int),
            ),
            None => sp_strings(b@.skip(pos as int)) is None,
        },
{
    let (count, start) = match dec_u64(b, pos) {
        Some(p) => p,
        None => {
            return None;
        },
    };
    let ghost whole = b@.skip(pos as int);
    let mut acc: Vec<String> = Vec::new();
    let mut p: usize = start;
    let mut k: u64 = 0;
    proof {
        assert(whole.skip(8) =~= b@.skip(start as int));
    }
    while k < count
        invariant
            pos <= start <= p <= b@.len(),
            k <= count,
            acc.deep_view().len() == k as int,
            whole == b@.skip(pos as int),
            sp_u64(whole) == Some((count, 8int)),
            whole.skip(8) == b@.skip(start as int),
            (match sp_strings_items(b@.skip(p as int), (count - k) as nat) {
                Option::Some((ss2, c2)) => sp_strings_items(b@.skip(start as int), count as nat)
                    == Some((acc.deep_view() + ss2, (p - start) + c2)),
                Option::None => sp_strings_items(b@.skip(start as int), count as nat) is None,
            }),
        decreases count - k,
    {
        let ghost pre = acc.deep_view();
        match dec_string(b, p) {
            Some((s, end)) => {
                proof {
                    assert(b@.skip(p as int).skip(end - p as int) =~= b@.skip(end as int));
                }
                acc.push(s);
                proof {
                    assert(acc.deep_view() =~= pre.push(s@));
                    assert(seq![s@] + acc.deep_view().skip(k as int + 1) =~= seq![s@]);
                    assert forall|ss2: Seq<Seq<char>>| true implies pre + (seq![s@] + ss2) =~= (
                    pre.push(s@) + ss2) by {}
                }
                p = end;
            },
            None => {
                return None;
            },
        }
        k += 1;
    }
    proof {
        assert(sp_strings_items(b@.skip(p as int), 0nat) == Some(
            (Seq::<Seq<char>>::empty(), 0int),
        ));
        assert(acc.deep_view() + Seq::<Seq<char>>::empty() =~= acc.deep_view());
    }
    Some((acc, p))
}

} // verus!
