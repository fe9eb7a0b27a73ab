//! Hexadecimal text for digests and signatures: lowercase rendering, and
//! decoding that accepts either case and exactly the even-length strings of
//! hex digits.
use vstd::prelude::*;
use crate::strutil::{chars_of_bytes, string_from_ascii};

verus! {

/// The lowercase hex character of a value below 16.
pub open spec fn hex_digit_char(n: u8) -> char
    recommends
        n < 16,
{
    if n < 10 {
        ((n + 48) as u8) as char
    } else {
        ((n + 87) as u8) as char
    }
}

/// The lowercase hex spelling of a byte sequence, two characters per byte.
pub open spec fn hex_chars_of(b: Seq<u8>) -> Seq<char>
    decreases b.len(),
{
    if b.len() == 0 {
        Seq::empty()
    } else {
        hex_chars_of(b.take(b.len() - 1)) + seq![
            hex_digit_char(b.last() / 16),
            hex_digit_char(b.last() % 16),
        ]
    }
}

/// Renders bytes as lowercase hex text.
pub fn hex_encode(b: &[u8]) -> (r: String)
    ensures
        r@ == hex_chars_of(b@),
{
    let n = b.len();
    let mut out: Vec<u8> = Vec::new();
    let mut i: usize = 0;
    while i < n
        invariant
            i <= n == b@.len(),
            chars_of_bytes(out@) == hex_chars_of(b@.take(i as int)),
            forall|j: int| 0 <= j < out@.len() ==> out@[j] < 0x80,
        decreases n - i,
    {
        let ghost pre = out@;
        let byte = b[i];
        let hi: u8 = byte / 16;
        let lo: u8 = byte % 16;
        let hc: u8 = if hi < 10 {
            hi + 48
        } else {
            hi + 87
        };
        let lc: u8 = if lo < 10 {
            lo + 48
        } else {
            lo + 87
        };
        out.push(hc);
        out.push(lc);
        proof {
            assert(b@.take(i + 1).take(i as int) =~= b@.take(i as int));
            assert(b@.take(i + 1).last() == b@[i as int]);
            assert(chars_of_bytes(pre.push(hc).push(lc)) =~= chars_of_bytes(pre) + seq![
                hc as char,
                lc as char,
            ]);
            assert(hc as char == hex_digit_char(hi));
            assert(lc as char == hex_digit_char(lo));
        }
        i += 1;
    }
    proof {
        assert(b@.take(n as int) =~= b@);
    }
    string_from_ascii(out)
}

/// The value of one hex digit character, either case.
pub open spec fn hex_val(c: char) -> Option<u8> {
    if '0' <= c && c <= '9' {
        Some(((c as u8) - 48) as u8)
    } else if 'a' <= c && c <= 'f' {
        Some(((c as u8) - 87) as u8)
    } else if 'A' <= c && c <= 'F' {
        Some(((c as u8) - 55) as u8)
    } else {
        None
    }
}

/// What hex decoding accepts and yields: pairs of hex digits, one byte per
/// pair.
pub open spec fn spec_hex_decode(s: Seq<char>) -> Option<Seq<u8>>
    decreases s.len(),
{
    if s.len() % 2 != 0 {
        None
    } else if s.len() == 0 {
        Some(Seq::empty())
    } else {
        match (hex_val(s[0]), hex_val(s[1])) {
            (Option::Some(hi), Option::Some(lo)) => match spec_hex_decode(s.skip(2)) {
                Option::Some(rest) => Some(seq![(hi * 16 + lo) as u8] + rest),
                Option::None => None,
            },
            _ => None,
        }
    }
}

/// The value of one hex digit character, either case.
fn hex_val_exec(c: char) -> (r: Option<u8>)
    ensures
        r == hex_val(c),
{
    if '0' <= c && c <= '9' {
        Some((c as u8) - 48)
    } else if 'a' <= c && c <= 'f' {
        Some((c as u8) - 87)
    } else if 'A' <= c && c <= 'F' {
        Some((c as u8) - 55)
    } else {
        None
    }
}

proof fn lemma_hex_decode_step(s: Seq<char>, i: int)
    requires
        0 <= i <= s.len(),
        s.len() % 2 == 0,
        i % 2 == 0,
    ensures
        spec_hex_decode(s) == (match spec_hex_decode(s.skip(i)) {
            Option::Some(rest) => match spec_hex_decode(s.take(i)) {
                Option::Some(pre) => Some(pre + rest),
                Option::None => Option::<Seq<u8>>::None,
            },
            Option::None => (match spec_hex_decode(s.take(i)) {
                Option::Some(_) => Option::<Seq<u8>>::None,
                Option::None => Option::<Seq<u8>>::None,
            }),
        }),
    decreases i,
{
    if i == 0 {
        assert(s.skip(0) =~= s);
        assert(s.take(0) =~= Seq::<char>::empty());
        assert(spec_hex_decode(Seq::<char>::empty()) == Some(Seq::<u8>::empty()));
        match spec_hex_decode(s) {
            Option::Some(v) => {
                assert(Seq::<u8>::empty() + v =~= v);
            },
            Option::None => {},
        }
    } else {
        lemma_hex_decode_step(s, i - 2);
        let pre1 = s.take(i - 2);
        let pre2 = s.take(i);
        let rest1 = s.skip(i - 2);
        let rest2 = s.skip(i);
        assert(rest1.len() % 2 == 0);
        assert(pre2.len() % 2 == 0);
        assert(pre1.len() % 2 == 0);
        if rest1.len() > 0 {
            assert(rest1[0] == s[i - 2]);
            assert(rest1[1] == s[i - 1]);
            assert(rest1.skip(2) =~= rest2);
        }
        if pre2.len() > 0 {
            assert(pre2[0] == s[0]);
        }
        // relate the parse of the longer prefix to the shorter one
        lemma_hex_take_snoc(s, i);
        match (hex_val(s[i - 2]), hex_val(s[i - 1])) {
            (Option::Some(hi), Option::Some(lo)) => {
                match spec_hex_decode(pre1) {
                    Option::Some(pv) => {
                        match spec_hex_decode(rest2) {
                            Option::Some(rv) => {
                                assert((pv + seq![(hi * 16 + lo) as u8]) + rv =~= pv + (seq![
                                    (hi * 16 + lo) as u8,
                                ] + rv));
                            },
                            Option::None => {},
                        }
                    },
                    Option::None => {},
                }
            },
            _ => {},
        }
    }
}

/// Parsing two more characters extends the parsed prefix by one byte.
proof fn lemma_hex_take_snoc(s: Seq<char>, i: int)
    requires
        2 <= i <= s.len(),
        i % 2 == 0,
    ensures
        spec_hex_decode(s.take(i)) == (match (hex_val(s[i - 2]), hex_val(s[i - 1])) {
            (Option::Some(hi), Option::Some(lo)) => match spec_hex_decode(s.take(i - 2)) {
                Option::Some(pre) => Some(pre.push((hi * 16 + lo) as u8)),
                Option::None => Option::<Seq<u8>>::None,
            },
            _ => Option::<Seq<u8>>::None,
        }),
    decreases i,
{
    if i == 2 {
        let t = s.take(2);
        assert(t[0] == s[0]);
        assert(t[1] == s[1]);
        assert(t.skip(2) =~= Seq::<char>::empty());
        match (hex_val(s[0]), hex_val(s[1])) {
            (Option::Some(hi), Option::Some(lo)) => {
                assert(s.take(0) =~= Seq::<char>::empty());
                assert(seq![(hi * 16 + lo) as u8] + Seq::<u8>::empty() =~= Seq::<
                    u8,
                >::empty().push((hi * 16 + lo) as u8));
            },
            _ => {},
        }
    } else {
        let t = s.take(i);
        let t2 = s.take(i - 2);
        assert(t[0] == s[0]);
        assert(t[1] == s[1]);
        assert(t2[0] == s[0]);
        assert(t2[1] == s[1]);
        assert(t.skip(2) =~= s.skip(2).take(i - 2));
        assert(t2.skip(2) =~= s.skip(2).take(i - 4));
        lemma_hex_take_snoc(s.skip(2), i - 2);
        assert(s.skip(2)[i - 4] == s[i - 2]);
        assert(s.skip(2)[i - 3] == s[i - 1]);
        match (hex_val(s[0]), hex_val(s[1])) {
            (Option::Some(h0), Option::Some(l0)) => {
                match (hex_val(s[i - 2]), hex_val(s[i - 1])) {
                    (Option::Some(hi), Option::Some(lo)) => {
                        match spec_hex_decode(s.skip(2).take(i - 4)) {
                            Option::Some(pv) => {
                                assert(seq![(h0 * 16 + l0) as u8] + pv.push((hi * 16 + lo) as u8)
                                    =~= (seq![(h0 * 16 + l0) as u8] + pv).push(
                                    (hi * 16 + lo) as u8,
                                ));
                            },
                            Option::None => {},
                        }
                    },
                    _ => {},
                }
            },
            _ => {},
        }
    }
}

/// Decodes hex text into bytes; accepts exactly the even-length strings of
/// hex digits.
pub fn hex_decode(s: &str) -> (r: Option<Vec<u8>>)
    ensures
        match r {
            Some(v) => spec_hex_decode(s@) == Some(v@),
            None => spec_hex_decode(s@) is None,
        },
{
    let n = s.unicode_len();
    if n % 2 != 0 {
        return None;
    }
    let mut out: Vec<u8> = Vec::new();
    let mut i: usize = 0;
    while i < n
        invariant
            i <= n == s@.len(),
            n % 2 == 0,
            i % 2 == 0,
            spec_hex_decode(s@.take(i as int)) == Some(out@),
        decreases n - i,
    {
        let hi = match hex_val_exec(s.get_char(i)) {
            Some(x) => x,
            None => {
                proof {
                    lemma_hex_take_snoc(s@, i + 2);
                    lemma_hex_decode_step(s@, i + 2);
                }
                return None;
            },
        };
        let lo = match hex_val_exec(s.get_char(i + 1)) {
            Some(x) => x,
            None => {
                proof {
                    lemma_hex_take_snoc(s@, i + 2);
                    lemma_hex_decode_step(s@, i + 2);
                }
                return None;
            },
        };
        out.push(hi * 16 + lo);
        proof {
            lemma_hex_take_snoc(s@, i + 2);
        }
        i += 2;
    }
    proof {
        assert(s@.take(n as int) =~= s@);
    }
    Some(out)
}

} // verus!
