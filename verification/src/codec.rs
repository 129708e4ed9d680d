//! Text encodings for single values: canonical decimal numbers and the
//! lowercase hex form of field elements.
//!
//! Every encoder here is paired with a parser whose contract pins down
//! exactly which texts it accepts, which is what makes the round-trip
//! laws provable.

use vstd::prelude::*;
use vstd::string::StringExecFns;
use vstd::string::StrSliceExecFns;
use crate::field::{FieldElement, le_int, fr_modulus};
use vstd::arithmetic::div_mod::lemma_fundamental_div_mod_converse;

verus! {

/// A decimal digit.
pub open spec fn is_dec_digit(c: char) -> bool {
    '0' as u32 <= c as u32 && c as u32 <= '9' as u32
}

pub open spec fn dec_digits(s: Seq<char>) -> bool {
    forall|i: int| 0 <= i < s.len() ==> is_dec_digit(#[trigger] s[i])
}

/// The number a digit string denotes.
pub open spec fn dec_value(s: Seq<char>) -> int
    decreases s.len(),
{
    if s.len() == 0 {
        0
    } else {
        10 * dec_value(s.drop_last()) + (s.last() as u32 - 48)
    }
}

/// What parsing an unsigned 64-bit decimal returns: defined exactly on
/// non-empty all-digit strings whose value fits.
pub open spec fn spec_parse_u64(s: Seq<char>) -> Option<u64> {
    if s.len() > 0 && dec_digits(s) && dec_value(s) <= u64::MAX {
        Some(dec_value(s) as u64)
    } else {
        None
    }
}

proof fn lemma_dec_value_nonneg(s: Seq<char>)
    requires
        dec_digits(s),
    ensures
        dec_value(s) >= 0,
    decreases s.len(),
{
    if s.len() > 0 {
        assert(dec_digits(s.drop_last())) by {
            assert(forall|i: int| 0 <= i < s.len() - 1 ==> s.drop_last()[i] == s[i]);
        }
        lemma_dec_value_nonneg(s.drop_last());
    }
}

/// Appending digits never decreases the denoted number.
proof fn lemma_dec_value_prefix(s: Seq<char>, i: int)
    requires
        dec_digits(s),
        0 <= i <= s.len(),
    ensures
        dec_value(s.take(i)) <= dec_value(s),
    decreases s.len(),
{
    if i == s.len() {
        assert(s.take(i) =~= s);
    } else {
        assert(dec_digits(s.drop_last())) by {
            assert(forall|j: int| 0 <= j < s.len() - 1 ==> s.drop_last()[j] == s[j]);
        }
        assert(s.take(i) =~= s.drop_last().take(i));
        lemma_dec_value_prefix(s.drop_last(), i);
        lemma_dec_value_nonneg(s.drop_last());
    }
}

/// Parse a canonical unsigned decimal. Returns the denoted number
/// exactly when the string is non-empty, all digits, and fits in 64
/// bits; anything else is rejected.
pub fn parse_u64(s: &str) -> (r: Option<u64>)
    ensures
        r == spec_parse_u64(s@),
{
    let n = s.unicode_len();
    if n == 0 {
        return None;
    }
    let mut acc: u64 = 0;
    let mut i: usize = 0;
    while i < n
        invariant
            i <= n,
            n == s@.len(),
            dec_digits(s@.take(i as int)),
            acc as int == dec_value(s@.take(i as int)),
        decreases n - i,
    {
        let c = s.get_char(i);
        let u = c as u32;
        if u < 48 || u > 57 {
            proof {
                assert(!is_dec_digit(s@[i as int]));
            }
            return None;
        }
        let d: u64 = (u - 48) as u64;
        proof {
            assert(s@.take(i + 1).drop_last() =~= s@.take(i as int));
            assert(s@.take(i + 1).last() == s@[i as int]);
            assert(dec_digits(s@.take(i + 1))) by {
                assert(forall|j: int| 0 <= j < i + 1 ==> s@.take(i + 1)[j] == s@[j]);
            }
        }
        let big = match acc.checked_mul(10) {
            Some(t) => t.checked_add(d),
            None => None,
        };
        match big {
            Some(v) => {
                acc = v;
            },
            None => {
                proof {
                    if dec_digits(s@) {
                        lemma_dec_value_prefix(s@, i + 1);
                    }
                }
                return None;
            },
        }
        i += 1;
    }
    proof {
        assert(s@.take(n as int) =~= s@);
    }
    Some(acc)
}

/// The canonical decimal spelling of a non-negative number.
pub open spec fn dec_of(n: int) -> Seq<char>
    decreases n,
{
    if n < 10 {
        seq![dec_char(n)]
    } else {
        dec_of(n / 10) + seq![dec_char(n % 10)]
    }
}

/// The digit character for a value in 0..=9.
pub open spec fn dec_char(d: int) -> char {
    if d == 0 {
        '0'
    } else if d == 1 {
        '1'
    } else if d == 2 {
        '2'
    } else if d == 3 {
        '3'
    } else if d == 4 {
        '4'
    } else if d == 5 {
        '5'
    } else if d == 6 {
        '6'
    } else if d == 7 {
        '7'
    } else if d == 8 {
        '8'
    } else {
        '9'
    }
}

/// The canonical spelling denotes the number it was made from, and is
/// all digits: parsing inverts printing.
pub proof fn lemma_dec_of_value(n: int)
    requires
        n >= 0,
    ensures
        dec_digits(dec_of(n)),
        dec_value(dec_of(n)) == n,
        dec_of(n).len() > 0,
    decreases n,
{
    if n < 10 {
        assert(dec_of(n) =~= seq![dec_char(n)]);
        assert(seq![dec_char(n)].drop_last() =~= Seq::<char>::empty());
        assert(dec_value(seq![dec_char(n)]) == 10 * dec_value(Seq::<char>::empty()) + (dec_char(n) as u32 - 48));
        assert(dec_char(n) as u32 - 48 == n);
        assert(is_dec_digit(dec_char(n)));
        assert(forall|i: int| 0 <= i < 1 ==> is_dec_digit(#[trigger] seq![dec_char(n)][i]));
    } else {
        lemma_dec_of_value(n / 10);
        let a = dec_of(n / 10);
        let d = n % 10;
        assert((a + seq![dec_char(d)]).drop_last() =~= a);
        assert((a + seq![dec_char(d)]).last() == dec_char(d));
        assert(dec_value(a + seq![dec_char(d)]) == 10 * dec_value(a) + (dec_char(d) as u32 - 48));
        assert(dec_char(d) as u32 - 48 == d);
        assert(10 * (n / 10) + n % 10 == n);
        assert(is_dec_digit(dec_char(d)));
        assert(forall|i: int| 0 <= i < a.len() + 1 ==> is_dec_digit(#[trigger] (a + seq![dec_char(d)])[i]));
    }
}

/// Round trip for the decimal text form: parsing the canonical spelling
/// of any 64-bit number yields that number back.
pub proof fn lemma_decimal_round_trip(n: u64)
    ensures
        spec_parse_u64(dec_of(n as int)) == Some(n),
{
    lemma_dec_of_value(n as int);
}

/// The digit character as a one-character string.
fn dec_char_str(d: u64) -> (r: &'static str)
    requires
        d < 10,
    ensures
        r@ =~= seq![dec_char(d as int)],
{
    proof {
        reveal_strlit("0");
        reveal_strlit("1");
        reveal_strlit("2");
        reveal_strlit("3");
        reveal_strlit("4");
        reveal_strlit("5");
        reveal_strlit("6");
        reveal_strlit("7");
        reveal_strlit("8");
        reveal_strlit("9");
    }
    match d {
        0 => "0",
        1 => "1",
        2 => "2",
        3 => "3",
        4 => "4",
        5 => "5",
        6 => "6",
        7 => "7",
        8 => "8",
        _ => "9",
    }
}

/// Print a number in canonical decimal.
pub fn u64_to_string(n: u64) -> (r: String)
    ensures
        r@ == dec_of(n as int),
    decreases n,
{
    if n < 10 {
        let mut s = String::new();
        s.append(dec_char_str(n));
        proof {
            assert(s@ =~= dec_of(n as int));
        }
        s
    } else {
        let mut s = u64_to_string(n / 10);
        s.append(dec_char_str(n % 10));
        proof {
            assert(s@ =~= dec_of(n as int));
        }
        s
    }
}

/// A lowercase hex digit character for a value in 0..=15.
pub open spec fn hex_char(d: int) -> char {
    if d < 10 {
        dec_char(d)
    } else if d == 10 {
        'a'
    } else if d == 11 {
        'b'
    } else if d == 12 {
        'c'
    } else if d == 13 {
        'd'
    } else if d == 14 {
        'e'
    } else {
        'f'
    }
}

/// The value of a hex digit character, or 16 if it is not one
/// (lowercase only: the canonical form).
pub open spec fn hex_val(c: char) -> int {
    if '0' as u32 <= c as u32 && c as u32 <= '9' as u32 {
        c as u32 - 48
    } else if 'a' as u32 <= c as u32 && c as u32 <= 'f' as u32 {
        c as u32 - 87
    } else {
        16
    }
}

pub proof fn lemma_hex_char_val(d: int)
    requires
        0 <= d < 16,
    ensures
        hex_val(hex_char(d)) == d,
{
}

/// Lowercase hex spelling of a byte string, two digits per byte, bytes
/// in their stored (little-endian) order.
pub open spec fn hex_of(bytes: Seq<u8>) -> Seq<char>
    decreases bytes.len(),
{
    if bytes.len() == 0 {
        Seq::<char>::empty()
    } else {
        seq![hex_char(bytes[0] as int / 16), hex_char(bytes[0] as int % 16)] + hex_of(bytes.skip(1))
    }
}

pub proof fn lemma_hex_of_len(bytes: Seq<u8>)
    ensures
        hex_of(bytes).len() == 2 * bytes.len(),
    decreases bytes.len(),
{
    if bytes.len() > 0 {
        lemma_hex_of_len(bytes.skip(1));
    }
}

pub proof fn lemma_hex_of_append(a: Seq<u8>, b: Seq<u8>)
    ensures
        hex_of(a + b) == hex_of(a) + hex_of(b),
    decreases a.len(),
{
    if a.len() == 0 {
        assert(a + b =~= b);
        assert(hex_of(a) + hex_of(b) =~= hex_of(b));
    } else {
        assert((a + b).skip(1) =~= a.skip(1) + b);
        lemma_hex_of_append(a.skip(1), b);
        assert((a + b)[0] == a[0]);
        assert(hex_of(a + b) =~= hex_of(a) + hex_of(b));
    }
}

proof fn lemma_hex_of_singleton(x: u8)
    ensures
        hex_of(seq![x]) == seq![hex_char(x as int / 16), hex_char(x as int % 16)],
{
    assert(seq![x].skip(1) =~= Seq::<u8>::empty());
    assert(hex_of(Seq::<u8>::empty()) == Seq::<char>::empty());
    assert(seq![x][0] == x);
    assert(seq![hex_char(x as int / 16), hex_char(x as int % 16)] + Seq::<char>::empty()
        =~= seq![hex_char(x as int / 16), hex_char(x as int % 16)]);
}

/// Each character of a hex spelling is a hex digit, and the digit pair
/// at position `2*i` spells byte `i`.
pub proof fn lemma_hex_of_index(bytes: Seq<u8>, i: int)
    requires
        0 <= i < bytes.len(),
    ensures
        hex_of(bytes).len() == 2 * bytes.len(),
        hex_of(bytes)[2 * i] == hex_char(bytes[i] as int / 16),
        hex_of(bytes)[2 * i + 1] == hex_char(bytes[i] as int % 16),
    decreases i,
{
    lemma_hex_of_len(bytes);
    lemma_hex_of_len(bytes.skip(1));
    if i == 0 {
    } else {
        lemma_hex_of_index(bytes.skip(1), i - 1);
        assert(bytes.skip(1)[i - 1] == bytes[i]);
    }
}

/// Hex spelling is injective on equal-length byte strings.
pub proof fn lemma_hex_of_injective(a: Seq<u8>, b: Seq<u8>)
    requires
        a.len() == b.len(),
        hex_of(a) == hex_of(b),
    ensures
        a == b,
    decreases a.len(),
{
    if a.len() > 0 {
        lemma_hex_of_len(a.skip(1));
        lemma_hex_of_len(b.skip(1));
        assert(hex_of(a)[0] == hex_char(a[0] as int / 16) && hex_of(a)[1] == hex_char(a[0] as int % 16));
        assert(hex_of(b)[0] == hex_char(b[0] as int / 16) && hex_of(b)[1] == hex_char(b[0] as int % 16));
        lemma_hex_char_val(a[0] as int / 16);
        lemma_hex_char_val(a[0] as int % 16);
        lemma_hex_char_val(b[0] as int / 16);
        lemma_hex_char_val(b[0] as int % 16);
        assert(a[0] as int / 16 == b[0] as int / 16 && a[0] as int % 16 == b[0] as int % 16);
        assert(a[0] == b[0]);
        assert(hex_of(a).skip(2) =~= hex_of(a.skip(1)));
        assert(hex_of(b).skip(2) =~= hex_of(b.skip(1)));
        assert(hex_of(a.skip(1)) == hex_of(b.skip(1)));
        lemma_hex_of_injective(a.skip(1), b.skip(1));
        assert(forall|i: int| 1 <= i < a.len() ==> a[i] == a.skip(1)[i - 1] && b[i] == b.skip(1)[i - 1]);
        assert(a =~= b);
    } else {
        assert(a =~= b);
    }
}

/// A hex digit character as a one-character string.
fn hex_char_str(d: u8) -> (r: &'static str)
    requires
        d < 16,
    ensures
        r@ =~= seq![hex_char(d as int)],
{
    proof {
        reveal_strlit("0");
        reveal_strlit("1");
        reveal_strlit("2");
        reveal_strlit("3");
        reveal_strlit("4");
        reveal_strlit("5");
        reveal_strlit("6");
        reveal_strlit("7");
        reveal_strlit("8");
        reveal_strlit("9");
        reveal_strlit("a");
        reveal_strlit("b");
        reveal_strlit("c");
        reveal_strlit("d");
        reveal_strlit("e");
        reveal_strlit("f");
    }
    match d {
        0 => "0",
        1 => "1",
        2 => "2",
        3 => "3",
        4 => "4",
        5 => "5",
        6 => "6",
        7 => "7",
        8 => "8",
        9 => "9",
        10 => "a",
        11 => "b",
        12 => "c",
        13 => "d",
        14 => "e",
        _ => "f",
    }
}

/// Print bytes as lowercase hex.
pub fn bytes_to_hex(bytes: &Vec<u8>) -> (r: String)
    ensures
        r@ == hex_of(bytes@),
{
    let mut s = String::new();
    let mut i: usize = 0;
    while i < bytes.len()
        invariant
            i <= bytes@.len(),
            s@ == hex_of(bytes@.take(i as int)),
        decreases bytes@.len() - i,
    {
        let b = bytes[i];
        s.append(hex_char_str(b / 16));
        s.append(hex_char_str(b % 16));
        proof {
            assert(bytes@.take(i + 1) =~= bytes@.take(i as int) + seq![bytes@[i as int]]);
            lemma_hex_of_append(bytes@.take(i as int), seq![bytes@[i as int]]);
            lemma_hex_of_singleton(bytes@[i as int]);
            assert(s@ =~= hex_of(bytes@.take(i + 1)));
        }
        i += 1;
    }
    proof {
        assert(bytes@.take(bytes@.len() as int) =~= bytes@);
    }
    s
}

/// Parse exactly `2 * want` lowercase hex digits into bytes. Succeeds
/// precisely on the spellings `hex_of` produces for `want`-byte strings.
pub fn hex_to_bytes(s: &str, want: usize) -> (r: Option<Vec<u8>>)
    requires
        want <= usize::MAX / 2,
    ensures
        r matches Some(v) ==> v@.len() == want && hex_of(v@) == s@,
        r is None ==> !(exists|b: Seq<u8>| b.len() == want && hex_of(b) == s@),
{
    let n = s.unicode_len();
    if n != 2 * want {
        proof {
            if exists|b: Seq<u8>| b.len() == want as int && hex_of(b) == s@ {
                let b = choose|b: Seq<u8>| b.len() == want as int && hex_of(b) == s@;
                lemma_hex_of_len(b);
            }
        }
        return None;
    }
    let mut out: Vec<u8> = Vec::new();
    let mut i: usize = 0;
    while i < want
        invariant
            i <= want,
            n == s@.len(),
            n == 2 * want,
            out@.len() == i,
            hex_of(out@) == s@.take(2 * i as int),
        decreases want - i,
    {
        let hi = s.get_char(2 * i);
        let lo = s.get_char(2 * i + 1);
        let hv = hex_digit_value(hi);
        let lv = hex_digit_value(lo);
        if hv >= 16 || lv >= 16 {
            proof {
                lemma_hex_none(s@, want as int, 2 * i as int);
            }
            return None;
        }
        let b: u8 = hv * 16 + lv;
        proof {
            let prev = out@;
            assert(prev + seq![b] =~= prev.push(b));
            lemma_hex_of_append(prev, seq![b]);
            lemma_hex_of_singleton(b);
            lemma_hex_char_val(hv as int);
            lemma_hex_char_val(lv as int);
            lemma_fundamental_div_mod_converse(b as int, 16, hv as int, lv as int);
            assert(hex_char(hv as int) == s@[2 * i] && hex_char(lv as int) == s@[2 * i + 1]) by {
                lemma_hex_char_of_val(s@[2 * i]);
                lemma_hex_char_of_val(s@[2 * i + 1]);
            }
            assert(s@.take(2 * (i + 1) as int) =~= s@.take(2 * i as int) + seq![s@[2 * i], s@[2 * i + 1]]);
            assert(hex_of(prev.push(b)) =~= s@.take(2 * (i + 1) as int));
        }
        out.push(b);
        i += 1;
    }
    proof {
        assert(s@.take(2 * want as int) =~= s@);
    }
    Some(out)
}

/// A character with a hex value below 16 is the canonical spelling of
/// that value.
proof fn lemma_hex_char_of_val(c: char)
    requires
        hex_val(c) < 16,
    ensures
        hex_char(hex_val(c)) == c,
{
}

/// If the digit pair at `k` is malformed, no `want`-byte string spells
/// this text.
proof fn lemma_hex_none(s: Seq<char>, want: int, k: int)
    requires
        s.len() == 2 * want,
        0 <= k,
        k % 2 == 0,
        k + 1 < s.len(),
        hex_val(s[k]) >= 16 || hex_val(s[k + 1]) >= 16,
    ensures
        !(exists|b: Seq<u8>| b.len() == want && hex_of(b) == s),
{
    if exists|b: Seq<u8>| b.len() == want && hex_of(b) == s {
        let b = choose|b: Seq<u8>| b.len() == want && hex_of(b) == s;
        lemma_hex_of_index(b, k / 2);
        lemma_hex_char_val(b[k / 2] as int / 16);
        lemma_hex_char_val(b[k / 2] as int % 16);
    }
}

/// The hex value of a character (16 when it is not a lowercase hex
/// digit).
fn hex_digit_value(c: char) -> (r: u8)
    ensures
        r as int == hex_val(c),
        r <= 16,
{
    let u = c as u32;
    if u >= 48 && u <= 57 {
        (u - 48) as u8
    } else if u >= 97 && u <= 102 {
        (u - 87) as u8
    } else {
        16
    }
}

impl FieldElement {
    /// The canonical text form of an element: 64 lowercase hex digits.
    pub fn to_hex(&self) -> (r: String)
        ensures
            r@ == hex_of(self.bytes@),
    {
        bytes_to_hex(&self.bytes)
    }

    /// Parse the canonical text form. Succeeds exactly on the spelling
    /// of a well-formed element, and inverts `to_hex`.
    pub fn from_hex(s: &str) -> (r: Option<FieldElement>)
        ensures
            r matches Some(f) ==> f.wf() && hex_of(f.bytes@) == s@,
            r is None ==> !(exists|b: Seq<u8>| b.len() == 32 && le_int(b) < fr_modulus() && hex_of(b) == s@),
    {
        let parsed = hex_to_bytes(s, 32);
        match parsed {
            Some(bytes) => {
                let ghost bv = bytes@;
                match FieldElement::from_le_bytes_checked(bytes) {
                    Some(f) => Some(f),
                    None => {
                        proof {
                            if exists|b: Seq<u8>| b.len() == 32 && le_int(b) < fr_modulus() && hex_of(b) == s@ {
                                let b = choose|b: Seq<u8>| b.len() == 32 && le_int(b) < fr_modulus() && hex_of(b) == s@;
                                lemma_hex_of_injective(b, bv);
                            }
                        }
                        None
                    },
                }
            },
            None => None,
        }
    }
}

} // verus!
