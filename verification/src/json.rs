//! The JSON text envelopes for proofs and setup keys.
//!
//! Byte strings travel as decimal arrays, field elements as hex strings,
//! so no JSON escaping is ever needed. The emitters are specified
//! exactly; the parsers accept a text only if re-serializing what they
//! read yields that text back, so anything a parser accepts is the
//! canonical spelling of the value it returns.

use vstd::prelude::*;
use vstd::string::StringExecFns;
use vstd::string::StrSliceExecFns;
use crate::field::{le_int, fr_modulus, FieldElement};
use crate::codec::{lemma_hex_of_injective, lemma_hex_of_len};
use crate::codec::{dec_of, hex_of, is_dec_digit, lemma_dec_of_value, lemma_decimal_round_trip, spec_parse_u64, u64_to_string, parse_u64};
use crate::keys::SetupKeys;
use crate::zkproof::ZKProof;

verus! {

/// Decimal spellings of the bytes, comma-separated.
pub open spec fn dec_list(b: Seq<u8>) -> Seq<char>
    decreases b.len(),
{
    if b.len() == 0 {
        Seq::<char>::empty()
    } else if b.len() == 1 {
        dec_of(b[0] as int)
    } else {
        dec_of(b[0] as int) + seq![','] + dec_list(b.skip(1))
    }
}

/// A byte string as a JSON array of decimal numbers.
pub open spec fn json_bytes(b: Seq<u8>) -> Seq<char> {
    seq!['['] + dec_list(b) + seq![']']
}

/// The canonical text form of a proof.
pub open spec fn json_of_proof(p: ZKProof) -> Seq<char> {
    "{\"proof_bytes\":"@ + json_bytes(p.proof_bytes@)
        + ",\"name_hash\":\""@ + hex_of(p.name_hash.bytes@)
        + "\",\"dob_year\":"@ + dec_of(p.dob_year as int)
        + ",\"gender_hash\":\""@ + hex_of(p.gender_hash.bytes@)
        + "\",\"location_hash\":\""@ + hex_of(p.location_hash.bytes@)
        + "\"}"@
}

/// The canonical text form of a key pair.
pub open spec fn json_of_keys(k: SetupKeys) -> Seq<char> {
    "{\"proving_key\":"@ + json_bytes(k.proving_key@)
        + ",\"verifying_key\":"@ + json_bytes(k.verifying_key@)
        + "}"@
}

proof fn lemma_dec_list_append(a: Seq<u8>, b: Seq<u8>)
    requires
        a.len() >= 1,
        b.len() >= 1,
    ensures
        dec_list(a + b) == dec_list(a) + seq![','] + dec_list(b),
    decreases a.len(),
{
    if a.len() == 1 {
        assert((a + b).skip(1) =~= b);
        assert((a + b)[0] == a[0]);
        assert(dec_list(a) == dec_of(a[0] as int));
        if b.len() == 0 {
        }
        assert(dec_list(a + b) =~= dec_list(a) + seq![','] + dec_list(b));
    } else {
        assert((a + b).skip(1) =~= a.skip(1) + b);
        lemma_dec_list_append(a.skip(1), b);
        assert((a + b)[0] == a[0]);
        assert(dec_list(a + b) =~= dec_list(a) + seq![','] + dec_list(b));
    }
}

/// Append the decimal-array body for `bytes`.
fn append_dec_list(out: &mut String, bytes: &Vec<u8>)
    ensures
        final(out)@ == old(out)@ + dec_list(bytes@),
{
    if bytes.len() == 0 {
        proof {
            assert(old(out)@ + dec_list(bytes@) =~= old(out)@);
        }
        return;
    }
    let first = u64_to_string(bytes[0] as u64);
    out.append(first.as_str());
    proof {
        assert(bytes@.take(1) =~= seq![bytes@[0]]);
        assert(dec_list(seq![bytes@[0]]) == dec_of(bytes@[0] as int));
    }
    let mut i: usize = 1;
    while i < bytes.len()
        invariant
            1 <= i <= bytes@.len(),
            out@ == old(out)@ + dec_list(bytes@.take(i as int)),
        decreases bytes@.len() - i,
    {
        out.append(",");
        let d = u64_to_string(bytes[i] as u64);
        out.append(d.as_str());
        proof {
            reveal_strlit(",");
            assert(","@ =~= seq![',']);
            assert(bytes@.take(i + 1) =~= bytes@.take(i as int) + seq![bytes@[i as int]]);
            lemma_dec_list_append(bytes@.take(i as int), seq![bytes@[i as int]]);
            assert(dec_list(seq![bytes@[i as int]]) == dec_of(bytes@[i as int] as int));
            assert(out@ =~= old(out)@ + dec_list(bytes@.take(i + 1)));
        }
        i += 1;
    }
    proof {
        assert(bytes@.take(bytes@.len() as int) =~= bytes@);
    }
}

/// Append a full JSON byte array.
fn append_json_bytes(out: &mut String, bytes: &Vec<u8>)
    ensures
        final(out)@ == old(out)@ + json_bytes(bytes@),
{
    out.append("[");
    append_dec_list(out, bytes);
    out.append("]");
    proof {
        reveal_strlit("[");
        reveal_strlit("]");
        assert("["@ =~= seq!['[']);
        assert("]"@ =~= seq![']']);
        assert(old(out)@ + "["@ + dec_list(bytes@) + "]"@ =~= old(out)@ + json_bytes(bytes@));
    }
}

/// Character-wise string equality.
pub fn str_eq(a: &str, b: &str) -> (r: bool)
    ensures
        r == (a@ == b@),
{
    let n = a.unicode_len();
    if n != b.unicode_len() {
        return false;
    }
    let mut i: usize = 0;
    while i < n
        invariant
            i <= n,
            n == a@.len() == b@.len(),
            forall|j: int| 0 <= j < i ==> a@[j] == b@[j],
        decreases n - i,
    {
        if a.get_char(i) != b.get_char(i) {
            return false;
        }
        i += 1;
    }
    proof {
        assert(a@ =~= b@);
    }
    true
}

/// Whether the literal stands at a given position of a text.
pub open spec fn lit_at(s: Seq<char>, i: int, lit: Seq<char>) -> bool {
    0 <= i && i + lit.len() <= s.len() && s.subrange(i, i + lit.len()) == lit
}

/// Whether the literal `lit` stands at position `i` of `s`; on success,
/// the position just past it. Succeeds exactly when it does stand there.
fn match_lit(s: &str, i: usize, lit: &str) -> (r: Option<usize>)
    ensures
        r matches Some(j) ==> i + lit@.len() == j && j <= s@.len(),
        (r is Some) == lit_at(s@, i as int, lit@),
{
    let n = s.unicode_len();
    let m = lit.unicode_len();
    if i > n || m > n - i {
        return None;
    }
    let mut k: usize = 0;
    while k < m
        invariant
            k <= m,
            i + m <= n,
            n == s@.len(),
            m == lit@.len(),
            forall|k2: int| 0 <= k2 < k ==> s@[i + k2] == lit@[k2],
        decreases m - k,
    {
        if s.get_char(i + k) != lit.get_char(k) {
            proof {
                if lit_at(s@, i as int, lit@) {
                    assert(s@.subrange(i as int, i + lit@.len())[k as int] == s@[i + k]);
                }
            }
            return None;
        }
        k += 1;
    }
    proof {
        assert(s@.subrange(i as int, i + lit@.len()) =~= lit@);
    }
    Some(i + m)
}

/// Whether the canonical spelling of `v` stands at `i`, followed by the
/// end of the text or a non-digit (so the spelling is a whole number).
pub open spec fn dec_at(s: Seq<char>, i: int, v: u64, j: int) -> bool {
    &&& 0 <= i < j <= s.len()
    &&& s.subrange(i, j) == dec_of(v as int)
    &&& (j == s.len() || !is_dec_digit(s[j]))
}

/// A whole digit run ends exactly where the spelling it carries ends.
proof fn lemma_run_end_unique(s: Seq<char>, i: int, e: int, v: u64, j: int)
    requires
        0 <= i <= e <= s.len(),
        forall|k: int| i <= k < e ==> is_dec_digit(#[trigger] s[k]),
        e == s.len() || !is_dec_digit(s[e]),
        dec_at(s, i, v, j),
    ensures
        e == j,
{
    lemma_dec_of_value(v as int);
    if e < j {
        assert(s.subrange(i, j)[e - i] == s[e]);
        assert(is_dec_digit(dec_of(v as int)[e - i]));
    }
    if j < e {
        assert(is_dec_digit(s[j]));
    }
}

/// Scan a decimal number starting at `i`: the maximal digit run,
/// parsed; on success the position just past it. Wherever a whole
/// canonical spelling stands at `i`, the scan returns exactly it.
fn scan_u64(s: &str, i: usize) -> (r: Option<(u64, usize)>)
    ensures
        r matches Some(p) ==> i < p.1 <= s@.len()
            && spec_parse_u64(s@.subrange(i as int, p.1 as int)) == Some(p.0),
        forall|v: u64, j: int| dec_at(s@, i as int, v, j) ==> r == Some((v, j as usize)),
{
    let n = s.unicode_len();
    if i > n {
        return None;
    }
    let mut j: usize = i;
    while j < n
        invariant
            i <= j <= n,
            n == s@.len(),
            forall|k: int| i <= k < j ==> is_dec_digit(#[trigger] s@[k]),
        ensures
            i <= j <= n,
            forall|k: int| i <= k < j ==> is_dec_digit(#[trigger] s@[k]),
            j == n || !is_dec_digit(s@[j as int]),
        decreases n - j,
    {
        let c = s.get_char(j);
        let u = c as u32;
        if u < 48 || u > 57 {
            proof {
                assert(!is_dec_digit(s@[j as int]));
            }
            break;
        }
        proof {
            assert(is_dec_digit(s@[j as int]));
        }
        j += 1;
    }
    proof {
        assert forall|v: u64, j2: int| dec_at(s@, i as int, v, j2) implies j2 == j as int by {
            lemma_run_end_unique(s@, i as int, j as int, v, j2);
        }
    }
    if j == i {
        proof {
            assert forall|v: u64, j2: int| !dec_at(s@, i as int, v, j2) by {
                if dec_at(s@, i as int, v, j2) {
                    lemma_run_end_unique(s@, i as int, j as int, v, j2);
                }
            }
        }
        return None;
    }
    let run = s.substring_char(i, j);
    let parsed = parse_u64(run);
    proof {
        assert forall|v: u64, j2: int| dec_at(s@, i as int, v, j2) implies parsed == Some(v) by {
            lemma_run_end_unique(s@, i as int, j as int, v, j2);
            lemma_decimal_round_trip(v);
        }
    }
    match parsed {
        Some(v) => Some((v, j)),
        None => None,
    }
}

/// Whether the canonical hex spelling of a well-formed element with
/// these bytes stands at `i`.
pub open spec fn hex_at(s: Seq<char>, i: int, b: Seq<u8>) -> bool {
    &&& b.len() == 32
    &&& le_int(b) < fr_modulus()
    &&& 0 <= i
    &&& i + 64 <= s.len()
    &&& s.subrange(i, i + 64) == hex_of(b)
}

/// Scan a 64-digit hex field element starting at `i`. Wherever a
/// well-formed element's spelling stands at `i`, the scan returns
/// exactly that element.
fn scan_hex_element(s: &str, i: usize) -> (r: Option<(FieldElement, usize)>)
    ensures
        r matches Some(p) ==> i < p.1 <= s@.len() && p.0.wf() && p.1 == i + 64
            && hex_of(p.0.bytes@) == s@.subrange(i as int, i + 64),
        forall|b: Seq<u8>| hex_at(s@, i as int, b)
            ==> (r matches Some(p) && p.0.bytes@ == b && p.1 == i + 64),
{
    let n = s.unicode_len();
    if i > n || n - i < 64 {
        return None;
    }
    let run = s.substring_char(i, i + 64);
    let parsed = FieldElement::from_hex(run);
    proof {
        assert forall|b: Seq<u8>| hex_at(s@, i as int, b)
            implies (parsed matches Some(f) && f.bytes@ == b) by {
            if parsed is None {
                assert(run@ == hex_of(b));
            } else {
                let f = parsed->Some_0;
                assert(hex_of(f.bytes@) == hex_of(b));
                lemma_hex_of_injective(f.bytes@, b);
            }
        }
    }
    match parsed {
        Some(f) => Some((f, i + 64)),
        None => None,
    }
}

/// Splitting a concatenation that stands inside a larger text.
proof fn lemma_split_at(s: Seq<char>, off: int, a: Seq<char>, rest: Seq<char>)
    requires
        0 <= off,
        off + a.len() + rest.len() <= s.len(),
        s.subrange(off, off + a.len() + rest.len()) == a + rest,
    ensures
        s.subrange(off, off + a.len()) == a,
        s.subrange(off + a.len(), off + a.len() + rest.len()) == rest,
{
    let big = s.subrange(off, off + a.len() + rest.len());
    assert forall|k: int| 0 <= k < a.len() implies s.subrange(off, off + a.len())[k] == a[k] by {
        assert(big[k] == s[off + k]);
    }
    assert(s.subrange(off, off + a.len()) =~= a);
    assert forall|k: int| 0 <= k < rest.len()
        implies s.subrange(off + a.len(), off + a.len() + rest.len())[k] == rest[k] by {
        assert(big[a.len() + k] == s[off + a.len() + k]);
    }
    assert(s.subrange(off + a.len(), off + a.len() + rest.len()) =~= rest);
}

/// Where byte `k` is spelled inside a decimal list: the list of the
/// first `k` bytes, a separating comma when k > 0, the spelling of byte
/// `k`, and the remaining list with its comma when bytes follow.
proof fn lemma_dec_list_layout(b: Seq<u8>, k: int)
    requires
        0 <= k < b.len(),
    ensures
        dec_list(b) == dec_list(b.take(k))
            + (if k == 0 { Seq::<char>::empty() } else { seq![','] })
            + dec_of(b[k] as int)
            + (if k + 1 == b.len() { Seq::<char>::empty() } else { seq![','] + dec_list(b.skip(k + 1)) }),
{
    let rhs = dec_list(b.take(k))
        + (if k == 0 { Seq::<char>::empty() } else { seq![','] })
        + dec_of(b[k] as int)
        + (if k + 1 == b.len() { Seq::<char>::empty() } else { seq![','] + dec_list(b.skip(k + 1)) });
    if k == 0 {
        assert(b.take(0) =~= Seq::<u8>::empty());
        assert(dec_list(Seq::<u8>::empty()) == Seq::<char>::empty());
        if b.len() == 1 {
            assert(dec_list(b) == dec_of(b[0] as int));
            assert(dec_list(b) =~= rhs);
        } else {
            assert(dec_list(b) == dec_of(b[0] as int) + seq![','] + dec_list(b.skip(1)));
            assert(dec_list(b) =~= rhs);
        }
    } else {
        assert(b =~= b.take(k) + b.skip(k));
        lemma_dec_list_append(b.take(k), b.skip(k));
        let t = b.skip(k);
        assert(t[0] == b[k]);
        if t.len() == 1 {
            assert(k + 1 == b.len());
            assert(dec_list(t) == dec_of(b[k] as int));
            assert(dec_list(b) =~= rhs);
        } else {
            assert(dec_list(t) == dec_of(b[k] as int) + seq![','] + dec_list(t.skip(1)));
            assert(t.skip(1) =~= b.skip(k + 1));
            assert(dec_list(b) =~= rhs);
        }
    }
}

/// Whether a whole JSON byte-array spelling spans positions `i..j`.
pub open spec fn bytes_at(s: Seq<char>, i: int, b: Seq<u8>, j: int) -> bool {
    &&& 0 <= i <= j <= s.len()
    &&& s.subrange(i, j) == json_bytes(b)
}

/// Offset, from the start of a byte array's spelling, of the spelling
/// of byte `k`: past the bracket, the first `k` spellings and, when
/// k > 0, their trailing comma.
pub open spec fn elem_off(b: Seq<u8>, k: int) -> int {
    1 + dec_list(b.take(k)).len() + if k == 0 { 0int } else { 1int }
}

/// Inside a byte array spelled at `i..j`, once the first `k` bytes have
/// been consumed up to `pos`, the spelling of byte `k` stands at `pos`
/// as a whole number, followed by a comma (more bytes) or the closing
/// bracket (the last byte).
proof fn lemma_canonical_array_element(s: Seq<char>, i: int, b: Seq<u8>, j: int, k: int, pos: int)
    requires
        bytes_at(s, i, b, j),
        0 <= k < b.len(),
        pos == i + elem_off(b, k),
    ensures
        dec_at(s, pos, b[k] as u64, pos + dec_of(b[k] as int).len()),
        k + 1 < b.len() ==> s[pos + dec_of(b[k] as int).len()] == ','
            && pos + dec_of(b[k] as int).len() + 1 == i + elem_off(b, k + 1),
        k + 1 == b.len() ==> s[pos + dec_of(b[k] as int).len()] == ']'
            && pos + dec_of(b[k] as int).len() + 1 == j,
{
    let sep: Seq<char> = if k == 0 { Seq::<char>::empty() } else { seq![','] };
    let a = dec_list(b.take(k));
    let d = dec_of(b[k] as int);
    let tail: Seq<char> = if k + 1 == b.len() { Seq::<char>::empty() } else {
        seq![','] + dec_list(b.skip(k + 1))
    };
    lemma_dec_list_layout(b, k);
    lemma_dec_of_value(b[k] as int);
    assert(json_bytes(b) =~= seq!['['] + (dec_list(b) + seq![']']));
    assert(json_bytes(b).len() == 1 + dec_list(b).len() + 1);
    assert(j - i == json_bytes(b).len());
    lemma_split_at(s, i, seq!['['], dec_list(b) + seq![']']);
    assert(s.subrange(i + 1, j) == dec_list(b) + seq![']']);
    assert(dec_list(b) + seq![']'] =~= (a + sep) + (d + (tail + seq![']'])));
    lemma_split_at(s, i + 1, a + sep, d + (tail + seq![']']));
    assert(pos == i + 1 + (a + sep).len());
    assert(s.subrange(pos, j) == d + (tail + seq![']']));
    lemma_split_at(s, pos, d, tail + seq![']']);
    assert(s.subrange(pos, pos + d.len()) == d);
    assert(s.subrange(pos + d.len(), j) == tail + seq![']']);
    assert(s[pos + d.len()] == (tail + seq![']'])[0]) by {
        assert(s.subrange(pos + d.len(), j)[0] == s[pos + d.len()]);
    }
    if k + 1 == b.len() {
        assert((tail + seq![']'])[0] == ']');
        assert(!is_dec_digit(']'));
    } else {
        assert((tail + seq![']'])[0] == ',');
        assert(!is_dec_digit(','));
        lemma_dec_list_layout(b.take(k + 1), k);
        assert(b.take(k + 1).take(k) =~= b.take(k));
        assert(b.take(k + 1)[k] == b[k]);
        assert(dec_list(b.take(k + 1)) == a + sep + d + Seq::<char>::empty());
        assert((a + sep + d + Seq::<char>::empty()).len() == a.len() + sep.len() + d.len());
    }
    assert(dec_at(s, pos, b[k] as u64, pos + d.len()));
}

/// Scan a JSON byte array starting at `i`. Wherever a whole canonical
/// spelling of a byte array stands at `i`, the scan returns exactly
/// those bytes and stops just past its closing bracket.
fn scan_json_bytes(s: &str, i: usize) -> (r: Option<(Vec<u8>, usize)>)
    ensures
        r matches Some(p) ==> i <= p.1 <= s@.len(),
        forall|b: Seq<u8>, j: int| bytes_at(s@, i as int, b, j)
            ==> (r matches Some(p) && p.0@ == b && p.1 == j as usize),
{
    let n = s.unicode_len();
    proof {
        reveal_strlit("[");
        reveal_strlit("]");
        reveal_strlit(",");
        assert("["@ =~= seq!['[']);
        assert("]"@ =~= seq![']']);
        assert(","@ =~= seq![',']);
    }
    let mut pos = match match_lit(s, i, "[") {
        Some(j) => j,
        None => {
            proof {
                assert forall|b: Seq<u8>, j: int| !bytes_at(s@, i as int, b, j) by {
                    if bytes_at(s@, i as int, b, j) {
                        assert(json_bytes(b) =~= seq!['['] + (dec_list(b) + seq![']']));
                        lemma_split_at(s@, i as int, seq!['['], dec_list(b) + seq![']']);
                        assert(lit_at(s@, i as int, "["@));
                    }
                }
            }
            return None;
        },
    };
    let mut out: Vec<u8> = Vec::new();
    proof {
        assert forall|b: Seq<u8>, j: int| bytes_at(s@, i as int, b, j) && b.len() > 0
            implies s@[i + 1] == dec_of(b[0] as int)[0] && is_dec_digit(s@[i + 1]) by {
            assert(b.take(0) =~= Seq::<u8>::empty());
            assert(dec_list(Seq::<u8>::empty()) == Seq::<char>::empty());
            lemma_canonical_array_element(s@, i as int, b, j, 0, i + 1);
            lemma_dec_of_value(b[0] as int);
            assert(s@.subrange(i + 1, i + 1 + dec_of(b[0] as int).len())[0] == s@[i + 1]);
        }
        assert forall|b: Seq<u8>, j: int| bytes_at(s@, i as int, b, j) && b.len() == 0
            implies s@[i + 1] == ']' && j == i + 2 by {
            assert(dec_list(b) == Seq::<char>::empty());
            assert(json_bytes(b) =~= seq!['[', ']']);
            assert(s@.subrange(i as int, j)[1] == s@[i + 1]);
        }
    }
    match match_lit(s, pos, "]") {
        Some(j) => {
            proof {
                assert(s@.subrange(pos as int, pos + 1)[0] == s@[pos as int]);
                assert(s@[pos as int] == ']');
                assert forall|b: Seq<u8>, j2: int| bytes_at(s@, i as int, b, j2)
                    implies b == Seq::<u8>::empty() && j2 == j as int by {
                    if b.len() > 0 {
                        assert(is_dec_digit(']') == false);
                    } else {
                        assert(b =~= Seq::<u8>::empty());
                    }
                }
            }
            return Some((out, j));
        },
        None => {
            proof {
                assert forall|b: Seq<u8>, j2: int| bytes_at(s@, i as int, b, j2)
                    implies b.len() > 0 by {
                    if b.len() == 0 {
                        assert(s@.subrange(pos as int, pos + 1) =~= "]"@);
                        assert(lit_at(s@, pos as int, "]"@));
                    }
                }
            }
        },
    }
    proof {
        assert forall|b: Seq<u8>, j: int| bytes_at(s@, i as int, b, j)
            implies out@.len() < b.len() && out@ == b.take(out@.len() as int)
                && pos as int == i + elem_off(b, out@.len() as int) by {
            assert(b.take(0) =~= Seq::<u8>::empty());
            assert(dec_list(Seq::<u8>::empty()) == Seq::<char>::empty());
            assert(out@ =~= b.take(0));
        }
    }
    loop
        invariant
            i < pos <= n,
            n == s@.len(),
            forall|b: Seq<u8>, j: int| bytes_at(s@, i as int, b, j) ==> {
                &&& out@.len() < b.len()
                &&& out@ == b.take(out@.len() as int)
                &&& pos as int == i + elem_off(b, out@.len() as int)
            },
        decreases n - pos,
    {
        proof {
            reveal_strlit("[");
            reveal_strlit("]");
            reveal_strlit(",");
            assert("]"@ =~= seq![']']);
            assert(","@ =~= seq![',']);
        }
        let ghost k = out@.len() as int;
        let scanned = scan_u64(s, pos);
        proof {
            assert forall|b: Seq<u8>, j: int| bytes_at(s@, i as int, b, j)
                implies scanned == Some((b[k] as u64, (pos + dec_of(b[k] as int).len()) as usize))
                    && b[k] as u64 <= 255
                    && pos + dec_of(b[k] as int).len() <= s@.len() by {
                lemma_canonical_array_element(s@, i as int, b, j, k, pos as int);
                assert(dec_at(s@, pos as int, b[k] as u64, pos + dec_of(b[k] as int).len()));
            }
        }
        let (v, np) = match scanned {
            Some(p) => p,
            None => {
                return None;
            },
        };
        if v > 255 {
            return None;
        }
        out.push(v as u8);
        let oldpos = pos;
        pos = np;
        proof {
            assert forall|b: Seq<u8>, j: int| bytes_at(s@, i as int, b, j)
                implies out@ == b.take(out@.len() as int) && v == b[k] as u64
                    && pos as int == oldpos + dec_of(b[k] as int).len() by {
                assert(scanned == Some((b[k] as u64, (oldpos + dec_of(b[k] as int).len()) as usize)));
                assert(scanned == Some((v, np)));
                assert(oldpos + dec_of(b[k] as int).len() <= s@.len());
                assert(np as int == oldpos + dec_of(b[k] as int).len());
                assert(v == b[k] as u64);
                assert(v as u8 == b[k]);
                assert(b.take(k).push(b[k]) =~= b.take(k + 1));
                assert(out@ == b.take(k).push(b[k]));
            }
        }
        match match_lit(s, pos, ",") {
            Some(p2) => {
                proof {
                    reveal_strlit(",");
                    assert(","@ =~= seq![',']);
                    assert(lit_at(s@, pos as int, ","@));
                    assert(s@.subrange(pos as int, pos + ","@.len()) == ","@);
                    assert(s@.subrange(pos as int, pos + ","@.len())[0] == s@[pos as int]);
                    assert(s@[pos as int] == ',');
                    assert forall|b: Seq<u8>, j: int| bytes_at(s@, i as int, b, j)
                        implies out@.len() < b.len()
                            && p2 as int == i + elem_off(b, out@.len() as int) by {
                        lemma_canonical_array_element(s@, i as int, b, j, k, oldpos as int);
                        if k + 1 == b.len() {
                            assert(s@[oldpos + dec_of(b[k] as int).len()] == ']');
                            assert(s@[pos as int] == ']');
                        }
                        assert(k + 1 < b.len());
                        assert(s@[oldpos + dec_of(b[k] as int).len()] == ',');
                        assert(pos + 1 == i + elem_off(b, k + 1));
                    }
                }
                pos = p2;
            },
            None => {
                proof {
                    assert forall|b: Seq<u8>, j: int| bytes_at(s@, i as int, b, j)
                        implies out@.len() == b.len() && pos + 1 == j && s@[pos as int] == ']' by {
                        lemma_canonical_array_element(s@, i as int, b, j, k, oldpos as int);
                        if k + 1 < b.len() {
                            assert(s@[pos as int] == ',');
                            lemma_canonical_array_element(s@, i as int, b, j, k + 1,
                                oldpos + dec_of(b[k] as int).len() + 1);
                            assert(pos + 1 <= s@.len());
                            assert(s@.subrange(pos as int, pos + ","@.len() as int)
                                =~= ","@);
                            assert(lit_at(s@, pos as int, ","@));
                        }
                        assert(k + 1 == b.len());
                    }
                }
                match match_lit(s, pos, "]") {
                    Some(p2) => {
                        proof {
                            assert forall|b: Seq<u8>, j: int| bytes_at(s@, i as int, b, j)
                                implies out@ == b && p2 as int == j by {
                                assert(out@.len() == b.len());
                                assert(b.take(b.len() as int) =~= b);
                            }
                        }
                        return Some((out, p2));
                    },
                    None => {
                        proof {
                            assert forall|b: Seq<u8>, j: int| !bytes_at(s@, i as int, b, j) by {
                                if bytes_at(s@, i as int, b, j) {
                                    assert(s@[pos as int] == ']');
                                    assert(s@.subrange(pos as int, pos + "]"@.len() as int)
                                        =~= "]"@);
                                    assert(lit_at(s@, pos as int, "]"@));
                                }
                            }
                        }
                        return None;
                    },
                }
            },
        }
    }
}


/// Offsets of the components inside a proof's canonical text.
pub open spec fn p_off_bytes() -> int {
    "{\"proof_bytes\":"@.len() as int
}

pub open spec fn p_off_l2(p: ZKProof) -> int {
    p_off_bytes() + json_bytes(p.proof_bytes@).len()
}

pub open spec fn p_off_name(p: ZKProof) -> int {
    p_off_l2(p) + ",\"name_hash\":\""@.len()
}

pub open spec fn p_off_l3(p: ZKProof) -> int {
    p_off_name(p) + 64
}

pub open spec fn p_off_dob(p: ZKProof) -> int {
    p_off_l3(p) + "\",\"dob_year\":"@.len()
}

pub open spec fn p_off_l4(p: ZKProof) -> int {
    p_off_dob(p) + dec_of(p.dob_year as int).len()
}

pub open spec fn p_off_gender(p: ZKProof) -> int {
    p_off_l4(p) + ",\"gender_hash\":\""@.len()
}

pub open spec fn p_off_l5(p: ZKProof) -> int {
    p_off_gender(p) + 64
}

pub open spec fn p_off_loc(p: ZKProof) -> int {
    p_off_l5(p) + "\",\"location_hash\":\""@.len()
}

pub open spec fn p_off_l6(p: ZKProof) -> int {
    p_off_loc(p) + 64
}

/// Where each component of a well-formed proof stands inside its
/// canonical text.
#[verifier::rlimit(100)]
proof fn lemma_json_of_proof_layout(s: Seq<char>, p: ZKProof)
    requires
        p.wf(),
        s == json_of_proof(p),
    ensures
        lit_at(s, 0, "{\"proof_bytes\":"@),
        bytes_at(s, p_off_bytes(), p.proof_bytes@, p_off_l2(p)),
        lit_at(s, p_off_l2(p), ",\"name_hash\":\""@),
        hex_at(s, p_off_name(p), p.name_hash.bytes@),
        lit_at(s, p_off_l3(p), "\",\"dob_year\":"@),
        dec_at(s, p_off_dob(p), p.dob_year, p_off_l4(p)),
        lit_at(s, p_off_l4(p), ",\"gender_hash\":\""@),
        hex_at(s, p_off_gender(p), p.gender_hash.bytes@),
        lit_at(s, p_off_l5(p), "\",\"location_hash\":\""@),
        hex_at(s, p_off_loc(p), p.location_hash.bytes@),
        lit_at(s, p_off_l6(p), "\"}"@),
        s.len() == p_off_l6(p) + "\"}"@.len(),
{
    lemma_hex_of_len(p.name_hash.bytes@);
    lemma_hex_of_len(p.gender_hash.bytes@);
    lemma_hex_of_len(p.location_hash.bytes@);
    lemma_dec_of_value(p.dob_year as int);
    let l1 = "{\"proof_bytes\":"@;
    let jb = json_bytes(p.proof_bytes@);
    let l2 = ",\"name_hash\":\""@;
    let h1 = hex_of(p.name_hash.bytes@);
    let l3 = "\",\"dob_year\":"@;
    let dd = dec_of(p.dob_year as int);
    let l4 = ",\"gender_hash\":\""@;
    let h2 = hex_of(p.gender_hash.bytes@);
    let l5 = "\",\"location_hash\":\""@;
    let h3 = hex_of(p.location_hash.bytes@);
    let l6 = "\"}"@;
    let r2 = l2 + (h1 + (l3 + (dd + (l4 + (h2 + (l5 + (h3 + l6)))))));
    let r1 = jb + r2;
    assert(s =~= l1 + r1);
    assert(s.subrange(0, s.len() as int) =~= s);
    lemma_split_at(s, 0, l1, r1);
    lemma_split_at(s, p_off_bytes(), jb, r2);
    let r3 = h1 + (l3 + (dd + (l4 + (h2 + (l5 + (h3 + l6))))));
    lemma_split_at(s, p_off_l2(p), l2, r3);
    let r4 = l3 + (dd + (l4 + (h2 + (l5 + (h3 + l6)))));
    lemma_split_at(s, p_off_name(p), h1, r4);
    let r5 = dd + (l4 + (h2 + (l5 + (h3 + l6))));
    lemma_split_at(s, p_off_l3(p), l3, r5);
    lemma_json_of_proof_layout_tail(s, p);
}

/// The back half of the proof layout: from the birth year on.
#[verifier::rlimit(100)]
proof fn lemma_json_of_proof_layout_tail(s: Seq<char>, p: ZKProof)
    requires
        p.wf(),
        s == json_of_proof(p),
        ({
            let dd = dec_of(p.dob_year as int);
            let l4 = ",\"gender_hash\":\""@;
            let h2 = hex_of(p.gender_hash.bytes@);
            let l5 = "\",\"location_hash\":\""@;
            let h3 = hex_of(p.location_hash.bytes@);
            let l6 = "\"}"@;
            s.subrange(p_off_dob(p), s.len() as int) == dd + (l4 + (h2 + (l5 + (h3 + l6))))
                && s.len() == p_off_l6(p) + l6.len()
        }),
    ensures
        dec_at(s, p_off_dob(p), p.dob_year, p_off_l4(p)),
        lit_at(s, p_off_l4(p), ",\"gender_hash\":\""@),
        hex_at(s, p_off_gender(p), p.gender_hash.bytes@),
        lit_at(s, p_off_l5(p), "\",\"location_hash\":\""@),
        hex_at(s, p_off_loc(p), p.location_hash.bytes@),
        lit_at(s, p_off_l6(p), "\"}"@),
{
    reveal_strlit(",\"gender_hash\":\"");
    reveal_strlit("\",\"location_hash\":\"");
    reveal_strlit("\"}");
    lemma_hex_of_len(p.gender_hash.bytes@);
    lemma_hex_of_len(p.location_hash.bytes@);
    lemma_dec_of_value(p.dob_year as int);
    let dd = dec_of(p.dob_year as int);
    let l4 = ",\"gender_hash\":\""@;
    let h2 = hex_of(p.gender_hash.bytes@);
    let l5 = "\",\"location_hash\":\""@;
    let h3 = hex_of(p.location_hash.bytes@);
    let l6 = "\"}"@;
    let r6 = l4 + (h2 + (l5 + (h3 + l6)));
    lemma_split_at(s, p_off_dob(p), dd, r6);
    let r7 = h2 + (l5 + (h3 + l6));
    lemma_split_at(s, p_off_l4(p), l4, r7);
    let r8 = l5 + (h3 + l6);
    lemma_split_at(s, p_off_gender(p), h2, r8);
    let r9 = h3 + l6;
    lemma_split_at(s, p_off_l5(p), l5, r9);
    lemma_split_at(s, p_off_loc(p), h3, l6);
    assert(s[p_off_l4(p)] == l4[0]) by {
        assert(s.subrange(p_off_l4(p), p_off_l4(p) + l4.len())[0] == s[p_off_l4(p)]);
    }
    assert(l4[0] == ',' && !is_dec_digit(',')) by {
        reveal_strlit(",\"gender_hash\":\"");
    }
    assert(dec_at(s, p_off_dob(p), p.dob_year, p_off_l4(p)));
}

/// A proof's canonical text is determined by the views of its fields.
proof fn lemma_json_of_proof_congruence(a: ZKProof, b: ZKProof)
    requires
        a.proof_bytes@ == b.proof_bytes@,
        a.name_hash.bytes@ == b.name_hash.bytes@,
        a.dob_year == b.dob_year,
        a.gender_hash.bytes@ == b.gender_hash.bytes@,
        a.location_hash.bytes@ == b.location_hash.bytes@,
    ensures
        json_of_proof(a) == json_of_proof(b),
{
    assert(json_of_proof(a) =~= json_of_proof(b));
}

/// Offsets of the components inside a key pair's canonical text.
pub open spec fn k_off_pk() -> int {
    "{\"proving_key\":"@.len() as int
}

pub open spec fn k_off_l2(k: SetupKeys) -> int {
    k_off_pk() + json_bytes(k.proving_key@).len()
}

pub open spec fn k_off_vk(k: SetupKeys) -> int {
    k_off_l2(k) + ",\"verifying_key\":"@.len()
}

pub open spec fn k_off_l3(k: SetupKeys) -> int {
    k_off_vk(k) + json_bytes(k.verifying_key@).len()
}

/// Where each component of a key pair stands inside its canonical text.
proof fn lemma_json_of_keys_layout(s: Seq<char>, k: SetupKeys)
    requires
        s == json_of_keys(k),
    ensures
        lit_at(s, 0, "{\"proving_key\":"@),
        bytes_at(s, k_off_pk(), k.proving_key@, k_off_l2(k)),
        lit_at(s, k_off_l2(k), ",\"verifying_key\":"@),
        bytes_at(s, k_off_vk(k), k.verifying_key@, k_off_l3(k)),
        lit_at(s, k_off_l3(k), "}"@),
        s.len() == k_off_l3(k) + "}"@.len(),
{
    let l1 = "{\"proving_key\":"@;
    let jp = json_bytes(k.proving_key@);
    let l2 = ",\"verifying_key\":"@;
    let jv = json_bytes(k.verifying_key@);
    let l3 = "}"@;
    let r1 = jp + (l2 + (jv + l3));
    assert(s =~= l1 + r1);
    assert(s.subrange(0, s.len() as int) =~= s);
    lemma_split_at(s, 0, l1, r1);
    lemma_split_at(s, k_off_pk(), jp, l2 + (jv + l3));
    lemma_split_at(s, k_off_l2(k), l2, jv + l3);
    lemma_split_at(s, k_off_vk(k), jv, l3);
}

/// A key pair's canonical text is determined by the views of its fields.
proof fn lemma_json_of_keys_congruence(a: SetupKeys, b: SetupKeys)
    requires
        a.proving_key@ == b.proving_key@,
        a.verifying_key@ == b.verifying_key@,
    ensures
        json_of_keys(a) == json_of_keys(b),
{
    assert(json_of_keys(a) =~= json_of_keys(b));
}

impl ZKProof {
    /// The canonical text form of this proof.
    pub fn to_json(&self) -> (r: String)
        ensures
            r@ == json_of_proof(*self),
    {
        let mut out = String::new();
        out.append("{\"proof_bytes\":");
        append_json_bytes(&mut out, &self.proof_bytes);
        out.append(",\"name_hash\":\"");
        let h1 = self.name_hash.to_hex();
        out.append(h1.as_str());
        out.append("\",\"dob_year\":");
        let d = u64_to_string(self.dob_year);
        out.append(d.as_str());
        out.append(",\"gender_hash\":\"");
        let h2 = self.gender_hash.to_hex();
        out.append(h2.as_str());
        out.append("\",\"location_hash\":\"");
        let h3 = self.location_hash.to_hex();
        out.append(h3.as_str());
        out.append("\"}");
        proof {
            assert(out@ =~= json_of_proof(*self));
        }
        out
    }

    /// Parse the canonical text form: succeeds exactly on the canonical
    /// spellings of well-formed proofs, and inverts `to_json`.
    pub fn from_json(json: &str) -> (r: Option<ZKProof>)
        ensures
            r matches Some(p) ==> p.wf() && json@ == json_of_proof(p),
            r is None ==> !(exists|p: ZKProof| p.wf() && json@ == json_of_proof(p)),
    {
        let parsed = match ZKProof::parse_json(json) {
            Some(p) => p,
            None => {
                return None;
            },
        };
        let again = parsed.to_json();
        if str_eq(again.as_str(), json) {
            Some(parsed)
        } else {
            proof {
                if exists|p: ZKProof| p.wf() && json@ == json_of_proof(p) {
                    let p = choose|p: ZKProof| p.wf() && json@ == json_of_proof(p);
                    lemma_json_of_proof_congruence(parsed, p);
                }
            }
            None
        }
    }

    /// First pass of parsing, before the canonicality check. Wherever
    /// the text is the canonical spelling of a well-formed proof, the
    /// pass succeeds and recovers exactly that proof's fields.
    fn parse_json(json: &str) -> (r: Option<ZKProof>)
        ensures
            r matches Some(p) ==> p.wf(),
            forall|p: ZKProof| p.wf() && json@ == json_of_proof(p)
                ==> (r matches Some(q) && q.proof_bytes@ == p.proof_bytes@
                    && q.name_hash.bytes@ == p.name_hash.bytes@ && q.dob_year == p.dob_year
                    && q.gender_hash.bytes@ == p.gender_hash.bytes@
                    && q.location_hash.bytes@ == p.location_hash.bytes@),
    {
        let total = json.unicode_len();
        let i0 = match match_lit(json, 0, "{\"proof_bytes\":") {
            Some(j) => j,
            None => {
                proof {
                    assert forall|p: ZKProof| !(p.wf() && json@ == json_of_proof(p)) by {
                        if p.wf() && json@ == json_of_proof(p) {
                            lemma_json_of_proof_layout(json@, p);
                        }
                    }
                }
                return None;
            },
        };
        let (proof_bytes, i1) = match scan_json_bytes(json, i0) {
            Some(p) => p,
            None => {
                proof {
                    assert forall|p: ZKProof| !(p.wf() && json@ == json_of_proof(p)) by {
                        if p.wf() && json@ == json_of_proof(p) {
                            lemma_json_of_proof_layout(json@, p);
                        }
                    }
                }
                return None;
            },
        };
        proof {
            assert forall|p: ZKProof| p.wf() && json@ == json_of_proof(p)
                implies proof_bytes@ == p.proof_bytes@ && i1 as int == p_off_l2(p) by {
                lemma_json_of_proof_layout(json@, p);
                assert(i0 as int == p_off_bytes());
                assert(bytes_at(json@, i0 as int, p.proof_bytes@, p_off_l2(p)));
            }
        }
        let i2 = match match_lit(json, i1, ",\"name_hash\":\"") {
            Some(j) => j,
            None => {
                proof {
                    assert forall|p: ZKProof| !(p.wf() && json@ == json_of_proof(p)) by {
                        if p.wf() && json@ == json_of_proof(p) {
                            lemma_json_of_proof_layout(json@, p);
                        }
                    }
                }
                return None;
            },
        };
        let (name_hash, i3) = match scan_hex_element(json, i2) {
            Some(p) => p,
            None => {
                proof {
                    assert forall|p: ZKProof| !(p.wf() && json@ == json_of_proof(p)) by {
                        if p.wf() && json@ == json_of_proof(p) {
                            lemma_json_of_proof_layout(json@, p);
                        }
                    }
                }
                return None;
            },
        };
        proof {
            assert forall|p: ZKProof| p.wf() && json@ == json_of_proof(p)
                implies name_hash.bytes@ == p.name_hash.bytes@ && i3 as int == p_off_l3(p) by {
                lemma_json_of_proof_layout(json@, p);
                assert(i2 as int == p_off_name(p));
                assert(hex_at(json@, i2 as int, p.name_hash.bytes@));
            }
        }
        let i4 = match match_lit(json, i3, "\",\"dob_year\":") {
            Some(j) => j,
            None => {
                proof {
                    assert forall|p: ZKProof| !(p.wf() && json@ == json_of_proof(p)) by {
                        if p.wf() && json@ == json_of_proof(p) {
                            lemma_json_of_proof_layout(json@, p);
                        }
                    }
                }
                return None;
            },
        };
        let (dob_year, i5) = match scan_u64(json, i4) {
            Some(p) => p,
            None => {
                proof {
                    assert forall|p: ZKProof| !(p.wf() && json@ == json_of_proof(p)) by {
                        if p.wf() && json@ == json_of_proof(p) {
                            lemma_json_of_proof_layout(json@, p);
                        }
                    }
                }
                return None;
            },
        };
        proof {
            assert forall|p: ZKProof| p.wf() && json@ == json_of_proof(p)
                implies dob_year == p.dob_year && i5 as int == p_off_l4(p) by {
                lemma_json_of_proof_layout(json@, p);
                assert(i4 as int == p_off_dob(p));
                assert(dec_at(json@, i4 as int, p.dob_year, p_off_l4(p)));
            }
        }
        let i6 = match match_lit(json, i5, ",\"gender_hash\":\"") {
            Some(j) => j,
            None => {
                proof {
                    assert forall|p: ZKProof| !(p.wf() && json@ == json_of_proof(p)) by {
                        if p.wf() && json@ == json_of_proof(p) {
                            lemma_json_of_proof_layout(json@, p);
                        }
                    }
                }
                return None;
            },
        };
        let (gender_hash, i7) = match scan_hex_element(json, i6) {
            Some(p) => p,
            None => {
                proof {
                    assert forall|p: ZKProof| !(p.wf() && json@ == json_of_proof(p)) by {
                        if p.wf() && json@ == json_of_proof(p) {
                            lemma_json_of_proof_layout(json@, p);
                        }
                    }
                }
                return None;
            },
        };
        proof {
            assert forall|p: ZKProof| p.wf() && json@ == json_of_proof(p)
                implies gender_hash.bytes@ == p.gender_hash.bytes@ && i7 as int == p_off_l5(p) by {
                lemma_json_of_proof_layout(json@, p);
                assert(i6 as int == p_off_gender(p));
                assert(hex_at(json@, i6 as int, p.gender_hash.bytes@));
            }
        }
        let i8 = match match_lit(json, i7, "\",\"location_hash\":\"") {
            Some(j) => j,
            None => {
                proof {
                    assert forall|p: ZKProof| !(p.wf() && json@ == json_of_proof(p)) by {
                        if p.wf() && json@ == json_of_proof(p) {
                            lemma_json_of_proof_layout(json@, p);
                        }
                    }
                }
                return None;
            },
        };
        let (location_hash, i9) = match scan_hex_element(json, i8) {
            Some(p) => p,
            None => {
                proof {
                    assert forall|p: ZKProof| !(p.wf() && json@ == json_of_proof(p)) by {
                        if p.wf() && json@ == json_of_proof(p) {
                            lemma_json_of_proof_layout(json@, p);
                        }
                    }
                }
                return None;
            },
        };
        proof {
            assert forall|p: ZKProof| p.wf() && json@ == json_of_proof(p)
                implies location_hash.bytes@ == p.location_hash.bytes@ && i9 as int == p_off_l6(p) by {
                lemma_json_of_proof_layout(json@, p);
                assert(i8 as int == p_off_loc(p));
                assert(hex_at(json@, i8 as int, p.location_hash.bytes@));
            }
        }
        let i10 = match match_lit(json, i9, "\"}") {
            Some(j) => j,
            None => {
                proof {
                    assert forall|p: ZKProof| !(p.wf() && json@ == json_of_proof(p)) by {
                        if p.wf() && json@ == json_of_proof(p) {
                            lemma_json_of_proof_layout(json@, p);
                        }
                    }
                }
                return None;
            },
        };
        if i10 != total {
            proof {
                assert forall|p: ZKProof| !(p.wf() && json@ == json_of_proof(p)) by {
                    if p.wf() && json@ == json_of_proof(p) {
                        lemma_json_of_proof_layout(json@, p);
                    }
                }
            }
            return None;
        }
        Some(ZKProof::new(proof_bytes, name_hash, dob_year, gender_hash, location_hash))
    }
}

impl SetupKeys {
    /// The canonical text form of this key pair.
    pub fn to_json(&self) -> (r: String)
        ensures
            r@ == json_of_keys(*self),
    {
        let mut out = String::new();
        out.append("{\"proving_key\":");
        append_json_bytes(&mut out, &self.proving_key);
        out.append(",\"verifying_key\":");
        append_json_bytes(&mut out, &self.verifying_key);
        out.append("}");
        proof {
            assert(out@ =~= json_of_keys(*self));
        }
        out
    }

    /// Parse the canonical text form: succeeds exactly on the canonical
    /// spellings of key pairs, and inverts `to_json`.
    pub fn from_json(json: &str) -> (r: Option<SetupKeys>)
        ensures
            r matches Some(k) ==> json@ == json_of_keys(k),
            r is None ==> !(exists|k: SetupKeys| json@ == json_of_keys(k)),
    {
        let parsed = match SetupKeys::parse_json(json) {
            Some(k) => k,
            None => {
                return None;
            },
        };
        let again = parsed.to_json();
        if str_eq(again.as_str(), json) {
            Some(parsed)
        } else {
            proof {
                if exists|k: SetupKeys| json@ == json_of_keys(k) {
                    let k = choose|k: SetupKeys| json@ == json_of_keys(k);
                    lemma_json_of_keys_congruence(parsed, k);
                }
            }
            None
        }
    }

    /// First pass of parsing, before the canonicality check. Wherever
    /// the text is the canonical spelling of a key pair, the pass
    /// succeeds and recovers exactly that pair's fields.
    fn parse_json(json: &str) -> (r: Option<SetupKeys>)
        ensures
            forall|k: SetupKeys| json@ == json_of_keys(k)
                ==> (r matches Some(q) && q.proving_key@ == k.proving_key@
                    && q.verifying_key@ == k.verifying_key@),
    {
        let total = json.unicode_len();
        let i0 = match match_lit(json, 0, "{\"proving_key\":") {
            Some(j) => j,
            None => {
                proof {
                    assert forall|k: SetupKeys| json@ != json_of_keys(k) by {
                        if json@ == json_of_keys(k) {
                            lemma_json_of_keys_layout(json@, k);
                        }
                    }
                }
                return None;
            },
        };
        let (proving_key, i1) = match scan_json_bytes(json, i0) {
            Some(p) => p,
            None => {
                proof {
                    assert forall|k: SetupKeys| json@ != json_of_keys(k) by {
                        if json@ == json_of_keys(k) {
                            lemma_json_of_keys_layout(json@, k);
                        }
                    }
                }
                return None;
            },
        };
        proof {
            assert forall|k: SetupKeys| json@ == json_of_keys(k)
                implies proving_key@ == k.proving_key@ && i1 as int == k_off_l2(k) by {
                lemma_json_of_keys_layout(json@, k);
                assert(i0 as int == k_off_pk());
                assert(bytes_at(json@, i0 as int, k.proving_key@, k_off_l2(k)));
            }
        }
        let i2 = match match_lit(json, i1, ",\"verifying_key\":") {
            Some(j) => j,
            None => {
                proof {
                    assert forall|k: SetupKeys| json@ != json_of_keys(k) by {
                        if json@ == json_of_keys(k) {
                            lemma_json_of_keys_layout(json@, k);
                        }
                    }
                }
                return None;
            },
        };
        let (verifying_key, i3) = match scan_json_bytes(json, i2) {
            Some(p) => p,
            None => {
                proof {
                    assert forall|k: SetupKeys| json@ != json_of_keys(k) by {
                        if json@ == json_of_keys(k) {
                            lemma_json_of_keys_layout(json@, k);
                        }
                    }
                }
                return None;
            },
        };
        proof {
            assert forall|k: SetupKeys| json@ == json_of_keys(k)
                implies verifying_key@ == k.verifying_key@ && i3 as int == k_off_l3(k) by {
                lemma_json_of_keys_layout(json@, k);
                assert(i2 as int == k_off_vk(k));
                assert(bytes_at(json@, i2 as int, k.verifying_key@, k_off_l3(k)));
            }
        }
        let i4 = match match_lit(json, i3, "}") {
            Some(j) => j,
            None => {
                proof {
                    assert forall|k: SetupKeys| json@ != json_of_keys(k) by {
                        if json@ == json_of_keys(k) {
                            lemma_json_of_keys_layout(json@, k);
                        }
                    }
                }
                return None;
            },
        };
        if i4 != total {
            proof {
                assert forall|k: SetupKeys| json@ != json_of_keys(k) by {
                    if json@ == json_of_keys(k) {
                        lemma_json_of_keys_layout(json@, k);
                    }
                }
            }
            return None;
        }
        Some(SetupKeys::new(proving_key, verifying_key))
    }
}

} // verus!
