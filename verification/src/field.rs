//! Elements of the BN254 scalar field, held as 32 little-endian bytes.
//!
//! All circuit arithmetic is over this prime field. A `FieldElement` is
//! well formed when its 32-byte little-endian value is strictly below the
//! field modulus; every constructor in this module establishes that.

use vstd::prelude::*;
use vstd::arithmetic::div_mod::{lemma_small_mod, lemma_mod_multiples_vanish};

verus! {

/// Value of a byte sequence read as a little-endian unsigned integer.
pub open spec fn le_int(s: Seq<u8>) -> int
    decreases s.len(),
{
    if s.len() == 0 {
        0
    } else {
        s[0] + 256 * le_int(s.skip(1))
    }
}

/// 256 raised to the power `n`.
pub open spec fn pow256(n: nat) -> int
    decreases n,
{
    if n == 0 {
        1
    } else {
        256 * pow256((n - 1) as nat)
    }
}

/// The order of the BN254 scalar field as 32 little-endian bytes
/// (21888242871839275222246405745257275088548364400416034343698204186575808495617,
/// a 254-bit prime).
pub open spec fn fr_modulus_le_bytes() -> Seq<u8> {
    seq![
        1u8, 0u8, 0u8, 240u8, 147u8, 245u8, 225u8, 67u8,
        145u8, 112u8, 185u8, 121u8, 72u8, 232u8, 51u8, 40u8,
        93u8, 88u8, 129u8, 129u8, 182u8, 69u8, 80u8, 184u8,
        41u8, 160u8, 49u8, 225u8, 114u8, 78u8, 100u8, 48u8,
    ]
}

/// The order of the BN254 scalar field.
pub open spec fn fr_modulus() -> int {
    le_int(fr_modulus_le_bytes())
}

pub proof fn lemma_pow256_pos(n: nat)
    ensures
        pow256(n) >= 1,
    decreases n,
{
    if n > 0 {
        lemma_pow256_pos((n - 1) as nat);
    }
}

pub proof fn lemma_le_int_bounds(s: Seq<u8>)
    ensures
        0 <= le_int(s) < pow256(s.len()),
    decreases s.len(),
{
    if s.len() == 0 {
    } else {
        lemma_le_int_bounds(s.skip(1));
    }
}

pub proof fn lemma_le_int_append(a: Seq<u8>, b: Seq<u8>)
    ensures
        le_int(a + b) == le_int(a) + pow256(a.len()) * le_int(b),
    decreases a.len(),
{
    if a.len() == 0 {
        assert(a + b =~= b);
    } else {
        assert((a + b).skip(1) =~= a.skip(1) + b);
        lemma_le_int_append(a.skip(1), b);
        let p = pow256((a.len() - 1) as nat);
        let l = le_int(b);
        assert((a + b).len() == a.len() + b.len());
        assert((a + b)[0] == a[0]);
        assert(le_int(a + b) == (a + b)[0] + 256 * le_int((a + b).skip(1)));
        assert(le_int(a) == a[0] + 256 * le_int(a.skip(1)));
        assert(pow256(a.len()) == 256 * p);
        assert(256 * (p * l) == (256 * p) * l) by (nonlinear_arith);
    }
}

pub proof fn lemma_le_int_singleton(x: u8)
    ensures
        le_int(seq![x]) == x,
{
    assert(seq![x].skip(1) =~= Seq::<u8>::empty());
    assert(le_int(Seq::<u8>::empty()) == 0);
    assert(seq![x][0] == x);
    assert(le_int(seq![x]) == seq![x][0] + 256 * le_int(seq![x].skip(1)));
}

/// Extending a prefix by one byte adds that byte at its positional weight.
pub proof fn lemma_le_int_take_succ(s: Seq<u8>, i: int)
    requires
        0 <= i < s.len(),
    ensures
        le_int(s.take(i + 1)) == le_int(s.take(i)) + s[i] * pow256(i as nat),
{
    assert(s.take(i + 1) =~= s.take(i) + seq![s[i]]);
    lemma_le_int_append(s.take(i), seq![s[i]]);
    lemma_le_int_singleton(s[i]);
    assert(s.take(i).len() == i);
    let p = pow256(i as nat);
    let e = le_int(seq![s[i]]);
    assert(p * e == s[i] * p) by (nonlinear_arith)
        requires
            e == s[i],
    ;
}

/// A byte sequence splits at any index into a prefix and a weighted suffix.
pub proof fn lemma_le_int_split(s: Seq<u8>, k: int)
    requires
        0 <= k <= s.len(),
    ensures
        le_int(s) == le_int(s.take(k)) + pow256(k as nat) * le_int(s.skip(k)),
{
    assert(s =~= s.take(k) + s.skip(k));
    lemma_le_int_append(s.take(k), s.skip(k));
}

/// If two equal-length sequences agree above position `i` and differ in
/// the byte at `i`, the one with the larger byte has the larger value.
proof fn lemma_le_int_high_byte(x: Seq<u8>, y: Seq<u8>, i: int)
    requires
        x.len() == y.len(),
        0 <= i < x.len(),
        forall|j: int| i < j < x.len() ==> x[j] == y[j],
        x[i] > y[i],
    ensures
        le_int(x) > le_int(y),
{
    lemma_le_int_split(x, i);
    lemma_le_int_split(y, i);
    assert(x.skip(i).skip(1) =~= y.skip(i).skip(1));
    assert(x.skip(i)[0] == x[i]);
    assert(y.skip(i)[0] == y[i]);
    assert(le_int(x.skip(i)) == x[i] + 256 * le_int(x.skip(i).skip(1)));
    assert(le_int(y.skip(i)) == y[i] + 256 * le_int(y.skip(i).skip(1)));
    lemma_le_int_bounds(x.take(i));
    lemma_le_int_bounds(y.take(i));
    let p = pow256(i as nat);
    let dx = le_int(x.skip(i));
    let dy = le_int(y.skip(i));
    lemma_pow256_pos(i as nat);
    assert(p * dx >= p * (dy + 1)) by (nonlinear_arith)
        requires
            dx >= dy + 1,
            p >= 1,
    ;
    assert(p * (dy + 1) == p * dy + p) by (nonlinear_arith);
}

proof fn lemma_pow256_increases(m: nat, n: nat)
    requires
        m < n,
    ensures
        pow256(m) < pow256(n),
    decreases n,
{
    lemma_pow256_pos(m);
    if n == m + 1 {
        lemma_pow256_pos(m);
    } else {
        lemma_pow256_increases(m, (n - 1) as nat);
        lemma_pow256_pos((n - 1) as nat);
    }
}

proof fn lemma_pow256_eight()
    ensures
        pow256(8) == 0x1_0000_0000_0000_0000,
{
    assert(pow256(0) == 1);
    assert(pow256(1) == 256);
    assert(pow256(2) == 0x1_0000);
    assert(pow256(3) == 0x100_0000);
    assert(pow256(4) == 0x1_0000_0000);
    assert(pow256(5) == 0x100_0000_0000);
    assert(pow256(6) == 0x1_0000_0000_0000);
    assert(pow256(7) == 0x100_0000_0000_0000);
    assert(pow256(8) == 0x1_0000_0000_0000_0000);
}

/// Bounds on the field modulus that the constructors and the adder need:
/// it occupies exactly 32 bytes with top byte 48, so it lies strictly
/// between 2^248 and 2^255, and in particular above 2^64.
pub proof fn lemma_modulus_facts()
    ensures
        fr_modulus_le_bytes().len() == 32,
        48 * pow256(31) <= fr_modulus() < 49 * pow256(31),
        2 * fr_modulus() < pow256(32),
        pow256(31) < fr_modulus(),
        0x1_0000_0000_0000_0000 < fr_modulus(),
{
    let m = fr_modulus_le_bytes();
    assert(m.len() == 32);
    lemma_le_int_split(m, 31);
    assert(m.skip(31) =~= seq![48u8]);
    lemma_le_int_singleton(48u8);
    lemma_le_int_bounds(m.take(31));
    lemma_pow256_pos(31);
    assert(fr_modulus() == le_int(m.take(31)) + pow256(31) * 48);
    assert(pow256(32) == 256 * pow256(31));
    lemma_pow256_eight();
    lemma_pow256_increases(8, 31);
}

/// An element of the BN254 scalar field, as 32 little-endian bytes.
pub struct FieldElement {
    pub bytes: Vec<u8>,
}

impl FieldElement {
    /// Canonical form: exactly 32 bytes, value strictly below the modulus.
    pub open spec fn wf(&self) -> bool {
        self.bytes@.len() == 32 && le_int(self.bytes@) < fr_modulus()
    }

    /// The integer the element stands for.
    pub open spec fn value(&self) -> int {
        le_int(self.bytes@)
    }

    pub fn clone_element(&self) -> (r: FieldElement)
        ensures
            r.bytes@ == self.bytes@,
    {
        let mut b: Vec<u8> = Vec::new();
        let mut i: usize = 0;
        while i < self.bytes.len()
            invariant
                i <= self.bytes@.len(),
                b@ == self.bytes@.take(i as int),
            decreases self.bytes@.len() - i,
        {
            b.push(self.bytes[i]);
            proof {
                assert(self.bytes@.take(i + 1) =~= self.bytes@.take(i as int).push(self.bytes@[i as int]));
            }
            i += 1;
        }
        proof {
            assert(self.bytes@.take(self.bytes@.len() as int) =~= self.bytes@);
        }
        FieldElement { bytes: b }
    }

    /// Equality of elements; on well-formed elements this is equality of
    /// the values they stand for, since the byte form is canonical.
    pub fn equals(&self, other: &FieldElement) -> (r: bool)
        ensures
            r == (self.bytes@ == other.bytes@),
            self.wf() && other.wf() ==> r == (self.value() == other.value()),
    {
        if self.bytes.len() != other.bytes.len() {
            proof {
                assert(self.bytes@ != other.bytes@);
                assert(!(self.wf() && other.wf()));
            }
            return false;
        }
        let n = self.bytes.len();
        let mut i: usize = 0;
        while i < n
            invariant
                i <= n,
                n == self.bytes@.len() == other.bytes@.len(),
                forall|j: int| 0 <= j < i ==> self.bytes@[j] == other.bytes@[j],
            decreases n - i,
        {
            if self.bytes[i] != other.bytes[i] {
                proof {
                    assert(self.bytes@ != other.bytes@);
                    lemma_le_int_unequal(self.bytes@, other.bytes@);
                }
                return false;
            }
            i += 1;
        }
        proof {
            assert(self.bytes@ =~= other.bytes@);
        }
        true
    }

    /// The element for a 64-bit integer (used for the disclosed birth year).
    pub fn from_u64(n: u64) -> (r: FieldElement)
        ensures
            r.wf(),
            r.value() == n as int,
    {
        let mut out: Vec<u8> = Vec::new();
        let mut rem: u64 = n;
        let mut i: usize = 0;
        while i < 32
            invariant
                i <= 32,
                out@.len() == i,
                le_int(out@) + (rem as int) * pow256(i as nat) == n as int,
                le_int(out@) >= 0,
            decreases 32 - i,
        {
            let d: u8 = (rem % 256) as u8;
            let rem2: u64 = rem / 256;
            proof {
                lemma_le_int_append(out@, seq![d]);
                lemma_le_int_singleton(d);
                assert(pow256((i + 1) as nat) == 256 * pow256(i as nat));
                let p = pow256(i as nat);
                let pn = pow256((i + 1) as nat);
                assert((rem as int) * p == p * (d as int) + (rem2 as int) * pn) by (nonlinear_arith)
                    requires
                        rem as int == d as int + 256 * (rem2 as int),
                        pn == 256 * p,
                ;
                assert(out@ + seq![d] =~= out@.push(d));
                lemma_le_int_bounds(out@.push(d));
            }
            out.push(d);
            rem = rem2;
            i += 1;
        }
        proof {
            lemma_le_int_bounds(out@);
            lemma_pow256_pos(32);
            if rem >= 1 {
                assert((rem as int) * pow256(32) >= pow256(32)) by (nonlinear_arith)
                    requires
                        rem as int >= 1,
                        pow256(32) >= 1,
                ;
                assert(n as int >= pow256(32));
                lemma_pow256_eight();
                lemma_pow256_increases(8, 32);
                assert(false);
            }
            lemma_modulus_facts();
            lemma_pow256_eight();
            lemma_pow256_increases(8, 31);
        }
        FieldElement { bytes: out }
    }

    /// The element whose value the first 31 bytes of `b` give, read
    /// little-endian. Thirty-one bytes always stay below the 254-bit
    /// modulus, so no modular reduction is ever involved.
    pub fn from_le_prefix_31(b: &Vec<u8>) -> (r: FieldElement)
        requires
            b@.len() >= 31,
        ensures
            r.wf(),
            r.value() == le_int(b@.take(31)),
            r.value() < pow256(31),
    {
        let mut out: Vec<u8> = Vec::new();
        let mut i: usize = 0;
        while i < 31
            invariant
                i <= 31,
                b@.len() >= 31,
                out@ == b@.take(i as int),
            decreases 31 - i,
        {
            let x = b[i];
            out.push(x);
            proof {
                assert(b@.take(i + 1) =~= b@.take(i as int).push(b@[i as int]));
            }
            i += 1;
        }
        out.push(0u8);
        proof {
            assert(out@ =~= b@.take(31) + seq![0u8]);
            lemma_le_int_append(b@.take(31), seq![0u8]);
            lemma_le_int_singleton(0u8);
            lemma_le_int_bounds(b@.take(31));
            lemma_modulus_facts();
        }
        FieldElement { bytes: out }
    }
}

impl FieldElement {
    /// Executable form of `wf`: exactly 32 bytes, value below the
    /// modulus.
    pub fn is_canonical(&self) -> (r: bool)
        ensures
            r == self.wf(),
    {
        if self.bytes.len() != 32 {
            return false;
        }
        let m = fr_modulus_vec();
        !bytes_ge(&self.bytes, &m)
    }

    /// Accept 32 little-endian bytes as an element exactly when their
    /// value is below the modulus.
    pub fn from_le_bytes_checked(bytes: Vec<u8>) -> (r: Option<FieldElement>)
        requires
            bytes@.len() == 32,
        ensures
            r matches Some(f) ==> f.wf() && f.bytes@ == bytes@,
            r is None ==> le_int(bytes@) >= fr_modulus(),
    {
        let m = fr_modulus_vec();
        if bytes_ge(&bytes, &m) {
            None
        } else {
            Some(FieldElement { bytes })
        }
    }
}

/// Distinct byte strings of equal length have distinct values.
pub proof fn lemma_le_int_unequal(x: Seq<u8>, y: Seq<u8>)
    requires
        x.len() == y.len(),
        x != y,
    ensures
        le_int(x) != le_int(y),
{
    assert(!(x =~= y));
    let k = max_diff_index(x, y);
    lemma_max_diff_index(x, y);
    if x[k] > y[k] {
        lemma_le_int_high_byte(x, y, k);
    } else {
        lemma_le_int_high_byte(y, x, k);
    }
}

/// The highest index at which two sequences differ.
spec fn max_diff_index(x: Seq<u8>, y: Seq<u8>) -> int
    decreases x.len(),
{
    if x.len() == 0 {
        -1
    } else if x.last() != y.last() {
        x.len() - 1
    } else {
        max_diff_index(x.drop_last(), y.drop_last())
    }
}

proof fn lemma_max_diff_index(x: Seq<u8>, y: Seq<u8>)
    requires
        x.len() == y.len(),
        exists|i: int| 0 <= i < x.len() && x[i] != y[i],
    ensures
        0 <= max_diff_index(x, y) < x.len(),
        x[max_diff_index(x, y)] != y[max_diff_index(x, y)],
        forall|j: int| max_diff_index(x, y) < j < x.len() ==> x[j] == y[j],
    decreases x.len(),
{
    if x.last() != y.last() {
    } else {
        let i = choose|i: int| 0 <= i < x.len() && x[i] != y[i];
        assert(0 <= i < x.len() - 1);
        assert(x.drop_last()[i] == x[i] && y.drop_last()[i] == y[i]);
        lemma_max_diff_index(x.drop_last(), y.drop_last());
        let k = max_diff_index(x.drop_last(), y.drop_last());
        assert(forall|j: int| k < j < x.len() - 1 ==> x.drop_last()[j] == x[j] && y.drop_last()[j] == y[j]);
    }
}

/// The field modulus as executable bytes.
fn fr_modulus_vec() -> (r: Vec<u8>)
    ensures
        r@ == fr_modulus_le_bytes(),
        r@.len() == 32,
{
    let out: Vec<u8> = vec![
        1u8, 0u8, 0u8, 240u8, 147u8, 245u8, 225u8, 67u8,
        145u8, 112u8, 185u8, 121u8, 72u8, 232u8, 51u8, 40u8,
        93u8, 88u8, 129u8, 129u8, 182u8, 69u8, 80u8, 184u8,
        41u8, 160u8, 49u8, 225u8, 114u8, 78u8, 100u8, 48u8,
    ];
    proof {
        assert(out@ =~= fr_modulus_le_bytes());
    }
    out
}

/// Whether `x >= y`, read as little-endian integers of equal length.
fn bytes_ge(x: &Vec<u8>, y: &Vec<u8>) -> (r: bool)
    requires
        x@.len() == y@.len(),
    ensures
        r == (le_int(x@) >= le_int(y@)),
{
    let n = x.len();
    let mut i: usize = n;
    while i > 0
        invariant
            i <= n,
            n == x@.len() == y@.len(),
            forall|j: int| i <= j < n ==> x@[j] == y@[j],
        decreases i,
    {
        i = i - 1;
        if x[i] > y[i] {
            proof {
                lemma_le_int_high_byte(x@, y@, i as int);
            }
            return true;
        }
        if x[i] < y[i] {
            proof {
                lemma_le_int_high_byte(y@, x@, i as int);
            }
            return false;
        }
    }
    proof {
        assert(x@ =~= y@);
    }
    true
}

/// Little-endian byte subtraction, defined when no underflow occurs.
fn bytes_sub(x: &Vec<u8>, y: &Vec<u8>) -> (r: Vec<u8>)
    requires
        x@.len() == y@.len(),
        le_int(x@) >= le_int(y@),
    ensures
        r@.len() == x@.len(),
        le_int(r@) == le_int(x@) - le_int(y@),
{
    let n = x.len();
    let mut out: Vec<u8> = Vec::new();
    let mut borrow: u8 = 0;
    let mut i: usize = 0;
    while i < n
        invariant
            i <= n,
            n == x@.len() == y@.len(),
            out@.len() == i,
            borrow <= 1,
            le_int(out@) == le_int(x@.take(i as int)) - le_int(y@.take(i as int)) + (borrow as int) * pow256(i as nat),
        decreases n - i,
    {
        let xi: u16 = x[i] as u16;
        let need: u16 = y[i] as u16 + borrow as u16;
        let d: u8;
        let b2: u8;
        if xi >= need {
            d = (xi - need) as u8;
            b2 = 0;
        } else {
            d = (xi + 256 - need) as u8;
            b2 = 1;
        }
        proof {
            lemma_le_int_take_succ(x@, i as int);
            lemma_le_int_take_succ(y@, i as int);
            lemma_le_int_append(out@, seq![d]);
            lemma_le_int_singleton(d);
            assert(pow256((i + 1) as nat) == 256 * pow256(i as nat));
            assert(out@ + seq![d] =~= out@.push(d));
            let p = pow256(i as nat);
            let pn = pow256((i + 1) as nat);
            assert(p * (d as int) == x@[i as int] * p - y@[i as int] * p - (borrow as int) * p + (b2 as int) * pn) by (nonlinear_arith)
                requires
                    d as int == x@[i as int] - y@[i as int] - (borrow as int) + 256 * (b2 as int),
                    pn == 256 * p,
            ;
        }
        out.push(d);
        borrow = b2;
        i += 1;
    }
    proof {
        assert(x@.take(n as int) =~= x@);
        assert(y@.take(n as int) =~= y@);
        lemma_le_int_bounds(out@);
        if borrow >= 1 {
            assert(le_int(out@) >= pow256(n as nat));
            assert(false);
        }
    }
    out
}

/// Field addition: the sum of the two values, reduced modulo the field
/// order. This is the operation the location commitment is built from.
pub fn field_add(a: &FieldElement, b: &FieldElement) -> (r: FieldElement)
    requires
        a.wf(),
        b.wf(),
    ensures
        r.wf(),
        r.value() == (a.value() + b.value()) % fr_modulus(),
{
    let mut out: Vec<u8> = Vec::new();
    let mut carry: u8 = 0;
    let mut i: usize = 0;
    while i < 32
        invariant
            a.wf(),
            b.wf(),
            i <= 32,
            out@.len() == i,
            carry <= 1,
            le_int(out@) + (carry as int) * pow256(i as nat)
                == le_int(a.bytes@.take(i as int)) + le_int(b.bytes@.take(i as int)),
        decreases 32 - i,
    {
        let s: u16 = a.bytes[i] as u16 + b.bytes[i] as u16 + carry as u16;
        let lo: u8 = (s % 256) as u8;
        let c2: u8 = (s / 256) as u8;
        proof {
            lemma_le_int_take_succ(a.bytes@, i as int);
            lemma_le_int_take_succ(b.bytes@, i as int);
            lemma_le_int_append(out@, seq![lo]);
            lemma_le_int_singleton(lo);
            assert(pow256((i + 1) as nat) == 256 * pow256(i as nat));
            assert(out@ + seq![lo] =~= out@.push(lo));
            let p = pow256(i as nat);
            let pn = pow256((i + 1) as nat);
            assert(p * (lo as int) + (c2 as int) * pn
                == a.bytes@[i as int] * p + b.bytes@[i as int] * p + (carry as int) * p) by (nonlinear_arith)
                requires
                    lo as int + 256 * (c2 as int) == a.bytes@[i as int] + b.bytes@[i as int] + carry as int,
                    pn == 256 * p,
            ;
        }
        out.push(lo);
        carry = c2;
        i += 1;
    }
    proof {
        assert(a.bytes@.take(32) =~= a.bytes@);
        assert(b.bytes@.take(32) =~= b.bytes@);
        lemma_modulus_facts();
        lemma_le_int_bounds(out@);
        if carry >= 1 {
            assert(le_int(out@) + pow256(32) <= le_int(out@) + (carry as int) * pow256(32));
            assert(false);
        }
    }
    let m = fr_modulus_vec();
    if bytes_ge(&out, &m) {
        let reduced = bytes_sub(&out, &m);
        proof {
            lemma_modulus_facts();
            lemma_mod_multiples_vanish(1, le_int(reduced@), fr_modulus());
            lemma_small_mod((le_int(reduced@)) as nat, fr_modulus() as nat);
        }
        FieldElement { bytes: reduced }
    } else {
        proof {
            lemma_modulus_facts();
            lemma_le_int_bounds(out@);
            lemma_small_mod((le_int(out@)) as nat, fr_modulus() as nat);
        }
        FieldElement { bytes: out }
    }
}

} // verus!
