//! The representation: 256-bit limbs held as 32 big-endian bytes, and the
//! wider values as tuples of limbs, most significant first.
use vstd::arithmetic::power2::*;
use vstd::prelude::*;

verus! {

/// The number that a big-endian byte string denotes.
pub open spec fn be_value(s: Seq<u8>) -> nat
    decreases s.len(),
{
    if s.len() == 0 {
        0
    } else {
        be_value(s.drop_last()) * 256 + s.last() as nat
    }
}

/// A big-endian string of `n` zero bytes denotes zero.
pub proof fn lemma_be_value_zero(s: Seq<u8>)
    requires
        forall|i: int| 0 <= i < s.len() ==> s[i] == 0,
    ensures
        be_value(s) == 0,
    decreases s.len(),
{
    if s.len() > 0 {
        lemma_be_value_zero(s.drop_last());
    }
}

/// A string of `n` bytes denotes a number below `2^(8n)`.
pub proof fn lemma_be_value_bound(s: Seq<u8>)
    ensures
        be_value(s) < pow2(8 * s.len()),
    decreases s.len(),
{
    if s.len() == 0 {
        lemma2_to64();
    } else {
        let n = (s.len() - 1) as nat;
        lemma_be_value_bound(s.drop_last());
        lemma_pow2_adds(8 * n, 8);
        lemma2_to64();
        assert(8 * s.len() == 8 * n + 8);
        let p = pow2(8 * n);
        let v = be_value(s.drop_last());
        assert(v * 256 + s.last() < p * 256) by (nonlinear_arith)
            requires
                v < p,
                s.last() < 256,
        ;
    }
}

/// Concatenation is a shift of the first part by the width of the second.
pub proof fn lemma_be_value_concat(a: Seq<u8>, b: Seq<u8>)
    ensures
        be_value(a + b) == be_value(a) * pow2(8 * b.len()) + be_value(b),
    decreases b.len(),
{
    if b.len() == 0 {
        assert(a + b =~= a);
        lemma2_to64();
        assert(pow2(8 * b.len()) == 1);
        assert(be_value(a) * 1 == be_value(a));
    } else {
        let n = (b.len() - 1) as nat;
        assert((a + b).drop_last() =~= a + b.drop_last());
        assert((a + b).last() == b.last());
        lemma_be_value_concat(a, b.drop_last());
        lemma_pow2_adds(8 * n, 8);
        lemma2_to64();
        assert(8 * b.len() == 8 * n + 8);
        let x = be_value(a);
        let p = pow2(8 * n);
        let y = be_value(b.drop_last());
        assert((x * p + y) * 256 == x * (p * 256) + y * 256) by (nonlinear_arith);
        assert(be_value(a + b) == be_value(a + b.drop_last()) * 256 + b.last() as nat);
        assert(be_value(b) == y * 256 + b.last() as nat);
        assert(pow2(8 * b.len()) == p * 256);
        assert(be_value(a + b) == x * pow2(8 * b.len()) + be_value(b));
    }
}

/// A string of `n` bytes that are all `0xff` denotes `2^(8n) - 1`.
pub proof fn lemma_be_value_ones(s: Seq<u8>)
    requires
        forall|i: int| 0 <= i < s.len() ==> s[i] == 0xff,
    ensures
        be_value(s) + 1 == pow2(8 * s.len()),
    decreases s.len(),
{
    lemma2_to64();
    if s.len() > 0 {
        let n = (s.len() - 1) as nat;
        lemma_be_value_ones(s.drop_last());
        lemma_pow2_adds(8 * n, 8);
        assert(8 * s.len() == 8 * n + 8);
    }
}

/// `a / b` rounded up, for `b > 0`.
pub open spec fn ceil_div(a: nat, b: nat) -> nat
    recommends
        b > 0,
{
    ((a + b - 1) as nat) / b
}

/// `x` reduced modulo `2^bits`.
pub open spec fn wrap(x: int, bits: nat) -> nat {
    (x % (pow2(bits) as int)) as nat
}

/// The modulus of the 256-bit limb.
pub open spec fn limb_base() -> nat {
    pow2(256)
}

/// An unsigned 256-bit integer: one limb, 32 bytes, most significant first.
#[derive(Clone, Copy, Debug, PartialEq, Eq)]
pub struct Uint256 {
    pub bytes: [u8; 32],
}

/// An unsigned 512-bit integer as the limb pair `(high, low)`.
#[derive(Clone, Copy, Debug, PartialEq, Eq)]
pub struct Uint512 {
    pub high: Uint256,
    pub low: Uint256,
}

/// An unsigned 768-bit integer as the limb triple `(h2, h1, h0)`.
#[derive(Clone, Copy, Debug, PartialEq, Eq)]
pub struct Uint768 {
    pub h2: Uint256,
    pub h1: Uint256,
    pub h0: Uint256,
}

impl Uint256 {
    pub open spec fn value(&self) -> nat {
        be_value(self.bytes@)
    }

    pub proof fn lemma_value_bound(&self)
        ensures
            self.value() < limb_base(),
    {
        lemma_be_value_bound(self.bytes@);
    }

    /// The integer zero.
    pub fn zero() -> (r: Uint256)
        ensures
            r.value() == 0,
    {
        let r = Uint256 { bytes: [0u8; 32] };
        proof {
            lemma_be_value_zero(r.bytes@);
        }
        r
    }

    /// The integer one.
    pub fn one() -> (r: Uint256)
        ensures
            r.value() == 1,
    {
        let mut bytes = [0u8; 32];
        bytes[31] = 1;
        proof {
            let s = bytes@;
            assert(s.drop_last() =~= Seq::new(31, |i: int| 0u8));
            lemma_be_value_zero(s.drop_last());
        }
        Uint256 { bytes }
    }

    /// Builds the limb from its canonical 32-byte big-endian encoding.
    pub fn from_be_bytes(bytes: [u8; 32]) -> (r: Uint256)
        ensures
            r.bytes@ == bytes@,
            r.value() == be_value(bytes@),
    {
        Uint256 { bytes }
    }

    /// The canonical 32-byte big-endian encoding.
    pub fn to_be_bytes(&self) -> (r: [u8; 32])
        ensures
            r@ == self.bytes@,
            be_value(r@) == self.value(),
    {
        self.bytes
    }

    /// Whether the value is zero.
    pub fn is_zero(&self) -> (r: bool)
        ensures
            r == (self.value() == 0),
    {
        let mut i: usize = 0;
        while i < 32
            invariant
                0 <= i <= 32,
                forall|j: int| 0 <= j < i ==> self.bytes@[j] == 0,
            decreases 32 - i,
        {
            if self.bytes[i] != 0 {
                proof {
                    self.lemma_nonzero_byte(i as int);
                }
                return false;
            }
            i = i + 1;
        }
        proof {
            lemma_be_value_zero(self.bytes@);
        }
        true
    }

    /// Whether the most significant bit is set, that is `value >= 2^255`.
    pub fn top_bit_set(&self) -> (r: bool)
        ensures
            r == (self.value() >= pow2(255)),
    {
        proof {
            let s = self.bytes@;
            let head = s.subrange(0, 1);
            let rest = s.subrange(1, 32);
            assert(s =~= head + rest);
            lemma_be_value_concat(head, rest);
            assert(be_value(head.drop_last()) == 0);
            assert(head.last() == s[0]);
            lemma_be_value_bound(rest);
            lemma_pow2_adds(7, 248);
            lemma_pow2_adds(8, 248);
            lemma2_to64();
            let b = s[0] as nat;
            let p = pow2(248);
            let v = be_value(rest);
            assert(b >= 128 ==> b * p + v >= 128 * p) by (nonlinear_arith);
            assert(b < 128 ==> b * p + v < 128 * p) by (nonlinear_arith)
                requires
                    v < p,
            ;
        }
        self.bytes[0] >= 128
    }

    proof fn lemma_nonzero_byte(&self, i: int)
        requires
            0 <= i < 32,
            self.bytes@[i] != 0,
        ensures
            self.value() > 0,
    {
        let s = self.bytes@;
        let a = s.subrange(0, i + 1);
        let b = s.subrange(i + 1, 32);
        assert(s =~= a + b);
        lemma_be_value_concat(a, b);
        assert(a.drop_last().len() == i);
        assert(a.last() == s[i]);
        lemma_pow2_pos(8 * b.len());
        assert(be_value(a) > 0);
        assert(be_value(a) * pow2(8 * b.len()) > 0) by (nonlinear_arith)
            requires
                be_value(a) > 0,
                pow2(8 * b.len()) > 0,
        ;
    }
}

/// `2^512 == 2^256 * 2^256` and `2^768 == 2^512 * 2^256`.
pub proof fn lemma_wide_bases()
    ensures
        pow2(512) == limb_base() * limb_base(),
        pow2(768) == pow2(512) * limb_base(),
{
    lemma_pow2_adds(256, 256);
    lemma_pow2_adds(512, 256);
}

impl Uint512 {
    pub open spec fn value(&self) -> nat {
        self.high.value() * limb_base() + self.low.value()
    }

    pub proof fn lemma_value_bound(&self)
        ensures
            self.value() < pow2(512),
    {
        self.high.lemma_value_bound();
        self.low.lemma_value_bound();
        lemma_wide_bases();
        let h = self.high.value();
        let l = self.low.value();
        let b = limb_base();
        assert(h * b + l < b * b) by (nonlinear_arith)
            requires
                h < b,
                l < b,
        ;
    }

    /// Builds the value from its canonical 64-byte big-endian encoding.
    pub fn from_be_bytes(bytes: [u8; 64]) -> (r: Uint512)
        ensures
            r.high.bytes@ + r.low.bytes@ == bytes@,
            r.value() == be_value(bytes@),
    {
        let mut hi = [0u8; 32];
        let mut lo = [0u8; 32];
        let mut i: usize = 0;
        while i < 32
            invariant
                0 <= i <= 32,
                forall|j: int| 0 <= j < i ==> hi@[j] == bytes@[j] && lo@[j] == bytes@[j + 32],
            decreases 32 - i,
        {
            hi[i] = bytes[i];
            lo[i] = bytes[i + 32];
            i = i + 1;
        }
        assert(hi@ + lo@ =~= bytes@);
        proof {
            lemma_be_value_concat(hi@, lo@);
        }
        Uint512 { high: Uint256 { bytes: hi }, low: Uint256 { bytes: lo } }
    }

    /// The canonical 64-byte big-endian encoding.
    pub fn to_be_bytes(&self) -> (r: [u8; 64])
        ensures
            r@ == self.high.bytes@ + self.low.bytes@,
            be_value(r@) == self.value(),
    {
        let mut out = [0u8; 64];
        let mut i: usize = 0;
        while i < 32
            invariant
                0 <= i <= 32,
                forall|j: int|
                    0 <= j < i ==> out@[j] == self.high.bytes@[j] && out@[j + 32]
                        == self.low.bytes@[j],
            decreases 32 - i,
        {
            out[i] = self.high.bytes[i];
            out[i + 32] = self.low.bytes[i];
            i = i + 1;
        }
        assert(out@ =~= self.high.bytes@ + self.low.bytes@);
        proof {
            lemma_be_value_concat(self.high.bytes@, self.low.bytes@);
        }
        out
    }

    /// Whether the value is zero.
    pub fn is_zero(&self) -> (r: bool)
        ensures
            r == (self.value() == 0),
    {
        proof {
            lemma_pow2_pos(256);
            let h = self.high.value();
            let b = limb_base();
            assert(h > 0 ==> h * b > 0) by (nonlinear_arith)
                requires
                    b > 0,
            ;
        }
        self.high.is_zero() && self.low.is_zero()
    }

    /// Zero-extends a 256-bit value.
    pub fn widen(x: Uint256) -> (r: Uint512)
        ensures
            r.value() == x.value(),
            r.low == x,
    {
        Uint512 { high: Uint256::zero(), low: x }
    }

    /// The low limb, where the high limb is zero; `None` where the value
    /// does not fit in 256 bits.
    pub fn narrow(&self) -> (r: Option<Uint256>)
        ensures
            r is Some <==> self.value() < limb_base(),
            r matches Some(x) ==> x.value() == self.value(),
    {
        proof {
            self.low.lemma_value_bound();
            let h = self.high.value();
            let l = self.low.value();
            let b = limb_base();
            assert(h > 0 ==> h * b + l >= b) by (nonlinear_arith);
        }
        if self.high.is_zero() {
            Some(self.low)
        } else {
            None
        }
    }

    /// `2^512 - 1`, the largest 512-bit value.
    pub fn max() -> (r: Uint512)
        ensures
            r.value() + 1 == pow2(512),
    {
        let r = Uint512 { high: Uint256 { bytes: [0xffu8; 32] }, low: Uint256 { bytes: [0xffu8; 32] } };
        proof {
            lemma_be_value_ones(r.high.bytes@);
            lemma_be_value_ones(r.low.bytes@);
            lemma_wide_bases();
            let b = limb_base();
            assert((b - 1) * b + (b - 1) + 1 == b * b) by (nonlinear_arith);
        }
        r
    }

    /// `2^256`, the weight of the high limb.
    pub fn limb_weight() -> (r: Uint512)
        ensures
            r.value() == limb_base(),
    {
        let r = Uint512 { high: Uint256::one(), low: Uint256::zero() };
        assert(1 * limb_base() + 0 == limb_base());
        r
    }
}

impl Uint768 {
    pub open spec fn value(&self) -> nat {
        (self.h2.value() * limb_base() + self.h1.value()) * limb_base() + self.h0.value()
    }

    pub proof fn lemma_value_bound(&self)
        ensures
            self.value() < pow2(768),
    {
        self.h2.lemma_value_bound();
        self.h1.lemma_value_bound();
        self.h0.lemma_value_bound();
        lemma_wide_bases();
        let h2 = self.h2.value();
        let h1 = self.h1.value();
        let h0 = self.h0.value();
        let b = limb_base();
        assert(h2 * b + h1 < b * b) by (nonlinear_arith)
            requires
                h2 < b,
                h1 < b,
        ;
        assert((h2 * b + h1) * b + h0 < (b * b) * b) by (nonlinear_arith)
            requires
                h2 * b + h1 < b * b,
                h0 < b,
        ;
    }

    /// Builds the value from its canonical 96-byte big-endian encoding.
    pub fn from_be_bytes(bytes: [u8; 96]) -> (r: Uint768)
        ensures
            r.h2.bytes@ + r.h1.bytes@ + r.h0.bytes@ == bytes@,
            r.value() == be_value(bytes@),
    {
        let mut a = [0u8; 32];
        let mut b = [0u8; 32];
        let mut c = [0u8; 32];
        let mut i: usize = 0;
        while i < 32
            invariant
                0 <= i <= 32,
                forall|j: int|
                    0 <= j < i ==> a@[j] == bytes@[j] && b@[j] == bytes@[j + 32] && c@[j]
                        == bytes@[j + 64],
            decreases 32 - i,
        {
            a[i] = bytes[i];
            b[i] = bytes[i + 32];
            c[i] = bytes[i + 64];
            i = i + 1;
        }
        assert(a@ + b@ + c@ =~= bytes@);
        proof {
            lemma_be_value_concat(a@, b@);
            lemma_be_value_concat(a@ + b@, c@);
        }
        Uint768 { h2: Uint256 { bytes: a }, h1: Uint256 { bytes: b }, h0: Uint256 { bytes: c } }
    }

    /// The canonical 96-byte big-endian encoding.
    pub fn to_be_bytes(&self) -> (r: [u8; 96])
        ensures
            r@ == self.h2.bytes@ + self.h1.bytes@ + self.h0.bytes@,
            be_value(r@) == self.value(),
    {
        let mut out = [0u8; 96];
        let mut i: usize = 0;
        while i < 32
            invariant
                0 <= i <= 32,
                forall|j: int|
                    0 <= j < i ==> out@[j] == self.h2.bytes@[j] && out@[j + 32]
                        == self.h1.bytes@[j] && out@[j + 64] == self.h0.bytes@[j],
            decreases 32 - i,
        {
            out[i] = self.h2.bytes[i];
            out[i + 32] = self.h1.bytes[i];
            out[i + 64] = self.h0.bytes[i];
            i = i + 1;
        }
        assert(out@ =~= self.h2.bytes@ + self.h1.bytes@ + self.h0.bytes@);
        proof {
            lemma_be_value_concat(self.h2.bytes@, self.h1.bytes@);
            lemma_be_value_concat(self.h2.bytes@ + self.h1.bytes@, self.h0.bytes@);
        }
        out
    }

    /// Zero-extends a 512-bit value.
    pub fn widen(x: Uint512) -> (r: Uint768)
        ensures
            r.value() == x.value(),
    {
        Uint768 { h2: Uint256::zero(), h1: x.high, h0: x.low }
    }

    /// The low limb, where both higher limbs are zero; `None` where the
    /// value does not fit in 256 bits.
    pub fn narrow(&self) -> (r: Option<Uint256>)
        ensures
            r is Some <==> self.value() < limb_base(),
            r matches Some(x) ==> x.value() == self.value(),
    {
        proof {
            self.h0.lemma_value_bound();
            let h2 = self.h2.value();
            let h1 = self.h1.value();
            let l = self.h0.value();
            let b = limb_base();
            assert((h2 > 0 || h1 > 0) ==> (h2 * b + h1) * b + l >= b) by (nonlinear_arith)
                requires
                    b > 0,
            ;
        }
        if self.h2.is_zero() && self.h1.is_zero() {
            Some(self.h0)
        } else {
            None
        }
    }

    /// `2^768 - 1`, the largest 768-bit value.
    pub fn max() -> (r: Uint768)
        ensures
            r.value() + 1 == pow2(768),
    {
        let ones = Uint256 { bytes: [0xffu8; 32] };
        let r = Uint768 { h2: ones, h1: ones, h0: ones };
        proof {
            lemma_be_value_ones(ones.bytes@);
            lemma_wide_bases();
            let b = limb_base();
            assert(((b - 1) * b + (b - 1)) * b + (b - 1) + 1 == (b * b) * b) by (nonlinear_arith);
        }
        r
    }

    /// `2^256`, the weight of the middle limb.
    pub fn limb_weight() -> (r: Uint768)
        ensures
            r.value() == limb_base(),
    {
        let r = Uint768 { h2: Uint256::zero(), h1: Uint256::one(), h0: Uint256::zero() };
        assert((0 * limb_base() + 1) * limb_base() + 0 == limb_base()) by (nonlinear_arith);
        r
    }
}

} // verus!
