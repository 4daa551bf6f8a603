//! The machine word: an unsigned integer of 256 bits.

use crate::util::bytes::{be_value, lemma_value_below_span, lemma_span_31, span};
use core::ops::Add;
use vstd::prelude::*;
use vstd::std_specs::convert::FromSpecImpl;
use vstd::std_specs::ops::AddSpecImpl;

verus! {

/// Two to the power of 64: the number of values of one of the four parts of
/// a word.
pub open spec fn base() -> nat {
    0x1_0000_0000_0000_0000
}

/// Two to the power of 256: the number of values of a word.
pub open spec fn modulus() -> nat {
    0x1_0000_0000_0000_0000_0000_0000_0000_0000_0000_0000_0000_0000_0000_0000_0000_0000nat
}

/// An unsigned integer of 256 bits.
#[allow(non_camel_case_types)]
#[derive(Clone, Copy, Debug, PartialEq, Eq, Structural)]
pub struct u256 {
    /// The four parts of the word, the least significant first.
    w0: u64,
    w1: u64,
    w2: u64,
    w3: u64,
}

/// The last `count` items of `bytes`, or all of them if there are fewer.
pub open spec fn tail(bytes: Seq<u8>, count: int) -> Seq<u8> {
    if bytes.len() <= count {
        bytes
    } else {
        bytes.skip(bytes.len() - count)
    }
}

impl u256 {
    /// The number that the word holds.
    pub closed spec fn value(&self) -> nat {
        (self.w0 + self.w1 * base() + self.w2 * base() * base() + self.w3 * base()
            * base() * base()) as nat
    }

    /// The word that holds `n`, for `n` below two to the power of 256.
    pub closed spec fn of(n: nat) -> u256 {
        u256 {
            w0: (n % base()) as u64,
            w1: (n / base() % base()) as u64,
            w2: (n / base() / base() % base()) as u64,
            w3: (n / base() / base() / base() % base()) as u64,
        }
    }

    /// A word holds a number below two to the power of 256, and is the word of
    /// that number.
    pub proof fn lemma_value(self)
        ensures
            self.value() < modulus(),
            u256::of(self.value()) == self,
    {
        let w0 = self.w0 as nat;
        let w1 = self.w1 as nat;
        let w2 = self.w2 as nat;
        let w3 = self.w3 as nat;
        let n = self.value();
        assert(n == w0 + base() * (w1 + base() * (w2 + base() * w3))) by (nonlinear_arith)
            requires
                n == w0 + w1 * base() + w2 * base() * base() + w3 * base() * base() * base(),
        ;
        lemma_split(w0, w1 + base() * (w2 + base() * w3));
        lemma_split(w1, w2 + base() * w3);
        lemma_split(w2, w3);
        assert(w3 % base() == w3);
        assert(n < modulus()) by (nonlinear_arith)
            requires
                n == w0 + base() * (w1 + base() * (w2 + base() * w3)),
                w0 < base(),
                w1 < base(),
                w2 < base(),
                w3 < base(),
                base() == 0x1_0000_0000_0000_0000,
                modulus()
                    == 0x1_0000_0000_0000_0000_0000_0000_0000_0000_0000_0000_0000_0000_0000_0000_0000_0000nat,
        ;
    }

    /// The word of a number below two to the power of 256 holds that number.
    pub proof fn lemma_of(n: nat)
        requires
            n < modulus(),
        ensures
            u256::of(n).value() == n,
    {
        let q1 = n / base();
        let q2 = q1 / base();
        let q3 = q2 / base();
        assert(q3 < base());
        let w = u256::of(n);
        assert(w.w0 == n % base());
        assert(w.w1 == q1 % base());
        assert(w.w2 == q2 % base());
        assert(w.w3 == q3 % base());
        assert(n == n % base() + q1 % base() * base() + q2 % base() * base() * base() + q3 * base() * base()
            * base()) by (nonlinear_arith)
            requires
                n == base() * q1 + n % base(),
                q1 == base() * q2 + q1 % base(),
                q2 == base() * q3 + q2 % base(),
        ;
    }

    /// The lowest 64 bits of the number that the word holds.
    pub fn low_u64(&self) -> (r: u64)
        ensures
            r == self.value() % base(),
    {
        proof {
            lemma_split(
                self.w0 as nat,
                (self.w1 + base() * (self.w2 + base() * self.w3)) as nat,
            );
            assert(self.value() == self.w0 + base() * (self.w1 + base() * (self.w2 + base()
                * self.w3))) by (nonlinear_arith)
                requires
                    self.value() == self.w0 + self.w1 * base() + self.w2 * base() * base()
                        + self.w3 * base() * base() * base(),
            ;
        }
        self.w0
    }

    /// The number that the word holds, if it fits 64 bits.
    pub fn to_u64(&self) -> (r: Option<u64>)
        ensures
            r is Some <==> self.value() <= u64::MAX,
            r matches Some(n) ==> n == self.value(),
    {
        if self.w1 == 0 && self.w2 == 0 && self.w3 == 0 {
            Some(self.w0)
        } else {
            proof {
                let w1 = self.w1 as nat;
                let w2 = self.w2 as nat;
                let w3 = self.w3 as nat;
                assert(w1 * base() + w2 * base() * base() + w3 * base() * base() * base() >= base())
                    by (nonlinear_arith)
                    requires
                        w1 > 0 || w2 > 0 || w3 > 0,
                        base() == 0x1_0000_0000_0000_0000,
                ;
            }
            None
        }
    }
}

/// A number is told apart into its remainder and its quotient.
proof fn lemma_split(low: nat, high: nat)
    requires
        low < base(),
    ensures
        (low + base() * high) % base() == low,
        (low + base() * high) / base() == high,
{
    assert((low + base() * high) % base() == low && (low + base() * high) / base() == high)
        by (nonlinear_arith)
        requires
            low < base(),
            base() == 0x1_0000_0000_0000_0000,
    ;
}

impl From<u64> for u256 {
    /// The word that holds `val`.
    fn from(val: u64) -> (r: u256) {
        let r = u256 { w0: val, w1: 0, w2: 0, w3: 0 };
        proof {
            let n = val as nat;
            assert(n % base() == n && n / base() == 0);
            assert(r == u256::of(n));
        }
        r
    }
}

impl FromSpecImpl<u64> for u256 {
    open spec fn obeys_from_spec() -> bool {
        true
    }

    open spec fn from_spec(val: u64) -> u256 {
        u256::of(val as nat)
    }
}

impl From<&[u8]> for u256 {
    /// The word that `bytes` write, most significant byte first. Of more than
    /// 32 bytes, the last 32 count.
    fn from(bytes: &[u8]) -> (r: u256) {
        let n = bytes.len();
        let start: usize = if n > 32 { n - 32 } else { 0 };
        let mut w0: u64 = 0;
        let mut w1: u64 = 0;
        let mut w2: u64 = 0;
        let mut w3: u64 = 0;
        let mut i: usize = start;
        let ghost tail = tail(bytes@, 32);
        assert(tail.take(0) =~= Seq::<u8>::empty());
        while i < n
            invariant
                start <= i <= n,
                n == bytes.len(),
                n - start <= 32,
                tail == bytes@.skip(start as int),
                (u256 { w0, w1, w2, w3 }).value() == be_value(tail.take(i - start)),
            decreases n - i,
        {
            let ghost before = u256 { w0, w1, w2, w3 };
            let ghost seen = tail.take(i - start);
            proof {
                lemma_value_below_span(seen);
                lemma_span_31();
                crate::util::bytes::lemma_span_grows(seen.len(), 31);
                assert(tail.take(i - start + 1).drop_last() =~= seen);
                assert(before.value() < span(31));
                let w0 = w0 as nat;
                let w1 = w1 as nat;
                let w2 = w2 as nat;
                let w3 = w3 as nat;
                assert(w3 < 0x100_0000_0000_0000) by (nonlinear_arith)
                    requires
                        w0 + w1 * base() + w2 * base() * base() + w3 * base() * base() * base()
                            < 0x1_0000_0000_0000_0000_0000_0000_0000_0000_0000_0000_0000_0000_0000_0000_0000_00nat,
                        base() == 0x1_0000_0000_0000_0000,
                ;
            }
            let c0: u64 = w0 / 0x100_0000_0000_0000;
            let c1: u64 = w1 / 0x100_0000_0000_0000;
            let c2: u64 = w2 / 0x100_0000_0000_0000;
            let n0: u64 = (w0 % 0x100_0000_0000_0000) * 256 + bytes[i] as u64;
            let n1: u64 = (w1 % 0x100_0000_0000_0000) * 256 + c0;
            let n2: u64 = (w2 % 0x100_0000_0000_0000) * 256 + c1;
            let n3: u64 = w3 * 256 + c2;
            proof {
                let w0 = w0 as nat;
                let w1 = w1 as nat;
                let w2 = w2 as nat;
                let w3 = w3 as nat;
                let b = bytes[i as int] as nat;
                assert(n0 + n1 * base() + n2 * base() * base() + n3 * base() * base() * base() == (w0 + w1
                    * base() + w2 * base() * base() + w3 * base() * base() * base()) * 256 + b)
                    by (nonlinear_arith)
                    requires
                        base() == 0x1_0000_0000_0000_0000,
                        n0 == (w0 % 0x100_0000_0000_0000) * 256 + b,
                        n1 == (w1 % 0x100_0000_0000_0000) * 256 + w0 / 0x100_0000_0000_0000,
                        n2 == (w2 % 0x100_0000_0000_0000) * 256 + w1 / 0x100_0000_0000_0000,
                        n3 == w3 * 256 + w2 / 0x100_0000_0000_0000,
                ;
            }
            w0 = n0;
            w1 = n1;
            w2 = n2;
            w3 = n3;
            i = i + 1;
        }
        assert(tail.take(n - start) =~= tail);
        let r = u256 { w0, w1, w2, w3 };
        proof {
            r.lemma_value();
        }
        r
    }
}

impl FromSpecImpl<&[u8]> for u256 {
    open spec fn obeys_from_spec() -> bool {
        true
    }

    open spec fn from_spec(bytes: &[u8]) -> u256 {
        u256::of(be_value(tail(bytes@, 32)))
    }
}

impl Add for u256 {
    type Output = Self;

    /// The sum of two words, which must itself fit a word.
    fn add(self, rhs: Self) -> (r: Self) {
        let s0: u128 = self.w0 as u128 + rhs.w0 as u128;
        let s1: u128 = self.w1 as u128 + rhs.w1 as u128 + s0 / 0x1_0000_0000_0000_0000;
        let s2: u128 = self.w2 as u128 + rhs.w2 as u128 + s1 / 0x1_0000_0000_0000_0000;
        let s3: u128 = self.w3 as u128 + rhs.w3 as u128 + s2 / 0x1_0000_0000_0000_0000;
        let r0: u64 = (s0 % 0x1_0000_0000_0000_0000) as u64;
        let r1: u64 = (s1 % 0x1_0000_0000_0000_0000) as u64;
        let r2: u64 = (s2 % 0x1_0000_0000_0000_0000) as u64;
        let r3: u64 = (s3 % 0x1_0000_0000_0000_0000) as u64;
        let r = u256 { w0: r0, w1: r1, w2: r2, w3: r3 };
        proof {
            let total = self.value() + rhs.value();
            assert(total == r0 + r1 * base() + r2 * base() * base() + (s3 as nat) * base() * base() * base())
                by (nonlinear_arith)
                requires
                    base() == 0x1_0000_0000_0000_0000,
                    total == (self.w0 + self.w1 * base() + self.w2 * base() * base()
                        + self.w3 * base() * base() * base()) + (rhs.w0 + rhs.w1
                        * base() + rhs.w2 * base() * base() + rhs.w3 * base() * base() * base()),
                    s0 == self.w0 + rhs.w0,
                    s1 == self.w1 + rhs.w1 + s0 / 0x1_0000_0000_0000_0000,
                    s2 == self.w2 + rhs.w2 + s1 / 0x1_0000_0000_0000_0000,
                    s3 == self.w3 + rhs.w3 + s2 / 0x1_0000_0000_0000_0000,
                    r0 == s0 % 0x1_0000_0000_0000_0000,
                    r1 == s1 % 0x1_0000_0000_0000_0000,
                    r2 == s2 % 0x1_0000_0000_0000_0000,
            ;
            assert(s3 < base()) by (nonlinear_arith)
                requires
                    total == r0 + r1 * base() + r2 * base() * base() + (s3 as nat) * base() * base() * base(),
                    total < modulus(),
                    base() == 0x1_0000_0000_0000_0000,
                    modulus()
                        == 0x1_0000_0000_0000_0000_0000_0000_0000_0000_0000_0000_0000_0000_0000_0000_0000_0000nat,
            ;
            assert(r.value() == total);
            r.lemma_value();
        }
        r
    }
}

impl AddSpecImpl for u256 {
    open spec fn obeys_add_spec() -> bool {
        true
    }

    open spec fn add_req(self, rhs: Self) -> bool {
        self.value() + rhs.value() < modulus()
    }

    open spec fn add_spec(self, rhs: Self) -> Self {
        u256::of(self.value() + rhs.value())
    }
}

} // verus!
