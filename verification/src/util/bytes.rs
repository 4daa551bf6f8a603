//! Natural numbers as strings of digits and as strings of bytes, most
//! significant first.

use vstd::prelude::*;

verus! {

/// The number that `digits` write in base `radix`, most significant digit
/// first.
pub open spec fn digits_value(digits: Seq<u8>, radix: nat) -> nat
    decreases digits.len(),
{
    if digits.len() == 0 {
        0
    } else {
        digits_value(digits.drop_last(), radix) * radix + digits.last() as nat
    }
}

/// The number that `bytes` write in base 256, most significant byte first.
pub open spec fn be_value(bytes: Seq<u8>) -> nat {
    digits_value(bytes, 256)
}

/// The bytes of `n` in base 256, most significant first, without leading
/// zeros: zero has none.
pub open spec fn magnitude(n: nat) -> Seq<u8>
    decreases n,
{
    if n == 0 {
        Seq::empty()
    } else {
        magnitude(n / 256).push((n % 256) as u8)
    }
}

/// The shortest string of at least one byte that writes `n` in base 256, most
/// significant byte first.
pub open spec fn be_bytes(n: nat) -> Seq<u8> {
    if n == 0 {
        seq![0u8]
    } else {
        magnitude(n)
    }
}

/// 256 to the power of `count`: one more than the largest number that `count`
/// bytes can write.
pub open spec fn span(count: nat) -> nat
    decreases count,
{
    if count == 0 {
        1
    } else {
        256 * span((count - 1) as nat)
    }
}

/// The bytes of a number write that number, and start with no zero.
pub proof fn lemma_magnitude_value(n: nat)
    ensures
        be_value(magnitude(n)) == n,
        n > 0 ==> magnitude(n).len() > 0 && magnitude(n)[0] != 0,
    decreases n,
{
    if n > 0 {
        lemma_magnitude_value(n / 256);
        let high = magnitude(n / 256);
        assert(magnitude(n).drop_last() =~= high);
        if n / 256 > 0 {
            assert(magnitude(n)[0] == high[0]);
        }
    }
}

/// A number takes at most `count` bytes exactly when it is below 256 to the
/// power of `count`.
pub proof fn lemma_magnitude_len(n: nat, count: nat)
    ensures
        magnitude(n).len() <= count <==> n < span(count),
    decreases n,
{
    if n > 0 {
        if count > 0 {
            lemma_magnitude_len(n / 256, (count - 1) as nat);
        }
    } else {
        lemma_span_positive(count);
    }
}

/// A power of 256 is at least one.
pub proof fn lemma_span_positive(count: nat)
    ensures
        span(count) >= 1,
    decreases count,
{
    if count > 0 {
        lemma_span_positive((count - 1) as nat);
    }
}

/// Thirty-one bytes write the numbers below two to the power of 248.
pub proof fn lemma_span_31()
    ensures
        span(31) == 0x1_0000_0000_0000_0000_0000_0000_0000_0000_0000_0000_0000_0000_0000_0000_0000_00nat,
{
    reveal_with_fuel(span, 32);
}

/// More bytes write more numbers.
pub proof fn lemma_span_grows(few: nat, many: nat)
    requires
        few <= many,
    ensures
        span(few) <= span(many),
    decreases many,
{
    if few < many {
        lemma_span_grows(few, (many - 1) as nat);
    }
}

/// A string of bytes writes a number below 256 to the power of its length.
pub proof fn lemma_value_below_span(bytes: Seq<u8>)
    ensures
        be_value(bytes) < span(bytes.len()),
    decreases bytes.len(),
{
    if bytes.len() > 0 {
        lemma_value_below_span(bytes.drop_last());
    }
}

/// Thirty-two bytes write the numbers below two to the power of 256.
pub proof fn lemma_span_32()
    ensures
        span(32)
            == 0x1_0000_0000_0000_0000_0000_0000_0000_0000_0000_0000_0000_0000_0000_0000_0000_0000nat,
{
    reveal_with_fuel(span, 33);
}

/// Sixteen bytes write the numbers below two to the power of 128.
pub proof fn lemma_span_16()
    ensures
        span(16) == 0x1_0000_0000_0000_0000_0000_0000_0000_0000nat,
{
    reveal_with_fuel(span, 17);
}

/// The bytes of `val`, most significant first, without leading zeros.
fn magnitude_of(val: u128) -> (r: Vec<u8>)
    ensures
        r@ == magnitude(val as nat),
    decreases val,
{
    if val == 0 {
        Vec::new()
    } else {
        let mut bytes = magnitude_of(val / 256);
        bytes.push((val % 256) as u8);
        bytes
    }
}

/// Convert a value into the smallest possible byte sequence (in big endian
/// order). Zero is one zero byte.
pub fn to_be_bytes(val: u128) -> (r: Vec<u8>)
    ensures
        r@ == be_bytes(val as nat),
{
    if val == 0 {
        let mut bytes: Vec<u8> = Vec::new();
        bytes.push(0);
        assert(bytes@ =~= seq![0u8]);
        bytes
    } else {
        magnitude_of(val)
    }
}

/// A string of bytes writes at least the number that any of its prefixes
/// writes.
pub proof fn lemma_value_grows(bytes: Seq<u8>, count: int)
    requires
        0 <= count <= bytes.len(),
    ensures
        be_value(bytes.take(count)) <= be_value(bytes),
    decreases bytes.len(),
{
    if count < bytes.len() {
        assert(bytes.drop_last().take(count) =~= bytes.take(count));
        lemma_value_grows(bytes.drop_last(), count);
        let high = be_value(bytes.drop_last());
        assert(high <= high * 256 + bytes.last() as nat) by (nonlinear_arith);
    } else {
        assert(bytes.take(count) =~= bytes);
    }
}

/// The number that `bytes` write, most significant byte first, if it fits
/// the machine's native unsigned integer.
pub fn to_usize(bytes: &[u8]) -> (r: Option<usize>)
    ensures
        r == if be_value(bytes@) <= usize::MAX {
            Some(be_value(bytes@) as usize)
        } else {
            None
        },
{
    let mut acc: usize = 0;
    let mut i: usize = 0;
    assert(bytes@.take(0) =~= Seq::<u8>::empty());
    while i < bytes.len()
        invariant
            i <= bytes.len(),
            acc == be_value(bytes@.take(i as int)),
        decreases bytes.len() - i,
    {
        assert(bytes@.take(i + 1).drop_last() =~= bytes@.take(i as int));
        let next: u128 = (acc as u128) * 256 + bytes[i] as u128;
        if next > usize::MAX as u128 {
            proof {
                lemma_value_grows(bytes@, i + 1);
            }
            return None;
        }
        acc = next as usize;
        i = i + 1;
    }
    assert(bytes@.take(i as int) =~= bytes@);
    Some(acc)
}

/// The bytes of `be_value(high) * radix + carry`, where `high` is the first
/// `count` bytes of `bytes`.
fn scale_add(bytes: &Vec<u8>, count: usize, radix: u32, carry: u64) -> (r: Vec<u8>)
    requires
        count <= bytes.len(),
        carry <= 0x1_0000_0000,
    ensures
        r@ == magnitude(be_value(bytes@.take(count as int)) * (radix as nat) + carry as nat),
    decreases count,
{
    if count == 0 {
        assert(bytes@.take(0) =~= Seq::<u8>::empty());
        assert(be_value(bytes@.take(0)) == 0);
        assert(be_value(bytes@.take(0)) * (radix as nat) == 0) by (nonlinear_arith)
            requires
                be_value(bytes@.take(0)) == 0,
        ;
        magnitude_of(carry as u128)
    } else {
        let ghost high = be_value(bytes@.take(count - 1));
        let byte: u8 = bytes[count - 1];
        assert(byte * radix <= 255 * 0xffff_ffff) by (nonlinear_arith)
            requires
                byte <= 255,
                radix <= 0xffff_ffff,
        ;
        let sum: u64 = (bytes[count - 1] as u64) * (radix as u64) + carry;
        let low: u8 = (sum % 256) as u8;
        let mut out = scale_add(bytes, count - 1, radix, sum / 256);
        proof {
            assert(bytes@.take(count as int).drop_last() =~= bytes@.take(count - 1));
            let total = be_value(bytes@.take(count as int)) * (radix as nat) + carry as nat;
            let rest = high * (radix as nat) + (sum / 256) as nat;
            assert(total == (high * 256 + bytes[count - 1] as nat) * (radix as nat) + carry as nat);
            assert(total == rest * 256 + low as nat) by (nonlinear_arith)
                requires
                    total == (high * 256 + bytes[count - 1] as nat) * (radix as nat) + carry as nat,
                    rest == high * (radix as nat) + (sum / 256) as nat,
                    sum == (bytes[count - 1] as nat) * (radix as nat) + carry as nat,
                    low as nat == sum % 256,
            ;
            assert(total / 256 == rest && total % 256 == low as nat);
            lemma_magnitude_value(rest);
            if total > 0 {
                assert(magnitude(total) == magnitude(rest).push(low));
            }
        }
        if out.len() > 0 || low != 0 {
            out.push(low);
        }
        out
    }
}

/// Read a number from its digits in base `radix`, most significant first, and
/// give its bytes: the smallest possible byte sequence, in big endian order.
pub fn from_be_digits(digits: &[u8], radix: u32) -> (r: Vec<u8>)
    ensures
        r@ == be_bytes(digits_value(digits@, radix as nat)),
{
    let mut acc: Vec<u8> = Vec::new();
    let mut i: usize = 0;
    assert(digits@.take(0) =~= Seq::<u8>::empty());
    while i < digits.len()
        invariant
            i <= digits.len(),
            acc@ == magnitude(digits_value(digits@.take(i as int), radix as nat)),
        decreases digits.len() - i,
    {
        proof {
            lemma_magnitude_value(digits_value(digits@.take(i as int), radix as nat));
            assert(acc@.take(acc.len() as int) =~= acc@);
            assert(digits@.take(i + 1).drop_last() =~= digits@.take(i as int));
        }
        acc = scale_add(&acc, acc.len(), radix, digits[i] as u64);
        i = i + 1;
    }
    assert(digits@.take(i as int) =~= digits@);
    if acc.len() == 0 {
        proof {
            lemma_magnitude_value(digits_value(digits@, radix as nat));
        }
        acc.push(0);
        assert(acc@ =~= seq![0u8]);
    }
    acc
}

} // verus!
