//! The size of the chunks in which a file is uploaded.
//!
//! The size grows with the binary logarithm of the file's length. It is
//! computed exactly, in integers: the 1024th power of the length is built by
//! repeated squaring, and the position of its highest bit is the logarithm,
//! scaled by 1024 and rounded down.

use vstd::arithmetic::logarithm::{lemma_log0, lemma_log_is_ordered, lemma_log_pow, lemma_log_s};
use vstd::arithmetic::logarithm::log;
use vstd::arithmetic::power::{lemma_pow0, lemma_pow1, lemma_pow_adds, lemma_pow_multiplies};
use vstd::arithmetic::power::{lemma_pow_positive, pow};
use vstd::arithmetic::power2::{lemma2_to64, lemma_pow2, lemma_pow2_strictly_increases};
use vstd::arithmetic::power2::{lemma_pow2_unfold, pow2};
use vstd::prelude::*;

verus! {

/// The least chunk size.
pub const MIN_CHUNK: usize = 16384;

/// The greatest chunk size.
pub const MAX_CHUNK: usize = 1048576;

/// The base of the digits in which large numbers are kept.
spec fn base() -> nat {
    4294967296
}

/// The binary logarithm of `size`, multiplied by 1024 and rounded down, for
/// a `size` that is not 0: the greatest `k` with `2^k <= size^1024`.
pub open spec fn scaled_log2(size: nat) -> int {
    log(2, pow(size as int, 1024))
}

/// What [`optimal_chunk_size`] returns: the scaled logarithm of the file's
/// length, kept between the least and the greatest chunk size. An empty file
/// gets the least.
pub open spec fn optimal_chunk_size_spec(file_size: u64) -> int {
    if file_size == 0 {
        MIN_CHUNK as int
    } else if scaled_log2(file_size as nat) < MIN_CHUNK {
        MIN_CHUNK as int
    } else if scaled_log2(file_size as nat) > MAX_CHUNK {
        MAX_CHUNK as int
    } else {
        scaled_log2(file_size as nat)
    }
}

/// The weight of the digit at position `i`.
spec fn weight(i: nat) -> nat {
    pow(base() as int, i) as nat
}

/// The number whose digits, least significant first, are `digits`.
spec fn value(digits: Seq<u32>) -> nat
    decreases digits.len(),
{
    if digits.len() == 0 {
        0
    } else {
        value(digits.drop_last()) + digits.last() as nat * weight((digits.len() - 1) as nat)
    }
}

proof fn lemma_weight(i: nat)
    ensures
        weight(0) == 1,
        weight(i) > 0,
        weight(i + 1) == base() * weight(i),
{
    lemma_pow0(base() as int);
    lemma_pow_positive(base() as int, i);
    lemma_pow_positive(base() as int, i + 1);
    lemma_pow1(base() as int);
    lemma_pow_adds(base() as int, 1, i);
}

proof fn lemma_weight_adds(i: nat, j: nat)
    ensures
        weight(i + j) == weight(i) * weight(j),
{
    lemma_pow_positive(base() as int, i);
    lemma_pow_positive(base() as int, j);
    lemma_pow_positive(base() as int, i + j);
    lemma_pow_adds(base() as int, i, j);
}

/// Replacing one digit changes the number by the difference of the digits,
/// at the digit's weight.
proof fn lemma_value_update(digits: Seq<u32>, k: int, digit: u32)
    requires
        0 <= k < digits.len(),
    ensures
        value(digits.update(k, digit)) + digits[k] as nat * weight(k as nat) == value(digits)
            + digit as nat * weight(k as nat),
    decreases digits.len(),
{
    let changed = digits.update(k, digit);
    if k == digits.len() - 1 {
        assert(changed.drop_last() =~= digits.drop_last());
    } else {
        assert(changed.drop_last() =~= digits.drop_last().update(k, digit));
        assert(changed.last() == digits.last());
        lemma_value_update(digits.drop_last(), k, digit);
    }
}

/// One more digit adds the digit at its weight.
proof fn lemma_value_take(digits: Seq<u32>, j: int)
    requires
        0 <= j < digits.len(),
    ensures
        value(digits.take(j + 1)) == value(digits.take(j)) + digits[j] as nat * weight(j as nat),
{
    assert(digits.take(j + 1).drop_last() =~= digits.take(j));
}

/// A number is less than the weight that follows its last digit.
proof fn lemma_value_bound(digits: Seq<u32>)
    ensures
        value(digits) < weight(digits.len()),
    decreases digits.len(),
{
    if digits.len() == 0 {
        lemma_weight(0);
    } else {
        let n = (digits.len() - 1) as nat;
        lemma_value_bound(digits.drop_last());
        lemma_weight(n);
        let w = weight(n);
        let d = digits.last() as nat;
        assert(d * w + w <= base() * w) by (nonlinear_arith)
            requires
                d < base(),
        ;
    }
}

/// Digits that are 0 from `t` on add nothing.
proof fn lemma_value_zero_tail(digits: Seq<u32>, t: int)
    requires
        0 <= t <= digits.len(),
        forall|i: int| t <= i < digits.len() ==> digits[i] == 0,
    ensures
        value(digits) == value(digits.take(t)),
    decreases digits.len(),
{
    if t == digits.len() {
        assert(digits.take(t) =~= digits);
    } else {
        assert(digits.drop_last().take(t) =~= digits.take(t));
        lemma_value_zero_tail(digits.drop_last(), t);
        assert(digits.last() as nat * weight((digits.len() - 1) as nat) == 0) by (nonlinear_arith)
            requires
                digits.last() == 0,
        ;
    }
}

/// The number 0, in `len` digits.
fn zeros(len: usize) -> (digits: Vec<u32>)
    ensures
        digits@.len() == len,
        forall|i: int| 0 <= i < len ==> digits@[i] == 0,
        value(digits@) == 0,
{
    let mut digits: Vec<u32> = Vec::new();
    while digits.len() < len
        invariant
            digits@.len() <= len,
            forall|i: int| 0 <= i < digits@.len() ==> digits@[i] == 0,
        decreases len - digits@.len(),
    {
        digits.push(0);
    }
    proof {
        lemma_value_zero_tail(digits@, 0);
    }
    digits
}

/// Adds `factor * value(row) * weight(at)` to the number in `sum`, whose
/// digits from `at + row.len()` on are 0.
fn add_row(sum: &mut Vec<u32>, factor: u32, row: &Vec<u32>, at: usize)
    requires
        at + row@.len() < old(sum)@.len() <= usize::MAX,
        forall|k: int| at + row@.len() <= k < old(sum)@.len() ==> old(sum)@[k] == 0,
    ensures
        final(sum)@.len() == old(sum)@.len(),
        value(final(sum)@) == value(old(sum)@) + factor as nat * value(row@) * weight(at as nat),
        forall|k: int| at + row@.len() < k < old(sum)@.len() ==> final(sum)@[k] == 0,
{
    let mut carry: u64 = 0;
    let mut j: usize = 0;
    proof {
        assert(row@.take(0) =~= Seq::<u32>::empty());
        assert(factor as nat * value(row@.take(0)) * weight(at as nat) == 0) by (nonlinear_arith)
            requires
                value(row@.take(0)) == 0,
        ;
        assert(carry as nat * weight((at + j) as nat) == 0) by (nonlinear_arith)
            requires
                carry == 0,
        ;
    }
    while j < row.len()
        invariant
            j <= row@.len(),
            at + row@.len() < sum@.len() <= usize::MAX,
            sum@.len() == old(sum)@.len(),
            carry < 4294967296,
            forall|k: int| at + row@.len() <= k < sum@.len() ==> sum@[k] == 0,
            value(sum@) + carry as nat * weight((at + j) as nat) == value(old(sum)@) + factor as nat
                * value(row@.take(j as int)) * weight(at as nat),
        decreases row@.len() - j,
    {
        let ghost before = sum@;
        let d = sum[at + j] as u64;
        let x = factor as u64;
        let y = row[j] as u64;
        assert(x * y <= 4294967295 * 4294967295) by (nonlinear_arith)
            requires
                x <= 4294967295,
                y <= 4294967295,
        ;
        let t: u64 = d + x * y + carry;
        let low = (t % 4294967296) as u32;
        let high = t / 4294967296;
        sum[at + j] = low;
        proof {
            let w = weight((at + j) as nat) as int;
            let wi = weight(at as nat) as int;
            let wj = weight(j as nat) as int;
            let v = value(row@.take(j as int)) as int;
            lemma_value_update(before, (at + j) as int, low);
            lemma_value_take(row@, j as int);
            lemma_weight((at + j) as nat);
            lemma_weight_adds(at as nat, j as nat);
            let lo = low as int;
            let hi = high as int;
            let (di, xi, yi, ci, ti) = (d as int, x as int, y as int, carry as int, t as int);
            assert(ti == lo + 4294967296 * hi);
            assert(lo * w + hi * (4294967296 * w) == di * w + (xi * yi + ci) * w)
                by (nonlinear_arith)
                requires
                    ti == lo + 4294967296 * hi,
                    ti == di + xi * yi + ci,
            ;
            assert(xi * (v + yi * wj) * wi == xi * v * wi + xi * yi * w) by (nonlinear_arith)
                requires
                    w == wi * wj,
            ;
            assert((xi * yi + ci) * w == xi * yi * w + ci * w) by (nonlinear_arith);
        }
        carry = high;
        j += 1;
    }
    let ghost before = sum@;
    sum[at + j] = carry as u32;
    proof {
        assert(row@.take(j as int) =~= row@);
        lemma_value_update(before, (at + j) as int, carry as u32);
        assert(0 * weight((at + j) as nat) == 0) by (nonlinear_arith);
    }
}

/// The product of two numbers.
fn multiply(a: &Vec<u32>, b: &Vec<u32>) -> (product: Vec<u32>)
    requires
        a@.len() + b@.len() <= usize::MAX,
    ensures
        product@.len() == a@.len() + b@.len(),
        value(product@) == value(a@) * value(b@),
{
    let mut product = zeros(a.len() + b.len());
    let mut i: usize = 0;
    proof {
        assert(a@.take(0) =~= Seq::<u32>::empty());
        assert(value(a@.take(0)) * value(b@) == 0) by (nonlinear_arith)
            requires
                value(a@.take(0)) == 0,
        ;
    }
    while i < a.len()
        invariant
            i <= a@.len(),
            product@.len() == a@.len() + b@.len() <= usize::MAX,
            forall|k: int| i + b@.len() <= k < product@.len() ==> product@[k] == 0,
            value(product@) == value(a@.take(i as int)) * value(b@),
        decreases a@.len() - i,
    {
        add_row(&mut product, a[i], b, i);
        proof {
            lemma_value_take(a@, i as int);
            let v = value(a@.take(i as int)) as int;
            let x = a@[i as int] as int;
            let w = weight(i as nat) as int;
            let m = value(b@) as int;
            assert((v + x * w) * m == v * m + x * m * w) by (nonlinear_arith);
        }
        i += 1;
    }
    assert(a@.take(i as int) =~= a@);
    product
}

/// A number between two neighbouring powers of 2 has the lower one's
/// exponent as its logarithm.
pub proof fn lemma_log2_between(n: int, k: nat)
    requires
        pow(2, k) <= n < pow(2, k + 1),
    ensures
        log(2, n) == k,
    decreases k,
{
    lemma_pow1(2);
    lemma_pow_adds(2, 1, k);
    if k == 0 {
        lemma_pow0(2);
        lemma_log0(2, n);
    } else {
        lemma_pow_adds(2, 1, (k - 1) as nat);
        lemma_pow_positive(2, (k - 1) as nat);
        lemma_log_s(2, n);
        lemma_log2_between(n / 2, (k - 1) as nat);
    }
}

/// A power grows with its base.
pub proof fn lemma_pow_base_ordered(a: int, b: int, e: nat)
    requires
        0 <= a <= b,
    ensures
        0 <= pow(a, e) <= pow(b, e),
    decreases e,
{
    if e == 0 {
        lemma_pow0(a);
        lemma_pow0(b);
    } else {
        lemma_pow_base_ordered(a, b, (e - 1) as nat);
        lemma_pow1(a);
        lemma_pow1(b);
        lemma_pow_adds(a, 1, (e - 1) as nat);
        lemma_pow_adds(b, 1, (e - 1) as nat);
        let x = pow(a, (e - 1) as nat);
        let y = pow(b, (e - 1) as nat);
        assert(0 <= a * x <= b * y) by (nonlinear_arith)
            requires
                0 <= a <= b,
                0 <= x <= y,
        ;
    }
}

/// The scaled logarithm grows with the size.
pub proof fn lemma_scaled_log2_ordered(smaller: nat, larger: nat)
    requires
        smaller <= larger,
    ensures
        scaled_log2(smaller) <= scaled_log2(larger),
{
    lemma_pow_base_ordered(smaller as int, larger as int, 1024);
    lemma_log_is_ordered(2, pow(smaller as int, 1024), pow(larger as int, 1024));
}

/// The scaled logarithm of a power of 2 is 1024 times its exponent.
pub proof fn lemma_scaled_log2_of_pow2(exponent: nat)
    ensures
        scaled_log2(pow2(exponent)) == 1024 * exponent,
{
    lemma_pow2(exponent);
    lemma_pow_multiplies(2, exponent, 1024);
    lemma_log_pow(2, exponent * 1024);
}

/// Files of up to 64 KiB are sent in chunks of the least size, and no file
/// is sent in chunks of the greatest: the scaled logarithm of a 64-bit
/// length stays below 64 KiB.
pub proof fn lemma_chunk_sizes(file_size: u64)
    ensures
        file_size <= 65536 ==> optimal_chunk_size_spec(file_size) == MIN_CHUNK,
        optimal_chunk_size_spec(file_size) <= 65536,
{
    lemma2_to64();
    vstd::arithmetic::power2::lemma2_to64_rest();
    lemma_scaled_log2_of_pow2(16);
    lemma_scaled_log2_of_pow2(64);
    if file_size > 0 {
        lemma_scaled_log2_ordered(file_size as nat, pow2(64));
        if file_size <= 65536 {
            lemma_scaled_log2_ordered(file_size as nat, pow2(16));
        }
    }
}

/// The weight of a digit is a power of 2.
proof fn lemma_weight_pow2(i: nat)
    ensures
        weight(i) == pow(2, 32 * i),
{
    lemma2_to64();
    lemma_pow2(32);
    lemma_pow_multiplies(2, 32, i);
    lemma_pow_positive(2, 32 * i);
}

/// The position of the highest bit of a number that is not 0.
fn highest_bit(digits: &Vec<u32>) -> (bit: usize)
    requires
        value(digits@) > 0,
        32 * digits@.len() <= usize::MAX,
    ensures
        pow(2, bit as nat) <= value(digits@) < pow(2, (bit + 1) as nat),
        bit < 32 * digits@.len(),
{
    let mut t: usize = digits.len();
    while t > 0 && digits[t - 1] == 0
        invariant
            t <= digits@.len(),
            forall|i: int| t <= i < digits@.len() ==> digits@[i] == 0,
        decreases t,
    {
        t -= 1;
    }
    proof {
        lemma_value_zero_tail(digits@, t as int);
        if t == 0 {
            assert(digits@.take(0) =~= Seq::<u32>::empty());
        }
    }
    let top = digits[t - 1];
    let mut v: u32 = top;
    let mut l: usize = 0;
    proof {
        lemma_pow0(2);
    }
    while v > 1
        invariant
            v >= 1,
            l <= 31,
            v * pow(2, l as nat) <= top < (v + 1) * pow(2, l as nat),
            pow(2, l as nat) > 0,
        decreases v,
    {
        proof {
            let p = pow(2, l as nat);
            let h = (v / 2) as int;
            lemma_pow1(2);
            lemma_pow_adds(2, 1, l as nat);
            lemma_pow_positive(2, (l + 1) as nat);
            assert(h * (2 * p) <= v * p && (v + 1) * p <= (h + 1) * (2 * p)) by (nonlinear_arith)
                requires
                    2 * h <= v <= 2 * h + 1,
                    p > 0,
            ;
            if l == 31 {
                lemma2_to64();
                lemma_pow2(32);
                assert(false) by (nonlinear_arith)
                    requires
                        h >= 1,
                        h * 4294967296 <= top,
                        top <= 4294967295,
                ;
            }
        }
        v = v / 2;
        l += 1;
    }
    proof {
        let n = (t - 1) as nat;
        let w = weight(n) as int;
        let p = pow(2, l as nat);
        let below = value(digits@.take(t - 1)) as int;
        lemma_value_take(digits@, t - 1);
        lemma_value_bound(digits@.take(t - 1));
        lemma_weight(n);
        lemma_weight_pow2(n);
        lemma_pow_adds(2, l as nat, 32 * n);
        lemma_pow_adds(2, (l + 1) as nat, 32 * n);
        lemma_pow1(2);
        lemma_pow_adds(2, 1, l as nat);
        assert(p * w <= top * w && (top + 1) * w <= (2 * p) * w) by (nonlinear_arith)
            requires
                p <= top,
                top + 1 <= 2 * p,
                w > 0,
        ;
        assert(top * w + w == (top + 1) * w) by (nonlinear_arith);
    }
    32 * (t - 1) + l
}

/// The chunk size for uploading a file of `file_size` bytes: 1024 times the
/// binary logarithm of the size, rounded down, but no less than
/// [`MIN_CHUNK`] and no more than [`MAX_CHUNK`].
pub fn optimal_chunk_size(file_size: u64) -> (size: usize)
    ensures
        size == optimal_chunk_size_spec(file_size),
        MIN_CHUNK <= size <= MAX_CHUNK,
{
    if file_size <= 65536 {
        proof {
            lemma_chunk_sizes(file_size);
        }
        return MIN_CHUNK;
    }
    let mut power: Vec<u32> = Vec::new();
    power.push((file_size % 4294967296) as u32);
    power.push((file_size / 4294967296) as u32);
    let mut round: usize = 0;
    let ghost mut exponent: nat = 1;
    proof {
        lemma2_to64();
        lemma_pow1(file_size as int);
        lemma_weight(0);
        lemma_weight(1);
        let one = power@.drop_last();
        assert(one.drop_last() =~= Seq::<u32>::empty());
        assert(value(one.drop_last()) == 0);
        assert(one.last() == power@[0]);
        assert(value(one) == power@[0] as nat * weight(0));
        assert(value(power@) == file_size);
    }
    while round < 10
        invariant
            round <= 10,
            exponent == pow2(round as nat),
            power@.len() == 2 * exponent,
            exponent <= 1024,
            value(power@) == pow(file_size as int, exponent),
        decreases 10 - round,
    {
        proof {
            lemma2_to64();
            lemma_pow2_strictly_increases(round as nat, 10);
            lemma_pow2_unfold((round + 1) as nat);
            lemma_pow_adds(file_size as int, exponent, exponent);
        }
        power = multiply(&power, &power);
        round += 1;
        proof {
            exponent = exponent + exponent;
        }
    }
    proof {
        lemma2_to64();
        lemma_pow_positive(file_size as int, 1024);
    }
    let bit = highest_bit(&power);
    proof {
        lemma_log2_between(pow(file_size as int, 1024), bit as nat);
    }
    if bit < MIN_CHUNK {
        MIN_CHUNK
    } else if bit > MAX_CHUNK {
        MAX_CHUNK
    } else {
        bit
    }
}

} // verus!
