//! Whole numbers and the four bytes of single-precision numbers.

use vstd::prelude::*;

verus! {

pub open spec fn two(k: nat) -> nat
    decreases k,
{
    if k == 0 {
        1
    } else {
        2 * two((k - 1) as nat)
    }
}

/// The highest power of two in a number: two to the power of this is not above it.
pub open spec fn top(n: nat) -> nat
    decreases n,
{
    if n < 2 {
        0
    } else {
        1 + top(n / 2)
    }
}

/// The whole number next to `n / d`, of two that are equally near the even one.
pub open spec fn nearest(n: nat, d: nat) -> nat {
    let (q, r) = (n / d, n % d);
    if 2 * r > d || (2 * r == d && q % 2 == 1) {
        q + 1
    } else {
        q
    }
}

/// The four bytes of the single-precision number next to `n`: sign, exponent, fraction.
pub open spec fn float_of(n: nat) -> nat {
    if n == 0 {
        0
    } else {
        let k = top(n);
        let m = if k <= 23 {
            n * two((23 - k) as nat)
        } else {
            nearest(n, two((k - 23) as nat))
        };
        (126 + k) * 0x80_0000 + m
    }
}

/// The four bytes of the single-precision number next to `v`.
pub open spec fn signed_float_of(v: int) -> nat {
    if v < 0 {
        0x8000_0000 + float_of((-v) as nat)
    } else {
        float_of(v as nat)
    }
}

/// The whole number next to a single-precision number within `0..=max`, given its four bytes; of
/// two that are equally near the one farther from zero. 0 for no number.
pub open spec fn whole(bits: u32, max: u16) -> nat {
    let e = bits / 0x80_0000;
    let m = 0x80_0000 + bits % 0x80_0000;
    if bits > 0x7f80_0000 || e < 126 {
        0
    } else if e >= 143 {
        max as nat
    } else {
        let r = (m + two((149 - e) as nat)) / (two((150 - e) as nat) as int);
        if r > max {
            max as nat
        } else {
            r as nat
        }
    }
}

proof fn lemma_two_grows(a: nat, b: nat)
    requires
        a <= b,
    ensures
        0 < two(a) <= two(b),
    decreases b,
{
    if a < b {
        lemma_two_grows(a, (b - 1) as nat);
    } else if a > 0 {
        lemma_two_grows((a - 1) as nat, (b - 1) as nat);
    }
}

proof fn lemma_two_values()
    ensures
        two(0) == 1,
        two(1) == 2,
        two(23) == 0x80_0000,
        two(24) == 0x100_0000,
        two(40) == 0x100_0000_0000,
        two(64) == 0x1_0000_0000_0000_0000,
{
    reveal_with_fuel(two, 65);
}

proof fn lemma_two_adds(a: nat, b: nat)
    ensures
        two(a + b) == two(a) * two(b),
    decreases a,
{
    if a > 0 {
        lemma_two_adds((a - 1) as nat, b);
        let (x, y) = (two((a - 1) as nat), two(b));
        assert(2 * (x * y) == (2 * x) * y) by (nonlinear_arith);
    } else {
        assert(1 * two(b) == two(b));
    }
}

/// Two to the power of `k`.
fn power(k: u32) -> (r: u64)
    requires
        k <= 63,
    ensures
        r == two(k as nat),
{
    let mut r: u64 = 1;
    let mut i: u32 = 0;
    while i < k
        invariant
            i <= k <= 63,
            r == two(i as nat),
        decreases k - i,
    {
        proof {
            lemma_two_grows((i + 1) as nat, 63);
            lemma_two_values();
        }
        r = r * 2;
        i += 1;
    }
    r
}

/// The highest power of two in a number above 0.
fn top_bit(n: u64) -> (k: u32)
    requires
        n > 0,
    ensures
        k == top(n as nat),
        k <= 63,
        two(k as nat) <= n < two((k + 1) as nat),
{
    let mut x: u64 = n;
    let mut k: u32 = 0;
    assert(two(0) * n == n && two(0) * (n + 1) == n + 1) by (nonlinear_arith)
        requires
            two(0) == 1,
    ;
    while x >= 2
        invariant
            1 <= x,
            k <= 63,
            top(n as nat) == k + top(x as nat),
            two(k as nat) * x <= n < two(k as nat) * (x + 1),
        decreases x,
    {
        proof {
            let p = two(k as nat) as int;
            let y = x as int;
            lemma_two_grows(k as nat, k as nat);
            assert((2 * p) * (y / 2) <= n && n < (2 * p) * (y / 2 + 1)) by (nonlinear_arith)
                requires
                    p * y <= n < p * (y + 1),
                    p > 0,
                    y >= 2,
            {
                let h = y / 2;
                assert(y == 2 * h || y == 2 * h + 1);
                assert(p * (2 * h) == (2 * p) * h);
                assert(p * (2 * h + 2) == (2 * p) * (h + 1));
                assert(p * (2 * h) <= p * y);
                assert(p * (y + 1) <= p * (2 * h + 2));
            }
            assert(two((k + 1) as nat) <= n) by (nonlinear_arith)
                requires
                    two((k + 1) as nat) == 2 * p,
                    (2 * p) * (y / 2) <= n,
                    y >= 2,
                    p > 0,
            ;
            if k >= 63 {
                lemma_two_grows(64, (k + 1) as nat);
                lemma_two_values();
            }
        }
        x = x / 2;
        k += 1;
    }
    assert(two(k as nat) * 1 == two(k as nat));
    assert(two(k as nat) * 2 == two((k + 1) as nat));
    k
}

/// The four bytes of the single-precision number next to `n`.
pub fn float_bits(n: u64) -> (r: u32)
    ensures
        r == float_of(n as nat),
{
    if n == 0 {
        return 0;
    }
    let k = top_bit(n);
    let m: u64 = if k <= 23 {
        let f = power(23 - k);
        proof {
            let (x, y) = (two((k + 1) as nat), two((23 - k) as nat));
            lemma_two_adds((k + 1) as nat, (23 - k) as nat);
            lemma_two_grows((23 - k) as nat, 23);
            lemma_two_values();
            assert(n * f < x * y) by (nonlinear_arith)
                requires
                    n < x,
                    f == y,
                    f > 0,
            ;
        }
        n * f
    } else {
        let d = power(k - 23);
        let ghost g = two((k - 23) as nat);
        proof {
            lemma_two_adds((k - 23) as nat, 24);
            lemma_two_values();
            lemma_two_grows((k - 23) as nat, 40);
            assert(n / d < 0x100_0000) by (nonlinear_arith)
                requires
                    n < g * 0x100_0000,
                    d == g,
                    d > 0,
            ;
        }
        let q: u64 = n / d;
        let r: u64 = n % d;
        if 2 * r > d || (2 * r == d && q % 2 == 1) {
            q + 1
        } else {
            q
        }
    };
    ((126 + k as u64) * 0x80_0000 + m) as u32
}

/// The four bytes of the single-precision number next to `v`.
pub fn signed_float_bits(v: i32) -> (r: u32)
    ensures
        r == signed_float_of(v as int),
{
    if v < 0 {
        let n: u64 = (-(v as i64)) as u64;
        proof {
            lemma_small(n as nat);
        }
        0x8000_0000 + float_bits(n)
    } else {
        float_bits(v as u64)
    }
}

proof fn lemma_small(n: nat)
    requires
        n <= 0x8000_0000,
    ensures
        float_of(n) < 0x8000_0000,
{
    if n > 0 {
        lemma_top(n);
        let k = top(n);
        if k >= 32 {
            lemma_two_grows(32, k);
            assert(two(32) > 0x8000_0000) by {
                reveal_with_fuel(two, 33);
            }
        }
        lemma_two_values();
        if k <= 23 {
            let (x, y) = (two(k + 1), two((23 - k) as nat));
            lemma_two_adds(k + 1, (23 - k) as nat);
            lemma_two_grows((23 - k) as nat, 23);
            assert(n * y < x * y) by (nonlinear_arith)
                requires
                    n < x,
                    y > 0,
            {
            }
        } else {
            let d = two((k - 23) as nat);
            lemma_two_adds((k - 23) as nat, 24);
            lemma_two_grows((k - 23) as nat, 40);
            assert(n / d < 0x100_0000) by (nonlinear_arith)
                requires
                    n < d * 0x100_0000,
                    d > 0,
            ;
        }
    }
}

proof fn lemma_top(n: nat)
    requires
        n > 0,
    ensures
        two(top(n)) <= n < two(top(n) + 1),
    decreases n,
{
    if n >= 2 {
        lemma_top(n / 2);
    }
}

/// The whole number next to a single-precision number within `0..=max`, given its four bytes.
pub fn whole_number(bits: u32, max: u16) -> (r: u16)
    ensures
        r == whole(bits, max),
        r <= max,
{
    let e: u32 = bits / 0x80_0000;
    if bits > 0x7f80_0000 || e < 126 {
        return 0;
    }
    if e >= 143 {
        return max;
    }
    let m: u64 = (0x80_0000 + bits % 0x80_0000) as u64;
    let half = power(149 - e);
    let d = power(150 - e);
    proof {
        lemma_two_grows((150 - e) as nat, 24);
        lemma_two_values();
    }
    let r: u64 = (m + half) / d;
    if r > max as u64 {
        max
    } else {
        r as u16
    }
}

/// Whole numbers below 2^24 are kept: rounding back gives the number.
pub proof fn law_small_numbers_are_kept(n: u16, max: u16)
    requires
        n <= max,
    ensures
        float_of(n as nat) <= u32::MAX,
        whole(float_of(n as nat) as u32, max) == n,
{
    if n > 0 {
        let v = n as nat;
        lemma_top(v);
        lemma_two_values();
        let k = top(v);
        assert(two(16) == 65536) by {
            reveal_with_fuel(two, 17);
        }
        if k >= 16 {
            lemma_two_grows(16, k);
        }
        let f = two((23 - k) as nat);
        let p = two(k);
        lemma_two_adds(k, (23 - k) as nat);
        let m = v * f;
        assert(m >= p * f && m < 2 * (p * f)) by (nonlinear_arith)
            requires
                m == v * f,
                p <= v < 2 * p,
                f > 0,
        {
        }
        lemma_two_grows(0, (23 - k) as nat);
        let bits = float_of(v);
        assert(bits == (126 + k) * 0x80_0000 + m);
        assert(bits / 0x80_0000 == 127 + k);
        assert(bits % 0x80_0000 == m - 0x80_0000);
        let e = (127 + k) as nat;
        assert(150 - e == 23 - k);
        let half = two((149 - e) as nat);
        assert(2 * half == f);
        assert((m + half) / f == v) by (nonlinear_arith)
            requires
                m == v * f,
                2 * half == f,
                f > 0,
        {
            assert(v * f + half == f * v + half);
        }
    }
}

/// A whole number below 2^24 is exactly the value of its four bytes: no sign, an exponent `e`, and a
/// fraction which, with the bit that is not written, stands for the number times a power of two.
pub proof fn law_whole_numbers_are_exact(n: nat)
    requires
        0 < n < 0x100_0000,
    ensures
        ({
            let bits = float_of(n);
            let e = bits / 0x80_0000;
            let m = 0x80_0000 + bits % 0x80_0000;
            &&& bits < 0x8000_0000
            &&& 127 <= e <= 150
            &&& m == n * two((150 - e) as nat)
        }),
        float_of(0) == 0,
{
    lemma_top(n);
    lemma_two_values();
    let k = top(n);
    if k >= 24 {
        lemma_two_grows(24, k);
    }
    let f = two((23 - k) as nat);
    let p = two(k);
    lemma_two_adds(k, (23 - k) as nat);
    lemma_two_grows(0, (23 - k) as nat);
    let m = n * f;
    assert(m >= p * f && m < 2 * (p * f)) by (nonlinear_arith)
        requires
            m == n * f,
            p <= n < 2 * p,
            f > 0,
    {
    }
    let bits = float_of(n);
    assert(bits == (126 + k) * 0x80_0000 + m);
    assert(bits / 0x80_0000 == 127 + k);
    assert(bits % 0x80_0000 == m - 0x80_0000);
}

/// Different whole numbers below 2^24 have different bytes.
pub proof fn law_whole_numbers_are_told_apart(a: nat, b: nat)
    requires
        a < 0x100_0000,
        b < 0x100_0000,
        float_of(a) == float_of(b),
    ensures
        a == b,
{
    if a > 0 {
        law_whole_numbers_are_exact(a);
    }
    if b > 0 {
        law_whole_numbers_are_exact(b);
    }
    if a > 0 && b > 0 {
        let e = float_of(a) / 0x80_0000;
        let f = two((150 - e) as nat);
        lemma_two_grows(0, (150 - e) as nat);
        assert(a == b) by (nonlinear_arith)
            requires
                a * f == b * f,
                f > 0,
        ;
    }
}

/// A negative number has the bytes of its amount with the sign set.
pub proof fn law_the_sign_is_the_top_bit(v: int)
    requires
        0 < v <= 0x8000_0000,
    ensures
        signed_float_of(-v) == 0x8000_0000 + signed_float_of(v),
        signed_float_of(v) < 0x8000_0000,
{
    lemma_small(v as nat);
}

/// The whole number that is read off four bytes is the nearest to their value, or the largest that is
/// allowed if that is greater.
pub proof fn law_the_nearest_whole_number_is_read(bits: u32, max: u16)
    requires
        126 <= bits / 0x80_0000 < 143,
        bits <= 0x7f80_0000,
    ensures
        ({
            let e = bits / 0x80_0000;
            let m = 0x80_0000 + bits % 0x80_0000;
            let d = two((150 - e) as nat);
            let r = whole(bits, max);
            &&& r <= max
            &&& r < max ==> 2 * m < (2 * r + 1) * d && (2 * r - 1) * d <= 2 * m
            &&& r == max ==> (2 * max - 1) * d <= 2 * m
        }),
{
    let e = bits / 0x80_0000;
    let m = (0x80_0000 + bits % 0x80_0000) as int;
    let d = two((150 - e) as nat) as int;
    let h = two((149 - e) as nat) as int;
    lemma_two_grows(0, (149 - e) as nat);
    assert(d == 2 * h);
    let q = (m + h) / d;
    assert(q * d <= m + h && m + h < (q + 1) * d) by (nonlinear_arith)
        requires
            q == (m + h) / d,
            d > 0,
    ;
    assert((2 * q + 1) * d == 2 * (q * d) + d && (2 * q - 1) * d == 2 * (q * d) - d && (q + 1) * d
        == q * d + d) by (nonlinear_arith);
    if q > max {
        assert((2 * max - 1) * d <= (2 * q - 1) * d) by (nonlinear_arith)
            requires
                max < q,
                d > 0,
        ;
    }
}

} // verus!
