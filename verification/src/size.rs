//! File sizes for people.

use vstd::prelude::*;

use crate::num::{decimal, push_decimal};

verus! {

/// The integer nearest to `a / b`; of two equally near ones, the even one.
pub open spec fn round_half_even(a: nat, b: nat) -> nat {
    let q = a / b;
    let r = a % b;
    if 2 * r < b || (2 * r == b && q % 2 == 0) {
        q
    } else {
        q + 1
    }
}

/// How far apart the double-precision numbers next to `n` are, for the whole
/// numbers: such a number has 53 significant bits.
pub open spec fn double_spacing(n: nat) -> nat
    decreases n,
{
    if n < 0x20_0000_0000_0000 {
        1
    } else {
        2 * double_spacing(n / 2)
    }
}

/// `n` as a double-precision number: the nearest one.
pub open spec fn nearest_double(n: nat) -> nat {
    round_half_even(n, double_spacing(n)) * double_spacing(n)
}

/// Which unit a size is given in: 0 for bytes, up to 4 for the largest, the
/// first in which the number stays below 1024.
pub open spec fn unit_index(v: nat) -> int {
    if v < 0x400 {
        0
    } else if v < 0x10_0000 {
        1
    } else if v < 0x4000_0000 {
        2
    } else if v < 0x100_0000_0000 {
        3
    } else {
        4
    }
}

/// How many bytes the unit holds: 1024 of the one before it.
pub open spec fn unit_bytes(i: int) -> nat {
    if i == 0 {
        1
    } else if i == 1 {
        0x400
    } else if i == 2 {
        0x10_0000
    } else if i == 3 {
        0x4000_0000
    } else {
        0x100_0000_0000
    }
}

/// The letter of a unit.
pub open spec fn unit_letter(i: int) -> char {
    if i == 0 {
        'B'
    } else if i == 1 {
        'K'
    } else if i == 2 {
        'M'
    } else if i == 3 {
        'G'
    } else {
        'T'
    }
}

/// A size as people read it: the number in the fitting unit, with one decimal
/// place where it is below ten and not in bytes, rounded to the nearest and on
/// a tie to the even digit.
pub open spec fn human_size_text(n: nat) -> Seq<char> {
    let v = nearest_double(n);
    let i = unit_index(v);
    let u = unit_bytes(i);
    if i > 0 && v < 10 * u {
        let tenths = round_half_even(v * 10, u);
        decimal(tenths / 10) + seq!['.'] + decimal(tenths % 10) + seq![unit_letter(i)]
    } else {
        decimal(round_half_even(v, u)) + seq![unit_letter(i)]
    }
}

/// Divides, rounding to the nearest, ties to even.
fn divide_half_even(a: u128, b: u128) -> (q: u128)
    requires
        0 < b <= 0x100_0000_0000,
        a < 0x1_0000_0000_0000_0000_0000,
    ensures
        q == round_half_even(a as nat, b as nat),
{
    let q = a / b;
    let r = a % b;
    assert(q <= a) by (nonlinear_arith)
        requires
            q == a / b,
            b > 0,
    ;
    if 2 * r < b || (2 * r == b && q % 2 == 0) {
        q
    } else {
        q + 1
    }
}

/// Converts to double precision.
fn as_double(n: u64) -> (v: u128)
    ensures
        v == nearest_double(n as nat),
        v <= 0x1_0000_0000_0000_1000,
{
    let mut m: u64 = n;
    let mut s: u128 = 1;
    while m >= 0x20_0000_0000_0000
        invariant
            double_spacing(n as nat) == s * double_spacing(m as nat),
            1 <= s,
            s * m <= n,
            n < s * (m + 1),
            s <= 0x1000,
        decreases m,
    {
        let ghost m0 = m as int;
        let ghost s0 = s as int;
        proof {
            assert(s0 < 0x800) by {
                if s0 >= 0x800 {
                    assert(s0 * m0 >= 0x800 * 0x20_0000_0000_0000) by (nonlinear_arith)
                        requires
                            s0 >= 0x800,
                            m0 >= 0x20_0000_0000_0000,
                    ;
                }
            }
            let d = double_spacing((m / 2) as nat) as int;
            assert(s0 * (2 * d) == (2 * s0) * d) by (nonlinear_arith);
            let h = m0 / 2;
            assert((2 * s0) * h <= s0 * m0) by (nonlinear_arith)
                requires
                    2 * h <= m0,
                    s0 >= 1,
            ;
            assert(s0 * (m0 + 1) <= (2 * s0) * (h + 1)) by (nonlinear_arith)
                requires
                    m0 + 1 <= 2 * (h + 1),
                    s0 >= 1,
            ;
        }
        m = m / 2;
        s = 2 * s;
    }
    assert(double_spacing(n as nat) == s) by {
        assert(double_spacing(m as nat) == 1);
        assert(s * 1 == s) by (nonlinear_arith);
    }
    let q = divide_half_even(n as u128, s);
    proof {
        let qq = q as int;
        let ss = s as int;
        let mm = m as int;
        assert(qq <= mm + 1) by {
            assert(n as int / ss <= mm) by (nonlinear_arith)
                requires
                    (n as int) < ss * (mm + 1),
                    ss >= 1,
            ;
        }
        assert(qq * ss <= n + ss) by (nonlinear_arith)
            requires
                0 <= qq <= mm + 1,
                ss * mm <= n,
                1 <= ss,
        ;
    }
    q * s
}

/// Writes a size for people to read.
pub fn human_size(n: u64) -> (r: String)
    ensures
        r@ == human_size_text(n as nat),
{
    let v = as_double(n);
    let (i, u, letter): (u8, u128, char) = if v < 0x400 {
        (0, 1, 'B')
    } else if v < 0x10_0000 {
        (1, 0x400, 'K')
    } else if v < 0x4000_0000 {
        (2, 0x10_0000, 'M')
    } else if v < 0x100_0000_0000 {
        (3, 0x4000_0000, 'G')
    } else {
        (4, 0x100_0000_0000, 'T')
    };
    let mut r = String::new();
    if i > 0 && v < 10 * u {
        let tenths = divide_half_even(v * 10, u);
        proof {
            assert(tenths <= 1000) by (nonlinear_arith)
                requires
                    tenths == round_half_even((v * 10) as nat, u as nat),
                    v < 10 * u,
                    u > 0,
            ;
        }
        push_decimal(&mut r, (tenths / 10) as u64);
        r.push('.');
        push_decimal(&mut r, (tenths % 10) as u64);
    } else {
        let whole = divide_half_even(v, u);
        proof {
            assert(whole <= 0xffff_ffff) by (nonlinear_arith)
                requires
                    whole == round_half_even(v as nat, u as nat),
                    v <= 0x1_0000_0000_0000_1000,
                    v < 0x400 || u == 0x400 && v < 0x10_0000 || u == 0x10_0000 && v < 0x4000_0000 || u
                        == 0x4000_0000 && v < 0x100_0000_0000 || u == 0x100_0000_0000,
                    u > 0,
            ;
        }
        push_decimal(&mut r, whole as u64);
    }
    r.push(letter);
    assert(r@ =~= human_size_text(n as nat));
    r
}

/// A number below 10000 has at most four digits.
proof fn lemma_four_digits(n: nat)
    requires
        n < 10000,
    ensures
        decimal(n).len() <= 4,
{
    reveal_with_fuel(decimal, 5);
}

/// A double-precision number near 2^53 is off by at most 1.
proof fn lemma_double_is_near(n: nat)
    requires
        n < 0x40_0000_0000_0000,
    ensures
        nearest_double(n) <= n + 1,
{
    reveal_with_fuel(double_spacing, 2);
    if n < 0x20_0000_0000_0000 {
        assert(double_spacing(n) == 1);
    } else {
        assert(double_spacing(n) == 2);
    }
}

/// What lies below the middle between `k` and the next number is rounded to `k`
/// at most.
proof fn lemma_rounds_down(a: nat, b: nat, k: nat)
    requires
        b > 0,
        2 * a < (2 * k + 1) * b,
    ensures
        round_half_even(a, b) <= k,
{
    let q = a / b;
    let r = a % b;
    assert(a == q * b + r && r < b) by (nonlinear_arith)
        requires
            b > 0,
            q == a / b,
            r == a % b,
    ;
    if q > k {
        assert(q * b >= (k + 1) * b) by (nonlinear_arith)
            requires
                q >= k + 1,
        ;
        assert((2 * k + 1) * b <= 2 * ((k + 1) * b)) by (nonlinear_arith);
    } else if q == k {
        assert(2 * r < b) by (nonlinear_arith)
            requires
                2 * a < (2 * k + 1) * b,
                a == q * b + r,
                q == k,
        ;
    }
}

/// A size fits into five columns, unless it is above 9999 of the largest unit.
pub proof fn size_fits_its_column(n: nat)
    requires
        n <= 9999 * unit_bytes(4),
    ensures
        human_size_text(n).len() <= 5,
{
    lemma_double_is_near(n);
    let v = nearest_double(n);
    let i = unit_index(v);
    let u = unit_bytes(i);
    if i > 0 && v < 10 * u {
        let tenths = round_half_even(v * 10, u);
        assert(2 * (v * 10) < (2 * 100 + 1) * u) by (nonlinear_arith)
            requires
                v < 10 * u,
        ;
        lemma_rounds_down(v * 10, u, 100);
        reveal_with_fuel(decimal, 3);
    } else {
        assert(2 * v < 19999 * u);
        assert((2 * 9999nat + 1) * u == 19999 * u) by (nonlinear_arith);
        lemma_rounds_down(v, u, 9999);
        lemma_four_digits(round_half_even(v, u));
    }
}

/// Rounding gives the nearest integer, and of two equally near ones the even one.
pub proof fn rounded_is_nearest(a: nat, b: nat)
    requires
        b > 0,
    ensures
        2 * (round_half_even(a, b) * b) <= 2 * a + b,
        2 * a <= 2 * (round_half_even(a, b) * b) + b,
        2 * (round_half_even(a, b) * b) == 2 * a + b || 2 * a == 2 * (round_half_even(a, b) * b) + b
            ==> round_half_even(a, b) % 2 == 0,
{
    let q = a / b;
    let r = a % b;
    assert(a == q * b + r && r < b) by (nonlinear_arith)
        requires
            b > 0,
            q == a / b,
            r == a % b,
    ;
    assert((q + 1) * b == q * b + b) by (nonlinear_arith);
}

/// A number below 2^53 is a double-precision number; a larger one is off by no more
/// than its 2^53rd part.
pub proof fn double_is_near(n: nat)
    ensures
        n < 0x20_0000_0000_0000 ==> nearest_double(n) == n,
        0x20_0000_0000_0000 * (nearest_double(n) - n) <= n,
        0x20_0000_0000_0000 * (n - nearest_double(n)) <= n,
{
    let s = double_spacing(n);
    lemma_spacing(n);
    rounded_is_nearest(n, s);
    if n < 0x20_0000_0000_0000 {
        assert(n / 1 == n);
    }
}

/// The numbers next to each other are no farther apart than a 2^52nd part.
proof fn lemma_spacing(n: nat)
    ensures
        double_spacing(n) > 0,
        n >= 0x20_0000_0000_0000 ==> double_spacing(n) * 0x10_0000_0000_0000 <= n,
    decreases n,
{
    if n >= 0x20_0000_0000_0000 {
        lemma_spacing(n / 2);
        if n / 2 < 0x20_0000_0000_0000 {
            assert(double_spacing(n / 2) == 1);
        }
    }
}

/// Sizes below 1024 are given exactly, in bytes.
pub proof fn small_size_is_exact(n: nat)
    requires
        n < 1024,
    ensures
        human_size_text(n) == decimal(n) + seq!['B'],
{
    double_is_near(n);
    assert(n / 1 == n && n % 1 == 0);
}

/// A size is given in the largest unit that it reaches: as the nearest number of
/// units from ten on, and as the nearest number of tenths below. `q` is the number.
pub proof fn size_is_given_to_the_nearest(n: nat, u: nat, letter: char) -> (q: nat)
    requires
        (u == 0x400 && letter == 'K') || (u == 0x400 * 0x400 && letter == 'M') || (u == 0x400
            * 0x400 * 0x400 && letter == 'G') || (u == 0x400 * 0x400 * 0x400 * 0x400 && letter
            == 'T'),
        u <= nearest_double(n),
        nearest_double(n) < 0x400 * u || letter == 'T',
    ensures
        ({
            let v = nearest_double(n);
            let a = if v < 10 * u {
                v * 10
            } else {
                v
            };
            &&& v < 10 * u ==> human_size_text(n) == decimal(q / 10) + seq!['.'] + decimal(q % 10)
                + seq![letter]
            &&& v >= 10 * u ==> human_size_text(n) == decimal(q) + seq![letter]
            &&& 2 * (q * u) <= 2 * a + u
            &&& 2 * a <= 2 * (q * u) + u
            &&& 2 * (q * u) == 2 * a + u || 2 * a == 2 * (q * u) + u ==> q % 2 == 0
        }),
{
    let v = nearest_double(n);
    if v < 10 * u {
        rounded_is_nearest(v * 10, u);
        round_half_even(v * 10, u)
    } else {
        rounded_is_nearest(v, u);
        round_half_even(v, u)
    }
}

} // verus!
