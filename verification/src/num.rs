//! Decimal numbers: writing them, and reading them back.

use vstd::prelude::*;

verus! {

/// The character for the digit `d`.
pub open spec fn digit_char(d: int) -> char {
    ('0' as int + d) as char
}

/// `n` in decimal, without leading zeros.
pub open spec fn decimal(n: nat) -> Seq<char>
    decreases n,
{
    if n < 10 {
        seq![digit_char(n as int)]
    } else {
        decimal(n / 10).push(digit_char((n % 10) as int))
    }
}

/// Whether `c` is an ASCII digit.
pub open spec fn is_digit(c: char) -> bool {
    '0' <= c <= '9'
}

/// Whether `s` holds ASCII digits only.
pub open spec fn all_digits(s: Seq<char>) -> bool {
    forall|i: int| 0 <= i < s.len() ==> is_digit(#[trigger] s[i])
}

/// The number that the digits of `s` spell.
pub open spec fn digits_value(s: Seq<char>) -> nat
    decreases s.len(),
{
    if s.len() == 0 {
        0
    } else {
        digits_value(s.drop_last()) * 10 + (s.last() as int - '0' as int) as nat
    }
}

/// The text without one leading plus sign.
pub open spec fn without_plus(s: Seq<char>) -> Seq<char> {
    if s.len() > 0 && s[0] == '+' {
        s.skip(1)
    } else {
        s
    }
}

/// The number that `s` spells: digits, at least one, after an optional plus
/// sign. Nothing for any other text, and for a number above `max`.
pub open spec fn parse_decimal(s: Seq<char>, max: nat) -> Option<nat> {
    let d = without_plus(s);
    if d.len() > 0 && all_digits(d) && digits_value(d) <= max {
        Some(digits_value(d))
    } else {
        None
    }
}

/// Appends `n` in decimal.
pub fn push_decimal(o: &mut String, n: u64)
    ensures
        final(o)@ == old(o)@ + decimal(n as nat),
    decreases n,
{
    if n >= 10 {
        push_decimal(o, n / 10);
    }
    let d: u8 = (n % 10) as u8;
    o.push((48u8 + d) as char);
    proof {
        assert((48u8 + d) as char == digit_char((n % 10) as int));
        assert(o@ =~= old(o)@ + decimal(n as nat));
    }
}

/// Reads a number of at most `max`.
pub fn read_decimal(s: &[char], max: u64) -> (r: Option<u64>)
    ensures
        match r {
            Some(v) => parse_decimal(s@, max as nat) == Some(v as nat),
            None => parse_decimal(s@, max as nat) is None,
        },
{
    let n = s.len();
    let mut start: usize = 0;
    if n > 0 && s[0] == '+' {
        start = 1;
    }
    let ghost d = without_plus(s@);
    assert(d =~= s@.skip(start as int));
    if start == n {
        return None;
    }
    let mut v: u64 = 0;
    let mut i: usize = start;
    while i < n
        invariant
            n == s@.len(),
            start <= i <= n,
            d == s@.skip(start as int),
            d.len() > 0,
            d == without_plus(s@),
            forall|j: int| 0 <= j < i - start ==> is_digit(#[trigger] d[j]),
            v == digits_value(d.take(i - start)),
            v <= max,
        decreases n - i,
    {
        let c = s[i];
        assert(c == d[i - start]);
        if !('0' <= c && c <= '9') {
            return None;
        }
        let k: u64 = (c as u32 - '0' as u32) as u64;
        let ghost p = d.take(i - start + 1);
        assert(p.drop_last() =~= d.take(i - start));
        assert(digits_value(p) == v * 10 + k);
        if max < k || v > (max - k) / 10 {
            proof {
                lemma_digits_grow(d, i - start + 1);
            }
            return None;
        }
        v = v * 10 + k;
        i += 1;
    }
    assert(d.take(n - start) =~= d);
    Some(v)
}

/// A prefix spells no larger number than the whole.
proof fn lemma_digits_grow(s: Seq<char>, k: int)
    requires
        0 <= k <= s.len(),
    ensures
        digits_value(s.take(k)) <= digits_value(s),
    decreases s.len(),
{
    if k == s.len() {
        assert(s.take(k) =~= s);
    } else {
        lemma_digits_grow(s.drop_last(), k);
        assert(s.drop_last().take(k) =~= s.take(k));
    }
}

/// What is written in decimal holds digits only, and spells the number.
pub proof fn decimal_spells_number(n: nat)
    ensures
        decimal(n).len() > 0,
        all_digits(decimal(n)),
        digits_value(decimal(n)) == n,
    decreases n,
{
    if n < 10 {
        let s = decimal(n);
        assert(s.drop_last() =~= Seq::<char>::empty());
        assert(digits_value(s.drop_last()) == 0);
    } else {
        decimal_spells_number(n / 10);
        assert(decimal(n).drop_last() =~= decimal(n / 10));
    }
}

/// A number that was written in decimal is read back unchanged.
pub proof fn decimal_is_read_back(n: nat, max: nat)
    requires
        n <= max,
    ensures
        parse_decimal(decimal(n), max) == Some(n),
{
    decimal_spells_number(n);
    assert(is_digit(decimal(n)[0]));
}

/// A number in decimal is written digit by digit: one more digit behind it makes
/// ten times the number and the digit.
pub proof fn decimal_goes_digit_by_digit(n: nat, d: nat)
    requires
        d < 10,
    ensures
        decimal(d) == seq![('0' as int + d) as char],
        n > 0 ==> decimal(n * 10 + d) == decimal(n) + seq![('0' as int + d) as char],
        n > 0 ==> decimal(n)[0] != '0',
    decreases n,
{
    let m = n * 10 + d;
    if n > 0 {
        assert(m / 10 == n && m % 10 == d);
        assert(decimal(m) =~= decimal(n) + seq![('0' as int + d) as char]);
        if n >= 10 {
            decimal_goes_digit_by_digit(n / 10, 0);
        }
        decimal_spells_number(n / 10);
    }
}

/// Different numbers are written differently.
pub proof fn decimal_is_one_to_one(a: nat, b: nat)
    requires
        decimal(a) == decimal(b),
    ensures
        a == b,
{
    decimal_spells_number(a);
    decimal_spells_number(b);
}

/// Of a text that spells a number, one more digit spells ten times the number and
/// the digit, if that is no more than the largest; anything else behind it spells
/// nothing.
pub proof fn number_is_read_digit_by_digit(s: Seq<char>, c: char, v: nat, max: nat)
    requires
        parse_decimal(s, max) == Some(v),
    ensures
        '0' <= c <= '9' && v * 10 + (c as int - '0' as int) <= max ==> parse_decimal(s.push(c), max)
            == Some((v * 10 + (c as int - '0' as int)) as nat),
        '0' <= c <= '9' && v * 10 + (c as int - '0' as int) > max ==> parse_decimal(
            s.push(c),
            max,
        ) is None,
        !('0' <= c <= '9') ==> parse_decimal(s.push(c), max) is None,
{
    let d = without_plus(s);
    let t = s.push(c);
    assert(without_plus(t) =~= d.push(c));
    let e = d.push(c);
    assert(e.drop_last() =~= d);
    assert(e.last() == c);
    if '0' <= c <= '9' {
        assert forall|i: int| 0 <= i < e.len() implies is_digit(#[trigger] e[i]) by {
            if i < d.len() {
                assert(is_digit(d[i]));
            }
        }
    } else {
        assert(!is_digit(e[d.len() as int]));
    }
}

/// A number is read from digits alone, with or without a plus sign before them. A
/// text that holds anything else, or no digit, spells none.
pub proof fn only_digits_spell_a_number(s: Seq<char>, max: nat, i: int)
    ensures
        1 <= i < s.len() && !('0' <= s[i] <= '9') ==> parse_decimal(s, max) is None,
        s.len() > 0 && s[0] != '+' && !('0' <= s[0] <= '9') ==> parse_decimal(s, max) is None,
        parse_decimal(Seq::empty(), max) is None,
        parse_decimal(seq!['+'], max) is None,
        s.len() > 0 && s[0] != '+' ==> parse_decimal(seq!['+'] + s, max) == parse_decimal(s, max),
        s.len() == 1 && '0' <= s[0] <= '9' && s[0] as int - '0' as int <= max
            ==> parse_decimal(s, max) == Some((s[0] as int - '0' as int) as nat),
{
    let d = without_plus(s);
    if 1 <= i < s.len() && !('0' <= s[i] <= '9') {
        if s[0] == '+' {
            assert(!is_digit(d[i - 1]));
        } else {
            assert(!is_digit(d[i]));
        }
    }
    if s.len() > 0 && s[0] != '+' && !('0' <= s[0] <= '9') {
        assert(!is_digit(d[0]));
    }
    assert(without_plus(Seq::empty()).len() == 0);
    assert(seq!['+'].skip(1).len() == 0);
    if s.len() > 0 && s[0] != '+' {
        assert((seq!['+'] + s).skip(1) =~= s);
        assert((seq!['+'] + s)[0] == '+');
    }
    if s.len() == 1 && '0' <= s[0] <= '9' {
        assert(s.drop_last() =~= Seq::<char>::empty());
        assert(digits_value(s.drop_last()) == 0);
        assert(all_digits(s));
    }
}

/// Zeros before a number change nothing.
pub proof fn leading_zero_changes_nothing(s: Seq<char>, max: nat)
    requires
        s.len() > 0,
        s[0] != '+',
    ensures
        parse_decimal(seq!['0'] + s, max) == parse_decimal(s, max),
{
    let t = seq!['0'] + s;
    lemma_zero_before(s);
    if all_digits(s) {
        assert forall|i: int| 0 <= i < t.len() implies is_digit(#[trigger] t[i]) by {
            if i > 0 {
                assert(is_digit(s[i - 1]));
            }
        }
    } else {
        let i = choose|i: int| 0 <= i < s.len() && !is_digit(#[trigger] s[i]);
        assert(t[i + 1] == s[i]);
    }
}

/// A zero before digits adds nothing.
proof fn lemma_zero_before(s: Seq<char>)
    ensures
        digits_value(seq!['0'] + s) == digits_value(s),
    decreases s.len(),
{
    let t = seq!['0'] + s;
    if s.len() == 0 {
        assert(t.drop_last() =~= Seq::<char>::empty());
        assert(digits_value(t.drop_last()) == 0);
    } else {
        lemma_zero_before(s.drop_last());
        assert(t.drop_last() =~= seq!['0'] + s.drop_last());
    }
}

} // verus!
