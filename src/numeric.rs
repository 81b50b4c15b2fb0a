use vstd::prelude::*;

verus! {

pub open spec fn is_digit(c: char) -> bool {
    '0' <= c && c <= '9'
}

pub open spec fn is_sign(c: char) -> bool {
    c == '+' || c == '-'
}

/// The value of a run of decimal digits.
pub open spec fn digits_value(s: Seq<char>) -> int
    decreases s.len(),
{
    if s.len() == 0 {
        0
    } else {
        digits_value(s.drop_last()) * 10 + (s.last() as int - '0' as int)
    }
}

pub open spec fn all_digits(s: Seq<char>) -> bool {
    s.len() > 0 && forall|i: int| 0 <= i < s.len() ==> is_digit(#[trigger] s[i])
}

/// The text is a decimal integer, with an optional sign, whose value fits in 32 signed bits.
pub open spec fn fits_i32(s: Seq<char>) -> bool {
    if s.len() > 0 && s[0] == '-' {
        all_digits(s.skip(1)) && digits_value(s.skip(1)) <= 0x8000_0000
    } else if s.len() > 0 && s[0] == '+' {
        all_digits(s.skip(1)) && digits_value(s.skip(1)) <= 0x7fff_ffff
    } else {
        all_digits(s) && digits_value(s) <= 0x7fff_ffff
    }
}

/// How many decimal digits stand in a row from position `i`.
pub open spec fn digit_run(s: Seq<char>, i: int) -> int
    decreases s.len() - i,
{
    if 0 <= i < s.len() && is_digit(s[i]) {
        1 + digit_run(s, i + 1)
    } else {
        0
    }
}

/// Where the digits of a decimal text start: after an optional sign.
pub open spec fn sign_len(s: Seq<char>) -> int {
    if s.len() > 0 && is_sign(s[0]) {
        1
    } else {
        0
    }
}

/// Where the point of a decimal text stands: after the sign and the integer digits.
pub open spec fn point_at(s: Seq<char>) -> int {
    sign_len(s) + digit_run(s, sign_len(s))
}

/// Decimal notation with a point: an optional sign, digits, a point, digits, with at
/// least one digit in all.
pub open spec fn is_float_text(s: Seq<char>) -> bool {
    let p = point_at(s);
    p < s.len() && s[p] == '.' && {
        let d2 = digit_run(s, p + 1);
        digit_run(s, sign_len(s)) + d2 > 0 && p + 1 + d2 == s.len()
    }
}

/// The largest finite 32-bit floating-point value, which is an integer.
pub open spec fn f32_max() -> int {
    340282346638528859811704183484516925440
}

/// The magnitude of a decimal text with a point is at most the largest 32-bit float:
/// its integer part is below that value, or equal to it with only zeros after the point.
pub open spec fn fits_f32(s: Seq<char>) -> bool {
    let p = point_at(s);
    let whole = digits_value(s.subrange(sign_len(s), p));
    whole < f32_max() || (whole == f32_max() && forall|i: int| p < i < s.len() ==> #[trigger] s[i] == '0')
}

fn char_at(s: &str, i: usize) -> (c: char)
    requires
        i < s@.len(),
    ensures
        c == s@[i as int],
{
    s.get_char(i)
}

/// The number of digits in a row from `i`.
pub fn count_digit_run(s: &str, len: usize, i: usize) -> (r: usize)
    requires
        len == s@.len(),
        i <= len,
    ensures
        r as int == digit_run(s@, i as int),
        i + r <= len,
{
    let mut j: usize = i;
    while j < len && is_ascii_digit(char_at(s, j))
        invariant
            i <= j <= len,
            len == s@.len(),
            digit_run(s@, i as int) == (j - i) + digit_run(s@, j as int),
        decreases len - j,
    {
        j = j + 1;
    }
    j - i
}

fn is_ascii_digit(c: char) -> (r: bool)
    ensures
        r == is_digit(c),
{
    '0' <= c && c <= '9'
}

/// Whether the text is decimal notation with a point.
pub fn float_text(s: &str) -> (r: bool)
    ensures
        r == is_float_text(s@),
{
    let len = s.unicode_len();
    let a: usize = if len > 0 && (char_at(s, 0) == '+' || char_at(s, 0) == '-') {
        1
    } else {
        0
    };
    let d1 = count_digit_run(s, len, a);
    let p = a + d1;
    if p >= len || char_at(s, p) != '.' {
        return false;
    }
    let d2 = count_digit_run(s, len, p + 1);
    d1 + d2 > 0 && p + 1 + d2 == len
}

/// Whether the magnitude of a decimal text with a point is at most the largest 32-bit
/// float.
pub fn text_fits_f32(s: &str) -> (r: bool)
    requires
        is_float_text(s@),
    ensures
        r == fits_f32(s@),
{
    let len = s.unicode_len();
    let a: usize = if len > 0 && (char_at(s, 0) == '+' || char_at(s, 0) == '-') {
        1
    } else {
        0
    };
    let d1 = count_digit_run(s, len, a);
    let p = a + d1;
    proof {
        lemma_digit_run_digits(s@, a as int);
    }
    let below = digits_at_most(s, a, p, 340282346638528859811704183484516925439);
    if below {
        return true;
    }
    let equal = digits_at_most(s, a, p, 340282346638528859811704183484516925440);
    if !equal {
        return false;
    }
    assert(p == point_at(s@));
    let mut i: usize = p + 1;
    while i < len
        invariant
            p < i <= len,
            len == s@.len(),
            p == point_at(s@),
            digits_value(s@.subrange(sign_len(s@), p as int)) == f32_max(),
            forall|j: int| p < j < i ==> #[trigger] s@[j] == '0',
        decreases len - i,
    {
        if char_at(s, i) != '0' {
            assert(p < i < s@.len() && s@[i as int] != '0');
            assert(!(forall|j: int| point_at(s@) < j < s@.len() ==> #[trigger] s@[j] == '0'));
            return false;
        }
        i = i + 1;
    }
    true
}

/// The digits counted by `digit_run` are digits.
proof fn lemma_digit_run_digits(s: Seq<char>, i: int)
    requires
        0 <= i,
    ensures
        i + digit_run(s, i) <= s.len() || digit_run(s, i) == 0,
        forall|j: int| i <= j < i + digit_run(s, i) ==> is_digit(#[trigger] s[j]),
    decreases s.len() - i,
{
    if 0 <= i < s.len() && is_digit(s[i]) {
        lemma_digit_run_digits(s, i + 1);
    }
}

/// Whether the digits of `s` in `[a, b)` form a value no greater than `bound`.
fn digits_at_most(s: &str, a: usize, b: usize, bound: u128) -> (r: bool)
    requires
        a <= b <= s@.len(),
        forall|j: int| a <= j < b ==> is_digit(#[trigger] s@[j]),
        9 <= bound,
    ensures
        r == (digits_value(s@.subrange(a as int, b as int)) <= bound),
{
    let ghost t = s@.subrange(a as int, b as int);
    let mut value: u128 = 0;
    let mut i: usize = a;
    assert(t.subrange(0, 0) =~= Seq::<char>::empty());
    while i < b
        invariant
            a <= i <= b,
            b <= s@.len(),
            t == s@.subrange(a as int, b as int),
            9 <= bound,
            forall|j: int| a <= j < b ==> is_digit(#[trigger] s@[j]),
            value as int == digits_value(t.subrange(0, i - a)),
            value <= bound,
        decreases b - i,
    {
        let c = char_at(s, i);
        proof {
            assert(t[i - a] == c);
            lemma_digits_value_step(t, i - a);
        }
        let d = (c as u32 - '0' as u32) as u128;
        if value > (bound - d) / 10 {
            proof {
                assert(value * 10 + d > bound) by (nonlinear_arith)
                    requires value > (bound - d) / 10, d <= 9, bound >= 9;
                assert forall|j: int| 0 <= j < t.len() implies is_digit(#[trigger] t[j]) by {
                    assert(t[j] == s@[a + j]);
                }
                lemma_digits_value_monotone(t, i - a + 1);
            }
            return false;
        }
        proof {
            assert(value * 10 + d <= bound) by (nonlinear_arith)
                requires value <= (bound - d) / 10, d <= 9, bound >= d;
        }
        value = value * 10 + d;
        i = i + 1;
    }
    proof {
        assert(t.subrange(0, b - a) =~= t);
    }
    true
}

proof fn lemma_digits_value_step(s: Seq<char>, i: int)
    requires
        0 <= i < s.len(),
    ensures
        digits_value(s.subrange(0, i + 1)) == digits_value(s.subrange(0, i)) * 10 + (s[i] as int
            - '0' as int),
{
    assert(s.subrange(0, i + 1).drop_last() =~= s.subrange(0, i));
}

proof fn lemma_digits_value_nonneg(s: Seq<char>)
    requires
        forall|i: int| 0 <= i < s.len() ==> is_digit(#[trigger] s[i]),
    ensures
        digits_value(s) >= 0,
    decreases s.len(),
{
    if s.len() > 0 {
        lemma_digits_value_nonneg(s.drop_last());
    }
}

/// Whether the digits of `s` from `start` on form a value no greater than `bound`.
fn digits_within(s: &str, len: usize, start: usize, bound: u64) -> (r: bool)
    requires
        len == s@.len(),
        start <= len,
        9 <= bound <= 0x8000_0000,
    ensures
        r == (all_digits(s@.skip(start as int)) && digits_value(s@.skip(start as int)) <= bound),
{
    let ghost t = s@.skip(start as int);
    if start == len {
        return false;
    }
    let mut value: u64 = 0;
    let mut i: usize = start;
    while i < len
        invariant
            start <= i <= len,
            len == s@.len(),
            t == s@.skip(start as int),
            9 <= bound <= 0x8000_0000,
            forall|j: int| 0 <= j < i - start ==> is_digit(#[trigger] t[j]),
            value as int == digits_value(t.subrange(0, i - start)),
            value <= bound,
        decreases len - i,
    {
        let c = char_at(s, i);
        if !is_ascii_digit(c) {
            proof {
                assert(t[i - start] == c);
            }
            return false;
        }
        proof {
            assert(t[i - start] == c);
            lemma_digits_value_step(t, i - start);
        }
        let d = (c as u32 - '0' as u32) as u64;
        if value > (bound - d) / 10 {
            proof {
                assert(value * 10 + d > bound) by (nonlinear_arith)
                    requires value > (bound - d) / 10, d <= 9, bound >= 9;
                lemma_digits_value_monotone(t, i - start + 1);
            }
            return false;
        }
        proof {
            assert(value * 10 + d <= bound) by (nonlinear_arith)
                requires value <= (bound - d) / 10, d <= 9, bound >= d;
        }
        value = value * 10 + d;
        i = i + 1;
    }
    proof {
        assert(t.subrange(0, len - start) =~= t);
    }
    true
}

proof fn lemma_digits_value_monotone(t: Seq<char>, k: int)
    requires
        0 <= k <= t.len(),
        forall|j: int| 0 <= j < k ==> is_digit(#[trigger] t[j]),
    ensures
        all_digits(t) ==> digits_value(t) >= digits_value(t.subrange(0, k)),
    decreases t.len() - k,
{
    if k < t.len() && all_digits(t) {
        lemma_digits_value_monotone(t, k + 1);
        lemma_digits_value_step(t, k);
        lemma_digits_value_nonneg(t.subrange(0, k));
    }
    if k == t.len() {
        assert(t.subrange(0, k) =~= t);
    }
}

/// Whether the text is a decimal integer that fits in 32 signed bits.
pub fn text_fits_i32(s: &str) -> (r: bool)
    ensures
        r == fits_i32(s@),
{
    let len = s.unicode_len();
    proof {
        assert(s@.skip(0) =~= s@);
    }
    if len > 0 && char_at(s, 0) == '-' {
        digits_within(s, len, 1, 0x8000_0000)
    } else if len > 0 && char_at(s, 0) == '+' {
        digits_within(s, len, 1, 0x7fff_ffff)
    } else {
        digits_within(s, len, 0, 0x7fff_ffff)
    }
}

} // verus!
