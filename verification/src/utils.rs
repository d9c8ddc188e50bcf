//! Numerals: reading and writing numbers in base 36 and base 10.
use vstd::arithmetic::div_mod::{lemma_add_mod_noop, lemma_mul_mod_noop_right, lemma_small_mod};
use vstd::prelude::*;

verus! {

/// `String::push` of the standard library: appends the given character to the end of the
/// string.
pub assume_specification[ String::push ](s: &mut String, c: char)
    ensures
        final(s)@ == old(s)@.push(c),
;

/// The number of values that a `u64` can take.
pub open spec fn two_pow_64() -> int {
    0x1_0000_0000_0000_0000
}

/// The character for the digit `d`, which is below 36: `0` to `9`, then `a` to `z`.
pub open spec fn digit_char(d: nat) -> char {
    if d < 10 {
        (48 + d) as char
    } else {
        (87 + d) as char
    }
}

/// The digit that `c` stands for, if it is one of `0` to `9` or `a` to `z`.
pub open spec fn digit_value(c: char) -> Option<nat> {
    if '0' <= c <= '9' {
        Some((c as int - 48) as nat)
    } else if 'a' <= c <= 'z' {
        Some((c as int - 87) as nat)
    } else {
        None
    }
}

/// The numeral of `n` in the given base, most significant digit first and without leading
/// zeros.
pub open spec fn numeral(n: nat, base: nat) -> Seq<char>
    recommends
        2 <= base <= 36,
    decreases n,
{
    if n < base || base < 2 {
        seq![digit_char(n)]
    } else {
        proof {
            assert(n / base < n) by (nonlinear_arith)
                requires
                    n >= base,
                    base >= 2,
            ;
        }
        numeral(n / base, base).push(digit_char(n % base))
    }
}

/// The number that a numeral of digits and lower-case letters denotes in the given base.
pub open spec fn numeral_value(text: Seq<char>, base: int) -> int
    decreases text.len(),
{
    if text.len() == 0 {
        0
    } else {
        base * numeral_value(text.drop_last(), base) + (if text.last() <= '9' {
            text.last() as int - '0' as int
        } else {
            text.last() as int - 'a' as int + 10
        })
    }
}

/// The base-36 digits that occur in `s`, in order; every other character is passed over.
pub open spec fn base36_digits(s: Seq<char>) -> Seq<nat>
    decreases s.len(),
{
    if s.len() == 0 {
        seq![]
    } else {
        match digit_value(s.last()) {
            Some(d) => base36_digits(s.drop_last()).push(d),
            None => base36_digits(s.drop_last()),
        }
    }
}

/// The number that a sequence of base-36 digits denotes, most significant digit first.
pub open spec fn base36_value(digits: Seq<nat>) -> nat
    decreases digits.len(),
{
    if digits.len() == 0 {
        0
    } else {
        36 * base36_value(digits.drop_last()) + digits.last()
    }
}

/// What `base36_from_i64` writes: the base-36 numeral, and nothing at all for a negative
/// number.
pub open spec fn base36_text(n: int) -> Seq<char> {
    if n < 0 {
        seq![]
    } else {
        numeral(n as nat, 36)
    }
}

/// The decimal notation of an integer, with a leading `-` if it is negative.
pub open spec fn decimal_text(n: int) -> Seq<char> {
    if n < 0 {
        seq!['-'] + numeral((-n) as nat, 10)
    } else {
        numeral(n as nat, 10)
    }
}

/// The number whose base-36 digits are the decimal digits of `n`.
pub open spec fn decimal_as_base36(n: nat) -> nat
    decreases n,
{
    if n == 0 {
        0
    } else {
        n % 10 + 36 * decimal_as_base36(n / 10)
    }
}

/// Up to three decimal digits, taken for digits in base 36.
proof fn lemma_three_digits(n: nat)
    requires
        n < 1000,
    ensures
        decimal_as_base36(n) == n as int % 10 + (n as int / 10 % 10) * 36 + (n as int / 100) * 1296,
{
    reveal_with_fuel(decimal_as_base36, 4);
    assert(n / 10 / 10 == n / 100);
    assert(n / 100 / 10 == 0);
    assert(n / 100 % 10 == n / 100);
}

/// What `base36_to_base10` computes.
pub open spec fn base36_reading(n: int) -> int {
    if n < 0 {
        -decimal_as_base36((-n) as nat)
    } else {
        decimal_as_base36(n as nat) as int
    }
}

/// One Horner step commutes with reduction modulo 2^64.
proof fn lemma_horner_mod(v: int, d: int)
    requires
        0 <= v,
        0 <= d < 36,
    ensures
        (36 * (v % two_pow_64()) % two_pow_64() + d) % two_pow_64() == (36 * v + d)
            % two_pow_64(),
{
    let m = two_pow_64();
    lemma_mul_mod_noop_right(36, v, m);
    lemma_add_mod_noop(36 * v, d, m);
    lemma_small_mod(d as nat, m as nat);
}

/// The base-36 digit that `c` stands for, if any.
fn char_digit(c: char) -> (r: Option<u64>)
    ensures
        match digit_value(c) {
            Some(d) => r == Some(d as u64) && d < 36,
            None => r is None,
        },
{
    if '0' <= c && c <= '9' {
        Some(c as u64 - 48)
    } else if 'a' <= c && c <= 'z' {
        Some(c as u64 - 87)
    } else {
        None
    }
}

/// The character for a digit below 36.
fn digit_to_char(d: u64) -> (c: char)
    requires
        d < 36,
    ensures
        c == digit_char(d as nat),
{
    let d: u8 = d as u8;
    if d < 10 {
        (48 + d) as char
    } else {
        (87 + d) as char
    }
}

/// Writes `n` in the given base.
fn numeral_string(n: u64, base: u64) -> (r: String)
    requires
        2 <= base <= 36,
    ensures
        r@ == numeral(n as nat, base as nat),
{
    let mut text: String = String::new();
    if n == 0 {
        text.push('0');
        assert(text@ =~= numeral(0, base as nat));
        return text;
    }
    let mut chars: Vec<char> = Vec::new();
    let mut rest: u64 = n;
    while rest > 0
        invariant
            n > 0,
            2 <= base <= 36,
            rest == 0 ==> numeral(n as nat, base as nat) == chars@.reverse(),
            rest > 0 ==> numeral(n as nat, base as nat) == numeral(rest as nat, base as nat)
                + chars@.reverse(),
        decreases rest,
    {
        let ghost before = chars@;
        let digit: u64 = rest % base;
        chars.push(digit_to_char(digit));
        proof {
            assert(rest / base < rest) by (nonlinear_arith)
                requires
                    rest > 0,
                    base >= 2,
            ;
            assert(chars@.reverse() =~= seq![digit_char(digit as nat)] + before.reverse());
            if rest < base {
                assert(rest / base == 0 && rest % base == rest) by (nonlinear_arith)
                    requires
                        rest < base,
                ;
            } else {
                assert(rest / base > 0) by (nonlinear_arith)
                    requires
                        rest >= base,
                        base >= 2,
                ;
            }
        }
        rest = rest / base;
        assert(rest > 0 ==> numeral(rest as nat, base as nat).push(digit_char(digit as nat))
            + before.reverse() =~= numeral(rest as nat, base as nat) + chars@.reverse());
    }
    let mut i: usize = chars.len();
    while i > 0
        invariant
            i <= chars.len(),
            text@ =~= chars@.skip(i as int).reverse(),
        decreases i,
    {
        i = i - 1;
        text.push(chars[i]);
    }
    assert(chars@.skip(0) =~= chars@);
    text
}

/// Reads a number in base 36. Characters that are no digits of that base (capital letters among
/// them) are skipped; the arithmetic wraps around at 2^64.
pub fn lossy_u64_from_base36(input: &str) -> (r: u64)
    ensures
        r == base36_value(base36_digits(input@)) as int % two_pow_64(),
{
    let mut result: u64 = 0;
    assert(input@.take(0) =~= seq![]);
    for c in it: input.chars()
        invariant
            it.seq() == input@,
            result == base36_value(base36_digits(input@.take(it.index() as int))) as int
                % two_pow_64(),
    {
        let ghost k = it.index() as int;
        let ghost before = base36_digits(input@.take(k));
        proof {
            assert(input@.take(k + 1).drop_last() =~= input@.take(k));
            assert(input@.take(k + 1).last() == c);
        }
        match char_digit(c) {
            Some(d) => {
                proof {
                    assert(before.push(d as nat).drop_last() =~= before);
                    lemma_horner_mod(base36_value(before) as int, d as int);
                }
                result = result.wrapping_mul(36).wrapping_add(d);
            },
            None => {},
        }
    }
    assert(input@.take(input@.len() as int) =~= input@);
    result
}

/// Writes a number in base 36 with lower-case digits. A negative number gives the empty string.
pub fn base36_from_i64(input: i64) -> (r: String)
    ensures
        r@ == base36_text(input as int),
        input < 0 ==> r@.len() == 0,
        input >= 0 ==> base36_value(base36_digits(r@)) == input,
        input >= 0 ==> numeral_value(r@, 36) == input,
        input > 0 ==> r@.len() > 0 && r@[0] != '0',
        forall|i: int|
            0 <= i < r@.len() ==> '0' <= #[trigger] r@[i] <= '9' || 'a' <= r@[i] <= 'z',
{
    proof {
        if input >= 0 {
            lemma_numeral_value(input as nat);
            law_numeral(input as nat, 36);
        }
    }
    if input < 0 {
        return String::new();
    }
    numeral_string(input as u64, 36)
}

/// Writes a number in decimal notation.
pub fn decimal_from_i32(input: i32) -> (r: String)
    ensures
        r@ == decimal_text(input as int),
        input >= 0 ==> numeral_value(r@, 10) == input,
        input < 0 ==> r@.len() > 0 && r@[0] == '-' && numeral_value(r@.skip(1), 10) == -input,
{
    proof {
        law_decimal_text(input as int);
    }
    if input < 0 {
        let mut text: String = String::new();
        text.push('-');
        let magnitude: u64 = (-(input as i64)) as u64;
        text.append(numeral_string(magnitude, 10).as_str());
        assert(text@ =~= decimal_text(input as int));
        text
    } else {
        numeral_string(input as u64, 10)
    }
}

/// Takes the decimal digits of `input` for base-36 digits and returns the number that they
/// denote, with the sign of `input`. The least `i8` is left out: its magnitude is not an `i8`.
pub fn base36_to_base10(input: i8) -> (r: i32)
    requires
        input != i8::MIN,
    ensures
        r == base36_reading(input as int),
        input >= 0 ==> r == input as int % 10 + (input as int / 10 % 10) * 36 + (input as int / 100)
            * 1296,
        input < 0 ==> -r == (-input) % 10 + ((-input) / 10 % 10) * 36 + ((-input) / 100) * 1296,
{
    let mut result: i32 = 0;
    let mut base: i32 = 1;
    let mut num: i32 = if input < 0 {
        -(input as i32)
    } else {
        input as i32
    };
    let ghost magnitude: nat = num as nat;
    reveal_with_fuel(decimal_as_base36, 4);
    assert(decimal_as_base36(magnitude) == magnitude as int % 10 + (magnitude as int / 10 % 10) * 36
        + (magnitude as int / 100) * 1296) by {
        lemma_three_digits(magnitude);
    }
    while num > 0
        invariant
            0 <= num,
            0 <= result,
            (num <= 127 && base == 1 && result == 0) || (num <= 12 && base == 36 && result <= 9) || (
            num <= 1 && base == 1296 && result <= 9 + 9 * 36) || (num == 0 && result <= 9 + 9 * 36
                + 1296),
            decimal_as_base36(magnitude) == result + base * decimal_as_base36(num as nat),
        decreases num,
    {
        let digit: i32 = num % 10;
        result = result + digit * base;
        num = num / 10;
        base = base * 36;
    }
    assert(base * decimal_as_base36(0) == 0) by (nonlinear_arith)
        requires
            decimal_as_base36(0) == 0,
    ;
    if input < 0 {
        -result
    } else {
        result
    }
}

/// The base-36 numeral of `n` denotes `n`.
pub proof fn lemma_numeral_value(n: nat)
    ensures
        base36_value(base36_digits(numeral(n, 36))) == n,
    decreases n,
{
    let text = numeral(n, 36);
    if n < 36 {
        assert(text.drop_last() =~= seq![]);
        assert(base36_digits(text.drop_last()) =~= seq![]);
        assert(base36_digits(text) =~= seq![n]);
        assert(seq![n].drop_last() =~= seq![]);
        assert(base36_value(seq![n].drop_last()) == 0);
    } else {
        lemma_numeral_value(n / 36);
        let front = numeral(n / 36, 36);
        assert(text.drop_last() =~= front);
        assert(base36_digits(text).drop_last() =~= base36_digits(front));
    }
}

/// Reading back what was written: `lossy_u64_from_base36` of the numeral that `base36_from_i64`
/// writes for a number that is not negative is that number.
pub proof fn law_base36_round_trip(n: i64)
    requires
        n >= 0,
    ensures
        base36_value(base36_digits(base36_text(n as int))) as int % two_pow_64() == n,
{
    lemma_numeral_value(n as nat);
}

/// A numeral has a first digit, and all its characters are digits.
pub proof fn lemma_numeral_characters(n: nat, base: nat)
    requires
        2 <= base <= 36,
    ensures
        numeral(n, base).len() > 0,
        forall|i: int|
            0 <= i < numeral(n, base).len() ==> digit_value(#[trigger] numeral(n, base)[i]) is Some,
    decreases n,
{
    if n >= base {
        assert(n / base < n) by (nonlinear_arith)
            requires
                n >= base,
                base >= 2,
        ;
        assert(n % base < base) by (nonlinear_arith)
            requires
                base >= 2,
        ;
        lemma_numeral_characters(n / base, base);
        let front = numeral(n / base, base);
        assert forall|i: int| 0 <= i < numeral(n, base).len() implies digit_value(
            #[trigger] numeral(n, base)[i],
        ) is Some by {
            if i < front.len() {
                assert(numeral(n, base)[i] == front[i]);
            }
        }
    }
}

/// Different numbers have different numerals.
pub proof fn lemma_numeral_injective(m: nat, n: nat, base: nat)
    requires
        2 <= base <= 36,
        numeral(m, base) == numeral(n, base),
    ensures
        m == n,
    decreases m,
{
    let (a, b) = (numeral(m, base), numeral(n, base));
    assert(m % base < base && n % base < base) by (nonlinear_arith)
        requires
            base >= 2,
    ;
    if m >= base {
        lemma_numeral_characters(m / base, base);
    }
    if n >= base {
        lemma_numeral_characters(n / base, base);
    }
    if m < base || n < base {
        assert(a.len() == 1 && b.len() == 1);
        assert(digit_value(a[0]) == Some(m) && digit_value(b[0]) == Some(n));
    } else {
        assert(m / base < m) by (nonlinear_arith)
            requires
                m >= base,
                base >= 2,
        ;
        assert(a.drop_last() =~= numeral(m / base, base));
        assert(b.drop_last() =~= numeral(n / base, base));
        lemma_numeral_injective(m / base, n / base, base);
        assert(digit_value(a.last()) == Some(m % base) && digit_value(b.last()) == Some(n % base));
        assert(m == base * (m / base) + m % base && n == base * (n / base) + n % base)
            by (nonlinear_arith)
            requires
                base >= 2,
        ;
    }
}

/// Different numbers that are not negative have different base-36 numerals.
pub proof fn law_base36_from_i64_injective(m: i64, n: i64)
    requires
        m >= 0,
        n >= 0,
        base36_text(m as int) == base36_text(n as int),
    ensures
        m == n,
{
    lemma_numeral_injective(m as nat, n as nat, 36);
}

/// Different numbers have different decimal notations.
pub proof fn law_decimal_injective(m: i32, n: i32)
    requires
        decimal_text(m as int) == decimal_text(n as int),
    ensures
        m == n,
{
    let (a, b) = (decimal_text(m as int), decimal_text(n as int));
    let p = (if m < 0 { -m } else { m as int }) as nat;
    let q = (if n < 0 { -n } else { n as int }) as nat;
    lemma_numeral_characters(p, 10);
    lemma_numeral_characters(q, 10);
    assert(a[0] == b[0]);
    if m < 0 {
        assert(a.skip(1) =~= numeral(p, 10));
    } else {
        assert(digit_value(numeral(p, 10)[0]) is Some);
    }
    if n < 0 {
        assert(b.skip(1) =~= numeral(q, 10));
    } else {
        assert(digit_value(numeral(q, 10)[0]) is Some);
    }
    lemma_numeral_injective(p, q, 10);
}

/// Decimal notation holds no full stop.
pub proof fn lemma_decimal_characters(n: i32)
    ensures
        forall|i: int|
            0 <= i < decimal_text(n as int).len() ==> #[trigger] decimal_text(n as int)[i] != '.',
{
    let p = (if n < 0 { -n } else { n as int }) as nat;
    lemma_numeral_characters(p, 10);
    assert forall|i: int| 0 <= i < decimal_text(n as int).len() implies #[trigger] decimal_text(
        n as int,
    )[i] != '.' by {
        if n < 0 && i > 0 {
            assert(digit_value(numeral(p, 10)[i - 1]) is Some);
        } else if n >= 0 {
            assert(digit_value(numeral(p, 10)[i]) is Some);
        }
    }
}

/// `lossy_u64_from_base36` gives the same number with and without a character that is no
/// base-36 digit, wherever that character stands.
pub proof fn law_lossy_skips_other_characters(front: Seq<char>, c: char, back: Seq<char>)
    requires
        digit_value(c) is None,
    ensures
        base36_digits(front.push(c) + back) == base36_digits(front + back),
    decreases back.len(),
{
    if back.len() == 0 {
        assert(front.push(c) + back =~= front.push(c));
        assert(front.push(c).drop_last() =~= front);
        assert(front + back =~= front);
    } else {
        law_lossy_skips_other_characters(front, c, back.drop_last());
        assert((front.push(c) + back).drop_last() =~= front.push(c) + back.drop_last());
        assert((front + back).drop_last() =~= front + back.drop_last());
    }
}

/// `base36_to_base10` of the opposite number is the opposite result.
pub proof fn law_base36_to_base10_odd(n: i8)
    requires
        n != i8::MIN,
    ensures
        base36_reading(-(n as int)) == -base36_reading(n as int),
{
}

/// The numeral of a number denotes it, consists of digits below the base, and has no leading zero.
pub proof fn law_numeral(n: nat, base: nat)
    requires
        2 <= base <= 36,
    ensures
        numeral_value(numeral(n, base), base as int) == n,
        numeral(n, base).len() > 0,
        n > 0 ==> numeral(n, base)[0] != '0',
        forall|i: int|
            0 <= i < numeral(n, base).len() ==> ('0' <= #[trigger] numeral(n, base)[i] <= '9'
                && numeral(n, base)[i] as int - '0' as int <= base - 1) || ('a' <= numeral(n, base)[i]
                <= 'z' && numeral(n, base)[i] as int - 'a' as int + 10 <= base - 1),
    decreases n,
{
    let text = numeral(n, base);
    if n < base {
        assert(text.drop_last() =~= seq![]);
        assert(numeral_value(text.drop_last(), base as int) == 0);
    } else {
        assert(0 < n / base < n && n % base < base && base * (n / base) + n % base == n)
            by (nonlinear_arith)
            requires
                n >= base,
                base >= 2,
        ;
        law_numeral(n / base, base);
        let front = numeral(n / base, base);
        assert(text.drop_last() =~= front);
        assert(text[0] == front[0]);
        assert forall|i: int| 0 <= i < text.len() implies ('0' <= #[trigger] text[i] <= '9'
            && text[i] as int - '0' as int <= base - 1) || ('a' <= text[i] <= 'z' && text[i] as int
            - 'a' as int + 10 <= base - 1) by {
            if i < front.len() {
                assert(text[i] == front[i]);
            }
        }
    }
}

/// The decimal notation of an integer denotes it: a sign before the digits of its magnitude if it
/// is negative, else its digits alone.
pub proof fn law_decimal_text(n: int)
    ensures
        n >= 0 ==> numeral_value(decimal_text(n), 10) == n,
        n > 0 ==> decimal_text(n)[0] != '0',
        n < 0 ==> {
            &&& decimal_text(n).len() > 1
            &&& decimal_text(n)[0] == '-'
            &&& decimal_text(n)[1] != '0'
            &&& numeral_value(decimal_text(n).skip(1), 10) == -n
        },
{
    if n < 0 {
        law_numeral((-n) as nat, 10);
        assert(decimal_text(n).skip(1) =~= numeral((-n) as nat, 10));
    } else {
        law_numeral(n as nat, 10);
    }
}

/// A base-36 numeral is read digit by digit: a further digit or lower-case letter multiplies what
/// was read by 36 and adds its value, and any other character changes nothing.
pub proof fn law_lossy_reads_in_turn(text: Seq<char>, c: char)
    ensures
        base36_value(base36_digits(Seq::empty())) == 0,
        base36_value(base36_digits(text.push(c))) == if '0' <= c <= '9' {
            36 * base36_value(base36_digits(text)) + (c as int - '0' as int)
        } else if 'a' <= c <= 'z' {
            36 * base36_value(base36_digits(text)) + (c as int - 'a' as int + 10)
        } else {
            base36_value(base36_digits(text)) as int
        },
{
    assert(text.push(c).drop_last() =~= text);
    let digits = base36_digits(text);
    if '0' <= c <= '9' || 'a' <= c <= 'z' {
        let d = digit_value(c)->0;
        assert(digits.push(d).drop_last() =~= digits);
    }
}

} // verus!
