//! Numbers as text: unsigned integers in decimal and hexadecimal, and the
//! spellings that a decimal floating-point number can have.

use vstd::prelude::*;

use crate::text;
use crate::text::{chars_of, eq_ignoring_case};

verus! {

/// The value of a digit in base 10 or 16, or -1 for any other character.
pub open spec fn digit_value(c: char, radix: int) -> int {
    if '0' <= c <= '9' {
        c as int - '0' as int
    } else if radix == 16 && 'a' <= c <= 'f' {
        c as int - 'a' as int + 10
    } else if radix == 16 && 'A' <= c <= 'F' {
        c as int - 'A' as int + 10
    } else {
        -1
    }
}

/// Whether every character is a digit.
pub open spec fn all_digits(s: Seq<char>, radix: int) -> bool {
    forall|i: int| 0 <= i < s.len() ==> digit_value(#[trigger] s[i], radix) >= 0
}

/// The number that a run of digits spells.
pub open spec fn digits_value(s: Seq<char>, radix: int) -> int
    decreases s.len(),
{
    if s.len() == 0 {
        0
    } else {
        digits_value(s.drop_last(), radix) * radix + digit_value(s.last(), radix)
    }
}

/// The digits of an unsigned number: it may begin with a plus sign.
pub open spec fn unsigned_digits(s: Seq<char>) -> Seq<char> {
    if s.len() > 0 && s[0] == '+' {
        s.skip(1)
    } else {
        s
    }
}

/// The unsigned number that `s` spells, if it spells one no greater than `max`.
pub open spec fn parsed_unsigned(s: Seq<char>, radix: int, max: int) -> Option<int> {
    let digits = unsigned_digits(s);
    if digits.len() > 0 && all_digits(digits, radix) && digits_value(digits, radix) <= max {
        Some(digits_value(digits, radix))
    } else {
        None
    }
}

/// More digits never spell a smaller number.
proof fn lemma_digits_grow(s: Seq<char>, n: int, radix: int)
    requires
        0 <= n <= s.len(),
        all_digits(s, radix),
        radix == 10 || radix == 16,
    ensures
        0 <= digits_value(s.take(n), radix) <= digits_value(s, radix),
    decreases s.len() - n,
{
    lemma_digits_are_natural(s.take(n), radix);
    if n == s.len() {
        assert(s.take(n) =~= s);
    } else {
        assert(s.take(n + 1).drop_last() =~= s.take(n));
        assert(digit_value(s[n], radix) >= 0);
        lemma_digits_grow(s, n + 1, radix);
    }
}

proof fn lemma_digits_are_natural(s: Seq<char>, radix: int)
    requires
        all_digits(s, radix),
        radix == 10 || radix == 16,
    ensures
        0 <= digits_value(s, radix),
    decreases s.len(),
{
    if s.len() > 0 {
        assert(digit_value(s.last(), radix) >= 0);
        assert forall|i: int| 0 <= i < s.drop_last().len() implies digit_value(
            #[trigger] s.drop_last()[i],
            radix,
        ) >= 0 by {
            assert(s.drop_last()[i] == s[i]);
        }
        lemma_digits_are_natural(s.drop_last(), radix);
    }
}

/// A parsed number is within its bounds.
pub proof fn lemma_parsed_is_in_bounds(s: Seq<char>, radix: int, max: int)
    requires
        radix == 10 || radix == 16,
    ensures
        parsed_unsigned(s, radix, max) matches Some(n) ==> 0 <= n <= max,
{
    if all_digits(unsigned_digits(s), radix) {
        lemma_digits_are_natural(unsigned_digits(s), radix);
    }
}

fn digit(c: char, radix: u64) -> (d: Option<u64>)
    ensures
        d is Some <==> digit_value(c, radix as int) >= 0,
        d is Some ==> d->0 == digit_value(c, radix as int) && d->0 < 16,
        d is Some && radix == 10 ==> d->0 < 10,
{
    if '0' <= c && c <= '9' {
        Some(c as u64 - '0' as u64)
    } else if radix == 16 && 'a' <= c && c <= 'f' {
        Some(c as u64 - 'a' as u64 + 10)
    } else if radix == 16 && 'A' <= c && c <= 'F' {
        Some(c as u64 - 'A' as u64 + 10)
    } else {
        None
    }
}

/// Parse an unsigned number in base 10 or 16, no greater than `max`. A leading
/// plus sign is accepted, as the standard library's integer parsers do.
pub fn parse_unsigned(s: &[char], radix: u64, max: u64) -> (n: Option<u64>)
    requires
        radix == 10 || radix == 16,
    ensures
        n is Some <==> parsed_unsigned(s@, radix as int, max as int) is Some,
        n is Some ==> n->0 == parsed_unsigned(s@, radix as int, max as int)->0,
{
    let digits = if s.len() > 0 && s[0] == '+' {
        vstd::slice::slice_subrange(s, 1, s.len())
    } else {
        s
    };
    assert(digits@ =~= unsigned_digits(s@));
    if digits.len() == 0 {
        return None;
    }
    let mut value: u64 = 0;
    let mut i: usize = 0;
    assert(digits@.take(0) =~= Seq::<char>::empty());
    while i < digits.len()
        invariant
            radix == 10 || radix == 16,
            digits@ == unsigned_digits(s@),
            digits@.len() > 0,
            i <= digits@.len(),
            all_digits(digits@.take(i as int), radix as int),
            value == digits_value(digits@.take(i as int), radix as int),
            value <= max,
        decreases digits@.len() - i,
    {
        let c: char = digits[i];
        let d: u64 = match digit(c, radix) {
            Some(d) => d,
            None => {
                assert(digit_value(digits@[i as int], radix as int) < 0);
                return None;
            },
        };
        let ghost upto = digits@.take(i + 1);
        proof {
            assert(upto.drop_last() =~= digits@.take(i as int));
            assert(upto.last() == c);
            assert forall|j: int| 0 <= j < upto.len() implies digit_value(
                #[trigger] upto[j],
                radix as int,
            ) >= 0 by {
                if j < i {
                    assert(upto[j] == digits@.take(i as int)[j]);
                }
            }
        }
        assert(0 <= value * radix <= 0xffff_ffff_ffff_ffff * 16) by (nonlinear_arith)
            requires
                0 <= value <= 0xffff_ffff_ffff_ffff,
                0 <= radix <= 16,
        ;
        let next: u128 = value as u128 * radix as u128 + d as u128;
        assert(next == digits_value(upto, radix as int));
        if next > max as u128 {
            proof {
                if all_digits(digits@, radix as int) {
                    lemma_digits_grow(digits@, i + 1, radix as int);
                }
            }
            return None;
        }
        value = next as u64;
        i += 1;
    }
    assert(digits@.take(i as int) =~= digits@);
    Some(value)
}

/// The decimal digit `d`.
pub open spec fn decimal_digit(d: int) -> char {
    (d + '0' as int) as char
}

/// The decimal spelling of a natural number.
pub open spec fn decimal(n: nat) -> Seq<char>
    decreases n,
{
    if n < 10 {
        seq![decimal_digit(n as int)]
    } else {
        decimal(n / 10).push(decimal_digit((n % 10) as int))
    }
}

/// Append the decimal spelling of `n`.
pub fn push_decimal_wide(out: &mut String, n: u128)
    ensures
        final(out)@ == old(out)@ + decimal(n as nat),
    decreases n,
{
    if n >= 10 {
        push_decimal_wide(out, n / 10);
    }
    out.push(((n % 10) as u8 + 48) as char);
    assert(out@ =~= old(out)@ + decimal(n as nat));
}

/// Append the decimal spelling of `n`.
pub fn push_decimal(out: &mut String, n: u64)
    ensures
        final(out)@ == old(out)@ + decimal(n as nat),
{
    push_decimal_wide(out, n as u128);
}

/// What is written in decimal reads back as the same number.
pub proof fn law_decimal_reads_back(n: nat, max: int)
    requires
        n <= max,
    ensures
        parsed_unsigned(decimal(n), 10, max) == Some(n as int),
{
    lemma_decimal(n);
    assert(decimal(n)[0] != '+');
}

proof fn lemma_decimal(n: nat)
    ensures
        decimal(n).len() > 0,
        all_digits(decimal(n), 10),
        digits_value(decimal(n), 10) == n,
    decreases n,
{
    if n < 10 {
        assert(decimal(n).drop_last() =~= Seq::<char>::empty());
        assert(digits_value(Seq::<char>::empty(), 10) == 0);
    } else {
        lemma_decimal(n / 10);
        assert(decimal(n).drop_last() =~= decimal(n / 10));
        assert forall|i: int| 0 <= i < decimal(n).len() implies digit_value(
            #[trigger] decimal(n)[i],
            10,
        ) >= 0 by {
            if i < decimal(n).len() - 1 {
                assert(decimal(n)[i] == decimal(n / 10)[i]);
            }
        }
    }
    assert(digit_value(decimal(n)[0], 10) >= 0);
}

/// The hexadecimal digit `d`.
pub open spec fn hex_digit(d: int, upper: bool) -> char {
    if d < 10 {
        (d + '0' as int) as char
    } else if upper {
        (d - 10 + 'A' as int) as char
    } else {
        (d - 10 + 'a' as int) as char
    }
}

/// The hexadecimal spelling of some bytes, two digits each.
pub open spec fn hex(bytes: Seq<u8>, upper: bool) -> Seq<char>
    decreases bytes.len(),
{
    if bytes.len() == 0 {
        Seq::empty()
    } else {
        hex(bytes.drop_last(), upper).push(hex_digit(bytes.last() as int / 16, upper)).push(
            hex_digit(bytes.last() as int % 16, upper),
        )
    }
}

fn hex_char(d: u8, upper: bool) -> (c: char)
    requires
        d < 16,
    ensures
        c == hex_digit(d as int, upper),
{
    if d < 10 {
        (d + 48) as char
    } else if upper {
        (d - 10 + 65) as char
    } else {
        (d - 10 + 97) as char
    }
}

/// Write some bytes in hexadecimal, two digits each.
pub fn to_hex(bytes: &[u8], upper: bool) -> (s: String)
    ensures
        s@ == hex(bytes@, upper),
{
    let mut s = String::new();
    let mut i: usize = 0;
    assert(bytes@.take(0) =~= Seq::<u8>::empty());
    while i < bytes.len()
        invariant
            i <= bytes@.len(),
            s@ == hex(bytes@.take(i as int), upper),
        decreases bytes@.len() - i,
    {
        s.push(hex_char(bytes[i] / 16, upper));
        s.push(hex_char(bytes[i] % 16, upper));
        assert(bytes@.take(i + 1).drop_last() =~= bytes@.take(i as int));
        i += 1;
    }
    assert(bytes@.take(i as int) =~= bytes@);
    s
}

/// Two digits for every byte.
pub proof fn lemma_hex_len(bytes: Seq<u8>, upper: bool)
    ensures
        hex(bytes, upper).len() == 2 * bytes.len(),
    decreases bytes.len(),
{
    if bytes.len() > 0 {
        lemma_hex_len(bytes.drop_last(), upper);
    }
}

/// How many decimal digits `s` begins with.
pub open spec fn digit_run(s: Seq<char>) -> int
    decreases s.len(),
{
    if s.len() > 0 && '0' <= s[0] <= '9' {
        1 + digit_run(s.skip(1))
    } else {
        0
    }
}

/// `s` without the sign in front of it, if there is one.
pub open spec fn unsigned_part(s: Seq<char>) -> Seq<char> {
    if s.len() > 0 && (s[0] == '+' || s[0] == '-') {
        s.skip(1)
    } else {
        s
    }
}

/// Nothing, or an exponent: an `e` of either case, perhaps a sign, and digits.
pub open spec fn is_exponent(s: Seq<char>) -> bool {
    ||| s.len() == 0
    ||| {
        &&& s[0] == 'e' || s[0] == 'E'
        &&& unsigned_part(s.skip(1)).len() > 0
        &&& digit_run(unsigned_part(s.skip(1))) == unsigned_part(s.skip(1)).len()
    }
}

/// A decimal number: digits with perhaps a point among them, before, or after
/// (a digit somewhere), and perhaps an exponent.
pub open spec fn is_decimal_number(s: Seq<char>) -> bool {
    let whole = digit_run(s);
    let rest = s.skip(whole);
    if rest.len() > 0 && rest[0] == '.' {
        let fraction = digit_run(rest.skip(1));
        whole + fraction > 0 && is_exponent(rest.skip(1).skip(fraction))
    } else {
        whole > 0 && is_exponent(rest)
    }
}

/// Whether `s` spells a floating-point number: a decimal number, an infinity or
/// a NaN, perhaps with a sign.
pub open spec fn is_float_text(s: Seq<char>) -> bool {
    let t = unsigned_part(s);
    ||| text::same_ignoring_case(t, "inf"@)
    ||| text::same_ignoring_case(t, "infinity"@)
    ||| text::same_ignoring_case(t, "nan"@)
    ||| is_decimal_number(t)
}

fn count_digits(s: &[char]) -> (n: usize)
    ensures
        n == digit_run(s@),
        n <= s@.len(),
{
    let mut n: usize = 0;
    assert(s@.skip(0) =~= s@);
    while n < s.len() && '0' <= s[n] && s[n] <= '9'
        invariant
            n <= s@.len(),
            digit_run(s@) == n + digit_run(s@.skip(n as int)),
        decreases s@.len() - n,
    {
        assert(s@.skip(n as int).skip(1) =~= s@.skip(n + 1));
        n += 1;
    }
    n
}

fn skip<'a>(s: &'a [char], n: usize) -> (t: &'a [char])
    requires
        n <= s@.len(),
    ensures
        t@ == s@.skip(n as int),
{
    assert(s@.skip(n as int) =~= s@.subrange(n as int, s@.len() as int));
    vstd::slice::slice_subrange(s, n, s.len())
}

fn skip_sign<'a>(s: &'a [char]) -> (t: &'a [char])
    ensures
        t@ == unsigned_part(s@),
{
    if s.len() > 0 && (s[0] == '+' || s[0] == '-') {
        skip(s, 1)
    } else {
        s
    }
}

fn exponent(s: &[char]) -> (ok: bool)
    ensures
        ok == is_exponent(s@),
{
    if s.len() == 0 {
        return true;
    }
    if s[0] != 'e' && s[0] != 'E' {
        return false;
    }
    let digits = skip_sign(skip(s, 1));
    digits.len() > 0 && count_digits(digits) == digits.len()
}

/// Whether a text spells a floating-point number.
pub fn spells_float(s: &[char]) -> (ok: bool)
    ensures
        ok == is_float_text(s@),
{
    let t = skip_sign(s);
    if eq_ignoring_case(t, chars_of("inf").as_slice()) || eq_ignoring_case(
        t,
        chars_of("infinity").as_slice(),
    ) || eq_ignoring_case(t, chars_of("nan").as_slice()) {
        return true;
    }
    let whole: usize = count_digits(t);
    let rest = skip(t, whole);
    if rest.len() > 0 && rest[0] == '.' {
        let after = skip(rest, 1);
        let fraction: usize = count_digits(after);
        (whole > 0 || fraction > 0) && exponent(skip(after, fraction))
    } else {
        whole > 0 && exponent(rest)
    }
}

/// A digit is worth what it says: `0` to `9` in either radix, and the first six
/// letters, small or capital, in radix 16 only.
pub proof fn law_digits_are_worth_what_they_say(d: int, c: char)
    ensures
        0 <= d < 10 ==> digit_value(('0' as int + d) as char, 10) == d && digit_value(
            ('0' as int + d) as char,
            16,
        ) == d,
        0 <= d < 6 ==> digit_value(('a' as int + d) as char, 16) == 10 + d && digit_value(
            ('A' as int + d) as char,
            16,
        ) == 10 + d,
        digit_value(c, 10) >= 0 <==> '0' <= c <= '9',
        digit_value(c, 16) >= 0 <==> '0' <= c <= '9' || 'a' <= c <= 'f' || 'A' <= c <= 'F',
{
}

/// A number is read place by place: one more digit is worth itself, and makes
/// what came before it worth ten (or sixteen) times as much.
pub proof fn law_a_number_is_read_place_by_place(s: Seq<char>, c: char, radix: int, max: int)
    requires
        radix == 10 || radix == 16,
        0 <= max,
    ensures
        parsed_unsigned(s, radix, max) matches Some(n) ==> 0 <= n <= max,
        parsed_unsigned(s.push(c), radix, max) is Some ==> digit_value(c, radix) >= 0,
        parsed_unsigned(s.push(c), radix, max) is Some && s.len() > 0 && s != seq!['+'] ==> {
            &&& parsed_unsigned(s, radix, max) is Some
            &&& parsed_unsigned(s.push(c), radix, max)->0 == parsed_unsigned(s, radix, max)->0
                * radix + digit_value(c, radix)
        },
        parsed_unsigned(s, radix, max) matches Some(m) ==> digit_value(c, radix) >= 0 ==> m * radix
            + digit_value(c, radix) <= max ==> parsed_unsigned(s.push(c), radix, max) == Some(
            m * radix + digit_value(c, radix),
        ),
        parsed_unsigned(seq![c], radix, max) == (if 0 <= digit_value(c, radix) <= max {
            Some(digit_value(c, radix))
        } else {
            None
        }),
{
    lemma_parsed_is_in_bounds(s, radix, max);
    let digits = unsigned_digits(s);
    let more = s.push(c);
    assert(more.drop_last() =~= s);
    if s.len() > 0 {
        assert(more[0] == s[0]);
        assert(unsigned_digits(more) =~= digits.push(c));
        assert(digits.push(c).drop_last() =~= digits);
        if all_digits(digits.push(c), radix) {
            assert forall|i: int| 0 <= i < digits.len() implies digit_value(
                #[trigger] digits[i],
                radix,
            ) >= 0 by {
                assert(digits.push(c)[i] == digits[i]);
            }
            assert(digit_value(digits.push(c)[digits.len() as int], radix) >= 0);
            lemma_digits_are_natural(digits, radix);
            if s[0] == '+' && digits.len() == 0 {
                assert(s =~= seq!['+']);
            }
            assert(digits_value(digits.push(c), radix) == digits_value(digits, radix) * radix
                + digit_value(c, radix));
            assert(digits_value(digits, radix) <= digits_value(digits, radix) * radix)
                by (nonlinear_arith)
                requires
                    digits_value(digits, radix) >= 0,
                    radix >= 1,
            ;
        }
        if all_digits(digits, radix) && digit_value(c, radix) >= 0 {
            assert forall|i: int| 0 <= i < digits.push(c).len() implies digit_value(
                #[trigger] digits.push(c)[i],
                radix,
            ) >= 0 by {
                if i < digits.len() {
                    assert(digits.push(c)[i] == digits[i]);
                }
            }
        }
    } else {
        assert(more =~= seq![c]);
        if parsed_unsigned(more, radix, max) is Some {
            if c == '+' {
                assert(unsigned_digits(more).len() == 0);
            }
            assert(digit_value(more[0], radix) >= 0);
        }
    }
    let one = seq![c];
    if c == '+' {
        assert(unsigned_digits(one).len() == 0);
    } else {
        assert(unsigned_digits(one) == one);
        assert(one.drop_last() =~= Seq::<char>::empty());
        assert(digits_value(Seq::<char>::empty(), radix) == 0);
        reveal_with_fuel(digits_value, 2);
        assert(digits_value(one, radix) == digit_value(c, radix));
        if digit_value(c, radix) >= 0 {
            assert(all_digits(one, radix));
        } else {
            assert(digit_value(one[0], radix) < 0);
        }
    }
}

/// A text is a number only if it is made of digits, but for one plus sign before
/// them, and there is at least one.
pub proof fn law_a_number_is_all_digits(s: Seq<char>, radix: int, max: int, i: int)
    requires
        radix == 10 || radix == 16,
    ensures
        parsed_unsigned(Seq::empty(), radix, max) is None,
        parsed_unsigned(seq!['+'], radix, max) is None,
        0 <= i < s.len() && digit_value(s[i], radix) < 0 && !(i == 0 && s[0] == '+')
            ==> parsed_unsigned(s, radix, max) is None,
        s.len() > 0 && s[0] != '+' ==> parsed_unsigned(seq!['+'] + s, radix, max)
            == parsed_unsigned(s, radix, max),
{
    assert(unsigned_digits(seq!['+']).len() == 0);
    if 0 <= i < s.len() && digit_value(s[i], radix) < 0 && !(i == 0 && s[0] == '+') {
        if s[0] == '+' {
            assert(unsigned_digits(s)[i - 1] == s[i]);
        } else {
            assert(unsigned_digits(s)[i] == s[i]);
        }
    }
    assert((seq!['+'] + s).skip(1) =~= s);
}

/// A number is written in decimal digits, without a leading zero but for zero
/// itself.
pub proof fn law_decimal_is_plain(n: nat)
    ensures
        decimal(n).len() > 0,
        forall|i: int| 0 <= i < decimal(n).len() ==> '0' <= #[trigger] decimal(n)[i] <= '9',
        n > 0 ==> decimal(n)[0] != '0',
        decimal(0) == seq!['0'],
    decreases n,
{
    assert(decimal(0) =~= seq!['0']);
    if n >= 10 {
        law_decimal_is_plain(n / 10);
        assert(decimal(n)[0] == decimal(n / 10)[0]);
    }
}

/// Hex spells each byte in two digits that read back as it, in the case that was
/// asked for, the bytes one after another.
pub proof fn law_hex_reads_back(a: Seq<u8>, b: Seq<u8>, byte: u8, upper: bool)
    ensures
        hex(Seq::empty(), upper) == Seq::<char>::empty(),
        hex(seq![byte], upper).len() == 2,
        parsed_unsigned(hex(seq![byte], upper), 16, 255) == Some(byte as int),
        forall|i: int|
            0 <= i < 2 ==> {
                ||| '0' <= #[trigger] hex(seq![byte], upper)[i] <= '9'
                ||| upper && 'A' <= hex(seq![byte], upper)[i] <= 'F'
                ||| !upper && 'a' <= hex(seq![byte], upper)[i] <= 'f'
            },
        hex(a + b, upper) == hex(a, upper) + hex(b, upper),
    decreases b.len(),
{
    let one = seq![byte];
    assert(one.drop_last() =~= Seq::<u8>::empty());
    assert(hex(Seq::<u8>::empty(), upper) =~= Seq::<char>::empty());
    let high = hex_digit(byte as int / 16, upper);
    let low = hex_digit(byte as int % 16, upper);
    assert(hex(one, upper) =~= seq![high, low]);
    let text = seq![high, low];
    assert(digit_value(high, 16) == byte as int / 16);
    assert(digit_value(low, 16) == byte as int % 16);
    law_a_number_is_read_place_by_place(Seq::empty(), high, 16, 255);
    law_a_number_is_read_place_by_place(seq![high], low, 16, 255);
    assert(seq![high].push(low) =~= text);
    if b.len() == 0 {
        assert(a + b =~= a);
        assert(hex(b, upper) =~= Seq::<char>::empty());
        assert(hex(a, upper) + hex(b, upper) =~= hex(a, upper));
    } else {
        law_hex_reads_back(a, b.drop_last(), byte, upper);
        assert((a + b).drop_last() =~= a + b.drop_last());
        assert((a + b).last() == b.last());
        assert(hex(a + b, upper) =~= hex(a, upper) + hex(b, upper));
    }
}

proof fn lemma_digit_run(digits: Seq<char>, rest: Seq<char>)
    requires
        forall|i: int| 0 <= i < digits.len() ==> '0' <= #[trigger] digits[i] <= '9',
        rest.len() > 0 ==> !('0' <= rest[0] <= '9'),
    ensures
        digit_run(digits + rest) == digits.len(),
    decreases digits.len(),
{
    if digits.len() > 0 {
        assert((digits + rest)[0] == digits[0]);
        assert((digits + rest).skip(1) =~= digits.skip(1) + rest);
        lemma_digit_run(digits.skip(1), rest);
    } else {
        assert(digits + rest =~= rest);
    }
}

/// Whole numbers and decimal fractions, with or without a sign, are numbers.
pub proof fn law_decimals_are_numbers(whole: Seq<char>, fraction: Seq<char>)
    requires
        forall|i: int| 0 <= i < whole.len() ==> '0' <= #[trigger] whole[i] <= '9',
        forall|i: int| 0 <= i < fraction.len() ==> '0' <= #[trigger] fraction[i] <= '9',
        whole.len() > 0,
    ensures
        is_float_text(whole),
        is_float_text(seq!['-'] + whole),
        is_float_text(whole + seq!['.'] + fraction),
        is_float_text(seq!['-'] + whole + seq!['.'] + fraction),
{
    let none = Seq::<char>::empty();
    lemma_digit_run(whole, none);
    assert(whole + none =~= whole);
    assert(whole.skip(whole.len() as int) =~= none);
    assert(is_decimal_number(whole));
    let s = whole + seq!['.'] + fraction;
    assert(s =~= whole + (seq!['.'] + fraction));
    lemma_digit_run(whole, seq!['.'] + fraction);
    assert(s.skip(whole.len() as int) =~= seq!['.'] + fraction);
    assert((seq!['.'] + fraction).skip(1) =~= fraction);
    lemma_digit_run(fraction, none);
    assert(fraction + none =~= fraction);
    assert(fraction.skip(fraction.len() as int) =~= none);
    assert(is_decimal_number(s));
    assert((seq!['-'] + whole).skip(1) =~= whole);
    assert((seq!['-'] + whole + seq!['.'] + fraction).skip(1) =~= s);
    assert(unsigned_part(whole) == whole);
    assert(s[0] == whole[0]);
    assert(unsigned_part(s) == s);
    assert((seq!['-'] + whole + seq!['.'] + fraction)[0] == '-');
}

/// A text that begins neither like a number nor like one of the names for what
/// is none is no number; nor is nothing.
pub proof fn law_other_texts_are_no_numbers(s: Seq<char>)
    ensures
        s.len() == 0 ==> !is_float_text(s),
        s.len() > 0 && !('0' <= s[0] <= '9') && s[0] != '+' && s[0] != '-' && s[0] != '.' && s[0]
            != 'i' && s[0] != 'I' && s[0] != 'n' && s[0] != 'N' ==> !is_float_text(s),
{
    reveal_strlit("inf");
    reveal_strlit("infinity");
    reveal_strlit("nan");
    assert("inf"@.len() == 3 && "infinity"@.len() == 8 && "nan"@.len() == 3);
    assert("inf"@[0] == 'i' && "infinity"@[0] == 'i' && "nan"@[0] == 'n');
    if s.len() > 0 {
        let t = unsigned_part(s);
        if t == s {
            if text::same_ignoring_case(t, "inf"@) {
                assert(text::ascii_lower(t[0]) == text::ascii_lower("inf"@[0]));
            }
            if text::same_ignoring_case(t, "infinity"@) {
                assert(text::ascii_lower(t[0]) == text::ascii_lower("infinity"@[0]));
            }
            if text::same_ignoring_case(t, "nan"@) {
                assert(text::ascii_lower(t[0]) == text::ascii_lower("nan"@[0]));
            }
            assert(s.skip(0) =~= s);
        }
    }
}

/// A number written in decimal has nothing in it but digits: no white space to
/// trim, and no separator.
pub proof fn lemma_decimal_is_bare(n: nat)
    ensures
        decimal(n).len() > 0,
        text::trimmed(decimal(n)) == decimal(n),
        forall|i: int| 0 <= i < decimal(n).len() ==> !text::is_space(#[trigger] decimal(n)[i]),
        forall|i: int| 0 <= i < decimal(n).len() ==> '0' <= #[trigger] decimal(n)[i] <= '9',
{
    law_decimal_is_plain(n);
    text::law_trimming_takes_the_blanks_off_the_ends(Seq::empty(), decimal(n), Seq::empty());
    assert forall|i: int| 0 <= i < decimal(n).len() implies !text::is_space(
        #[trigger] decimal(n)[i],
    ) by {
        assert('0' <= decimal(n)[i] <= '9');
    }
}

/// An exponent may follow a number: an `e` of either case, perhaps a sign, and at
/// least one digit. A fraction needs nothing before its point.
pub proof fn law_exponents_are_parts_of_numbers(
    whole: Seq<char>,
    fraction: Seq<char>,
    power: Seq<char>,
)
    requires
        forall|i: int| 0 <= i < whole.len() ==> '0' <= #[trigger] whole[i] <= '9',
        forall|i: int| 0 <= i < fraction.len() ==> '0' <= #[trigger] fraction[i] <= '9',
        forall|i: int| 0 <= i < power.len() ==> '0' <= #[trigger] power[i] <= '9',
        whole.len() > 0,
        fraction.len() > 0,
        power.len() > 0,
    ensures
        is_float_text(whole + seq!['e'] + power),
        is_float_text(whole + seq!['E', '-'] + power),
        is_float_text(whole + seq!['.'] + fraction + seq!['e', '+'] + power),
        is_float_text(seq!['.'] + fraction),
        !is_float_text(whole + seq!['e']),
        !is_float_text(whole + seq!['e', '-']),
        !is_float_text(seq!['.']),
{
    let none = Seq::<char>::empty();
    lemma_exponent(seq!['e'], power);
    lemma_exponent(seq!['E', '-'], power);
    lemma_exponent(seq!['e', '+'], power);
    lemma_number_and_rest(whole, seq!['e'] + power);
    assert(whole + seq!['e'] + power =~= whole + (seq!['e'] + power));
    lemma_number_and_rest(whole, seq!['E', '-'] + power);
    assert(whole + seq!['E', '-'] + power =~= whole + (seq!['E', '-'] + power));
    let tail = seq!['e', '+'] + power;
    lemma_point_and_rest(whole, fraction, tail);
    assert(whole + seq!['.'] + fraction + seq!['e', '+'] + power =~= whole + seq!['.'] + fraction
        + tail);
    lemma_point_and_rest(none, fraction, none);
    assert(none + seq!['.'] + fraction + none =~= seq!['.'] + fraction);
    lemma_number_and_rest(whole, seq!['e']);
    lemma_number_and_rest(whole, seq!['e', '-']);
    lemma_point_and_rest(none, none, none);
    assert(none + seq!['.'] + none + none =~= seq!['.']);
    assert(seq!['e'].skip(1) =~= none);
    assert(seq!['e', '-'].skip(1) =~= seq!['-']);
    assert(seq!['-'].skip(1) =~= none);
    assert(!is_exponent(seq!['e']));
    assert(!is_exponent(seq!['e', '-']));
}

proof fn lemma_exponent(mark: Seq<char>, power: Seq<char>)
    requires
        mark == seq!['e'] || mark == seq!['E', '-'] || mark == seq!['e', '+'],
        forall|i: int| 0 <= i < power.len() ==> '0' <= #[trigger] power[i] <= '9',
        power.len() > 0,
    ensures
        is_exponent(mark + power),
{
    let s = mark + power;
    lemma_digit_run(power, Seq::empty());
    assert(power + Seq::<char>::empty() =~= power);
    assert(s[0] == mark[0]);
    if mark.len() == 1 {
        assert(s.skip(1) =~= power);
        assert(unsigned_part(power) == power);
    } else {
        assert(s.skip(1) =~= seq![mark[1]] + power);
        assert(unsigned_part(s.skip(1)) =~= power);
    }
}

/// Digits with something behind them are a number just where that is an exponent.
proof fn lemma_number_and_rest(whole: Seq<char>, rest: Seq<char>)
    requires
        forall|i: int| 0 <= i < whole.len() ==> '0' <= #[trigger] whole[i] <= '9',
        whole.len() > 0,
        rest.len() > 0 ==> !('0' <= rest[0] <= '9') && rest[0] != '.',
    ensures
        is_float_text(whole + rest) == is_exponent(rest),
{
    let s = whole + rest;
    lemma_digit_run(whole, rest);
    assert(s[0] == whole[0]);
    assert(s.skip(whole.len() as int) =~= rest);
    lemma_no_name(s);
}

proof fn lemma_point_and_rest(whole: Seq<char>, fraction: Seq<char>, rest: Seq<char>)
    requires
        forall|i: int| 0 <= i < whole.len() ==> '0' <= #[trigger] whole[i] <= '9',
        forall|i: int| 0 <= i < fraction.len() ==> '0' <= #[trigger] fraction[i] <= '9',
        rest.len() > 0 ==> !('0' <= rest[0] <= '9'),
    ensures
        is_float_text(whole + seq!['.'] + fraction + rest) == (whole.len() + fraction.len() > 0
            && is_exponent(rest)),
{
    let s = whole + seq!['.'] + fraction + rest;
    let after = fraction + rest;
    assert(s =~= whole + (seq!['.'] + after));
    lemma_digit_run(whole, seq!['.'] + after);
    assert(s.skip(whole.len() as int) =~= seq!['.'] + after);
    assert((seq!['.'] + after).skip(1) =~= after);
    lemma_digit_run(fraction, rest);
    assert(after.skip(fraction.len() as int) =~= rest);
    if whole.len() > 0 {
        assert(s[0] == whole[0]);
    } else {
        assert(s[0] == '.');
    }
    lemma_no_name(s);
}

/// A text that begins with a digit or a point is no name for an infinity or a
/// NaN, and has no sign.
proof fn lemma_no_name(s: Seq<char>)
    requires
        s.len() > 0,
        '0' <= s[0] <= '9' || s[0] == '.',
    ensures
        unsigned_part(s) == s,
        is_float_text(s) == is_decimal_number(s),
{
    reveal_strlit("inf");
    reveal_strlit("infinity");
    reveal_strlit("nan");
    assert("inf"@[0] == 'i' && "infinity"@[0] == 'i' && "nan"@[0] == 'n');
    if text::same_ignoring_case(s, "inf"@) {
        assert(text::ascii_lower(s[0]) == text::ascii_lower("inf"@[0]));
    }
    if text::same_ignoring_case(s, "infinity"@) {
        assert(text::ascii_lower(s[0]) == text::ascii_lower("infinity"@[0]));
    }
    if text::same_ignoring_case(s, "nan"@) {
        assert(text::ascii_lower(s[0]) == text::ascii_lower("nan"@[0]));
    }
}

/// What is no digit, point or exponent cannot follow the digits of a number.
pub proof fn law_nothing_else_follows_a_number(whole: Seq<char>, c: char, rest: Seq<char>)
    requires
        forall|i: int| 0 <= i < whole.len() ==> '0' <= #[trigger] whole[i] <= '9',
        whole.len() > 0,
        !('0' <= c <= '9') && c != '.' && c != 'e' && c != 'E',
    ensures
        !is_float_text(whole + seq![c] + rest),
{
    lemma_number_and_rest(whole, seq![c] + rest);
    assert(whole + seq![c] + rest =~= whole + (seq![c] + rest));
    assert((seq![c] + rest)[0] == c);
}

/// Infinities and NaN have names, in whatever case and with either sign.
pub proof fn law_infinities_have_names(t: Seq<char>)
    requires
        text::same_ignoring_case(t, "inf"@) || text::same_ignoring_case(t, "infinity"@)
            || text::same_ignoring_case(t, "nan"@),
    ensures
        is_float_text(t),
        is_float_text(seq!['-'] + t),
        is_float_text(seq!['+'] + t),
{
    reveal_strlit("inf");
    reveal_strlit("infinity");
    reveal_strlit("nan");
    assert("inf"@.len() == 3 && "infinity"@.len() == 8 && "nan"@.len() == 3);
    assert("inf"@[0] == 'i' && "infinity"@[0] == 'i' && "nan"@[0] == 'n');
    assert(t.len() > 0);
    assert(text::ascii_lower(t[0]) == 'i' || text::ascii_lower(t[0]) == 'n');
    assert(t[0] != '+' && t[0] != '-');
    assert((seq!['-'] + t).skip(1) =~= t);
    assert((seq!['+'] + t).skip(1) =~= t);
}

} // verus!
