//! Numbers written in a text, read as counts; and integers, written in decimal.
//!
//! A count is a `u64`. An integer that fits is taken as it stands; any other number goes
//! through binary64: it is rounded to the nearest such number, its fraction is dropped, and
//! what lies outside the range of a `u64` is moved to the nearer end of it.

use crate::binary64::{bit_length, law_nearest_is_close, law_small_integers_are_exact, lemma_bit_length_at_most, lemma_bit_length_bounds, lemma_round_by_parts, nearest};
use crate::decimal::{are_digits, decimal_reading, digits_value, lemma_digits_value_bound, lemma_digits_value_front, lemma_digits_value_grows, lemma_far_point, lemma_nearest_below_precision, lemma_nearest_large, lemma_power_of_ten_positive, power_of_ten, read_decimal, saturated, whole_part};
use crate::text::{lemma_run_ends, run};
use vstd::arithmetic::power::pow;
use vstd::arithmetic::power2::{lemma2_to64, lemma2_to64_rest, lemma_pow2_pos, lemma_pow2_strictly_increases, lemma_pow2_unfold, pow2};
use vstd::prelude::*;

verus! {

/// No exponent of this size or more is told apart from another: no digit string is long enough
/// to make up for it.
const FAR: i128 = 1_000_000_000_000_000_000_000_000_000_000;

/// `c` is a decimal digit.
pub open spec fn is_digit(c: char) -> bool {
    '0' <= c <= '9'
}

/// The characters that a digit string is made of.
pub open spec fn in_digits() -> spec_fn(char) -> bool {
    |c: char| is_digit(c)
}

/// The value of the digit character `c`.
pub open spec fn digit_of(c: char) -> u8 {
    (c as int - '0' as int) as u8
}

/// The values of the digit characters in `s`.
pub open spec fn digits_of(s: Seq<char>) -> Seq<u8> {
    s.map_values(|c: char| digit_of(c))
}

/// `s` is a digit string, and not an empty one.
pub open spec fn is_digit_string(s: Seq<char>) -> bool {
    s.len() > 0 && run(s, in_digits()) == s.len()
}

/// The first character of `s` is `c`.
pub open spec fn starts_with_char(s: Seq<char>, c: char) -> bool {
    s.len() > 0 && s[0] == c
}

/// `s` without the sign in front of it, if there is one.
pub open spec fn without_sign(s: Seq<char>) -> Seq<char> {
    if starts_with_char(s, '+') || starts_with_char(s, '-') {
        s.skip(1)
    } else {
        s
    }
}

/// An unsigned integer: digits, with or without a plus sign, that write what fits in a `u64`.
pub open spec fn integer_reading(s: Seq<char>) -> Option<u64> {
    let body = if starts_with_char(s, '+') {
        s.skip(1)
    } else {
        s
    };
    if is_digit_string(body) && digits_value(digits_of(body)) <= u64::MAX {
        Some(digits_value(digits_of(body)) as u64)
    } else {
        None
    }
}

/// What follows the mantissa: nothing, or an `e` with a signed integer.
pub open spec fn exponent(s: Seq<char>) -> Option<int> {
    if s.len() == 0 {
        Some(0)
    } else if s[0] == 'e' || s[0] == 'E' {
        signed_integer(s.skip(1))
    } else {
        None
    }
}

/// An integer with or without a sign.
pub open spec fn signed_integer(s: Seq<char>) -> Option<int> {
    let body = without_sign(s);
    if !is_digit_string(body) {
        None
    } else if starts_with_char(s, '-') {
        Some(-digits_value(digits_of(body)))
    } else {
        Some(digits_value(digits_of(body)) as int)
    }
}

/// A number without a sign: digits, with or without a decimal point at any place among them,
/// and an exponent if one follows.
pub open spec fn number_reading(s: Seq<char>) -> Option<u64> {
    let before = run(s, in_digits());
    let rest = s.skip(before as int);
    let dotted = starts_with_char(rest, '.');
    let after = if dotted {
        rest.skip(1)
    } else {
        rest
    };
    let behind = if dotted {
        run(after, in_digits())
    } else {
        0
    };
    let tail = after.skip(behind as int);
    let digits = digits_of(s.take(before as int)) + digits_of(after.take(behind as int));
    if before + behind == 0 {
        None
    } else {
        scaled_reading(digits, before, tail)
    }
}

/// The digits with the decimal point behind the first `before` of them, moved by the exponent
/// that `tail` holds.
pub open spec fn scaled_reading(digits: Seq<u8>, before: nat, tail: Seq<char>) -> Option<u64> {
    match exponent(tail) {
        None => None,
        Some(e) => Some(decimal_reading(digits, before + e)),
    }
}

/// The letter without its case; other characters stay.
pub open spec fn lower(c: char) -> char {
    if 'A' <= c <= 'Z' {
        (c as int + 32) as char
    } else {
        c
    }
}

/// `s` is the word `w`, in whatever case it is written.
pub open spec fn is_word(s: Seq<char>, w: Seq<char>) -> bool {
    s.len() == w.len() && forall|i: int| 0 <= i < s.len() ==> lower(#[trigger] s[i]) == w[i]
}

/// `s` is one of the words for infinity.
pub open spec fn is_infinity(s: Seq<char>) -> bool {
    is_word(s, seq!['i', 'n', 'f']) || is_word(s, seq!['i', 'n', 'f', 'i', 'n', 'i', 't', 'y'])
}

/// `s` is the word for what is not a number.
pub open spec fn is_not_a_number(s: Seq<char>) -> bool {
    is_word(s, seq!['n', 'a', 'n'])
}

/// A floating-point number, read as a count: what is negative or not a number counts nothing.
pub open spec fn float_reading(s: Seq<char>) -> Option<u64> {
    let body = without_sign(s);
    let magnitude = if is_infinity(body) {
        Some(u64::MAX)
    } else if is_not_a_number(body) {
        Some(0u64)
    } else {
        number_reading(body)
    };
    if magnitude is Some && starts_with_char(s, '-') {
        Some(0u64)
    } else {
        magnitude
    }
}

/// A number, read as a count.
pub open spec fn count_reading(s: Seq<char>) -> Option<u64> {
    match integer_reading(s) {
        Some(n) => Some(n),
        None => float_reading(s),
    }
}

/// Digit characters have digit values.
proof fn lemma_digits_of(s: Seq<char>)
    requires
        forall|i: int| 0 <= i < s.len() ==> is_digit(#[trigger] s[i]),
    ensures
        are_digits(digits_of(s)),
{
}

/// The value of the digit character `c`.
fn digit(c: char) -> (r: u8)
    requires
        is_digit(c),
    ensures
        r == digit_of(c),
        r <= 9,
{
    (c as u32 - '0' as u32) as u8
}

/// Where the digits that begin at `from` end.
fn end_of_digits(s: &Vec<char>, from: usize) -> (end: usize)
    requires
        from <= s@.len(),
    ensures
        from <= end <= s@.len(),
        end - from == run(s@.skip(from as int), in_digits()),
        forall|i: int| from <= i < end ==> is_digit(#[trigger] s@[i]),
{
    let mut end: usize = from;
    while end < s.len() && '0' <= s[end] && s[end] <= '9'
        invariant
            from <= end <= s@.len(),
            forall|i: int| from <= i < end ==> is_digit(#[trigger] s@[i]),
        decreases s@.len() - end,
    {
        end = end + 1;
    }
    proof {
        lemma_run_ends(s@.skip(from as int), in_digits(), (end - from) as nat);
    }
    end
}

/// Appends the digits that stand from `from` up to `to`.
fn push_digits(digits: &mut Vec<u8>, s: &Vec<char>, from: usize, to: usize)
    requires
        from <= to <= s@.len(),
        forall|i: int| from <= i < to ==> is_digit(#[trigger] s@[i]),
    ensures
        final(digits)@ == old(digits)@ + digits_of(s@.subrange(from as int, to as int)),
{
    let mut i: usize = from;
    proof {
        assert(digits@ =~= old(digits)@ + digits_of(s@.subrange(from as int, from as int)));
    }
    while i < to
        invariant
            from <= i <= to <= s@.len(),
            forall|i: int| from <= i < to ==> is_digit(#[trigger] s@[i]),
            digits@ == old(digits)@ + digits_of(s@.subrange(from as int, i as int)),
        decreases to - i,
    {
        digits.push(digit(s[i]));
        i = i + 1;
        proof {
            assert(digits@ =~= old(digits)@ + digits_of(s@.subrange(from as int, i as int)));
        }
    }
}

/// Reads the unsigned integer that begins at `from`, if that is what stands there.
fn read_digits(s: &Vec<char>, from: usize) -> (r: Option<u64>)
    requires
        from <= s@.len(),
    ensures
        r == ({
            let body = s@.skip(from as int);
            if is_digit_string(body) && digits_value(digits_of(body)) <= u64::MAX {
                Some(digits_value(digits_of(body)) as u64)
            } else {
                None
            }
        }),
{
    let end = end_of_digits(s, from);
    if end < s.len() || end == from {
        return None;
    }
    let ghost body = s@.skip(from as int);
    let mut total: u64 = 0;
    let mut i: usize = from;
    proof {
        assert(digits_of(body).take(0) =~= Seq::<u8>::empty());
    }
    while i < end
        invariant
            from <= i <= end == s@.len(),
            body == s@.skip(from as int),
            forall|i: int| from <= i < end ==> is_digit(#[trigger] s@[i]),
            total == digits_value(digits_of(body).take(i - from)),
        decreases end - i,
    {
        let d: u64 = digit(s[i]) as u64;
        proof {
            let k = i - from;
            assert(digits_of(body).take(k + 1).drop_last() =~= digits_of(body).take(k));
            assert(digits_of(body).take(k + 1).last() == d);
            lemma_digits_value_grows(
                digits_of(body),
                k + 1,
                digits_of(body).len() as int,
            );
            assert(digits_of(body).take(digits_of(body).len() as int) =~= digits_of(body));
        }
        if total > (u64::MAX - d) / 10 {
            return None;
        }
        total = total * 10 + d;
        i = i + 1;
    }
    proof {
        assert(digits_of(body).take(end - from) =~= digits_of(body));
    }
    Some(total)
}

/// The far exponents of one sign stand for each other; any other only for itself.
spec fn stands_for(e: int, exact: int) -> bool {
    ||| e == exact
    ||| FAR <= exact && FAR <= e
    ||| exact <= -FAR && e <= -FAR
}

/// Reads the signed integer that begins at `from`; for a far one another may come out.
fn read_signed(s: &Vec<char>, from: usize) -> (r: Option<i128>)
    requires
        from <= s@.len(),
    ensures
        r is Some <==> signed_integer(s@.skip(from as int)) is Some,
        r matches Some(e) ==> -(10 * FAR + 9) <= e <= 10 * FAR + 9 && stands_for(
            e as int,
            signed_integer(s@.skip(from as int))->0,
        ),
{
    let signed: bool = from < s.len() && (s[from] == '+' || s[from] == '-');
    let negative: bool = from < s.len() && s[from] == '-';
    let start: usize = if signed {
        from + 1
    } else {
        from
    };
    let end = end_of_digits(s, start);
    let ghost body = s@.skip(start as int);
    proof {
        assert(without_sign(s@.skip(from as int)) =~= body);
    }
    if end < s.len() || end == start {
        return None;
    }
    let mut total: i128 = 0;
    let mut i: usize = start;
    proof {
        assert(digits_of(body).take(0) =~= Seq::<u8>::empty());
    }
    while i < end
        invariant
            start <= i <= end == s@.len(),
            body == s@.skip(start as int),
            forall|i: int| start <= i < end ==> is_digit(#[trigger] s@[i]),
            0 <= total <= 10 * FAR + 9,
            total < FAR ==> total == digits_value(digits_of(body).take(i - start)),
            total >= FAR ==> digits_value(digits_of(body).take(i - start)) >= FAR,
        decreases end - i,
    {
        let d: i128 = digit(s[i]) as i128;
        proof {
            let k = i - start;
            assert(digits_of(body).take(k + 1).drop_last() =~= digits_of(body).take(k));
            assert(digits_of(body).take(k + 1).last() == d);
        }
        if total < FAR {
            total = total * 10 + d;
        }
        i = i + 1;
    }
    proof {
        assert(digits_of(body).take(end - start) =~= digits_of(body));
    }
    if negative {
        Some(-total)
    } else {
        Some(total)
    }
}

/// Reads the exponent that begins at `from`; for a far one another may come out.
fn read_exponent(s: &Vec<char>, from: usize) -> (r: Option<i128>)
    requires
        from <= s@.len(),
    ensures
        r is Some <==> exponent(s@.skip(from as int)) is Some,
        r matches Some(e) ==> -(10 * FAR + 9) <= e <= 10 * FAR + 9 && stands_for(
            e as int,
            exponent(s@.skip(from as int))->0,
        ),
{
    if from == s.len() {
        Some(0)
    } else if s[from] == 'e' || s[from] == 'E' {
        proof {
            assert(s@.skip(from as int).skip(1) =~= s@.skip(from + 1));
        }
        read_signed(s, from + 1)
    } else {
        None
    }
}

/// Reads the digits with the decimal point behind the first `before` of them, moved by the
/// exponent that begins at `from`.
fn read_scaled(digits: &Vec<u8>, before: usize, s: &Vec<char>, from: usize) -> (r: Option<u64>)
    requires
        are_digits(digits@),
        before <= digits@.len(),
        from <= s@.len(),
    ensures
        r == scaled_reading(digits@, before as nat, s@.skip(from as int)),
{
    match read_exponent(s, from) {
        None => None,
        Some(e) => {
            let point: i128 = before as i128 + e;
            proof {
                let exact = exponent(s@.skip(from as int))->0;
                assert(digits.len() <= usize::MAX);
                if exact != e {
                    lemma_far_point(digits@, point as int, before + exact);
                }
            }
            Some(read_decimal(digits, point))
        },
    }
}

/// Reads the unsigned number that begins at `from`, if that is what stands there.
#[verifier::spinoff_prover]
fn read_number(s: &Vec<char>, from: usize) -> (r: Option<u64>)
    requires
        from <= s@.len(),
    ensures
        r == number_reading(s@.skip(from as int)),
{
    let middle = end_of_digits(s, from);
    let dotted: bool = middle < s.len() && s[middle] == '.';
    let start: usize = if dotted {
        middle + 1
    } else {
        middle
    };
    let end = if dotted {
        end_of_digits(s, start)
    } else {
        middle
    };
    proof {
        let body = s@.skip(from as int);
        let rest = body.skip(middle - from);
        let after = s@.skip(start as int);
        assert(rest =~= s@.skip(middle as int));
        if dotted {
            assert(rest.skip(1) =~= after);
        }
        assert(after.skip(end - start) =~= s@.skip(end as int));
        assert(after.take(end - start) =~= s@.subrange(start as int, end as int));
        assert(body.take(middle - from) =~= s@.subrange(from as int, middle as int));
    }
    if middle == from && end == start {
        return None;
    }
    let mut digits: Vec<u8> = Vec::new();
    push_digits(&mut digits, s, from, middle);
    push_digits(&mut digits, s, start, end);
    proof {
        lemma_digits_of(s@.subrange(from as int, middle as int));
        lemma_digits_of(s@.subrange(start as int, end as int));
        assert(digits@ =~= digits_of(s@.subrange(from as int, middle as int)) + digits_of(
            s@.subrange(start as int, end as int),
        ));
    }
    read_scaled(&digits, middle - from, s, end)
}

/// The letter `c` without its case.
fn lower_of(c: char) -> (r: char)
    ensures
        r == lower(c),
{
    if 'A' <= c && c <= 'Z' {
        (c as u8 + 32) as char
    } else {
        c
    }
}

/// Whether the word `w` stands from `from` to the end.
fn is_word_from(s: &Vec<char>, from: usize, w: &[char]) -> (r: bool)
    requires
        from <= s@.len(),
    ensures
        r == is_word(s@.skip(from as int), w@),
{
    let len: usize = s.len();
    if len - from != w.len() {
        return false;
    }
    let ghost body = s@.skip(from as int);
    let mut i: usize = 0;
    while i < w.len()
        invariant
            from <= s@.len(),
            body == s@.skip(from as int),
            body.len() == w@.len(),
            len == s@.len(),
            i <= w@.len(),
            forall|j: int| 0 <= j < i ==> lower(#[trigger] body[j]) == w@[j],
        decreases w@.len() - i,
    {
        assert(body[i as int] == s@[from + i]);
        if lower_of(s[from + i]) != w[i] {
            return false;
        }
        i = i + 1;
    }
    true
}

/// Reads a number as a count, if it is one.
pub fn read_count(s: &Vec<char>) -> (r: Option<u64>)
    ensures
        r == count_reading(s@),
{
    let plus: bool = s.len() > 0 && s[0] == '+';
    let negative: bool = s.len() > 0 && s[0] == '-';
    proof {
        assert(s@.skip(0) =~= s@);
    }
    let integer = read_digits(
        s,
        if plus {
            1
        } else {
            0
        },
    );
    if integer.is_some() {
        return integer;
    }
    let from: usize = if plus || negative {
        1
    } else {
        0
    };
    let magnitude: Option<u64> = if is_word_from(s, from, &['i', 'n', 'f']) || is_word_from(
        s,
        from,
        &['i', 'n', 'f', 'i', 'n', 'i', 't', 'y'],
    ) {
        Some(u64::MAX)
    } else if is_word_from(s, from, &['n', 'a', 'n']) {
        Some(0)
    } else {
        read_number(s, from)
    };
    if magnitude.is_some() && negative {
        Some(0)
    } else {
        magnitude
    }
}

/// An integer that fits is read as it stands, also where binary64 has no such number.
pub proof fn law_integers_are_read_exactly(s: Seq<char>)
    requires
        is_digit_string(s),
        digits_value(digits_of(s)) <= u64::MAX,
    ensures
        count_reading(s) == Some(digits_value(digits_of(s)) as u64),
{
    assert(is_digit(s[0]));
}

/// A negative number counts nothing.
pub proof fn law_negative_numbers_count_nothing(s: Seq<char>)
    requires
        starts_with_char(s, '-'),
        count_reading(s) is Some,
    ensures
        count_reading(s) == Some(0u64),
{
    assert(!is_digit(s[0]));
}

/// The decimal digit for `d`.
pub open spec fn digit_char(d: nat) -> char {
    ('0' as nat + d) as char
}

/// `n` in decimal, without leading zeros.
pub open spec fn decimal_text(n: nat) -> Seq<char>
    decreases n,
{
    if n < 10 {
        seq![digit_char(n)]
    } else {
        decimal_text(n / 10).push(digit_char(n % 10))
    }
}

/// Writes one decimal digit.
fn digit_text(d: u64) -> (r: &'static str)
    requires
        d < 10,
    ensures
        r@ == seq![digit_char(d as nat)],
{
    proof {
        reveal_strlit("0");
        reveal_strlit("1");
        reveal_strlit("2");
        reveal_strlit("3");
        reveal_strlit("4");
        reveal_strlit("5");
        reveal_strlit("6");
        reveal_strlit("7");
        reveal_strlit("8");
        reveal_strlit("9");
    }
    match d {
        0 => "0",
        1 => "1",
        2 => "2",
        3 => "3",
        4 => "4",
        5 => "5",
        6 => "6",
        7 => "7",
        8 => "8",
        _ => "9",
    }
}

/// Writes `n` in decimal.
pub fn write_count(n: u64) -> (r: String)
    ensures
        r@ == decimal_text(n as nat),
    decreases n,
{
    if n < 10 {
        digit_text(n).to_owned()
    } else {
        let mut text = write_count(n / 10);
        text.append(digit_text(n % 10));
        assert(text@ =~= decimal_text(n as nat / 10).push(digit_char(n as nat % 10)));
        text
    }
}

/// The decimal digit for `d` is a digit, and its value is `d`.
proof fn lemma_digit_char(d: nat)
    requires
        d < 10,
    ensures
        is_digit(digit_char(d)),
        digit_of(digit_char(d)) == d,
{
    let c = digit_char(d);
    assert('0' as nat == 48);
    assert(c as nat == 48 + d);
    assert(is_digit(c));
}

/// What a number written in decimal is as digits.
pub proof fn lemma_decimal_text(n: nat)
    ensures
        decimal_text(n).len() > 0,
        forall|i: int| 0 <= i < decimal_text(n).len() ==> is_digit(#[trigger] decimal_text(n)[i]),
        digits_value(digits_of(decimal_text(n))) == n,
    decreases n,
{
    let digits = digits_of(decimal_text(n));
    lemma_digit_char(n % 10);
    if n < 10 {
        assert(digits.drop_last() =~= Seq::<u8>::empty());
        assert(digits_value(digits.drop_last()) == 0);
        assert(digits.last() == n);
    } else {
        lemma_decimal_text(n / 10);
        assert(digits.drop_last() =~= digits_of(decimal_text(n / 10)));
        assert(digits.last() == n % 10);
    }
}

/// A count that is written in decimal is read back as it was.
pub proof fn law_written_counts_are_read_back(n: u64)
    ensures
        count_reading(decimal_text(n as nat)) == Some(n),
{
    lemma_decimal_text(n as nat);
    lemma_run_ends(decimal_text(n as nat), in_digits(), decimal_text(n as nat).len());
    law_integers_are_read_exactly(decimal_text(n as nat));
}

/// `n` in decimal, with a minus sign where it is negative.
pub open spec fn integer_text(n: int) -> Seq<char> {
    if n < 0 {
        "-"@ + decimal_text((-n) as nat)
    } else {
        decimal_text(n as nat)
    }
}

/// A count that is written is read back: what one call writes, another reads.
pub proof fn law_write_and_read(n: u64, text: String, s: Vec<char>, r: Option<u64>)
    requires
        call_ensures(write_count, (n,), text),
        s@ == text@,
        call_ensures(read_count, (&s,), r),
    ensures
        r == Some(n),
{
    law_written_counts_are_read_back(n);
}

/// A number is written as the number without its last digit, and that digit behind it; a digit
/// alone is written as itself.
pub proof fn law_digits_are_written_in_order(n: u64, tens: u64, a: String, b: String)
    requires
        call_ensures(write_count, (n,), a),
        call_ensures(write_count, (tens,), b),
        tens == n / 10,
    ensures
        a@.len() > 0,
        a@.last() as u32 == 0x30 + n % 10,
        n >= 10 ==> a@.drop_last() == b@,
        n < 10 ==> a@.len() == 1,
{
    lemma_digit_char((n % 10) as nat);
    assert(digit_char((n % 10) as nat) as nat == 48 + n % 10);
    if n >= 10 {
        let text = decimal_text(n as nat);
        assert(text.drop_last() =~= decimal_text(n as nat / 10));
    }
}

/// What the parts of a number that is not an integer alone are.
proof fn lemma_float_body(s: Seq<char>)
    requires
        s.len() > 0,
        is_digit(s[0]),
        !is_digit_string(s),
    ensures
        count_reading(s) == number_reading(s),
{
    assert(!starts_with_char(s, '+') && !starts_with_char(s, '-'));
    assert(lower(s[0]) == s[0]);
    assert(!is_word(s, seq!['i', 'n', 'f']));
    assert(!is_word(s, seq!['i', 'n', 'f', 'i', 'n', 'i', 't', 'y']));
    assert(!is_word(s, seq!['n', 'a', 'n']));
}

/// What a number with a decimal point is read as.
proof fn lemma_point_number(n: nat, f: Seq<char>)
    requires
        forall|i: int| 0 <= i < f.len() ==> is_digit(#[trigger] f[i]),
    ensures
        count_reading(decimal_text(n) + seq!['.'] + f) == Some(
            decimal_reading(
                digits_of(decimal_text(n)) + digits_of(f),
                decimal_text(n).len() as int,
            ),
        ),
{
    let t = decimal_text(n);
    let s = t + seq!['.'] + f;
    let len = t.len() as int;
    lemma_decimal_text(n);
    assert(s[0] == t[0]);
    assert forall|i: int| 0 <= i < len implies in_digits()(#[trigger] s[i]) by {
        assert(s[i] == t[i]);
    }
    assert(s[len] == '.');
    lemma_run_ends(s, in_digits(), t.len());
    lemma_float_body(s);
    let rest = s.skip(len);
    assert(rest[0] == '.');
    assert(rest.skip(1) =~= f);
    assert forall|i: int| 0 <= i < f.len() implies in_digits()(#[trigger] f[i]) by {}
    lemma_run_ends(f, in_digits(), f.len());
    assert(f.skip(f.len() as int) =~= Seq::<char>::empty());
    assert(s.take(len) =~= t);
    assert(f.take(f.len() as int) =~= f);
}

/// A fraction is dropped: a number below `2^49` with a fraction below nine tenths counts as its
/// whole part.
pub proof fn law_fractions_are_dropped(n: nat, f: Seq<char>)
    requires
        n < 0x2_0000_0000_0000,
        forall|i: int| 0 <= i < f.len() ==> '0' <= #[trigger] f[i] <= '9',
        f.len() > 0 ==> f[0] != '9',
    ensures
        count_reading(decimal_text(n) + seq!['.'] + f) == Some(n as u64),
{
    assert forall|i: int| 0 <= i < f.len() implies is_digit(#[trigger] f[i]) by {}
    lemma_point_number(n, f);
    lemma_decimal_text(n);
    let whole = digits_of(decimal_text(n));
    let behind = digits_of(f);
    let digits = whole + behind;
    let point = decimal_text(n).len() as int;
    lemma2_to64();
    lemma2_to64_rest();
    lemma_bit_length_at_most(n, 49);
    assert(digits.take(point) =~= whole);
    assert(digits.skip(point) =~= behind);
    let k = behind.len();
    let v = digits_value(behind);
    let p = power_of_ten(k);
    lemma_power_of_ten_positive(k);
    if k == 0 {
        assert(behind =~= Seq::<u8>::empty());
        assert(digits =~= whole);
        assert(power_of_ten(0) == 1);
        assert(n * power_of_ten(0) == n) by (nonlinear_arith)
            requires
                power_of_ten(0) == 1,
        ;
        law_small_integers_are_exact(n);
    } else {
        lemma_digits_of(f);
        lemma_digits_value_front(behind);
        let low = behind.skip(1);
        assert(are_digits(low));
        lemma_digits_value_bound(low);
        let q = power_of_ten((k - 1) as nat);
        assert(f[0] as u32 <= '8' as u32);
        assert(behind[0] == digit_of(f[0]));
        assert(behind[0] <= 8);
        assert(v < 9 * q) by (nonlinear_arith)
            requires
                v == behind[0] * q + digits_value(low),
                digits_value(low) < q,
                behind[0] <= 8,
        ;
        assert(p == 10 * q);
        let bits = bit_length(n);
        let scale = pow2((53 - bits) as nat);
        lemma_pow2_unfold((53 - bits) as nat);
        if 53 - bits > 4 {
            lemma_pow2_strictly_increases(4, (53 - bits) as nat);
        }
        assert(scale >= 16);
        assert(v * (2 * scale) < (2 * scale - 1) * p) by (nonlinear_arith)
            requires
                v < 9 * q,
                p == 10 * q,
                scale >= 16,
                q >= 1,
        ;
        lemma_nearest_below_precision(n, v, p, scale);
    }
}

/// A number that is too large for 53 bits counts as one that is off by no more than one part in
/// `2^53`, and one beyond what a `u64` holds as the largest that it does.
pub proof fn law_large_numbers_are_close(n: nat) -> (r: u64)
    ensures
        count_reading(decimal_text(n) + seq!['.']) == Some(r),
        n > u64::MAX ==> r == u64::MAX,
        0x20_0000_0000_0000 * (r - n) <= n,
        r < u64::MAX ==> 0x20_0000_0000_0000 * (n - r) <= n,
{
    let none = Seq::<char>::empty();
    lemma_point_number(n, none);
    lemma_decimal_text(n);
    let digits = digits_of(decimal_text(n));
    assert(decimal_text(n) + seq!['.'] + none =~= decimal_text(n) + seq!['.']);
    assert(digits + digits_of(none) =~= digits);
    assert(n * power_of_ten(0) == n) by (nonlinear_arith)
        requires
            power_of_ten(0) == 1,
    ;
    if n > u64::MAX {
        lemma_nearest_large(n, 0, 1);
    }
    let form = law_nearest_is_close(n);
    saturated(nearest(n))
}

/// An exponent counts the places that the decimal point moves: what comes to no more than `2^53`
/// is read exactly.
pub proof fn law_exponents_move_the_point(n: nat, k: nat)
    requires
        n * pow(10, k) <= 0x20_0000_0000_0000,
    ensures
        count_reading(decimal_text(n) + seq!['e'] + decimal_text(k)) == Some(
            (n * pow(10, k)) as u64,
        ),
        count_reading(decimal_text(n) + seq!['E'] + decimal_text(k)) == Some(
            (n * pow(10, k)) as u64,
        ),
{
    lemma_exponent_number(n, 'e', k);
    lemma_exponent_number(n, 'E', k);
    lemma_power_of_ten(k);
    lemma_decimal_text(n);
    let digits = digits_of(decimal_text(n));
    let whole = n * power_of_ten(k);
    assert(whole_part(digits, digits.len() as int + k) == whole);
    lemma2_to64_rest();
    lemma2_to64();
    if whole < pow2(53) {
        lemma_bit_length_at_most(whole, 53);
        law_small_integers_are_exact(whole);
    } else {
        let form = law_nearest_is_close(whole);
        assert(whole == 0x20_0000_0000_0000);
        lemma_power_is_nearest();
    }
}

/// `2^53` is a binary64 number.
proof fn lemma_power_is_nearest()
    ensures
        nearest(0x20_0000_0000_0000) == 0x20_0000_0000_0000,
{
    let n: nat = 0x20_0000_0000_0000;
    lemma2_to64_rest();
    lemma2_to64();
    lemma_bit_length_bounds(n);
    lemma_bit_length_at_most(n, 54);
    let bits = bit_length(n);
    if bits < 54 {
        if bits < 53 {
            lemma_pow2_strictly_increases(bits, 53);
        }
        assert(false);
    }
    assert(pow2(1) == 2);
    lemma_round_by_parts(n, 2, 0x10_0000_0000_0000, 0);
}

/// The powers of ten by another name.
proof fn lemma_power_of_ten(k: nat)
    ensures
        power_of_ten(k) == pow(10, k),
    decreases k,
{
    reveal(pow);
    if k > 0 {
        lemma_power_of_ten((k - 1) as nat);
    }
}

/// What a number with an exponent is read as.
proof fn lemma_exponent_number(n: nat, e: char, k: nat)
    requires
        e == 'e' || e == 'E',
    ensures
        count_reading(decimal_text(n) + seq![e] + decimal_text(k)) == Some(
            decimal_reading(
                digits_of(decimal_text(n)),
                digits_of(decimal_text(n)).len() as int + k,
            ),
        ),
{
    let t = decimal_text(n);
    let x = decimal_text(k);
    let s = t + seq![e] + x;
    let len = t.len() as int;
    lemma_decimal_text(n);
    lemma_decimal_text(k);
    assert(s[0] == t[0]);
    assert forall|i: int| 0 <= i < len implies in_digits()(#[trigger] s[i]) by {
        assert(s[i] == t[i]);
    }
    assert(s[len] == e);
    lemma_run_ends(s, in_digits(), t.len());
    lemma_float_body(s);
    let rest = s.skip(len);
    assert(rest[0] == e);
    assert(rest.skip(0) =~= rest);
    assert(rest.take(0) =~= Seq::<char>::empty());
    assert(s.take(len) =~= t);
    assert(digits_of(t) + digits_of(rest.take(0)) =~= digits_of(t));
    assert(rest.skip(1) =~= x);
    assert(is_digit(x[0]));
    lemma_run_ends(x, in_digits(), x.len());
    assert(exponent(rest) == Some(k as int));
}

/// A sign in front: with a plus a number counts as without it, with a minus it counts nothing.
pub proof fn law_signs(n: u64)
    ensures
        count_reading(seq!['+'] + decimal_text(n as nat)) == Some(n),
        count_reading(seq!['-'] + decimal_text(n as nat)) == Some(0u64),
{
    let t = decimal_text(n as nat);
    lemma_decimal_text(n as nat);
    lemma_run_ends(t, in_digits(), t.len());
    let plus = seq!['+'] + t;
    assert(plus.skip(1) =~= t);
    let minus = seq!['-'] + t;
    assert(minus.skip(1) =~= t);
    assert(!in_digits()(minus[0]));
    lemma_run_ends(minus, in_digits(), 0);
    assert(is_digit(t[0]) && lower(t[0]) == t[0]);
    assert(!is_infinity(t) && !is_not_a_number(t));
    assert(t.skip(t.len() as int) =~= Seq::<char>::empty());
}

/// A text that begins with neither a digit, a sign, a point nor a letter of the words for
/// infinity and for what is not a number is no number; nor is an empty one.
pub proof fn law_other_texts_are_no_numbers(s: Seq<char>)
    requires
        s.len() > 0 ==> !('0' <= s[0] <= '9') && s[0] != '+' && s[0] != '-' && s[0] != '.' && s[0]
            != 'i' && s[0] != 'I' && s[0] != 'n' && s[0] != 'N',
    ensures
        count_reading(s) is None,
{
    lemma_run_ends(s, in_digits(), 0);
    assert(s.skip(0) =~= s);
    assert(!is_infinity(s) && !is_not_a_number(s));
}

/// The words for infinity count as the largest number, in lower and in upper case, and the word
/// for what is not a number counts nothing.
pub proof fn law_words_for_numbers()
    ensures
        count_reading(seq!['i', 'n', 'f']) == Some(u64::MAX),
        count_reading(seq!['I', 'N', 'F']) == Some(u64::MAX),
        count_reading(seq!['i', 'n', 'f', 'i', 'n', 'i', 't', 'y']) == Some(u64::MAX),
        count_reading(seq!['n', 'a', 'n']) == Some(0u64),
        count_reading(seq!['N', 'a', 'N']) == Some(0u64),
{
    let texts = seq![
        seq!['i', 'n', 'f'],
        seq!['I', 'N', 'F'],
        seq!['i', 'n', 'f', 'i', 'n', 'i', 't', 'y'],
        seq!['n', 'a', 'n'],
        seq!['N', 'a', 'N'],
    ];
    assert forall|i: int| 0 <= i < 5 implies !is_digit_string(#[trigger] texts[i]) by {
        assert(!in_digits()(texts[i][0]));
        lemma_run_ends(texts[i], in_digits(), 0);
    }
    assert(!is_digit_string(texts[0]) && !is_digit_string(texts[1]) && !is_digit_string(texts[2])
        && !is_digit_string(texts[3]) && !is_digit_string(texts[4]));
    assert(lower('I') == 'i' && lower('N') == 'n' && lower('F') == 'f');
}

/// A negative integer is shown with a minus sign before its size, any other as its digits.
pub proof fn law_integers_are_shown_with_their_sign(n: int)
    ensures
        n < 0 ==> integer_text(n) == seq!['-'] + decimal_text((-n) as nat),
        n >= 0 ==> integer_text(n) == decimal_text(n as nat),
{
    reveal_strlit("-");
    assert("-"@ =~= seq!['-']);
}

/// Zeros in front of a number change nothing.
pub proof fn law_leading_zeros_change_nothing(n: u64, zeros: nat)
    ensures
        count_reading(Seq::new(zeros, |i: int| '0') + decimal_text(n as nat)) == Some(n),
    decreases zeros,
{
    let s = Seq::new(zeros, |i: int| '0') + decimal_text(n as nat);
    lemma_zeros_in_front(n as nat, zeros);
    lemma_run_ends(s, in_digits(), s.len());
    law_integers_are_read_exactly(s);
}

/// What a number with zeros in front is as digits.
proof fn lemma_zeros_in_front(n: nat, zeros: nat)
    ensures
        ({
            let s = Seq::new(zeros, |i: int| '0') + decimal_text(n);
            &&& s.len() > 0
            &&& forall|i: int| 0 <= i < s.len() ==> is_digit(#[trigger] s[i])
            &&& digits_value(digits_of(s)) == n
        }),
    decreases zeros,
{
    lemma_decimal_text(n);
    let s = Seq::new(zeros, |i: int| '0') + decimal_text(n);
    if zeros == 0 {
        assert(s =~= decimal_text(n));
    } else {
        let fewer = Seq::new((zeros - 1) as nat, |i: int| '0') + decimal_text(n);
        lemma_zeros_in_front(n, (zeros - 1) as nat);
        assert(s =~= seq!['0'] + fewer);
        let digits = digits_of(s);
        lemma_digits_value_front(digits);
        assert(digits.skip(1) =~= digits_of(fewer));
        assert(digits[0] == 0);
        assert(digits[0] * power_of_ten((digits.len() - 1) as nat) == 0) by (nonlinear_arith)
            requires
                digits[0] == 0,
        ;
    }
}

/// A number below `2^53` with a fraction counts as its whole part, unless the fraction is so near
/// to one that no binary64 number lies between: then it counts as the next one. `b` is how many
/// bits the whole part has.
pub proof fn law_fractions_near_one(n: nat, b: nat, f: Seq<char>)
    requires
        b <= 53,
        n < pow2(b),
        b > 0 ==> pow2((b - 1) as nat) <= n,
        f.len() > 0,
        forall|i: int| 0 <= i < f.len() ==> '0' <= #[trigger] f[i] <= '9',
    ensures
        ({
            let step = 2 * pow2((53 - b) as nat);
            let fraction = digits_value(digits_of(f));
            let whole = pow(10, f.len());
            let r = count_reading(decimal_text(n) + seq!['.'] + f);
            &&& fraction * step < (step - 1) * whole ==> r == Some(n as u64)
            &&& fraction * step > (step - 1) * whole ==> r == Some((n + 1) as u64)
            &&& fraction * step == (step - 1) * whole ==> r == Some(
                if b < 53 || n % 2 == 1 {
                    (n + 1) as u64
                } else {
                    n as u64
                },
            )
        }),
{
    assert forall|i: int| 0 <= i < f.len() implies is_digit(#[trigger] f[i]) by {}
    lemma_point_number(n, f);
    lemma_decimal_text(n);
    lemma_power_of_ten(f.len());
    let whole = digits_of(decimal_text(n));
    let behind = digits_of(f);
    let digits = whole + behind;
    let point = decimal_text(n).len() as int;
    lemma2_to64();
    lemma2_to64_rest();
    lemma_bit_length_at_most(n, b);
    lemma_bit_length_bounds(n);
    if b > 0 && bit_length(n) < b {
        if bit_length(n) < b - 1 {
            lemma_pow2_strictly_increases(bit_length(n), (b - 1) as nat);
        }
        assert(false);
    }
    assert(bit_length(n) == b);
    assert(digits.take(point) =~= whole);
    assert(digits.skip(point) =~= behind);
    lemma_digits_of(f);
    lemma_digits_value_bound(behind);
    let scale = pow2((53 - b) as nat);
    lemma_pow2_pos((53 - b) as nat);
    if b < 53 {
        lemma_pow2_unfold((53 - b) as nat);
        lemma_pow2_pos((52 - b) as nat);
        assert(scale >= 2);
    }
    if b > 0 && b < 53 {
        lemma_pow2_strictly_increases(b, 53);
    }
    lemma_nearest_below_precision(n, digits_value(behind), power_of_ten(behind.len()), scale);
}

/// What a number that begins with its point is read as.
proof fn lemma_point_first(f: Seq<char>)
    requires
        f.len() > 0,
        forall|i: int| 0 <= i < f.len() ==> is_digit(#[trigger] f[i]),
    ensures
        count_reading(seq!['.'] + f) == Some(decimal_reading(digits_of(f), 0)),
{
    let s = seq!['.'] + f;
    assert(s[0] == '.');
    lemma_run_ends(s, in_digits(), 0);
    assert(s.skip(0) =~= s);
    assert(s.skip(1) =~= f);
    assert forall|i: int| 0 <= i < f.len() implies in_digits()(#[trigger] f[i]) by {}
    lemma_run_ends(f, in_digits(), f.len());
    assert(f.skip(f.len() as int) =~= Seq::<char>::empty());
    assert(f.take(f.len() as int) =~= f);
    assert(digits_of(s.take(0)) + digits_of(f) =~= digits_of(f));
    assert(number_reading(s) == Some(decimal_reading(digits_of(f), 0)));
    assert(lower(s[0]) == '.');
    assert(!is_word(s, seq!['i', 'n', 'f']));
    assert(!is_word(s, seq!['i', 'n', 'f', 'i', 'n', 'i', 't', 'y']));
    assert(!is_word(s, seq!['n', 'a', 'n']));
}

/// A point at the very start stands for a zero before it.
pub proof fn law_point_without_a_whole_part(f: Seq<char>)
    requires
        f.len() > 0,
        forall|i: int| 0 <= i < f.len() ==> '0' <= #[trigger] f[i] <= '9',
    ensures
        count_reading(seq!['.'] + f) == count_reading(seq!['0', '.'] + f),
{
    assert forall|i: int| 0 <= i < f.len() implies is_digit(#[trigger] f[i]) by {}
    lemma_point_first(f);
    assert(count_reading(seq!['0', '.'] + f) == Some(
        decimal_reading(digits_of(decimal_text(0)) + digits_of(f), 1),
    )) by {
        lemma_point_number(0, f);
        assert(decimal_text(0) =~= seq!['0']);
        assert(decimal_text(0) + seq!['.'] + f =~= seq!['0', '.'] + f);
    }
    let behind = digits_of(f);
    let digits = digits_of(decimal_text(0)) + behind;
    lemma_decimal_text(0);
    assert(decimal_text(0) =~= seq!['0']);
    assert(digits.take(1) =~= digits_of(decimal_text(0)));
    assert(digits.skip(1) =~= behind);
    assert(behind.skip(0) =~= behind);
}

/// A negative exponent moves the point to the left: as many places as digits stand behind it, and
/// the number is the one with its point before them.
pub proof fn law_negative_exponents(n: nat, f: Seq<char>)
    requires
        f.len() > 0,
        forall|i: int| 0 <= i < f.len() ==> '0' <= #[trigger] f[i] <= '9',
    ensures
        count_reading(decimal_text(n) + f + seq!['e', '-'] + decimal_text(f.len())) == count_reading(
            decimal_text(n) + seq!['.'] + f,
        ),
{
    assert forall|i: int| 0 <= i < f.len() implies is_digit(#[trigger] f[i]) by {}
    lemma_point_number(n, f);
    lemma_decimal_text(n);
    lemma_decimal_text(f.len());
    let t = decimal_text(n) + f;
    let x = decimal_text(f.len());
    let s = t + seq!['e', '-'] + x;
    let len = t.len() as int;
    assert(s =~= decimal_text(n) + f + seq!['e', '-'] + decimal_text(f.len()));
    assert forall|i: int| 0 <= i < len implies in_digits()(#[trigger] s[i]) by {
        assert(s[i] == t[i]);
        if i < decimal_text(n).len() {
            assert(t[i] == decimal_text(n)[i]);
        } else {
            assert(t[i] == f[i - decimal_text(n).len()]);
        }
    }
    assert(is_digit(s[0]));
    assert(s[len] == 'e');
    lemma_run_ends(s, in_digits(), t.len());
    lemma_float_body(s);
    let rest = s.skip(len);
    assert(rest[0] == 'e');
    assert(rest.skip(0) =~= rest);
    assert(rest.take(0) =~= Seq::<char>::empty());
    assert(s.take(len) =~= t);
    assert(digits_of(t) + digits_of(rest.take(0)) =~= digits_of(decimal_text(n)) + digits_of(f));
    let signed = rest.skip(1);
    assert(signed =~= seq!['-'] + x);
    assert(signed.skip(1) =~= x);
    lemma_run_ends(x, in_digits(), x.len());
    assert(exponent(rest) == Some(-(f.len() as int)));
}

} // verus!
