//! Numbers and names as text: the cells of an entry listing.

use vstd::prelude::*;
use vstd::string::StringExecFns;
use crate::kind::FileKind;

verus! {

/// The character of a digit below sixteen: `0` to `9`, then `A` to `F`.
pub open spec fn digit_char(d: int) -> char {
    if d < 10 {
        (0x30 + d) as char
    } else {
        (0x37 + d) as char
    }
}

/// The digits of a number in a base from two to sixteen, most significant
/// first, without leading zeros.
pub open spec fn numeral(n: nat, base: nat) -> Seq<char>
    decreases n,
    via numeral_shrinks
{
    if base < 2 || n < base {
        seq![digit_char(n as int)]
    } else {
        numeral(n / base, base).push(digit_char((n % base) as int))
    }
}

#[via_fn]
proof fn numeral_shrinks(n: nat, base: nat) {
    if base >= 2 && n >= base {
        lemma_quotient_smaller(n, base);
    }
}

/// Dividing a positive number by at least two makes it smaller.
pub proof fn lemma_quotient_smaller(n: nat, base: nat)
    requires
        base >= 2,
        n >= 1,
    ensures
        n / base < n,
{
    assert(n / base < n) by (nonlinear_arith)
        requires
            base >= 2,
            n >= 1,
    ;
}

/// The three letters of a kind's extension.
pub open spec fn extension_chars(kind: FileKind) -> Seq<char> {
    match kind {
        FileKind::Sprite => seq!['s', 'l', 'p'],
        FileKind::Shape => seq!['s', 'h', 'p'],
        FileKind::Binary => seq!['b', 'i', 'n'],
        FileKind::Audio => seq!['w', 'a', 'v'],
    }
}

/// The name under which an entry is listed and requested: its identifier
/// in decimal, a dot, and the extension of its kind.
pub open spec fn entry_name_chars(id: u32, kind: FileKind) -> Seq<char> {
    numeral(id as nat, 10) + seq!['.'] + extension_chars(kind)
}

/// An offset as a listing shows it: `0x` and the upper-case hexadecimal
/// digits.
pub open spec fn offset_chars(offset: u32) -> Seq<char> {
    seq!['0', 'x'] + numeral(offset as nat, 16)
}

/// The text of one digit.
pub fn digit_text(d: u32) -> (text: &'static str)
    requires
        d < 16,
    ensures
        text@ == seq![digit_char(d as int)],
{
    proof {
        reveal_strlit("0");
        reveal_strlit("1");
        reveal_strlit("2");
        reveal_strlit("3");
        reveal_strlit("4");
        reveal_strlit("5");
        reveal_strlit("6");
        reveal_strlit("7");
        reveal_strlit("8");
        reveal_strlit("9");
        reveal_strlit("A");
        reveal_strlit("B");
        reveal_strlit("C");
        reveal_strlit("D");
        reveal_strlit("E");
        reveal_strlit("F");
    }
    let text = match d {
        0 => "0",
        1 => "1",
        2 => "2",
        3 => "3",
        4 => "4",
        5 => "5",
        6 => "6",
        7 => "7",
        8 => "8",
        9 => "9",
        10 => "A",
        11 => "B",
        12 => "C",
        13 => "D",
        14 => "E",
        _ => "F",
    };
    assert(text@ =~= seq![digit_char(d as int)]);
    text
}

/// Appends the digits of `n` in the given base.
pub fn push_numeral(out: &mut String, n: u32, base: u32)
    requires
        2 <= base <= 16,
    ensures
        final(out)@ == old(out)@ + numeral(n as nat, base as nat),
    decreases n,
{
    if n >= base {
        proof {
            lemma_quotient_smaller(n as nat, base as nat);
        }
        push_numeral(out, n / base, base);
    }
    let ghost upper = out@;
    out.append(digit_text(n % base));
    proof {
        let digit = digit_char((n % base) as int);
        assert(out@ == upper + seq![digit]);
        if n >= base {
            assert(numeral(n as nat, base as nat) == numeral(
                (n / base) as nat,
                base as nat,
            ).push(digit));
            assert(out@ =~= old(out)@ + numeral(n as nat, base as nat));
        } else {
            assert(n % base == n) by (nonlinear_arith)
                requires
                    n < base,
            ;
            assert(numeral(n as nat, base as nat) == seq![digit]);
        }
    }
}

/// The extension of a kind, as text.
pub fn extension_text(kind: FileKind) -> (text: &'static str)
    ensures
        text@ == extension_chars(kind),
{
    proof {
        reveal_strlit("slp");
        reveal_strlit("shp");
        reveal_strlit("bin");
        reveal_strlit("wav");
    }
    let text = match kind {
        FileKind::Sprite => "slp",
        FileKind::Shape => "shp",
        FileKind::Binary => "bin",
        FileKind::Audio => "wav",
    };
    assert(text@ =~= extension_chars(kind));
    text
}

/// A number in decimal.
pub fn decimal_text(n: u32) -> (text: String)
    ensures
        text@ == numeral(n as nat, 10),
{
    let mut text = String::new();
    push_numeral(&mut text, n, 10);
    assert(text@ =~= numeral(n as nat, 10));
    text
}

/// An offset as a listing shows it, such as `0x1F40`.
pub fn offset_text(offset: u32) -> (text: String)
    ensures
        text@ == offset_chars(offset),
{
    proof {
        reveal_strlit("0x");
    }
    let mut text = String::from_str("0x");
    push_numeral(&mut text, offset, 16);
    assert(text@ =~= offset_chars(offset));
    text
}

/// The name of an entry, such as `50500.bin`.
pub fn entry_name(id: u32, kind: FileKind) -> (name: String)
    ensures
        name@ == entry_name_chars(id, kind),
{
    proof {
        reveal_strlit(".");
    }
    let mut name = String::new();
    push_numeral(&mut name, id, 10);
    name.append(".");
    name.append(extension_text(kind));
    assert(name@ =~= entry_name_chars(id, kind));
    name
}

/// The value of a character as a digit of the base: `0` to `9`, then the
/// letters of either case from ten on. None for any other character and for
/// a digit that the base does not have.
pub open spec fn digit_value(c: char, base: nat) -> Option<nat> {
    let code = c as u32;
    if 0x30 <= code <= 0x39 && code - 0x30 < base {
        Some((code - 0x30) as nat)
    } else if 0x41 <= code <= 0x5a && code - 0x37 < base {
        Some((code - 0x37) as nat)
    } else if 0x61 <= code <= 0x7a && code - 0x57 < base {
        Some((code - 0x57) as nat)
    } else {
        None
    }
}

/// Whether every character is a digit of the base.
pub open spec fn all_digits(digits: Seq<char>, base: nat) -> bool {
    forall|k: int| 0 <= k < digits.len() ==> digit_value(#[trigger] digits[k], base) is Some
}

/// The number that a run of digits spells in the base.
pub open spec fn digits_value(digits: Seq<char>, base: nat) -> nat
    decreases digits.len(),
{
    if digits.len() == 0 {
        0
    } else {
        digits_value(digits.drop_last(), base) * base + match digit_value(digits.last(), base) {
            Some(value) => value,
            None => 0,
        }
    }
}

/// The digits of a number's text: the text itself, without a leading plus
/// sign if it has one.
pub open spec fn digits_of(text: Seq<char>) -> Seq<char> {
    if text.len() > 0 && text[0] == '+' {
        text.skip(1)
    } else {
        text
    }
}

/// The number that a text spells in the base: at least one digit, after an
/// optional plus sign, with a value that fits 32 bits.
pub open spec fn number_of(text: Seq<char>, base: nat) -> Option<u32> {
    let digits = digits_of(text);
    if digits.len() > 0 && all_digits(digits, base) && digits_value(digits, base) <= u32::MAX {
        Some(digits_value(digits, base) as u32)
    } else {
        None
    }
}

/// How many bytes a character takes in UTF-8.
pub open spec fn utf8_len(c: char) -> nat {
    let code = c as u32;
    if code < 0x80 {
        1
    } else if code < 0x800 {
        2
    } else if code < 0x1_0000 {
        3
    } else {
        4
    }
}

/// The number behind the prefix of an offset's text: the text without its
/// first two bytes, read in base sixteen. The two bytes are two characters
/// of ASCII or one character of two bytes; none if the text is shorter or
/// its second byte falls within a character.
pub open spec fn offset_of(text: Seq<char>) -> Option<u32> {
    if text.len() >= 2 && utf8_len(text[0]) == 1 && utf8_len(text[1]) == 1 {
        number_of(text.skip(2), 16)
    } else if text.len() >= 1 && utf8_len(text[0]) == 2 {
        number_of(text.skip(1), 16)
    } else {
        None
    }
}

/// A run of digits spells at least what any of its prefixes spells.
pub proof fn lemma_digits_value_grows(digits: Seq<char>, base: nat, k: int)
    requires
        0 <= k <= digits.len(),
        base >= 1,
    ensures
        digits_value(digits.take(k), base) <= digits_value(digits, base),
    decreases digits.len() - k,
{
    if k == digits.len() {
        assert(digits.take(k) =~= digits);
    } else {
        lemma_digits_value_grows(digits, base, k + 1);
        assert(digits.take(k + 1).drop_last() =~= digits.take(k));
        let shorter = digits_value(digits.take(k), base);
        assert(shorter * base >= shorter) by (nonlinear_arith)
            requires
                base >= 1,
                shorter >= 0,
        ;
    }
}

/// Reads one digit of the base.
pub fn read_digit(c: char, base: u32) -> (value: Option<u32>)
    ensures
        match value {
            Some(v) => digit_value(c, base as nat) == Some(v as nat),
            None => digit_value(c, base as nat) is None,
        },
{
    let code: u32 = c as u32;
    if 0x30 <= code && code <= 0x39 && code - 0x30 < base {
        Some(code - 0x30)
    } else if 0x41 <= code && code <= 0x5a && code - 0x37 < base {
        Some(code - 0x37)
    } else if 0x61 <= code && code <= 0x7a && code - 0x57 < base {
        Some(code - 0x57)
    } else {
        None
    }
}

/// Reads the number that the characters from `from` up to `to` spell in
/// the base.
pub fn parse_number(text: &str, from: usize, to: usize, base: u32) -> (number: Option<u32>)
    requires
        from <= to <= text@.len(),
        2 <= base <= 36,
    ensures
        number == number_of(text@.subrange(from as int, to as int), base as nat),
{
    let ghost digits = digits_of(text@.subrange(from as int, to as int));
    let start: usize = if from < to && text.get_char(from) == '+' {
        from + 1
    } else {
        from
    };
    assert(digits =~= text@.subrange(start as int, to as int));
    if start == to {
        return None;
    }
    let mut value: u64 = 0;
    let mut i: usize = start;
    assert(digits.take(0) =~= Seq::<char>::empty());
    while i < to
        invariant
            start <= i <= to <= text@.len(),
            2 <= base <= 36,
            digits == text@.subrange(start as int, to as int),
            digits == digits_of(text@.subrange(from as int, to as int)),
            forall|k: int| 0 <= k < i - start ==> digit_value(#[trigger] digits[k], base as nat) is Some,
            value == digits_value(digits.take(i - start), base as nat),
            value <= u32::MAX,
        decreases to - i,
    {
        let c = text.get_char(i);
        assert(digits[i - start] == c);
        let digit = match read_digit(c, base) {
            Some(digit) => digit,
            None => {
                return None;
            },
        };
        assert(value * base <= 0xffff_ffff * 36) by (nonlinear_arith)
            requires
                value <= 0xffff_ffff,
                base <= 36,
        ;
        value = value * (base as u64) + (digit as u64);
        i += 1;
        proof {
            assert(digits.take(i - start).drop_last() =~= digits.take(i - start - 1));
            assert(digits.take(i - start).last() == c);
        }
        if value > 0xffff_ffff {
            proof {
                lemma_digits_value_grows(digits, base as nat, i - start);
            }
            return None;
        }
    }
    assert(digits.take(i - start) =~= digits);
    Some(value as u32)
}

/// Reads a number in decimal: the whole text must spell it.
pub fn convert_name(text: &str) -> (number: Option<u32>)
    ensures
        number == number_of(text@, 10),
{
    let len = text.unicode_len();
    assert(text@.subrange(0, len as int) =~= text@);
    parse_number(text, 0, len, 10)
}

/// Reads an offset back from the text that a listing shows: the first two
/// bytes are passed over and the rest is read in base sixteen.
pub fn convert_offset(text: &str) -> (offset: Option<u32>)
    ensures
        offset == offset_of(text@),
{
    let len = text.unicode_len();
    if len == 0 {
        return None;
    }
    let first: u32 = text.get_char(0) as u32;
    if first < 0x80 {
        if len < 2 {
            return None;
        }
        let second: u32 = text.get_char(1) as u32;
        if second >= 0x80 {
            return None;
        }
        assert(text@.subrange(2, len as int) =~= text@.skip(2));
        parse_number(text, 2, len, 16)
    } else if first < 0x800 {
        assert(text@.subrange(1, len as int) =~= text@.skip(1));
        parse_number(text, 1, len, 16)
    } else {
        None
    }
}

/// The numeral of a number consists of digits of its base, at least one,
/// and spells the number.
pub proof fn lemma_numeral_spells(n: nat, base: nat)
    requires
        2 <= base <= 16,
    ensures
        numeral(n, base).len() >= 1,
        all_digits(numeral(n, base), base),
        digits_value(numeral(n, base), base) == n,
    decreases n,
{
    let text = numeral(n, base);
    if n < base {
        let digit = digit_char(n as int);
        assert(digit_value(digit, base) == Some(n));
        assert(text.drop_last() =~= Seq::<char>::empty());
        assert(digits_value(text.drop_last(), base) * base == 0) by (nonlinear_arith)
            requires
                digits_value(text.drop_last(), base) == 0,
        ;
    } else {
        lemma_quotient_smaller(n, base);
        lemma_numeral_spells(n / base, base);
        let upper = numeral(n / base, base);
        let digit = digit_char((n % base) as int);
        assert(n % base < base) by (nonlinear_arith)
            requires
                base >= 2,
        ;
        assert(digit_value(digit, base) == Some(n % base));
        assert(text == upper.push(digit));
        assert(text.drop_last() =~= upper);
        assert((n / base) * base + n % base == n) by (nonlinear_arith)
            requires
                base >= 2,
        ;
        assert forall|k: int| 0 <= k < text.len() implies digit_value(
            #[trigger] text[k],
            base,
        ) is Some by {
            if k < upper.len() {
                assert(text[k] == upper[k]);
            }
        }
    }
}

/// Reading the numeral of a number gives the number back.
pub proof fn lemma_number_round_trip(n: u32, base: nat)
    requires
        2 <= base <= 16,
    ensures
        number_of(numeral(n as nat, base), base) == Some(n),
{
    lemma_numeral_spells(n as nat, base);
    let text = numeral(n as nat, base);
    assert(digit_value(text[0], base) is Some);
}

/// Reading the text of an offset gives the offset back.
pub proof fn lemma_offset_round_trip(offset: u32)
    ensures
        offset_of(offset_chars(offset)) == Some(offset),
{
    lemma_number_round_trip(offset, 16);
    assert(offset_chars(offset).skip(2) =~= numeral(offset as nat, 16));
}

} // verus!
