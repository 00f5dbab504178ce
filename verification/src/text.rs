//! Numbers and words in text.

use vstd::prelude::*;

verus! {

/// The hexadecimal digit for `d`.
pub open spec fn digit_char(d: int) -> char {
    if d < 10 {
        (d + 48) as char
    } else {
        (d + 87) as char
    }
}

/// `n` in hexadecimal, filled up with zeros on the left to `width` digits.
pub open spec fn hex(n: nat, width: nat) -> Seq<char>
    decreases n + width,
{
    if width <= 1 && n < 16 {
        seq![digit_char(n as int)]
    } else {
        hex(
            n / 16,
            if width > 0 {
                (width - 1) as nat
            } else {
                0
            },
        ).push(digit_char((n % 16) as int))
    }
}

/// The text of one hexadecimal digit.
fn hex_digit(d: u64) -> (result: &'static str)
    requires
        d < 16,
    ensures
        result@ == seq![digit_char(d as int)],
{
    proof {
        reveal_strlit("0");
        reveal_strlit("1");
        reveal_strlit("2");
        reveal_strlit("3");
        reveal_strlit("4");
        reveal_strlit("5");
        reveal_strlit("6");
        reveal_strlit("7");
        reveal_strlit("8");
        reveal_strlit("9");
        reveal_strlit("a");
        reveal_strlit("b");
        reveal_strlit("c");
        reveal_strlit("d");
        reveal_strlit("e");
        reveal_strlit("f");
    }
    let result = match d {
        0 => "0",
        1 => "1",
        2 => "2",
        3 => "3",
        4 => "4",
        5 => "5",
        6 => "6",
        7 => "7",
        8 => "8",
        9 => "9",
        10 => "a",
        11 => "b",
        12 => "c",
        13 => "d",
        14 => "e",
        _ => "f",
    };
    assert(result@ =~= seq![digit_char(d as int)]);
    result
}

/// Appends `n` in hexadecimal, filled up with zeros on the left to `width` digits.
pub fn append_hex(out: &mut String, n: u64, width: usize)
    ensures
        final(out)@ == old(out)@ + hex(n as nat, width as nat),
    decreases n as int + width,
{
    if width <= 1 && n < 16 {
        out.append(hex_digit(n));
    } else {
        append_hex(out, n / 16, width.saturating_sub(1));
        out.append(hex_digit(n % 16));
        assert(out@ =~= old(out)@ + hex(n as nat, width as nat));
    }
}

/// Whether two texts are the same.
pub fn same_text(a: &str, b: &str) -> (result: bool)
    ensures
        result == (a@ == b@),
{
    let n: usize = a.unicode_len();
    if n != b.unicode_len() {
        return false;
    }
    let mut i: usize = 0;
    while i < n
        invariant
            i <= n == a@.len() == b@.len(),
            forall|j: int| 0 <= j < i ==> a@[j] == b@[j],
        decreases n - i,
    {
        if a.get_char(i) != b.get_char(i) {
            return false;
        }
        i = i + 1;
    }
    assert(a@ =~= b@);
    true
}

/// The lower-case form of an ASCII letter; any other character is left as it is.
pub open spec fn lower(c: char) -> char {
    if 'A' <= c && c <= 'Z' {
        (c as int + 32) as char
    } else {
        c
    }
}

/// `text` with its ASCII letters in lower case.
pub open spec fn lowercase(text: Seq<char>) -> Seq<char> {
    text.map_values(|c: char| lower(c))
}

/// Whether `text` with its ASCII letters in lower case is `word`.
pub fn is_word(text: &str, word: &str) -> (result: bool)
    ensures
        result == (lowercase(text@) == word@),
{
    let n: usize = text.unicode_len();
    if n != word.unicode_len() {
        assert(lowercase(text@).len() != word@.len());
        return false;
    }
    let mut i: usize = 0;
    while i < n
        invariant
            i <= n == text@.len() == word@.len(),
            forall|j: int| 0 <= j < i ==> lower(text@[j]) == word@[j],
        decreases n - i,
    {
        let c = text.get_char(i);
        let w = word.get_char(i);
        if !is_lower_of(w, c) {
            assert(lowercase(text@)[i as int] != word@[i as int]);
            return false;
        }
        i = i + 1;
    }
    assert(lowercase(text@) =~= word@);
    true
}

/// Whether `w` is the lower-case form of `c`.
fn is_lower_of(w: char, c: char) -> (result: bool)
    ensures
        result == (lower(c) == w),
{
    if 'A' <= c && c <= 'Z' {
        w as u32 == c as u32 + 32
    } else {
        w == c
    }
}

/// Whether `c` is a decimal digit.
pub open spec fn is_digit(c: char) -> bool {
    '0' <= c && c <= '9'
}

/// The number that decimal digits spell.
pub open spec fn decimal(digits: Seq<char>) -> nat
    decreases digits.len(),
{
    if digits.len() == 0 {
        0
    } else {
        decimal(digits.drop_last()) * 10 + (digits.last() as int - 48) as nat
    }
}

/// `text` without a leading plus sign.
pub open spec fn unsigned(text: Seq<char>) -> Seq<char> {
    if text.len() > 0 && text[0] == '+' {
        text.skip(1)
    } else {
        text
    }
}

/// The number that `text` spells: an optional plus sign, then only digits, at least one. Nothing
/// for any other text, and for a number that takes more than 64 bits.
pub open spec fn number(text: Seq<char>) -> Option<u64> {
    let digits = unsigned(text);
    if digits.len() > 0 && (forall|i: int| 0 <= i < digits.len() ==> is_digit(#[trigger] digits[i]))
        && decimal(digits) <= u64::MAX {
        Some(decimal(digits) as u64)
    } else {
        None
    }
}

/// A prefix spells no larger number.
proof fn lemma_decimal_prefix(digits: Seq<char>, n: int)
    requires
        0 <= n <= digits.len(),
    ensures
        decimal(digits.take(n)) <= decimal(digits),
    decreases digits.len(),
{
    if n < digits.len() {
        lemma_decimal_prefix(digits.drop_last(), n);
        assert(digits.drop_last().take(n) =~= digits.take(n));
    } else {
        assert(digits.take(n) =~= digits);
    }
}

/// Reads the number that `text` spells.
pub fn parse_number(text: &str) -> (result: Option<u64>)
    ensures
        result == number(text@),
{
    let len: usize = text.unicode_len();
    let ghost digits = unsigned(text@);
    let start: usize = if len > 0 && text.get_char(0) == '+' {
        1
    } else {
        0
    };
    if start == len {
        return None;
    }
    let mut value: u64 = 0;
    let mut i: usize = start;
    while i < len
        invariant
            start <= i <= len == text@.len(),
            start <= 1,
            digits == unsigned(text@),
            digits == text@.skip(start as int),
            forall|j: int| 0 <= j < i - start ==> is_digit(#[trigger] digits[j]),
            value == decimal(digits.take(i - start)),
        decreases len - i,
    {
        let c = text.get_char(i);
        assert(digits[i - start] == c);
        assert(digits.take(i + 1 - start).drop_last() =~= digits.take(i - start));
        if !('0' <= c && c <= '9') {
            return None;
        }
        proof {
            lemma_decimal_prefix(digits, i + 1 - start);
        }
        let digit: u64 = (c as u32 - 48) as u64;
        match value.checked_mul(10) {
            None => {
                return None;
            },
            Some(tens) => match tens.checked_add(digit) {
                None => {
                    return None;
                },
                Some(next) => {
                    value = next;
                },
            },
        }
        i = i + 1;
    }
    assert(digits.take(len - start) =~= digits);
    Some(value)
}

/// The hexadecimal text of `n` has exactly `width` digits where `n` takes no more.
pub proof fn law_hex_width(n: nat, width: nat)
    requires
        width > 0,
        n < pow16(width),
    ensures
        hex(n, width).len() == width,
    decreases width,
{
    if width > 1 {
        assert(pow16(width) == 16 * pow16((width - 1) as nat));
        law_hex_width(n / 16, (width - 1) as nat);
    } else {
        assert(pow16(1) == 16) by {
            assert(pow16(0) == 1);
        }
    }
}

/// Numbers with the same hexadecimal text are the same.
pub proof fn law_hex_injective(n: nat, m: nat, width: nat)
    requires
        hex(n, width) == hex(m, width),
    ensures
        n == m,
    decreases n + width,
{
    let rest: nat = if width > 0 {
        (width - 1) as nat
    } else {
        0
    };
    let a = hex(n, width);
    let b = hex(m, width);
    assert(a.last() == digit_char((n % 16) as int));
    assert(b.last() == digit_char((m % 16) as int));
    if !(width <= 1 && n < 16) && !(width <= 1 && m < 16) {
        assert(a.drop_last() =~= hex(n / 16, rest));
        assert(b.drop_last() =~= hex(m / 16, rest));
        law_hex_injective(n / 16, m / 16, rest);
    } else if !(width <= 1 && n < 16) {
        lemma_hex_nonempty(n / 16, rest);
    } else if !(width <= 1 && m < 16) {
        lemma_hex_nonempty(m / 16, rest);
    }
}

/// A hexadecimal text has a digit.
proof fn lemma_hex_nonempty(n: nat, width: nat)
    ensures
        hex(n, width).len() > 0,
{
}

/// 16 to the power of `n`.
pub open spec fn pow16(n: nat) -> nat
    decreases n,
{
    if n == 0 {
        1
    } else {
        16 * pow16((n - 1) as nat)
    }
}

/// The hexadecimal digits in order.
pub proof fn law_hex_digits(d: int)
    requires
        0 <= d < 16,
    ensures
        digit_char(d) == "0123456789abcdef"@[d],
{
    reveal_strlit("0123456789abcdef");
}

/// The value that a hexadecimal text spells, digit by digit.
pub proof fn law_hex_spells_its_number(n: nat, width: nat, i: nat)
    requires
        i < hex(n, width).len(),
    ensures
        hex(n, width)[hex(n, width).len() - 1 - i] == digit_char(((n / pow16(i)) % 16) as int),
        hex(n, width).len() > 0,
    decreases i,
{
    let rest: nat = if width > 0 {
        (width - 1) as nat
    } else {
        0
    };
    if i == 0 {
        assert(pow16(0) == 1);
        vstd::arithmetic::div_mod::lemma_div_basics(n as int);
    } else {
        law_hex_spells_its_number(n / 16, rest, (i - 1) as nat);
        let p = pow16((i - 1) as nat);
        lemma_pow16_positive((i - 1) as nat);
        vstd::arithmetic::div_mod::lemma_div_denominator(n as int, 16, p as int);
    }
}

proof fn lemma_pow16_positive(n: nat)
    ensures
        pow16(n) > 0,
    decreases n,
{
    if n > 0 {
        lemma_pow16_positive((n - 1) as nat);
    }
}

/// Letters from A to Z become those from a to z, and nothing else changes.
pub proof fn law_lower_case(text: Seq<char>, i: int)
    requires
        0 <= i < text.len(),
    ensures
        lowercase(text).len() == text.len(),
        'A' <= text[i] <= 'Z' ==> lowercase(text)[i] as int == text[i] as int + 32,
        !('A' <= text[i] <= 'Z') ==> lowercase(text)[i] == text[i],
{
}

/// The value of decimal digits: each stands for ten times as much as the one behind it.
pub proof fn law_decimal_places(digits: Seq<char>, next: char)
    ensures
        decimal(Seq::empty()) == 0,
        '0' <= next <= '9' ==> decimal(digits.push(next)) == 10 * decimal(digits) + (next as int
            - '0' as int),
{
    assert(digits.push(next).drop_last() =~= digits);
}

/// Which texts spell a number: `digits`, alone or behind a plus sign, where there is at least one, they
/// are all digits, and the number takes no more than 64 bits.
pub proof fn law_numbers_are_digits(text: Seq<char>, digits: Seq<char>)
    requires
        text == seq!['+'] + digits || (text == digits && (digits.len() > 0 ==> digits[0] != '+')),
    ensures
        number(text) is Some <==> digits.len() > 0 && decimal(digits) < 0x1_0000_0000_0000_0000 && (
        forall|i: int| 0 <= i < digits.len() ==> '0' <= (#[trigger] digits[i]) <= '9'),
        number(text) matches Some(value) ==> value == decimal(digits),
{
    if text == seq!['+'] + digits {
        assert(text[0] == '+');
        assert(text.skip(1) =~= digits);
    }
    assert(unsigned(text) == digits);
    if forall|i: int| 0 <= i < digits.len() ==> '0' <= (#[trigger] digits[i]) <= '9' {
        assert forall|i: int| 0 <= i < digits.len() implies is_digit(#[trigger] digits[i]) by {
        }
    }
    if forall|i: int| 0 <= i < digits.len() ==> is_digit(#[trigger] digits[i]) {
        assert forall|i: int| 0 <= i < digits.len() implies '0' <= (#[trigger] digits[i])
            <= '9' by {
            assert(is_digit(digits[i]));
        }
    }
}

} // verus!
