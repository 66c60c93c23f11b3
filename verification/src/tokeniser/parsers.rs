use super::token::{ErrorCode, TokenValue, TokenValueView};
use crate::text::{chars_of, scalar_value};
use vstd::prelude::*;

verus! {

/// The value of `c` as a digit: `0` to `9`, then the letters of either
/// case from `10` on. `None` for every other character.
pub open spec fn digit_value(c: char) -> Option<int> {
    if '0' <= c <= '9' {
        Some(c as int - '0' as int)
    } else if 'a' <= c <= 'z' {
        Some(c as int - 'a' as int + 10)
    } else if 'A' <= c <= 'Z' {
        Some(c as int - 'A' as int + 10)
    } else {
        None
    }
}

/// Whether `c` is a digit in base `radix`.
pub open spec fn is_digit(c: char, radix: int) -> bool {
    digit_value(c) matches Some(d) && d < radix
}

/// The value of `c` as a digit in base `radix`, when it is one.
pub fn to_digit(c: char, radix: u32) -> (r: Option<u32>)
    requires
        2 <= radix <= 36,
    ensures
        match r {
            Some(d) => is_digit(c, radix as int) && digit_value(c) == Some(d as int),
            None => !is_digit(c, radix as int),
        },
{
    let v = c as u32;
    let d: u32 = if 48 <= v && v <= 57 {
        v - 48
    } else if 97 <= v && v <= 122 {
        v - 97 + 10
    } else if 65 <= v && v <= 90 {
        v - 65 + 10
    } else {
        return None;
    };
    if d < radix {
        Some(d)
    } else {
        None
    }
}

/// Whether `c` is one of `0`-`9`, `a`-`f`, `A`-`F`.
pub fn is_hex_digit(c: char) -> (b: bool)
    ensures
        b == is_digit(c, 16),
{
    to_digit(c, 16).is_some()
}

/// The character at `pos` of `s` and the position after it, with a
/// backslash escape read as the character it names. `\u` takes exactly
/// four hexadecimal digits and is read only when `unicode` is set.
pub open spec fn decode_symbol(s: Seq<char>, pos: int, unicode: bool) -> Result<
    (char, int),
    ErrorCode,
> {
    if !(0 <= pos < s.len()) {
        Err(ErrorCode::BrokenStringLiteral)
    } else if s[pos] != '\\' {
        Ok((s[pos], pos + 1))
    } else if pos + 1 >= s.len() {
        Err(ErrorCode::UnterminatedCharLiteral)
    } else if s[pos + 1] == 'n' {
        Ok(('\n', pos + 2))
    } else if s[pos + 1] == 'r' {
        Ok(('\r', pos + 2))
    } else if s[pos + 1] == 't' {
        Ok(('\t', pos + 2))
    } else if s[pos + 1] == '\'' {
        Ok(('\'', pos + 2))
    } else if s[pos + 1] == '\\' {
        Ok(('\\', pos + 2))
    } else if s[pos + 1] == 'u' {
        if !unicode || s.len() < pos + 6 {
            Err(ErrorCode::BrokenUnicodeSequence)
        } else if is_digit(s[pos + 2], 16) && is_digit(s[pos + 3], 16) && is_digit(s[pos + 4], 16)
            && is_digit(s[pos + 5], 16) {
            let v = ((digit_value(s[pos + 2])->0 * 16 + digit_value(s[pos + 3])->0) * 16
                + digit_value(s[pos + 4])->0) * 16 + digit_value(s[pos + 5])->0;
            if scalar_value(v) {
                Ok((v as char, pos + 6))
            } else {
                Err(ErrorCode::BrokenUnicodeSequence)
            }
        } else {
            Err(ErrorCode::BrokenUnicodeSequence)
        }
    } else {
        Err(ErrorCode::UnknownEscapeSequence)
    }
}

/// What `decode_symbol` gives, with the position as a machine integer.
pub open spec fn symbol_result(r: Result<(char, usize), ErrorCode>) -> Result<(char, int), ErrorCode> {
    match r {
        Ok((c, next)) => Ok((c, next as int)),
        Err(e) => Err(e),
    }
}

/// Reads one symbol of `s` at `pos`.
pub fn decode_symbol_at(s: &Vec<char>, pos: usize, parse_unicode: bool) -> (r: Result<
    (char, usize),
    ErrorCode,
>)
    ensures
        symbol_result(r) == decode_symbol(s@, pos as int, parse_unicode),
        r matches Ok((_, next)) ==> pos < next <= s.len(),
{
    let len = s.len();
    if pos >= len {
        return Err(ErrorCode::BrokenStringLiteral);
    }
    let first = s[pos];
    if first != '\\' {
        return Ok((first, pos + 1));
    }
    if len - pos < 2 {
        return Err(ErrorCode::UnterminatedCharLiteral);
    }
    let c = s[pos + 1];
    if c == 'n' {
        Ok(('\n', pos + 2))
    } else if c == 'r' {
        Ok(('\r', pos + 2))
    } else if c == 't' {
        Ok(('\t', pos + 2))
    } else if c == '\'' {
        Ok(('\'', pos + 2))
    } else if c == '\\' {
        Ok(('\\', pos + 2))
    } else if c == 'u' {
        if !parse_unicode || len - pos < 6 {
            return Err(ErrorCode::BrokenUnicodeSequence);
        }
        let value: u32 = match (
            to_digit(s[pos + 2], 16),
            to_digit(s[pos + 3], 16),
            to_digit(s[pos + 4], 16),
            to_digit(s[pos + 5], 16),
        ) {
            (Some(d0), Some(d1), Some(d2), Some(d3)) => ((d0 * 16 + d1) * 16 + d2) * 16 + d3,
            _ => {
                return Err(ErrorCode::BrokenUnicodeSequence);
            },
        };
        match char::from_u32(value) {
            Some(c) => Ok((c, pos + 6)),
            None => Err(ErrorCode::BrokenUnicodeSequence),
        }
    } else {
        Err(ErrorCode::UnknownEscapeSequence)
    }
}

/// Reads the symbol at character `pos` of `s`: the character there, or
/// the character that the escape sequence there names, and the position
/// after it.
pub fn parse_symbol_in_string(s: &str, pos: usize, parse_unicode: bool) -> (r: Result<
    (char, usize),
    ErrorCode,
>)
    ensures
        symbol_result(r) == decode_symbol(s@, pos as int, parse_unicode),
{
    let chars = chars_of(s);
    decode_symbol_at(&chars, pos, parse_unicode)
}

/// The symbols of `s` from `pos` on, appended to `acc`; the first symbol
/// that cannot be read decides the error.
pub open spec fn decode_from(s: Seq<char>, pos: int, acc: Seq<char>) -> Result<
    Seq<char>,
    ErrorCode,
>
    decreases s.len() - pos,
{
    if pos >= s.len() || pos < 0 {
        Ok(acc)
    } else {
        match decode_symbol(s, pos, true) {
            Err(e) => Err(e),
            Ok((c, next)) => if next > pos {
                decode_from(s, next, acc.push(c))
            } else {
                Ok(acc)
            },
        }
    }
}

/// `s` with every escape sequence replaced by the character it names.
pub open spec fn decode_string(s: Seq<char>) -> Result<Seq<char>, ErrorCode> {
    decode_from(s, 0, Seq::empty())
}

/// The text of a decoding result.
pub open spec fn text_result(r: Result<String, ErrorCode>) -> Result<Seq<char>, ErrorCode> {
    match r {
        Ok(s) => Ok(s@),
        Err(e) => Err(e),
    }
}

/// Decodes the escape sequences of `s`.
pub fn decode_chars(s: &Vec<char>) -> (r: Result<String, ErrorCode>)
    ensures
        text_result(r) == decode_string(s@),
{
    let mut result = String::new();
    let len = s.len();
    let mut pos: usize = 0;
    while pos < len
        invariant
            len == s.len(),
            decode_string(s@) == decode_from(s@, pos as int, result@),
        decreases len - pos,
    {
        match decode_symbol_at(s, pos, true) {
            Err(e) => {
                return Err(e);
            },
            Ok((c, next)) => {
                result.push(c);
                pos = next;
            },
        }
    }
    Ok(result)
}

/// `s` with its escape sequences decoded, or the error of the first
/// symbol that cannot be read.
pub fn parse_string(s: String) -> (r: Result<String, ErrorCode>)
    ensures
        text_result(r) == decode_string(s@),
{
    let chars = chars_of(s.as_str());
    decode_chars(&chars)
}

/// `s` without any leading repetitions of `0x`.
pub open spec fn strip_hex_prefix(s: Seq<char>) -> Seq<char>
    decreases s.len(),
{
    if s.len() >= 2 && s[0] == '0' && s[1] == 'x' {
        strip_hex_prefix(s.skip(2))
    } else {
        s
    }
}

/// The number that the digits `s` spell in base `radix`, most significant
/// digit first; `None` when some character is not a digit of that base.
pub open spec fn digits_value(s: Seq<char>, radix: int) -> Option<nat>
    decreases s.len(),
{
    if s.len() == 0 {
        Some(0)
    } else {
        match digits_value(s.drop_last(), radix) {
            Some(v) => if is_digit(s.last(), radix) {
                Some((v * radix + digit_value(s.last())->0) as nat)
            } else {
                None
            },
            None => None,
        }
    }
}

/// The number that `s` spells in base `radix`: an optional `+`, then at
/// least one digit. `None` when `s` has another shape or the number does
/// not fit in 128 bits.
pub open spec fn unsigned_value(s: Seq<char>, radix: int) -> Option<u128> {
    let body = if s.len() > 0 && s[0] == '+' {
        s.drop_first()
    } else {
        s
    };
    if body.len() == 0 {
        None
    } else {
        match digits_value(body, radix) {
            Some(v) => if v <= u128::MAX {
                Some(v as u128)
            } else {
                None
            },
            None => None,
        }
    }
}

/// The token for the integer lexeme `s` in base `radix`. In base 16 the
/// `0x` prefix does not count.
pub open spec fn int_token(s: Seq<char>, radix: int) -> TokenValueView {
    let src = if radix == 16 {
        strip_hex_prefix(s)
    } else {
        s
    };
    match unsigned_value(src, radix) {
        Some(n) => TokenValueView::IntLiteral(n),
        None => TokenValueView::Error(s, ErrorCode::IntLiteralTooLong),
    }
}

/// A prefix of digits spells a number no larger than the whole does.
pub proof fn lemma_digits_prefix(s: Seq<char>, radix: int, k: int)
    requires
        radix >= 1,
        0 <= k <= s.len(),
        digits_value(s, radix) is Some,
    ensures
        digits_value(s.take(k), radix) is Some,
        digits_value(s.take(k), radix)->0 <= digits_value(s, radix)->0,
    decreases s.len(),
{
    if k == s.len() {
        assert(s.take(k) == s);
    } else {
        assert(s.drop_last().take(k) == s.take(k));
        lemma_digits_prefix(s.drop_last(), radix, k);
        let v = digits_value(s.drop_last(), radix)->0;
        assert(v * radix >= v) by (nonlinear_arith)
            requires
                radix >= 1,
                v >= 0,
        ;
    }
}

/// Reads the digits `s[from..]` in base `radix`.
fn read_digits(s: &Vec<char>, from: usize, radix: u32) -> (r: Option<u128>)
    requires
        2 <= radix <= 36,
        from <= s.len(),
    ensures
        r == match digits_value(s@.skip(from as int), radix as int) {
            Some(v) => if v <= u128::MAX {
                Some(v as u128)
            } else {
                None
            },
            None => None,
        },
{
    let ghost body = s@.skip(from as int);
    let mut acc: u128 = 0;
    let mut i: usize = from;
    while i < s.len()
        invariant
            2 <= radix <= 36,
            from <= i <= s.len(),
            body == s@.skip(from as int),
            digits_value(body.take(i - from), radix as int) == Some(acc as nat),
        decreases s.len() - i,
    {
        let ghost next = body.take(i - from + 1);
        proof {
            assert(next.drop_last() == body.take(i - from));
            assert(next.last() == s[i as int]);
        }
        let d = match to_digit(s[i], radix) {
            Some(d) => d,
            None => {
                proof {
                    if digits_value(body, radix as int) is Some {
                        lemma_digits_prefix(body, radix as int, i - from + 1);
                    }
                }
                return None;
            },
        };
        let grown = match acc.checked_mul(radix as u128) {
            Some(m) => m.checked_add(d as u128),
            None => None,
        };
        match grown {
            Some(v) => {
                acc = v;
            },
            None => {
                proof {
                    if digits_value(body, radix as int) is Some {
                        lemma_digits_prefix(body, radix as int, i - from + 1);
                    }
                }
                return None;
            },
        }
        i += 1;
    }
    assert(body.take(i - from) == body);
    Some(acc)
}

/// Reads `s[from..]` as an unsigned number in base `radix`.
pub fn read_unsigned(s: &Vec<char>, from: usize, radix: u32) -> (r: Option<u128>)
    requires
        2 <= radix <= 36,
        from <= s.len(),
    ensures
        r == unsigned_value(s@.skip(from as int), radix as int),
{
    let start = if from < s.len() && s[from] == '+' {
        from + 1
    } else {
        from
    };
    assert(start > from ==> s@.skip(from as int).drop_first() == s@.skip(start as int));
    if start == s.len() {
        None
    } else {
        read_digits(s, start, radix)
    }
}

/// The token for the integer lexeme `s` in base `radix`: its value, or an
/// error that keeps the lexeme.
pub fn parse_int(s: String, radix: u32) -> (v: TokenValue)
    requires
        2 <= radix <= 36,
    ensures
        v@ == int_token(s@, radix as int),
{
    let chars = chars_of(s.as_str());
    let mut from: usize = 0;
    assert(chars@.skip(0) == chars@);
    if radix == 16 {
        while chars.len() - from >= 2 && chars[from] == '0' && chars[from + 1] == 'x'
            invariant
                from <= chars.len(),
                strip_hex_prefix(chars@) == strip_hex_prefix(chars@.skip(from as int)),
            decreases chars.len() - from,
        {
            assert(chars@.skip(from as int).skip(2) == chars@.skip(from + 2));
            from += 2;
        }
    }
    match read_unsigned(&chars, from, radix) {
        Some(n) => TokenValue::IntLiteral(n),
        None => TokenValue::Error(s, ErrorCode::IntLiteralTooLong),
    }
}

/// How many points `s` holds.
pub open spec fn point_count(s: Seq<char>) -> nat
    decreases s.len(),
{
    if s.len() == 0 {
        0
    } else if s.last() == '.' {
        point_count(s.drop_last()) + 1
    } else {
        point_count(s.drop_last())
    }
}

/// How many decimal digits `s` holds.
pub open spec fn digit_count(s: Seq<char>) -> nat
    decreases s.len(),
{
    if s.len() == 0 {
        0
    } else if is_digit(s.last(), 10) {
        digit_count(s.drop_last()) + 1
    } else {
        digit_count(s.drop_last())
    }
}

/// Whether `s` is a decimal numeral: decimal digits, at least one, with at
/// most one point before, among or after them, and nothing else.
pub open spec fn is_numeral(s: Seq<char>) -> bool {
    point_count(s) <= 1 && digit_count(s) >= 1 && point_count(s) + digit_count(s) == s.len()
}

/// The token for the float lexeme `s`, which keeps the numeral as text.
pub open spec fn float_token(s: Seq<char>) -> TokenValueView {
    if is_numeral(s) {
        TokenValueView::FloatLiteral(s)
    } else {
        TokenValueView::Error(s, ErrorCode::FloatLiteralTooLong)
    }
}

/// The token for the float lexeme `s`: the numeral itself, or an error
/// that keeps the lexeme when `s` is no decimal numeral.
pub fn parse_float(s: String) -> (v: TokenValue)
    ensures
        v@ == float_token(s@),
{
    let chars = chars_of(s.as_str());
    let mut points: usize = 0;
    let mut digits: usize = 0;
    let mut i: usize = 0;
    while i < chars.len()
        invariant
            i <= chars.len(),
            points == point_count(chars@.take(i as int)),
            digits == digit_count(chars@.take(i as int)),
            points + digits <= i,
        decreases chars.len() - i,
    {
        assert(chars@.take(i + 1).drop_last() == chars@.take(i as int));
        if chars[i] == '.' {
            points += 1;
        } else if to_digit(chars[i], 10).is_some() {
            digits += 1;
        }
        i += 1;
    }
    assert(chars@.take(i as int) == chars@);
    if points <= 1 && digits >= 1 && points + digits == chars.len() {
        TokenValue::FloatLiteral(s)
    } else {
        TokenValue::Error(s, ErrorCode::FloatLiteralTooLong)
    }
}

} // verus!
