//! Text: characters, hexadecimal and decimal numbers.
use vstd::prelude::*;
use vstd::string::StrSliceExecFns;
use vstd::utf8::{decode_utf8, encode_utf8, is_ascii_chars, valid_utf8};
use crate::collections::text_of_utf8;

verus! {

/// The characters with the Unicode property White_Space.
pub open spec fn whitespace(c: char) -> bool {
    let code = c as u32;
    ||| 0x9 <= code <= 0xd
    ||| code == 0x20
    ||| code == 0x85
    ||| code == 0xa0
    ||| code == 0x1680
    ||| 0x2000 <= code <= 0x200a
    ||| code == 0x2028
    ||| code == 0x2029
    ||| code == 0x202f
    ||| code == 0x205f
    ||| code == 0x3000
}

/// The control characters, Unicode's category Cc.
pub open spec fn control(c: char) -> bool {
    let code = c as u32;
    code <= 0x1f || 0x7f <= code <= 0x9f
}

pub fn is_whitespace(c: char) -> (yes: bool)
    ensures
        yes == whitespace(c),
{
    let code = c as u32;
    (0x9 <= code && code <= 0xd) || code == 0x20 || code == 0x85 || code == 0xa0 || code == 0x1680
        || (0x2000 <= code && code <= 0x200a) || code == 0x2028 || code == 0x2029 || code == 0x202f
        || code == 0x205f || code == 0x3000
}

pub fn is_control(c: char) -> (yes: bool)
    ensures
        yes == control(c),
{
    let code = c as u32;
    code <= 0x1f || (0x7f <= code && code <= 0x9f)
}

/// How many white characters lead `text`.
pub open spec fn leading_white(text: Seq<char>) -> nat
    decreases text.len(),
{
    if text.len() > 0 && whitespace(text[0]) {
        1 + leading_white(text.skip(1))
    } else {
        0
    }
}

/// The text without its trailing white characters.
pub open spec fn without_trailing_white(text: Seq<char>) -> Seq<char>
    decreases text.len(),
{
    if text.len() > 0 && whitespace(text.last()) {
        without_trailing_white(text.drop_last())
    } else {
        text
    }
}

/// The text without white characters at either end.
pub open spec fn trimmed(text: Seq<char>) -> Seq<char> {
    without_trailing_white(text.skip(leading_white(text) as int))
}

/// The characters of a text.
pub fn characters(text: &str) -> (chars: Vec<char>)
    ensures
        chars@ == text@,
{
    let mut chars: Vec<char> = Vec::new();
    for c in iter: text.chars()
        invariant
            chars@ == iter.seq().take(iter.index() as int),
            iter.seq() == text@,
    {
        chars.push(c);
        assert(chars@ =~= iter.seq().take(iter.index() + 1));
    }
    assert(chars@ =~= text@);
    chars
}

/// Removes white characters at both ends.
pub fn trim(text: &str) -> (result: &str)
    ensures
        result@ == trimmed(text@),
{
    let chars = characters(text);
    let mut start: usize = 0;
    assert(text@.skip(0) =~= text@);
    while start < chars.len() && is_whitespace(chars[start])
        invariant
            chars@ == text@,
            start <= chars@.len(),
            leading_white(text@) == start + leading_white(text@.skip(start as int)),
        decreases chars.len() - start,
    {
        assert(text@.skip(start as int).skip(1) =~= text@.skip(start + 1));
        start += 1;
    }
    let mut end: usize = chars.len();
    assert(text@.subrange(start as int, end as int) =~= text@.skip(start as int));
    while end > start && is_whitespace(chars[end - 1])
        invariant
            chars@ == text@,
            start <= end <= chars@.len(),
            leading_white(text@) == start,
            trimmed(text@) == without_trailing_white(text@.subrange(start as int, end as int)),
        decreases end,
    {
        assert(text@.subrange(start as int, end as int).drop_last() =~= text@.subrange(
            start as int,
            end - 1,
        ));
        end -= 1;
    }
    text.substring_char(start, end)
}

/// The lower-case hexadecimal digit of a value below sixteen.
pub open spec fn hex_digit(value: int) -> char {
    if value < 10 {
        (48 + value) as char
    } else {
        (87 + value) as char
    }
}

/// Two lower-case hexadecimal digits a byte.
pub open spec fn hex_text(bytes: Seq<u8>) -> Seq<char> {
    Seq::new(
        bytes.len() * 2,
        |i: int|
            if i % 2 == 0 {
                hex_digit(bytes[i / 2] as int / 16)
            } else {
                hex_digit(bytes[i / 2] as int % 16)
            },
    )
}

proof fn ascii_decodes(bytes: Seq<u8>)
    requires
        forall|i: int| 0 <= i < bytes.len() ==> bytes[i] < 128,
    ensures
        valid_utf8(bytes),
        decode_utf8(bytes) == Seq::new(bytes.len(), |i: int| bytes[i] as char),
{
    let chars = Seq::new(bytes.len(), |i: int| bytes[i] as char);
    assert(is_ascii_chars(chars));
    vstd::utf8::is_ascii_chars_encode_utf8(chars);
    assert(encode_utf8(chars) =~= bytes);
    vstd::utf8::encode_utf8_valid_utf8(chars);
    vstd::utf8::encode_utf8_decode_utf8(chars);
}

/// The text of ASCII bytes.
pub fn ascii_text(bytes: Vec<u8>) -> (text: String)
    requires
        forall|i: int| 0 <= i < bytes@.len() ==> bytes@[i] < 128,
    ensures
        text@ == Seq::new(bytes@.len(), |i: int| bytes@[i] as char),
{
    proof {
        ascii_decodes(bytes@);
    }
    match text_of_utf8(bytes) {
        Some(text) => text,
        None => String::new(),
    }
}

fn hex_nibble(value: u8) -> (digit: u8)
    requires
        value < 16,
    ensures
        digit < 128,
        digit as char == hex_digit(value as int),
{
    if value < 10 {
        48 + value
    } else {
        87 + value
    }
}

/// Lower-case hexadecimal.
pub fn to_hex(bytes: &[u8]) -> (text: String)
    ensures
        text@ == hex_text(bytes@),
{
    let mut digits: Vec<u8> = Vec::new();
    let mut at: usize = 0;
    while at < bytes.len()
        invariant
            at <= bytes@.len(),
            digits@.len() == at * 2,
            forall|i: int|
                0 <= i < digits@.len() ==> (#[trigger] digits@[i]) < 128 && digits@[i] as char
                    == hex_text(bytes@)[i],
        decreases bytes.len() - at,
    {
        digits.push(hex_nibble(bytes[at] / 16));
        digits.push(hex_nibble(bytes[at] % 16));
        assert(hex_text(bytes@)[at * 2] == hex_digit(bytes@[at as int] as int / 16));
        assert(hex_text(bytes@)[at * 2 + 1] == hex_digit(bytes@[at as int] as int % 16));
        at += 1;
    }
    let text = ascii_text(digits);
    assert(text@ =~= hex_text(bytes@));
    text
}

/// The value of a hexadecimal digit of either case.
pub open spec fn hex_value(c: char) -> Option<int> {
    let code = c as u32;
    if 48 <= code <= 57 {
        Some(code - 48)
    } else if 97 <= code <= 102 {
        Some(code - 87)
    } else if 65 <= code <= 70 {
        Some(code - 55)
    } else {
        None
    }
}

/// The byte that two hexadecimal digits write. `plus` says whether a plus sign may
/// stand for the first.
pub open spec fn hex_pair(high: char, low: char, plus: bool) -> Option<u8> {
    match (hex_value(high), hex_value(low)) {
        (Some(h), Some(l)) => Some((h * 16 + l) as u8),
        (None, Some(l)) => if plus && high == '+' {
            Some(l as u8)
        } else {
            None
        },
        _ => None,
    }
}

/// Whether `text` holds `count` pairs that write bytes.
pub open spec fn hex_pairs_valid(text: Seq<char>, count: nat, plus: bool) -> bool {
    forall|i: int|
        0 <= i < count ==> (#[trigger] hex_pair(text[i * 2], text[i * 2 + 1], plus)) is Some
}

/// The bytes that the first `count` pairs write.
pub open spec fn hex_bytes(text: Seq<char>, count: nat, plus: bool) -> Seq<u8> {
    Seq::new(count, |i: int| hex_pair(text[i * 2], text[i * 2 + 1], plus)->Some_0)
}

fn hex_value_of(digit: u8) -> (value: Option<u8>)
    ensures
        match value {
            Some(v) => hex_value(digit as char) == Some(v as int) && v < 16,
            None => hex_value(digit as char) is None,
        },
{
    if 48 <= digit && digit <= 57 {
        Some(digit - 48)
    } else if 97 <= digit && digit <= 102 {
        Some(digit - 87)
    } else if 65 <= digit && digit <= 70 {
        Some(digit - 55)
    } else {
        None
    }
}

fn hex_pair_of(high: u8, low: u8, plus: bool) -> (value: Option<u8>)
    ensures
        value == hex_pair(high as char, low as char, plus),
{
    match (hex_value_of(high), hex_value_of(low)) {
        (Some(h), Some(l)) => Some(h * 16 + l),
        (None, Some(l)) => if plus && high == 43 {
            Some(l)
        } else {
            None
        },
        _ => None,
    }
}

/// Why a text is not so many bytes in hexadecimal.
#[derive(Clone, Copy, Debug, PartialEq, Eq, Structural)]
pub enum HexError {
    Length,
    Digit,
}

/// The bytes that a text writes in hexadecimal: exactly two ASCII characters a byte.
pub open spec fn parsed_hex(text: Seq<char>, count: nat, plus: bool) -> Result<
    Seq<u8>,
    HexError,
> {
    if text.len() != count * 2 || !is_ascii_chars(text) {
        Err(HexError::Length)
    } else if !hex_pairs_valid(text, count, plus) {
        Err(HexError::Digit)
    } else {
        Ok(hex_bytes(text, count, plus))
    }
}

/// Reads `N` bytes in hexadecimal. `plus` says whether a plus sign may stand for the
/// first digit of a byte.
pub fn parse_hex<const N: usize>(text: &str, plus: bool) -> (result: Result<[u8; N], HexError>)
    ensures
        match parsed_hex(text@, N as nat, plus) {
            Ok(bytes) => result matches Ok(got) && got@ == bytes,
            Err(error) => result matches Err(got) && got == error,
        },
{
    let raw = text.as_bytes();
    proof {
        if is_ascii_chars(text@) {
            vstd::utf8::is_ascii_chars_encode_utf8(text@);
        }
    }
    let length = raw.len();
    if !text.is_ascii() || length % 2 != 0 || length / 2 != N {
        return Err(HexError::Length);
    }
    let mut bytes = [0u8; N];
    let mut at: usize = 0;
    while at < N
        invariant
            at <= N,
            is_ascii_chars(text@),
            text@.len() == N * 2,
            raw@.len() == N * 2,
            length == raw@.len(),
            forall|i: int| 0 <= i < raw@.len() ==> raw@[i] as char == text@[i],
            forall|i: int|
                0 <= i < at ==> (#[trigger] hex_pair(text@[i * 2], text@[i * 2 + 1], plus)) == Some(
                    bytes@[i],
                ),
        decreases N - at,
    {
        let pair = hex_pair_of(raw[at * 2], raw[at * 2 + 1], plus);
        match pair {
            Some(byte) => {
                bytes[at] = byte;
            },
            None => {
                assert(hex_pair(text@[at as int * 2], text@[at as int * 2 + 1], plus) is None);
                return Err(HexError::Digit);
            },
        }
        at += 1;
    }
    assert(bytes@ =~= hex_bytes(text@, N as nat, plus));
    Ok(bytes)
}

/// Writing bytes in hexadecimal and reading them gives the bytes.
pub proof fn hex_round_trip(bytes: Seq<u8>, plus: bool)
    ensures
        parsed_hex(hex_text(bytes), bytes.len(), plus) == Ok::<Seq<u8>, HexError>(bytes),
{
    let text = hex_text(bytes);
    assert(is_ascii_chars(text));
    assert forall|i: int| 0 <= i < bytes.len() implies (#[trigger] hex_pair(
        text[i * 2],
        text[i * 2 + 1],
        plus,
    )) == Some(bytes[i]) by {
        let byte = bytes[i] as int;
        assert(text[i * 2] == hex_digit(byte / 16));
        assert(text[i * 2 + 1] == hex_digit(byte % 16));
    }
    assert(hex_bytes(text, bytes.len(), plus) =~= bytes);
}

/// The decimal digits of a number.
pub open spec fn decimal(value: nat) -> Seq<char>
    decreases value,
{
    if value < 10 {
        seq![(48 + value) as char]
    } else {
        decimal(value / 10).push((48 + value % 10) as char)
    }
}

/// Writes a number in decimal.
pub fn to_decimal(value: u64) -> (text: String)
    ensures
        text@ == decimal(value as nat),
{
    let mut reversed: Vec<u8> = Vec::new();
    let mut left: u64 = value;
    let ghost mut tail: Seq<char> = Seq::empty();
    assert(decimal(value as nat) =~= decimal(left as nat) + tail);
    while left >= 10
        invariant
            tail.len() == reversed@.len(),
            forall|i: int|
                0 <= i < reversed@.len() ==> (#[trigger] reversed@[i]) < 128 && reversed@[i] as char
                    == tail[tail.len() - 1 - i],
            decimal(value as nat) == decimal(left as nat) + tail,
        decreases left,
    {
        let digit: u8 = 48 + (left % 10) as u8;
        let ghost before = tail;
        proof {
            tail = seq![digit as char] + tail;
            assert(decimal(left as nat) + before =~= decimal((left / 10) as nat) + tail);
        }
        reversed.push(digit);
        left = left / 10;
    }
    reversed.push(48 + left as u8);
    let ghost all = seq![(48 + left) as char] + tail;
    assert(decimal(value as nat) =~= all);
    let mut digits: Vec<u8> = Vec::new();
    let mut at: usize = reversed.len();
    while at > 0
        invariant
            at <= reversed@.len(),
            all.len() == reversed@.len(),
            digits@.len() + at == reversed@.len(),
            forall|i: int|
                0 <= i < reversed@.len() ==> (#[trigger] reversed@[i]) < 128 && reversed@[i] as char
                    == all[all.len() - 1 - i],
            forall|i: int|
                0 <= i < digits@.len() ==> (#[trigger] digits@[i]) < 128 && digits@[i] as char
                    == all[i],
        decreases at,
    {
        at -= 1;
        digits.push(reversed[at]);
    }
    let text = ascii_text(digits);
    assert(text@ =~= all);
    text
}

/// The number that decimal digits write.
pub open spec fn decimal_value(digits: Seq<char>) -> Option<nat>
    decreases digits.len(),
{
    if digits.len() == 0 {
        Some(0)
    } else if !(48 <= digits.last() as u32 <= 57) {
        None
    } else {
        match decimal_value(digits.drop_last()) {
            Some(value) => Some(value * 10 + (digits.last() as u32 - 48) as nat),
            None => None,
        }
    }
}

/// An unsigned number in decimal: digits, with one plus sign in front or none.
pub open spec fn parsed_number(text: Seq<char>, max: nat) -> Option<nat> {
    let digits = if text.len() > 0 && text[0] == '+' {
        text.skip(1)
    } else {
        text
    };
    match decimal_value(digits) {
        Some(value) => if digits.len() > 0 && value <= max {
            Some(value)
        } else {
            None
        },
        None => None,
    }
}

proof fn decimal_value_prefix(digits: Seq<char>, at: int)
    requires
        0 <= at <= digits.len(),
    ensures
        decimal_value(digits.take(at)) is None ==> decimal_value(digits) is None,
        decimal_value(digits.take(at)) matches Some(part) ==> (decimal_value(digits) matches Some(
            whole,
        ) ==> part <= whole),
    decreases digits.len(),
{
    if at == digits.len() {
        assert(digits.take(at) =~= digits);
    } else {
        decimal_value_prefix(digits.drop_last(), at);
        assert(digits.drop_last().take(at) =~= digits.take(at));
    }
}

/// Reads an unsigned number up to `max` in decimal.
pub fn parse_number(text: &str, max: u64) -> (value: Option<u64>)
    ensures
        match parsed_number(text@, max as nat) {
            Some(number) => value matches Some(got) && got == number,
            None => value is None,
        },
{
    let chars = characters(text);
    let start: usize = if chars.len() > 0 && chars[0] == '+' {
        1
    } else {
        0
    };
    let ghost digits = chars@.skip(start as int);
    assert(chars@.skip(0) =~= chars@);
    if chars.len() == start {
        return None;
    }
    let mut value: u64 = 0;
    let mut at: usize = start;
    assert(digits.take(0) =~= Seq::<char>::empty());
    while at < chars.len()
        invariant
            start <= at <= chars@.len(),
            start < chars@.len(),
            digits == chars@.skip(start as int),
            parsed_number(text@, max as nat) == (match decimal_value(digits) {
                Some(number) => if number <= max {
                    Some(number)
                } else {
                    None
                },
                None => None,
            }),
            decimal_value(digits.take(at - start)) == Some(value as nat),
            value <= max,
        decreases chars.len() - at,
    {
        let code = chars[at] as u32;
        let ghost next = digits.take(at - start + 1);
        proof {
            assert(next.drop_last() =~= digits.take(at - start));
            assert(next.last() == chars@[at as int]);
            decimal_value_prefix(digits, at - start + 1);
        }
        if code < 48 || code > 57 {
            return None;
        }
        let digit = (code - 48) as u64;
        if value > max / 10 || digit > max - value * 10 {
            proof {
                assert(decimal_value(next) == Some((value * 10 + digit) as nat));
                assert(value * 10 + digit > max);
            }
            return None;
        }
        value = value * 10 + digit;
        at += 1;
    }
    assert(digits.take(at - start) =~= digits);
    Some(value)
}

/// Whether a text is a given one.
pub(crate) fn text_is(text: &String, literal: &str) -> (same: bool)
    ensures
        same == (text@ == literal@),
{
    let other = literal.to_owned();
    text.eq(&other)
}

} // verus!
