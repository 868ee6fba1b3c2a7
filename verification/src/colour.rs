//! Hex colours: `rgb`, `rgba`, `rrggbb` or `rrggbbaa`, with or without a
//! leading `#`, read into one 32-bit value laid out as `0xAARRGGBB`.

use crate::text::chars_of;
use vstd::prelude::*;

verus! {

/// Why a string is no hex number or no hex colour.
#[derive(Clone, Copy, Debug, PartialEq, Eq, Structural)]
pub enum HexFault {
    /// There is nothing to read.
    Empty,
    /// A character is no hex digit.
    InvalidDigit,
    /// The number does not fit in 32 bits.
    TooLarge,
    /// A colour has 3, 4, 6 or 8 digits, and this has another count.
    InvalidLength,
}

/// A string that could not be read, and why.
#[derive(Debug)]
pub struct ParseHexError {
    pub reason: HexFault,
    pub source: String,
}

/// The value of a hex digit, of either case.
pub open spec fn hex_digit(c: char) -> Option<u32> {
    if '0' <= c <= '9' {
        Some((c as u32 - '0' as u32) as u32)
    } else if 'a' <= c <= 'f' {
        Some((c as u32 - 'a' as u32 + 10) as u32)
    } else if 'A' <= c <= 'F' {
        Some((c as u32 - 'A' as u32 + 10) as u32)
    } else {
        None
    }
}

/// The value of a hex digit, and 0 for any other character.
pub open spec fn digit_or_zero(c: char) -> nat {
    match hex_digit(c) {
        Some(d) => d as nat,
        None => 0,
    }
}

/// Whether every character is a hex digit.
pub open spec fn is_hex(s: Seq<char>) -> bool {
    forall|i: int| 0 <= i < s.len() ==> hex_digit(#[trigger] s[i]) is Some
}

/// The number that a string of hex digits writes, the first digit being the
/// most significant.
pub open spec fn hex_value(s: Seq<char>) -> nat
    decreases s.len(),
{
    if s.len() == 0 {
        0
    } else {
        16 * hex_value(s.drop_last()) + digit_or_zero(s.last())
    }
}

/// What `parse_hex_slice` makes of a string.
pub open spec fn hex_number(s: Seq<char>) -> Result<u32, HexFault> {
    if s.len() == 0 {
        Err(HexFault::Empty)
    } else if !is_hex(s) {
        Err(HexFault::InvalidDigit)
    } else if hex_value(s) > u32::MAX {
        Err(HexFault::TooLarge)
    } else {
        Ok(hex_value(s) as u32)
    }
}

/// The string without one leading `#`, if it has one.
pub open spec fn strip_hash(s: Seq<char>) -> Seq<char> {
    if s.len() > 0 && s[0] == '#' {
        s.skip(1)
    } else {
        s
    }
}

/// A channel written with one digit: the digit twice.
pub open spec fn short_channel(hex: Seq<char>, channel: int) -> nat {
    0x11 * digit_or_zero(hex[channel])
}

/// A channel written with two digits.
pub open spec fn long_channel(hex: Seq<char>, channel: int) -> nat {
    0x10 * digit_or_zero(hex[2 * channel]) + digit_or_zero(hex[2 * channel + 1])
}

/// Four channels in one value: alpha in the high byte, then red, green, blue.
pub open spec fn pack(alpha: nat, red: nat, green: nat, blue: nat) -> nat {
    0x100_0000 * alpha + 0x1_0000 * red + 0x100 * green + blue
}

/// The colour that a string of digits stands for, the `#` already taken
/// off. The channels come in the order red, green, blue, alpha; without an
/// alpha channel the colour is opaque.
pub open spec fn colour_value(hex: Seq<char>) -> nat {
    if hex.len() == 3 {
        pack(0xFF, short_channel(hex, 0), short_channel(hex, 1), short_channel(hex, 2))
    } else if hex.len() == 4 {
        pack(
            short_channel(hex, 3),
            short_channel(hex, 0),
            short_channel(hex, 1),
            short_channel(hex, 2),
        )
    } else if hex.len() == 6 {
        pack(0xFF, long_channel(hex, 0), long_channel(hex, 1), long_channel(hex, 2))
    } else {
        pack(long_channel(hex, 3), long_channel(hex, 0), long_channel(hex, 1), long_channel(hex, 2))
    }
}

/// The part of a colour string that is reported when a character of it is
/// no hex digit. In the short forms that is one digit: the blue one is
/// looked at first, then green, red and alpha. In the long forms it is the
/// whole string.
pub open spec fn faulty_part(hex: Seq<char>) -> Seq<char> {
    if hex.len() == 3 || hex.len() == 4 {
        if hex_digit(hex[2]) is None {
            hex.subrange(2, 3)
        } else if hex_digit(hex[1]) is None {
            hex.subrange(1, 2)
        } else if hex_digit(hex[0]) is None {
            hex.subrange(0, 1)
        } else {
            hex.subrange(3, 4)
        }
    } else {
        hex
    }
}

/// What `parse_hex` makes of a string: the colour, or the fault and the
/// part of the string that it lies in.
pub open spec fn colour_of(s: Seq<char>) -> Result<u32, (HexFault, Seq<char>)> {
    let hex = strip_hash(s);
    if !(hex.len() == 3 || hex.len() == 4 || hex.len() == 6 || hex.len() == 8) {
        Err((HexFault::InvalidLength, hex))
    } else if !is_hex(hex) {
        Err((HexFault::InvalidDigit, faulty_part(hex)))
    } else {
        Ok(colour_value(hex) as u32)
    }
}

/// The words for a fault.
pub open spec fn fault_text(fault: HexFault) -> Seq<char> {
    match fault {
        HexFault::Empty => "cannot parse integer from empty string"@,
        HexFault::InvalidDigit => "invalid digit found in string"@,
        HexFault::TooLarge => "number too large to fit in target type"@,
        HexFault::InvalidLength => "Hex colour should have length 3, 4, 6, or 8"@,
    }
}

impl ParseHexError {
    /// What `message` returns.
    pub open spec fn message_text(&self) -> Seq<char> {
        "Could not parse \""@ + self.source@ + "\": "@ + fault_text(self.reason)
    }

    /// The error in words, for the user.
    pub fn message(&self) -> (text: String)
        ensures
            text@ == self.message_text(),
    {
        let mut text = String::from_str("Could not parse \"");
        text.append(self.source.as_str());
        text.append("\": ");
        match self.reason {
            HexFault::Empty => text.append("cannot parse integer from empty string"),
            HexFault::InvalidDigit => text.append("invalid digit found in string"),
            HexFault::TooLarge => text.append("number too large to fit in target type"),
            HexFault::InvalidLength => text.append("Hex colour should have length 3, 4, 6, or 8"),
        }
        text
    }
}

/// The value of a hex digit, or `None` for any other character.
pub fn hex_digit_value(c: char) -> (d: Option<u32>)
    ensures
        d == hex_digit(c),
        d matches Some(v) ==> v < 16,
{
    if '0' <= c && c <= '9' {
        Some(c as u32 - '0' as u32)
    } else if 'a' <= c && c <= 'f' {
        Some(c as u32 - 'a' as u32 + 10)
    } else if 'A' <= c && c <= 'F' {
        Some(c as u32 - 'A' as u32 + 10)
    } else {
        None
    }
}

/// A longer string of hex digits writes no smaller number than its
/// beginning does.
pub proof fn lemma_hex_value_grows(s: Seq<char>, n: int)
    requires
        0 <= n <= s.len(),
    ensures
        hex_value(s.take(n)) <= hex_value(s),
    decreases s.len(),
{
    if n == s.len() {
        assert(s.take(n) == s);
    } else {
        lemma_hex_value_grows(s.drop_last(), n);
        assert(s.drop_last().take(n) == s.take(n));
    }
}

/// Reads a string of hex digits as a number.
pub fn parse_hex_slice(slice: &str) -> (r: Result<u32, ParseHexError>)
    ensures
        match r {
            Ok(v) => hex_number(slice@) == Ok::<u32, HexFault>(v),
            Err(e) => hex_number(slice@) == Err::<u32, HexFault>(e.reason) && e.source@ == slice@,
        },
{
    let digits = chars_of(slice);
    if digits.len() == 0 {
        return Err(ParseHexError { reason: HexFault::Empty, source: String::from_str(slice) });
    }
    let mut i: usize = 0;
    while i < digits.len()
        invariant
            0 <= i <= digits@.len(),
            digits@ == slice@,
            digits@.len() > 0,
            forall|j: int| 0 <= j < i ==> hex_digit(#[trigger] digits@[j]) is Some,
        decreases digits@.len() - i,
    {
        if hex_digit_value(digits[i]).is_none() {
            assert(hex_digit(digits@[i as int]) is None);
            return Err(
                ParseHexError { reason: HexFault::InvalidDigit, source: String::from_str(slice) },
            );
        }
        i += 1;
    }
    let mut value: u32 = 0;
    let mut k: usize = 0;
    while k < digits.len()
        invariant
            0 <= k <= digits@.len(),
            digits@ == slice@,
            digits@.len() > 0,
            is_hex(digits@),
            value == hex_value(digits@.take(k as int)),
        decreases digits@.len() - k,
    {
        let digit: u32 = match hex_digit_value(digits[k]) {
            Some(d) => d,
            None => 0,
        };
        proof {
            let longer = digits@.take(k + 1);
            assert(longer.drop_last() == digits@.take(k as int));
            assert(longer.last() == digits@[k as int]);
            assert(hex_value(longer) == 16 * value + digit);
            lemma_hex_value_grows(digits@, k + 1);
        }
        if value > (u32::MAX - digit) / 16 {
            return Err(
                ParseHexError { reason: HexFault::TooLarge, source: String::from_str(slice) },
            );
        }
        value = 16 * value + digit;
        k += 1;
    }
    assert(digits@.take(k as int) == digits@);
    Ok(value)
}

/// A string of six or eight hex digits, read as one number, holds its
/// channels byte by byte.
pub proof fn lemma_hex_value_by_channels(hex: Seq<char>)
    requires
        hex.len() == 6 || hex.len() == 8,
        is_hex(hex),
    ensures
        hex.len() == 6 ==> hex_value(hex) == 0x1_0000 * long_channel(hex, 0) + 0x100
            * long_channel(hex, 1) + long_channel(hex, 2),
        hex.len() == 8 ==> hex_value(hex) == 0x100_0000 * long_channel(hex, 0) + 0x1_0000
            * long_channel(hex, 1) + 0x100 * long_channel(hex, 2) + long_channel(hex, 3),
        forall|c: int| 0 <= 2 * c < hex.len() ==> 0 <= #[trigger] long_channel(hex, c) <= 0xFF,
{
    let upto7 = hex.take(7);
    let upto6 = hex.take(6);
    let upto5 = hex.take(5);
    let upto4 = hex.take(4);
    let upto3 = hex.take(3);
    let upto2 = hex.take(2);
    let upto1 = hex.take(1);
    let upto0 = hex.take(0);
    assert(upto1.drop_last() == upto0 && upto1.last() == hex[0]);
    assert(upto2.drop_last() == upto1 && upto2.last() == hex[1]);
    assert(upto3.drop_last() == upto2 && upto3.last() == hex[2]);
    assert(upto4.drop_last() == upto3 && upto4.last() == hex[3]);
    assert(upto5.drop_last() == upto4 && upto5.last() == hex[4]);
    assert(upto6.drop_last() == upto5 && upto6.last() == hex[5]);
    assert(hex_value(upto0) == 0);
    assert(hex_value(upto1) == 16 * hex_value(upto0) + digit_or_zero(hex[0]));
    assert(hex_value(upto2) == 16 * hex_value(upto1) + digit_or_zero(hex[1]));
    assert(hex_value(upto3) == 16 * hex_value(upto2) + digit_or_zero(hex[2]));
    assert(hex_value(upto4) == 16 * hex_value(upto3) + digit_or_zero(hex[3]));
    assert(hex_value(upto5) == 16 * hex_value(upto4) + digit_or_zero(hex[4]));
    assert(hex_value(upto6) == 16 * hex_value(upto5) + digit_or_zero(hex[5]));
    if hex.len() == 6 {
        assert(upto6 == hex);
    } else {
        let upto8 = hex.take(8);
        assert(upto7.drop_last() == upto6 && upto7.last() == hex[6]);
        assert(upto8.drop_last() == upto7 && upto8.last() == hex[7]);
        assert(hex_value(upto7) == 16 * hex_value(upto6) + digit_or_zero(hex[6]));
        assert(hex_value(upto8) == 16 * hex_value(upto7) + digit_or_zero(hex[7]));
        assert(upto8 == hex);
    }
    assert forall|c: int| 0 <= 2 * c < hex.len() implies 0 <= #[trigger] long_channel(hex, c)
        <= 0xFF by {
        assert(hex_digit(hex[2 * c]) is Some);
        assert(hex_digit(hex[2 * c + 1]) is Some);
    }
}

/// Reads one digit of a short colour, at `at` in `hex`.
fn parse_short_digit(hex: &str, at: usize) -> (r: Result<u32, ParseHexError>)
    requires
        at < hex@.len(),
        at < 4,
    ensures
        match r {
            Ok(v) => hex_digit(hex@[at as int]) == Some(v) && v < 16,
            Err(e) => hex_digit(hex@[at as int]) is None && e.reason == HexFault::InvalidDigit
                && e.source@ == hex@.subrange(at as int, at + 1),
        },
{
    let digit = hex.substring_char(at, at + 1);
    let r = parse_hex_slice(digit);
    proof {
        let one = hex@.subrange(at as int, at + 1);
        assert(one.len() == 1);
        assert(one[0] == hex@[at as int]);
        assert(one.drop_last() == Seq::<char>::empty());
        assert(hex_value(one.drop_last()) == 0);
        assert(hex_value(one) == digit_or_zero(one.last()));
        if hex_digit(hex@[at as int]) is Some {
            assert(is_hex(one));
        } else {
            assert(!is_hex(one));
        }
    }
    r
}

/// Reads a colour of three or four digits.
fn parse_short_colour(hex: &str) -> (r: Result<u32, ParseHexError>)
    requires
        hex@.len() == 3 || hex@.len() == 4,
    ensures
        match r {
            Ok(colour) => is_hex(hex@) && colour == colour_value(hex@),
            Err(e) => !is_hex(hex@) && e.reason == HexFault::InvalidDigit && e.source@
                == faulty_part(hex@),
        },
{
    let blue: u32 = match parse_short_digit(hex, 2) {
        Ok(d) => d,
        Err(e) => {
            return Err(e);
        },
    };
    let green: u32 = match parse_short_digit(hex, 1) {
        Ok(d) => d,
        Err(e) => {
            return Err(e);
        },
    };
    let red: u32 = match parse_short_digit(hex, 0) {
        Ok(d) => d,
        Err(e) => {
            return Err(e);
        },
    };
    let opaque: bool = hex.unicode_len() == 3;
    let alpha: u32 = if opaque {
        0xFF
    } else {
        match parse_short_digit(hex, 3) {
            Ok(d) => 0x11 * d,
            Err(e) => {
                return Err(e);
            },
        }
    };
    assert(is_hex(hex@)) by {
        assert forall|i: int| 0 <= i < hex@.len() implies hex_digit(#[trigger] hex@[i])
            is Some by {
            assert(i == 0 || i == 1 || i == 2 || i == 3);
        }
    }
    Ok(0x100_0000 * alpha + 0x1_0000 * (0x11 * red) + 0x100 * (0x11 * green) + 0x11 * blue)
}

/// A number splits into its last byte and what stands before it.
proof fn lemma_last_byte(before: int, last: int)
    requires
        0 <= before,
        0 <= last < 0x100,
    ensures
        (0x100 * before + last) / 0x100 == before,
        (0x100 * before + last) % 0x100 == last,
{
}

/// Reads a colour of six or eight digits.
fn parse_long_colour(hex: &str) -> (r: Result<u32, ParseHexError>)
    requires
        hex@.len() == 6 || hex@.len() == 8,
    ensures
        match r {
            Ok(colour) => is_hex(hex@) && colour == colour_value(hex@),
            Err(e) => !is_hex(hex@) && e.reason == HexFault::InvalidDigit && e.source@ == hex@,
        },
{
    let ghost red = long_channel(hex@, 0) as int;
    let ghost green = long_channel(hex@, 1) as int;
    let ghost blue = long_channel(hex@, 2) as int;
    let ghost alpha = long_channel(hex@, 3) as int;
    proof {
        if is_hex(hex@) {
            lemma_hex_value_by_channels(hex@);
            assert(0 <= red <= 0xFF && 0 <= green <= 0xFF && 0 <= blue <= 0xFF);
            if hex@.len() == 8 {
                assert(0 <= alpha <= 0xFF);
                lemma_last_byte(0x1_0000 * red + 0x100 * green + blue, alpha);
            }
        }
    }
    let number: u32 = match parse_hex_slice(hex) {
        Ok(v) => v,
        Err(e) => {
            return Err(e);
        },
    };
    if hex.unicode_len() == 6 {
        assert(number == 0x1_0000 * red + 0x100 * green + blue);
        Ok(0xFF_00_00_00 + number)
    } else {
        assert(number == 0x100 * (0x1_0000 * red + 0x100 * green + blue) + alpha);
        let rgb: u32 = number / 0x100;
        let a: u32 = number % 0x100;
        assert(rgb == 0x1_0000 * red + 0x100 * green + blue);
        assert(a == alpha);
        Ok(a * 0x100_0000 + rgb)
    }
}

/// Reads a hex colour as `0xAARRGGBB`. One leading `#` is skipped. Three or
/// four digits give one digit per channel, which counts twice (`f` is
/// `ff`); six or eight give two per channel. The channels are red, green,
/// blue and then alpha; a colour without alpha is opaque.
pub fn parse_hex(hex: &str) -> (r: Result<u32, ParseHexError>)
    ensures
        match r {
            Ok(colour) => colour_of(hex@) == Ok::<u32, (HexFault, Seq<char>)>(colour),
            Err(e) => colour_of(hex@) == Err::<u32, (HexFault, Seq<char>)>((e.reason, e.source@)),
        },
{
    let all = chars_of(hex);
    let start: usize = if all.len() > 0 && all[0] == '#' {
        1
    } else {
        0
    };
    let digits = hex.substring_char(start, all.len());
    let len: usize = all.len() - start;
    assert(digits@ == strip_hash(hex@));
    if len == 3 || len == 4 {
        parse_short_colour(digits)
    } else if len == 6 || len == 8 {
        parse_long_colour(digits)
    } else {
        Err(ParseHexError { reason: HexFault::InvalidLength, source: String::from_str(digits) })
    }
}

/// The short forms stand for the long ones with every digit doubled.
pub proof fn lemma_short_form_doubles(short: Seq<char>, long: Seq<char>)
    requires
        short.len() == 3 || short.len() == 4,
        is_hex(short),
        long.len() == 2 * short.len(),
        forall|i: int| 0 <= i < long.len() ==> #[trigger] long[i] == short[i / 2],
    ensures
        colour_of(long) == colour_of(short),
        colour_of(short) is Ok,
{
    assert(long[0] == short[0]);
    assert(long[1] == short[0]);
    assert(long[2] == short[1]);
    assert(long[3] == short[1]);
    assert(long[4] == short[2]);
    assert(long[5] == short[2]);
    if short.len() == 4 {
        assert(long[6] == short[3]);
        assert(long[7] == short[3]);
    }
    assert(hex_digit(short[0]) is Some);
    assert(strip_hash(short) == short);
    assert(strip_hash(long) == long);
    assert forall|i: int| 0 <= i < long.len() implies hex_digit(#[trigger] long[i]) is Some by {
        assert(hex_digit(short[i / 2]) is Some);
    }
}

} // verus!
