//! Textual number and register-name codecs: fixed-width hexadecimal
//! literals (`#1F'FF`, with `'` and `_` accepted as grouping), register
//! names (`x0`..`x31` and the ABI aliases), fence predecessor/successor
//! sets, and rendering a word back to hexadecimal.

use vstd::prelude::*;
use vstd::string::StrSliceExecFns;
use vstd::string::StringExecFns;

verus! {

/// Why a hexadecimal literal was rejected.
#[derive(Clone, Copy, Debug, PartialEq, Eq, Structural)]
pub enum HexParseError {
    /// The number does not start with `#`.
    MissingHash,
    /// Nothing follows the `#`.
    Empty,
    /// The number does not fit the requested width.
    TooWide,
    /// A character that is neither a hex digit nor `'` nor `_`.
    InvalidDigit(char),
    /// A negated number too large for two's complement in the width.
    TooLargeToNegate,
}

/// Why a register name was rejected.
#[derive(Clone, Copy, Debug, PartialEq, Eq, Structural)]
pub enum RegParseError {
    /// The name starts with none of `x`, `t`, `s`, `a`.
    BadPrefix(char),
    /// A non-decimal character in the register number.
    BadDigit(char),
    /// A number outside the register file.
    NoSuchRegister,
}

/// Why a fence predecessor/successor set was rejected.
#[derive(Clone, Copy, Debug, PartialEq, Eq, Structural)]
pub enum PredSuccError {
    /// A character that is none of `i`, `o`, `r`, `w`.
    BadChar(char),
    /// A repeated character.
    Duplicate(char),
}

/// Grouping characters a hexadecimal literal may contain anywhere.
pub open spec fn spec_is_skip(c: char) -> bool {
    c == '\'' || c == '_'
}

/// Whether `c` is a hexadecimal digit.
pub open spec fn spec_is_hex_digit(c: char) -> bool {
    ||| ('0' as u32) <= (c as u32) <= ('9' as u32)
    ||| ('A' as u32) <= (c as u32) <= ('F' as u32)
    ||| ('a' as u32) <= (c as u32) <= ('f' as u32)
}

/// The value of a hexadecimal digit.
pub open spec fn spec_hex_digit_val(c: char) -> u32 {
    if ('0' as u32) <= (c as u32) <= ('9' as u32) {
        ((c as u32) - ('0' as u32)) as u32
    } else if ('A' as u32) <= (c as u32) <= ('F' as u32) {
        ((c as u32) - ('A' as u32) + 10) as u32
    } else {
        ((c as u32) - ('a' as u32) + 10) as u32
    }
}

/// The digit scan of a hexadecimal body from position `i` with the
/// digits before `i` already accumulated in `n`: grouping characters
/// are skipped, a number reaching the width bound is rejected before
/// the next digit is taken in, and an alien character is rejected.
pub open spec fn spec_hex_scan(s: Seq<char>, i: int, n: u32, width: u32) -> Result<u32, HexParseError>
    decreases s.len() - i,
{
    if i < 0 || i >= s.len() {
        Ok(n)
    } else if spec_is_skip(s[i]) {
        spec_hex_scan(s, i + 1, n, width)
    } else if n >= (1u32 << ((width - 4) as u32)) {
        Err(HexParseError::TooWide)
    } else if !spec_is_hex_digit(s[i]) {
        Err(HexParseError::InvalidDigit(s[i]))
    } else {
        spec_hex_scan(s, i + 1, ((n * 16 + spec_hex_digit_val(s[i])) as u32), width)
    }
}

/// The two's complement of `n` in `width` bits (`n < 2^(width-1)`,
/// `width < 32`).
pub open spec fn spec_negate(n: u32, width: u32) -> u32 {
    if n == 0 {
        0
    } else {
        ((1u32 << width) - n) as u32
    }
}

/// What parsing a hexadecimal literal of the given width yields: an
/// optional leading `-`, a mandatory `#`, a non-empty body of digits
/// and grouping characters, a value under `2^width`, and for a negated
/// number a magnitude under `2^(width-1)` encoded in two's complement.
pub open spec fn spec_from_hex(s: Seq<char>, width: u32) -> Result<u32, HexParseError> {
    let neg = s.len() > 0 && s[0] == '-';
    let body = if neg { s.skip(1) } else { s };
    if !(body.len() > 0 && body[0] == '#') {
        Err(HexParseError::MissingHash)
    } else if body.len() == 1 {
        Err(HexParseError::Empty)
    } else {
        match spec_hex_scan(body.skip(1), 0, 0, width) {
            Err(e) => Err(e),
            Ok(n) => if neg {
                if n >= (1u32 << ((width - 1) as u32)) {
                    Err(HexParseError::TooLargeToNegate)
                } else {
                    Ok(spec_negate(n, width))
                }
            } else {
                Ok(n)
            },
        }
    }
}

/// Parses a fixed-width hexadecimal literal such as `#1F'FF` or
/// `-#800`, as `spec_from_hex` describes. A negated 32-bit literal is
/// outside this parser's domain.
pub fn from_hex(s: &str, width: u32) -> (r: Result<u32, HexParseError>)
    requires
        4 <= width <= 32,
        width == 32 ==> !(s@.len() > 0 && s@[0] == '-'),
    ensures
        r == spec_from_hex(s@, width),
{
    let len = s.unicode_len();
    let is_neg = len > 0 && s.get_char(0) == '-';
    let start: usize = if is_neg { 1 } else { 0 };
    if !(start < len && s.get_char(start) == '#') {
        return Err(HexParseError::MissingHash);
    }
    let ghost body = if is_neg { s@.skip(2) } else { s@.skip(1) };
    proof {
        assert(body =~= (if is_neg { s@.skip(1) } else { s@ }).skip(1));
    }
    let mut i = start + 1;
    if i == len {
        return Err(HexParseError::Empty);
    }
    let bound: u32 = 1u32 << (width - 4);
    let mut n: u32 = 0;
    while i < len
        invariant
            start + 1 <= i <= len,
            start == (if is_neg { 1usize } else { 0usize }),
            len == s@.len(),
            4 <= width <= 32,
            bound == (1u32 << ((width - 4) as u32)),
            body == s@.skip(start + 1),
            is_neg == (s@.len() > 0 && s@[0] == '-'),
            s@[start as int] == '#',
            (if is_neg { s@.skip(1) } else { s@ }).skip(1) == body,
            width == 32 ==> !is_neg,
            spec_hex_scan(body, 0, 0, width)
                == spec_hex_scan(body, i - start - 1, n, width),
        decreases len - i,
    {
        let c = s.get_char(i);
        proof {
            assert(body[i - start - 1] == s@[i as int]);
        }
        if c == '\'' || c == '_' {
            i = i + 1;
            continue;
        }
        if n >= bound {
            return Err(HexParseError::TooWide);
        }
        proof {
            assert(bound <= 0x1000_0000u32) by (bit_vector)
                requires bound == 1u32 << ((width - 4) as u32) && width <= 32;
        }
        let cu = c as u32;
        let d: u32;
        if cu >= 48 && cu <= 57 {
            d = cu - 48;
        } else if cu >= 65 && cu <= 70 {
            d = cu - 65 + 10;
        } else if cu >= 97 && cu <= 102 {
            d = cu - 97 + 10;
        } else {
            proof {
                assert(('0' as u32) == 48 && ('9' as u32) == 57 && ('A' as u32) == 65
                    && ('F' as u32) == 70 && ('a' as u32) == 97 && ('f' as u32) == 102);
            }
            return Err(HexParseError::InvalidDigit(c));
        }
        proof {
            assert(spec_is_hex_digit(c) && d == spec_hex_digit_val(c));
        }
        n = n * 16 + d;
        i = i + 1;
    }
    if is_neg {
        proof {
            assert(width < 32);
        }
        let half: u32 = 1u32 << (width - 1);
        if n >= half {
            return Err(HexParseError::TooLargeToNegate);
        }
        if n == 0 {
            Ok(0)
        } else {
            proof {
                assert(n < 1u32 << width) by (bit_vector)
                    requires n < 1u32 << ((width - 1) as u32) && 4 <= width < 32;
            }
            Ok((1u32 << width) - n)
        }
    } else {
        Ok(n)
    }
}

/// Whether `c` is a decimal digit.
pub open spec fn spec_is_dec_digit(c: char) -> bool {
    ('0' as u32) <= (c as u32) <= ('9' as u32)
}

/// The value of a decimal digit.
pub open spec fn spec_dec_digit_val(c: char) -> u32 {
    ((c as u32) - ('0' as u32)) as u32
}

/// The scan of a register number from position `i` with `n` accumulated:
/// a non-digit is rejected, and so is a number above 31 as soon as it
/// exceeds it.
pub open spec fn spec_reg_digits(s: Seq<char>, i: int, n: u32) -> Result<u32, RegParseError>
    decreases s.len() - i,
{
    if i < 0 || i >= s.len() {
        Ok(n)
    } else if !spec_is_dec_digit(s[i]) {
        Err(RegParseError::BadDigit(s[i]))
    } else {
        let n2 = ((n * 10 + spec_dec_digit_val(s[i])) as u32);
        if n2 > 31 {
            Err(RegParseError::NoSuchRegister)
        } else {
            spec_reg_digits(s, i + 1, n2)
        }
    }
}

/// The register each prefixed name denotes: `x0`..`x31` directly,
/// `t0`..`t6`, `s0`..`s11` and `a0`..`a7` through the ABI layout.
pub open spec fn spec_reg_map(prefix: char, n: u32) -> Result<u32, RegParseError> {
    if prefix == 'x' {
        Ok(n)
    } else if prefix == 't' && n <= 2 {
        Ok((5 + n) as u32)
    } else if prefix == 's' && n <= 1 {
        Ok((8 + n) as u32)
    } else if prefix == 'a' && n <= 7 {
        Ok((10 + n) as u32)
    } else if prefix == 's' && 2 <= n <= 11 {
        Ok((16 + n) as u32)
    } else if prefix == 't' && 3 <= n <= 6 {
        Ok((25 + n) as u32)
    } else {
        Err(RegParseError::NoSuchRegister)
    }
}

/// What parsing a register name yields: one of the bare aliases, or a
/// prefix in `x`/`t`/`s`/`a` followed by a register number. A bare
/// prefix counts as number 0, as `x` alone does.
pub open spec fn spec_parse_reg(s: Seq<char>) -> Result<u32, RegParseError> {
    if s.len() == 4 && s[0] == 'z' && s[1] == 'e' && s[2] == 'r' && s[3] == 'o' {
        Ok(0)
    } else if s.len() == 2 && s[0] == 'r' && s[1] == 'a' {
        Ok(1)
    } else if s.len() == 2 && s[0] == 's' && s[1] == 'p' {
        Ok(2)
    } else if s.len() == 2 && s[0] == 'g' && s[1] == 'p' {
        Ok(3)
    } else if s.len() == 2 && s[0] == 't' && s[1] == 'p' {
        Ok(4)
    } else if s.len() == 2 && s[0] == 'f' && s[1] == 'p' {
        Ok(8)
    } else if s.len() == 0 {
        Err(RegParseError::NoSuchRegister)
    } else if !(s[0] == 'x' || s[0] == 't' || s[0] == 's' || s[0] == 'a') {
        Err(RegParseError::BadPrefix(s[0]))
    } else {
        match spec_reg_digits(s.skip(1), 0, 0) {
            Err(e) => Err(e),
            Ok(n) => spec_reg_map(s[0], n),
        }
    }
}

/// Scans the digits after a register-name prefix.
fn parse_reg_digits(s: &str) -> (r: Result<u32, RegParseError>)
    requires
        s@.len() >= 1,
    ensures
        r == spec_reg_digits(s@.skip(1), 0, 0),
        r matches Ok(n) ==> n <= 31,
{
    let len = s.unicode_len();
    let ghost ds = s@.skip(1);
    let mut n: u32 = 0;
    let mut i: usize = 1;
    while i < len
        invariant
            1 <= i <= len,
            len == s@.len(),
            n <= 31,
            ds == s@.skip(1),
            spec_reg_digits(ds, 0, 0) == spec_reg_digits(ds, i - 1, n),
        decreases len - i,
    {
        let c = s.get_char(i);
        proof {
            assert(ds[i - 1] == s@[i as int]);
            assert(('0' as u32) == 48 && ('9' as u32) == 57);
        }
        let cu = c as u32;
        if !(cu >= 48 && cu <= 57) {
            return Err(RegParseError::BadDigit(c));
        }
        n = n * 10 + (cu - 48);
        if n > 31 {
            return Err(RegParseError::NoSuchRegister);
        }
        i = i + 1;
    }
    Ok(n)
}

/// Parses a register name, as `spec_parse_reg` describes: a bare alias
/// (`zero`, `ra`, `sp`, `gp`, `tp`, `fp`) or a prefixed number such as
/// `x31`, `t3`, `s11`, `a7`.
pub fn parse_reg(s: &str) -> (r: Result<u32, RegParseError>)
    requires
        s@.len() > 0,
    ensures
        r == spec_parse_reg(s@),
{
    let len = s.unicode_len();
    if len == 4 && s.get_char(0) == 'z' && s.get_char(1) == 'e' && s.get_char(2) == 'r'
        && s.get_char(3) == 'o' {
        return Ok(0);
    }
    if len == 2 {
        let c0 = s.get_char(0);
        let c1 = s.get_char(1);
        if c0 == 'r' && c1 == 'a' {
            return Ok(1);
        }
        if c0 == 's' && c1 == 'p' {
            return Ok(2);
        }
        if c0 == 'g' && c1 == 'p' {
            return Ok(3);
        }
        if c0 == 't' && c1 == 'p' {
            return Ok(4);
        }
        if c0 == 'f' && c1 == 'p' {
            return Ok(8);
        }
    }
    let prefix = s.get_char(0);
    if !(prefix == 'x' || prefix == 't' || prefix == 's' || prefix == 'a') {
        return Err(RegParseError::BadPrefix(prefix));
    }
    match parse_reg_digits(s) {
        Err(e) => Err(e),
        Ok(n) => {
            if prefix == 'x' {
                Ok(n)
            } else if prefix == 't' && n <= 2 {
                Ok(5 + n)
            } else if prefix == 's' && n <= 1 {
                Ok(8 + n)
            } else if prefix == 'a' && n <= 7 {
                Ok(10 + n)
            } else if prefix == 's' && n >= 2 && n <= 11 {
                Ok(16 + n)
            } else if prefix == 't' && n >= 3 && n <= 6 {
                Ok(25 + n)
            } else {
                Err(RegParseError::NoSuchRegister)
            }
        },
    }
}

/// The fence-set bit of a character, or 0 for an alien character:
/// device input `i`, device output `o`, memory reads `r`, memory
/// writes `w`.
pub open spec fn spec_pred_succ_bit(c: char) -> u32 {
    if c == 'i' {
        8
    } else if c == 'o' {
        4
    } else if c == 'r' {
        2
    } else if c == 'w' {
        1
    } else {
        0
    }
}

/// The scan of a fence set from position `i` with bits `n` gathered: an
/// alien character is rejected, and so is a repeated one.
pub open spec fn spec_pred_succ_scan(s: Seq<char>, i: int, n: u32) -> Result<u32, PredSuccError>
    decreases s.len() - i,
{
    if i < 0 || i >= s.len() {
        Ok(n)
    } else if spec_pred_succ_bit(s[i]) == 0 {
        Err(PredSuccError::BadChar(s[i]))
    } else if n & spec_pred_succ_bit(s[i]) != 0 {
        Err(PredSuccError::Duplicate(s[i]))
    } else {
        spec_pred_succ_scan(s, i + 1, n | spec_pred_succ_bit(s[i]))
    }
}

/// Parses a fence predecessor/successor set such as `rw` or `iorw`
/// into its four-bit mask, each character at most once.
pub fn parse_pred_succ(s: &str) -> (r: Result<u32, PredSuccError>)
    ensures
        r == spec_pred_succ_scan(s@, 0, 0),
{
    let len = s.unicode_len();
    let mut n: u32 = 0;
    let mut i: usize = 0;
    while i < len
        invariant
            i <= len,
            len == s@.len(),
            spec_pred_succ_scan(s@, 0, 0) == spec_pred_succ_scan(s@, i as int, n),
        decreases len - i,
    {
        let c = s.get_char(i);
        let b: u32 = if c == 'i' {
            8
        } else if c == 'o' {
            4
        } else if c == 'r' {
            2
        } else if c == 'w' {
            1
        } else {
            return Err(PredSuccError::BadChar(c));
        };
        if n & b != 0 {
            return Err(PredSuccError::Duplicate(c));
        }
        n = n | b;
        i = i + 1;
    }
    Ok(n)
}

/// The character of one hexadecimal nibble, upper case.
pub open spec fn spec_nibble_char(v: u32) -> char {
    if v == 0 { '0' } else if v == 1 { '1' } else if v == 2 { '2' } else if v == 3 { '3' }
    else if v == 4 { '4' } else if v == 5 { '5' } else if v == 6 { '6' } else if v == 7 { '7' }
    else if v == 8 { '8' } else if v == 9 { '9' } else if v == 10 { 'A' } else if v == 11 { 'B' }
    else if v == 12 { 'C' } else if v == 13 { 'D' } else if v == 14 { 'E' } else { 'F' }
}

/// The rendering of a word: `#`, four nibbles, `'`, four nibbles.
pub open spec fn spec_u32_to_hex(x: u32) -> Seq<char> {
    seq![
        '#',
        spec_nibble_char((x >> 28) & 0xF),
        spec_nibble_char((x >> 24) & 0xF),
        spec_nibble_char((x >> 20) & 0xF),
        spec_nibble_char((x >> 16) & 0xF),
        '\'',
        spec_nibble_char((x >> 12) & 0xF),
        spec_nibble_char((x >> 8) & 0xF),
        spec_nibble_char((x >> 4) & 0xF),
        spec_nibble_char(x & 0xF),
    ]
}

/// The rendering of an upper 20-bit immediate: `#`, four nibbles, `'`,
/// one nibble.
pub open spec fn spec_upper_imm20_to_hex(x: u32) -> Seq<char> {
    seq![
        '#',
        spec_nibble_char((x >> 16) & 0xF),
        spec_nibble_char((x >> 12) & 0xF),
        spec_nibble_char((x >> 8) & 0xF),
        spec_nibble_char((x >> 4) & 0xF),
        '\'',
        spec_nibble_char(x & 0xF),
    ]
}

/// Appends the character of one nibble.
fn push_nibble(out: &mut String, v: u32)
    requires
        v < 16,
    ensures
        final(out)@ == old(out)@ + seq![spec_nibble_char(v)],
{
    let digits = "0123456789ABCDEF";
    proof {
        reveal_strlit("0123456789ABCDEF");
    }
    let piece = digits.substring_ascii(v as usize, v as usize + 1);
    out.append(piece);
    proof {
        assert(piece@ =~= seq![spec_nibble_char(v)]);
    }
}

/// A nibble's character is a plain hexadecimal digit carrying the
/// nibble's value.
proof fn lemma_nibble_char(v: u32)
    requires
        v < 16,
    ensures
        !spec_is_skip(spec_nibble_char(v)),
        spec_is_hex_digit(spec_nibble_char(v)),
        spec_hex_digit_val(spec_nibble_char(v)) == v,
        spec_nibble_char(v) != '-',
        spec_nibble_char(v) != '#',
{
}

/// Parsing a rendered word at full width reads the word back: the
/// renderer and the parser agree.
pub proof fn lemma_hex_render_parse(x: u32)
    ensures
        spec_from_hex(spec_u32_to_hex(x), 32) == Ok::<u32, HexParseError>(x),
{
    let s = spec_u32_to_hex(x);
    let d = s.skip(1);
    let n7 = (x >> 28) & 0xF;
    let n6 = (x >> 24) & 0xF;
    let n5 = (x >> 20) & 0xF;
    let n4 = (x >> 16) & 0xF;
    let n3 = (x >> 12) & 0xF;
    let n2 = (x >> 8) & 0xF;
    let n1 = (x >> 4) & 0xF;
    let n0 = x & 0xF;
    assert(((x >> 28) & 0xF) < 16 && ((x >> 24) & 0xF) < 16 && ((x >> 20) & 0xF) < 16
        && ((x >> 16) & 0xF) < 16 && ((x >> 12) & 0xF) < 16 && ((x >> 8) & 0xF) < 16
        && ((x >> 4) & 0xF) < 16 && (x & 0xF) < 16) by (bit_vector);
    lemma_nibble_char(n7);
    lemma_nibble_char(n6);
    lemma_nibble_char(n5);
    lemma_nibble_char(n4);
    lemma_nibble_char(n3);
    lemma_nibble_char(n2);
    lemma_nibble_char(n1);
    lemma_nibble_char(n0);
    assert(d =~= seq![
        spec_nibble_char(n7),
        spec_nibble_char(n6),
        spec_nibble_char(n5),
        spec_nibble_char(n4),
        '\'',
        spec_nibble_char(n3),
        spec_nibble_char(n2),
        spec_nibble_char(n1),
        spec_nibble_char(n0),
    ]);
    let v7 = x >> 28;
    let v6 = x >> 24;
    let v5 = x >> 20;
    let v4 = x >> 16;
    let v3 = x >> 12;
    let v2 = x >> 8;
    let v1 = x >> 4;
    assert((x >> 28) < 0x1000_0000 && (x >> 24) < 0x1000_0000 && (x >> 20) < 0x1000_0000
        && (x >> 16) < 0x1000_0000 && (x >> 12) < 0x1000_0000 && (x >> 8) < 0x1000_0000
        && (x >> 4) < 0x1000_0000) by (bit_vector);
    assert(x >> 28 == 0 * 16 + ((x >> 28) & 0xF)) by (bit_vector);
    assert(x >> 24 == (x >> 28) * 16 + ((x >> 24) & 0xF)) by (bit_vector);
    assert(x >> 20 == (x >> 24) * 16 + ((x >> 20) & 0xF)) by (bit_vector);
    assert(x >> 16 == (x >> 20) * 16 + ((x >> 16) & 0xF)) by (bit_vector);
    assert(x >> 12 == (x >> 16) * 16 + ((x >> 12) & 0xF)) by (bit_vector);
    assert(x >> 8 == (x >> 12) * 16 + ((x >> 8) & 0xF)) by (bit_vector);
    assert(x >> 4 == (x >> 8) * 16 + ((x >> 4) & 0xF)) by (bit_vector);
    assert(x == (x >> 4) * 16 + (x & 0xF)) by (bit_vector);
    assert((1u32 << ((32u32 - 4) as u32)) == 0x1000_0000) by (bit_vector);
    assert(spec_hex_scan(d, 0, 0, 32) == spec_hex_scan(d, 1, v7, 32));
    assert(spec_hex_scan(d, 1, v7, 32) == spec_hex_scan(d, 2, v6, 32));
    assert(spec_hex_scan(d, 2, v6, 32) == spec_hex_scan(d, 3, v5, 32));
    assert(spec_hex_scan(d, 3, v5, 32) == spec_hex_scan(d, 4, v4, 32));
    assert(spec_hex_scan(d, 4, v4, 32) == spec_hex_scan(d, 5, v4, 32));
    assert(spec_hex_scan(d, 5, v4, 32) == spec_hex_scan(d, 6, v3, 32));
    assert(spec_hex_scan(d, 6, v3, 32) == spec_hex_scan(d, 7, v2, 32));
    assert(spec_hex_scan(d, 7, v2, 32) == spec_hex_scan(d, 8, v1, 32));
    assert(spec_hex_scan(d, 8, v1, 32) == spec_hex_scan(d, 9, x, 32));
    assert(spec_hex_scan(d, 9, x, 32) == Ok::<u32, HexParseError>(x));
}

/// Renders a word as `#XXXX'XXXX`.
pub fn u32_to_hex(x: u32) -> (r: String)
    ensures
        r@ == spec_u32_to_hex(x),
{
    let mut out = String::new();
    proof {
        reveal_strlit("#");
        reveal_strlit("'");
    }
    out.append("#");
    proof {
        assert((x >> 28) & 0xF < 16 && (x >> 24) & 0xF < 16 && (x >> 20) & 0xF < 16
            && (x >> 16) & 0xF < 16 && (x >> 12) & 0xF < 16 && (x >> 8) & 0xF < 16
            && (x >> 4) & 0xF < 16 && x & 0xF < 16) by (bit_vector);
    }
    push_nibble(&mut out, (x >> 28) & 0xF);
    push_nibble(&mut out, (x >> 24) & 0xF);
    push_nibble(&mut out, (x >> 20) & 0xF);
    push_nibble(&mut out, (x >> 16) & 0xF);
    out.append("'");
    push_nibble(&mut out, (x >> 12) & 0xF);
    push_nibble(&mut out, (x >> 8) & 0xF);
    push_nibble(&mut out, (x >> 4) & 0xF);
    push_nibble(&mut out, x & 0xF);
    proof {
        assert(out@ =~= spec_u32_to_hex(x));
    }
    out
}

/// Renders an upper 20-bit immediate as `#XXXX'X`.
pub fn upper_imm20_to_hex(x: u32) -> (r: String)
    requires
        x < 0x10_0000,
    ensures
        r@ == spec_upper_imm20_to_hex(x),
{
    let mut out = String::new();
    proof {
        reveal_strlit("#");
        reveal_strlit("'");
    }
    out.append("#");
    proof {
        assert((x >> 16) & 0xF < 16 && (x >> 12) & 0xF < 16 && (x >> 8) & 0xF < 16
            && (x >> 4) & 0xF < 16 && x & 0xF < 16) by (bit_vector);
    }
    push_nibble(&mut out, (x >> 16) & 0xF);
    push_nibble(&mut out, (x >> 12) & 0xF);
    push_nibble(&mut out, (x >> 8) & 0xF);
    push_nibble(&mut out, (x >> 4) & 0xF);
    out.append("'");
    push_nibble(&mut out, x & 0xF);
    proof {
        assert(out@ =~= spec_upper_imm20_to_hex(x));
    }
    out
}

} // verus!
