//! Literals: unsigned numbers in three radixes, and quoted characters and
//! strings with escapes, decoded from UTF-8.

use vstd::prelude::*;
use vstd::string::{StringExecFns, StringSliceAdditionalSpecFns};
use crate::lexer::{
    byte_at, lex_token, outcome, push_char, skip_trivia, starts_with, KindParser, ParseError,
    Parsed,
};

verus! {

/// The value of a digit byte in radix 16, or 36 for a byte that is no
/// digit.
pub open spec fn digit_value(b: u8) -> int {
    if 0x30 <= b <= 0x39 {
        b - 0x30
    } else if 0x61 <= b <= 0x66 {
        b - 0x61 + 10
    } else if 0x41 <= b <= 0x46 {
        b - 0x41 + 10
    } else {
        36
    }
}

/// A byte that continues a number: a digit of the radix, or `_`.
pub open spec fn is_number_byte(b: u8, radix: int) -> bool {
    digit_value(b) < radix || b == 0x5F
}

/// The offset of the first byte at or after `i` that does not continue a
/// number of the given radix.
pub open spec fn digits_end(s: Seq<u8>, i: int, radix: int) -> int
    decreases s.len() - i,
{
    if 0 <= i < s.len() && is_number_byte(s[i], radix) {
        digits_end(s, i + 1, radix)
    } else {
        i
    }
}

/// How many digits, not counting `_`, stand in `s` from `from` up to `to`.
pub open spec fn digits_count(s: Seq<u8>, from: int, to: int) -> nat
    decreases to - from,
{
    if to <= from {
        0
    } else if s[to - 1] == 0x5F {
        digits_count(s, from, to - 1)
    } else {
        digits_count(s, from, to - 1) + 1
    }
}

/// The number that the digits in `s` from `from` up to `to` spell in the
/// given radix, most significant digit first, skipping `_`.
pub open spec fn digits_value(s: Seq<u8>, from: int, to: int, radix: int) -> int
    decreases to - from,
{
    if to <= from {
        0
    } else if s[to - 1] == 0x5F {
        digits_value(s, from, to - 1, radix)
    } else {
        digits_value(s, from, to - 1, radix) * radix + digit_value(s[to - 1])
    }
}

/// The radix that a number at offset `j` is written in: 16 after `0x`, 2
/// after `0b`, 10 otherwise.
pub open spec fn radix_at(s: Seq<u8>, j: int) -> int {
    if starts_with(s, j, "0x".spec_bytes()) {
        16
    } else if starts_with(s, j, "0b".spec_bytes()) {
        2
    } else {
        10
    }
}

/// The offset of the first digit of a number at offset `j`, after its radix
/// prefix if it has one.
pub open spec fn digits_start(s: Seq<u8>, j: int) -> int {
    if starts_with(s, j, "0x".spec_bytes()) {
        j + "0x".spec_bytes().len()
    } else if starts_with(s, j, "0b".spec_bytes()) {
        j + "0b".spec_bytes().len()
    } else {
        j
    }
}

/// What the error for a number beyond 64 bits says besides what was
/// expected.
pub const TOO_LARGE: &'static str = "number too large to fit in target type";

/// An unsigned number: after trivia, an optional `0x` or `0b`, then digits
/// of the radix with `_` allowed between them. At least one digit is
/// needed, and the number has to fit in 64 bits; one that does not is
/// refused with a line of information.
pub open spec fn lex_u64(s: Seq<u8>, i: int) -> Parsed<u64> {
    let j = skip_trivia(s, i);
    let radix = radix_at(s, j);
    let k = digits_start(s, j);
    let e = digits_end(s, k, radix);
    if digits_count(s, k, e) == 0 {
        Parsed::Fail { at: e, expected: "numeric digit"@, info: None }
    } else if digits_value(s, k, e, radix) > u64::MAX {
        Parsed::Fail { at: e, expected: "integer"@, info: Some(TOO_LARGE@) }
    } else {
        Parsed::Done { value: digits_value(s, k, e, radix) as u64, next: e }
    }
}

/// A UTF-8 continuation byte.
pub open spec fn is_cont(b: u8) -> bool {
    0x80 <= b <= 0xBF
}

/// The Unicode scalar value encoded at offset `i`, and the number of bytes
/// it takes, when a well-formed UTF-8 sequence stands there: shortest form,
/// no surrogate, at most U+10FFFF.
pub open spec fn scalar_at(s: Seq<u8>, i: int) -> Option<(u32, int)> {
    if !(0 <= i < s.len()) {
        None
    } else if s[i] < 0x80 {
        Some((s[i] as u32, 1))
    } else if 0xC2 <= s[i] <= 0xDF && i + 1 < s.len() && is_cont(s[i + 1]) {
        Some((((s[i] - 0xC0) * 64 + (s[i + 1] - 0x80)) as u32, 2))
    } else if 0xE0 <= s[i] <= 0xEF && i + 2 < s.len() && is_cont(s[i + 1]) && is_cont(s[i + 2]) {
        let cp = (s[i] - 0xE0) * 4096 + (s[i + 1] - 0x80) * 64 + (s[i + 2] - 0x80);
        if cp >= 0x800 && !(0xD800 <= cp <= 0xDFFF) {
            Some((cp as u32, 3))
        } else {
            None
        }
    } else if 0xF0 <= s[i] <= 0xF4 && i + 3 < s.len() && is_cont(s[i + 1]) && is_cont(s[i + 2])
        && is_cont(s[i + 3]) {
        let cp = (s[i] - 0xF0) * 262144 + (s[i + 1] - 0x80) * 4096 + (s[i + 2] - 0x80) * 64 + (s[i
            + 3] - 0x80);
        if 0x10000 <= cp <= 0x10FFFF {
            Some((cp as u32, 4))
        } else {
            None
        }
    } else {
        None
    }
}

/// The character that a backslash followed by byte `b` stands for.
pub open spec fn escape_of(b: u8) -> Option<char> {
    if b == 0x30 {
        Some('\0')
    } else if b == 0x6E {
        Some('\n')
    } else if b == 0x72 {
        Some('\r')
    } else if b == 0x74 {
        Some('\t')
    } else if b == 0x27 {
        Some('\'')
    } else if b == 0x22 {
        Some('"')
    } else if b == 0x5C {
        Some('\\')
    } else {
        None
    }
}

/// The offset of the first byte at or after `i` that is no hexadecimal
/// digit.
pub open spec fn hex_end(s: Seq<u8>, i: int) -> int
    decreases s.len() - i,
{
    if 0 <= i < s.len() && digit_value(s[i]) < 16 {
        hex_end(s, i + 1)
    } else {
        i
    }
}

/// The number that the hexadecimal digits in `s` from `from` up to `to`
/// spell.
pub open spec fn hex_value(s: Seq<u8>, from: int, to: int) -> int
    decreases to - from,
{
    if to <= from {
        0
    } else {
        hex_value(s, from, to - 1) * 16 + digit_value(s[to - 1])
    }
}

/// A Unicode scalar value: at most U+10FFFF and no surrogate.
pub open spec fn is_scalar_value(v: int) -> bool {
    0 <= v <= 0x10FFFF && !(0xD800 <= v <= 0xDFFF)
}

/// The rest of a `\u{...}` escape at offset `i`, after the `u`: an opening
/// brace, hexadecimal digits right after it, and a closing brace. The
/// digits have to spell a Unicode scalar value.
pub open spec fn lex_unicode(s: Seq<u8>, i: int) -> Parsed<char> {
    let a = lex_token(s, i, "{");
    let e = hex_end(s, a.next());
    let b = lex_token(s, e, "}");
    if a is Fail {
        a.fail()
    } else if b is Fail {
        b.fail()
    } else if a.next() < e && is_scalar_value(hex_value(s, a.next(), e)) {
        Parsed::Done { value: (hex_value(s, a.next(), e) as u32) as char, next: b.next() }
    } else {
        Parsed::Fail { at: b.next(), expected: "unicode-codepoint"@, info: None }
    }
}

/// What stands for a backslash at offset `i - 1`, read from offset `i`:
/// the rest of a `\u{...}` escape, or the character of a one-letter
/// escape. Another character after the backslash is read and refused, with
/// the backslash and that character as what was expected.
pub open spec fn lex_escape(s: Seq<u8>, i: int) -> Parsed<char> {
    if byte_at(s, i, 0x75) {
        lex_unicode(s, i + 1)
    } else {
        match scalar_at(s, i) {
            None => Parsed::Fail { at: i, expected: "escaped-char"@, info: None },
            Some((cp, n)) => if n == 1 && escape_of(s[i]) is Some {
                Parsed::Done { value: escape_of(s[i])->Some_0, next: i + 1 }
            } else {
                Parsed::Fail { at: i + n, expected: "\\"@.push(cp as char), info: None }
            },
        }
    }
}

/// One character of a literal at offset `i`: an escape (`\0`, `\n`, `\r`,
/// `\t`, `\'`, `\"`, `\\`, `\u{...}`), or any other well-formed UTF-8
/// character as it stands.
pub open spec fn lex_char(s: Seq<u8>, i: int) -> Parsed<char> {
    match scalar_at(s, i) {
        None => Parsed::Fail { at: i, expected: "char"@, info: None },
        Some((cp, n)) => if cp != 0x5C {
            Parsed::Done { value: cp as char, next: i + n }
        } else {
            lex_escape(s, i + 1)
        },
    }
}

/// A quoted character: `'`, one character, `'`, with trivia allowed before
/// each quote.
pub open spec fn lex_quoted_char(s: Seq<u8>, i: int) -> Parsed<char> {
    let a = lex_token(s, i, "'");
    let c = lex_char(s, a.next());
    let b = lex_token(s, c.next(), "'");
    if a is Fail {
        a.fail()
    } else if c is Fail {
        c
    } else if b is Fail {
        b.fail()
    } else {
        Parsed::Done { value: c->value, next: b.next() }
    }
}

/// `rest` with the characters `prefix` put before its value.
pub open spec fn prefixed(prefix: Seq<char>, rest: Parsed<Seq<char>>) -> Parsed<Seq<char>> {
    match rest {
        Parsed::Done { value, next } => Parsed::Done { value: prefix + value, next },
        Parsed::Fail { at, expected, info } => Parsed::Fail { at, expected, info },
    }
}

/// The characters of a string literal from offset `i` up to, and not
/// including, the closing quote or the end of the input.
pub open spec fn string_body(s: Seq<u8>, i: int) -> Parsed<Seq<char>>
    decreases s.len() - i,
{
    if !(0 <= i < s.len()) || s[i] == 0x22 {
        Parsed::Done { value: Seq::empty(), next: i }
    } else {
        match lex_char(s, i) {
            Parsed::Fail { at, expected, info } => Parsed::Fail { at, expected, info },
            Parsed::Done { value, next } => if i < next {
                prefixed(seq![value], string_body(s, next))
            } else {
                Parsed::Fail { at: next, expected: "char"@, info: None }
            },
        }
    }
}

/// A quoted string: `"`, any characters but an unescaped `"`, then `"`.
pub open spec fn lex_quoted_string(s: Seq<u8>, i: int) -> Parsed<Seq<char>> {
    let a = lex_token(s, i, "\"");
    let body = string_body(s, a.next());
    let b = lex_token(s, body.next(), "\"");
    if a is Fail {
        a.fail()
    } else if body is Fail {
        body
    } else if b is Fail {
        b.fail()
    } else {
        Parsed::Done { value: body->value, next: b.next() }
    }
}

/// `char::from_u32`: the character with the given scalar value. There is
/// one exactly when the value is at most U+10FFFF and no surrogate.
#[verifier::external_body]
fn char_from_u32(v: u32) -> (res: Option<char>)
    ensures
        res is Some <==> (v <= 0x10FFFF && !(0xD800 <= v <= 0xDFFF)),
        res is Some ==> res->Some_0 as u32 == v,
{
    char::from_u32(v)
}

/// The value of a digit byte in radix 16, or 36 for a byte that is no
/// digit.
pub fn digit_of(b: u8) -> (res: u64)
    ensures
        res == digit_value(b),
{
    if 0x30 <= b && b <= 0x39 {
        (b - 0x30) as u64
    } else if 0x61 <= b && b <= 0x66 {
        (b - 0x61) as u64 + 10
    } else if 0x41 <= b && b <= 0x46 {
        (b - 0x41) as u64 + 10
    } else {
        36
    }
}

/// The character that a backslash followed by byte `b` stands for.
pub fn escape(b: u8) -> (res: Option<char>)
    ensures
        res == escape_of(b),
{
    if b == 0x30 {
        Some('\0')
    } else if b == 0x6E {
        Some('\n')
    } else if b == 0x72 {
        Some('\r')
    } else if b == 0x74 {
        Some('\t')
    } else if b == 0x27 {
        Some('\'')
    } else if b == 0x22 {
        Some('"')
    } else if b == 0x5C {
        Some('\\')
    } else {
        None
    }
}

/// Decodes the UTF-8 character at offset `i` of `bytes`.
pub fn decode_scalar(bytes: &[u8], i: usize) -> (res: Option<(char, usize)>)
    ensures
        match scalar_at(bytes@, i as int) {
            Some((cp, n)) => res is Some && res->Some_0.0 == cp as char && res->Some_0.1 == n,
            None => res is None,
        },
{
    let len = bytes.len();
    if i >= len {
        return None;
    }
    let b0 = bytes[i];
    if b0 < 0x80 {
        return Some((b0 as char, 1));
    }
    let mut cp: u32 = 0;
    let mut n: usize = 0;
    if 0xC2 <= b0 && b0 <= 0xDF {
        if len - i < 2 {
            return None;
        }
        let b1 = bytes[i + 1];
        if !(0x80 <= b1 && b1 <= 0xBF) {
            return None;
        }
        cp = (b0 - 0xC0) as u32 * 64 + (b1 - 0x80) as u32;
        n = 2;
    } else if 0xE0 <= b0 && b0 <= 0xEF {
        if len - i < 3 {
            return None;
        }
        let b1 = bytes[i + 1];
        let b2 = bytes[i + 2];
        if !(0x80 <= b1 && b1 <= 0xBF && 0x80 <= b2 && b2 <= 0xBF) {
            return None;
        }
        cp = (b0 - 0xE0) as u32 * 4096 + (b1 - 0x80) as u32 * 64 + (b2 - 0x80) as u32;
        if cp < 0x800 {
            return None;
        }
        n = 3;
    } else if 0xF0 <= b0 && b0 <= 0xF4 {
        if len - i < 4 {
            return None;
        }
        let b1 = bytes[i + 1];
        let b2 = bytes[i + 2];
        let b3 = bytes[i + 3];
        if !(0x80 <= b1 && b1 <= 0xBF && 0x80 <= b2 && b2 <= 0xBF && 0x80 <= b3 && b3 <= 0xBF) {
            return None;
        }
        cp = (b0 - 0xF0) as u32 * 262144 + (b1 - 0x80) as u32 * 4096 + (b2 - 0x80) as u32 * 64 + (
        b3 - 0x80) as u32;
        if cp < 0x10000 {
            return None;
        }
        n = 4;
    } else {
        return None;
    }
    match char_from_u32(cp) {
        Some(c) => {
            proof {
                vstd::utf8::char_u32_cast(c, cp);
            }
            Some((c, n))
        },
        None => None,
    }
}

impl<'i> KindParser<'i> {
    /// Reads an unsigned number, after any trivia before it.
    pub fn parse_u64(&mut self) -> (res: Result<u64, ParseError>)
        requires
            old(self).wf(),
        ensures
            final(self).wf(),
            old(self).same_input(final(self)),
            outcome(
                res,
                final(self).pos(),
                lex_u64(old(self).bytes(), old(self).pos()),
                old(self).text(),
            ),
            old(self).pos() <= final(self).pos(),
            res is Ok ==> old(self).pos() < final(self).pos(),
    {
        self.skip_trivia();
        let ghost j = self.pos();
        let ghost s = self.bytes();
        let mut radix: u64 = 10;
        if self.starts_with("0x") {
            radix = 16;
            self.advance("0x");
        } else if self.starts_with("0b") {
            radix = 2;
            self.advance("0b");
        }
        let ghost k = self.pos();
        assert(k == digits_start(s, j));
        assert(radix == radix_at(s, j));
        let mut value: u64 = 0;
        let mut overflow = false;
        let mut any = false;
        loop
            invariant
                self.wf(),
                self.bytes() == s,
                old(self).same_input(self),
                radix == 2 || radix == 10 || radix == 16,
                k <= self.pos(),
                digits_end(s, self.pos(), radix as int) == digits_end(s, k, radix as int),
                any == (digits_count(s, k, self.pos()) > 0),
                0 <= digits_value(s, k, self.pos(), radix as int),
                !overflow ==> value == digits_value(s, k, self.pos(), radix as int),
                overflow ==> digits_value(s, k, self.pos(), radix as int) > u64::MAX,
            ensures
                self.wf(),
                self.bytes() == s,
                old(self).same_input(self),
                self.pos() == digits_end(s, k, radix as int),
                any == (digits_count(s, k, self.pos()) > 0),
                !overflow ==> value == digits_value(s, k, self.pos(), radix as int),
                overflow ==> digits_value(s, k, self.pos(), radix as int) > u64::MAX,
            decreases s.len() - self.pos(),
        {
            let b = match self.peek_one() {
                Some(b) => b,
                None => {
                    break ;
                },
            };
            let d = digit_of(b);
            if !(d < radix || b == 0x5F) {
                break ;
            }
            let ghost before = digits_value(s, k, self.pos(), radix as int);
            if b != 0x5F {
                any = true;
                if !overflow {
                    match value.checked_mul(radix) {
                        Some(m) => match m.checked_add(d) {
                            Some(v) => {
                                value = v;
                            },
                            None => {
                                overflow = true;
                            },
                        },
                        None => {
                            overflow = true;
                        },
                    }
                } else {
                    assert(before * radix + d >= before) by (nonlinear_arith)
                        requires
                            before >= 0,
                            radix >= 1,
                            d >= 0,
                    ;
                }
                assert(before * radix + d >= 0) by (nonlinear_arith)
                    requires
                        before >= 0,
                        radix >= 1,
                        d >= 0,
                ;
            }
            self.step();
        }
        if !any {
            self.expected("numeric digit")
        } else if overflow {
            self.expected_and("integer", TOO_LARGE)
        } else {
            Ok(value)
        }
    }

    /// Reads the rest of a `\u{...}` escape, after the `u`.
    pub fn parse_unicode(&mut self) -> (res: Result<char, ParseError>)
        requires
            old(self).wf(),
        ensures
            final(self).wf(),
            old(self).same_input(final(self)),
            outcome(
                res,
                final(self).pos(),
                lex_unicode(old(self).bytes(), old(self).pos()),
                old(self).text(),
            ),
            old(self).pos() <= final(self).pos(),
    {
        let ghost s = self.bytes();
        let ghost start = self.pos();
        self.consume("{")?;
        let ghost first = self.pos();
        let mut value: u32 = 0;
        let mut any = false;
        let mut large = false;
        loop
            invariant
                self.wf(),
                self.bytes() == s,
                old(self).same_input(self),
                old(self).pos() <= first <= self.pos(),
                hex_end(s, self.pos()) == hex_end(s, first),
                any == (first < self.pos()),
                0 <= hex_value(s, first, self.pos()),
                !large ==> value == hex_value(s, first, self.pos()) && value <= 0x10FFFF,
                large ==> hex_value(s, first, self.pos()) > 0x10FFFF,
            ensures
                self.wf(),
                self.bytes() == s,
                old(self).same_input(self),
                old(self).pos() <= first <= self.pos(),
                self.pos() == hex_end(s, first),
                any == (first < self.pos()),
                !large ==> value == hex_value(s, first, self.pos()) && value <= 0x10FFFF,
                large ==> hex_value(s, first, self.pos()) > 0x10FFFF,
            decreases s.len() - self.pos(),
        {
            let b = match self.peek_one() {
                Some(b) => b,
                None => {
                    break ;
                },
            };
            let d = digit_of(b);
            if d >= 16 {
                break ;
            }
            any = true;
            if !large {
                let next = value * 16 + d as u32;
                if next > 0x10FFFF {
                    large = true;
                } else {
                    value = next;
                }
            }
            self.step();
        }
        self.consume("}")?;
        if any && !large {
            match char_from_u32(value) {
                Some(c) => {
                    proof {
                        vstd::utf8::char_u32_cast(c, value);
                    }
                    Ok(c)
                },
                None => self.expected("unicode-codepoint"),
            }
        } else {
            self.expected("unicode-codepoint")
        }
    }

    /// Reads one character of a literal: an escape or a character as it
    /// stands.
    pub fn parse_char(&mut self) -> (res: Result<char, ParseError>)
        requires
            old(self).wf(),
        ensures
            final(self).wf(),
            old(self).same_input(final(self)),
            outcome(
                res,
                final(self).pos(),
                lex_char(old(self).bytes(), old(self).pos()),
                old(self).text(),
            ),
            old(self).pos() <= final(self).pos(),
            res is Ok ==> old(self).pos() < final(self).pos(),
    {
        proof {
            reveal_strlit("{");
        }
        let bytes = self.input().as_bytes();
        let start = self.index();
        match decode_scalar(bytes, start) {
            None => self.expected("char"),
            Some((c, n)) => {
                if c != '\\' {
                    self.skip_bytes(n);
                    Ok(c)
                } else {
                    self.skip_bytes(1);
                    let at = self.index();
                    match decode_scalar(bytes, at) {
                        None => self.expected("escaped-char"),
                        Some((after, width)) => {
                            let b = bytes[at];
                            if b == 0x75 {
                                self.skip_bytes(1);
                                self.parse_unicode()
                            } else {
                                let known = if width == 1 {
                                    escape(b)
                                } else {
                                    None
                                };
                                match known {
                                    Some(e) => {
                                        self.skip_bytes(1);
                                        Ok(e)
                                    },
                                    None => {
                                        self.skip_bytes(width);
                                        let mut text = String::from_str("\\");
                                        push_char(&mut text, after);
                                        self.expected(text.as_str())
                                    },
                                }
                            }
                        },
                    }
                }
            },
        }
    }

    /// Reads a quoted character, after any trivia before it.
    pub fn parse_quoted_char(&mut self) -> (res: Result<char, ParseError>)
        requires
            old(self).wf(),
        ensures
            final(self).wf(),
            old(self).same_input(final(self)),
            outcome(
                res,
                final(self).pos(),
                lex_quoted_char(old(self).bytes(), old(self).pos()),
                old(self).text(),
            ),
            old(self).pos() <= final(self).pos(),
            res is Ok ==> old(self).pos() < final(self).pos(),
    {
        self.consume("'")?;
        let chr = self.parse_char()?;
        self.consume("'")?;
        Ok(chr)
    }

    /// Reads a quoted string, after any trivia before it.
    pub fn parse_quoted_string(&mut self) -> (res: Result<String, ParseError>)
        requires
            old(self).wf(),
        ensures
            final(self).wf(),
            old(self).same_input(final(self)),
            outcome(
                res,
                final(self).pos(),
                lex_quoted_string(old(self).bytes(), old(self).pos()),
                old(self).text(),
            ),
            old(self).pos() <= final(self).pos(),
            res is Ok ==> old(self).pos() < final(self).pos(),
    {
        proof {
            reveal_strlit("\"");
        }
        self.consume("\"")?;
        let ghost s = self.bytes();
        let ghost start = self.pos();
        let mut result = String::new();
        loop
            invariant
                self.wf(),
                self.bytes() == s,
                old(self).same_input(self),
                start <= self.pos(),
                old(self).bytes() == s,
                old(self).pos() <= start,
                lex_token(s, old(self).pos(), "\"") is Done,
                lex_token(s, old(self).pos(), "\"").next() == start,
                string_body(s, start) == prefixed(result@, string_body(s, self.pos())),
            ensures
                self.wf(),
                self.bytes() == s,
                old(self).same_input(self),
                start <= self.pos(),
                string_body(s, start) == (Parsed::Done { value: result@, next: self.pos() }),
            decreases s.len() - self.pos(),
        {
            match self.peek_one() {
                None => {
                    assert(result@ + Seq::<char>::empty() =~= result@);
                    break ;
                },
                Some(b) => {
                    if b == 0x22 {
                        assert(result@ + Seq::<char>::empty() =~= result@);
                        break ;
                    }
                },
            }
            let ghost here = self.pos();
            let chr = self.parse_char()?;
            proof {
                let rest = string_body(s, self.pos());
                match rest {
                    Parsed::Done { value, next } => {
                        assert(result@ + (seq![chr] + value) =~= result@.push(chr) + value);
                    },
                    Parsed::Fail { at, expected, info } => {},
                }
            }
            push_char(&mut result, chr);
        }
        self.consume("\"")?;
        Ok(result)
    }
}

} // verus!
