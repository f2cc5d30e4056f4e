//! The parser's state and its lexical layer: trivia, fixed tokens, names
//! and parse errors, over the UTF-8 bytes of the input.

use vstd::prelude::*;
use vstd::string::{StringExecFns, StringSliceAdditionalSpecFns};

verus! {

/// What a grammar rule makes of the input from some offset on: a value and
/// the offset after it, or the offset at which the input stopped fitting
/// and what was expected there.
pub enum Parsed<V> {
    Done { value: V, next: int },
    Fail { at: int, expected: Seq<char>, info: Option<Seq<char>> },
}

/// A parse error: the byte offset at which the input stopped fitting the
/// grammar, what was expected there, what more there is to say of it, if
/// anything, and a message that shows the place.
#[derive(Clone, Debug, PartialEq, Eq)]
pub struct ParseError {
    pub index: usize,
    pub expected: String,
    pub info: Option<String>,
    pub message: String,
}

/// A parser over one source text: the text and the byte offset reached.
pub struct KindParser<'i> {
    input: &'i str,
    index: usize,
}

/// The text that `highlight_error::highlight_error` builds for a byte range
/// of a file: the lines that the range touches, numbered, with the range
/// underlined.
pub uninterp spec fn highlighted(ini: int, end: int, file: Seq<char>) -> Seq<char>;

/// `highlight_error::highlight_error`: the result is a function of the two
/// offsets and the text alone. The outside function panics when `ini` is
/// past `end`, and pads the text with one space per byte that `end` lies
/// past it; `requires` keeps the range in order and at most one byte past
/// the text.
#[verifier::external_body]
fn highlight(ini: usize, end: usize, file: &str) -> (res: String)
    requires
        ini <= end <= file.spec_bytes().len() + 1,
    ensures
        res@ == highlighted(ini as int, end as int, file@),
{
    highlight_error::highlight_error(ini, end, file)
}

/// `String::push`: the character is appended to the string.
#[verifier::external_body]
pub(crate) fn push_char(text: &mut String, c: char)
    ensures
        final(text)@ == old(text)@.push(c),
{
    text.push(c)
}

/// The offset just past `at`, as far as the machine word allows.
pub open spec fn span_end(at: int) -> int {
    if at < usize::MAX {
        at + 1
    } else {
        at
    }
}

/// The message of a parse error: the information, where there is some,
/// then what was expected, then the place.
pub open spec fn error_message(
    expected: Seq<char>,
    info: Option<Seq<char>>,
    context: Seq<char>,
) -> Seq<char> {
    match info {
        None => "\x1b[1mPARSE_ERROR\n- expected: \x1b[0m"@ + expected
            + "\x1b[1m\n- detected:\n\x1b[0m"@ + context,
        Some(more) => "\x1b[1mPARSE_ERROR\n- information: \x1b[0m"@ + more
            + "\x1b[1m\n- expected: \x1b[0m"@ + expected + "\x1b[1m\n- detected:\n\x1b[0m"@
            + context + "\x1b[1m\n "@,
    }
}

/// The characters of an optional text.
pub open spec fn text_view(text: Option<String>) -> Option<Seq<char>> {
    match text {
        Some(t) => Some(t@),
        None => None,
    }
}

impl<V> Parsed<V> {
    /// The offset that the rule stopped at: after the value, or where it
    /// failed.
    pub open spec fn next(self) -> int {
        match self {
            Parsed::Done { value, next } => next,
            Parsed::Fail { at, expected, info } => at,
        }
    }

    /// The same failure, for a rule with another kind of value.
    pub open spec fn fail<W>(self) -> Parsed<W> {
        match self {
            Parsed::Done { value, next } => Parsed::Fail {
                at: next,
                expected: Seq::empty(),
                info: None,
            },
            Parsed::Fail { at, expected, info } => Parsed::Fail { at, expected, info },
        }
    }
}

impl ParseError {
    /// True when this error says that `expected` was missing at offset `at`
    /// of `text`, with the information `info`.
    pub open spec fn reports(
        &self,
        at: int,
        expected: Seq<char>,
        info: Option<Seq<char>>,
        text: Seq<char>,
    ) -> bool {
        &&& self.index == at
        &&& self.expected@ == expected
        &&& text_view(self.info) == info
        &&& self.message@ == error_message(expected, info, highlighted(at, span_end(at), text))
    }
}

/// True when an executable parser's result and final offset are what the
/// grammar rule says.
pub open spec fn outcome<T: View>(
    res: Result<T, ParseError>,
    index: int,
    rule: Parsed<T::V>,
    text: Seq<char>,
) -> bool {
    match rule {
        Parsed::Done { value, next } => res is Ok && res->Ok_0@ == value && index == next,
        Parsed::Fail { at, expected, info } => res is Err && index == at && res->Err_0.reports(
            at,
            expected,
            info,
            text,
        ),
    }
}

/// True when an executable parser's result, seen through `model`, and its
/// final offset are what the grammar rule says.
pub open spec fn outcome_by<T, V>(
    res: Result<T, ParseError>,
    index: int,
    rule: Parsed<V>,
    text: Seq<char>,
    model: spec_fn(T) -> V,
) -> bool {
    match rule {
        Parsed::Done { value, next } => res is Ok && model(res->Ok_0) == value && index == next,
        Parsed::Fail { at, expected, info } => res is Err && index == at && res->Err_0.reports(
            at,
            expected,
            info,
            text,
        ),
    }
}

/// ASCII whitespace: space, tab, line feed, form feed, carriage return.
pub open spec fn is_space(b: u8) -> bool {
    b == 0x20 || b == 0x09 || b == 0x0A || b == 0x0C || b == 0x0D
}

/// An ASCII decimal digit.
pub open spec fn is_digit(b: u8) -> bool {
    0x30 <= b <= 0x39
}

/// An ASCII letter.
pub open spec fn is_alpha(b: u8) -> bool {
    (0x41 <= b <= 0x5A) || (0x61 <= b <= 0x7A)
}

/// A byte that may stand in a name: an ASCII letter or digit, or one of
/// `_`, `.`, `-`, `/`, `$`.
pub open spec fn is_name_byte(b: u8) -> bool {
    is_alpha(b) || is_digit(b) || b == 0x5F || b == 0x2E || b == 0x2D || b == 0x2F || b == 0x24
}

/// The offset of the first byte at or after `i` that is neither whitespace
/// nor inside a `//` comment; `in_comment` says whether `i` lies inside
/// one. A comment runs up to and including the end of its line.
pub open spec fn skip(s: Seq<u8>, i: int, in_comment: bool) -> int
    decreases s.len() - i,
{
    if i < 0 || i >= s.len() {
        i
    } else if in_comment {
        skip(s, i + 1, s[i] != 0x0A)
    } else if is_space(s[i]) {
        skip(s, i + 1, false)
    } else if s[i] == 0x2F && i + 1 < s.len() && s[i + 1] == 0x2F {
        skip(s, i + 1, true)
    } else {
        i
    }
}

/// The offset after the whitespace and comments that start at `i`.
pub open spec fn skip_trivia(s: Seq<u8>, i: int) -> int {
    skip(s, i, false)
}

/// True when byte `b` stands at offset `k`.
pub open spec fn byte_at(s: Seq<u8>, k: int, b: u8) -> bool {
    0 <= k < s.len() && s[k] == b
}

/// True when the bytes of `tok` stand in `s` at offset `i`.
pub open spec fn starts_with(s: Seq<u8>, i: int, tok: Seq<u8>) -> bool {
    0 <= i && i + tok.len() <= s.len() && s.subrange(i, i + tok.len()) == tok
}

/// The offset of the first byte at or after `i` that cannot stand in a
/// name.
pub open spec fn name_end(s: Seq<u8>, i: int) -> int
    decreases s.len() - i,
{
    if 0 <= i < s.len() && is_name_byte(s[i]) {
        name_end(s, i + 1)
    } else {
        i
    }
}

/// The characters that a run of ASCII bytes spells.
pub open spec fn ascii_text(bytes: Seq<u8>) -> Seq<char> {
    Seq::new(bytes.len(), |k: int| bytes[k] as char)
}

/// A given text: after trivia, the UTF-8 bytes of `text`.
pub open spec fn lex_text(s: Seq<u8>, i: int, text: Seq<char>) -> Parsed<()> {
    let j = skip_trivia(s, i);
    if starts_with(s, j, vstd::utf8::encode_utf8(text)) {
        Parsed::Done { value: (), next: j + vstd::utf8::encode_utf8(text).len() }
    } else {
        Parsed::Fail { at: j, expected: text, info: None }
    }
}

/// A fixed token: after trivia, the bytes of `text`.
pub open spec fn lex_token(s: Seq<u8>, i: int, text: &str) -> Parsed<()> {
    lex_text(s, i, text@)
}

/// A name: after trivia, the longest run of name bytes, which must not be
/// empty.
pub open spec fn lex_name(s: Seq<u8>, i: int) -> Parsed<Seq<char>> {
    let j = skip_trivia(s, i);
    let k = name_end(s, j);
    if k == j {
        Parsed::Fail { at: j, expected: "name"@, info: None }
    } else {
        Parsed::Done { value: ascii_text(s.subrange(j, k)), next: k }
    }
}

/// Skipping never moves backwards, and never leaves the input when it
/// started inside it.
pub proof fn lemma_skip_bounds(s: Seq<u8>, i: int, in_comment: bool)
    ensures
        i <= skip(s, i, in_comment),
        i <= s.len() ==> skip(s, i, in_comment) <= s.len(),
    decreases s.len() - i,
{
    if 0 <= i < s.len() {
        if in_comment {
            lemma_skip_bounds(s, i + 1, s[i] != 0x0A);
        } else if is_space(s[i]) {
            lemma_skip_bounds(s, i + 1, false);
        } else if s[i] == 0x2F && i + 1 < s.len() && s[i + 1] == 0x2F {
            lemma_skip_bounds(s, i + 1, true);
        }
    }
}

/// A text that has a character has a byte.
pub proof fn lemma_text_has_bytes(text: &str)
    requires
        text@.len() > 0,
    ensures
        text.spec_bytes().len() > 0,
{
    let chars = text@;
    assert(vstd::utf8::encode_utf8(chars) == vstd::utf8::encode_scalar(chars[0] as u32)
        + vstd::utf8::encode_utf8(chars.drop_first()));
    assert(vstd::utf8::encode_scalar(chars[0] as u32).len() > 0);
}

impl<'i> KindParser<'i> {
    /// The source text.
    pub closed spec fn source(&self) -> &'i str {
        self.input
    }

    /// The UTF-8 bytes of the input.
    pub open spec fn bytes(&self) -> Seq<u8> {
        self.source().spec_bytes()
    }

    /// The characters of the input.
    pub open spec fn text(&self) -> Seq<char> {
        self.source()@
    }

    /// The byte offset reached.
    pub closed spec fn pos(&self) -> int {
        self.index as int
    }

    /// The offset reached lies inside the input or at its end.
    pub open spec fn wf(&self) -> bool {
        0 <= self.pos() <= self.bytes().len()
    }

    /// True when `later` is this parser moved along the same input.
    pub open spec fn same_input(&self, later: &Self) -> bool {
        later.source() == self.source()
    }

    /// A parser at the start of `input`.
    pub fn new(input: &'i str) -> (res: Self)
        ensures
            res.wf(),
            res.pos() == 0,
            res.source() == input,
    {
        KindParser { input, index: 0 }
    }

    /// A second parser at the same place of the same input, to look ahead
    /// with.
    pub fn fork(&self) -> (res: Self)
        ensures
            self.same_input(&res),
            res.pos() == self.pos(),
    {
        KindParser { input: self.input, index: self.index }
    }

    /// The byte offset reached.
    pub fn index(&self) -> (res: usize)
        ensures
            res == self.pos(),
    {
        self.index
    }

    /// The source text.
    pub fn input(&self) -> (res: &'i str)
        ensures
            res == self.source(),
    {
        self.input
    }

    /// Whether the whole input has been read.
    pub fn is_eof(&self) -> (res: bool)
        ensures
            res == (self.pos() >= self.bytes().len()),
    {
        self.index >= self.input.as_bytes().len()
    }

    /// The error that says `exp` was expected at the offset reached.
    pub fn expected<T>(&self, exp: &str) -> (res: Result<T, ParseError>)
        requires
            self.wf(),
        ensures
            res is Err,
            res->Err_0.reports(self.pos(), exp@, None, self.text()),
    {
        let ini = self.index;
        let end = if ini < usize::MAX {
            ini + 1
        } else {
            ini
        };
        let context = highlight(ini, end, self.input);
        let mut message = String::from_str("\x1b[1mPARSE_ERROR\n- expected: \x1b[0m");
        message.append(exp);
        message.append("\x1b[1m\n- detected:\n\x1b[0m");
        message.append(context.as_str());
        Err(ParseError { index: ini, expected: exp.to_owned(), info: None, message })
    }

    /// The error that says `exp` was expected at the offset reached, and
    /// `msg` besides.
    pub fn expected_and<T>(&self, exp: &str, msg: &str) -> (res: Result<T, ParseError>)
        requires
            self.wf(),
        ensures
            res is Err,
            res->Err_0.reports(self.pos(), exp@, Some(msg@), self.text()),
    {
        let ini = self.index;
        let end = if ini < usize::MAX {
            ini + 1
        } else {
            ini
        };
        let context = highlight(ini, end, self.input);
        let mut message = String::from_str("\x1b[1mPARSE_ERROR\n- information: \x1b[0m");
        message.append(msg);
        message.append("\x1b[1m\n- expected: \x1b[0m");
        message.append(exp);
        message.append("\x1b[1m\n- detected:\n\x1b[0m");
        message.append(context.as_str());
        message.append("\x1b[1m\n ");
        Err(
            ParseError {
                index: ini,
                expected: exp.to_owned(),
                info: Some(msg.to_owned()),
                message,
            },
        )
    }

    /// The next byte, if there is one. Nothing is consumed.
    pub fn peek_one(&self) -> (res: Option<u8>)
        ensures
            res == if 0 <= self.pos() < self.bytes().len() {
                Some(self.bytes()[self.pos()])
            } else {
                None
            },
    {
        let bytes = self.input.as_bytes();
        if self.index < bytes.len() {
            Some(bytes[self.index])
        } else {
            None
        }
    }

    /// The byte `ahead` places after the next one, if there is one. Nothing
    /// is consumed.
    pub fn peek_nth(&self, ahead: usize) -> (res: Option<u8>)
        ensures
            res == if 0 <= self.pos() + ahead < self.bytes().len() {
                Some(self.bytes()[self.pos() + ahead])
            } else {
                None
            },
    {
        let bytes = self.input.as_bytes();
        if self.index < bytes.len() && ahead < bytes.len() - self.index {
            Some(bytes[self.index + ahead])
        } else {
            None
        }
    }

    /// Whether the bytes of `text` come next. Nothing is consumed.
    pub fn starts_with(&self, text: &str) -> (res: bool)
        ensures
            res == starts_with(self.bytes(), self.pos(), text.spec_bytes()),
    {
        let bytes = self.input.as_bytes();
        let token = text.as_bytes();
        if self.index > bytes.len() || token.len() > bytes.len() - self.index {
            return false;
        }
        let mut k: usize = 0;
        while k < token.len()
            invariant
                k <= token.len(),
                self.index + token.len() <= bytes.len(),
                bytes@ == self.bytes(),
                token@ == text.spec_bytes(),
                forall|m: int| 0 <= m < k ==> bytes@[self.index + m] == token@[m],
            decreases token.len() - k,
        {
            if bytes[self.index + k] != token[k] {
                assert(bytes@.subrange(self.index as int, self.index + token.len())[k as int]
                    != token@[k as int]);
                return false;
            }
            k += 1;
        }
        assert(bytes@.subrange(self.index as int, self.index + token.len()) =~= token@);
        true
    }

    /// Moves past one byte that is known to be there.
    pub fn step(&mut self)
        requires
            old(self).wf(),
            old(self).pos() < old(self).bytes().len(),
        ensures
            final(self).wf(),
            old(self).same_input(final(self)),
            final(self).pos() == old(self).pos() + 1,
    {
        let total = self.input.as_bytes().len();
        self.index += 1;
    }

    /// Moves past `count` bytes that are known to be there.
    pub fn skip_bytes(&mut self, count: usize)
        requires
            old(self).wf(),
            old(self).pos() + count <= old(self).bytes().len(),
        ensures
            final(self).wf(),
            old(self).same_input(final(self)),
            final(self).pos() == old(self).pos() + count,
    {
        let total = self.input.as_bytes().len();
        self.index += count;
    }

    /// Moves past `text`, which is known to come next.
    pub fn advance(&mut self, text: &str)
        requires
            old(self).wf(),
            starts_with(old(self).bytes(), old(self).pos(), text.spec_bytes()),
        ensures
            final(self).wf(),
            old(self).same_input(final(self)),
            final(self).pos() == old(self).pos() + text.spec_bytes().len(),
    {
        let total = self.input.as_bytes().len();
        self.index += text.as_bytes().len();
    }

    /// Skips whitespace and `//` comments.
    pub fn skip_trivia(&mut self)
        requires
            old(self).wf(),
        ensures
            final(self).wf(),
            old(self).same_input(final(self)),
            final(self).pos() == skip_trivia(old(self).bytes(), old(self).pos()),
            old(self).pos() <= final(self).pos(),
    {
        proof {
            lemma_skip_bounds(self.bytes(), self.pos(), false);
        }
        let bytes = self.input.as_bytes();
        let mut in_comment = false;
        while self.index < bytes.len()
            invariant
                self.index <= bytes.len(),
                bytes@ == self.bytes(),
                self.input == old(self).input,
                skip(bytes@, self.index as int, in_comment) == skip_trivia(
                    bytes@,
                    old(self).index as int,
                ),
            ensures
                self.index <= bytes.len(),
                self.input == old(self).input,
                self.index == skip_trivia(bytes@, old(self).index as int),
            decreases bytes.len() - self.index,
        {
            let b = bytes[self.index];
            if in_comment {
                in_comment = b != 0x0A;
            } else if b == 0x20 || b == 0x09 || b == 0x0A || b == 0x0C || b == 0x0D {
            } else if b == 0x2F && self.index + 1 < bytes.len() && bytes[self.index + 1] == 0x2F {
                in_comment = true;
            } else {
                break ;
            }
            self.index += 1;
        }
    }

    /// Consumes `text`, after any trivia before it.
    pub fn consume(&mut self, text: &str) -> (res: Result<(), ParseError>)
        requires
            old(self).wf(),
        ensures
            final(self).wf(),
            old(self).same_input(final(self)),
            outcome(
                res,
                final(self).pos(),
                lex_token(old(self).bytes(), old(self).pos(), text),
                old(self).text(),
            ),
            old(self).pos() <= final(self).pos(),
            res is Ok && text@.len() > 0 ==> old(self).pos() < final(self).pos(),
    {
        proof {
            if text@.len() > 0 {
                lemma_text_has_bytes(text);
            }
        }
        self.skip_trivia();
        if self.starts_with(text) {
            let total = self.input.as_bytes().len();
            assert(self.index + text.spec_bytes().len() <= total);
            self.index += text.as_bytes().len();
            Ok(())
        } else {
            self.expected(text)
        }
    }

    /// Reads a name, after any trivia before it.
    pub fn parse_name(&mut self) -> (res: Result<String, ParseError>)
        requires
            old(self).wf(),
        ensures
            final(self).wf(),
            old(self).same_input(final(self)),
            outcome(
                res,
                final(self).pos(),
                lex_name(old(self).bytes(), old(self).pos()),
                old(self).text(),
            ),
            old(self).pos() <= final(self).pos(),
            res is Ok ==> old(self).pos() < final(self).pos(),
            res is Ok ==> res->Ok_0@.len() > 0,
    {
        self.skip_trivia();
        let bytes = self.input.as_bytes();
        let start = self.index;
        let mut name = String::new();
        while self.index < bytes.len() && is_name_byte_exec(bytes[self.index])
            invariant
                start <= self.index <= bytes.len(),
                bytes@ == self.bytes(),
                self.input == old(self).input,
                name_end(bytes@, self.index as int) == name_end(bytes@, start as int),
                name@ == ascii_text(bytes@.subrange(start as int, self.index as int)),
            decreases bytes.len() - self.index,
        {
            push_char(&mut name, bytes[self.index] as char);
            self.index += 1;
            assert(name@ =~= ascii_text(bytes@.subrange(start as int, self.index as int)));
        }
        if self.index == start {
            self.expected("name")
        } else {
            Ok(name)
        }
    }
}

/// Whether a byte may stand in a name.
pub fn is_name_byte_exec(b: u8) -> (res: bool)
    ensures
        res == is_name_byte(b),
{
    (0x41 <= b && b <= 0x5A) || (0x61 <= b && b <= 0x7A) || (0x30 <= b && b <= 0x39) || b == 0x5F
        || b == 0x2E || b == 0x2D || b == 0x2F || b == 0x24
}

} // verus!
