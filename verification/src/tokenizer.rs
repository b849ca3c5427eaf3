//! A pull-based scanner for a small domain-specific language.
//!
//! The scanner walks an in-memory source text and hands out one classified
//! token per call, stamped with its `[begin, end)` byte-offset span.  All
//! classification is specified by spec functions over the source's character
//! sequence, and every method is verified against that model.

use vstd::prelude::*;

verus! {

use vstd::string::StringSliceAdditionalSpecFns;
use vstd::string::StrSliceExecFns;

/// Sentinel returned by `peek_char` when the cursor has reached the end of
/// the input.  A genuine NUL character in the input is never confused with
/// it: dispatch checks the cursor, not the character.
const EOF_CHAR: char = '\0';

/// One classified unit of source text with its byte-offset span.
#[derive(Debug, PartialEq, Eq, Structural, Clone, Copy)]
pub struct Token {
    pub kind: TokenKind,
    pub begin: usize,
    pub end: usize,
}

/// The closed taxonomy of token kinds.  Malformed input is reported as data
/// on the token (`Invalid`, `terminated: false`, `empty: true`), never as a
/// panic or error value.
#[derive(Debug, PartialEq, Eq, Structural, Clone, Copy)]
pub enum TokenKind {
    EndOfFile,
    Invalid,
    OpenParenthesis,
    CloseParenthesis,
    Dot,
    Colon,
    SemiColon,
    Comma,
    Plus,
    Minus,
    Star,
    Slash,
    Pipe,
    Ampersand,
    Tilde,
    Equal,
    RightArrow,
    LessThan,
    LessThanOrEqualTo,
    LessThanOrGreaterThan,
    GreaterThan,
    GreaterThanOrEqualTo,
    Comment,
    WhiteSpace,
    Ident,
    Str { terminated: bool },
    Int { radix: Radix, empty: bool },
    Float { radix: Radix, empty: bool },
}

/// Numeral base of an `Int` or `Float` literal; fixes which digit characters
/// belong to the literal's body.
#[derive(Debug, PartialEq, Eq, Structural, Clone, Copy)]
pub enum Radix {
    Binary,
    Octal,
    Decimal,
    Hexadecimal,
}

/// The six recognized whitespace characters: space, tab, carriage return,
/// line feed, vertical tab, form feed.
pub open spec fn spec_is_whitespace(c: char) -> bool {
    c == ' ' || c == '\t' || c == '\r' || c == '\n' || c == '\u{000B}' || c == '\u{000C}'
}

/// An ASCII letter or underscore: the characters that may open an identifier.
pub open spec fn spec_is_ident_start(c: char) -> bool {
    ('a' as u32 <= c as u32 && c as u32 <= 'z' as u32) || ('A' as u32 <= c as u32 && c as u32
        <= 'Z' as u32) || c == '_'
}

/// An ASCII letter, digit or underscore: the characters that may continue an
/// identifier.
pub open spec fn spec_is_ident_part(c: char) -> bool {
    spec_is_ident_start(c) || spec_is_decimal_digit(c)
}

pub open spec fn spec_is_decimal_digit(c: char) -> bool {
    '0' as u32 <= c as u32 && c as u32 <= '9' as u32
}

pub open spec fn spec_is_binary_digit(c: char) -> bool {
    c == '0' || c == '1'
}

pub open spec fn spec_is_octal_digit(c: char) -> bool {
    '0' as u32 <= c as u32 && c as u32 <= '7' as u32
}

/// Hexadecimal digits are the decimal digits and the lowercase letters
/// `a` through `f`; uppercase letters are not accepted.
pub open spec fn spec_is_hexadecimal_digit(c: char) -> bool {
    spec_is_decimal_digit(c) || ('a' as u32 <= c as u32 && c as u32 <= 'f' as u32)
}

/// The number of bytes the UTF-8 encoding of `c` occupies: 1 through 4,
/// fixed by the character's scalar value.
pub open spec fn char_width(c: char) -> int {
    if c as u32 <= 0x7F {
        1
    } else if c as u32 <= 0x7FF {
        2
    } else if c as u32 <= 0xFFFF {
        3
    } else {
        4
    }
}

/// The byte offset of character index `n` in `s`: the total UTF-8 width of
/// the characters before it.
pub open spec fn bytes_upto(s: Seq<char>, n: int) -> int
    decreases n,
{
    if n <= 0 {
        0
    } else {
        bytes_upto(s, n - 1) + char_width(s[n - 1])
    }
}

/// `char_width` agrees with the length of vstd's UTF-8 encoding of the
/// character.
pub proof fn lemma_char_width_is_encoding_len(c: char)
    ensures
        char_width(c) == vstd::utf8::encode_scalar(c as u32).len(),
{
    vstd::utf8::char_is_scalar(c);
}

proof fn lemma_bytes_upto_shift(s: Seq<char>, n: int)
    requires
        1 <= n <= s.len(),
    ensures
        bytes_upto(s, n) == char_width(s[0]) + bytes_upto(s.drop_first(), n - 1),
    decreases n,
{
    if n == 1 {
        assert(bytes_upto(s, 1) == bytes_upto(s, 0) + char_width(s[0]));
        assert(bytes_upto(s.drop_first(), 0) == 0);
    } else {
        lemma_bytes_upto_shift(s, n - 1);
        assert(s.drop_first()[n - 2] == s[n - 1]);
        assert(bytes_upto(s.drop_first(), n - 1) == bytes_upto(s.drop_first(), n - 2)
            + char_width(s.drop_first()[n - 2]));
    }
}

/// The byte offset just past the last character of `s` is the length of the
/// UTF-8 encoding of `s`.
pub proof fn lemma_bytes_upto_full(s: Seq<char>)
    ensures
        bytes_upto(s, s.len() as int) == vstd::utf8::encode_utf8(s).len(),
    decreases s.len(),
{
    if s.len() > 0 {
        lemma_char_width_is_encoding_len(s[0]);
        lemma_bytes_upto_shift(s, s.len() as int);
        lemma_bytes_upto_full(s.drop_first());
    }
}

/// Byte offsets are non-decreasing in the character index, and grow by at
/// least one per character.
pub proof fn lemma_bytes_upto_mono(s: Seq<char>, i: int, j: int)
    requires
        0 <= i <= j,
    ensures
        bytes_upto(s, i) + (j - i) <= bytes_upto(s, j),
    decreases j - i,
{
    if i < j {
        lemma_bytes_upto_mono(s, i, j - 1);
    }
}

/// The whitespace predicate as a first-class spec function, so that every
/// contract and the scan model name the selfsame value.
pub open spec fn whitespace_pred() -> spec_fn(char) -> bool {
    |c: char| spec_is_whitespace(c)
}

pub open spec fn ident_part_pred() -> spec_fn(char) -> bool {
    |c: char| spec_is_ident_part(c)
}

/// A comment runs to the end of the line: everything but a line feed
/// belongs to it.
pub open spec fn comment_pred() -> spec_fn(char) -> bool {
    |c: char| c != '\n'
}

pub open spec fn binary_digit_pred() -> spec_fn(char) -> bool {
    |c: char| spec_is_binary_digit(c)
}

pub open spec fn octal_digit_pred() -> spec_fn(char) -> bool {
    |c: char| spec_is_octal_digit(c)
}

pub open spec fn hexadecimal_digit_pred() -> spec_fn(char) -> bool {
    |c: char| spec_is_hexadecimal_digit(c)
}

pub open spec fn decimal_digit_pred() -> spec_fn(char) -> bool {
    |c: char| spec_is_decimal_digit(c)
}

/// The character index just past the maximal run of characters satisfying
/// `p` that starts at `i`.
pub open spec fn run_end(s: Seq<char>, i: int, p: spec_fn(char) -> bool) -> int
    decreases s.len() - i,
    when 0 <= i <= s.len()
{
    if i < s.len() && p(s[i]) {
        run_end(s, i + 1, p)
    } else {
        i
    }
}

/// A maximal run reaches from its start to at most the end of the input.
pub proof fn lemma_run_end_bounds(s: Seq<char>, i: int, p: spec_fn(char) -> bool)
    requires
        0 <= i <= s.len(),
    ensures
        i <= run_end(s, i, p) <= s.len(),
    decreases s.len() - i,
{
    if i < s.len() && p(s[i]) {
        lemma_run_end_bounds(s, i + 1, p);
    }
}

/// The body of a string literal, scanned from character index `i` (just past
/// the opening quote).  Yields whether a closing quote terminated the literal,
/// and the character index just past the last character consumed.  A
/// backslash consumes the following character unconditionally; an unescaped
/// newline or the end of the input stops the scan unterminated.
pub open spec fn string_scan(s: Seq<char>, i: int) -> (bool, int)
    decreases s.len() - i,
    when 0 <= i <= s.len()
{
    if i >= s.len() {
        (false, i)
    } else if s[i] == '\\' {
        if i + 1 < s.len() {
            string_scan(s, i + 2)
        } else {
            (false, i + 1)
        }
    } else if s[i] == '"' {
        (true, i + 1)
    } else if s[i] == '\n' {
        (false, i)
    } else {
        string_scan(s, i + 1)
    }
}

/// A string-body scan never moves backwards and never passes the end of the
/// input.
pub proof fn lemma_string_scan_bounds(s: Seq<char>, i: int)
    requires
        0 <= i <= s.len(),
    ensures
        i <= string_scan(s, i).1 <= s.len(),
    decreases s.len() - i,
{
    if i < s.len() && s[i] == '\\' {
        if i + 1 < s.len() {
            lemma_string_scan_bounds(s, i + 2);
        }
    } else if i < s.len() && s[i] != '"' && s[i] != '\n' {
        lemma_string_scan_bounds(s, i + 1);
    }
}

/// Classification of a numeric literal whose lead digit `d` sits at
/// character index `i - 1`.  A lead `0` followed by `b`, `o` or `x` fixes
/// the radix and scans the digits after the marker (`empty` when none
/// follow); anything else scans a run of decimal digits, which always
/// contains at least the lead digit.
pub open spec fn number_scan(s: Seq<char>, i: int, d: char) -> (TokenKind, int) {
    if d == '0' && i < s.len() && s[i] == 'b' {
        let e = run_end(s, i + 1, binary_digit_pred());
        (TokenKind::Int { radix: Radix::Binary, empty: e == i + 1 }, e)
    } else if d == '0' && i < s.len() && s[i] == 'o' {
        let e = run_end(s, i + 1, octal_digit_pred());
        (TokenKind::Int { radix: Radix::Octal, empty: e == i + 1 }, e)
    } else if d == '0' && i < s.len() && s[i] == 'x' {
        let e = run_end(s, i + 1, hexadecimal_digit_pred());
        (TokenKind::Int { radix: Radix::Hexadecimal, empty: e == i + 1 }, e)
    } else {
        let e = run_end(s, i, decimal_digit_pred());
        (TokenKind::Int { radix: Radix::Decimal, empty: false }, e)
    }
}

/// The token beginning at character index `i` of `s`: its kind and the
/// character index just past its last character.  At the end of the input
/// the token is `EndOfFile` and nothing is consumed.  Dispatch is on the
/// lead character; `-`, `<` and `>` look one character ahead to pick the
/// compound form.
pub open spec fn scan_token(s: Seq<char>, i: int) -> (TokenKind, int) {
    if i >= s.len() {
        (TokenKind::EndOfFile, i)
    } else {
        let c = s[i];
        if spec_is_whitespace(c) {
            (TokenKind::WhiteSpace, run_end(s, i + 1, whitespace_pred()))
        } else if spec_is_ident_start(c) {
            (TokenKind::Ident, run_end(s, i + 1, ident_part_pred()))
        } else if c == '"' {
            let r = string_scan(s, i + 1);
            (TokenKind::Str { terminated: r.0 }, r.1)
        } else if spec_is_decimal_digit(c) {
            number_scan(s, i + 1, c)
        } else if c == '(' {
            (TokenKind::OpenParenthesis, i + 1)
        } else if c == ')' {
            (TokenKind::CloseParenthesis, i + 1)
        } else if c == '.' {
            (TokenKind::Dot, i + 1)
        } else if c == ':' {
            (TokenKind::Colon, i + 1)
        } else if c == ';' {
            (TokenKind::SemiColon, i + 1)
        } else if c == ',' {
            (TokenKind::Comma, i + 1)
        } else if c == '+' {
            (TokenKind::Plus, i + 1)
        } else if c == '*' {
            (TokenKind::Star, i + 1)
        } else if c == '/' {
            (TokenKind::Slash, i + 1)
        } else if c == '|' {
            (TokenKind::Pipe, i + 1)
        } else if c == '&' {
            (TokenKind::Ampersand, i + 1)
        } else if c == '~' {
            (TokenKind::Tilde, i + 1)
        } else if c == '=' {
            (TokenKind::Equal, i + 1)
        } else if c == '-' {
            if i + 1 < s.len() && s[i + 1] == '-' {
                (TokenKind::Comment, run_end(s, i + 1, comment_pred()))
            } else if i + 1 < s.len() && s[i + 1] == '>' {
                (TokenKind::RightArrow, i + 2)
            } else {
                (TokenKind::Minus, i + 1)
            }
        } else if c == '<' {
            if i + 1 < s.len() && s[i + 1] == '=' {
                (TokenKind::LessThanOrEqualTo, i + 2)
            } else if i + 1 < s.len() && s[i + 1] == '>' {
                (TokenKind::LessThanOrGreaterThan, i + 2)
            } else {
                (TokenKind::LessThan, i + 1)
            }
        } else if c == '>' {
            if i + 1 < s.len() && s[i + 1] == '=' {
                (TokenKind::GreaterThanOrEqualTo, i + 2)
            } else {
                (TokenKind::GreaterThan, i + 1)
            }
        } else {
            (TokenKind::Invalid, i + 1)
        }
    }
}

/// A scan at the end of the input stays put and yields `EndOfFile`; a scan
/// anywhere else consumes at least one character, never passes the end of
/// the input, and yields some other kind.
pub proof fn lemma_scan_token_bounds(s: Seq<char>, i: int)
    requires
        0 <= i <= s.len(),
    ensures
        i <= scan_token(s, i).1 <= s.len(),
        i < s.len() ==> i < scan_token(s, i).1,
        i < s.len() ==> scan_token(s, i).0 != TokenKind::EndOfFile,
        i >= s.len() ==> scan_token(s, i) == (TokenKind::EndOfFile, i),
{
    if i < s.len() {
        let c = s[i];
        if spec_is_whitespace(c) {
            lemma_run_end_bounds(s, i + 1, whitespace_pred());
        } else if spec_is_ident_start(c) {
            lemma_run_end_bounds(s, i + 1, ident_part_pred());
        } else if c == '"' {
            lemma_string_scan_bounds(s, i + 1);
        } else if spec_is_decimal_digit(c) {
            if i + 2 <= s.len() {
                lemma_run_end_bounds(s, i + 2, binary_digit_pred());
                lemma_run_end_bounds(s, i + 2, octal_digit_pred());
                lemma_run_end_bounds(s, i + 2, hexadecimal_digit_pred());
            }
            lemma_run_end_bounds(s, i + 1, decimal_digit_pred());
        } else if c == '-' && i + 1 < s.len() && s[i + 1] == '-' {
            lemma_run_end_bounds(s, i + 1, comment_pred());
        }
    }
}

fn exec_char_width(c: char) -> (w: usize)
    ensures
        w == char_width(c),
{
    let u = c as u32;
    if u <= 0x7F {
        1
    } else if u <= 0x7FF {
        2
    } else if u <= 0xFFFF {
        3
    } else {
        4
    }
}

fn is_whitespace(c: char) -> (b: bool)
    ensures
        b == spec_is_whitespace(c),
{
    c == ' ' || c == '\t' || c == '\r' || c == '\n' || c == '\u{000B}' || c == '\u{000C}'
}

fn is_ident_start(c: char) -> (b: bool)
    ensures
        b == spec_is_ident_start(c),
{
    let u = c as u32;
    ('a' as u32 <= u && u <= 'z' as u32) || ('A' as u32 <= u && u <= 'Z' as u32) || c == '_'
}

fn is_ident_part(c: char) -> (b: bool)
    ensures
        b == spec_is_ident_part(c),
{
    is_ident_start(c) || is_decimal_digit(c)
}

fn is_decimal_digit(c: char) -> (b: bool)
    ensures
        b == spec_is_decimal_digit(c),
{
    let u = c as u32;
    '0' as u32 <= u && u <= '9' as u32
}

fn is_binary_digit(c: char) -> (b: bool)
    ensures
        b == spec_is_binary_digit(c),
{
    c == '0' || c == '1'
}

fn is_octal_digit(c: char) -> (b: bool)
    ensures
        b == spec_is_octal_digit(c),
{
    let u = c as u32;
    '0' as u32 <= u && u <= '7' as u32
}

fn is_hexadecimal_digit(c: char) -> (b: bool)
    ensures
        b == spec_is_hexadecimal_digit(c),
{
    let u = c as u32;
    is_decimal_digit(c) || ('a' as u32 <= u && u <= 'f' as u32)
}

/// The scanner: a cursor over an immutable source text.  The cursor only
/// ever moves forward, and `consumed` always holds the byte offset of the
/// cursor, so every token can be stamped with byte-offset spans.
pub struct Tokenizer {
    chars: Vec<char>,
    pos: usize,
    consumed: usize,
}

impl Tokenizer {
    /// The source text being scanned, as a character sequence.
    pub closed spec fn src(self) -> Seq<char> {
        self.chars@
    }

    /// The cursor: the index of the first unconsumed character.
    pub closed spec fn cursor(self) -> int {
        self.pos as int
    }

    /// Well-formedness: the cursor sits inside the source, `consumed` is its
    /// byte offset, and the whole source's byte length fits in `usize`.
    pub closed spec fn wf(self) -> bool {
        &&& self.pos <= self.chars@.len()
        &&& self.consumed == bytes_upto(self.chars@, self.pos as int)
        &&& bytes_upto(self.chars@, self.chars@.len() as int) <= usize::MAX
    }

    /// A fresh scanner over `source`, with the cursor at the start.
    pub fn new(source: &str) -> (t: Tokenizer)
        ensures
            t.wf(),
            t.src() == source@,
            t.cursor() == 0,
    {
        let byte_count = source.as_bytes().len();
        let n = source.unicode_len();
        let mut chars: Vec<char> = Vec::new();
        let mut i: usize = 0;
        while i < n
            invariant
                i <= n,
                n == source@.len(),
                chars@ =~= source@.take(i as int),
            decreases n - i,
        {
            chars.push(source.get_char(i));
            i = i + 1;
        }
        assert(chars@ =~= source@);
        proof {
            lemma_bytes_upto_full(chars@);
            assert(source.spec_bytes().len() == byte_count);
        }
        Tokenizer { chars, pos: 0, consumed: 0 }
    }

    /// True iff every character of the source has been consumed.
    pub fn is_eof(&self) -> (b: bool)
        requires
            self.wf(),
        ensures
            b == (self.cursor() == self.src().len()),
    {
        self.pos == self.chars.len()
    }

    /// The next unconsumed character, or `EOF_CHAR` at the end of the input.
    /// Never advances the cursor.
    fn peek_char(&self) -> (c: char)
        requires
            self.wf(),
        ensures
            c == if self.cursor() < self.src().len() {
                self.src()[self.cursor()]
            } else {
                EOF_CHAR
            },
    {
        if self.pos < self.chars.len() {
            self.chars[self.pos]
        } else {
            EOF_CHAR
        }
    }

    /// Advances the cursor by one character and returns it, or returns
    /// nothing at the end of the input.
    fn consume_char(&mut self) -> (r: Option<char>)
        requires
            old(self).wf(),
        ensures
            final(self).wf(),
            final(self).src() == old(self).src(),
            old(self).cursor() < old(self).src().len() ==> r == Some(
                old(self).src()[old(self).cursor()],
            ) && final(self).cursor() == old(self).cursor() + 1,
            old(self).cursor() >= old(self).src().len() ==> r is None && final(self).cursor()
                == old(self).cursor(),
    {
        if self.pos < self.chars.len() {
            let c = self.chars[self.pos];
            let w = exec_char_width(c);
            proof {
                lemma_bytes_upto_mono(self.chars@, self.pos as int + 1, self.chars@.len() as int);
            }
            self.consumed = self.consumed + w;
            self.pos = self.pos + 1;
            Some(c)
        } else {
            None
        }
    }

    /// Advances the cursor past the maximal run of characters satisfying
    /// `predicate`, where `p` is the spec-level meaning of `predicate`.
    fn consume_while<F: Fn(char) -> bool>(
        &mut self,
        predicate: F,
        Ghost(p): Ghost<spec_fn(char) -> bool>,
    )
        requires
            old(self).wf(),
            forall|c: char| #[trigger] call_requires(predicate, (c,)),
            forall|c: char, b: bool| call_ensures(predicate, (c,), b) ==> b == p(c),
        ensures
            final(self).wf(),
            final(self).src() == old(self).src(),
            final(self).cursor() == run_end(old(self).src(), old(self).cursor(), p),
    {
        loop
            invariant
                self.wf(),
                self.src() == old(self).src(),
                old(self).cursor() <= self.cursor(),
                run_end(self.src(), self.cursor(), p) == run_end(
                    old(self).src(),
                    old(self).cursor(),
                    p,
                ),
                forall|c: char| #[trigger] call_requires(predicate, (c,)),
                forall|c: char, b: bool| call_ensures(predicate, (c,), b) ==> b == p(c),
            ensures
                self.wf(),
                self.src() == old(self).src(),
                self.cursor() == run_end(old(self).src(), old(self).cursor(), p),
            decreases self.src().len() - self.cursor(),
        {
            let c = self.peek_char();
            if predicate(c) && !self.is_eof() {
                self.consume_char();
            } else {
                break ;
            }
        }
    }

    /// Consumes the rest of a whitespace run whose first character is
    /// already consumed.
    fn whitespace(&mut self) -> (k: TokenKind)
        requires
            old(self).wf(),
        ensures
            final(self).wf(),
            final(self).src() == old(self).src(),
            final(self).cursor() == run_end(old(self).src(), old(self).cursor(), whitespace_pred()),
            k == TokenKind::WhiteSpace,
    {
        self.consume_while(
            (|c: char| -> (b: bool)
                ensures
                    b == spec_is_whitespace(c),
                { is_whitespace(c) }),
            Ghost(whitespace_pred()),
        );
        TokenKind::WhiteSpace
    }

    /// Consumes the rest of an identifier whose opening letter or underscore
    /// is already consumed.
    fn identifier(&mut self) -> (k: TokenKind)
        requires
            old(self).wf(),
        ensures
            final(self).wf(),
            final(self).src() == old(self).src(),
            final(self).cursor() == run_end(old(self).src(), old(self).cursor(), ident_part_pred()),
            k == TokenKind::Ident,
    {
        self.consume_while(
            (|c: char| -> (b: bool)
                ensures
                    b == spec_is_ident_part(c),
                { is_ident_part(c) }),
            Ghost(ident_part_pred()),
        );
        TokenKind::Ident
    }

    /// Consumes a comment up to, but not including, the terminating line
    /// feed (or to the end of the input).
    fn comment(&mut self) -> (k: TokenKind)
        requires
            old(self).wf(),
        ensures
            final(self).wf(),
            final(self).src() == old(self).src(),
            final(self).cursor() == run_end(old(self).src(), old(self).cursor(), comment_pred()),
            k == TokenKind::Comment,
    {
        self.consume_while(
            (|c: char| -> (b: bool)
                ensures
                    b == (c != '\n'),
                { c != '\n' }),
            Ghost(comment_pred()),
        );
        TokenKind::Comment
    }

    /// Scans a string-literal body, the opening quote already consumed.
    /// Returns whether a closing quote was found before a newline or the end
    /// of the input; the malformed case is reported, never raised.
    fn string(&mut self) -> (terminated: bool)
        requires
            old(self).wf(),
        ensures
            final(self).wf(),
            final(self).src() == old(self).src(),
            terminated == string_scan(old(self).src(), old(self).cursor()).0,
            final(self).cursor() == string_scan(old(self).src(), old(self).cursor()).1,
    {
        loop
            invariant
                self.wf(),
                self.src() == old(self).src(),
                old(self).cursor() <= self.cursor(),
                string_scan(self.src(), self.cursor()) == string_scan(
                    old(self).src(),
                    old(self).cursor(),
                ),
            ensures
                self.wf(),
                self.src() == old(self).src(),
                false == string_scan(old(self).src(), old(self).cursor()).0,
                self.cursor() == string_scan(old(self).src(), old(self).cursor()).1,
            decreases self.src().len() - self.cursor(),
        {
            let c = self.peek_char();
            if c == '\\' {
                self.consume_char();
                self.consume_char();
            } else if c == '"' {
                self.consume_char();
                return true;
            } else if c == '\n' {
                break ;
            } else if self.is_eof() {
                break ;
            } else {
                self.consume_char();
            }
        }
        false
    }

    /// Consumes a maximal run of binary digits; true iff the run was empty.
    fn consume_binary(&mut self) -> (empty: bool)
        requires
            old(self).wf(),
        ensures
            final(self).wf(),
            final(self).src() == old(self).src(),
            final(self).cursor() == run_end(
                old(self).src(),
                old(self).cursor(),
                binary_digit_pred(),
            ),
            empty == (final(self).cursor() == old(self).cursor()),
    {
        let start = self.pos;
        self.consume_while(
            (|c: char| -> (b: bool)
                ensures
                    b == spec_is_binary_digit(c),
                { is_binary_digit(c) }),
            Ghost(binary_digit_pred()),
        );
        self.pos == start
    }

    /// Consumes a maximal run of octal digits; true iff the run was empty.
    fn consume_octal(&mut self) -> (empty: bool)
        requires
            old(self).wf(),
        ensures
            final(self).wf(),
            final(self).src() == old(self).src(),
            final(self).cursor() == run_end(
                old(self).src(),
                old(self).cursor(),
                octal_digit_pred(),
            ),
            empty == (final(self).cursor() == old(self).cursor()),
    {
        let start = self.pos;
        self.consume_while(
            (|c: char| -> (b: bool)
                ensures
                    b == spec_is_octal_digit(c),
                { is_octal_digit(c) }),
            Ghost(octal_digit_pred()),
        );
        self.pos == start
    }

    /// Consumes a maximal run of lowercase hexadecimal digits; true iff the
    /// run was empty.
    fn consume_hexadecimal(&mut self) -> (empty: bool)
        requires
            old(self).wf(),
        ensures
            final(self).wf(),
            final(self).src() == old(self).src(),
            final(self).cursor() == run_end(
                old(self).src(),
                old(self).cursor(),
                hexadecimal_digit_pred(),
            ),
            empty == (final(self).cursor() == old(self).cursor()),
    {
        let start = self.pos;
        self.consume_while(
            (|c: char| -> (b: bool)
                ensures
                    b == spec_is_hexadecimal_digit(c),
                { is_hexadecimal_digit(c) }),
            Ghost(hexadecimal_digit_pred()),
        );
        self.pos == start
    }

    /// Consumes a maximal run of decimal digits; true iff the run was empty.
    fn consume_decimal(&mut self) -> (empty: bool)
        requires
            old(self).wf(),
        ensures
            final(self).wf(),
            final(self).src() == old(self).src(),
            final(self).cursor() == run_end(
                old(self).src(),
                old(self).cursor(),
                decimal_digit_pred(),
            ),
            empty == (final(self).cursor() == old(self).cursor()),
    {
        let start = self.pos;
        self.consume_while(
            (|c: char| -> (b: bool)
                ensures
                    b == spec_is_decimal_digit(c),
                { is_decimal_digit(c) }),
            Ghost(decimal_digit_pred()),
        );
        self.pos == start
    }

    /// Scans a numeric literal whose lead digit `first` is already consumed.
    /// A lead `0` looks ahead for a radix marker; the digit run after a
    /// marker may be empty, and the token reports that rather than failing.
    fn number(&mut self, first: char) -> (k: TokenKind)
        requires
            old(self).wf(),
        ensures
            final(self).wf(),
            final(self).src() == old(self).src(),
            k == number_scan(old(self).src(), old(self).cursor(), first).0,
            final(self).cursor() == number_scan(old(self).src(), old(self).cursor(), first).1,
    {
        if first == '0' {
            let c = self.peek_char();
            if c == 'b' {
                self.consume_char();
                let empty = self.consume_binary();
                TokenKind::Int { radix: Radix::Binary, empty }
            } else if c == 'o' {
                self.consume_char();
                let empty = self.consume_octal();
                TokenKind::Int { radix: Radix::Octal, empty }
            } else if c == 'x' {
                self.consume_char();
                let empty = self.consume_hexadecimal();
                TokenKind::Int { radix: Radix::Hexadecimal, empty }
            } else {
                self.consume_decimal();
                TokenKind::Int { radix: Radix::Decimal, empty: false }
            }
        } else {
            self.consume_decimal();
            TokenKind::Int { radix: Radix::Decimal, empty: false }
        }
    }

    /// Returns the next token and advances the cursor just past it.
    ///
    /// The token's kind and extent are exactly those of the spec-level
    /// `scan_token` at the old cursor, and its span is stamped in byte
    /// offsets.  At the end of the input the call consumes nothing and
    /// returns `EndOfFile` with the empty span `[len, len)`; anywhere else
    /// it consumes at least one character, so consecutive calls cover the
    /// source with adjacent spans.
    pub fn next_token(&mut self) -> (t: Token)
        requires
            old(self).wf(),
        ensures
            final(self).wf(),
            final(self).src() == old(self).src(),
            t.kind == scan_token(old(self).src(), old(self).cursor()).0,
            final(self).cursor() == scan_token(old(self).src(), old(self).cursor()).1,
            t.begin == bytes_upto(old(self).src(), old(self).cursor()),
            t.end == bytes_upto(old(self).src(), final(self).cursor()),
            old(self).cursor() <= final(self).cursor() <= old(self).src().len(),
            old(self).cursor() < old(self).src().len() ==> old(self).cursor()
                < final(self).cursor(),
            t.kind == TokenKind::EndOfFile <==> old(self).cursor() == old(self).src().len(),
            t.kind == TokenKind::EndOfFile ==> t.begin == t.end,
            t.kind != TokenKind::EndOfFile ==> t.begin < t.end,
    {
        proof {
            lemma_scan_token_bounds(self.src(), self.cursor());
            lemma_bytes_upto_mono(self.src(), self.cursor(), scan_token(self.src(), self.cursor()).1);
        }
        let begin = self.length_consumed();
        if self.is_eof() {
            return Token { kind: TokenKind::EndOfFile, begin, end: begin };
        }
        let c = self.consume_char().unwrap();
        let kind = if is_whitespace(c) {
            self.whitespace()
        } else if is_ident_start(c) {
            self.identifier()
        } else if c == '"' {
            let terminated = self.string();
            TokenKind::Str { terminated }
        } else if is_decimal_digit(c) {
            self.number(c)
        } else if c == '(' {
            TokenKind::OpenParenthesis
        } else if c == ')' {
            TokenKind::CloseParenthesis
        } else if c == '.' {
            TokenKind::Dot
        } else if c == ':' {
            TokenKind::Colon
        } else if c == ';' {
            TokenKind::SemiColon
        } else if c == ',' {
            TokenKind::Comma
        } else if c == '+' {
            TokenKind::Plus
        } else if c == '*' {
            TokenKind::Star
        } else if c == '/' {
            TokenKind::Slash
        } else if c == '|' {
            TokenKind::Pipe
        } else if c == '&' {
            TokenKind::Ampersand
        } else if c == '~' {
            TokenKind::Tilde
        } else if c == '=' {
            TokenKind::Equal
        } else if c == '-' {
            let p = self.peek_char();
            if p == '-' {
                self.comment()
            } else if p == '>' {
                self.consume_char();
                TokenKind::RightArrow
            } else {
                TokenKind::Minus
            }
        } else if c == '<' {
            let p = self.peek_char();
            if p == '=' {
                self.consume_char();
                TokenKind::LessThanOrEqualTo
            } else if p == '>' {
                self.consume_char();
                TokenKind::LessThanOrGreaterThan
            } else {
                TokenKind::LessThan
            }
        } else if c == '>' {
            let p = self.peek_char();
            if p == '=' {
                self.consume_char();
                TokenKind::GreaterThanOrEqualTo
            } else {
                TokenKind::GreaterThan
            }
        } else {
            TokenKind::Invalid
        };
        let end = self.length_consumed();
        Token { kind, begin, end }
    }

    /// The byte offset of the cursor: the total UTF-8 width of everything
    /// consumed so far.
    fn length_consumed(&self) -> (n: usize)
        requires
            self.wf(),
        ensures
            n == bytes_upto(self.src(), self.cursor()),
    {
        self.consumed
    }
}

} // verus!
