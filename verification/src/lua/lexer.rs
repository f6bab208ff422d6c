//! The lexer of the Lua-style language: bytes of the source to tokens.
use vstd::prelude::*;
use vstd::string::StringSliceAdditionalSpecFns;
use crate::framebuffer::decimal_digits;

verus! {

/// A token, with positions and lengths counted in bytes of the source.
#[derive(PartialEq, Eq, Structural, Debug, Clone, Copy)]
pub enum Token {
    Eof,
    Newline,
    Number(i64),
    /// A string literal: start and length of its contents, quotes excluded.
    String(usize, usize),
    /// A name: start and length of its bytes.
    Identifier(usize, usize),
    Local,
    Print,
    Return,
    Plus,
    Minus,
    Star,
    Slash,
    LeftParen,
    RightParen,
    Equal,
    Semicolon,
}

pub open spec fn is_blank(b: u8) -> bool {
    b == 0x20 || b == 0x09 || b == 0x0d
}

pub open spec fn is_digit(b: u8) -> bool {
    0x30 <= b <= 0x39
}

pub open spec fn is_ident_start(b: u8) -> bool {
    (0x61 <= b <= 0x7a) || (0x41 <= b <= 0x5a) || b == 0x5f
}

pub open spec fn is_ident_char(b: u8) -> bool {
    is_ident_start(b) || is_digit(b)
}

pub open spec fn is_quote(b: u8) -> bool {
    b == 0x22 || b == 0x27
}

/// The first position at or after `i` that holds a newline, or the end.
pub open spec fn line_end(s: Seq<u8>, i: int) -> int
    decreases s.len() - i,
{
    if i < 0 || i >= s.len() || s[i] == 0x0a {
        i
    } else {
        line_end(s, i + 1)
    }
}

/// The first position at or after `i` that is not a digit, or the end.
pub open spec fn digits_end(s: Seq<u8>, i: int) -> int
    decreases s.len() - i,
{
    if i < 0 || i >= s.len() || !is_digit(s[i]) {
        i
    } else {
        digits_end(s, i + 1)
    }
}

/// The first position at or after `i` that cannot continue a name, or the end.
pub open spec fn ident_end(s: Seq<u8>, i: int) -> int
    decreases s.len() - i,
{
    if i < 0 || i >= s.len() || !is_ident_char(s[i]) {
        i
    } else {
        ident_end(s, i + 1)
    }
}

/// The first position at or after `i` that holds `quote` or a newline, or the end.
pub open spec fn string_end(s: Seq<u8>, i: int, quote: u8) -> int
    decreases s.len() - i,
{
    if i < 0 || i >= s.len() || s[i] == quote || s[i] == 0x0a {
        i
    } else {
        string_end(s, i + 1, quote)
    }
}

pub proof fn lemma_line_end_bounds(s: Seq<u8>, i: int)
    requires
        0 <= i <= s.len(),
    ensures
        i <= line_end(s, i) <= s.len(),
        line_end(s, i) < s.len() ==> s[line_end(s, i)] == 0x0a,
    decreases s.len() - i,
{
    if i < s.len() && s[i] != 0x0a {
        lemma_line_end_bounds(s, i + 1);
    }
}

/// The position of the first token at or after `i`: blanks (space, tab,
/// carriage return) and `--` comments up to the end of the line are skipped.
pub open spec fn skip_trivia(s: Seq<u8>, i: int) -> int
    decreases s.len() - i,
{
    if 0 <= i < s.len() && is_blank(s[i]) {
        skip_trivia(s, i + 1)
    } else if 0 <= i && i + 1 < s.len() && s[i] == 0x2d && s[i + 1] == 0x2d {
        proof {
            lemma_line_end_bounds(s, i + 1);
        }
        skip_trivia(s, line_end(s, i + 1))
    } else {
        i
    }
}

/// The value of a run of decimal digits, most significant first.
pub open spec fn decimal(d: Seq<u8>) -> nat
    decreases d.len(),
{
    if d.len() == 0 {
        0
    } else {
        decimal(d.drop_last()) * 10 + (d.last() - 0x30) as nat
    }
}

pub open spec fn keyword_local() -> Seq<u8> {
    seq![0x6cu8, 0x6f, 0x63, 0x61, 0x6c]
}

pub open spec fn keyword_print() -> Seq<u8> {
    seq![0x70u8, 0x72, 0x69, 0x6e, 0x74]
}

pub open spec fn keyword_return() -> Seq<u8> {
    seq![0x72u8, 0x65, 0x74, 0x75, 0x72, 0x6e]
}

/// The token for the single byte `b`, where one exists.
pub open spec fn single_byte_token(b: u8) -> Option<Token> {
    if b == 0x0a {
        Some(Token::Newline)
    } else if b == 0x2b {
        Some(Token::Plus)
    } else if b == 0x2d {
        Some(Token::Minus)
    } else if b == 0x2a {
        Some(Token::Star)
    } else if b == 0x2f {
        Some(Token::Slash)
    } else if b == 0x28 {
        Some(Token::LeftParen)
    } else if b == 0x29 {
        Some(Token::RightParen)
    } else if b == 0x3d {
        Some(Token::Equal)
    } else if b == 0x3b {
        Some(Token::Semicolon)
    } else {
        None
    }
}

/// The token that the name `s[start..end]` forms.
pub open spec fn word_token(s: Seq<u8>, start: int, end: int) -> Token {
    let word = s.subrange(start, end);
    if word == keyword_local() {
        Token::Local
    } else if word == keyword_print() {
        Token::Print
    } else if word == keyword_return() {
        Token::Return
    } else {
        Token::Identifier(start as usize, (end - start) as usize)
    }
}

/// The next token of `s` at or after position `i`, with the position just
/// past it, or the error that lexing stops with.
pub open spec fn lex(s: Seq<u8>, i: int) -> Result<(Token, int), &'static str> {
    let p = skip_trivia(s, i);
    if p >= s.len() {
        Ok((Token::Eof, p))
    } else {
        let b = s[p];
        if single_byte_token(b) is Some {
            Ok((single_byte_token(b)->0, p + 1))
        } else if is_quote(b) {
            let e = string_end(s, p + 1, b);
            if e < s.len() && s[e] == b {
                Ok((Token::String((p + 1) as usize, (e - p - 1) as usize), e + 1))
            } else {
                Err("unterminated string")
            }
        } else if is_digit(b) {
            let e = digits_end(s, p + 1);
            if decimal(s.subrange(p, e)) <= i64::MAX {
                Ok((Token::Number(decimal(s.subrange(p, e)) as i64), e))
            } else {
                Err("integer overflow")
            }
        } else if is_ident_start(b) {
            let e = ident_end(s, p + 1);
            Ok((word_token(s, p, e), e))
        } else {
            Err("unexpected character")
        }
    }
}

/// The decimal text of `n` is made of digits and spells `n`.
proof fn lemma_digits_spell(n: nat)
    ensures
        decimal_digits(n).len() > 0,
        forall|i: int| 0 <= i < decimal_digits(n).len() ==> is_digit(#[trigger] decimal_digits(n)[i]),
        decimal(decimal_digits(n)) == n,
    decreases n,
{
    let d = decimal_digits(n);
    if n >= 10 {
        lemma_digits_spell(n / 10);
        assert(d.drop_last() =~= decimal_digits(n / 10));
        assert forall|i: int| 0 <= i < d.len() implies is_digit(#[trigger] d[i]) by {
            if i < d.len() - 1 {
                assert(d[i] == decimal_digits(n / 10)[i]);
            }
        }
        assert(d.last() == (0x30 + n % 10) as u8);
        assert(((0x30 + n % 10) as u8) as int == 0x30 + n % 10);
        assert(n == (n / 10) * 10 + n % 10);
        assert(decimal(d) == decimal(d.drop_last()) * 10 + (d.last() - 0x30) as nat);
    } else {
        assert(d.drop_last() =~= Seq::<u8>::empty());
        assert(decimal(d) == decimal(d.drop_last()) * 10 + (d.last() - 0x30) as nat);
    }
}

/// A run of digits from `i` to the end ends at the end.
proof fn lemma_digits_to_end(s: Seq<u8>, i: int)
    requires
        0 <= i <= s.len(),
        forall|j: int| i <= j < s.len() ==> is_digit(#[trigger] s[j]),
    ensures
        digits_end(s, i) == s.len(),
    decreases s.len() - i,
{
    if i < s.len() {
        lemma_digits_to_end(s, i + 1);
    }
}

/// The decimal text of a number that fits in an `i64` lexes as that
/// number, and nothing of it is left over.
pub proof fn lemma_lex_decimal(n: nat)
    requires
        n <= i64::MAX,
    ensures
        lex(decimal_digits(n), 0) == Ok::<(Token, int), &'static str>(
            (Token::Number(n as i64), decimal_digits(n).len() as int),
        ),
{
    let d = decimal_digits(n);
    lemma_digits_spell(n);
    assert(is_digit(d[0]));
    assert(skip_trivia(d, 0) == 0);
    lemma_digits_to_end(d, 1);
    assert(d.subrange(0, d.len() as int) =~= d);
}

/// A run of digits from `i` that ends at `e` (the end, or a byte that is
/// not a digit) ends at `e`.
proof fn lemma_digits_run(s: Seq<u8>, i: int, e: int)
    requires
        0 <= i <= e <= s.len(),
        forall|j: int| i <= j < e ==> is_digit(#[trigger] s[j]),
        e == s.len() || !is_digit(s[e]),
    ensures
        digits_end(s, i) == e,
    decreases e - i,
{
    if i < e {
        lemma_digits_run(s, i + 1, e);
    }
}

/// The decimal text of a number that fits in an `i64`, standing at `i` in
/// a source and followed by a byte that is not a digit (or by the end),
/// lexes there as that number.
pub proof fn lemma_lex_number_at(s: Seq<u8>, i: int, n: nat)
    requires
        n <= i64::MAX,
        0 <= i,
        i + decimal_digits(n).len() <= s.len(),
        s.subrange(i, i + decimal_digits(n).len()) == decimal_digits(n),
        i + decimal_digits(n).len() == s.len() || !is_digit(s[i + decimal_digits(n).len()]),
    ensures
        lex(s, i) == Ok::<(Token, int), &'static str>((Token::Number(n as i64), i + decimal_digits(n).len())),
{
    let d = decimal_digits(n);
    let e = i + d.len();
    lemma_digits_spell(n);
    assert forall|j: int| i <= j < e implies is_digit(#[trigger] s[j]) by {
        assert(s[j] == d[j - i]);
    }
    assert(is_digit(s[i]));
    assert(skip_trivia(s, i) == i);
    lemma_digits_run(s, i + 1, e);
}

/// A token refers only to bytes inside the source; a string token's
/// contents stand between two equal quote bytes.
pub open spec fn token_wf(s: Seq<u8>, t: Token) -> bool {
    match t {
        Token::String(start, length) => {
            &&& 1 <= start
            &&& start + length < s.len()
            &&& is_quote(s[start - 1])
            &&& s[start + length] == s[start - 1]
        },
        Token::Identifier(start, length) => start + length <= s.len(),
        _ => true,
    }
}

pub proof fn lemma_skip_trivia_bounds(s: Seq<u8>, i: int)
    requires
        0 <= i <= s.len(),
    ensures
        i <= skip_trivia(s, i) <= s.len(),
        skip_trivia(s, i) < s.len() ==> !is_blank(s[skip_trivia(s, i)]),
    decreases s.len() - i,
{
    if 0 <= i < s.len() && is_blank(s[i]) {
        lemma_skip_trivia_bounds(s, i + 1);
    } else if 0 <= i && i + 1 < s.len() && s[i] == 0x2d && s[i + 1] == 0x2d {
        lemma_line_end_bounds(s, i + 1);
        lemma_skip_trivia_bounds(s, line_end(s, i + 1));
    }
}

pub proof fn lemma_end_bounds(s: Seq<u8>, i: int, quote: u8)
    requires
        0 <= i <= s.len(),
    ensures
        i <= digits_end(s, i) <= s.len(),
        i <= ident_end(s, i) <= s.len(),
        i <= string_end(s, i, quote) <= s.len(),
        forall|j: int| i <= j < digits_end(s, i) ==> is_digit(#[trigger] s[j]),
    decreases s.len() - i,
{
    if i < s.len() {
        lemma_end_bounds(s, i + 1, quote);
    }
}

/// Lexing moves forward, never past the end, and only yields well-formed
/// tokens; it stays in place only at the end of the source.
pub proof fn lemma_lex_progress(s: Seq<u8>, i: int)
    requires
        0 <= i <= s.len(),
        s.len() <= usize::MAX,
    ensures
        lex(s, i) matches Ok((t, p)) ==> {
            &&& i <= p <= s.len()
            &&& token_wf(s, t)
            &&& (t == Token::Eof ==> p == s.len())
            &&& t != Token::Eof ==> i < p
        },
{
    lemma_skip_trivia_bounds(s, i);
    let p = skip_trivia(s, i);
    if p < s.len() {
        lemma_end_bounds(s, p + 1, s[p]);
    }
}

/// A byte in the source: `None` past its end.
pub open spec fn byte_at(s: Seq<u8>, i: int) -> Option<u8> {
    if 0 <= i < s.len() {
        Some(s[i])
    } else {
        None
    }
}

proof fn lemma_decimal_push(d: Seq<u8>, b: u8)
    ensures
        decimal(d.push(b)) == decimal(d) * 10 + (b - 0x30) as nat,
{
    assert(d.push(b).drop_last() =~= d);
}

/// A longer run of digits is worth at least as much as its prefix.
proof fn lemma_decimal_monotone(s: Seq<u8>, start: int, mid: int, end: int)
    requires
        0 <= start <= mid <= end <= s.len(),
        forall|j: int| start <= j < end ==> is_digit(#[trigger] s[j]),
    ensures
        decimal(s.subrange(start, mid)) <= decimal(s.subrange(start, end)),
    decreases end - mid,
{
    if mid < end {
        lemma_decimal_monotone(s, start, mid, end - 1);
        assert(s.subrange(start, end) =~= s.subrange(start, end - 1).push(s[end - 1]));
        lemma_decimal_push(s.subrange(start, end - 1), s[end - 1]);
    }
}

pub struct Lexer<'a> {
    source: &'a [u8],
    cursor: usize,
}

impl<'a> Lexer<'a> {
    pub closed spec fn bytes(&self) -> Seq<u8> {
        self.source@
    }

    pub closed spec fn position(&self) -> int {
        self.cursor as int
    }

    pub open spec fn wf(&self) -> bool {
        &&& 0 <= self.position() <= self.bytes().len()
        &&& self.bytes().len() <= usize::MAX
    }

    pub fn new(source: &'a str) -> (lexer: Self)
        ensures
            lexer.bytes() == source.spec_bytes(),
            lexer.position() == 0,
            lexer.wf(),
    {
        let bytes = source.as_bytes();
        let _ = bytes.len();
        Self { source: bytes, cursor: 0 }
    }

    fn peek(&self) -> (byte: Option<u8>)
        ensures
            byte == byte_at(self.bytes(), self.position()),
    {
        if self.cursor < self.source.len() {
            Some(self.source[self.cursor])
        } else {
            None
        }
    }

    fn peek_n(&self, offset: usize) -> (byte: Option<u8>)
        requires
            self.wf(),
        ensures
            byte == byte_at(self.bytes(), self.position() + offset),
    {
        if offset < self.source.len() - self.cursor {
            Some(self.source[self.cursor + offset])
        } else {
            None
        }
    }

    /// Whether `source[start..start + length]` spells `word`.
    fn spells(&self, start: usize, length: usize, word: &[u8]) -> (same: bool)
        requires
            start + length <= self.bytes().len(),
        ensures
            same == (self.bytes().subrange(start as int, start + length) == word@),
    {
        if length != word.len() {
            return false;
        }
        let mut index: usize = 0;
        while index < length
            invariant
                start + length <= self.source.len(),
                length == word@.len(),
                index <= length,
                forall|j: int| 0 <= j < index ==> self.source@[start + j] == word@[j],
            decreases length - index,
        {
            if self.source[start + index] != word[index] {
                assert(self.source@.subrange(start as int, start + length)[index as int]
                    != word@[index as int]);
                return false;
            }
            index = index + 1;
        }
        assert(self.source@.subrange(start as int, start + length) =~= word@);
        true
    }

    /// Skips blanks and comments.
    #[verifier::loop_isolation(false)]
    fn skip_trivia(&mut self)
        requires
            old(self).wf(),
        ensures
            final(self).wf(),
            final(self).bytes() == old(self).bytes(),
            final(self).position() == skip_trivia(old(self).bytes(), old(self).position()),
    {
        let ghost s = self.source@;
        let ghost target = skip_trivia(s, self.cursor as int);
        loop
            invariant
                self.source@ == s,
                self.cursor <= s.len(),
                skip_trivia(s, self.cursor as int) == target,
            decreases s.len() - self.cursor,
        {
            let ghost begin = self.cursor as int;
            while self.cursor < self.source.len() && (self.source[self.cursor] == 0x20
                || self.source[self.cursor] == 0x09 || self.source[self.cursor] == 0x0d)
                invariant
                    self.source@ == s,
                    begin <= self.cursor <= s.len(),
                    skip_trivia(s, self.cursor as int) == target,
                decreases s.len() - self.cursor,
            {
                self.cursor = self.cursor + 1;
            }
            if self.peek() == Some(0x2du8) && self.peek_n(1) == Some(0x2du8) {
                let ghost start = self.cursor as int;
                proof {
                    lemma_line_end_bounds(s, start + 1);
                }
                while self.cursor < self.source.len() && self.source[self.cursor] != 0x0a
                    invariant
                        self.source@ == s,
                        begin <= start <= self.cursor <= s.len(),
                        start + 1 < s.len(),
                        s[start] == 0x2d,
                        line_end(s, self.cursor as int) == line_end(s, start + 1),
                        skip_trivia(s, start) == target,
                    decreases s.len() - self.cursor,
                {
                    self.cursor = self.cursor + 1;
                }
                continue ;
            }
            return ;
        }
    }

    /// The next token.
    #[verifier::loop_isolation(false)]
    pub fn next(&mut self) -> (token: Result<Token, &'static str>)
        requires
            old(self).wf(),
        ensures
            final(self).wf(),
            final(self).bytes() == old(self).bytes(),
            match lex(old(self).bytes(), old(self).position()) {
                Ok((t, p)) => token == Ok::<Token, &'static str>(t) && final(self).position()
                    == p,
                Err(e) => token == Err::<Token, &'static str>(e),
            },
    {
        let ghost s = self.source@;
        let ghost i = self.cursor as int;
        self.skip_trivia();
        proof {
            lemma_skip_trivia_bounds(s, i);
        }
        let byte = match self.peek() {
            Some(byte) => byte,
            None => return Ok(Token::Eof),
        };
        let p = self.cursor;
        self.cursor = self.cursor + 1;
        if byte == 0x0a {
            Ok(Token::Newline)
        } else if byte == 0x2b {
            Ok(Token::Plus)
        } else if byte == 0x2d {
            Ok(Token::Minus)
        } else if byte == 0x2a {
            Ok(Token::Star)
        } else if byte == 0x2f {
            Ok(Token::Slash)
        } else if byte == 0x28 {
            Ok(Token::LeftParen)
        } else if byte == 0x29 {
            Ok(Token::RightParen)
        } else if byte == 0x3d {
            Ok(Token::Equal)
        } else if byte == 0x3b {
            Ok(Token::Semicolon)
        } else if byte == 0x22 || byte == 0x27 {
            let start = self.cursor;
            proof {
                lemma_end_bounds(s, start as int, byte);
            }
            while self.cursor < self.source.len()
                invariant
                    self.source@ == s,
                    start <= self.cursor <= s.len(),
                    string_end(s, start as int, byte) == string_end(s, self.cursor as int, byte),
                decreases s.len() - self.cursor,
            {
                let current = self.source[self.cursor];
                if current == byte {
                    let length = self.cursor - start;
                    self.cursor = self.cursor + 1;
                    return Ok(Token::String(start, length));
                }
                if current == 0x0a {
                    return Err("unterminated string");
                }
                self.cursor = self.cursor + 1;
            }
            Err("unterminated string")
        } else if 0x30 <= byte && byte <= 0x39 {
            let mut number: i64 = (byte - 0x30) as i64;
            proof {
                lemma_end_bounds(s, p + 1, byte);
                assert(s.subrange(p as int, p + 1) =~= seq![].push(byte));
                lemma_decimal_push(seq![], byte);
            }
            while self.cursor < self.source.len() && 0x30 <= self.source[self.cursor]
                && self.source[self.cursor] <= 0x39
                invariant
                    self.source@ == s,
                    p < self.cursor <= s.len(),
                    p < s.len(),
                    is_digit(s[p as int]),
                    digits_end(s, p + 1) == digits_end(s, self.cursor as int),
                    forall|j: int| p <= j < self.cursor ==> is_digit(#[trigger] s[j]),
                    number == decimal(s.subrange(p as int, self.cursor as int)),
                decreases s.len() - self.cursor,
            {
                let next = self.source[self.cursor];
                proof {
                    assert(s.subrange(p as int, self.cursor + 1) =~= s.subrange(
                        p as int,
                        self.cursor as int,
                    ).push(next));
                    lemma_decimal_push(s.subrange(p as int, self.cursor as int), next);
                    lemma_end_bounds(s, self.cursor + 1, byte);
                    assert(digits_end(s, self.cursor as int) == digits_end(s, self.cursor + 1));
                }
                let digit = (next - 0x30) as i64;
                match number.checked_mul(10) {
                    Some(scaled) => match scaled.checked_add(digit) {
                        Some(value) => {
                            number = value;
                        },
                        None => {
                            proof {
                                lemma_decimal_monotone(
                                    s,
                                    p as int,
                                    self.cursor + 1,
                                    digits_end(s, p + 1),
                                );
                            }
                            return Err("integer overflow");
                        },
                    },
                    None => {
                        proof {
                            lemma_decimal_monotone(
                                s,
                                p as int,
                                self.cursor + 1,
                                digits_end(s, p + 1),
                            );
                        }
                        return Err("integer overflow");
                    },
                }
                self.cursor = self.cursor + 1;
            }
            Ok(Token::Number(number))
        } else if (0x61 <= byte && byte <= 0x7a) || (0x41 <= byte && byte <= 0x5a) || byte
            == 0x5f {
            let start = p;
            proof {
                lemma_end_bounds(s, p + 1, byte);
            }
            while self.cursor < self.source.len() && ((0x61 <= self.source[self.cursor]
                && self.source[self.cursor] <= 0x7a) || (0x41 <= self.source[self.cursor]
                && self.source[self.cursor] <= 0x5a) || (0x30 <= self.source[self.cursor]
                && self.source[self.cursor] <= 0x39) || self.source[self.cursor] == 0x5f)
                invariant
                    self.source@ == s,
                    p < self.cursor <= s.len(),
                    ident_end(s, p + 1) == ident_end(s, self.cursor as int),
                decreases s.len() - self.cursor,
            {
                self.cursor = self.cursor + 1;
            }
            let length = self.cursor - start;
            if self.spells(start, length, &[0x6cu8, 0x6f, 0x63, 0x61, 0x6c]) {
                Ok(Token::Local)
            } else if self.spells(start, length, &[0x70u8, 0x72, 0x69, 0x6e, 0x74]) {
                Ok(Token::Print)
            } else if self.spells(start, length, &[0x72u8, 0x65, 0x74, 0x75, 0x72, 0x6e]) {
                Ok(Token::Return)
            } else {
                Ok(Token::Identifier(start, length))
            }
        } else {
            Err("unexpected character")
        }
    }
}

} // verus!
