use crate::text::{is_digit, same_text};
use crate::token::Token;
use vstd::prelude::*;
use vstd::string::*;

verus! {

/// Whether a character has Unicode's Alphabetic property.
pub uninterp spec fn alphabetic(c: char) -> bool;

/// Relies on `char::is_alphabetic`: whether `c` has Unicode's Alphabetic
/// property. Among ASCII characters that property holds of the letters alone.
#[verifier::external_body]
fn is_alphabetic(c: char) -> (r: bool)
    ensures
        r == alphabetic(c),
        (c as u32) < 128 ==> (r <==> ('a' <= c <= 'z' || 'A' <= c <= 'Z')),
{
    c.is_alphabetic()
}

pub open spec fn is_whitespace(c: char) -> bool {
    c == ' ' || c == '\t' || c == '\n' || c == '\r'
}

/// Letters and `_`. Among ASCII characters the letters are `a`-`z` and
/// `A`-`Z`; beyond ASCII, those with Unicode's Alphabetic property.
pub open spec fn is_ident_letter(c: char) -> bool {
    if (c as u32) < 128 {
        ('a' <= c <= 'z') || ('A' <= c <= 'Z') || c == '_'
    } else {
        alphabetic(c) || c == '_'
    }
}

/// The first position at or after `i` that does not hold whitespace.
pub open spec fn skip_ws(s: Seq<char>, i: int) -> int
    decreases s.len() - i,
{
    if 0 <= i < s.len() && is_whitespace(s[i]) {
        skip_ws(s, i + 1)
    } else {
        i
    }
}

/// The end of the run of identifier letters that starts at `i`.
pub open spec fn ident_end(s: Seq<char>, i: int) -> int
    decreases s.len() - i,
{
    if 0 <= i < s.len() && is_ident_letter(s[i]) {
        ident_end(s, i + 1)
    } else {
        i
    }
}

/// The end of the run of decimal digits that starts at `i`.
pub open spec fn digits_end(s: Seq<char>, i: int) -> int
    decreases s.len() - i,
{
    if 0 <= i < s.len() && is_digit(s[i]) {
        digits_end(s, i + 1)
    } else {
        i
    }
}

/// The position of the first `"` at or after `i`, or the end of the input.
pub open spec fn quote_end(s: Seq<char>, i: int) -> int
    decreases s.len() - i,
{
    if 0 <= i < s.len() && s[i] != '"' {
        quote_end(s, i + 1)
    } else {
        i
    }
}

/// The token that a word of identifier letters stands for: a keyword, or
/// an identifier with that text.
pub open spec fn word_token(w: Seq<char>, t: Token) -> bool {
    if w == "let"@ {
        t is LET
    } else if w == "fn"@ {
        t is FUNCTION
    } else if w == "if"@ {
        t is IF
    } else if w == "else"@ {
        t is ELSE
    } else if w == "true"@ {
        t is TRUE
    } else if w == "false"@ {
        t is FALSE
    } else if w == "return"@ {
        t is RETURN
    } else {
        t is IDENT && t->IDENT_0@ == w
    }
}

/// The token of one character that stands alone, if `c` is one.
pub open spec fn single_token(c: char, t: Token) -> bool {
    if c == '+' {
        t is PLUS
    } else if c == '-' {
        t is SUB
    } else if c == '/' {
        t is DIV
    } else if c == '*' {
        t is MUL
    } else if c == '>' {
        t is GT
    } else if c == '<' {
        t is LT
    } else if c == ',' {
        t is COMMA
    } else if c == ';' {
        t is SEMICOLON
    } else if c == ':' {
        t is COLON
    } else if c == '(' {
        t is LPAREN
    } else if c == ')' {
        t is RPAREN
    } else if c == '{' {
        t is LBRACE
    } else if c == '}' {
        t is RBRACE
    } else if c == '[' {
        t is LBRACKET
    } else {
        t is RBRACKET
    }
}

pub open spec fn is_single(c: char) -> bool {
    c == '+' || c == '-' || c == '/' || c == '*' || c == '>' || c == '<' || c == ',' || c == ';'
        || c == ':' || c == '(' || c == ')' || c == '{' || c == '}' || c == '[' || c == ']'
}

/// Scanning `s` from `start` gives the token `t` and leaves the scanner at `next`.
pub open spec fn scanned(s: Seq<char>, start: int, t: Token, next: int) -> bool {
    let j = skip_ws(s, start);
    if j >= s.len() {
        t is EOF && next == j
    } else {
        let c = s[j];
        if c == '=' {
            if j + 1 < s.len() && s[j + 1] == '=' {
                t is EQ && next == j + 2
            } else {
                t is ASSIGN && next == j + 1
            }
        } else if c == '!' {
            if j + 1 < s.len() && s[j + 1] == '=' {
                t is NE && next == j + 2
            } else {
                t is BANG && next == j + 1
            }
        } else if is_single(c) {
            single_token(c, t) && next == j + 1
        } else if c == '"' {
            let e = quote_end(s, j + 1);
            &&& t is STRING
            &&& t->STRING_0@ == s.subrange(j + 1, e)
            &&& next == if e < s.len() {
                e + 1
            } else {
                e
            }
        } else if is_ident_letter(c) {
            let e = ident_end(s, j);
            word_token(s.subrange(j, e), t) && next == e
        } else if is_digit(c) {
            let e = digits_end(s, j);
            t is INT && t->INT_0@ == s.subrange(j, e) && next == e
        } else {
            t is ILLEGAL && t->ILLEGAL_0@ == s.subrange(j, j + 1) && next == j + 1
        }
    }
}

/// Scanning `s` from `ps[i]` gives the token `ts[i]`, not `EOF`, and
/// leaves the scanner at `ps[i + 1]`.
pub open spec fn lexed_at(s: Seq<char>, ps: Seq<int>, ts: Seq<Token>) -> bool {
    &&& ps.len() == ts.len() + 1
    &&& forall|i: int|
        0 <= i < ts.len() ==> scanned(s, ps[i], #[trigger] ts[i], ps[i + 1]) && !(ts[i] is EOF)
}

/// `ts` are all the tokens of `s` from `p` on, up to the end of the input.
pub open spec fn lexes(s: Seq<char>, p: int, ts: Seq<Token>) -> bool {
    exists|ps: Seq<int>|
        #[trigger] lexed_at(s, ps, ts) && ps[0] == p && skip_ws(s, ps.last()) >= s.len()
}

/// Turns source text into tokens, one at a time.
pub struct Lexer {
    input: String,
    chars: Vec<char>,
    index: usize,
}

impl Lexer {
    /// The characters of the source.
    pub closed spec fn source(&self) -> Seq<char> {
        self.input@
    }

    /// The position of the next character to read.
    pub closed spec fn position(&self) -> int {
        self.index as int
    }

    pub closed spec fn wf(&self) -> bool {
        &&& self.chars@ == self.input@
        &&& self.index <= self.chars@.len()
    }

    /// Whether only whitespace is left, so that every further token is `EOF`.
    pub open spec fn at_end(&self) -> bool {
        skip_ws(self.source(), self.position()) >= self.source().len()
    }

    pub fn new(input: &str) -> (r: Self)
        ensures
            r.wf(),
            r.source() == input@,
            r.position() == 0,
            r.position() <= r.source().len(),
    {
        let n = input.unicode_len();
        let mut chars: Vec<char> = Vec::new();
        let mut i: usize = 0;
        while i < n
            invariant
                n == input@.len(),
                i <= n,
                chars@ == input@.subrange(0, i as int),
            decreases n - i,
        {
            chars.push(input.get_char(i));
            assert(chars@ =~= input@.subrange(0, i + 1));
            i = i + 1;
        }
        assert(chars@ =~= input@);
        Lexer { input: input.to_owned(), chars, index: 0 }
    }

    /// Moves past the current character, if there is one.
    pub fn read_char(&mut self)
        requires
            old(self).wf(),
        ensures
            final(self).wf(),
            final(self).source() == old(self).source(),
            final(self).position() == if old(self).position() < old(self).source().len() {
                old(self).position() + 1
            } else {
                old(self).position()
            },
    {
        if self.index < self.chars.len() {
            self.index = self.index + 1;
        }
    }

    /// The character after the current one, or `'\0'` past the end.
    pub fn peek_char(&self) -> (r: char)
        requires
            self.wf(),
        ensures
            r == if self.position() + 1 < self.source().len() {
                self.source()[self.position() + 1]
            } else {
                '\0'
            },
    {
        if self.chars.len() - self.index > 1 {
            self.chars[self.index + 1]
        } else {
            '\0'
        }
    }

    fn text(&self, start: usize, end: usize) -> (r: String)
        requires
            self.wf(),
            start <= end <= self.source().len(),
        ensures
            r@ == self.source().subrange(start as int, end as int),
    {
        self.input.as_str().substring_char(start, end).to_owned()
    }

    /// Reads a run of identifier letters.
    pub fn read_identifier(&mut self) -> (r: String)
        requires
            old(self).wf(),
        ensures
            final(self).wf(),
            final(self).source() == old(self).source(),
            final(self).position() == ident_end(old(self).source(), old(self).position()),
            final(self).position() <= final(self).source().len(),
            old(self).position() <= final(self).position(),
            old(self).position() < old(self).source().len() && is_ident_letter(
                old(self).source()[old(self).position()],
            ) ==> old(self).position() < final(self).position(),
            r@ == old(self).source().subrange(old(self).position(), final(self).position()),
    {
        let start = self.index;
        while self.index < self.chars.len() && Self::is_ident_letter(self.chars[self.index])
            invariant
                self.wf(),
                self.input == old(self).input,
                start <= self.index,
                ident_end(self.chars@, start as int) == ident_end(self.chars@, self.index as int),
            decreases self.chars@.len() - self.index,
        {
            self.index = self.index + 1;
        }
        self.text(start, self.index)
    }

    /// Reads a run of decimal digits.
    pub fn read_number(&mut self) -> (r: String)
        requires
            old(self).wf(),
        ensures
            final(self).wf(),
            final(self).source() == old(self).source(),
            final(self).position() == digits_end(old(self).source(), old(self).position()),
            final(self).position() <= final(self).source().len(),
            old(self).position() <= final(self).position(),
            old(self).position() < old(self).source().len() && is_digit(
                old(self).source()[old(self).position()],
            ) ==> old(self).position() < final(self).position(),
            r@ == old(self).source().subrange(old(self).position(), final(self).position()),
    {
        let start = self.index;
        while self.index < self.chars.len() && Self::is_digit(self.chars[self.index])
            invariant
                self.wf(),
                self.input == old(self).input,
                start <= self.index,
                digits_end(self.chars@, start as int) == digits_end(self.chars@, self.index as int),
            decreases self.chars@.len() - self.index,
        {
            self.index = self.index + 1;
        }
        self.text(start, self.index)
    }

    /// Reads a string literal whose opening quote is the current character,
    /// up to the closing quote or the end of the input, and stops there.
    pub fn read_string(&mut self) -> (r: String)
        requires
            old(self).wf(),
            old(self).position() < old(self).source().len(),
        ensures
            final(self).wf(),
            final(self).source() == old(self).source(),
            old(self).position() < final(self).position() <= final(self).source().len(),
            ({
                let e = quote_end(old(self).source(), old(self).position() + 1);
                &&& r@ == old(self).source().subrange(old(self).position() + 1, e)
                &&& final(self).position() == e
            }),
    {
        assert(self.index < self.chars.len());
        self.index = self.index + 1;
        let start = self.index;
        while self.index < self.chars.len() && self.chars[self.index] != '"'
            invariant
                self.wf(),
                self.input == old(self).input,
                start <= self.index,
                quote_end(self.chars@, start as int) == quote_end(self.chars@, self.index as int),
            decreases self.chars@.len() - self.index,
        {
            self.index = self.index + 1;
        }
        self.text(start, self.index)
    }

    /// The next token, after any whitespace.
    pub fn next_token(&mut self) -> (r: Token)
        requires
            old(self).wf(),
        ensures
            final(self).wf(),
            final(self).source() == old(self).source(),
            scanned(old(self).source(), old(self).position(), r, final(self).position()),
            final(self).position() <= final(self).source().len(),
            old(self).position() <= final(self).position(),
            !(r is EOF) ==> old(self).position() < final(self).position(),
            r is EOF ==> final(self).at_end(),
            old(self).at_end() ==> r is EOF,
    {
        self.skip_whitespace();
        let n = self.chars.len();
        if self.index >= n {
            return Token::EOF;
        }
        let c = self.chars[self.index];
        if c == '=' {
            if self.peek_char() == '=' {
                self.index = self.index + 2;
                Token::EQ
            } else {
                self.index = self.index + 1;
                Token::ASSIGN
            }
        } else if c == '!' {
            if self.peek_char() == '=' {
                self.index = self.index + 2;
                Token::NE
            } else {
                self.index = self.index + 1;
                Token::BANG
            }
        } else if c == '+' || c == '-' || c == '/' || c == '*' || c == '>' || c == '<' || c == ','
            || c == ';' || c == ':' || c == '(' || c == ')' || c == '{' || c == '}' || c == '['
            || c == ']' {
            self.index = self.index + 1;
            if c == '+' {
                Token::PLUS
            } else if c == '-' {
                Token::SUB
            } else if c == '/' {
                Token::DIV
            } else if c == '*' {
                Token::MUL
            } else if c == '>' {
                Token::GT
            } else if c == '<' {
                Token::LT
            } else if c == ',' {
                Token::COMMA
            } else if c == ';' {
                Token::SEMICOLON
            } else if c == ':' {
                Token::COLON
            } else if c == '(' {
                Token::LPAREN
            } else if c == ')' {
                Token::RPAREN
            } else if c == '{' {
                Token::LBRACE
            } else if c == '}' {
                Token::RBRACE
            } else if c == '[' {
                Token::LBRACKET
            } else {
                Token::RBRACKET
            }
        } else if c == '"' {
            let text = self.read_string();
            self.read_char();
            Token::STRING(text)
        } else if Self::is_ident_letter(c) {
            Self::is_keyword(self.read_identifier())
        } else if Self::is_digit(c) {
            Token::INT(self.read_number())
        } else {
            let start = self.index;
            self.index = self.index + 1;
            Token::ILLEGAL(self.text(start, start + 1))
        }
    }

    fn is_ident_letter(c: char) -> (r: bool)
        ensures
            r == is_ident_letter(c),
    {
        is_alphabetic(c) || c == '_'
    }

    fn is_digit(c: char) -> (r: bool)
        ensures
            r == is_digit(c),
    {
        '0' <= c && c <= '9'
    }

    /// The keyword token that `ident` spells, or an identifier token.
    fn is_keyword(ident: String) -> (r: Token)
        ensures
            word_token(ident@, r),
    {
        let w = ident.as_str();
        if same_text(w, "let") {
            Token::LET
        } else if same_text(w, "fn") {
            Token::FUNCTION
        } else if same_text(w, "if") {
            Token::IF
        } else if same_text(w, "else") {
            Token::ELSE
        } else if same_text(w, "true") {
            Token::TRUE
        } else if same_text(w, "false") {
            Token::FALSE
        } else if same_text(w, "return") {
            Token::RETURN
        } else {
            Token::IDENT(ident)
        }
    }

    fn skip_whitespace(&mut self)
        requires
            old(self).wf(),
        ensures
            final(self).wf(),
            final(self).input == old(self).input,
            final(self).position() == skip_ws(old(self).source(), old(self).position()),
            old(self).position() <= final(self).position(),
    {
        while self.index < self.chars.len() && (self.chars[self.index] == ' ' || self.chars[self.index]
            == '\t' || self.chars[self.index] == '\n' || self.chars[self.index] == '\r')
            invariant
                self.wf(),
                self.input == old(self).input,
                old(self).index <= self.index,
                skip_ws(self.chars@, old(self).index as int) == skip_ws(
                    self.chars@,
                    self.index as int,
                ),
            decreases self.chars@.len() - self.index,
        {
            self.index = self.index + 1;
        }
    }
}

} // verus!
