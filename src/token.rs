use vstd::prelude::*;
use vstd::string::*;

verus! {

/// One lexical unit. Identifiers, integers and strings carry their text.
#[derive(Clone, Debug, Eq)]
pub enum Token {
    ILLEGAL(String),
    EOF,
    IDENT(String),
    INT(String),
    STRING(String),
    ASSIGN,
    EQ,
    NE,
    BANG,
    PLUS,
    SUB,
    DIV,
    MUL,
    GT,
    LT,
    COMMA,
    SEMICOLON,
    COLON,
    QUOTE,
    LPAREN,
    RPAREN,
    LBRACE,
    RBRACE,
    LBRACKET,
    RBRACKET,
    FUNCTION,
    LET,
    IF,
    ELSE,
    RETURN,
    TRUE,
    FALSE,
}

/// The variant of a token, without its text: two tokens match when their
/// kinds are equal.
pub open spec fn kind(t: Token) -> int {
    match t {
        Token::ILLEGAL(_) => 0,
        Token::EOF => 1,
        Token::IDENT(_) => 2,
        Token::INT(_) => 3,
        Token::STRING(_) => 4,
        Token::ASSIGN => 5,
        Token::EQ => 6,
        Token::NE => 7,
        Token::BANG => 8,
        Token::PLUS => 9,
        Token::SUB => 10,
        Token::DIV => 11,
        Token::MUL => 12,
        Token::GT => 13,
        Token::LT => 14,
        Token::COMMA => 15,
        Token::SEMICOLON => 16,
        Token::COLON => 17,
        Token::QUOTE => 18,
        Token::LPAREN => 19,
        Token::RPAREN => 20,
        Token::LBRACE => 21,
        Token::RBRACE => 22,
        Token::LBRACKET => 23,
        Token::RBRACKET => 24,
        Token::FUNCTION => 25,
        Token::LET => 26,
        Token::IF => 27,
        Token::ELSE => 28,
        Token::RETURN => 29,
        Token::TRUE => 30,
        Token::FALSE => 31,
    }
}

/// The printed form of a token.
pub open spec fn token_text(t: Token) -> Seq<char> {
    match t {
        Token::ILLEGAL(s) => "ILLEGAL : "@ + s@,
        Token::EOF => "EOF"@,
        Token::IDENT(s) => s@,
        Token::INT(s) => s@,
        Token::STRING(s) => s@,
        Token::ASSIGN => "="@,
        Token::EQ => "=="@,
        Token::NE => "!="@,
        Token::BANG => "!"@,
        Token::PLUS => "+"@,
        Token::SUB => "-"@,
        Token::DIV => "/"@,
        Token::MUL => "*"@,
        Token::GT => ">"@,
        Token::LT => "<"@,
        Token::COMMA => ","@,
        Token::SEMICOLON => ";"@,
        Token::COLON => ":"@,
        Token::QUOTE => "\""@,
        Token::LPAREN => "("@,
        Token::RPAREN => ")"@,
        Token::LBRACE => "{"@,
        Token::RBRACE => "}"@,
        Token::LBRACKET => "["@,
        Token::RBRACKET => "]"@,
        Token::FUNCTION => "FUNCTION"@,
        Token::LET => "LET"@,
        Token::IF => "IF"@,
        Token::ELSE => "ELSE"@,
        Token::RETURN => "RETURN"@,
        Token::TRUE => "TRUE"@,
        Token::FALSE => "FALSE"@,
    }
}

impl Token {
    /// Whether two tokens are of the same variant, whatever their text.
    pub fn same_kind(&self, other: &Token) -> (r: bool)
        ensures
            r == (kind(*self) == kind(*other)),
    {
        match (self, other) {
            (Token::ILLEGAL(_), Token::ILLEGAL(_)) => true,
            (Token::EOF, Token::EOF) => true,
            (Token::IDENT(_), Token::IDENT(_)) => true,
            (Token::INT(_), Token::INT(_)) => true,
            (Token::STRING(_), Token::STRING(_)) => true,
            (Token::ASSIGN, Token::ASSIGN) => true,
            (Token::EQ, Token::EQ) => true,
            (Token::NE, Token::NE) => true,
            (Token::BANG, Token::BANG) => true,
            (Token::PLUS, Token::PLUS) => true,
            (Token::SUB, Token::SUB) => true,
            (Token::DIV, Token::DIV) => true,
            (Token::MUL, Token::MUL) => true,
            (Token::GT, Token::GT) => true,
            (Token::LT, Token::LT) => true,
            (Token::COMMA, Token::COMMA) => true,
            (Token::SEMICOLON, Token::SEMICOLON) => true,
            (Token::COLON, Token::COLON) => true,
            (Token::QUOTE, Token::QUOTE) => true,
            (Token::LPAREN, Token::LPAREN) => true,
            (Token::RPAREN, Token::RPAREN) => true,
            (Token::LBRACE, Token::LBRACE) => true,
            (Token::RBRACE, Token::RBRACE) => true,
            (Token::LBRACKET, Token::LBRACKET) => true,
            (Token::RBRACKET, Token::RBRACKET) => true,
            (Token::FUNCTION, Token::FUNCTION) => true,
            (Token::LET, Token::LET) => true,
            (Token::IF, Token::IF) => true,
            (Token::ELSE, Token::ELSE) => true,
            (Token::RETURN, Token::RETURN) => true,
            (Token::TRUE, Token::TRUE) => true,
            (Token::FALSE, Token::FALSE) => true,
            _ => false,
        }
    }

    /// A copy of the token, text included.
    pub fn duplicate(&self) -> (r: Token)
        ensures
            r == *self,
    {
        match self {
            Token::ILLEGAL(s) => Token::ILLEGAL(s.clone()),
            Token::IDENT(s) => Token::IDENT(s.clone()),
            Token::INT(s) => Token::INT(s.clone()),
            Token::STRING(s) => Token::STRING(s.clone()),
            Token::EOF => Token::EOF,
            Token::ASSIGN => Token::ASSIGN,
            Token::EQ => Token::EQ,
            Token::NE => Token::NE,
            Token::BANG => Token::BANG,
            Token::PLUS => Token::PLUS,
            Token::SUB => Token::SUB,
            Token::DIV => Token::DIV,
            Token::MUL => Token::MUL,
            Token::GT => Token::GT,
            Token::LT => Token::LT,
            Token::COMMA => Token::COMMA,
            Token::SEMICOLON => Token::SEMICOLON,
            Token::COLON => Token::COLON,
            Token::QUOTE => Token::QUOTE,
            Token::LPAREN => Token::LPAREN,
            Token::RPAREN => Token::RPAREN,
            Token::LBRACE => Token::LBRACE,
            Token::RBRACE => Token::RBRACE,
            Token::LBRACKET => Token::LBRACKET,
            Token::RBRACKET => Token::RBRACKET,
            Token::FUNCTION => Token::FUNCTION,
            Token::LET => Token::LET,
            Token::IF => Token::IF,
            Token::ELSE => Token::ELSE,
            Token::RETURN => Token::RETURN,
            Token::TRUE => Token::TRUE,
            Token::FALSE => Token::FALSE,
        }
    }

    /// Appends the printed form of the token to `out`.
    pub fn write_to(&self, out: &mut String)
        ensures
            final(out)@ == old(out)@ + token_text(*self),
    {
        match self {
            Token::ILLEGAL(s) => {
                out.append("ILLEGAL : ");
                out.append(s.as_str());
            },
            Token::EOF => out.append("EOF"),
            Token::IDENT(s) => out.append(s.as_str()),
            Token::INT(s) => out.append(s.as_str()),
            Token::STRING(s) => out.append(s.as_str()),
            Token::ASSIGN => out.append("="),
            Token::EQ => out.append("=="),
            Token::NE => out.append("!="),
            Token::BANG => out.append("!"),
            Token::PLUS => out.append("+"),
            Token::SUB => out.append("-"),
            Token::DIV => out.append("/"),
            Token::MUL => out.append("*"),
            Token::GT => out.append(">"),
            Token::LT => out.append("<"),
            Token::COMMA => out.append(","),
            Token::SEMICOLON => out.append(";"),
            Token::COLON => out.append(":"),
            Token::QUOTE => out.append("\""),
            Token::LPAREN => out.append("("),
            Token::RPAREN => out.append(")"),
            Token::LBRACE => out.append("{"),
            Token::RBRACE => out.append("}"),
            Token::LBRACKET => out.append("["),
            Token::RBRACKET => out.append("]"),
            Token::FUNCTION => out.append("FUNCTION"),
            Token::LET => out.append("LET"),
            Token::IF => out.append("IF"),
            Token::ELSE => out.append("ELSE"),
            Token::RETURN => out.append("RETURN"),
            Token::TRUE => out.append("TRUE"),
            Token::FALSE => out.append("FALSE"),
        }
    }

    /// The printed form of the token.
    pub fn to_string(&self) -> (r: String)
        ensures
            r@ == token_text(*self),
    {
        let mut out = String::new();
        self.write_to(&mut out);
        out
    }
}

impl PartialEq for Token {
    fn eq(&self, other: &Token) -> (r: bool) {
        self.same_kind(other)
    }
}

impl vstd::std_specs::cmp::PartialEqSpecImpl for Token {
    open spec fn obeys_eq_spec() -> bool {
        true
    }

    open spec fn eq_spec(&self, other: &Token) -> bool {
        kind(*self) == kind(*other)
    }
}

} // verus!
