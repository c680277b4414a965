use crate::ast::{
    ev, evs, lemma_evs_push, lemma_names_push, lemma_svs_push, names, sv, svs, Arrays,
    CallExpression, Expression, ExprV, FnExpression, Identifier, IfExpression, InfixExpr,
    LetStatement, PrefixExpr, Program, ReturnStatement, Statement, StmtV,
};
use crate::grammar::{
    expect, ident_text, meas, note, p_arrays, p_block, p_block_more, p_call, p_expr_stmt, p_expression,
    p_fold, p_function, p_grouped, p_if, p_infix, p_infix_expr, p_let, p_list, p_list_more,
    p_params, p_params_more, p_prefix, p_prefix_expr, p_program, p_return, p_statement, skip_semi,
    step, tok, PState,
};
use crate::lexer::{lexed_at, lexes, scanned, skip_ws, Lexer};
use crate::text::parse_decimal;
use crate::token::{kind, token_text, Token};
use vstd::prelude::*;
use vstd::string::*;

verus! {

/// Binding strength of operators, weakest first.
#[derive(Debug, Clone, Copy, PartialEq, Eq, PartialOrd, Ord)]
pub enum Precedence {
    LOWEST,
    EQUALS,
    LESSGREATER,
    SUM,
    PRODUCT,
    PREFIX,
    CALL,
}

pub open spec fn prec_rank(p: Precedence) -> int {
    match p {
        Precedence::LOWEST => 1,
        Precedence::EQUALS => 2,
        Precedence::LESSGREATER => 3,
        Precedence::SUM => 4,
        Precedence::PRODUCT => 5,
        Precedence::PREFIX => 6,
        Precedence::CALL => 7,
    }
}

/// The binding strength of a token in infix position.
pub open spec fn token_precedence(t: Token) -> Precedence {
    match t {
        Token::EQ | Token::NE => Precedence::EQUALS,
        Token::LT | Token::GT => Precedence::LESSGREATER,
        Token::PLUS | Token::SUB => Precedence::SUM,
        Token::MUL | Token::DIV => Precedence::PRODUCT,
        Token::LPAREN => Precedence::CALL,
        _ => Precedence::LOWEST,
    }
}

impl Precedence {
    pub fn rank(&self) -> (r: u8)
        ensures
            r == prec_rank(*self),
    {
        match self {
            Precedence::LOWEST => 1,
            Precedence::EQUALS => 2,
            Precedence::LESSGREATER => 3,
            Precedence::SUM => 4,
            Precedence::PRODUCT => 5,
            Precedence::PREFIX => 6,
            Precedence::CALL => 7,
        }
    }
}

pub fn token_to_precedence(token: &Token) -> (r: Precedence)
    ensures
        r == token_precedence(*token),
{
    match token {
        Token::EQ => Precedence::EQUALS,
        Token::NE => Precedence::EQUALS,
        Token::LT => Precedence::LESSGREATER,
        Token::GT => Precedence::LESSGREATER,
        Token::PLUS => Precedence::SUM,
        Token::SUB => Precedence::SUM,
        Token::MUL => Precedence::PRODUCT,
        Token::DIV => Precedence::PRODUCT,
        Token::LPAREN => Precedence::CALL,
        _ => Precedence::LOWEST,
    }
}

/// The diagnostic for a token that cannot start an expression.
pub open spec fn no_prefix_message(t: Token) -> Seq<char> {
    "No prefix parse function found for "@ + token_text(t) + "."@
}

/// The diagnostic for a token that cannot continue an expression.
pub open spec fn no_infix_message(t: Token) -> Seq<char> {
    "No infix parse function found for "@ + token_text(t) + "."@
}

/// The diagnostic for a lookahead token other than the one required.
pub open spec fn expected_message(wanted: Seq<char>, got: Token) -> Seq<char> {
    "expected token: "@ + wanted + "\nreceived token: "@ + token_text(got)
}

/// The diagnostic for an integer literal out of range.
pub open spec fn integer_message(text: Seq<char>) -> Seq<char> {
    "could not parse "@ + text + " as integer"@
}


pub open spec fn eview(r: Option<Expression>) -> Option<ExprV> {
    match r {
        Some(e) => Some(ev(e)),
        None => None,
    }
}

pub open spec fn sview(r: Option<Statement>) -> Option<StmtV> {
    match r {
        Some(s) => Some(sv(s)),
        None => None,
    }
}

pub open spec fn lview(r: Option<Vec<Expression>>) -> Option<Seq<ExprV>> {
    match r {
        Some(v) => Some(evs(v@)),
        None => None,
    }
}

pub open spec fn pview(r: Option<Vec<Identifier>>) -> Option<Seq<Seq<char>>> {
    match r {
        Some(v) => Some(names(v@)),
        None => None,
    }
}

/// A Pratt parser over the tokens of one source text, with one token of
/// lookahead. The tokens are read from the lexer when the parser is made.
pub struct Parser {
    tokens: Vec<Token>,
    pos: usize,
    errors: Vec<String>,
    end: Token,
}

impl Parser {
    /// The tokens of the source, without the final `EOF`.
    pub closed spec fn toks(&self) -> Seq<Token> {
        self.tokens@
    }

    pub closed spec fn index(&self) -> int {
        self.pos as int
    }

    /// The diagnostics recorded so far, oldest first.
    pub closed spec fn diagnostics(&self) -> Seq<String> {
        self.errors@
    }

    /// Where the parser stands, and what it has reported.
    pub open spec fn st(&self) -> PState {
        PState { k: self.index(), errs: self.diagnostics().map_values(|e: String| e@) }
    }

    pub open spec fn current(&self) -> Token {
        tok(self.toks(), self.index())
    }

    pub open spec fn peek(&self) -> Token {
        tok(self.toks(), self.index() + 1)
    }

    pub closed spec fn wf(&self) -> bool {
        &&& self.pos <= self.tokens@.len()
        &&& self.end is EOF
        &&& forall|i: int| 0 <= i < self.tokens@.len() ==> !(#[trigger] self.tokens@[i] is EOF)
    }

    /// Whether `after` is `before` moved on over the same tokens.
    pub open spec fn moved(before: Parser, after: Parser) -> bool {
        &&& after.wf()
        &&& after.toks() == before.toks()
        &&& before.index() <= after.index()
    }

    /// A parser standing on the first token of the lexer's remaining input.
    pub fn new(lexer: Lexer) -> (r: Self)
        requires
            lexer.wf(),
            lexer.position() <= lexer.source().len(),
        ensures
            r.wf(),
            lexes(lexer.source(), lexer.position(), r.toks()),
            r.index() == 0,
            r.diagnostics().len() == 0,
    {
        let ghost start = lexer.position();
        let ghost src = lexer.source();
        let mut lx = lexer;
        let ghost mut ps: Seq<int> = seq![lx.position()];
        let mut tokens: Vec<Token> = Vec::new();
        loop
            invariant
                lx.wf(),
                src == lexer.source(),
                start == lexer.position(),
                lx.source() == src,
                lx.position() <= src.len(),
                lexed_at(src, ps, tokens@),
                ps[0] == start,
                ps.last() == lx.position(),
            decreases src.len() - lx.position(),
        {
            let t = lx.next_token();
            if let Token::EOF = t {
                assert(skip_ws(src, ps.last()) >= src.len());
                assert(lexed_at(src, ps, tokens@));
                assert(lexes(src, start, tokens@));
                return Parser { tokens, pos: 0, errors: Vec::new(), end: Token::EOF };
            }
            proof {
                let ps1 = ps.push(lx.position());
                assert(lexed_at(src, ps1, tokens@.push(t))) by {
                    assert forall|i: int| 0 <= i < tokens@.len() + 1 implies scanned(
                        src,
                        ps1[i],
                        #[trigger] tokens@.push(t)[i],
                        ps1[i + 1],
                    ) && !(tokens@.push(t)[i] is EOF) by {
                        if i < tokens@.len() {
                            assert(tokens@.push(t)[i] == tokens@[i]);
                        }
                    }
                }
                ps = ps1;
            }
            tokens.push(t);
        }
    }

    /// All diagnostics recorded so far, in the order they were found.
    pub fn errors(&self) -> (r: Vec<String>)
        ensures
            r@ == self.diagnostics(),
    {
        let mut r: Vec<String> = Vec::new();
        let mut i: usize = 0;
        while i < self.errors.len()
            invariant
                i <= self.errors@.len(),
                r@ == self.errors@.subrange(0, i as int),
            decreases self.errors@.len() - i,
        {
            r.push(self.errors[i].clone());
            assert(r@ =~= self.errors@.subrange(0, i + 1));
            i = i + 1;
        }
        assert(self.errors@.subrange(0, self.errors@.len() as int) =~= self.errors@);
        r
    }

    fn cur_tok(&self) -> (r: &Token)
        requires
            self.wf(),
        ensures
            *r == self.current(),
    {
        if self.pos < self.tokens.len() {
            &self.tokens[self.pos]
        } else {
            &self.end
        }
    }

    fn peek_tok(&self) -> (r: &Token)
        requires
            self.wf(),
        ensures
            *r == self.peek(),
    {
        if self.pos < self.tokens.len() && self.pos + 1 < self.tokens.len() {
            &self.tokens[self.pos + 1]
        } else {
            &self.end
        }
    }

    /// Moves one token on: the lookahead becomes current.
    pub fn next_token(&mut self)
        requires
            old(self).wf(),
        ensures
            Self::moved(*old(self), *final(self)),
            final(self).st() == step(old(self).toks(), old(self).st()),
    {
        if self.pos < self.tokens.len() {
            self.pos = self.pos + 1;
        }
    }

    /// Parses statements up to the end of the input. A statement that does
    /// not parse is left out, with its diagnostic.
    pub fn parse_program(&mut self) -> (r: Program)
        requires
            old(self).wf(),
        ensures
            Self::moved(*old(self), *final(self)),
            (svs(r.statements@), final(self).st()) == p_program(
                old(self).toks(),
                old(self).st(),
                Seq::empty(),
            ),
    {
        let ghost ts = self.toks();
        let mut program = Program::new();
        assert(svs(program.statements@) =~= Seq::<StmtV>::empty());
        while !self.current_token_is(&Token::EOF)
            invariant
                Self::moved(*old(self), *self),
                ts == old(self).toks(),
                p_program(ts, self.st(), svs(program.statements@)) == p_program(
                    ts,
                    old(self).st(),
                    Seq::empty(),
                ),
            decreases meas(ts, self.index()),
        {
            let ghost s = self.st();
            assert(s.k < ts.len());
            let ghost before = program.statements@;
            let st = self.parse_statement();
            let ghost s1 = self.st();
            assert((sview(st), s1) == p_statement(ts, s));
            let ghost acc1 = match sview(st) {
                Some(x) => svs(before).push(x),
                None => svs(before),
            };
            match st {
                Some(statement) => {
                    proof {
                        lemma_svs_push(before, statement);
                    }
                    program.push(statement);
                },
                None => {},
            }
            assert(svs(program.statements@) == acc1);
            self.next_token();
            assert(self.st() == step(ts, s1));
            assert(meas(ts, self.index()) < meas(ts, s.k));
            assert(p_program(ts, s, svs(before)) == p_program(ts, self.st(), acc1));
        }
        program
    }

    pub fn parse_statement(&mut self) -> (r: Option<Statement>)
        requires
            old(self).wf(),
        ensures
            Self::moved(*old(self), *final(self)),
            (sview(r), final(self).st()) == p_statement(old(self).toks(), old(self).st()),
        decreases meas(old(self).toks(), old(self).index()), 12int,
    {
        match self.cur_tok() {
            Token::LET => self.parse_let_statement(),
            Token::RETURN => self.parse_return_statement(),
            _ => self.parse_expression_statement(),
        }
    }

    /// Skips tokens up to the next `;` or the end of the input.
    fn skip_to_semicolon(&mut self)
        requires
            old(self).wf(),
        ensures
            Self::moved(*old(self), *final(self)),
            final(self).st() == skip_semi(old(self).toks(), old(self).st()),
    {
        while !self.current_token_is(&Token::SEMICOLON) && !self.current_token_is(&Token::EOF)
            invariant
                Self::moved(*old(self), *self),
                skip_semi(self.toks(), self.st()) == skip_semi(old(self).toks(), old(self).st()),
            decreases meas(self.toks(), self.index()),
        {
            self.next_token();
        }
    }

    /// `let <identifier> = <expression>;`, standing on `let`.
    pub fn parse_let_statement(&mut self) -> (r: Option<Statement>)
        requires
            old(self).wf(),
        ensures
            Self::moved(*old(self), *final(self)),
            (sview(r), final(self).st()) == p_let(old(self).toks(), old(self).st()),
        decreases meas(old(self).toks(), old(self).index()), 11int,
    {
        if !self.expect_token(&Token::IDENT(String::new())) {
            return None;
        }
        let name = match self.cur_tok() {
            Token::IDENT(x) => Identifier::new(x.clone()),
            _ => Identifier::new(String::new()),
        };
        if !self.expect_token(&Token::ASSIGN) {
            return None;
        }
        self.next_token();
        let value = self.parse_expression(Precedence::LOWEST);
        self.skip_to_semicolon();
        match value {
            Some(value) => Some(Statement::LetStatement(LetStatement::new(name, value))),
            None => None,
        }
    }

    /// `return <expression>;`, standing on `return`.
    pub fn parse_return_statement(&mut self) -> (r: Option<Statement>)
        requires
            old(self).wf(),
        ensures
            Self::moved(*old(self), *final(self)),
            (sview(r), final(self).st()) == p_return(old(self).toks(), old(self).st()),
        decreases meas(old(self).toks(), old(self).index()), 11int,
    {
        if self.current_token_is(&Token::EOF) {
            self.no_prefix_error();
            return None;
        }
        self.next_token();
        let value = self.parse_expression(Precedence::LOWEST);
        self.skip_to_semicolon();
        match value {
            Some(value) => Some(Statement::ReturnStatement(ReturnStatement::new(value))),
            None => None,
        }
    }

    /// An expression, with an optional `;` after it.
    pub fn parse_expression_statement(&mut self) -> (r: Option<Statement>)
        requires
            old(self).wf(),
        ensures
            Self::moved(*old(self), *final(self)),
            (sview(r), final(self).st()) == p_expr_stmt(old(self).toks(), old(self).st()),
        decreases meas(old(self).toks(), old(self).index()), 11int,
    {
        let expr_statement = self.parse_expression(Precedence::LOWEST);
        if self.peek_token_is(&Token::SEMICOLON) {
            self.next_token();
        }
        match expr_statement {
            None => None,
            Some(expr) => Some(Statement::ExpressionStatement(expr)),
        }
    }

    /// Precedence climbing: one prefix expression, then every infix
    /// operator that binds tighter than `prec`, folded in from the left.
    pub fn parse_expression(&mut self, prec: Precedence) -> (r: Option<Expression>)
        requires
            old(self).wf(),
        ensures
            Self::moved(*old(self), *final(self)),
            (eview(r), final(self).st()) == p_expression(old(self).toks(), old(self).st(), prec),
        decreases meas(old(self).toks(), old(self).index()), 10int,
    {
        let ghost ts = self.toks();
        let token = self.cur_tok().duplicate();
        let mut expr = match self.parse_prefix(&token) {
            None => return None,
            Some(left_expr) => left_expr,
        };
        while !self.peek_token_is(&Token::SEMICOLON) && prec.rank()
            < self.peek_precedence().rank()
            invariant
                Self::moved(*old(self), *self),
                ts == old(self).toks(),
                p_fold(ts, self.st(), prec, ev(expr)) == p_expression(ts, old(self).st(), prec),
            decreases meas(ts, self.index()),
        {
            let ghost s0 = self.st();
            let ghost left = ev(expr);
            assert(!(self.peek() is EOF));
            assert(s0.k + 1 < ts.len());
            self.next_token();
            let ghost s1 = self.st();
            assert(s1 == step(ts, s0));
            assert(meas(ts, s1.k) < meas(ts, s0.k));
            let token = self.cur_tok().duplicate();
            let r = self.parse_infix(&token, expr);
            assert((eview(r), self.st()) == p_infix(ts, s1, left));
            assert(meas(ts, self.st().k) <= meas(ts, s1.k));
            match r {
                Some(infix_expr) => {
                    assert(p_fold(ts, s0, prec, left) == p_fold(ts, self.st(), prec, ev(infix_expr)));
                    expr = infix_expr;
                },
                None => {
                    assert(p_fold(ts, s0, prec, left) == (None::<ExprV>, self.st()));
                    return None;
                },
            }
        }
        Some(expr)
    }

    /// Records that no expression starts with the current token.
    fn no_prefix_error(&mut self)
        requires
            old(self).wf(),
        ensures
            final(self).wf(),
            final(self).toks() == old(self).toks(),
            final(self).st() == note(old(self).st(), no_prefix_message(old(self).current())),
    {
        let mut msg = String::new();
        msg.append("No prefix parse function found for ");
        self.cur_tok().write_to(&mut msg);
        msg.append(".");
        self.peek_errors(msg);
    }

    /// An identifier expression, standing on its token.
    pub fn parse_identifier(&mut self) -> (r: Option<Expression>)
        requires
            old(self).wf(),
        ensures
            *final(self) == *old(self),
            eview(r) == match old(self).current() {
                Token::IDENT(x) => Some(ExprV::Ident(x@)),
                _ => None,
            },
    {
        match self.cur_tok() {
            Token::IDENT(x) => Some(Expression::new(Identifier::new(x.clone()))),
            _ => None,
        }
    }

    /// An integer literal, standing on its token.
    pub fn parse_integer(&mut self) -> (r: Option<Expression>)
        requires
            old(self).wf(),
        ensures
            final(self).wf(),
            final(self).toks() == old(self).toks(),
            old(self).current() is INT ==> (eview(r), final(self).st()) == p_prefix(
                old(self).toks(),
                old(self).st(),
            ),
            !(old(self).current() is INT) ==> r is None && *final(self) == *old(self),
    {
        match self.cur_tok() {
            Token::INT(i) => {
                match parse_decimal(i.as_str()) {
                    Some(n) => Some(Expression::Integer(n)),
                    None => {
                        let mut msg = String::new();
                        msg.append("could not parse ");
                        msg.append(i.as_str());
                        msg.append(" as integer");
                        self.peek_errors(msg);
                        None
                    },
                }
            },
            _ => None,
        }
    }

    /// A string literal, standing on its token.
    pub fn parse_string(&mut self) -> (r: Option<Expression>)
        requires
            old(self).wf(),
        ensures
            *final(self) == *old(self),
            eview(r) == match old(self).current() {
                Token::STRING(x) => Some(ExprV::Str(x@)),
                _ => None,
            },
    {
        match self.cur_tok() {
            Token::STRING(s) => Some(Expression::String(s.clone())),
            _ => None,
        }
    }

    /// `true` or `false`, standing on its token.
    pub fn parse_boolean(&mut self) -> (r: Option<Expression>)
        requires
            old(self).wf(),
        ensures
            *final(self) == *old(self),
            r == Some(Expression::Bool(old(self).current() is TRUE)),
    {
        Some(Expression::Bool(self.current_token_is(&Token::TRUE)))
    }

    /// `!x` or `-x`, standing on the operator.
    pub fn parse_prefix_expression(&mut self) -> (r: Option<Expression>)
        requires
            old(self).wf(),
        ensures
            Self::moved(*old(self), *final(self)),
            (eview(r), final(self).st()) == p_prefix_expr(old(self).toks(), old(self).st()),
        decreases meas(old(self).toks(), old(self).index()), 7int,
    {
        if self.current_token_is(&Token::EOF) {
            self.no_prefix_error();
            return None;
        }
        let prefix_token = self.cur_tok().duplicate();
        self.next_token();
        match self.parse_expression(Precedence::PREFIX) {
            Some(expr) => Some(Expression::Prefix(PrefixExpr::new(prefix_token, expr))),
            None => None,
        }
    }

    /// The expression that starts with `token`, the current token; a
    /// diagnostic when no expression starts with it.
    pub fn parse_prefix(&mut self, token: &Token) -> (r: Option<Expression>)
        requires
            old(self).wf(),
            *token == old(self).current(),
        ensures
            Self::moved(*old(self), *final(self)),
            (eview(r), final(self).st()) == p_prefix(old(self).toks(), old(self).st()),
        decreases meas(old(self).toks(), old(self).index()), 8int,
    {
        match token {
            Token::IDENT(_) => self.parse_identifier(),
            Token::INT(_) => self.parse_integer(),
            Token::STRING(_) => self.parse_string(),
            Token::BANG => self.parse_prefix_expression(),
            Token::SUB => self.parse_prefix_expression(),
            Token::TRUE => self.parse_boolean(),
            Token::FALSE => self.parse_boolean(),
            Token::LPAREN => self.parse_grouped_expression(),
            Token::IF => self.parse_if_expression(),
            Token::FUNCTION => self.parse_function_expression(),
            Token::LBRACKET => self.parse_arrays(),
            _ => {
                self.no_prefix_error();
                None
            },
        }
    }

    /// `left <op> right`, standing on the operator.
    pub fn parse_infix_expression(&mut self, left_expr: Expression) -> (r: Option<Expression>)
        requires
            old(self).wf(),
        ensures
            Self::moved(*old(self), *final(self)),
            (eview(r), final(self).st()) == p_infix_expr(
                old(self).toks(),
                old(self).st(),
                ev(left_expr),
            ),
        decreases meas(old(self).toks(), old(self).index()), 7int,
    {
        if self.current_token_is(&Token::EOF) {
            self.no_prefix_error();
            return None;
        }
        let infix_token = self.cur_tok().duplicate();
        let precedence = self.current_precedence();
        self.next_token();
        match self.parse_expression(precedence) {
            Some(right_expr) => Some(
                Expression::Infix(InfixExpr::new(infix_token, left_expr, right_expr)),
            ),
            None => None,
        }
    }

    /// Continues `expr` with the infix operator `token`, the current token.
    pub fn parse_infix(&mut self, token: &Token, expr: Expression) -> (r: Option<Expression>)
        requires
            old(self).wf(),
            *token == old(self).current(),
        ensures
            Self::moved(*old(self), *final(self)),
            (eview(r), final(self).st()) == p_infix(old(self).toks(), old(self).st(), ev(expr)),
        decreases meas(old(self).toks(), old(self).index()), 8int,
    {
        match token {
            Token::EQ => self.parse_infix_expression(expr),
            Token::NE => self.parse_infix_expression(expr),
            Token::LT => self.parse_infix_expression(expr),
            Token::GT => self.parse_infix_expression(expr),
            Token::PLUS => self.parse_infix_expression(expr),
            Token::SUB => self.parse_infix_expression(expr),
            Token::MUL => self.parse_infix_expression(expr),
            Token::DIV => self.parse_infix_expression(expr),
            Token::LPAREN => self.parse_call_expression(expr),
            t => {
                let mut msg = String::new();
                msg.append("No infix parse function found for ");
                t.write_to(&mut msg);
                msg.append(".");
                self.peek_errors(msg);
                None
            },
        }
    }

    /// `( <expression> )`, standing on `(`.
    pub fn parse_grouped_expression(&mut self) -> (r: Option<Expression>)
        requires
            old(self).wf(),
        ensures
            Self::moved(*old(self), *final(self)),
            (eview(r), final(self).st()) == p_grouped(old(self).toks(), old(self).st()),
        decreases meas(old(self).toks(), old(self).index()), 7int,
    {
        if self.current_token_is(&Token::EOF) {
            self.no_prefix_error();
            self.expect_token(&Token::RPAREN);
            return None;
        }
        self.next_token();
        let expr = self.parse_expression(Precedence::LOWEST);
        if self.expect_token(&Token::RPAREN) {
            expr
        } else {
            None
        }
    }

    /// `if (<condition>) { ... }` with an optional `else { ... }`, standing on `if`.
    pub fn parse_if_expression(&mut self) -> (r: Option<Expression>)
        requires
            old(self).wf(),
        ensures
            Self::moved(*old(self), *final(self)),
            (eview(r), final(self).st()) == p_if(old(self).toks(), old(self).st()),
        decreases meas(old(self).toks(), old(self).index()), 7int,
    {
        if !self.expect_token(&Token::LPAREN) {
            return None;
        }
        self.next_token();
        let condition = match self.parse_expression(Precedence::LOWEST) {
            Some(c) => c,
            None => return None,
        };
        if !self.expect_token(&Token::RPAREN) {
            return None;
        }
        if !self.expect_token(&Token::LBRACE) {
            return None;
        }
        let consequence = self.parse_block_statements();
        let alternative = if self.peek_token_is(&Token::ELSE) {
            self.next_token();
            if !self.expect_token(&Token::LBRACE) {
                None
            } else {
                Some(self.parse_block_statements())
            }
        } else {
            None
        };
        Some(
            Expression::IfExpression(
                IfExpression { condition: Box::new(condition), consequence, alternative },
            ),
        )
    }

    /// `fn (<parameters>) { ... }`, standing on `fn`.
    pub fn parse_function_expression(&mut self) -> (r: Option<Expression>)
        requires
            old(self).wf(),
        ensures
            Self::moved(*old(self), *final(self)),
            (eview(r), final(self).st()) == p_function(old(self).toks(), old(self).st()),
        decreases meas(old(self).toks(), old(self).index()), 7int,
    {
        if !self.expect_token(&Token::LPAREN) {
            return None;
        }
        let parameters = match self.parse_function_parameters() {
            Some(p) => p,
            None => return None,
        };
        if !self.expect_token(&Token::LBRACE) {
            return None;
        }
        let body = self.parse_block_statements();
        Some(Expression::FnExpression(FnExpression { parameters, body }))
    }

    fn ident_here(&self) -> (r: Identifier)
        requires
            self.wf(),
        ensures
            r.value@ == ident_text(self.current()),
    {
        match self.cur_tok() {
            Token::IDENT(x) => Identifier::new(x.clone()),
            _ => Identifier::new(String::new()),
        }
    }

    /// Comma-separated parameter names, each an identifier, up to `)`,
    /// standing on `(`.
    pub fn parse_function_parameters(&mut self) -> (r: Option<Vec<Identifier>>)
        requires
            old(self).wf(),
        ensures
            Self::moved(*old(self), *final(self)),
            (pview(r), final(self).st()) == p_params(old(self).toks(), old(self).st()),
    {
        let ghost ts = self.toks();
        let mut parameters: Vec<Identifier> = Vec::new();
        if self.peek_token_is(&Token::RPAREN) {
            self.next_token();
            assert(names(parameters@) =~= Seq::<Seq<char>>::empty());
            return Some(parameters);
        }
        if !self.expect_token(&Token::IDENT(String::new())) {
            return None;
        }
        let first = self.ident_here();
        parameters.push(first);
        assert(names(parameters@) =~= seq![first.value@]) by {
            lemma_names_push(Seq::empty(), first);
            assert(Seq::<Identifier>::empty().push(first) =~= parameters@);
        }
        loop
            invariant
                Self::moved(*old(self), *self),
                ts == old(self).toks(),
                p_params_more(ts, self.st(), names(parameters@)) == p_params(ts, old(self).st()),
            decreases meas(ts, self.index()),
        {
            if !self.peek_token_is(&Token::COMMA) {
                let ghost s = self.st();
                let ok = self.expect_token(&Token::RPAREN);
                assert((ok, self.st()) == expect(ts, s, kind(Token::RPAREN), ")"@));
                if !ok {
                    return None;
                }
                return Some(parameters);
            }
            let ghost s = self.st();
            let ghost acc = names(parameters@);
            assert(!(self.peek() is EOF));
            assert(s.k + 1 < ts.len());
            self.next_token();
            let ghost s1 = self.st();
            assert(s1 == step(ts, s));
            let ok = self.expect_token(&Token::IDENT(String::new()));
            assert((ok, self.st()) == expect(ts, s1, 2, Seq::empty()));
            if !ok {
                assert(p_params_more(ts, s, acc) == (None::<Seq<Seq<char>>>, self.st()));
                return None;
            }
            assert(self.st().k == s.k + 2);
            let name = self.ident_here();
            proof {
                lemma_names_push(parameters@, name);
            }
            parameters.push(name);
            assert(meas(ts, self.index()) < meas(ts, s.k));
            assert(p_params_more(ts, s, acc) == p_params_more(ts, self.st(), names(parameters@)));
        }
    }

    /// Statements up to the closing `}` or the end of the input, standing on `{`.
    pub fn parse_block_statements(&mut self) -> (r: Vec<Statement>)
        requires
            old(self).wf(),
        ensures
            Self::moved(*old(self), *final(self)),
            (svs(r@), final(self).st()) == p_block(old(self).toks(), old(self).st()),
        decreases meas(old(self).toks(), old(self).index()), 5int,
    {
        let ghost ts = self.toks();
        let mut block: Vec<Statement> = Vec::new();
        assert(svs(block@) =~= Seq::<StmtV>::empty());
        if self.current_token_is(&Token::EOF) {
            return block;
        }
        self.next_token();
        while !self.current_token_is(&Token::RBRACE) && !self.current_token_is(&Token::EOF)
            invariant
                Self::moved(*old(self), *self),
                ts == old(self).toks(),
                old(self).index() < self.index(),
                p_block_more(ts, self.st(), svs(block@)) == p_block(ts, old(self).st()),
            decreases meas(ts, self.index()),
        {
            let ghost s = self.st();
            assert(s.k < ts.len());
            let ghost before = block@;
            let st = self.parse_statement();
            let ghost s1 = self.st();
            assert((sview(st), s1) == p_statement(ts, s));
            let ghost acc1 = match sview(st) {
                Some(x) => svs(before).push(x),
                None => svs(before),
            };
            match st {
                Some(stmt) => {
                    proof {
                        lemma_svs_push(before, stmt);
                    }
                    block.push(stmt);
                },
                None => {},
            }
            assert(svs(block@) == acc1);
            self.next_token();
            assert(self.st() == step(ts, s1));
            assert(meas(ts, self.index()) < meas(ts, s.k));
            assert(p_block_more(ts, s, svs(before)) == p_block_more(ts, self.st(), acc1));
        }
        block
    }

    /// A call of `expr`, standing on `(`.
    pub fn parse_call_expression(&mut self, expr: Expression) -> (r: Option<Expression>)
        requires
            old(self).wf(),
        ensures
            Self::moved(*old(self), *final(self)),
            (eview(r), final(self).st()) == p_call(old(self).toks(), old(self).st(), ev(expr)),
        decreases meas(old(self).toks(), old(self).index()), 7int,
    {
        match self.parse_call_arguments() {
            Some(arguments) => Some(
                Expression::CallExpression(CallExpression { function: Box::new(expr), arguments }),
            ),
            None => None,
        }
    }

    /// Comma-separated expressions up to `end_token`, standing on the
    /// opening delimiter.
    fn parse_list(&mut self, end_token: Token) -> (r: Option<Vec<Expression>>)
        requires
            old(self).wf(),
        ensures
            Self::moved(*old(self), *final(self)),
            (lview(r), final(self).st()) == p_list(
                old(self).toks(),
                old(self).st(),
                kind(end_token),
                token_text(end_token),
            ),
        decreases meas(old(self).toks(), old(self).index()), 5int,
    {
        let ghost ts = self.toks();
        let mut args: Vec<Expression> = Vec::new();
        if self.peek_token_is(&end_token) {
            self.next_token();
            assert(evs(args@) =~= Seq::<ExprV>::empty());
            return Some(args);
        }
        if self.current_token_is(&Token::EOF) {
            self.no_prefix_error();
            return None;
        }
        self.next_token();
        match self.parse_expression(Precedence::LOWEST) {
            Some(argument) => {
                proof {
                    lemma_evs_push(Seq::empty(), argument);
                    assert(Seq::<Expression>::empty().push(argument) =~= seq![argument]);
                }
                args.push(argument);
                assert(args@ =~= seq![argument]);
            },
            None => {
                return None;
            },
        }
        while self.peek_token_is(&Token::COMMA)
            invariant
                Self::moved(*old(self), *self),
                ts == old(self).toks(),
                old(self).index() < self.index(),
                p_list_more(ts, self.st(), kind(end_token), token_text(end_token), evs(args@))
                    == p_list(ts, old(self).st(), kind(end_token), token_text(end_token)),
            decreases meas(ts, self.index()),
        {
            let ghost s = self.st();
            let ghost acc = evs(args@);
            assert(!(self.peek() is EOF));
            assert(s.k + 1 < ts.len());
            self.next_token();
            self.next_token();
            let ghost s1 = self.st();
            assert(s1 == step(ts, step(ts, s)));
            assert(meas(ts, s1.k) < meas(ts, s.k));
            let e = self.parse_expression(Precedence::LOWEST);
            assert((eview(e), self.st()) == p_expression(ts, s1, Precedence::LOWEST));
            match e {
                Some(argument) => {
                    proof {
                        lemma_evs_push(args@, argument);
                    }
                    args.push(argument);
                    assert(p_list_more(ts, s, kind(end_token), token_text(end_token), acc)
                        == p_list_more(ts, self.st(), kind(end_token), token_text(end_token), evs(args@)));
                },
                None => {
                    return None;
                },
            }
        }
        let ghost s = self.st();
        let ok = self.expect_token(&end_token);
        assert((ok, self.st()) == expect(ts, s, kind(end_token), token_text(end_token)));
        if !ok {
            return None;
        }
        Some(args)
    }

    /// Call arguments up to `)`, standing on `(`.
    pub fn parse_call_arguments(&mut self) -> (r: Option<Vec<Expression>>)
        requires
            old(self).wf(),
        ensures
            Self::moved(*old(self), *final(self)),
            (lview(r), final(self).st()) == p_list(
                old(self).toks(),
                old(self).st(),
                kind(Token::RPAREN),
                ")"@,
            ),
        decreases meas(old(self).toks(), old(self).index()), 6int,
    {
        self.parse_list(Token::RPAREN)
    }

    /// An array literal, standing on `[`.
    fn parse_arrays(&mut self) -> (r: Option<Expression>)
        requires
            old(self).wf(),
        ensures
            Self::moved(*old(self), *final(self)),
            (eview(r), final(self).st()) == p_arrays(old(self).toks(), old(self).st()),
        decreases meas(old(self).toks(), old(self).index()), 7int,
    {
        match self.parse_list(Token::RBRACKET) {
            Some(elements) => Some(Expression::Arrays(Arrays { elements })),
            None => None,
        }
    }

    /// Tokens match by variant; the text of identifiers, integers and
    /// strings does not count.
    fn compare_tokens(&self, token_a: &Token, token_b: &Token) -> (r: bool)
        ensures
            r == (kind(*token_a) == kind(*token_b)),
    {
        token_a.same_kind(token_b)
    }

    pub fn current_token_is(&self, token: &Token) -> (r: bool)
        requires
            self.wf(),
        ensures
            r == (kind(self.current()) == kind(*token)),
    {
        self.compare_tokens(self.cur_tok(), token)
    }

    pub fn peek_token_is(&self, token: &Token) -> (r: bool)
        requires
            self.wf(),
        ensures
            r == (kind(self.peek()) == kind(*token)),
    {
        self.compare_tokens(self.peek_tok(), token)
    }

    /// Moves on when the lookahead matches `token`. Otherwise records a
    /// diagnostic and skips to the next `;` or the end of the input.
    pub fn expect_token(&mut self, token: &Token) -> (r: bool)
        requires
            old(self).wf(),
        ensures
            Self::moved(*old(self), *final(self)),
            (r, final(self).st()) == expect(
                old(self).toks(),
                old(self).st(),
                kind(*token),
                token_text(*token),
            ),
    {
        if self.peek_token_is(token) {
            self.next_token();
            true
        } else {
            let mut msg = String::new();
            msg.append("expected token: ");
            token.write_to(&mut msg);
            msg.append("\nreceived token: ");
            self.peek_tok().write_to(&mut msg);
            proof {
                assert(msg@ =~= expected_message(token_text(*token), self.peek()));
            }
            self.peek_errors(msg);
            self.skip_to_semicolon();
            false
        }
    }

    pub fn peek_precedence(&self) -> (r: Precedence)
        requires
            self.wf(),
        ensures
            r == token_precedence(self.peek()),
    {
        token_to_precedence(self.peek_tok())
    }

    pub fn current_precedence(&self) -> (r: Precedence)
        requires
            self.wf(),
        ensures
            r == token_precedence(self.current()),
    {
        token_to_precedence(self.cur_tok())
    }

    /// Records a diagnostic.
    pub fn peek_errors(&mut self, error: String)
        requires
            old(self).wf(),
        ensures
            final(self).wf(),
            final(self).toks() == old(self).toks(),
            final(self).index() == old(self).index(),
            final(self).diagnostics() == old(self).diagnostics().push(error),
            final(self).st() == note(old(self).st(), error@),
    {
        self.errors.push(error);
        assert(self.st().errs =~= old(self).st().errs.push(error@));
    }
}

} // verus!
