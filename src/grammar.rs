use crate::ast::{ExprV, StmtV};
use crate::parser::{
    expected_message, integer_message, no_infix_message, no_prefix_message, prec_rank,
    token_precedence, Precedence,
};
use crate::text::{all_digits, decimal_value};
use crate::token::{kind, Token};
use vstd::prelude::*;

verus! {

// What the parser does, as functions of the token sequence. A state is the
// index of the current token and the diagnostics so far. Past the last
// token every token is `EOF`.

pub struct PState {
    pub k: int,
    pub errs: Seq<Seq<char>>,
}

pub open spec fn tok(ts: Seq<Token>, k: int) -> Token {
    if 0 <= k < ts.len() {
        ts[k]
    } else {
        Token::EOF
    }
}

/// Tokens left, counting the current one.
pub open spec fn meas(ts: Seq<Token>, k: int) -> int {
    if k < ts.len() {
        ts.len() - k
    } else {
        0
    }
}

/// Moves to the next token; at the end nothing moves.
pub open spec fn step(ts: Seq<Token>, s: PState) -> PState {
    PState { k: if s.k < ts.len() { s.k + 1 } else { s.k }, errs: s.errs }
}

pub open spec fn note(s: PState, m: Seq<char>) -> PState {
    PState { k: s.k, errs: s.errs.push(m) }
}

pub open spec fn ident_text(t: Token) -> Seq<char> {
    match t {
        Token::IDENT(x) => x@,
        _ => Seq::empty(),
    }
}

/// Skips to the next `;` or the end.
pub open spec fn skip_semi(ts: Seq<Token>, s: PState) -> PState
    decreases meas(ts, s.k),
{
    if 0 <= s.k < ts.len() && !(ts[s.k] is SEMICOLON) {
        skip_semi(ts, step(ts, s))
    } else {
        s
    }
}

/// Moves on when the lookahead has kind `kd`; else reports and skips to `;`.
pub open spec fn expect(ts: Seq<Token>, s: PState, kd: int, text: Seq<char>) -> (bool, PState) {
    if kind(tok(ts, s.k + 1)) == kd {
        (true, step(ts, s))
    } else {
        (false, skip_semi(ts, note(s, expected_message(text, tok(ts, s.k + 1)))))
    }
}

pub open spec fn p_statement(ts: Seq<Token>, s: PState) -> (Option<StmtV>, PState)
    decreases meas(ts, s.k), 12int,
{
    match tok(ts, s.k) {
        Token::LET => p_let(ts, s),
        Token::RETURN => p_return(ts, s),
        _ => p_expr_stmt(ts, s),
    }
}

pub open spec fn p_let(ts: Seq<Token>, s: PState) -> (Option<StmtV>, PState)
    decreases meas(ts, s.k), 11int,
{
    let (ok, s1) = expect(ts, s, 2, Seq::empty());
    if !ok {
        (None, s1)
    } else {
        let name = ident_text(tok(ts, s1.k));
        let (ok2, s2) = expect(ts, s1, kind(Token::ASSIGN), "="@);
        if !ok2 {
            (None, s2)
        } else {
            let s3 = step(ts, s2);
            if meas(ts, s3.k) < meas(ts, s.k) {
                let (v, s4) = p_expression(ts, s3, Precedence::LOWEST);
                let s5 = skip_semi(ts, s4);
                match v {
                    Some(v) => (Some(StmtV::Let(name, v)), s5),
                    None => (None, s5),
                }
            } else {
                (None, s3)
            }
        }
    }
}

pub open spec fn p_return(ts: Seq<Token>, s: PState) -> (Option<StmtV>, PState)
    decreases meas(ts, s.k), 11int,
{
    if s.k >= ts.len() {
        (None, note(s, no_prefix_message(tok(ts, s.k))))
    } else {
        let (v, s2) = p_expression(ts, step(ts, s), Precedence::LOWEST);
        let s3 = skip_semi(ts, s2);
        match v {
            Some(v) => (Some(StmtV::Return(v)), s3),
            None => (None, s3),
        }
    }
}

pub open spec fn p_expr_stmt(ts: Seq<Token>, s: PState) -> (Option<StmtV>, PState)
    decreases meas(ts, s.k), 11int,
{
    let (e, s1) = p_expression(ts, s, Precedence::LOWEST);
    let s2 = if tok(ts, s1.k + 1) is SEMICOLON {
        step(ts, s1)
    } else {
        s1
    };
    match e {
        Some(e) => (Some(StmtV::Expr(e)), s2),
        None => (None, s2),
    }
}

/// One prefix expression, then every operator that binds tighter than
/// `prec`, folded in from the left.
pub open spec fn p_expression(ts: Seq<Token>, s: PState, prec: Precedence) -> (
    Option<ExprV>,
    PState,
)
    decreases meas(ts, s.k), 10int,
{
    let (l, s1) = p_prefix(ts, s);
    match l {
        None => (None, s1),
        Some(l) => if meas(ts, s1.k) <= meas(ts, s.k) {
            p_fold(ts, s1, prec, l)
        } else {
            (None, s1)
        },
    }
}

pub open spec fn p_fold(ts: Seq<Token>, s: PState, prec: Precedence, left: ExprV) -> (
    Option<ExprV>,
    PState,
)
    decreases meas(ts, s.k), 9int,
{
    let pk = tok(ts, s.k + 1);
    if !(pk is SEMICOLON) && prec_rank(prec) < prec_rank(token_precedence(pk)) {
        let s1 = step(ts, s);
        if meas(ts, s1.k) < meas(ts, s.k) {
            let (r, s2) = p_infix(ts, s1, left);
            match r {
                None => (None, s2),
                Some(e) => if meas(ts, s2.k) <= meas(ts, s1.k) {
                    p_fold(ts, s2, prec, e)
                } else {
                    (None, s2)
                },
            }
        } else {
            (None, s1)
        }
    } else {
        (Some(left), s)
    }
}

pub open spec fn p_prefix(ts: Seq<Token>, s: PState) -> (Option<ExprV>, PState)
    decreases meas(ts, s.k), 8int,
{
    let t = tok(ts, s.k);
    match t {
        Token::IDENT(x) => (Some(ExprV::Ident(x@)), s),
        Token::INT(x) => if x@.len() > 0 && all_digits(x@) && decimal_value(x@) <= i32::MAX {
            (Some(ExprV::Int(decimal_value(x@) as i32)), s)
        } else {
            (None, note(s, integer_message(x@)))
        },
        Token::STRING(x) => (Some(ExprV::Str(x@)), s),
        Token::BANG => p_prefix_expr(ts, s),
        Token::SUB => p_prefix_expr(ts, s),
        Token::TRUE => (Some(ExprV::Bool(true)), s),
        Token::FALSE => (Some(ExprV::Bool(false)), s),
        Token::LPAREN => p_grouped(ts, s),
        Token::IF => p_if(ts, s),
        Token::FUNCTION => p_function(ts, s),
        Token::LBRACKET => p_arrays(ts, s),
        _ => (None, note(s, no_prefix_message(t))),
    }
}

pub open spec fn p_prefix_expr(ts: Seq<Token>, s: PState) -> (Option<ExprV>, PState)
    decreases meas(ts, s.k), 7int,
{
    if s.k >= ts.len() {
        (None, note(s, no_prefix_message(tok(ts, s.k))))
    } else {
        let (e, s2) = p_expression(ts, step(ts, s), Precedence::PREFIX);
        match e {
            Some(e) => (Some(ExprV::Prefix(tok(ts, s.k), Box::new(e))), s2),
            None => (None, s2),
        }
    }
}

pub open spec fn p_infix(ts: Seq<Token>, s: PState, left: ExprV) -> (Option<ExprV>, PState)
    decreases meas(ts, s.k), 8int,
{
    let t = tok(ts, s.k);
    if t is EQ || t is NE || t is LT || t is GT || t is PLUS || t is SUB || t is MUL || t is DIV {
        p_infix_expr(ts, s, left)
    } else if t is LPAREN {
        p_call(ts, s, left)
    } else {
        (None, note(s, no_infix_message(t)))
    }
}

pub open spec fn p_infix_expr(ts: Seq<Token>, s: PState, left: ExprV) -> (Option<ExprV>, PState)
    decreases meas(ts, s.k), 7int,
{
    if s.k >= ts.len() {
        (None, note(s, no_prefix_message(tok(ts, s.k))))
    } else {
        let op = tok(ts, s.k);
        let (r, s2) = p_expression(ts, step(ts, s), token_precedence(op));
        match r {
            Some(r) => (Some(ExprV::Infix(op, Box::new(left), Box::new(r))), s2),
            None => (None, s2),
        }
    }
}

pub open spec fn p_grouped(ts: Seq<Token>, s: PState) -> (Option<ExprV>, PState)
    decreases meas(ts, s.k), 7int,
{
    if s.k >= ts.len() {
        (None, expect(ts, note(s, no_prefix_message(tok(ts, s.k))), kind(Token::RPAREN), ")"@).1)
    } else {
        let (e, s2) = p_expression(ts, step(ts, s), Precedence::LOWEST);
        let (ok, s3) = expect(ts, s2, kind(Token::RPAREN), ")"@);
        if ok {
            (e, s3)
        } else {
            (None, s3)
        }
    }
}

pub open spec fn p_if(ts: Seq<Token>, s: PState) -> (Option<ExprV>, PState)
    decreases meas(ts, s.k), 7int,
{
    let (ok, s1) = expect(ts, s, kind(Token::LPAREN), "("@);
    let s2 = step(ts, s1);
    if !ok {
        (None, s1)
    } else if meas(ts, s2.k) >= meas(ts, s.k) {
        (None, s2)
    } else {
        let (c, s3) = p_expression(ts, s2, Precedence::LOWEST);
        match c {
            None => (None, s3),
            Some(c) => {
                let (ok2, s4) = expect(ts, s3, kind(Token::RPAREN), ")"@);
                if !ok2 {
                    (None, s4)
                } else {
                    let (ok3, s5) = expect(ts, s4, kind(Token::LBRACE), "{"@);
                    if !ok3 || meas(ts, s5.k) >= meas(ts, s.k) {
                        (None, s5)
                    } else {
                        let (cons, s6) = p_block(ts, s5);
                        if tok(ts, s6.k + 1) is ELSE {
                            let s7 = step(ts, s6);
                            let (ok4, s8) = expect(ts, s7, kind(Token::LBRACE), "{"@);
                            if !ok4 {
                                (Some(ExprV::If(Box::new(c), cons, None)), s8)
                            } else if meas(ts, s8.k) >= meas(ts, s.k) {
                                (None, s8)
                            } else {
                                let (alt, s9) = p_block(ts, s8);
                                (Some(ExprV::If(Box::new(c), cons, Some(alt))), s9)
                            }
                        } else {
                            (Some(ExprV::If(Box::new(c), cons, None)), s6)
                        }
                    }
                }
            },
        }
    }
}

pub open spec fn p_function(ts: Seq<Token>, s: PState) -> (Option<ExprV>, PState)
    decreases meas(ts, s.k), 7int,
{
    let (ok, s1) = expect(ts, s, kind(Token::LPAREN), "("@);
    if !ok {
        (None, s1)
    } else {
        let (ps, s2) = p_params(ts, s1);
        match ps {
            None => (None, s2),
            Some(ps) => {
                let (ok2, s3) = expect(ts, s2, kind(Token::LBRACE), "{"@);
                if !ok2 || meas(ts, s3.k) >= meas(ts, s.k) {
                    (None, s3)
                } else {
                    let (body, s4) = p_block(ts, s3);
                    (Some(ExprV::Func(ps, body)), s4)
                }
            },
        }
    }
}

/// Parameter names, each an identifier, up to `)`.
pub open spec fn p_params(ts: Seq<Token>, s: PState) -> (Option<Seq<Seq<char>>>, PState) {
    if tok(ts, s.k + 1) is RPAREN {
        (Some(Seq::empty()), step(ts, s))
    } else {
        let (ok, s1) = expect(ts, s, 2, Seq::empty());
        if !ok {
            (None, s1)
        } else {
            p_params_more(ts, s1, seq![ident_text(tok(ts, s1.k))])
        }
    }
}

pub open spec fn p_params_more(ts: Seq<Token>, s: PState, acc: Seq<Seq<char>>) -> (
    Option<Seq<Seq<char>>>,
    PState,
)
    decreases meas(ts, s.k),
{
    if tok(ts, s.k + 1) is COMMA {
        let s1 = step(ts, s);
        let (ok, s2) = expect(ts, s1, 2, Seq::empty());
        if !ok {
            (None, s2)
        } else if meas(ts, s2.k) < meas(ts, s.k) {
            p_params_more(ts, s2, acc.push(ident_text(tok(ts, s2.k))))
        } else {
            (None, s2)
        }
    } else {
        let (ok, s1) = expect(ts, s, kind(Token::RPAREN), ")"@);
        if ok {
            (Some(acc), s1)
        } else {
            (None, s1)
        }
    }
}

/// Statements up to `}` or the end, standing on `{`.
pub open spec fn p_block(ts: Seq<Token>, s: PState) -> (Seq<StmtV>, PState)
    decreases meas(ts, s.k), 5int,
{
    if s.k >= ts.len() {
        (Seq::empty(), s)
    } else {
        p_block_more(ts, step(ts, s), Seq::empty())
    }
}

pub open spec fn p_block_more(ts: Seq<Token>, s: PState, acc: Seq<StmtV>) -> (Seq<StmtV>, PState)
    decreases meas(ts, s.k) + 1, 0int,
{
    if s.k >= ts.len() || tok(ts, s.k) is RBRACE {
        (acc, s)
    } else {
        let (st, s1) = p_statement(ts, s);
        let acc1 = match st {
            Some(x) => acc.push(x),
            None => acc,
        };
        let s2 = step(ts, s1);
        if meas(ts, s2.k) < meas(ts, s.k) {
            p_block_more(ts, s2, acc1)
        } else {
            (acc1, s2)
        }
    }
}

pub open spec fn p_call(ts: Seq<Token>, s: PState, f: ExprV) -> (Option<ExprV>, PState)
    decreases meas(ts, s.k), 7int,
{
    let (args, s1) = p_list(ts, s, kind(Token::RPAREN), ")"@);
    match args {
        Some(a) => (Some(ExprV::Call(Box::new(f), a)), s1),
        None => (None, s1),
    }
}

pub open spec fn p_arrays(ts: Seq<Token>, s: PState) -> (Option<ExprV>, PState)
    decreases meas(ts, s.k), 7int,
{
    let (els, s1) = p_list(ts, s, kind(Token::RBRACKET), "]"@);
    match els {
        Some(a) => (Some(ExprV::Array(a)), s1),
        None => (None, s1),
    }
}

/// Comma-separated expressions up to the closing token of kind `end`.
pub open spec fn p_list(ts: Seq<Token>, s: PState, end: int, end_text: Seq<char>) -> (
    Option<Seq<ExprV>>,
    PState,
)
    decreases meas(ts, s.k), 5int,
{
    if kind(tok(ts, s.k + 1)) == end {
        (Some(Seq::empty()), step(ts, s))
    } else if s.k >= ts.len() {
        (None, note(s, no_prefix_message(tok(ts, s.k))))
    } else {
        let (e, s2) = p_expression(ts, step(ts, s), Precedence::LOWEST);
        match e {
            None => (None, s2),
            Some(e) => if meas(ts, s2.k) < meas(ts, s.k) {
                p_list_more(ts, s2, end, end_text, seq![e])
            } else {
                (None, s2)
            },
        }
    }
}

pub open spec fn p_list_more(
    ts: Seq<Token>,
    s: PState,
    end: int,
    end_text: Seq<char>,
    acc: Seq<ExprV>,
) -> (Option<Seq<ExprV>>, PState)
    decreases meas(ts, s.k), 4int,
{
    if tok(ts, s.k + 1) is COMMA {
        let s1 = step(ts, step(ts, s));
        if meas(ts, s1.k) >= meas(ts, s.k) {
            (None, s1)
        } else {
            let (e, s2) = p_expression(ts, s1, Precedence::LOWEST);
            match e {
                None => (None, s2),
                Some(e) => if meas(ts, s2.k) < meas(ts, s.k) {
                    p_list_more(ts, s2, end, end_text, acc.push(e))
                } else {
                    (None, s2)
                },
            }
        }
    } else {
        let (ok, s1) = expect(ts, s, end, end_text);
        if ok {
            (Some(acc), s1)
        } else {
            (None, s1)
        }
    }
}

/// Statements up to the end of the input; those that do not parse are left out.
pub open spec fn p_program(ts: Seq<Token>, s: PState, acc: Seq<StmtV>) -> (Seq<StmtV>, PState)
    decreases meas(ts, s.k),
{
    if s.k >= ts.len() {
        (acc, s)
    } else {
        let (st, s1) = p_statement(ts, s);
        let acc1 = match st {
            Some(x) => acc.push(x),
            None => acc,
        };
        let s2 = step(ts, s1);
        if meas(ts, s2.k) < meas(ts, s.k) {
            p_program(ts, s2, acc1)
        } else {
            (acc1, s2)
        }
    }
}

} // verus!

verus! {

/// A binary operator token.
pub open spec fn is_binop(t: Token) -> bool {
    t is PLUS || t is SUB || t is MUL || t is DIV || t is EQ || t is NE || t is LT || t is GT
}

pub open spec fn at(s: PState, k: int) -> PState {
    PState { k, errs: s.errs }
}

/// Skipping to `;` adds no diagnostic, never moves back, and stops on `;`
/// or at the end.
pub proof fn lemma_skip_semi(ts: Seq<Token>, s: PState)
    requires
        0 <= s.k,
    ensures
        skip_semi(ts, s).errs == s.errs,
        s.k <= skip_semi(ts, s).k,
        tok(ts, skip_semi(ts, s).k) is SEMICOLON || skip_semi(ts, s).k >= ts.len(),
    decreases meas(ts, s.k),
{
    if 0 <= s.k < ts.len() && !(ts[s.k] is SEMICOLON) {
        lemma_skip_semi(ts, step(ts, s));
    }
}

/// Precedence and associativity: in `x o1 y o2 z` followed by `;` or the
/// end, with identifiers `x`, `y`, `z` and binary operators `o1`, `o2`,
/// the second operator is grouped first exactly when it binds tighter;
/// otherwise the two group from the left. No diagnostic is added.
pub proof fn law_precedence(ts: Seq<Token>, s: PState)
    requires
        0 <= s.k,
        s.k + 5 <= ts.len(),
        ts[s.k] is IDENT,
        ts[s.k + 2] is IDENT,
        ts[s.k + 4] is IDENT,
        is_binop(ts[s.k + 1]),
        is_binop(ts[s.k + 3]),
        s.k + 5 == ts.len() || ts[s.k + 5] is SEMICOLON,
    ensures
        ({
            let x = ExprV::Ident(ts[s.k]->IDENT_0@);
            let y = ExprV::Ident(ts[s.k + 2]->IDENT_0@);
            let z = ExprV::Ident(ts[s.k + 4]->IDENT_0@);
            let o1 = ts[s.k + 1];
            let o2 = ts[s.k + 3];
            p_expression(ts, s, Precedence::LOWEST) == (
                Some(
                    if prec_rank(token_precedence(o2)) > prec_rank(token_precedence(o1)) {
                        ExprV::Infix(o1, Box::new(x), Box::new(ExprV::Infix(o2, Box::new(y), Box::new(z))))
                    } else {
                        ExprV::Infix(o2, Box::new(ExprV::Infix(o1, Box::new(x), Box::new(y))), Box::new(z))
                    },
                ),
                at(s, s.k + 4),
            )
        }),
{
    let k = s.k;
    let x = ExprV::Ident(ts[k]->IDENT_0@);
    let y = ExprV::Ident(ts[k + 2]->IDENT_0@);
    let z = ExprV::Ident(ts[k + 4]->IDENT_0@);
    let o1 = ts[k + 1];
    let o2 = ts[k + 3];
    let p1 = token_precedence(o1);
    let p2 = token_precedence(o2);
    assert(tok(ts, k + 5) is SEMICOLON || tok(ts, k + 5) is EOF);
    assert(prec_rank(token_precedence(tok(ts, k + 5))) == 1);
    assert(p_prefix(ts, at(s, k + 4)) == (Some(z), at(s, k + 4)));
    assert(p_prefix(ts, at(s, k + 2)) == (Some(y), at(s, k + 2)));
    assert(p_prefix(ts, at(s, k)) == (Some(x), at(s, k)));
    assert(step(ts, at(s, k + 1)) == at(s, k + 2));
    assert(step(ts, at(s, k + 3)) == at(s, k + 4));
    assert(step(ts, at(s, k)) == at(s, k + 1));
    assert(step(ts, at(s, k + 2)) == at(s, k + 3));
    assert(at(s, k) == s);
    // z on its own, at either binding strength
    assert(p_fold(ts, at(s, k + 4), p2, z) == (Some(z), at(s, k + 4)));
    assert(p_expression(ts, at(s, k + 4), p2) == (Some(z), at(s, k + 4)));
    assert(p_infix_expr(ts, at(s, k + 3), y) == (
        Some(ExprV::Infix(o2, Box::new(y), Box::new(z))),
        at(s, k + 4),
    ));
    assert(p_infix(ts, at(s, k + 3), y) == p_infix_expr(ts, at(s, k + 3), y));
    if prec_rank(p2) > prec_rank(p1) {
        let yz = ExprV::Infix(o2, Box::new(y), Box::new(z));
        assert(p_fold(ts, at(s, k + 4), p1, yz) == (Some(yz), at(s, k + 4)));
        assert(p_fold(ts, at(s, k + 2), p1, y) == (Some(yz), at(s, k + 4)));
        assert(p_expression(ts, at(s, k + 2), p1) == (Some(yz), at(s, k + 4)));
        let all = ExprV::Infix(o1, Box::new(x), Box::new(yz));
        assert(p_infix_expr(ts, at(s, k + 1), x) == (Some(all), at(s, k + 4)));
        assert(p_infix(ts, at(s, k + 1), x) == p_infix_expr(ts, at(s, k + 1), x));
        assert(p_fold(ts, at(s, k + 4), Precedence::LOWEST, all) == (Some(all), at(s, k + 4)));
        assert(p_fold(ts, at(s, k), Precedence::LOWEST, x) == (Some(all), at(s, k + 4)));
    } else {
        assert(p_fold(ts, at(s, k + 2), p1, y) == (Some(y), at(s, k + 2)));
        assert(p_expression(ts, at(s, k + 2), p1) == (Some(y), at(s, k + 2)));
        let xy = ExprV::Infix(o1, Box::new(x), Box::new(y));
        assert(p_infix_expr(ts, at(s, k + 1), x) == (Some(xy), at(s, k + 2)));
        assert(p_infix(ts, at(s, k + 1), x) == p_infix_expr(ts, at(s, k + 1), x));
        let all = ExprV::Infix(o2, Box::new(xy), Box::new(z));
        assert(p_infix_expr(ts, at(s, k + 3), xy) == (Some(all), at(s, k + 4)));
        assert(p_infix(ts, at(s, k + 3), xy) == p_infix_expr(ts, at(s, k + 3), xy));
        assert(p_fold(ts, at(s, k + 4), Precedence::LOWEST, all) == (Some(all), at(s, k + 4)));
        assert(p_fold(ts, at(s, k + 2), Precedence::LOWEST, xy) == (Some(all), at(s, k + 4)));
        assert(p_fold(ts, at(s, k), Precedence::LOWEST, x) == (Some(all), at(s, k + 4)));
    }
}

/// A `let` that is not followed by an identifier, or whose identifier is
/// not followed by `=`, or whose `=` is followed by `;`, gives no statement
/// and exactly one diagnostic, and parsing stands on the next `;` or at the
/// end.
pub proof fn law_malformed_let(ts: Seq<Token>, s: PState)
    requires
        0 <= s.k < ts.len(),
        ts[s.k] is LET,
        !(tok(ts, s.k + 1) is IDENT) || !(tok(ts, s.k + 2) is ASSIGN) || tok(ts, s.k + 3) is SEMICOLON,
    ensures
        p_statement(ts, s).0 is None,
        p_statement(ts, s).1.errs.len() == s.errs.len() + 1,
        p_statement(ts, s).1.errs.subrange(0, s.errs.len() as int) == s.errs,
        tok(ts, p_statement(ts, s).1.k) is SEMICOLON || p_statement(ts, s).1.k >= ts.len(),
{
    let k = s.k;
    assert(p_statement(ts, s) == p_let(ts, s));
    if !(tok(ts, k + 1) is IDENT) {
        let n = note(s, expected_message(Seq::empty(), tok(ts, k + 1)));
        lemma_skip_semi(ts, n);
        assert(n.errs.subrange(0, s.errs.len() as int) =~= s.errs);
    } else if !(tok(ts, k + 2) is ASSIGN) {
        let s1 = step(ts, s);
        let n = note(s1, expected_message("="@, tok(ts, k + 2)));
        lemma_skip_semi(ts, n);
        assert(n.errs.subrange(0, s.errs.len() as int) =~= s.errs);
    } else {
        let s3 = at(s, k + 3);
        let n = note(s3, no_prefix_message(tok(ts, k + 3)));
        assert(p_prefix(ts, s3) == (None::<ExprV>, n));
        assert(p_expression(ts, s3, Precedence::LOWEST) == (None::<ExprV>, n));
        lemma_skip_semi(ts, n);
        assert(skip_semi(ts, n) == n);
        assert(n.errs.subrange(0, s.errs.len() as int) =~= s.errs);
    }
}

/// In a program, a malformed `let` (as in `law_malformed_let`) adds no
/// statement and one diagnostic; parsing goes on after the next `;`.
pub proof fn law_program_skips_malformed_let(ts: Seq<Token>, s: PState, acc: Seq<StmtV>)
    requires
        0 <= s.k < ts.len(),
        ts[s.k] is LET,
        !(tok(ts, s.k + 1) is IDENT) || !(tok(ts, s.k + 2) is ASSIGN) || tok(ts, s.k + 3) is SEMICOLON,
    ensures
        ({
            let s1 = p_statement(ts, s).1;
            &&& s1.errs.len() == s.errs.len() + 1
            &&& p_program(ts, s, acc) == p_program(ts, step(ts, s1), acc)
        }),
{
    law_malformed_let(ts, s);
    let s1 = p_statement(ts, s).1;
    lemma_statement_moves(ts, s);
    assert(meas(ts, step(ts, s1).k) < meas(ts, s.k));
}

/// A statement never moves the parser back.
pub proof fn lemma_statement_moves(ts: Seq<Token>, s: PState)
    requires
        0 <= s.k < ts.len(),
        ts[s.k] is LET,
        !(tok(ts, s.k + 1) is IDENT) || !(tok(ts, s.k + 2) is ASSIGN) || tok(ts, s.k + 3) is SEMICOLON,
    ensures
        s.k <= p_statement(ts, s).1.k,
{
    let k = s.k;
    assert(p_statement(ts, s) == p_let(ts, s));
    if !(tok(ts, k + 1) is IDENT) {
        lemma_skip_semi(ts, note(s, expected_message(Seq::empty(), tok(ts, k + 1))));
    } else if !(tok(ts, k + 2) is ASSIGN) {
        lemma_skip_semi(ts, note(step(ts, s), expected_message("="@, tok(ts, k + 2))));
    } else {
        let n = note(at(s, k + 3), no_prefix_message(tok(ts, k + 3)));
        assert(p_prefix(ts, at(s, k + 3)) == (None::<ExprV>, n));
        lemma_skip_semi(ts, n);
    }
}

} // verus!
