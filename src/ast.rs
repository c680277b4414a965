use crate::text::{int_text, write_int};
use crate::token::{token_text, Token};
use vstd::prelude::*;
use vstd::string::*;

verus! {

/// A parsed program: its statements, in source order.
pub struct Program {
    pub statements: Vec<Statement>,
}

/// `let <name> = <value>;`
#[derive(Debug, PartialEq, Eq)]
pub struct LetStatement {
    pub name: Identifier,
    pub value: Expression,
}

/// `return <value>;`
#[derive(Debug, PartialEq, Eq)]
pub struct ReturnStatement {
    pub value: Expression,
}

#[derive(Debug, PartialEq, Eq)]
pub enum Statement {
    LetStatement(LetStatement),
    ReturnStatement(ReturnStatement),
    ExpressionStatement(Expression),
}

#[derive(Debug, PartialEq, Eq, Clone)]
pub struct Identifier {
    pub value: String,
}

/// A unary operator applied to an operand.
#[derive(Debug, PartialEq, Eq)]
pub struct PrefixExpr {
    pub operator: Token,
    pub expr: Box<Expression>,
}

/// A binary operator applied to two operands.
#[derive(Debug, PartialEq, Eq)]
pub struct InfixExpr {
    pub operator: Token,
    pub left_expr: Box<Expression>,
    pub right_expr: Box<Expression>,
}

#[derive(Debug, PartialEq, Eq)]
pub struct IfExpression {
    pub condition: Box<Expression>,
    pub consequence: Vec<Statement>,
    pub alternative: Option<Vec<Statement>>,
}

/// A function literal.
#[derive(Debug, PartialEq, Eq)]
pub struct FnExpression {
    pub parameters: Vec<Identifier>,
    pub body: Vec<Statement>,
}

#[derive(Debug, PartialEq, Eq)]
pub struct CallExpression {
    pub function: Box<Expression>,
    pub arguments: Vec<Expression>,
}

/// An array literal.
#[derive(Debug, PartialEq, Eq)]
pub struct Arrays {
    pub elements: Vec<Expression>,
}

/// `collection[index]`
#[derive(Debug, PartialEq, Eq)]
pub struct Indexed {
    pub left_expr: Box<Expression>,
    pub index: Box<Expression>,
}

#[derive(Debug, PartialEq, Eq)]
pub enum Expression {
    Identifier(Identifier),
    Integer(i32),
    Bool(bool),
    String(String),
    Prefix(PrefixExpr),
    Infix(InfixExpr),
    IfExpression(IfExpression),
    FnExpression(FnExpression),
    CallExpression(CallExpression),
    Arrays(Arrays),
    Indexed(Indexed),
}

// The canonical, fully parenthesised text of the tree.

/// Canonical text of an expression.
pub open spec fn expr_text(e: Expression) -> Seq<char>
    decreases e,
{
    match e {
        Expression::Identifier(i) => i.value@,
        Expression::Integer(n) => int_text(n as int),
        Expression::Bool(b) => if b {
            "true"@
        } else {
            "false"@
        },
        Expression::String(s) => "\""@ + s@ + "\""@,
        Expression::Prefix(p) => "("@ + token_text(p.operator) + expr_text(*p.expr) + ")"@,
        Expression::Infix(i) => "("@ + expr_text(*i.left_expr) + " "@ + token_text(i.operator) + " "@
            + expr_text(*i.right_expr) + ")"@,
        Expression::IfExpression(ie) => "if ("@ + expr_text(*ie.condition) + ") { "@ + block_text(
            ie.consequence@,
        ) + " }"@ + match ie.alternative {
            Some(alt) => " else { "@ + block_text(alt@) + " }"@,
            None => Seq::empty(),
        },
        Expression::FnExpression(f) => "fn ("@ + params_text(f.parameters@) + ") { "@ + body_text(
            f.body@,
        ) + " }"@,
        Expression::CallExpression(c) => expr_text(*c.function) + "("@ + list_text(c.arguments@)
            + ")"@,
        Expression::Arrays(a) => "["@ + list_text(a.elements@) + "]"@,
        Expression::Indexed(ix) => expr_text(*ix.left_expr) + "["@ + expr_text(*ix.index) + "]"@,
    }
}

/// Canonical text of a statement; each ends with `;`.
pub open spec fn stmt_text(s: Statement) -> Seq<char>
    decreases s,
{
    match s {
        Statement::LetStatement(l) => "let "@ + l.name.value@ + " = "@ + expr_text(l.value) + ";"@,
        Statement::ReturnStatement(r) => "return "@ + expr_text(r.value) + ";"@,
        Statement::ExpressionStatement(e) => expr_text(e) + ";"@,
    }
}

/// Statements one after the other, as in a program or an `if` block.
pub open spec fn block_text(ss: Seq<Statement>) -> Seq<char>
    decreases ss,
{
    if ss.len() == 0 {
        Seq::empty()
    } else {
        block_text(ss.subrange(0, ss.len() - 1)) + stmt_text(ss[ss.len() - 1])
    }
}

/// Statements separated by one space, as in a function body.
pub open spec fn body_text(ss: Seq<Statement>) -> Seq<char>
    decreases ss,
{
    if ss.len() == 0 {
        Seq::empty()
    } else if ss.len() == 1 {
        stmt_text(ss[0])
    } else {
        body_text(ss.subrange(0, ss.len() - 1)) + " "@ + stmt_text(ss[ss.len() - 1])
    }
}

/// Expressions separated by `, `.
pub open spec fn list_text(es: Seq<Expression>) -> Seq<char>
    decreases es,
{
    if es.len() == 0 {
        Seq::empty()
    } else if es.len() == 1 {
        expr_text(es[0])
    } else {
        list_text(es.subrange(0, es.len() - 1)) + ", "@ + expr_text(es[es.len() - 1])
    }
}

/// Parameter names separated by `, `.
pub open spec fn params_text(ps: Seq<Identifier>) -> Seq<char>
    decreases ps.len(),
{
    if ps.len() == 0 {
        Seq::empty()
    } else if ps.len() == 1 {
        ps[0].value@
    } else {
        params_text(ps.subrange(0, ps.len() - 1)) + ", "@ + ps[ps.len() - 1].value@
    }
}

impl Program {
    pub fn new() -> (r: Self)
        ensures
            r.statements@.len() == 0,
    {
        Program { statements: Vec::new() }
    }

    pub fn push(&mut self, stmt: Statement)
        ensures
            final(self).statements@ == old(self).statements@.push(stmt),
    {
        self.statements.push(stmt);
    }

    /// The canonical text of the program: its statements one after the other.
    pub fn to_string(&self) -> (r: String)
        ensures
            r@ == block_text(self.statements@),
    {
        let mut out = String::new();
        write_block(&self.statements, &mut out);
        out
    }
}

impl LetStatement {
    pub fn new(name: Identifier, value: Expression) -> (r: Self)
        ensures
            r == (LetStatement { name, value }),
    {
        LetStatement { name, value }
    }
}

impl ReturnStatement {
    pub fn new(value: Expression) -> (r: Self)
        ensures
            r == (ReturnStatement { value }),
    {
        ReturnStatement { value }
    }
}

impl Identifier {
    pub fn new(value: String) -> (r: Self)
        ensures
            r == (Identifier { value }),
    {
        Identifier { value }
    }

    pub fn to_string(&self) -> (r: String)
        ensures
            r@ == self.value@,
    {
        self.value.clone()
    }

    pub fn duplicate(&self) -> (r: Self)
        ensures
            r == *self,
    {
        Identifier { value: self.value.clone() }
    }
}

impl PrefixExpr {
    pub fn new(token: Token, expr: Expression) -> (r: Self)
        ensures
            r.operator == token,
            *r.expr == expr,
    {
        PrefixExpr { operator: token, expr: Box::new(expr) }
    }
}

impl InfixExpr {
    pub fn new(operator: Token, left_expr: Expression, right_expr: Expression) -> (r: Self)
        ensures
            r.operator == operator,
            *r.left_expr == left_expr,
            *r.right_expr == right_expr,
    {
        InfixExpr { operator, left_expr: Box::new(left_expr), right_expr: Box::new(right_expr) }
    }
}

impl Statement {
    /// The canonical text of the statement.
    pub fn to_string(&self) -> (r: String)
        ensures
            r@ == stmt_text(*self),
    {
        let mut out = String::new();
        self.write_to(&mut out);
        out
    }

    pub fn write_to(&self, out: &mut String)
        ensures
            final(out)@ == old(out)@ + stmt_text(*self),
        decreases self,
    {
        match self {
            Statement::LetStatement(l) => {
                out.append("let ");
                out.append(l.name.value.as_str());
                out.append(" = ");
                l.value.write_to(out);
                out.append(";");
            },
            Statement::ReturnStatement(r) => {
                out.append("return ");
                r.value.write_to(out);
                out.append(";");
            },
            Statement::ExpressionStatement(e) => {
                e.write_to(out);
                out.append(";");
            },
        }
        proof {
            assert(final(out)@ =~= old(out)@ + stmt_text(*self));
        }
    }

    /// A copy of the statement with the same canonical text.
    pub fn duplicate(&self) -> (r: Self)
        ensures
            stmt_text(r) == stmt_text(*self),
            sv(r) == sv(*self),
        decreases self,
    {
        match self {
            Statement::LetStatement(l) => Statement::LetStatement(
                LetStatement { name: l.name.duplicate(), value: l.value.duplicate() },
            ),
            Statement::ReturnStatement(r) => Statement::ReturnStatement(
                ReturnStatement { value: r.value.duplicate() },
            ),
            Statement::ExpressionStatement(e) => Statement::ExpressionStatement(e.duplicate()),
        }
    }
}

impl Expression {
    pub fn new(ident: Identifier) -> (r: Expression)
        ensures
            r == Expression::Identifier(ident),
    {
        Expression::Identifier(ident)
    }

    /// The canonical text of the expression.
    pub fn to_string(&self) -> (r: String)
        ensures
            r@ == expr_text(*self),
    {
        let mut out = String::new();
        self.write_to(&mut out);
        out
    }

    pub fn write_to(&self, out: &mut String)
        ensures
            final(out)@ == old(out)@ + expr_text(*self),
        decreases self,
    {
        match self {
            Expression::Identifier(i) => out.append(i.value.as_str()),
            Expression::Integer(n) => write_int(out, *n),
            Expression::Bool(b) => {
                if *b {
                    out.append("true")
                } else {
                    out.append("false")
                }
            },
            Expression::String(s) => {
                out.append("\"");
                out.append(s.as_str());
                out.append("\"");
            },
            Expression::Prefix(p) => {
                out.append("(");
                p.operator.write_to(out);
                p.expr.write_to(out);
                out.append(")");
            },
            Expression::Infix(i) => {
                out.append("(");
                i.left_expr.write_to(out);
                out.append(" ");
                i.operator.write_to(out);
                out.append(" ");
                i.right_expr.write_to(out);
                out.append(")");
            },
            Expression::IfExpression(ie) => {
                out.append("if (");
                ie.condition.write_to(out);
                out.append(") { ");
                write_block(&ie.consequence, out);
                out.append(" }");
                match &ie.alternative {
                    Some(alt) => {
                        out.append(" else { ");
                        write_block(alt, out);
                        out.append(" }");
                    },
                    None => {},
                }
            },
            Expression::FnExpression(f) => {
                out.append("fn (");
                write_params(&f.parameters, out);
                out.append(") { ");
                write_body(&f.body, out);
                out.append(" }");
            },
            Expression::CallExpression(c) => {
                c.function.write_to(out);
                out.append("(");
                write_list(&c.arguments, out);
                out.append(")");
            },
            Expression::Arrays(a) => {
                out.append("[");
                write_list(&a.elements, out);
                out.append("]");
            },
            Expression::Indexed(ix) => {
                ix.left_expr.write_to(out);
                out.append("[");
                ix.index.write_to(out);
                out.append("]");
            },
        }
        proof {
            assert(final(out)@ =~= old(out)@ + expr_text(*self));
        }
    }

    /// A copy of the expression with the same canonical text.
    pub fn duplicate(&self) -> (r: Self)
        ensures
            expr_text(r) == expr_text(*self),
            ev(r) == ev(*self),
        decreases self,
    {
        match self {
            Expression::Identifier(i) => Expression::Identifier(i.duplicate()),
            Expression::Integer(n) => Expression::Integer(*n),
            Expression::Bool(b) => Expression::Bool(*b),
            Expression::String(s) => Expression::String(s.clone()),
            Expression::Prefix(p) => Expression::Prefix(
                PrefixExpr { operator: p.operator.duplicate(), expr: Box::new(p.expr.duplicate()) },
            ),
            Expression::Infix(i) => Expression::Infix(
                InfixExpr {
                    operator: i.operator.duplicate(),
                    left_expr: Box::new(i.left_expr.duplicate()),
                    right_expr: Box::new(i.right_expr.duplicate()),
                },
            ),
            Expression::IfExpression(ie) => {
                let alternative = match &ie.alternative {
                    Some(alt) => Some(duplicate_block(alt)),
                    None => None,
                };
                Expression::IfExpression(
                    IfExpression {
                        condition: Box::new(ie.condition.duplicate()),
                        consequence: duplicate_block(&ie.consequence),
                        alternative,
                    },
                )
            },
            Expression::FnExpression(f) => Expression::FnExpression(
                FnExpression {
                    parameters: duplicate_params(&f.parameters),
                    body: duplicate_block(&f.body),
                },
            ),
            Expression::CallExpression(c) => Expression::CallExpression(
                CallExpression {
                    function: Box::new(c.function.duplicate()),
                    arguments: duplicate_list(&c.arguments),
                },
            ),
            Expression::Arrays(a) => Expression::Arrays(
                Arrays { elements: duplicate_list(&a.elements) },
            ),
            Expression::Indexed(ix) => Expression::Indexed(
                Indexed {
                    left_expr: Box::new(ix.left_expr.duplicate()),
                    index: Box::new(ix.index.duplicate()),
                },
            ),
        }
    }
}

/// Appends the statements one after the other.
pub fn write_block(ss: &Vec<Statement>, out: &mut String)
    ensures
        final(out)@ == old(out)@ + block_text(ss@),
    decreases ss,
{
    let mut i: usize = 0;
    while i < ss.len()
        invariant
            i <= ss@.len(),
            out@ == old(out)@ + block_text(ss@.subrange(0, i as int)),
        decreases ss@.len() - i,
    {
        ss[i].write_to(out);
        assert(ss@.subrange(0, i + 1).subrange(0, i as int) =~= ss@.subrange(0, i as int));
        assert(out@ =~= old(out)@ + block_text(ss@.subrange(0, i + 1)));
        i = i + 1;
    }
    assert(ss@.subrange(0, ss@.len() as int) =~= ss@);
}

/// Appends the statements separated by one space.
pub fn write_body(ss: &Vec<Statement>, out: &mut String)
    ensures
        final(out)@ == old(out)@ + body_text(ss@),
    decreases ss,
{
    let mut i: usize = 0;
    while i < ss.len()
        invariant
            i <= ss@.len(),
            out@ == old(out)@ + body_text(ss@.subrange(0, i as int)),
        decreases ss@.len() - i,
    {
        if i > 0 {
            out.append(" ");
        }
        ss[i].write_to(out);
        assert(ss@.subrange(0, i + 1).subrange(0, i as int) =~= ss@.subrange(0, i as int));
        assert(out@ =~= old(out)@ + body_text(ss@.subrange(0, i + 1)));
        i = i + 1;
    }
    assert(ss@.subrange(0, ss@.len() as int) =~= ss@);
}

/// Appends the expressions separated by `, `.
pub fn write_list(es: &Vec<Expression>, out: &mut String)
    ensures
        final(out)@ == old(out)@ + list_text(es@),
    decreases es,
{
    let mut i: usize = 0;
    while i < es.len()
        invariant
            i <= es@.len(),
            out@ == old(out)@ + list_text(es@.subrange(0, i as int)),
        decreases es@.len() - i,
    {
        if i > 0 {
            out.append(", ");
        }
        es[i].write_to(out);
        assert(es@.subrange(0, i + 1).subrange(0, i as int) =~= es@.subrange(0, i as int));
        assert(out@ =~= old(out)@ + list_text(es@.subrange(0, i + 1)));
        i = i + 1;
    }
    assert(es@.subrange(0, es@.len() as int) =~= es@);
}

/// Appends the parameter names separated by `, `.
pub fn write_params(ps: &Vec<Identifier>, out: &mut String)
    ensures
        final(out)@ == old(out)@ + params_text(ps@),
{
    let mut i: usize = 0;
    while i < ps.len()
        invariant
            i <= ps@.len(),
            out@ == old(out)@ + params_text(ps@.subrange(0, i as int)),
        decreases ps@.len() - i,
    {
        if i > 0 {
            out.append(", ");
        }
        out.append(ps[i].value.as_str());
        assert(ps@.subrange(0, i + 1).subrange(0, i as int) =~= ps@.subrange(0, i as int));
        assert(out@ =~= old(out)@ + params_text(ps@.subrange(0, i + 1)));
        i = i + 1;
    }
    assert(ps@.subrange(0, ps@.len() as int) =~= ps@);
}

/// A copy of a block with the same statement texts, in the same order.
pub fn duplicate_block(ss: &Vec<Statement>) -> (r: Vec<Statement>)
    ensures
        r@.len() == ss@.len(),
        forall|i: int| 0 <= i < ss@.len() ==> stmt_text(#[trigger] r@[i]) == stmt_text(ss@[i]),
        block_text(r@) == block_text(ss@),
        body_text(r@) == body_text(ss@),
        svs(r@) == svs(ss@),
    decreases ss,
{
    let mut r: Vec<Statement> = Vec::new();
    let mut i: usize = 0;
    while i < ss.len()
        invariant
            i <= ss@.len(),
            r@.len() == i,
            forall|j: int| 0 <= j < i ==> stmt_text(#[trigger] r@[j]) == stmt_text(ss@[j]),
            block_text(r@) == block_text(ss@.subrange(0, i as int)),
            body_text(r@) == body_text(ss@.subrange(0, i as int)),
            svs(r@) == svs(ss@.subrange(0, i as int)),
        decreases ss@.len() - i,
    {
        let s = ss[i].duplicate();
        let ghost before = r@;
        proof {
            lemma_svs_push(before, s);
            lemma_svs_push(ss@.subrange(0, i as int), ss@[i as int]);
            assert(ss@.subrange(0, i as int).push(ss@[i as int]) =~= ss@.subrange(0, i + 1));
        }
        r.push(s);
        assert(r@.subrange(0, i as int) =~= before);
        assert(ss@.subrange(0, i + 1).subrange(0, i as int) =~= ss@.subrange(0, i as int));
        i = i + 1;
    }
    assert(ss@.subrange(0, ss@.len() as int) =~= ss@);
    r
}

/// A copy of a list with the same expression texts, in the same order.
pub fn duplicate_list(es: &Vec<Expression>) -> (r: Vec<Expression>)
    ensures
        r@.len() == es@.len(),
        forall|i: int| 0 <= i < es@.len() ==> expr_text(#[trigger] r@[i]) == expr_text(es@[i]),
        list_text(r@) == list_text(es@),
        evs(r@) == evs(es@),
    decreases es,
{
    let mut r: Vec<Expression> = Vec::new();
    let mut i: usize = 0;
    while i < es.len()
        invariant
            i <= es@.len(),
            r@.len() == i,
            forall|j: int| 0 <= j < i ==> expr_text(#[trigger] r@[j]) == expr_text(es@[j]),
            list_text(r@) == list_text(es@.subrange(0, i as int)),
            evs(r@) == evs(es@.subrange(0, i as int)),
        decreases es@.len() - i,
    {
        let e = es[i].duplicate();
        let ghost before = r@;
        proof {
            lemma_evs_push(before, e);
            lemma_evs_push(es@.subrange(0, i as int), es@[i as int]);
            assert(es@.subrange(0, i as int).push(es@[i as int]) =~= es@.subrange(0, i + 1));
        }
        r.push(e);
        assert(r@.subrange(0, i as int) =~= before);
        assert(es@.subrange(0, i + 1).subrange(0, i as int) =~= es@.subrange(0, i as int));
        i = i + 1;
    }
    assert(es@.subrange(0, es@.len() as int) =~= es@);
    r
}

/// An exact copy of a parameter list.
pub fn duplicate_params(ps: &Vec<Identifier>) -> (r: Vec<Identifier>)
    ensures
        r@ == ps@,
{
    let mut r: Vec<Identifier> = Vec::new();
    let mut i: usize = 0;
    while i < ps.len()
        invariant
            i <= ps@.len(),
            r@ == ps@.subrange(0, i as int),
        decreases ps@.len() - i,
    {
        r.push(ps[i].duplicate());
        assert(r@ =~= ps@.subrange(0, i + 1));
        i = i + 1;
    }
    assert(ps@.subrange(0, ps@.len() as int) =~= ps@);
    r
}

} // verus!

verus! {

/// The tree as mathematical values: text as character sequences, lists
/// as sequences.
pub enum ExprV {
    Ident(Seq<char>),
    Int(i32),
    Bool(bool),
    Str(Seq<char>),
    Prefix(Token, Box<ExprV>),
    Infix(Token, Box<ExprV>, Box<ExprV>),
    If(Box<ExprV>, Seq<StmtV>, Option<Seq<StmtV>>),
    Func(Seq<Seq<char>>, Seq<StmtV>),
    Call(Box<ExprV>, Seq<ExprV>),
    Array(Seq<ExprV>),
    Index(Box<ExprV>, Box<ExprV>),
}

pub enum StmtV {
    Let(Seq<char>, ExprV),
    Return(ExprV),
    Expr(ExprV),
}

pub open spec fn ev(e: Expression) -> ExprV
    decreases e,
{
    match e {
        Expression::Identifier(i) => ExprV::Ident(i.value@),
        Expression::Integer(n) => ExprV::Int(n),
        Expression::Bool(b) => ExprV::Bool(b),
        Expression::String(s) => ExprV::Str(s@),
        Expression::Prefix(p) => ExprV::Prefix(p.operator, Box::new(ev(*p.expr))),
        Expression::Infix(i) => ExprV::Infix(
            i.operator,
            Box::new(ev(*i.left_expr)),
            Box::new(ev(*i.right_expr)),
        ),
        Expression::IfExpression(ie) => ExprV::If(
            Box::new(ev(*ie.condition)),
            svs(ie.consequence@),
            match ie.alternative {
                Some(a) => Some(svs(a@)),
                None => None,
            },
        ),
        Expression::FnExpression(f) => ExprV::Func(names(f.parameters@), svs(f.body@)),
        Expression::CallExpression(c) => ExprV::Call(Box::new(ev(*c.function)), evs(c.arguments@)),
        Expression::Arrays(a) => ExprV::Array(evs(a.elements@)),
        Expression::Indexed(ix) => ExprV::Index(Box::new(ev(*ix.left_expr)), Box::new(ev(*ix.index))),
    }
}

pub open spec fn sv(s: Statement) -> StmtV
    decreases s,
{
    match s {
        Statement::LetStatement(l) => StmtV::Let(l.name.value@, ev(l.value)),
        Statement::ReturnStatement(r) => StmtV::Return(ev(r.value)),
        Statement::ExpressionStatement(e) => StmtV::Expr(ev(e)),
    }
}

pub open spec fn evs(s: Seq<Expression>) -> Seq<ExprV>
    decreases s,
{
    if s.len() == 0 {
        Seq::empty()
    } else {
        evs(s.subrange(0, s.len() - 1)).push(ev(s[s.len() - 1]))
    }
}

pub open spec fn svs(s: Seq<Statement>) -> Seq<StmtV>
    decreases s,
{
    if s.len() == 0 {
        Seq::empty()
    } else {
        svs(s.subrange(0, s.len() - 1)).push(sv(s[s.len() - 1]))
    }
}

pub open spec fn names(s: Seq<Identifier>) -> Seq<Seq<char>>
    decreases s.len(),
{
    if s.len() == 0 {
        Seq::empty()
    } else {
        names(s.subrange(0, s.len() - 1)).push(s[s.len() - 1].value@)
    }
}

pub proof fn lemma_evs_index(s: Seq<Expression>, i: int)
    ensures
        evs(s).len() == s.len(),
        0 <= i < s.len() ==> evs(s)[i] == ev(s[i]),
    decreases s.len(),
{
    if s.len() > 0 {
        lemma_evs_index(s.subrange(0, s.len() - 1), i);
    }
}

pub proof fn lemma_svs_index(s: Seq<Statement>, i: int)
    ensures
        svs(s).len() == s.len(),
        0 <= i < s.len() ==> svs(s)[i] == sv(s[i]),
    decreases s.len(),
{
    if s.len() > 0 {
        lemma_svs_index(s.subrange(0, s.len() - 1), i);
    }
}

pub proof fn lemma_names_index(s: Seq<Identifier>, i: int)
    ensures
        names(s).len() == s.len(),
        0 <= i < s.len() ==> names(s)[i] == s[i].value@,
    decreases s.len(),
{
    if s.len() > 0 {
        lemma_names_index(s.subrange(0, s.len() - 1), i);
    }
}

pub proof fn lemma_evs_push(s: Seq<Expression>, e: Expression)
    ensures
        evs(s.push(e)) == evs(s).push(ev(e)),
{
    assert(s.push(e).subrange(0, s.len() as int) =~= s);
}

pub proof fn lemma_svs_push(s: Seq<Statement>, e: Statement)
    ensures
        svs(s.push(e)) == svs(s).push(sv(e)),
{
    assert(s.push(e).subrange(0, s.len() as int) =~= s);
}

pub proof fn lemma_names_push(s: Seq<Identifier>, e: Identifier)
    ensures
        names(s.push(e)) == names(s).push(e.value@),
{
    assert(s.push(e).subrange(0, s.len() as int) =~= s);
}

} // verus!
