use crate::ast::{
    block_text, body_text, ev, evs, expr_text, list_text, names, params_text, stmt_text, sv, svs,
    ExprV, Expression, Identifier, Statement, StmtV,
};
use crate::text::int_text;
use crate::builtin::{
    arguments_message, arity, builtin_named, builtin_result, unsupported_message, BuiltinFunction,
};
use crate::env::Environment;
use crate::evaluator::{
    checked, division_message, index_message, infix_result, prefix_result, identifier_message, mismatch_message, overflow_message, trunc_div,
    unknown_infix_message, unknown_prefix_message,
};
use crate::object::{copied, copied_seq, object_text, objects_text, type_label, truthy, Object};
use crate::token::{token_text, Token};
use vstd::prelude::*;

verus! {

// What evaluation computes, as functions of the scopes, the current scope
// and the tree.

/// A runtime value as a mathematical value.
pub enum Val {
    Int(i32),
    Bool(bool),
    Str(Seq<char>),
    Null,
    Ret(Box<Val>),
    Error(Seq<char>),
    Func(Seq<Seq<char>>, Seq<StmtV>, int),
    Builtin(BuiltinFunction),
    Arr(Seq<Val>),
}

pub open spec fn ov(o: Object) -> Val
    decreases o,
{
    match o {
        Object::INTEGER(n) => Val::Int(n),
        Object::BOOLEAN(b) => Val::Bool(b),
        Object::STRING(s) => Val::Str(s@),
        Object::NULL => Val::Null,
        Object::RETURN(x) => Val::Ret(Box::new(ov(*x))),
        Object::ERROR(s) => Val::Error(s@),
        Object::FUNCTION(f) => Val::Func(names(f.parameters@), svs(f.body@), f.env as int),
        Object::BUILTIN(b) => Val::Builtin(b),
        Object::ARRAY(v) => Val::Arr(ovs(v@)),
    }
}

pub open spec fn ovs(s: Seq<Object>) -> Seq<Val>
    decreases s,
{
    if s.len() == 0 {
        Seq::empty()
    } else {
        ovs(s.subrange(0, s.len() - 1)).push(ov(s[s.len() - 1]))
    }
}

pub proof fn lemma_ovs_push(s: Seq<Object>, o: Object)
    ensures
        ovs(s.push(o)) == ovs(s).push(ov(o)),
{
    assert(s.push(o).subrange(0, s.len() as int) =~= s);
}

pub proof fn lemma_ovs_index(s: Seq<Object>, i: int)
    requires
        0 <= i < s.len(),
    ensures
        ovs(s).len() == s.len(),
        ovs(s)[i] == ov(s[i]),
    decreases s.len(),
{
    lemma_ovs_len(s);
    if i < s.len() - 1 {
        lemma_ovs_index(s.subrange(0, s.len() - 1), i);
    }
}

pub proof fn lemma_ovs_len(s: Seq<Object>)
    ensures
        ovs(s).len() == s.len(),
    decreases s.len(),
{
    if s.len() > 0 {
        lemma_ovs_len(s.subrange(0, s.len() - 1));
    }
}

/// A copy has the same value.
pub proof fn lemma_copied_ov(a: Object, b: Object)
    requires
        copied(a, b),
    ensures
        ov(a) == ov(b),
    decreases a,
{
    match a {
        Object::ARRAY(v) => lemma_copied_seq_ov(v@, b->ARRAY_0@),
        Object::RETURN(x) => lemma_copied_ov(*x, *b->RETURN_0),
        _ => {},
    }
}

pub proof fn lemma_copied_seq_ov(s: Seq<Object>, t: Seq<Object>)
    requires
        copied_seq(s, t),
    ensures
        ovs(s) == ovs(t),
    decreases s,
{
    if s.len() > 0 {
        lemma_copied_seq_ov(s.subrange(0, s.len() - 1), t.subrange(0, t.len() - 1));
        lemma_copied_ov(s[s.len() - 1], t[t.len() - 1]);
    }
}

/// One scope as a mathematical value: its bindings and its enclosing scope.
pub struct ScopeV {
    pub vars: Map<Seq<char>, Val>,
    pub outer: Option<usize>,
}

pub open spec fn scope_view(e: Environment) -> ScopeV {
    ScopeV {
        vars: Map::new(|k: Seq<char>| e.lookup(k) is Some, |k: Seq<char>| ov(e.lookup(k)->0)),
        outer: e.outer_link(),
    }
}

pub open spec fn scopes_view(envs: Seq<Environment>) -> Seq<ScopeV> {
    envs.map_values(|e: Environment| scope_view(e))
}

/// The value bound to `name` in scope `id` or the nearest enclosing scope.
pub open spec fn vresolve(sc: Seq<ScopeV>, id: int, name: Seq<char>) -> Option<Val>
    decreases id,
{
    if 0 <= id < sc.len() {
        if sc[id].vars.contains_key(name) {
            Some(sc[id].vars[name])
        } else {
            match sc[id].outer {
                Some(o) => if o < id {
                    vresolve(sc, o as int, name)
                } else {
                    None
                },
                None => None,
            }
        }
    } else {
        None
    }
}

pub open spec fn vtype(v: Val) -> Seq<char>
    decreases v,
{
    match v {
        Val::Int(_) => "INTEGER"@,
        Val::Bool(_) => "BOOLEAN"@,
        Val::Str(_) => "STRING"@,
        Val::Null => "NULL"@,
        Val::Ret(x) => vtype(*x),
        Val::Error(_) => "ERROR"@,
        Val::Func(..) => "FUNCTION"@,
        Val::Builtin(_) => "BUILTIN"@,
        Val::Arr(_) => "ARRAY"@,
    }
}

pub open spec fn vtruthy(v: Val) -> bool {
    match v {
        Val::Bool(b) => b,
        Val::Null => false,
        Val::Int(n) => n != 0,
        _ => true,
    }
}

pub open spec fn vchecked(v: int) -> Val {
    if i32::MIN <= v <= i32::MAX {
        Val::Int(v as i32)
    } else {
        Val::Error(overflow_message())
    }
}

pub open spec fn v_integer(op: Token, a: i32, b: i32) -> Val {
    match op {
        Token::PLUS => vchecked(a + b),
        Token::SUB => vchecked(a - b),
        Token::MUL => vchecked(a * b),
        Token::DIV => if b == 0 {
            Val::Error(division_message())
        } else {
            vchecked(trunc_div(a as int, b as int))
        },
        Token::EQ => Val::Bool(a == b),
        Token::NE => Val::Bool(a != b),
        Token::GT => Val::Bool(a > b),
        Token::LT => Val::Bool(a < b),
        _ => Val::Error(unknown_infix_message("INTEGER"@, op, "INTEGER"@)),
    }
}

/// A binary operator on two values, dispatched on their types.
pub open spec fn v_infix(op: Token, l: Val, r: Val) -> Val {
    match (l, r) {
        (Val::Int(a), Val::Int(b)) => v_integer(op, a, b),
        (Val::Bool(a), Val::Bool(b)) => match op {
            Token::EQ => Val::Bool(a == b),
            Token::NE => Val::Bool(a != b),
            _ => Val::Error(unknown_infix_message("BOOLEAN"@, op, "BOOLEAN"@)),
        },
        (Val::Str(a), Val::Str(b)) => if op is PLUS {
            Val::Str(a + b)
        } else {
            Val::Error(unknown_infix_message("STRING"@, op, "STRING"@))
        },
        _ => Val::Error(
            if vtype(l) == vtype(r) {
                unknown_infix_message(vtype(l), op, vtype(r))
            } else {
                mismatch_message(vtype(l), op, vtype(r))
            },
        ),
    }
}

/// A unary operator on a value.
pub open spec fn v_prefix(op: Token, v: Val) -> Val {
    match op {
        Token::BANG => Val::Bool(!vtruthy(v)),
        Token::SUB => match v {
            Val::Int(n) => vchecked(-n),
            _ => Val::Error(unknown_prefix_message("-"@, vtype(v))),
        },
        _ => Val::Error(unknown_prefix_message(token_text(op), vtype(v))),
    }
}

/// Indexing: an array and an integer in range give the element, out of
/// range null; anything else is an error.
pub open spec fn v_index(l: Val, i: Val) -> Val {
    match (l, i) {
        (Val::Arr(a), Val::Int(n)) => if 0 <= n < a.len() {
            a[n as int]
        } else {
            Val::Null
        },
        _ => Val::Error(index_message(vtext(l))),
    }
}

pub open spec fn v_builtin(b: BuiltinFunction, args: Seq<Val>) -> Val {
    if args.len() != arity(b) {
        Val::Error(arguments_message(arity(b), args.len()))
    } else {
        match b {
            BuiltinFunction::LEN => match args[0] {
                Val::Str(s) => if crate::builtin::utf8_len(s) <= i32::MAX {
                    Val::Int(crate::builtin::utf8_len(s) as i32)
                } else {
                    Val::Error("length out of range"@)
                },
                Val::Arr(a) => if a.len() <= i32::MAX {
                    Val::Int(a.len() as i32)
                } else {
                    Val::Error("length out of range"@)
                },
                _ => Val::Error(unsupported_message(b)),
            },
            BuiltinFunction::FIRST => match args[0] {
                Val::Arr(a) => if a.len() > 0 {
                    a[0]
                } else {
                    Val::Null
                },
                _ => Val::Error(unsupported_message(b)),
            },
            BuiltinFunction::LAST => match args[0] {
                Val::Arr(a) => if a.len() > 0 {
                    a[a.len() - 1]
                } else {
                    Val::Null
                },
                _ => Val::Error(unsupported_message(b)),
            },
            BuiltinFunction::TAIL => match args[0] {
                Val::Arr(a) => if a.len() > 0 {
                    Val::Arr(a.subrange(1, a.len() as int))
                } else {
                    Val::Null
                },
                _ => Val::Error(unsupported_message(b)),
            },
            BuiltinFunction::PUSH => match args[0] {
                Val::Arr(a) => Val::Arr(a.push(args[1])),
                _ => Val::Error(unsupported_message(b)),
            },
        }
    }
}

/// The value inside any return signals.
pub open spec fn unwrap_all(v: Val) -> Val
    decreases v,
{
    match v {
        Val::Ret(x) => unwrap_all(*x),
        _ => v,
    }
}

/// Binds each parameter, from the `i`-th on, to the argument in its position.
pub open spec fn bind_params(m: Map<Seq<char>, Val>, ps: Seq<Seq<char>>, args: Seq<Val>, i: int) -> Map<
    Seq<char>,
    Val,
>
    decreases ps.len() - i,
{
    if 0 <= i < ps.len() && i < args.len() {
        bind_params(m.insert(ps[i], args[i]), ps, args, i + 1)
    } else {
        m
    }
}

pub open spec fn is_signal(v: Val) -> bool {
    v is Ret || v is Error
}

pub open spec fn v_expr(sc: Seq<ScopeV>, cur: int, e: ExprV, depth: int) -> (Val, Seq<ScopeV>)
    decreases depth, 1int, e,
{
    match e {
        ExprV::Ident(x) => (
            match vresolve(sc, cur, x) {
                Some(v) => v,
                None => match builtin_named(x) {
                    Some(b) => Val::Builtin(b),
                    None => Val::Error(identifier_message(x)),
                },
            },
            sc,
        ),
        ExprV::Int(n) => (Val::Int(n), sc),
        ExprV::Bool(b) => (Val::Bool(b), sc),
        ExprV::Str(s) => (Val::Str(s), sc),
        ExprV::Prefix(op, x) => {
            let (v, sc1) = v_expr(sc, cur, *x, depth);
            if v is Error {
                (v, sc1)
            } else {
                (v_prefix(op, v), sc1)
            }
        },
        ExprV::Infix(op, l, r) => {
            let (a, sc1) = v_expr(sc, cur, *l, depth);
            if a is Error {
                (a, sc1)
            } else {
                let (b, sc2) = v_expr(sc1, cur, *r, depth);
                if b is Error {
                    (b, sc2)
                } else {
                    (v_infix(op, a, b), sc2)
                }
            }
        },
        ExprV::If(c, cons, alt) => {
            let (cv, sc1) = v_expr(sc, cur, *c, depth);
            if cv is Error {
                (cv, sc1)
            } else if vtruthy(cv) {
                v_block(sc1, cur, cons, Val::Null, depth)
            } else {
                match alt {
                    Some(a) => v_block(sc1, cur, a, Val::Null, depth),
                    None => (Val::Null, sc1),
                }
            }
        },
        ExprV::Func(ps, body) => (Val::Func(ps, body, cur), sc),
        ExprV::Call(f, args) => {
            let (fv, sc1) = v_expr(sc, cur, *f, depth);
            if fv is Error {
                (fv, sc1)
            } else {
                let (avs, sc2) = v_args(sc1, cur, args, Seq::empty(), depth);
                match avs {
                    Err(e) => (e, sc2),
                    Ok(vs) => v_apply(sc2, fv, vs, depth),
                }
            }
        },
        ExprV::Array(els) => {
            let (r, sc1) = v_args(sc, cur, els, Seq::empty(), depth);
            match r {
                Err(e) => (e, sc1),
                Ok(vs) => (Val::Arr(vs), sc1),
            }
        },
        ExprV::Index(l, i) => {
            let (a, sc1) = v_expr(sc, cur, *l, depth);
            if a is Error {
                (a, sc1)
            } else {
                let (b, sc2) = v_expr(sc1, cur, *i, depth);
                if b is Error {
                    (b, sc2)
                } else {
                    (v_index(a, b), sc2)
                }
            }
        },
    }
}

/// Expressions left to right after `acc`; the first error stops it.
pub open spec fn v_args(sc: Seq<ScopeV>, cur: int, es: Seq<ExprV>, acc: Seq<Val>, depth: int) -> (
    Result<Seq<Val>, Val>,
    Seq<ScopeV>,
)
    decreases depth, 1int, es,
{
    if es.len() == 0 {
        (Ok(acc), sc)
    } else {
        let (v, sc1) = v_expr(sc, cur, es[0], depth);
        if v is Error {
            (Err(v), sc1)
        } else {
            v_args(sc1, cur, es.subrange(1, es.len() as int), acc.push(v), depth)
        }
    }
}

/// Statements in order after a last value `last`; a return or error
/// signal stops it and is the result.
pub open spec fn v_block(sc: Seq<ScopeV>, cur: int, ss: Seq<StmtV>, last: Val, depth: int) -> (
    Val,
    Seq<ScopeV>,
)
    decreases depth, 1int, ss,
{
    if ss.len() == 0 {
        (last, sc)
    } else {
        let (v, sc1) = v_stmt(sc, cur, ss[0], depth);
        if is_signal(v) {
            (v, sc1)
        } else {
            v_block(sc1, cur, ss.subrange(1, ss.len() as int), v, depth)
        }
    }
}

pub open spec fn v_stmt(sc: Seq<ScopeV>, cur: int, s: StmtV, depth: int) -> (Val, Seq<ScopeV>)
    decreases depth, 1int, s,
{
    match s {
        StmtV::Let(name, e) => {
            let (v, sc1) = v_expr(sc, cur, e, depth);
            if v is Error || !(0 <= cur < sc1.len()) {
                (v, sc1)
            } else {
                (v, sc1.update(cur, ScopeV { vars: sc1[cur].vars.insert(name, v), outer: sc1[cur].outer }))
            }
        },
        StmtV::Return(e) => {
            let (v, sc1) = v_expr(sc, cur, e, depth);
            (Val::Ret(Box::new(v)), sc1)
        },
        StmtV::Expr(e) => v_expr(sc, cur, e, depth),
    }
}

/// Calls a closure in a new scope nested in its own, or a built-in.
pub open spec fn v_apply(sc: Seq<ScopeV>, f: Val, args: Seq<Val>, depth: int) -> (Val, Seq<ScopeV>)
    decreases depth, 0int, f,
{
    match f {
        Val::Func(ps, body, env) => if depth <= 0 {
            (Val::Error("maximum call depth exceeded"@), sc)
        } else {
            let scope = ScopeV {
                vars: bind_params(Map::empty(), ps, args, 0),
                outer: Some(env as usize),
            };
            let (v, sc1) = v_block(sc.push(scope), sc.len() as int, body, Val::Null, depth - 1);
            (unwrap_all(v), sc1)
        },
        Val::Builtin(b) => (v_builtin(b, args), sc),
        _ => (Val::Error("not a function: "@ + vtype(f)), sc),
    }
}

pub proof fn lemma_type_label(o: Object)
    ensures
        type_label(o) == vtype(ov(o)),
    decreases o,
{
    if let Object::RETURN(x) = o {
        lemma_type_label(*x);
    }
}

pub proof fn lemma_truthy(o: Object)
    ensures
        truthy(o) == vtruthy(ov(o)),
{
}

proof fn lemma_checked(v: int, r: Object)
    requires
        checked(v, r),
    ensures
        ov(r) == vchecked(v),
{
}

pub proof fn lemma_infix_ov(op: Token, l: Object, r: Object, out: Object)
    requires
        infix_result(op, l, r, out),
    ensures
        ov(out) == v_infix(op, ov(l), ov(r)),
{
    lemma_type_label(l);
    lemma_type_label(r);
    match (l, r) {
        (Object::INTEGER(a), Object::INTEGER(b)) => {
            match op {
                Token::PLUS => lemma_checked(a + b, out),
                Token::SUB => lemma_checked(a - b, out),
                Token::MUL => lemma_checked(a * b, out),
                Token::DIV => if b != 0 {
                    lemma_checked(trunc_div(a as int, b as int), out)
                },
                _ => {},
            }
        },
        _ => {},
    }
}

pub proof fn lemma_prefix_ov(op: Token, o: Object, out: Object)
    requires
        prefix_result(op, o, out),
    ensures
        ov(out) == v_prefix(op, ov(o)),
{
    lemma_type_label(o);
    if op is SUB {
        if let Object::INTEGER(n) = o {
            lemma_checked(-n, out);
        }
    }
}

pub proof fn lemma_ovs_subrange(s: Seq<Object>, i: int)
    requires
        0 <= i <= s.len(),
    ensures
        ovs(s.subrange(i, s.len() as int)) == ovs(s).subrange(i, s.len() as int),
{
    let t = s.subrange(i, s.len() as int);
    lemma_ovs_len(s);
    lemma_ovs_len(t);
    assert forall|j: int| 0 <= j < t.len() implies ovs(t)[j] == ovs(s).subrange(
        i,
        s.len() as int,
    )[j] by {
        lemma_ovs_index(t, j);
        lemma_ovs_index(s, i + j);
    }
    assert(ovs(t) =~= ovs(s).subrange(i, s.len() as int));
}

pub proof fn lemma_builtin_ov(b: BuiltinFunction, args: Seq<Object>, out: Object)
    requires
        args.len() == arity(b),
        builtin_result(b, args, out),
    ensures
        ov(out) == v_builtin(b, ovs(args)),
{
    lemma_ovs_index(args, 0);
    lemma_ovs_len(args);
    assert(ovs(args).len() == arity(b));
    if args.len() == 2 {
        lemma_ovs_index(args, 1);
    }
    if let Object::ARRAY(a) = args[0] {
        lemma_ovs_len(a@);
        assert(ov(args[0]) == Val::Arr(ovs(a@)));
        if a@.len() > 0 {
            lemma_ovs_index(a@, 0);
            lemma_ovs_index(a@, a@.len() - 1);
            lemma_ovs_subrange(a@, 1);
        }
        if b is PUSH {
            lemma_ovs_push(a@, args[1]);
            assert(ov(out) == Val::Arr(ovs(a@).push(ov(args[1]))));
        } else if b is TAIL {
            if a@.len() > 0 {
                assert(ov(out) == Val::Arr(ovs(a@.subrange(1, a@.len() as int))));
            }
        }
    } else if let Object::STRING(t) = args[0] {
        assert(ov(args[0]) == Val::Str(t@));
    } else {
        assert(!(ov(args[0]) is Arr) && !(ov(args[0]) is Str));
    }
}

pub proof fn lemma_resolve_view(envs: Seq<Environment>, id: int, name: Seq<char>)
    ensures
        match crate::evaluator::resolve(envs, id, name) {
            Some(v) => vresolve(scopes_view(envs), id, name) == Some(ov(v)),
            None => vresolve(scopes_view(envs), id, name) is None,
        },
    decreases id,
{
    if 0 <= id < envs.len() {
        let sv = scopes_view(envs);
        assert(sv[id] == scope_view(envs[id]));
        if envs[id].lookup(name) is None {
            if let Some(o) = envs[id].outer_link() {
                if o < id {
                    lemma_resolve_view(envs, o as int, name);
                }
            }
        }
    }
}

/// A scope after a binding of `name`, seen as a value.
pub proof fn lemma_scope_set(before: Environment, after: Environment, name: Seq<char>, value: Object)
    requires
        after.outer_link() == before.outer_link(),
        forall|k: Seq<char>| #[trigger]
            after.lookup(k) == if k == name {
                Some(value)
            } else {
                before.lookup(k)
            },
    ensures
        scope_view(after) == (ScopeV {
            vars: scope_view(before).vars.insert(name, ov(value)),
            outer: scope_view(before).outer,
        }),
{
    assert(scope_view(after).vars =~= scope_view(before).vars.insert(name, ov(value))) by {
        assert forall|k: Seq<char>| #[trigger] scope_view(after).vars.contains_key(k)
            == scope_view(before).vars.insert(name, ov(value)).contains_key(k) by {
            assert(after.lookup(k) == if k == name {
                Some(value)
            } else {
                before.lookup(k)
            });
        }
        assert forall|k: Seq<char>| #[trigger] scope_view(after).vars.contains_key(k) implies scope_view(
            after,
        ).vars[k] == scope_view(before).vars.insert(name, ov(value))[k] by {
            assert(after.lookup(k) == if k == name {
                Some(value)
            } else {
                before.lookup(k)
            });
        }
    }
}

} // verus!

verus! {

// The printed forms, read off the views.

pub open spec fn xt(e: ExprV) -> Seq<char>
    decreases e,
{
    match e {
        ExprV::Ident(x) => x,
        ExprV::Int(n) => int_text(n as int),
        ExprV::Bool(b) => if b {
            "true"@
        } else {
            "false"@
        },
        ExprV::Str(s) => "\""@ + s + "\""@,
        ExprV::Prefix(op, x) => "("@ + token_text(op) + xt(*x) + ")"@,
        ExprV::Infix(op, l, r) => "("@ + xt(*l) + " "@ + token_text(op) + " "@ + xt(*r) + ")"@,
        ExprV::If(c, cons, alt) => "if ("@ + xt(*c) + ") { "@ + blockv(cons) + " }"@ + match alt {
            Some(a) => " else { "@ + blockv(a) + " }"@,
            None => Seq::empty(),
        },
        ExprV::Func(ps, body) => "fn ("@ + paramsv(ps) + ") { "@ + bodyv(body) + " }"@,
        ExprV::Call(f, args) => xt(*f) + "("@ + listv(args) + ")"@,
        ExprV::Array(els) => "["@ + listv(els) + "]"@,
        ExprV::Index(l, i) => xt(*l) + "["@ + xt(*i) + "]"@,
    }
}

pub open spec fn stv(s: StmtV) -> Seq<char>
    decreases s,
{
    match s {
        StmtV::Let(name, e) => "let "@ + name + " = "@ + xt(e) + ";"@,
        StmtV::Return(e) => "return "@ + xt(e) + ";"@,
        StmtV::Expr(e) => xt(e) + ";"@,
    }
}

pub open spec fn blockv(ss: Seq<StmtV>) -> Seq<char>
    decreases ss,
{
    if ss.len() == 0 {
        Seq::empty()
    } else {
        blockv(ss.subrange(0, ss.len() - 1)) + stv(ss[ss.len() - 1])
    }
}

pub open spec fn bodyv(ss: Seq<StmtV>) -> Seq<char>
    decreases ss,
{
    if ss.len() == 0 {
        Seq::empty()
    } else if ss.len() == 1 {
        stv(ss[0])
    } else {
        bodyv(ss.subrange(0, ss.len() - 1)) + " "@ + stv(ss[ss.len() - 1])
    }
}

pub open spec fn listv(es: Seq<ExprV>) -> Seq<char>
    decreases es,
{
    if es.len() == 0 {
        Seq::empty()
    } else if es.len() == 1 {
        xt(es[0])
    } else {
        listv(es.subrange(0, es.len() - 1)) + ", "@ + xt(es[es.len() - 1])
    }
}

pub open spec fn paramsv(ps: Seq<Seq<char>>) -> Seq<char>
    decreases ps.len(),
{
    if ps.len() == 0 {
        Seq::empty()
    } else if ps.len() == 1 {
        ps[0]
    } else {
        paramsv(ps.subrange(0, ps.len() - 1)) + ", "@ + ps[ps.len() - 1]
    }
}

/// The printed form of a value.
pub open spec fn vtext(v: Val) -> Seq<char>
    decreases v,
{
    match v {
        Val::Int(n) => int_text(n as int),
        Val::Bool(b) => if b {
            "true"@
        } else {
            "false"@
        },
        Val::Str(s) => s,
        Val::Null => "null"@,
        Val::Ret(inner) => "return "@ + vtext(*inner),
        Val::Error(s) => s,
        Val::Func(ps, body, _) => "fn ("@ + paramsv(ps) + ") { "@ + bodyv(body) + " }"@,
        Val::Builtin(_) => "builtin"@,
        Val::Arr(s) => "["@ + vtexts(s) + "]"@,
    }
}

pub open spec fn vtexts(s: Seq<Val>) -> Seq<char>
    decreases s,
{
    if s.len() == 0 {
        Seq::empty()
    } else if s.len() == 1 {
        vtext(s[0])
    } else {
        vtexts(s.subrange(0, s.len() - 1)) + ", "@ + vtext(s[s.len() - 1])
    }
}

pub proof fn lemma_expr_text(e: Expression)
    ensures
        expr_text(e) == xt(ev(e)),
    decreases e,
{
    match e {
        Expression::Prefix(p) => lemma_expr_text(*p.expr),
        Expression::Infix(i) => {
            lemma_expr_text(*i.left_expr);
            lemma_expr_text(*i.right_expr);
        },
        Expression::IfExpression(ie) => {
            lemma_expr_text(*ie.condition);
            lemma_block_text(ie.consequence@);
            if let Some(a) = ie.alternative {
                lemma_block_text(a@);
            }
        },
        Expression::FnExpression(f) => {
            lemma_params_text(f.parameters@);
            lemma_body_text(f.body@);
        },
        Expression::CallExpression(c) => {
            lemma_expr_text(*c.function);
            lemma_list_text(c.arguments@);
        },
        Expression::Arrays(a) => lemma_list_text(a.elements@),
        Expression::Indexed(ix) => {
            lemma_expr_text(*ix.left_expr);
            lemma_expr_text(*ix.index);
        },
        _ => {},
    }
}

pub proof fn lemma_stmt_text(s: Statement)
    ensures
        stmt_text(s) == stv(sv(s)),
    decreases s,
{
    match s {
        Statement::LetStatement(l) => lemma_expr_text(l.value),
        Statement::ReturnStatement(r) => lemma_expr_text(r.value),
        Statement::ExpressionStatement(e) => lemma_expr_text(e),
    }
}

pub proof fn lemma_block_text(ss: Seq<Statement>)
    ensures
        block_text(ss) == blockv(svs(ss)),
    decreases ss,
{
    if ss.len() > 0 {
        let t = ss.subrange(0, ss.len() - 1);
        lemma_block_text(t);
        lemma_stmt_text(ss[ss.len() - 1]);
        assert(svs(ss).subrange(0, svs(ss).len() - 1) =~= svs(t));
    }
}

pub proof fn lemma_body_text(ss: Seq<Statement>)
    ensures
        body_text(ss) == bodyv(svs(ss)),
    decreases ss,
{
    if ss.len() > 0 {
        let t = ss.subrange(0, ss.len() - 1);
        lemma_body_text(t);
        lemma_stmt_text(ss[ss.len() - 1]);
        assert(svs(ss).subrange(0, svs(ss).len() - 1) =~= svs(t));
        if ss.len() == 1 {
            assert(svs(t) =~= Seq::<StmtV>::empty());
        } else {
            lemma_stmt_text(ss[0]);
            crate::ast::lemma_svs_index(t, 0);
        }
    }
}

pub proof fn lemma_list_text(es: Seq<Expression>)
    ensures
        list_text(es) == listv(evs(es)),
    decreases es,
{
    if es.len() > 0 {
        let t = es.subrange(0, es.len() - 1);
        lemma_list_text(t);
        lemma_expr_text(es[es.len() - 1]);
        assert(evs(es).subrange(0, evs(es).len() - 1) =~= evs(t));
        if es.len() == 1 {
            assert(evs(t) =~= Seq::<ExprV>::empty());
        } else {
            crate::ast::lemma_evs_index(t, 0);
        }
    }
}

pub proof fn lemma_params_text(ps: Seq<Identifier>)
    ensures
        params_text(ps) == paramsv(names(ps)),
    decreases ps.len(),
{
    if ps.len() > 0 {
        let t = ps.subrange(0, ps.len() - 1);
        lemma_params_text(t);
        assert(names(ps).subrange(0, names(ps).len() - 1) =~= names(t));
        if ps.len() == 1 {
            assert(names(t) =~= Seq::<Seq<char>>::empty());
        } else {
            crate::ast::lemma_names_index(t, 0);
        }
    }
}

pub proof fn lemma_object_text(o: Object)
    ensures
        object_text(o) == vtext(ov(o)),
    decreases o,
{
    match o {
        Object::RETURN(x) => lemma_object_text(*x),
        Object::FUNCTION(f) => {
            lemma_params_text(f.parameters@);
            lemma_body_text(f.body@);
        },
        Object::ARRAY(v) => lemma_objects_text(v@),
        _ => {},
    }
}

pub proof fn lemma_objects_text(s: Seq<Object>)
    ensures
        objects_text(s) == vtexts(ovs(s)),
    decreases s,
{
    if s.len() > 0 {
        let t = s.subrange(0, s.len() - 1);
        lemma_objects_text(t);
        lemma_object_text(s[s.len() - 1]);
        assert(ovs(s).subrange(0, ovs(s).len() - 1) =~= ovs(t));
        if s.len() == 1 {
            assert(ovs(t) =~= Seq::<Val>::empty());
        } else {
            lemma_ovs_index(t, 0);
        }
    }
}

} // verus!
