use crate::ast::{
    body_text, duplicate_block, duplicate_params, ev, evs, lemma_evs_index, lemma_names_index,
    lemma_svs_index, names, stmt_text, sv, svs, Expression, Identifier, IfExpression, Program,
    Statement,
};
use crate::builtin::{arguments_message, arity, builtin_named, builtin_result, BuiltinFunction};
use crate::env::Environment;
use crate::object::{
    copied, lemma_copied_valid, lemma_valid_mono, lemma_valid_seq_all, lemma_valid_seq_index,
    object_text, truthy, type_label, valid, valid_seq, Function, Object,
};
use crate::token::{token_text, Token};
use crate::semantics::{
    bind_params, lemma_builtin_ov, lemma_copied_ov, lemma_infix_ov, lemma_ovs_index,
    lemma_ovs_len, lemma_ovs_push, lemma_prefix_ov, lemma_resolve_view, lemma_scope_set,
    lemma_truthy, lemma_type_label, ov, ovs, scope_view, scopes_view, unwrap_all, v_apply, v_args,
    v_block, v_expr, v_stmt, vresolve, ScopeV, Val,
};
use vstd::prelude::*;
use vstd::string::*;

verus! {

/// How deeply function calls may nest before evaluation stops with an
/// error: in practice no bound, the host stack gives out first.
pub const MAX_CALL_DEPTH: usize = usize::MAX;

/// Every scope's names are unique, each scope's enclosing scope comes
/// before it, so that chains of scopes end, and every closure bound
/// anywhere names an existing scope.
pub open spec fn scopes_wf(envs: Seq<Environment>) -> bool {
    forall|i: int|
        0 <= i < envs.len() ==> {
            &&& (#[trigger] envs[i]).wf()
            &&& envs[i].outer_link() matches Some(o) ==> o < i
            &&& envs[i].values_valid(envs.len() as int)
        }
}

pub proof fn lemma_values_valid_mono(e: Environment, n: int, m: int)
    requires
        e.values_valid(n),
        n <= m,
    ensures
        e.values_valid(m),
{
    assert forall|j: int| 0 <= j < e.bindings().len() implies valid(
        #[trigger] e.bindings()[j].1,
        m,
    ) by {
        lemma_valid_mono(e.bindings()[j].1, n, m);
    }
}

/// A resolved value names only existing scopes.
pub proof fn lemma_resolve_valid(envs: Seq<Environment>, id: int, name: Seq<char>)
    requires
        scopes_wf(envs),
    ensures
        resolve(envs, id, name) matches Some(v) ==> valid(v, envs.len() as int),
    decreases id,
{
    if 0 <= id < envs.len() {
        envs[id].lemma_lookup_valid(name, envs.len() as int);
        if envs[id].lookup(name) is None {
            if let Some(o) = envs[id].outer_link() {
                if o < id {
                    lemma_resolve_valid(envs, o as int, name);
                }
            }
        }
    }
}

/// The value bound to `name` in scope `id` or in the nearest enclosing
/// scope that binds it.
pub open spec fn resolve(envs: Seq<Environment>, id: int, name: Seq<char>) -> Option<Object>
    decreases id,
{
    if 0 <= id < envs.len() {
        match envs[id].lookup(name) {
            Some(v) => Some(v),
            None => match envs[id].outer_link() {
                Some(o) => if o < id {
                    resolve(envs, o as int, name)
                } else {
                    None
                },
                None => None,
            },
        }
    } else {
        None
    }
}

pub open spec fn identifier_message(name: Seq<char>) -> Seq<char> {
    "identifier not found: "@ + name
}

pub open spec fn unknown_prefix_message(op: Seq<char>, t: Seq<char>) -> Seq<char> {
    "unknown operator: "@ + op + t
}

/// The error for indexing a value, printed as `t`, that cannot be indexed.
pub open spec fn index_message(t: Seq<char>) -> Seq<char> {
    "index operator not supported for "@ + t + "."@
}

pub open spec fn unknown_infix_message(l: Seq<char>, op: Token, r: Seq<char>) -> Seq<char> {
    "unknown operator: "@ + l + " "@ + token_text(op) + " "@ + r
}

pub open spec fn mismatch_message(l: Seq<char>, op: Token, r: Seq<char>) -> Seq<char> {
    "type mismatch: "@ + l + " "@ + token_text(op) + " "@ + r
}

pub open spec fn overflow_message() -> Seq<char> {
    "integer overflow"@
}

pub open spec fn division_message() -> Seq<char> {
    "division by zero"@
}

/// Integer division that rounds toward zero.
pub open spec fn trunc_div(a: int, b: int) -> int {
    let q = abs(a) / abs(b);
    if (a < 0) == (b < 0) {
        q
    } else {
        -q
    }
}

pub open spec fn abs(a: int) -> int {
    if a < 0 {
        -a
    } else {
        a
    }
}

pub open spec fn in_i32(v: int) -> bool {
    i32::MIN <= v <= i32::MAX
}

/// An integer result, or an overflow error when it is out of range.
pub open spec fn checked(v: int, r: Object) -> bool {
    if in_i32(v) {
        r == Object::INTEGER(v as i32)
    } else {
        r is ERROR && r->ERROR_0@ == overflow_message()
    }
}

/// What an operator gives on two integers.
pub open spec fn integer_infix(op: Token, a: i32, b: i32, r: Object) -> bool {
    match op {
        Token::PLUS => checked(a + b, r),
        Token::SUB => checked(a - b, r),
        Token::MUL => checked(a * b, r),
        Token::DIV => if b == 0 {
            r is ERROR && r->ERROR_0@ == division_message()
        } else {
            checked(trunc_div(a as int, b as int), r)
        },
        Token::EQ => r == Object::BOOLEAN(a == b),
        Token::NE => r == Object::BOOLEAN(a != b),
        Token::GT => r == Object::BOOLEAN(a > b),
        Token::LT => r == Object::BOOLEAN(a < b),
        _ => r is ERROR && r->ERROR_0@ == unknown_infix_message("INTEGER"@, op, "INTEGER"@),
    }
}

/// What an operator gives on two booleans: only `==` and `!=` are defined.
pub open spec fn boolean_infix(op: Token, a: bool, b: bool, r: Object) -> bool {
    match op {
        Token::EQ => r == Object::BOOLEAN(a == b),
        Token::NE => r == Object::BOOLEAN(a != b),
        _ => r is ERROR && r->ERROR_0@ == unknown_infix_message("BOOLEAN"@, op, "BOOLEAN"@),
    }
}

/// What an operator gives on two strings: only `+`, which concatenates.
pub open spec fn string_infix(op: Token, a: Seq<char>, b: Seq<char>, r: Object) -> bool {
    if op is PLUS {
        r is STRING && r->STRING_0@ == a + b
    } else {
        r is ERROR && r->ERROR_0@ == unknown_infix_message("STRING"@, op, "STRING"@)
    }
}

/// What a binary operator gives on two operand values, dispatched on the
/// pair of their types.
pub open spec fn infix_result(op: Token, l: Object, r: Object, out: Object) -> bool {
    match (l, r) {
        (Object::INTEGER(a), Object::INTEGER(b)) => integer_infix(op, a, b, out),
        (Object::BOOLEAN(a), Object::BOOLEAN(b)) => boolean_infix(op, a, b, out),
        (Object::STRING(a), Object::STRING(b)) => string_infix(op, a@, b@, out),
        _ => out is ERROR && out->ERROR_0@ == if type_label(l) == type_label(r) {
            unknown_infix_message(type_label(l), op, type_label(r))
        } else {
            mismatch_message(type_label(l), op, type_label(r))
        },
    }
}

/// What a unary operator gives on its operand.
pub open spec fn prefix_result(op: Token, o: Object, r: Object) -> bool {
    match op {
        Token::BANG => r == Object::BOOLEAN(!truthy(o)),
        Token::SUB => match o {
            Object::INTEGER(n) => checked(-n, r),
            _ => r is ERROR && r->ERROR_0@ == unknown_prefix_message("-"@, type_label(o)),
        },
        _ => r is ERROR && r->ERROR_0@ == unknown_prefix_message(token_text(op), type_label(o)),
    }
}

/// Walks a program's tree, with one scope per call and one for the session.
pub struct Evaluator {
    envs: Vec<Environment>,
    env: usize,
}

impl Evaluator {
    /// All scopes created so far; a closure names its scope by index.
    pub closed spec fn scopes(&self) -> Seq<Environment> {
        self.envs@
    }

    /// The scope that names are resolved in now.
    pub closed spec fn current(&self) -> int {
        self.env as int
    }

    /// All scopes, as values.
    pub open spec fn view(&self) -> Seq<ScopeV> {
        scopes_view(self.scopes())
    }

    /// The current scope.
    pub open spec fn scope(&self) -> Environment {
        self.scopes()[self.current()]
    }

    pub open spec fn size(&self) -> int {
        self.scopes().len() as int
    }

    pub closed spec fn wf(&self) -> bool {
        &&& scopes_wf(self.envs@)
        &&& self.env < self.envs@.len()
    }

    /// Whether `after` is `before` with its current scope restored, no
    /// scope taken away, and every scope but the current one unchanged.
    pub open spec fn kept(before: Evaluator, after: Evaluator) -> bool {
        &&& after.wf()
        &&& after.current() == before.current()
        &&& before.scopes().len() <= after.scopes().len()
        &&& forall|i: int|
            0 <= i < before.scopes().len() && i != before.current() ==> #[trigger] after.scopes()[i]
                == before.scopes()[i]
    }

    /// Whether every scope of `before` is unchanged in `after`.
    pub open spec fn untouched(before: Evaluator, after: Evaluator) -> bool {
        &&& before.scopes().len() <= after.scopes().len()
        &&& forall|i: int|
            0 <= i < before.scopes().len() ==> #[trigger] after.scopes()[i] == before.scopes()[i]
    }

    /// An evaluator with one empty outermost scope.
    pub fn new() -> (r: Self)
        ensures
            r.wf(),
            r.scopes().len() == 1,
            r.current() == 0,
            r.scopes()[0].bindings().len() == 0,
    {
        let mut envs: Vec<Environment> = Vec::new();
        envs.push(Environment::new());
        Evaluator { envs, env: 0 }
    }

    /// Evaluates a program in the session's scope. A return signal at the
    /// top is unwrapped to its value.
    pub fn eval(&mut self, node: Program) -> (r: Object)
        requires
            old(self).wf(),
        ensures
            Self::kept(*old(self), *final(self)),
            valid(r, final(self).size()),
            !(r is RETURN),
            node.statements@.len() == 0 ==> r == Object::NULL,
            ({
                let (v, sc) = v_block(
                    old(self).view(),
                    old(self).current(),
                    svs(node.statements@),
                    Val::Null,
                    MAX_CALL_DEPTH as int,
                );
                ov(r) == unwrap_all(v) && final(self).view() == sc
            }),
    {
        let evaluated = self.eval_block(&node.statements, MAX_CALL_DEPTH);
        self.unwrap_return_value(evaluated)
    }

    /// Evaluates statements in order, stopping at the first return or
    /// error signal, which is the result; else the last value, or null.
    pub fn eval_statement_vec(&mut self, nodes: Vec<Statement>) -> (r: Object)
        requires
            old(self).wf(),
        ensures
            Self::kept(*old(self), *final(self)),
            valid(r, final(self).size()),
            nodes@.len() == 0 ==> r == Object::NULL,
            (ov(r), final(self).view()) == v_block(
                old(self).view(),
                old(self).current(),
                svs(nodes@),
                Val::Null,
                MAX_CALL_DEPTH as int,
            ),
    {
        self.eval_block(&nodes, MAX_CALL_DEPTH)
    }

    /// A statement sequence, with `depth` calls still allowed to nest.
    fn eval_block(&mut self, nodes: &Vec<Statement>, depth: usize) -> (r: Object)
        requires
            old(self).wf(),
        ensures
            Self::kept(*old(self), *final(self)),
            valid(r, final(self).size()),
            nodes@.len() == 0 ==> r == Object::NULL,
            (ov(r), final(self).view()) == v_block(
                old(self).view(),
                old(self).current(),
                svs(nodes@),
                Val::Null,
                depth as int,
            ),
        decreases depth, 1int, nodes,
    {
        let ghost ss = svs(nodes@);
        proof {
            lemma_svs_index(nodes@, 0);
            assert(ss.subrange(0, ss.len() as int) =~= ss);
        }
        let mut last = Object::NULL;
        let mut i: usize = 0;
        while i < nodes.len()
            invariant
                Self::kept(*old(self), *self),
                i <= nodes@.len(),
                nodes@.len() == 0 ==> last == Object::NULL,
                valid(last, self.size()),
                ss == svs(nodes@),
                ss.len() == nodes@.len(),
                v_block(self.view(), old(self).current(), ss.subrange(i as int, ss.len() as int), ov(last), depth as int)
                    == v_block(old(self).view(), old(self).current(), ss, Val::Null, depth as int),
            decreases nodes@.len() - i,
        {
            proof {
                lemma_svs_index(nodes@, i as int);
                assert(ss.subrange(i as int, ss.len() as int).subrange(1, ss.len() - i) =~= ss.subrange(i + 1, ss.len() as int));
            }
            let evaluated = self.eval_statement(&nodes[i], depth);
            if Self::is_signal(&evaluated) {
                return evaluated;
            }
            last = evaluated;
            i = i + 1;
        }
        last
    }

    /// Whether the value is a return or error signal.
    fn is_signal(obj: &Object) -> (r: bool)
        ensures
            r == (obj is RETURN || obj is ERROR),
    {
        match obj {
            Object::RETURN(_) => true,
            Object::ERROR(_) => true,
            _ => false,
        }
    }

    /// A `let` binds its value in the current scope and gives it; a
    /// `return` wraps its value in a return signal, errors included.
    fn eval_statement(&mut self, node: &Statement, depth: usize) -> (r: Object)
        requires
            old(self).wf(),
        ensures
            Self::kept(*old(self), *final(self)),
            valid(r, final(self).size()),
            node is ReturnStatement ==> r is RETURN,
            (ov(r), final(self).view()) == v_stmt(old(self).view(), old(self).current(), sv(*node), depth as int),
            node is LetStatement && !(r is ERROR) ==> (final(self).scope().lookup(
                node->LetStatement_0.name.value@,
            ) matches Some(v) && copied(r, v)),
        decreases depth, 1int, node,
    {
        match node {
            Statement::LetStatement(let_statement) => {
                let evaluated = self.eval_expression(&let_statement.value, depth);
                if self.is_error(&evaluated) {
                    return evaluated;
                }
                let bound = evaluated.duplicate();
                proof {
                    lemma_copied_valid(evaluated, bound, self.size());
                    lemma_copied_ov(evaluated, bound);
                }
                self.bind(let_statement.name.value.clone(), bound);
                evaluated
            },
            Statement::ReturnStatement(return_statement) => {
                Object::RETURN(Box::new(self.eval_expression(&return_statement.value, depth)))
            },
            Statement::ExpressionStatement(expression_statement) => {
                self.eval_expression(expression_statement, depth)
            },
        }
    }

    /// Binds `name` in the current scope.
    fn bind(&mut self, name: String, value: Object)
        requires
            old(self).wf(),
            valid(value, old(self).size()),
        ensures
            final(self).wf(),
            final(self).current() == old(self).current(),
            final(self).scopes().len() == old(self).scopes().len(),
            forall|i: int|
                0 <= i < old(self).scopes().len() && i != old(self).current() ==> #[trigger] final(
                    self).scopes()[i] == old(self).scopes()[i],
            forall|k: Seq<char>| #[trigger]
                final(self).scopes()[old(self).current()].lookup(k) == if k == name@ {
                    Some(value)
                } else {
                    old(self).scopes()[old(self).current()].lookup(k)
                },
            final(self).view() == old(self).view().update(
                old(self).current(),
                ScopeV {
                    vars: old(self).view()[old(self).current()].vars.insert(name@, ov(value)),
                    outer: old(self).view()[old(self).current()].outer,
                },
            ),
    {
        let ghost before = self.envs@;
        let ghost name_v = name@;
        let ghost value_v = value;
        let cur = self.env;
        self.envs[cur].set(name, value);
        proof {
            assert forall|i: int| 0 <= i < self.envs@.len() implies (#[trigger] self.envs@[i]).wf()
                && (self.envs@[i].outer_link() matches Some(o) ==> o < i) by {
                if i != cur {
                    assert(self.envs@[i] == before[i]);
                }
                assert(before[i].wf());
                assert(before[i].values_valid(before.len() as int));
            }
            lemma_scope_set(before[cur as int], self.envs@[cur as int], name_v, value_v);
            assert(self.view() =~= old(self).view().update(
                cur as int,
                ScopeV {
                    vars: old(self).view()[cur as int].vars.insert(name_v, ov(value_v)),
                    outer: old(self).view()[cur as int].outer,
                },
            ));
        }
    }

    /// An expression's value. An error from an operand, the callee, an
    /// argument, an element or an index stops the evaluation and is the result.
    fn eval_expression(&mut self, node: &Expression, depth: usize) -> (r: Object)
        requires
            old(self).wf(),
        ensures
            Self::kept(*old(self), *final(self)),
            valid(r, final(self).size()),
            (ov(r), final(self).view()) == v_expr(old(self).view(), old(self).current(), ev(*node), depth as int),
            node is Integer ==> r == Object::INTEGER(node->Integer_0),
            node is Bool ==> r == Object::BOOLEAN(node->Bool_0),
            node is String ==> r is STRING && r->STRING_0@ == node->String_0@,
            node is Identifier ==> match resolve(
                old(self).scopes(),
                old(self).current(),
                node->Identifier_0.value@,
            ) {
                Some(v) => copied(v, r),
                None => match builtin_named(node->Identifier_0.value@) {
                    Some(b) => r == Object::BUILTIN(b),
                    None => r is ERROR && r->ERROR_0@ == identifier_message(
                        node->Identifier_0.value@,
                    ),
                },
            },
            node is Prefix ==> r is BOOLEAN || r is INTEGER || r is ERROR,
            node is Infix ==> r is INTEGER || r is BOOLEAN || r is STRING || r is ERROR,
            node is Arrays ==> r is ERROR || (r is ARRAY && r->ARRAY_0@.len()
                == node->Arrays_0.elements@.len()),
            node is FnExpression || node is Identifier || node is Integer || node is Bool
                || node is String ==> Self::untouched(*old(self), *final(self)),
            node is FnExpression ==> r is FUNCTION && r->FUNCTION_0.env == old(self).current()
                && r->FUNCTION_0.parameters@ == node->FnExpression_0.parameters@
                && body_text(r->FUNCTION_0.body@) == body_text(node->FnExpression_0.body@),
        decreases depth, 1int, node,
    {
        match node {
            Expression::Identifier(i) => self.eval_identifier(i),
            Expression::Integer(i) => Object::INTEGER(*i),
            Expression::Bool(b) => self.native_bool_to_object(*b),
            Expression::String(s) => Object::STRING(s.clone()),
            Expression::Prefix(p) => {
                let operand = self.eval_expression(&p.expr, depth);
                if self.is_error(&operand) {
                    return operand;
                }
                let r = self.eval_prefix_expression(&p.operator, operand);
                proof {
                    lemma_prefix_ov(p.operator, operand, r);
                }
                r
            },
            Expression::Infix(i) => {
                let left_expr = self.eval_expression(&i.left_expr, depth);
                if self.is_error(&left_expr) {
                    return left_expr;
                }
                let right_expr = self.eval_expression(&i.right_expr, depth);
                if self.is_error(&right_expr) {
                    return right_expr;
                }
                let r = self.eval_infix_expression(&i.operator, left_expr, right_expr);
                proof {
                    lemma_infix_ov(i.operator, left_expr, right_expr, r);
                }
                r
            },
            Expression::IfExpression(if_expr) => self.eval_if_expression(if_expr, depth),
            Expression::FnExpression(fun) => {
                let r = Object::FUNCTION(
                Function {
                    parameters: duplicate_params(&fun.parameters),
                    body: duplicate_block(&fun.body),
                    env: self.env,
                },
                );
                assert(self.view() == old(self).view());
                r
            },
            Expression::CallExpression(c) => {
                let evaluated = self.eval_expression(&c.function, depth);
                if self.is_error(&evaluated) {
                    return evaluated;
                }
                let ghost n1 = self.size();
                match self.eval_arguments(&c.arguments, depth) {
                    Err(e) => e,
                    Ok(args) => {
                        proof {
                            lemma_valid_mono(evaluated, n1, self.size());
                        }
                        self.apply_function(evaluated, args, depth)
                    },
                }
            },
            Expression::Arrays(a) => {
                match self.eval_arguments(&a.elements, depth) {
                    Err(e) => e,
                    Ok(elements) => {
                        proof {
                            lemma_valid_seq_all(elements@, self.size());
                        }
                        assert(ov(Object::ARRAY(elements)) == Val::Arr(ovs(elements@)));
                        Object::ARRAY(elements)
                    },
                }
            },
            Expression::Indexed(ix) => {
                let left = self.eval_expression(&ix.left_expr, depth);
                if self.is_error(&left) {
                    return left;
                }
                let ghost n1 = self.size();
                let index = self.eval_expression(&ix.index, depth);
                if self.is_error(&index) {
                    return index;
                }
                proof {
                    lemma_valid_mono(left, n1, self.size());
                    crate::semantics::lemma_object_text(left);
                    if left is ARRAY && index is INTEGER {
                        let a = left->ARRAY_0;
                        let k = index->INTEGER_0;
                        lemma_ovs_len(a@);
                        if 0 <= k < a@.len() {
                            lemma_ovs_index(a@, k as int);
                        }
                    }
                }
                self.eval_index_expression(left, index)
            },
        }
    }

    /// Evaluates expressions left to right; the first error stops it.
    fn eval_arguments(&mut self, args: &Vec<Expression>, depth: usize) -> (r: Result<
        Vec<Object>,
        Object,
    >)
        requires
            old(self).wf(),
        ensures
            Self::kept(*old(self), *final(self)),
            r matches Ok(v) ==> forall|i: int| 0 <= i < v@.len() ==> valid(#[trigger] v@[i], final(self).size()),
            (match r {
                Ok(v) => Ok(ovs(v@)),
                Err(e) => Err(ov(e)),
            }, final(self).view()) == v_args(
                old(self).view(),
                old(self).current(),
                evs(args@),
                Seq::empty(),
                depth as int,
            ),
            r matches Err(e) ==> e is ERROR,
            r matches Ok(v) ==> v@.len() == args@.len() && forall|i: int|
                0 <= i < v@.len() ==> !(#[trigger] v@[i] is ERROR),
        decreases depth, 1int, args,
    {
        let ghost es = evs(args@);
        let mut values: Vec<Object> = Vec::new();
        let mut i: usize = 0;
        proof {
            lemma_evs_index(args@, 0);
            assert(es.subrange(0, es.len() as int) =~= es);
            assert(ovs(values@) =~= Seq::<Val>::empty());
        }
        while i < args.len()
            invariant
                Self::kept(*old(self), *self),
                i <= args@.len(),
                values@.len() == i,
                forall|j: int| 0 <= j < values@.len() ==> !(#[trigger] values@[j] is ERROR),
                forall|j: int| 0 <= j < values@.len() ==> valid(#[trigger] values@[j], self.size()),
                es == evs(args@),
                es.len() == args@.len(),
                v_args(self.view(), old(self).current(), es.subrange(i as int, es.len() as int), ovs(values@), depth as int)
                    == v_args(old(self).view(), old(self).current(), es, Seq::empty(), depth as int),
            decreases args@.len() - i,
        {
            proof {
                lemma_evs_index(args@, i as int);
                assert(es.subrange(i as int, es.len() as int).subrange(1, es.len() - i) =~= es.subrange(i + 1, es.len() as int));
            }
            let ghost n1 = self.size();
            let evaluated = self.eval_expression(&args[i], depth);
            if self.is_error(&evaluated) {
                return Err(evaluated);
            }
            proof {
                assert forall|j: int| 0 <= j < values@.len() implies valid(
                    #[trigger] values@[j],
                    self.size(),
                ) by {
                    lemma_valid_mono(values@[j], n1, self.size());
                }
            }
            proof {
                lemma_ovs_push(values@, evaluated);
            }
            values.push(evaluated);
            i = i + 1;
        }
        Ok(values)
    }

    /// Calls a closure in a new scope nested in its own, or a built-in.
    fn apply_function(&mut self, func: Object, args: Vec<Object>, depth: usize) -> (r: Object)
        requires
            old(self).wf(),
            valid(func, old(self).size()),
            forall|i: int| 0 <= i < args@.len() ==> valid(#[trigger] args@[i], old(self).size()),
        ensures
            Self::kept(*old(self), *final(self)),
            valid(r, final(self).size()),
            func is FUNCTION ==> !(r is RETURN),
            Self::untouched(*old(self), *final(self)),
            (ov(r), final(self).view()) == v_apply(old(self).view(), ov(func), ovs(args@), depth as int),
            func is BUILTIN && args@.len() != arity(func->BUILTIN_0) ==> r is ERROR && r->ERROR_0@
                == arguments_message(arity(func->BUILTIN_0), args@.len()),
            func is BUILTIN && args@.len() == arity(func->BUILTIN_0) ==> builtin_result(
                func->BUILTIN_0,
                args@,
                r,
            ),
            !(func is FUNCTION) && !(func is BUILTIN) ==> r is ERROR && r->ERROR_0@
                == "not a function: "@ + type_label(func),
        decreases depth, 0int, func,
    {
        match func {
            Object::FUNCTION(f) => {
                if depth == 0 {
                    return Object::ERROR("maximum call depth exceeded".to_owned());
                }
                let ghost fv = ov(Object::FUNCTION(f));
                let ghost avs = ovs(args@);
                let scope = self.extended_func_env(&f, args);
                let saved = self.env;
                let ghost view0 = self.view();
                self.envs.push(scope);
                assert(self.view() =~= view0.push(scope_view(scope)));
                self.env = self.envs.len() - 1;
                proof {
                    let n = old(self).size();
                    assert forall|i: int| 0 <= i < self.envs@.len() implies {
                        &&& (#[trigger] self.envs@[i]).wf()
                        &&& self.envs@[i].outer_link() matches Some(o) ==> o < i
                        &&& self.envs@[i].values_valid(self.envs@.len() as int)
                    } by {
                        if i < n {
                            assert(old(self).envs@[i] == self.envs@[i]);
                            assert(old(self).envs@[i].values_valid(n));
                        }
                        lemma_values_valid_mono(self.envs@[i], n, n + 1);
                    }
                }
                let evaluated = self.eval_block(&f.body, depth - 1);
                self.env = saved;
                self.unwrap_return_value(evaluated)
            },
            Object::BUILTIN(builtin) => {
                proof {
                    lemma_valid_seq_all(args@, self.size());
                    lemma_ovs_len(args@);
                    if args@.len() == arity(builtin) {
                        assert(forall|r: Object| builtin_result(builtin, args@, r) ==> ov(r) == crate::semantics::v_builtin(builtin, ovs(args@))) by {
                            assert forall|r: Object| builtin_result(builtin, args@, r) implies ov(r) == crate::semantics::v_builtin(builtin, ovs(args@)) by {
                                lemma_builtin_ov(builtin, args@, r);
                            }
                        }
                    }
                }
                builtin.call(args)
            },
            other => {
                let mut msg = String::new();
                msg.append("not a function: ");
                let t = other.get_type();
                msg.append(t.as_str());
                proof {
                    lemma_type_label(other);
                }
                Object::ERROR(msg)
            },
        }
    }

    /// A scope nested in the closure's own, with each parameter bound to
    /// the argument in its position. Extra arguments are ignored and
    /// missing ones leave their parameter unbound.
    fn extended_func_env(&self, func: &Function, args: Vec<Object>) -> (r: Environment)
        requires
            self.wf(),
            func.env < self.size(),
            forall|i: int| 0 <= i < args@.len() ==> valid(#[trigger] args@[i], self.size()),
        ensures
            r.wf(),
            r.outer_link() == Some(func.env),
            r.values_valid(self.size()),
            scope_view(r) == (ScopeV {
                vars: bind_params(Map::empty(), names(func.parameters@), ovs(args@), 0),
                outer: Some(func.env),
            }),
    {
        let ghost ps = names(func.parameters@);
        let ghost avs = ovs(args@);
        let outer = func.env;
        let mut env = Environment::new_enclosed(outer);
        assert(scope_view(env).vars =~= Map::<Seq<char>, Val>::empty());
        proof {
            lemma_names_index(func.parameters@, 0);
            lemma_ovs_len(args@);
        }
        let mut i: usize = 0;
        while i < func.parameters.len() && i < args.len()
            invariant
                env.wf(),
                env.outer_link() == Some(outer),
                env.values_valid(self.size()),
                forall|j: int| 0 <= j < args@.len() ==> valid(#[trigger] args@[j], self.size()),
                ps == names(func.parameters@),
                avs == ovs(args@),
                ps.len() == func.parameters@.len(),
                avs.len() == args@.len(),
                bind_params(scope_view(env).vars, ps, avs, i as int) == bind_params(
                    Map::empty(),
                    ps,
                    avs,
                    0,
                ),
            decreases func.parameters@.len() - i,
        {
            let value = args[i].duplicate();
            proof {
                lemma_copied_valid(args@[i as int], value, self.size());
                lemma_copied_ov(args@[i as int], value);
                lemma_names_index(func.parameters@, i as int);
                lemma_ovs_index(args@, i as int);
            }
            let ghost before = env;
            env.set(func.parameters[i].value.clone(), value);
            proof {
                lemma_scope_set(before, env, func.parameters@[i as int].value@, value);
            }
            i = i + 1;
        }
        assert(scope_view(env).vars =~= bind_params(scope_view(env).vars, ps, avs, i as int));
        env
    }

    /// The value inside any return signals.
    fn unwrap_return_value(&self, obj: Object) -> (r: Object)
        ensures
            !(r is RETURN),
            !(obj is RETURN) ==> r == obj,
            forall|n: int| valid(obj, n) ==> #[trigger] valid(r, n),
            ov(r) == unwrap_all(ov(obj)),
    {
        let ghost given = obj;
        let mut obj = obj;
        while Self::is_return(&obj)
            invariant
                !(given is RETURN) ==> obj == given,
                forall|n: int| valid(given, n) ==> #[trigger] valid(obj, n),
                unwrap_all(ov(obj)) == unwrap_all(ov(given)),
            decreases obj,
        {
            let ghost prev = obj;
            obj = match obj {
                Object::RETURN(inner) => *inner,
                o => o,
            };
            proof {
                assert forall|n: int| valid(given, n) implies #[trigger] valid(obj, n) by {
                    assert(valid(prev, n));
                }
            }
        }
        obj
    }

    fn is_return(obj: &Object) -> (r: bool)
        ensures
            r == (obj is RETURN),
    {
        match obj {
            Object::RETURN(_) => true,
            _ => false,
        }
    }

    /// Applies `!` or `-` to a value.
    pub fn eval_prefix_expression(&self, operator: &Token, object: Object) -> (r: Object)
        ensures
            prefix_result(*operator, object, r),
    {
        match operator {
            Token::BANG => self.eval_bang_expression(object),
            Token::SUB => self.eval_minus_expression(object),
            _ => {
                let mut msg = String::new();
                msg.append("unknown operator: ");
                operator.write_to(&mut msg);
                let t = object.get_type();
                msg.append(t.as_str());
                proof {
                    assert(msg@ =~= unknown_prefix_message(token_text(*operator), type_label(object)));
                }
                Object::ERROR(msg)
            },
        }
    }

    /// Applies a binary operator to two values, dispatching on their types.
    pub fn eval_infix_expression(
        &self,
        operator: &Token,
        object_left: Object,
        object_right: Object,
    ) -> (r: Object)
        ensures
            infix_result(*operator, object_left, object_right, r),
    {
        match (object_left, object_right) {
            (Object::INTEGER(a), Object::INTEGER(b)) => {
                self.eval_integer_infix_expression(operator, a, b)
            },
            (Object::BOOLEAN(a), Object::BOOLEAN(b)) => {
                self.eval_boolean_infix_expression(operator, a, b)
            },
            (Object::STRING(a), Object::STRING(b)) => {
                self.eval_string_infix_expression(operator, a, b)
            },
            (s, t) => {
                let ls = s.get_type();
                let rs = t.get_type();
                let mut msg = String::new();
                if ls == rs {
                    msg.append("unknown operator: ");
                } else {
                    msg.append("type mismatch: ");
                }
                msg.append(ls.as_str());
                msg.append(" ");
                operator.write_to(&mut msg);
                msg.append(" ");
                msg.append(rs.as_str());
                proof {
                    if type_label(s) == type_label(t) {
                        assert(msg@ =~= unknown_infix_message(type_label(s), *operator, type_label(t)));
                    } else {
                        assert(msg@ =~= mismatch_message(type_label(s), *operator, type_label(t)));
                    }
                }
                Object::ERROR(msg)
            },
        }
    }

    fn unknown_infix(operator: &Token, label: &str) -> (r: Object)
        ensures
            r is ERROR && r->ERROR_0@ == unknown_infix_message(label@, *operator, label@),
    {
        let mut msg = String::new();
        msg.append("unknown operator: ");
        msg.append(label);
        msg.append(" ");
        operator.write_to(&mut msg);
        msg.append(" ");
        msg.append(label);
        proof {
            assert(msg@ =~= unknown_infix_message(label@, *operator, label@));
        }
        Object::ERROR(msg)
    }

    /// `==` and `!=` on booleans.
    pub fn eval_boolean_infix_expression(&self, operator: &Token, a: bool, b: bool) -> (r: Object)
        ensures
            boolean_infix(*operator, a, b, r),
    {
        match operator {
            Token::EQ => Object::BOOLEAN(a == b),
            Token::NE => Object::BOOLEAN(a != b),
            _ => Self::unknown_infix(operator, "BOOLEAN"),
        }
    }

    fn overflow() -> (r: Object)
        ensures
            r is ERROR && r->ERROR_0@ == overflow_message(),
    {
        Object::ERROR("integer overflow".to_owned())
    }

    fn checked_result(v: i64) -> (r: Object)
        ensures
            checked(v as int, r),
    {
        if v < i32::MIN as i64 || v > i32::MAX as i64 {
            Self::overflow()
        } else {
            Object::INTEGER(v as i32)
        }
    }

    /// Arithmetic and comparisons on integers; a result out of range or a
    /// division by zero is an error.
    pub fn eval_integer_infix_expression(&self, operator: &Token, a: i32, b: i32) -> (r: Object)
        ensures
            integer_infix(*operator, a, b, r),
    {
        let x = a as i64;
        let y = b as i64;
        match operator {
            Token::PLUS => Self::checked_result(x + y),
            Token::SUB => Self::checked_result(x - y),
            Token::MUL => {
                assert(-2147483648 * 2147483648 <= x * y <= 2147483648 * 2147483648) by (
                nonlinear_arith)
                    requires
                        -2147483648 <= x <= 2147483647,
                        -2147483648 <= y <= 2147483647,
                ;
                Self::checked_result(x * y)
            },
            Token::DIV => {
                if b == 0 {
                    Object::ERROR("division by zero".to_owned())
                } else {
                    let ax: i64 = if x < 0 {
                        -x
                    } else {
                        x
                    };
                    let ay: i64 = if y < 0 {
                        -y
                    } else {
                        y
                    };
                    let q = ax / ay;
                    assert(q <= ax) by (nonlinear_arith)
                        requires
                            ax >= 0,
                            ay >= 1,
                            q == ax / ay,
                    ;
                    if (x < 0) == (y < 0) {
                        Self::checked_result(q)
                    } else {
                        Self::checked_result(-q)
                    }
                }
            },
            Token::EQ => self.native_bool_to_object(a == b),
            Token::NE => self.native_bool_to_object(a != b),
            Token::GT => self.native_bool_to_object(a > b),
            Token::LT => self.native_bool_to_object(a < b),
            _ => Self::unknown_infix(operator, "INTEGER"),
        }
    }

    /// `+` on strings concatenates; other operators are errors.
    pub fn eval_string_infix_expression(&self, operator: &Token, a: String, b: String) -> (r: Object)
        ensures
            string_infix(*operator, a@, b@, r),
    {
        match operator {
            Token::PLUS => {
                let mut s = a;
                s.append(b.as_str());
                Object::STRING(s)
            },
            _ => Self::unknown_infix(operator, "STRING"),
        }
    }

    /// Evaluates the condition, then the consequence when it is truthy,
    /// else the alternative, or null when there is none.
    fn eval_if_expression(&mut self, if_expr: &IfExpression, depth: usize) -> (r: Object)
        requires
            old(self).wf(),
        ensures
            Self::kept(*old(self), *final(self)),
            valid(r, final(self).size()),
            (ov(r), final(self).view()) == v_expr(
                old(self).view(),
                old(self).current(),
                ev(Expression::IfExpression(*if_expr)),
                depth as int,
            ),
        decreases depth, 1int, if_expr,
    {
        let condition = self.eval_expression(&if_expr.condition, depth);
        if self.is_error(&condition) {
            return condition;
        }
        let truth = self.is_true(&condition);
        proof {
            lemma_truthy(condition);
        }
        if let Object::BOOLEAN(true) = truth {
            self.eval_block(&if_expr.consequence, depth)
        } else {
            match &if_expr.alternative {
                Some(alternative) => self.eval_block(alternative, depth),
                None => Object::NULL,
            }
        }
    }

    /// `!`: true for `false`, null and 0, false for every other value.
    pub fn eval_bang_expression(&self, object: Object) -> (r: Object)
        ensures
            r == Object::BOOLEAN(!truthy(object)),
    {
        match self.is_true(&object) {
            Object::BOOLEAN(false) => Object::BOOLEAN(true),
            _ => Object::BOOLEAN(false),
        }
    }

    /// `-` on an integer; an error on any other value.
    pub fn eval_minus_expression(&self, object: Object) -> (r: Object)
        ensures
            prefix_result(Token::SUB, object, r),
    {
        match object {
            Object::INTEGER(i) => Self::checked_result(-(i as i64)),
            obj => {
                let mut msg = String::new();
                msg.append("unknown operator: ");
                msg.append("-");
                let t = obj.get_type();
                msg.append(t.as_str());
                proof {
                    assert(msg@ =~= unknown_prefix_message("-"@, type_label(obj)));
                }
                Object::ERROR(msg)
            },
        }
    }

    /// A copy of the value bound to `name`, searched from the current scope
    /// outwards along the chain of enclosing scopes; the innermost binding wins.
    pub fn lookup(&self, name: &str) -> (r: Option<Object>)
        requires
            self.wf(),
        ensures
            match resolve(self.scopes(), self.current(), name@) {
                Some(v) => r matches Some(o) && copied(v, o),
                None => r is None,
            },
            r matches Some(o) ==> valid(o, self.size()),
    {
        proof {
            lemma_resolve_valid(self.envs@, self.env as int, name@);
        }
        let mut id = self.env;
        loop
            invariant
                self.wf(),
                id < self.envs@.len(),
                resolve(self.envs@, id as int, name@) == resolve(
                    self.envs@,
                    self.env as int,
                    name@,
                ),
            decreases id,
        {
            assert(self.envs@[id as int].wf());
            match self.envs[id].get(name) {
                Some(o) => {
                    proof {
                        let v = resolve(self.envs@, self.env as int, name@)->0;
                        lemma_copied_valid(v, o, self.size());
                    }
                    return Some(o);
                },
                None => {},
            }
            match self.envs[id].outer() {
                Some(o) => {
                    id = o;
                },
                None => {
                    return None;
                },
            }
        }
    }

    /// The value bound to the identifier, else the built-in it names, else
    /// an error.
    pub fn eval_identifier(&self, ident: &Identifier) -> (r: Object)
        requires
            self.wf(),
        ensures
            match resolve(self.scopes(), self.current(), ident.value@) {
                Some(v) => copied(v, r),
                None => match builtin_named(ident.value@) {
                    Some(b) => r == Object::BUILTIN(b),
                    None => r is ERROR && r->ERROR_0@ == identifier_message(ident.value@),
                },
            },
            valid(r, self.size()),
            ov(r) == match vresolve(self.view(), self.current(), ident.value@) {
                Some(v) => v,
                None => match builtin_named(ident.value@) {
                    Some(b) => Val::Builtin(b),
                    None => Val::Error(identifier_message(ident.value@)),
                },
            },
    {
        proof {
            lemma_resolve_view(self.envs@, self.env as int, ident.value@);
        }
        match self.lookup(ident.value.as_str()) {
            Some(result) => {
                proof {
                    let v = resolve(self.envs@, self.env as int, ident.value@)->0;
                    lemma_copied_ov(v, result);
                }
                return result;
            },
            None => {},
        }
        match BuiltinFunction::get_builtin(ident.value.as_str()) {
            Some(result) => result,
            None => {
                let mut msg = String::new();
                msg.append("identifier not found: ");
                msg.append(ident.value.as_str());
                Object::ERROR(msg)
            },
        }
    }

    /// Indexing: defined on an array and an integer only.
    pub fn eval_index_expression(&self, left: Object, index: Object) -> (r: Object)
        ensures
            match (left, index) {
                (Object::ARRAY(a), Object::INTEGER(i)) => if 0 <= i < a@.len() {
                    r == a@[i as int]
                } else {
                    r == Object::NULL
                },
                _ => r is ERROR && r->ERROR_0@ == index_message(object_text(left)),
            },
            forall|n: int| valid(left, n) ==> #[trigger] valid(r, n),
    {
        let ghost given = left;
        proof {
            assert forall|n: int| valid(given, n) && given is ARRAY && index is INTEGER implies (0
                <= index->INTEGER_0 < given->ARRAY_0@.len() ==> valid(
                given->ARRAY_0@[index->INTEGER_0 as int],
                n,
            )) by {
                if 0 <= index->INTEGER_0 < given->ARRAY_0@.len() {
                    lemma_valid_seq_index(given->ARRAY_0@, n, index->INTEGER_0 as int);
                }
            }
        }
        match (left, index) {
            (Object::ARRAY(a), Object::INTEGER(i)) => self.eval_array_index_expression(a, i),
            (obj, _) => {
                let mut msg = String::new();
                msg.append("index operator not supported for ");
                obj.write_to(&mut msg);
                msg.append(".");
                Object::ERROR(msg)
            },
        }
    }

    /// The element at `index`, or null when `index` is negative or past the end.
    pub fn eval_array_index_expression(&self, left: Vec<Object>, index: i32) -> (r: Object)
        ensures
            if 0 <= index < left@.len() {
                r == left@[index as int]
            } else {
                r == Object::NULL
            },
    {
        if index < 0 || index as usize >= left.len() {
            Object::NULL
        } else {
            let mut left = left;
            left.swap_remove(index as usize)
        }
    }

    /// Truthiness as a boolean value.
    pub fn is_true(&self, object: &Object) -> (r: Object)
        ensures
            r == Object::BOOLEAN(truthy(*object)),
    {
        match object {
            Object::BOOLEAN(false) => Object::BOOLEAN(false),
            Object::NULL => Object::BOOLEAN(false),
            Object::INTEGER(0) => Object::BOOLEAN(false),
            _ => Object::BOOLEAN(true),
        }
    }

    pub fn is_error(&self, object: &Object) -> (r: bool)
        ensures
            r == (object is ERROR),
    {
        match object {
            Object::ERROR(_) => true,
            _ => false,
        }
    }

    pub fn native_bool_to_object(&self, b: bool) -> (r: Object)
        ensures
            r == Object::BOOLEAN(b),
    {
        if b {
            Object::BOOLEAN(true)
        } else {
            Object::BOOLEAN(false)
        }
    }
}

} // verus!
