use crate::ast::{
    svs,
    body_text, duplicate_block, duplicate_params, params_text, stmt_text, write_body,
    write_params, Identifier, Statement,
};
use crate::builtin::BuiltinFunction;
use crate::text::{int_text, write_int};
use vstd::prelude::*;
use vstd::string::*;

verus! {

/// A runtime value. `RETURN` and `ERROR` are signals that the evaluator
/// passes up rather than data.
#[derive(Debug, PartialEq, Eq)]
pub enum Object {
    INTEGER(i32),
    BOOLEAN(bool),
    STRING(String),
    NULL,
    RETURN(Box<Object>),
    ERROR(String),
    FUNCTION(Function),
    BUILTIN(BuiltinFunction),
    ARRAY(Vec<Object>),
}

/// A closure: parameters, body, and the environment it was created in,
/// named by its index among the evaluator's environments.
#[derive(Debug, PartialEq, Eq)]
pub struct Function {
    pub parameters: Vec<Identifier>,
    pub body: Vec<Statement>,
    pub env: usize,
}

/// The type name used in messages; a return signal has the type of what it carries.
pub open spec fn type_label(o: Object) -> Seq<char>
    decreases o,
{
    match o {
        Object::INTEGER(_) => "INTEGER"@,
        Object::BOOLEAN(_) => "BOOLEAN"@,
        Object::STRING(_) => "STRING"@,
        Object::NULL => "NULL"@,
        Object::RETURN(inner) => type_label(*inner),
        Object::ERROR(_) => "ERROR"@,
        Object::FUNCTION(_) => "FUNCTION"@,
        Object::BUILTIN(_) => "BUILTIN"@,
        Object::ARRAY(_) => "ARRAY"@,
    }
}

/// Truthiness: `false`, `null` and the integer 0 are false; every other
/// value is true.
pub open spec fn truthy(o: Object) -> bool {
    match o {
        Object::BOOLEAN(b) => b,
        Object::NULL => false,
        Object::INTEGER(n) => n != 0,
        _ => true,
    }
}

/// `b` is a copy of `a`: the same value, with closures that have the same
/// environment, parameters and statement texts.
pub open spec fn copied(a: Object, b: Object) -> bool
    decreases a,
{
    match a {
        Object::ARRAY(v) => b is ARRAY && copied_seq(v@, b->ARRAY_0@),
        Object::RETURN(x) => b is RETURN && copied(*x, *b->RETURN_0),
        Object::FUNCTION(f) => b is FUNCTION && same_function(f, b->FUNCTION_0),
        _ => b == a,
    }
}

/// `t` holds copies of the values of `s`, in the same order.
pub open spec fn copied_seq(s: Seq<Object>, t: Seq<Object>) -> bool
    decreases s,
{
    &&& s.len() == t.len()
    &&& s.len() > 0 ==> copied_seq(s.subrange(0, s.len() - 1), t.subrange(0, t.len() - 1))
        && copied(s[s.len() - 1], t[t.len() - 1])
}

pub open spec fn same_function(f: Function, g: Function) -> bool {
    &&& g.env == f.env
    &&& svs(g.body@) == svs(f.body@)
    &&& g.parameters@ == f.parameters@
    &&& g.body@.len() == f.body@.len()
    &&& forall|i: int| 0 <= i < f.body@.len() ==> stmt_text(#[trigger] g.body@[i]) == stmt_text(f.body@[i])
    &&& body_text(g.body@) == body_text(f.body@)
}

/// Every closure inside `o` names one of the first `n` scopes.
pub open spec fn valid(o: Object, n: int) -> bool
    decreases o,
{
    match o {
        Object::FUNCTION(f) => f.env < n,
        Object::ARRAY(v) => valid_seq(v@, n),
        Object::RETURN(x) => valid(*x, n),
        _ => true,
    }
}

/// Every value of `s` is valid for `n` scopes.
pub open spec fn valid_seq(s: Seq<Object>, n: int) -> bool
    decreases s,
{
    s.len() > 0 ==> valid_seq(s.subrange(0, s.len() - 1), n) && valid(s[s.len() - 1], n)
}

pub proof fn lemma_valid_seq_index(s: Seq<Object>, n: int, i: int)
    requires
        valid_seq(s, n),
        0 <= i < s.len(),
    ensures
        valid(s[i], n),
    decreases s.len(),
{
    if i < s.len() - 1 {
        lemma_valid_seq_index(s.subrange(0, s.len() - 1), n, i);
    }
}

pub proof fn lemma_valid_seq_all(s: Seq<Object>, n: int)
    requires
        forall|i: int| 0 <= i < s.len() ==> valid(#[trigger] s[i], n),
    ensures
        valid_seq(s, n),
    decreases s.len(),
{
    if s.len() > 0 {
        let t = s.subrange(0, s.len() - 1);
        assert forall|i: int| 0 <= i < t.len() implies valid(#[trigger] t[i], n) by {
            assert(t[i] == s[i]);
        }
        lemma_valid_seq_all(t, n);
    }
}

/// Validity survives new scopes.
pub proof fn lemma_valid_mono(o: Object, n: int, m: int)
    requires
        valid(o, n),
        n <= m,
    ensures
        valid(o, m),
    decreases o,
{
    match o {
        Object::ARRAY(v) => lemma_valid_seq_mono(v@, n, m),
        Object::RETURN(x) => lemma_valid_mono(*x, n, m),
        _ => {},
    }
}

pub proof fn lemma_valid_seq_mono(s: Seq<Object>, n: int, m: int)
    requires
        valid_seq(s, n),
        n <= m,
    ensures
        valid_seq(s, m),
    decreases s,
{
    if s.len() > 0 {
        lemma_valid_seq_mono(s.subrange(0, s.len() - 1), n, m);
        lemma_valid_mono(s[s.len() - 1], n, m);
    }
}

/// A copy of a valid value is valid.
pub proof fn lemma_copied_valid(a: Object, b: Object, n: int)
    requires
        copied(a, b),
        valid(a, n),
    ensures
        valid(b, n),
    decreases a,
{
    match a {
        Object::ARRAY(v) => lemma_copied_seq_valid(v@, b->ARRAY_0@, n),
        Object::RETURN(x) => lemma_copied_valid(*x, *b->RETURN_0, n),
        _ => {},
    }
}

pub proof fn lemma_copied_seq_valid(s: Seq<Object>, t: Seq<Object>, n: int)
    requires
        copied_seq(s, t),
        valid_seq(s, n),
    ensures
        valid_seq(t, n),
    decreases s,
{
    if s.len() > 0 {
        lemma_copied_seq_valid(s.subrange(0, s.len() - 1), t.subrange(0, t.len() - 1), n);
        lemma_copied_valid(s[s.len() - 1], t[t.len() - 1], n);
    }
}

/// The printed form of a value.
pub open spec fn object_text(o: Object) -> Seq<char>
    decreases o,
{
    match o {
        Object::INTEGER(n) => int_text(n as int),
        Object::BOOLEAN(b) => if b {
            "true"@
        } else {
            "false"@
        },
        Object::STRING(s) => s@,
        Object::NULL => "null"@,
        Object::RETURN(inner) => "return "@ + object_text(*inner),
        Object::ERROR(s) => s@,
        Object::FUNCTION(f) => "fn ("@ + params_text(f.parameters@) + ") { "@ + body_text(f.body@)
            + " }"@,
        Object::BUILTIN(_) => "builtin"@,
        Object::ARRAY(v) => "["@ + objects_text(v@) + "]"@,
    }
}

/// Printed values separated by `, `.
pub open spec fn objects_text(s: Seq<Object>) -> Seq<char>
    decreases s,
{
    if s.len() == 0 {
        Seq::empty()
    } else if s.len() == 1 {
        object_text(s[0])
    } else {
        objects_text(s.subrange(0, s.len() - 1)) + ", "@ + object_text(s[s.len() - 1])
    }
}

impl Object {
    /// The type name of the value.
    pub fn get_type(&self) -> (r: String)
        ensures
            r@ == type_label(*self),
        decreases self,
    {
        match self {
            Object::INTEGER(_) => "INTEGER".to_owned(),
            Object::BOOLEAN(_) => "BOOLEAN".to_owned(),
            Object::STRING(_) => "STRING".to_owned(),
            Object::NULL => "NULL".to_owned(),
            Object::RETURN(obj) => obj.get_type(),
            Object::ERROR(_) => "ERROR".to_owned(),
            Object::FUNCTION(_) => "FUNCTION".to_owned(),
            Object::BUILTIN(_) => "BUILTIN".to_owned(),
            Object::ARRAY(_) => "ARRAY".to_owned(),
        }
    }

    /// A copy of the value.
    pub fn duplicate(&self) -> (r: Object)
        ensures
            copied(*self, r),
        decreases self,
    {
        match self {
            Object::INTEGER(n) => Object::INTEGER(*n),
            Object::BOOLEAN(b) => Object::BOOLEAN(*b),
            Object::STRING(s) => Object::STRING(s.clone()),
            Object::NULL => Object::NULL,
            Object::RETURN(inner) => Object::RETURN(Box::new(inner.duplicate())),
            Object::ERROR(s) => Object::ERROR(s.clone()),
            Object::FUNCTION(f) => Object::FUNCTION(
                Function {
                    parameters: duplicate_params(&f.parameters),
                    body: duplicate_block(&f.body),
                    env: f.env,
                },
            ),
            Object::BUILTIN(b) => Object::BUILTIN(*b),
            Object::ARRAY(v) => Object::ARRAY(duplicate_objects(v)),
        }
    }

    /// The printed form of the value.
    pub fn to_string(&self) -> (r: String)
        ensures
            r@ == object_text(*self),
    {
        let mut out = String::new();
        self.write_to(&mut out);
        out
    }

    pub fn write_to(&self, out: &mut String)
        ensures
            final(out)@ == old(out)@ + object_text(*self),
        decreases self,
    {
        match self {
            Object::INTEGER(n) => write_int(out, *n),
            Object::BOOLEAN(b) => {
                if *b {
                    out.append("true")
                } else {
                    out.append("false")
                }
            },
            Object::STRING(s) => out.append(s.as_str()),
            Object::NULL => out.append("null"),
            Object::RETURN(inner) => {
                out.append("return ");
                inner.write_to(out);
            },
            Object::ERROR(s) => out.append(s.as_str()),
            Object::FUNCTION(f) => {
                out.append("fn (");
                write_params(&f.parameters, out);
                out.append(") { ");
                write_body(&f.body, out);
                out.append(" }");
            },
            Object::BUILTIN(_) => out.append("builtin"),
            Object::ARRAY(v) => {
                out.append("[");
                write_objects(v, out);
                out.append("]");
            },
        }
        proof {
            assert(final(out)@ =~= old(out)@ + object_text(*self));
        }
    }
}

/// Copies of the values, in the same order.
pub fn duplicate_objects(v: &Vec<Object>) -> (r: Vec<Object>)
    ensures
        copied_seq(v@, r@),
    decreases v,
{
    let mut r: Vec<Object> = Vec::new();
    let mut i: usize = 0;
    while i < v.len()
        invariant
            i <= v@.len(),
            copied_seq(v@.subrange(0, i as int), r@),
        decreases v@.len() - i,
    {
        let o = v[i].duplicate();
        let ghost before = r@;
        r.push(o);
        assert(v@.subrange(0, i + 1).subrange(0, i as int) =~= v@.subrange(0, i as int));
        assert(r@.subrange(0, i as int) =~= before);
        i = i + 1;
    }
    assert(v@.subrange(0, v@.len() as int) =~= v@);
    r
}

/// Appends the printed values separated by `, `.
pub fn write_objects(v: &Vec<Object>, out: &mut String)
    ensures
        final(out)@ == old(out)@ + objects_text(v@),
    decreases v,
{
    let mut i: usize = 0;
    while i < v.len()
        invariant
            i <= v@.len(),
            out@ == old(out)@ + objects_text(v@.subrange(0, i as int)),
        decreases v@.len() - i,
    {
        if i > 0 {
            out.append(", ");
        }
        v[i].write_to(out);
        assert(v@.subrange(0, i + 1).subrange(0, i as int) =~= v@.subrange(0, i as int));
        assert(out@ =~= old(out)@ + objects_text(v@.subrange(0, i + 1)));
        i = i + 1;
    }
    assert(v@.subrange(0, v@.len() as int) =~= v@);
}

} // verus!
