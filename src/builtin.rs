use crate::object::{lemma_valid_seq_all, lemma_valid_seq_index, valid, valid_seq, Object};
use crate::text::{nat_text, write_nat};
use vstd::prelude::*;
use vstd::string::*;

verus! {

/// The native operations that identifiers can name.
#[derive(Debug, Clone, Copy, PartialEq, Eq)]
pub enum BuiltinFunction {
    LEN,
    FIRST,
    LAST,
    TAIL,
    PUSH,
}

/// The built-in that a name stands for, if any.
pub open spec fn builtin_named(name: Seq<char>) -> Option<BuiltinFunction> {
    if name == "len"@ {
        Some(BuiltinFunction::LEN)
    } else if name == "first"@ {
        Some(BuiltinFunction::FIRST)
    } else if name == "last"@ {
        Some(BuiltinFunction::LAST)
    } else if name == "tail"@ || name == "rest"@ {
        Some(BuiltinFunction::TAIL)
    } else if name == "push"@ {
        Some(BuiltinFunction::PUSH)
    } else {
        None
    }
}

/// How many arguments a built-in takes.
pub open spec fn arity(b: BuiltinFunction) -> nat {
    match b {
        BuiltinFunction::PUSH => 2,
        _ => 1,
    }
}

/// The name a built-in is reported under in messages.
pub open spec fn builtin_label(b: BuiltinFunction) -> Seq<char> {
    match b {
        BuiltinFunction::LEN => "len"@,
        BuiltinFunction::FIRST => "first"@,
        BuiltinFunction::LAST => "last"@,
        BuiltinFunction::TAIL => "tail"@,
        BuiltinFunction::PUSH => "push"@,
    }
}

/// The error for a call with the wrong number of arguments.
pub open spec fn arguments_message(expected: nat, received: nat) -> Seq<char> {
    "Wrong number of arguments. Expected: "@ + nat_text(expected) + " | Got: "@ + nat_text(received)
}

/// The error for an argument of a type the built-in does not take.
pub open spec fn unsupported_message(b: BuiltinFunction) -> Seq<char> {
    "Argument type not supported by `"@ + builtin_label(b) + "`."@
}

/// The number of bytes of the UTF-8 encoding of `s`, as a `usize`.
pub open spec fn utf8_len(s: Seq<char>) -> usize {
    vstd::utf8::encode_utf8(s).len() as usize
}

/// What a built-in returns for arguments of the right number. `len` of a
/// string counts the bytes of its UTF-8 encoding.
pub open spec fn builtin_result(b: BuiltinFunction, args: Seq<Object>, r: Object) -> bool {
    match b {
        BuiltinFunction::LEN => match args[0] {
            Object::STRING(s) => if utf8_len(s@) <= i32::MAX {
                r == Object::INTEGER(utf8_len(s@) as i32)
            } else {
                r is ERROR && r->ERROR_0@ == "length out of range"@
            },
            Object::ARRAY(a) => if a@.len() <= i32::MAX {
                r == Object::INTEGER(a@.len() as i32)
            } else {
                r is ERROR && r->ERROR_0@ == "length out of range"@
            },
            _ => r is ERROR && r->ERROR_0@ == unsupported_message(b),
        },
        BuiltinFunction::FIRST => match args[0] {
            Object::ARRAY(a) => if a@.len() > 0 {
                r == a@[0]
            } else {
                r == Object::NULL
            },
            _ => r is ERROR && r->ERROR_0@ == unsupported_message(b),
        },
        BuiltinFunction::LAST => match args[0] {
            Object::ARRAY(a) => if a@.len() > 0 {
                r == a@[a@.len() - 1]
            } else {
                r == Object::NULL
            },
            _ => r is ERROR && r->ERROR_0@ == unsupported_message(b),
        },
        BuiltinFunction::TAIL => match args[0] {
            Object::ARRAY(a) => if a@.len() > 0 {
                r is ARRAY && r->ARRAY_0@ == a@.subrange(1, a@.len() as int)
            } else {
                r == Object::NULL
            },
            _ => r is ERROR && r->ERROR_0@ == unsupported_message(b),
        },
        BuiltinFunction::PUSH => match args[0] {
            Object::ARRAY(a) => r is ARRAY && r->ARRAY_0@ == a@.push(args[1]),
            _ => r is ERROR && r->ERROR_0@ == unsupported_message(b),
        },
    }
}

/// A built-in's result holds no closure that its arguments did not.
pub proof fn lemma_result_valid(b: BuiltinFunction, args: Seq<Object>, r: Object, n: int)
    requires
        args.len() == arity(b),
        builtin_result(b, args, r),
        valid_seq(args, n),
    ensures
        valid(r, n),
{
    lemma_valid_seq_index(args, n, 0);
    if let Object::ARRAY(a) = args[0] {
        match b {
            BuiltinFunction::FIRST => {
                if a@.len() > 0 {
                    lemma_valid_seq_index(a@, n, 0);
                }
            },
            BuiltinFunction::LAST => {
                if a@.len() > 0 {
                    lemma_valid_seq_index(a@, n, a@.len() - 1);
                }
            },
            BuiltinFunction::TAIL => {
                if a@.len() > 0 {
                    let t = a@.subrange(1, a@.len() as int);
                    assert forall|i: int| 0 <= i < t.len() implies valid(#[trigger] t[i], n) by {
                        lemma_valid_seq_index(a@, n, i + 1);
                    }
                    lemma_valid_seq_all(t, n);
                }
            },
            BuiltinFunction::PUSH => {
                lemma_valid_seq_index(args, n, 1);
                let t = a@.push(args[1]);
                assert forall|i: int| 0 <= i < t.len() implies valid(#[trigger] t[i], n) by {
                    if i < a@.len() {
                        lemma_valid_seq_index(a@, n, i);
                    }
                }
                lemma_valid_seq_all(t, n);
            },
            _ => {},
        }
    }
}

fn unsupported(b: BuiltinFunction) -> (r: Object)
    ensures
        r is ERROR && r->ERROR_0@ == unsupported_message(b),
{
    let mut msg = String::new();
    msg.append("Argument type not supported by `");
    match b {
        BuiltinFunction::LEN => msg.append("len"),
        BuiltinFunction::FIRST => msg.append("first"),
        BuiltinFunction::LAST => msg.append("last"),
        BuiltinFunction::TAIL => msg.append("tail"),
        BuiltinFunction::PUSH => msg.append("push"),
    }
    msg.append("`.");
    proof {
        assert(msg@ =~= unsupported_message(b));
    }
    Object::ERROR(msg)
}

fn first_arg(args: Vec<Object>) -> (r: Object)
    requires
        args@.len() > 0,
    ensures
        r == args@[0],
{
    let mut args = args;
    args.swap_remove(0)
}

impl BuiltinFunction {
    /// The built-in that `name` stands for, as a value.
    pub fn get_builtin(name: &str) -> (r: Option<Object>)
        ensures
            r == match builtin_named(name@) {
                Some(b) => Some(Object::BUILTIN(b)),
                None => None::<Object>,
            },
    {
        match Self::from(name) {
            Ok(o) => Some(o),
            Err(_) => None,
        }
    }

    fn from(name: &str) -> (r: Result<Object, ()>)
        ensures
            r == match builtin_named(name@) {
                Some(b) => Ok::<Object, ()>(Object::BUILTIN(b)),
                None => Err(()),
            },
    {
        if crate::text::same_text(name, "len") {
            Ok(Object::BUILTIN(Self::LEN))
        } else if crate::text::same_text(name, "first") {
            Ok(Object::BUILTIN(Self::FIRST))
        } else if crate::text::same_text(name, "last") {
            Ok(Object::BUILTIN(Self::LAST))
        } else if crate::text::same_text(name, "tail") || crate::text::same_text(name, "rest") {
            Ok(Object::BUILTIN(Self::TAIL))
        } else if crate::text::same_text(name, "push") {
            Ok(Object::BUILTIN(Self::PUSH))
        } else {
            Err(())
        }
    }

    /// Applies the built-in. The number of arguments is checked first; a
    /// wrong number is an error whatever the arguments' types.
    pub fn call(&self, args: Vec<Object>) -> (r: Object)
        ensures
            args@.len() != arity(*self) ==> r is ERROR && r->ERROR_0@ == arguments_message(
                arity(*self),
                args@.len(),
            ),
            args@.len() == arity(*self) ==> builtin_result(*self, args@, r),
            forall|n: int| valid_seq(args@, n) ==> #[trigger] valid(r, n),
    {
        let ghost given = args@;
        let r = match self {
            BuiltinFunction::LEN => Self::call_len(args),
            BuiltinFunction::FIRST => Self::call_first(args),
            BuiltinFunction::LAST => Self::call_last(args),
            BuiltinFunction::TAIL => Self::call_tail(args),
            BuiltinFunction::PUSH => Self::call_push(args),
        };
        proof {
            assert forall|n: int| valid_seq(given, n) implies #[trigger] valid(r, n) by {
                if given.len() == arity(*self) {
                    lemma_result_valid(*self, given, r, n);
                }
            }
        }
        r
    }

    fn call_len(args: Vec<Object>) -> (r: Object)
        ensures
            args@.len() != 1 ==> r is ERROR && r->ERROR_0@ == arguments_message(1, args@.len()),
            args@.len() == 1 ==> builtin_result(BuiltinFunction::LEN, args@, r),
    {
        if let Some(e) = Self::handle_expected_number_arguments(1, args.len()) {
            return e;
        }
        match first_arg(args) {
            Object::STRING(s) => {
                let n = s.as_str().len();
                if n <= i32::MAX as usize {
                    Object::INTEGER(n as i32)
                } else {
                    Object::ERROR("length out of range".to_owned())
                }
            },
            Object::ARRAY(a) => {
                let n = a.len();
                if n <= i32::MAX as usize {
                    Object::INTEGER(n as i32)
                } else {
                    Object::ERROR("length out of range".to_owned())
                }
            },
            _ => unsupported(BuiltinFunction::LEN),
        }
    }

    fn call_first(args: Vec<Object>) -> (r: Object)
        ensures
            args@.len() != 1 ==> r is ERROR && r->ERROR_0@ == arguments_message(1, args@.len()),
            args@.len() == 1 ==> builtin_result(BuiltinFunction::FIRST, args@, r),
    {
        if let Some(e) = Self::handle_expected_number_arguments(1, args.len()) {
            return e;
        }
        match first_arg(args) {
            Object::ARRAY(a) => {
                if a.len() > 0 {
                    first_arg(a)
                } else {
                    Object::NULL
                }
            },
            _ => unsupported(BuiltinFunction::FIRST),
        }
    }

    fn call_last(args: Vec<Object>) -> (r: Object)
        ensures
            args@.len() != 1 ==> r is ERROR && r->ERROR_0@ == arguments_message(1, args@.len()),
            args@.len() == 1 ==> builtin_result(BuiltinFunction::LAST, args@, r),
    {
        if let Some(e) = Self::handle_expected_number_arguments(1, args.len()) {
            return e;
        }
        match first_arg(args) {
            Object::ARRAY(a) => {
                let mut a = a;
                match a.pop() {
                    Some(o) => o,
                    None => Object::NULL,
                }
            },
            _ => unsupported(BuiltinFunction::LAST),
        }
    }

    fn call_tail(args: Vec<Object>) -> (r: Object)
        ensures
            args@.len() != 1 ==> r is ERROR && r->ERROR_0@ == arguments_message(1, args@.len()),
            args@.len() == 1 ==> builtin_result(BuiltinFunction::TAIL, args@, r),
    {
        if let Some(e) = Self::handle_expected_number_arguments(1, args.len()) {
            return e;
        }
        match first_arg(args) {
            Object::ARRAY(a) => {
                if a.len() > 0 {
                    let mut a = a;
                    let ghost before = a@;
                    a.remove(0);
                    assert(a@ =~= before.subrange(1, before.len() as int));
                    Object::ARRAY(a)
                } else {
                    Object::NULL
                }
            },
            _ => unsupported(BuiltinFunction::TAIL),
        }
    }

    fn call_push(args: Vec<Object>) -> (r: Object)
        ensures
            args@.len() != 2 ==> r is ERROR && r->ERROR_0@ == arguments_message(2, args@.len()),
            args@.len() == 2 ==> builtin_result(BuiltinFunction::PUSH, args@, r),
    {
        if let Some(e) = Self::handle_expected_number_arguments(2, args.len()) {
            return e;
        }
        let mut args = args;
        let value = args.pop().unwrap();
        match first_arg(args) {
            Object::ARRAY(a) => {
                let mut b = a;
                b.push(value);
                Object::ARRAY(b)
            },
            _ => unsupported(BuiltinFunction::PUSH),
        }
    }

    /// An error when `received` differs from `expected`, else nothing.
    fn handle_expected_number_arguments(expected: usize, received: usize) -> (r: Option<Object>)
        ensures
            expected == received ==> r is None,
            expected != received ==> (r matches Some(e) && e is ERROR && e->ERROR_0@
                == arguments_message(expected as nat, received as nat)),
    {
        if expected == received {
            None
        } else {
            let mut msg = String::new();
            msg.append("Wrong number of arguments. Expected: ");
            write_nat(&mut msg, expected as u64);
            msg.append(" | Got: ");
            write_nat(&mut msg, received as u64);
            proof {
                assert(msg@ =~= arguments_message(expected as nat, received as nat));
            }
            Some(Object::ERROR(msg))
        }
    }
}

} // verus!
