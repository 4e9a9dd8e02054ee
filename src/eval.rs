use vstd::prelude::*;

use crate::parser::{exprs_view, Expr, ExprV};
use crate::text::{decimal, decimal_digits};

verus! {

/// The built-in functions. A function value is a handle to one of them.
#[derive(Clone, Copy, Debug, PartialEq, Eq, Structural)]
pub enum Builtin {
    /// Sums its integer arguments.
    Add,
}

/// A run-time value.
#[derive(Clone, Copy, Debug, PartialEq, Eq, Structural)]
pub enum Value {
    Int(u64),
    Func(Builtin),
}

/// The error for a symbol that names no built-in.
pub open spec fn undefined_msg(name: Seq<char>) -> Seq<char> {
    "undefined symbol: "@ + name
}

/// The error for evaluating `()`.
pub open spec fn empty_call_msg() -> Seq<char> {
    "empty function call"@
}

/// The error for calling a value that is not a function.
pub open spec fn expected_fn_msg() -> Seq<char> {
    "expected a function"@
}

/// The error for a function value where an integer is needed.
pub open spec fn expected_int_msg() -> Seq<char> {
    "expected an int"@
}

/// The error for a sum that does not fit in a `u64`.
pub open spec fn overflow_msg() -> Seq<char> {
    "integer overflow"@
}

/// The table of built-ins: the function that `name` is bound to, if any.
pub open spec fn builtin_named(name: Seq<char>) -> Option<Builtin> {
    if name == "+"@ {
        Some(Builtin::Add)
    } else {
        None
    }
}

/// `acc` plus the integers of `args`, taken from left to right; the first
/// argument that is a function, or the first sum that overflows, is an error.
pub open spec fn add_all(args: Seq<Value>, acc: u64) -> Result<Value, Seq<char>>
    decreases args.len(),
{
    if args.len() == 0 {
        Ok(Value::Int(acc))
    } else {
        match args[0] {
            Value::Func(_) => Err(expected_int_msg()),
            Value::Int(n) => if acc + n > u64::MAX {
                Err(overflow_msg())
            } else {
                add_all(args.drop_first(), (acc + n) as u64)
            },
        }
    }
}

/// The result of calling the built-in `f` on `args`.
pub open spec fn apply(f: Builtin, args: Seq<Value>) -> Result<Value, Seq<char>> {
    match f {
        Builtin::Add => add_all(args, 0),
    }
}

/// The value of an expression tree.
pub open spec fn eval(e: ExprV) -> Result<Value, Seq<char>>
    decreases e,
{
    match e {
        ExprV::Id(name) => match builtin_named(name) {
            Some(f) => Ok(Value::Func(f)),
            None => Err(undefined_msg(name)),
        },
        ExprV::Num(n) => Ok(Value::Int(n)),
        ExprV::List(l) => if l.len() == 0 {
            Err(empty_call_msg())
        } else {
            match eval(l[0]) {
                Err(m) => Err(m),
                Ok(Value::Int(_)) => Err(expected_fn_msg()),
                Ok(Value::Func(b)) => match eval_seq(l.drop_first()) {
                    Err(m) => Err(m),
                    Ok(args) => apply(b, args),
                },
            }
        },
    }
}

/// The values of a sequence of trees, evaluated from left to right; the first
/// error ends the evaluation.
pub open spec fn eval_seq(l: Seq<ExprV>) -> Result<Seq<Value>, Seq<char>>
    decreases l,
{
    if l.len() == 0 {
        Ok(seq![])
    } else {
        match eval_seq(l.drop_last()) {
            Err(m) => Err(m),
            Ok(vs) => match eval(l.last()) {
                Err(m) => Err(m),
                Ok(v) => Ok(vs.push(v)),
            },
        }
    }
}

/// The model of the result of an evaluation.
pub open spec fn result_view(r: Result<Value, String>) -> Result<Value, Seq<char>> {
    match r {
        Ok(v) => Ok(v),
        Err(m) => Err(m@),
    }
}

/// Looks `name` up in the table of built-ins.
pub fn lookup(name: &String) -> (r: Option<Builtin>)
    ensures
        r == builtin_named(name@),
{
    if *name == String::from_str("+") {
        Some(Builtin::Add)
    } else {
        None
    }
}

impl Builtin {
    /// Calls the built-in on `args`.
    pub fn call(&self, args: Vec<Value>) -> (r: Result<Value, String>)
        ensures
            result_view(r) == apply(*self, args@),
    {
        match self {
            Builtin::Add => {
                let mut acc: u64 = 0;
                let mut i: usize = 0;
                assert(args@.skip(0) =~= args@);
                while i < args.len()
                    invariant
                        i <= args.len(),
                        add_all(args@, 0) == add_all(args@.skip(i as int), acc),
                    decreases args.len() - i,
                {
                    assert(args@.skip(i as int).drop_first() =~= args@.skip(i + 1));
                    let num = match args[i].get_int() {
                        Ok(n) => n,
                        Err(m) => return Err(m),
                    };
                    acc = match acc.checked_add(num) {
                        Some(sum) => sum,
                        None => return Err(String::from_str("integer overflow")),
                    };
                    i = i + 1;
                }
                Ok(Value::Int(acc))
            },
        }
    }
}

impl Value {
    /// The integer that the value holds, or an error for a function.
    pub fn get_int(&self) -> (r: Result<u64, String>)
        ensures
            match *self {
                Value::Int(n) => r == Ok::<u64, String>(n),
                Value::Func(_) => r is Err && r->Err_0@ == expected_int_msg(),
            },
    {
        match self {
            Value::Int(n) => Ok(*n),
            Value::Func(_) => Err(String::from_str("expected an int")),
        }
    }

    /// The function that the value holds, or an error for an integer.
    pub fn get_fn(&self) -> (r: Result<Builtin, String>)
        ensures
            match *self {
                Value::Func(f) => r == Ok::<Builtin, String>(f),
                Value::Int(_) => r is Err && r->Err_0@ == expected_fn_msg(),
            },
    {
        match self {
            Value::Int(_) => Err(String::from_str("expected a function")),
            Value::Func(f) => Ok(*f),
        }
    }

    /// The value as text: an integer in decimal, a function as `<func>`.
    pub fn to_string(&self) -> (r: String)
        ensures
            r@ == match *self {
                Value::Int(n) => decimal_digits(n as nat),
                Value::Func(_) => "<func>"@,
            },
    {
        match self {
            Value::Int(n) => decimal(*n),
            Value::Func(_) => String::from_str("<func>"),
        }
    }
}

proof fn lemma_exprs_view_index(v: Seq<Expr>)
    ensures
        exprs_view(v).len() == v.len(),
        forall|i: int| 0 <= i < v.len() ==> #[trigger] exprs_view(v)[i] == v[i]@,
    decreases v.len(),
{
    if v.len() > 0 {
        lemma_exprs_view_index(v.drop_last());
        assert forall|i: int| 0 <= i < v.len() implies #[trigger] exprs_view(v)[i] == v[i]@ by {
            if i < v.len() - 1 {
                assert(v.drop_last()[i] == v[i]);
            }
        }
    }
}

/// An error in evaluating a prefix of `l` is the error of evaluating all of `l`.
proof fn lemma_eval_seq_prefix_err(l: Seq<ExprV>, k: int)
    requires
        0 <= k <= l.len(),
        eval_seq(l.take(k)) is Err,
    ensures
        eval_seq(l) == eval_seq(l.take(k)),
    decreases l.len() - k,
{
    if k < l.len() {
        assert(l.take(k + 1).drop_last() =~= l.take(k));
        lemma_eval_seq_prefix_err(l, k + 1);
    } else {
        assert(l.take(k) =~= l);
    }
}

/// Evaluates an expression tree.
pub fn interpret(expr: &Expr) -> (r: Result<Value, String>)
    ensures
        result_view(r) == eval(expr@),
    decreases expr,
{
    match expr {
        Expr::Id(n) => match lookup(n) {
            Some(f) => Ok(Value::Func(f)),
            None => {
                let mut m = String::from_str("undefined symbol: ");
                m.append(n.as_str());
                Err(m)
            },
        },
        Expr::Num(n) => Ok(Value::Int(*n)),
        Expr::List(l) => {
            if l.len() == 0 {
                return Err(String::from_str("empty function call"));
            }
            let ghost ls = exprs_view(l@);
            let ghost args_v = ls.drop_first();
            proof {
                lemma_exprs_view_index(l@);
            }
            let fun_value = match interpret(&l[0]) {
                Ok(v) => v,
                Err(m) => return Err(m),
            };
            let fun = match fun_value.get_fn() {
                Ok(f) => f,
                Err(m) => return Err(m),
            };
            let mut args_value: Vec<Value> = Vec::new();
            let mut i: usize = 1;
            while i < l.len()
                invariant
                    1 <= i <= l.len(),
                    *expr == Expr::List(*l),
                    ls == exprs_view(l@),
                    eval(ls[0]) == Ok::<Value, Seq<char>>(Value::Func(fun)),
                    args_v == ls.drop_first(),
                    ls.len() == l.len(),
                    forall|j: int| 0 <= j < l.len() ==> #[trigger] ls[j] == l@[j]@,
                    eval_seq(args_v.take(i - 1)) == Ok::<Seq<Value>, Seq<char>>(args_value@),
                decreases l.len() - i,
            {
                proof {
                    assert(decreases_to!(*l => l@[i as int]));
                }
                let arg_value = interpret(&l[i]);
                proof {
                    assert(args_v.take(i as int).drop_last() =~= args_v.take(i - 1));
                    assert(args_v.take(i as int).last() == l@[i as int]@);
                }
                match arg_value {
                    Ok(v) => args_value.push(v),
                    Err(m) => {
                        proof {
                            assert(eval_seq(args_v.take(i as int)) is Err);
                            lemma_eval_seq_prefix_err(args_v, i as int);
                        }
                        return Err(m);
                    },
                }
                i = i + 1;
            }
            proof {
                assert(args_v.take(i - 1) =~= args_v);
            }
            fun.call(args_value)
        },
    }
}

/// Evaluation is pure: two evaluations of the same tree give equal results.
pub proof fn lemma_interpret_is_pure(
    e: Expr,
    r1: Result<Value, String>,
    r2: Result<Value, String>,
)
    requires
        result_view(r1) == eval(e@),
        result_view(r2) == eval(e@),
    ensures
        result_view(r1) == result_view(r2),
        r1 is Ok ==> r2 == r1,
{
}

} // verus!
