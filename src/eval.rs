use vstd::prelude::*;
use crate::error::LispError;
use crate::syntax::{parse, parse_spec, trees, Expression};

verus! {

/// The built-in operations.
#[derive(Clone, Copy, Debug, PartialEq, Eq, Structural)]
pub enum Operation {
    Add,
    Multiply,
    Subtract,
    Divide,
    Less,
    Greater,
}

/// A number as the arithmetic that yields it: the literals it was computed
/// from and the floating-point operations applied to them, in order.
#[derive(Debug, PartialEq)]
pub enum Number {
    /// What `f64::from_str` reads from the text.
    Literal(String),
    /// `0.0`, the empty sum.
    Zero,
    /// `1.0`, the empty product.
    One,
    Add(Box<Number>, Box<Number>),
    Sub(Box<Number>, Box<Number>),
    Mul(Box<Number>, Box<Number>),
    Div(Box<Number>, Box<Number>),
    Neg(Box<Number>),
}

/// A truth value as the comparison that yields it.
#[derive(Debug, PartialEq)]
pub enum Truth {
    Literal(bool),
    /// The left number is less than the right one.
    Less(Box<Number>, Box<Number>),
    /// The left number is greater than the right one.
    Greater(Box<Number>, Box<Number>),
}

/// A fully reduced result: an expression that holds no call.
#[derive(Debug, PartialEq)]
pub enum Value {
    Num(Number),
    Bool(Truth),
    String(String),
    List(Vec<Expression>),
}

/// The name-keyed table of operations that calls are dispatched through.
pub struct Environment {
    entries: Vec<(String, Operation)>,
}

/// The first operation that `table` lists under `name`.
pub open spec fn find(table: Seq<(Seq<char>, Operation)>, name: Seq<char>) -> Option<Operation>
    decreases table.len(),
{
    if table.len() == 0 {
        None
    } else if table[0].0 == name {
        Some(table[0].1)
    } else {
        find(table.drop_first(), name)
    }
}

/// The built-in table: `+`, `*`, `-`, `/`, `<` and `>`.
pub open spec fn builtins() -> Seq<(Seq<char>, Operation)> {
    seq![
        (seq!['+'], Operation::Add),
        (seq!['*'], Operation::Multiply),
        (seq!['-'], Operation::Subtract),
        (seq!['/'], Operation::Divide),
        (seq!['<'], Operation::Less),
        (seq!['>'], Operation::Greater),
    ]
}

impl Environment {
    pub closed spec fn table(&self) -> Seq<(Seq<char>, Operation)> {
        self.entries@.map_values(|p: (String, Operation)| (p.0@, p.1))
    }

    /// The operation that `name` is bound to, if any.
    pub fn lookup(&self, name: &String) -> (r: Option<Operation>)
        ensures
            r == find(self.table(), name@),
    {
        let mut i: usize = 0;
        assert(self.table().skip(0) =~= self.table());
        while i < self.entries.len()
            invariant
                i <= self.entries@.len(),
                find(self.table(), name@) == find(self.table().skip(i as int), name@),
            decreases self.entries@.len() - i,
        {
            let ghost rest = self.table().skip(i as int);
            assert(rest[0] == self.table()[i as int]);
            assert(rest.drop_first() =~= self.table().skip(i + 1));
            if self.entries[i].0 == *name {
                return Some(self.entries[i].1);
            }
            i = i + 1;
        }
        None
    }
}

impl Default for Environment {
    /// The environment that holds exactly the built-in operations.
    fn default() -> (r: Environment)
        ensures
            r.table() == builtins(),
    {
        let entries = vec![
            (String::from_str("+"), Operation::Add),
            (String::from_str("*"), Operation::Multiply),
            (String::from_str("-"), Operation::Subtract),
            (String::from_str("/"), Operation::Divide),
            (String::from_str("<"), Operation::Less),
            (String::from_str(">"), Operation::Greater),
        ];
        proof {
            reveal_strlit("+");
            assert("+"@ =~= seq!['+']);
            reveal_strlit("*");
            assert("*"@ =~= seq!['*']);
            reveal_strlit("-");
            assert("-"@ =~= seq!['-']);
            reveal_strlit("/");
            assert("/"@ =~= seq!['/']);
            reveal_strlit("<");
            assert("<"@ =~= seq!['<']);
            reveal_strlit(">");
            assert(">"@ =~= seq!['>']);
        }
        let r = Environment { entries };
        assert(r.table() =~= builtins());
        r
    }
}

/// Whether `op` accepts `n` arguments.
pub open spec fn arity_ok(op: Operation, n: nat) -> bool {
    match op {
        Operation::Add | Operation::Multiply => true,
        Operation::Subtract | Operation::Divide => n >= 1,
        Operation::Less | Operation::Greater => n == 2,
    }
}

/// One step of the left fold of an arithmetic operation.
pub open spec fn node(op: Operation, a: Number, b: Number) -> Number {
    match op {
        Operation::Multiply => Number::Mul(Box::new(a), Box::new(b)),
        Operation::Subtract => Number::Sub(Box::new(a), Box::new(b)),
        Operation::Divide => Number::Div(Box::new(a), Box::new(b)),
        _ => Number::Add(Box::new(a), Box::new(b)),
    }
}

/// `init` combined with each of `ns` in turn, left to right.
pub open spec fn fold(op: Operation, init: Number, ns: Seq<Number>) -> Number
    decreases ns.len(),
{
    if ns.len() == 0 {
        init
    } else {
        node(op, fold(op, init, ns.drop_last()), ns.last())
    }
}

/// What `op` yields on the numbers its arguments evaluated to.
pub open spec fn combine(op: Operation, ns: Seq<Number>) -> Value {
    match op {
        Operation::Add => Value::Num(fold(op, Number::Zero, ns)),
        Operation::Multiply => Value::Num(fold(op, Number::One, ns)),
        Operation::Subtract => if ns.len() == 1 {
            Value::Num(Number::Neg(Box::new(ns[0])))
        } else {
            Value::Num(fold(op, ns[0], ns.drop_first()))
        },
        Operation::Divide => Value::Num(fold(op, ns[0], ns.drop_first())),
        Operation::Less => Value::Bool(Truth::Less(Box::new(ns[0]), Box::new(ns[1]))),
        Operation::Greater => Value::Bool(Truth::Greater(Box::new(ns[0]), Box::new(ns[1]))),
    }
}

/// The result of evaluating `e` against `table`.
pub open spec fn eval(e: Expression, table: Seq<(Seq<char>, Operation)>) -> Result<Value, LispError>
    decreases e, 0int,
{
    match e {
        Expression::Num(s) => Ok(Value::Num(Number::Literal(s))),
        Expression::Bool(b) => Ok(Value::Bool(Truth::Literal(b))),
        Expression::String(s) => Ok(Value::String(s)),
        Expression::List(l) => Ok(Value::List(l)),
        Expression::Func(name, args) => match find(table, name@) {
            None => Err(LispError::UnknownOperation(name)),
            Some(op) => if !arity_ok(op, args@.len()) {
                Err(LispError::ArityMismatch)
            } else {
                match numbers(args@, 0, table) {
                    Err(err) => Err(err),
                    Ok(ns) => Ok(combine(op, ns)),
                }
            },
        },
    }
}

/// Evaluates `args` from `i` on, left to right, stopping at the first error;
/// each must yield a number.
pub open spec fn numbers(args: Seq<Expression>, i: int, table: Seq<(Seq<char>, Operation)>) -> Result<
    Seq<Number>,
    LispError,
>
    decreases args, args.len() - i,
{
    if i < 0 || i >= args.len() {
        Ok(seq![])
    } else {
        match eval(args[i], table) {
            Err(err) => Err(err),
            Ok(Value::Num(n)) => match numbers(args, i + 1, table) {
                Err(err) => Err(err),
                Ok(ns) => Ok(seq![n] + ns),
            },
            Ok(_) => Err(LispError::TypeMismatch),
        }
    }
}

/// `numbers` from `i` on, put behind the numbers `done` already read.
pub open spec fn after(done: Seq<Number>, rest: Result<Seq<Number>, LispError>) -> Result<
    Seq<Number>,
    LispError,
> {
    match rest {
        Ok(ns) => Ok(done + ns),
        Err(err) => Err(err),
    }
}

fn make_node(op: Operation, a: Number, b: Number) -> (r: Number)
    ensures
        r == node(op, a, b),
{
    match op {
        Operation::Multiply => Number::Mul(Box::new(a), Box::new(b)),
        Operation::Subtract => Number::Sub(Box::new(a), Box::new(b)),
        Operation::Divide => Number::Div(Box::new(a), Box::new(b)),
        _ => Number::Add(Box::new(a), Box::new(b)),
    }
}

/// Folds `ns` into `init` with `op`, left to right.
fn fold_numbers(op: Operation, init: Number, ns: Vec<Number>) -> (r: Number)
    ensures
        r == fold(op, init, ns@),
{
    let ghost all = ns@;
    let count = ns.len();
    let mut rest = ns;
    let mut acc = init;
    let mut k: usize = 0;
    assert(all.take(0) =~= seq![]);
    assert(all.skip(0) =~= all);
    while rest.len() > 0
        invariant
            k <= all.len(),
            all.len() == count,
            k + rest@.len() == all.len(),
            rest@ == all.skip(k as int),
            acc == fold(op, init, all.take(k as int)),
        decreases rest@.len(),
    {
        let n = rest.remove(0);
        assert(n == all[k as int]);
        assert(all.take(k + 1).drop_last() =~= all.take(k as int));
        acc = make_node(op, acc, n);
        k = k + 1;
        assert(rest@ =~= all.skip(k as int));
    }
    assert(all.take(k as int) =~= all);
    acc
}

/// Evaluates each of `args`, left to right, into the number it must yield.
fn eval_numbers(args: Vec<Expression>, env: &Environment) -> (r: Result<Vec<Number>, LispError>)
    ensures
        match r {
            Ok(ns) => numbers(args@, 0, env.table()) == Ok::<Seq<Number>, LispError>(ns@),
            Err(err) => numbers(args@, 0, env.table()) == Err::<Seq<Number>, LispError>(err),
        },
    decreases args, 1int,
{
    let ghost all = args;
    let count = args.len();
    let mut rest = args;
    let mut ns: Vec<Number> = Vec::new();
    let mut k: usize = 0;
    assert(all@.skip(0) =~= all@);
    proof {
        if let Ok(x) = numbers(all@, 0, env.table()) {
            assert(seq![] + x =~= x);
        }
    }
    while rest.len() > 0
        invariant
            all == args,
            k <= all@.len(),
            all@.len() == count,
            k + rest@.len() == all@.len(),
            ns@.len() == k,
            rest@ == all@.skip(k as int),
            numbers(all@, 0, env.table()) == after(ns@, numbers(all@, k as int, env.table())),
        decreases rest@.len(),
    {
        let a = rest.remove(0);
        assert(a == all[k as int]);
        assert(decreases_to!(all => all[k as int]));
        assert(decreases_to!(all => a));
        let v = evaluate(a, env);
        match v {
            Err(err) => {
                return Err(err);
            },
            Ok(Value::Num(n)) => {
                proof {
                    match numbers(all@, k + 1, env.table()) {
                        Ok(tail) => {
                            assert(ns@ + (seq![n] + tail) =~= ns@.push(n) + tail);
                        },
                        Err(_) => {},
                    }
                }
                ns.push(n);
                k = k + 1;
                assert(rest@ =~= all@.skip(k as int));
            },
            Ok(_) => {
                assert(numbers(all@, k as int, env.table()) == Err::<Seq<Number>, LispError>(
                    LispError::TypeMismatch,
                ));
                return Err(LispError::TypeMismatch);
            },
        }
    }
    assert(ns@ + seq![] =~= ns@);
    Ok(ns)
}

/// Evaluates `e`: literals and lists stand for themselves; a call is dispatched
/// through `env` to its operation, which evaluates the arguments left to right
/// and stops at the first error.
pub fn evaluate(e: Expression, env: &Environment) -> (r: Result<Value, LispError>)
    ensures
        r == eval(e, env.table()),
    decreases e, 2int,
{
    match e {
        Expression::Num(s) => Ok(Value::Num(Number::Literal(s))),
        Expression::Bool(b) => Ok(Value::Bool(Truth::Literal(b))),
        Expression::String(s) => Ok(Value::String(s)),
        Expression::List(l) => Ok(Value::List(l)),
        Expression::Func(name, args) => {
            let op = match env.lookup(&name) {
                None => {
                    return Err(LispError::UnknownOperation(name));
                },
                Some(op) => op,
            };
            let n = args.len();
            let fits = match op {
                Operation::Add | Operation::Multiply => true,
                Operation::Subtract | Operation::Divide => n >= 1,
                Operation::Less | Operation::Greater => n == 2,
            };
            if !fits {
                return Err(LispError::ArityMismatch);
            }
            let mut ns = match eval_numbers(args, env) {
                Err(err) => {
                    return Err(err);
                },
                Ok(ns) => ns,
            };
            proof {
                lemma_numbers_len(args@, 0, env.table());
            }
            let ghost all = ns@;
            match op {
                Operation::Add => Ok(Value::Num(fold_numbers(op, Number::Zero, ns))),
                Operation::Multiply => Ok(Value::Num(fold_numbers(op, Number::One, ns))),
                Operation::Subtract => {
                    let first = ns.remove(0);
                    if n == 1 {
                        Ok(Value::Num(Number::Neg(Box::new(first))))
                    } else {
                        assert(ns@ =~= all.drop_first());
                        Ok(Value::Num(fold_numbers(op, first, ns)))
                    }
                },
                Operation::Divide => {
                    let first = ns.remove(0);
                    assert(ns@ =~= all.drop_first());
                    Ok(Value::Num(fold_numbers(op, first, ns)))
                },
                Operation::Less => {
                    let a = ns.remove(0);
                    let b = ns.remove(0);
                    Ok(Value::Bool(Truth::Less(Box::new(a), Box::new(b))))
                },
                Operation::Greater => {
                    let a = ns.remove(0);
                    let b = ns.remove(0);
                    Ok(Value::Bool(Truth::Greater(Box::new(a), Box::new(b))))
                },
            }
        },
    }
}

/// Parses `code` and evaluates each top-level expression in turn against the
/// built-in operations; one failing expression does not stop the next.
pub fn run(code: String) -> (r: Result<Vec<Result<Value, LispError>>, LispError>)
    ensures
        match (r, parse_spec(code@)) {
            (Ok(rs), Ok(ts)) => exists|es: Seq<Expression>|
                #![trigger trees(es)]
                trees(es) == ts && rs@.len() == es.len() && forall|i: int|
                    0 <= i < es.len() ==> rs@[i] == eval(#[trigger] es[i], builtins()),
            (Err(e), Err(f)) => e == f,
            _ => false,
        },
{
    let env = Environment::default();
    let mut rest = match parse(code) {
        Err(e) => {
            return Err(e);
        },
        Ok(es) => es,
    };
    let ghost es = rest@;
    let count = rest.len();
    let mut out: Vec<Result<Value, LispError>> = Vec::new();
    let mut k: usize = 0;
    assert(es.skip(0) =~= es);
    while rest.len() > 0
        invariant
            env.table() == builtins(),
            k + rest@.len() == es.len(),
            es.len() == count,
            rest@ == es.skip(k as int),
            out@.len() == k,
            forall|i: int| 0 <= i < k ==> out@[i] == eval(#[trigger] es[i], builtins()),
        decreases rest@.len(),
    {
        let e = rest.remove(0);
        assert(e == es[k as int]);
        let v = evaluate(e, &env);
        out.push(v);
        k = k + 1;
        assert(rest@ =~= es.skip(k as int));
    }
    Ok(out)
}

/// Every argument from `i` on yields one number.
pub proof fn lemma_numbers_len(args: Seq<Expression>, i: int, table: Seq<(Seq<char>, Operation)>)
    requires
        0 <= i <= args.len(),
    ensures
        numbers(args, i, table) matches Ok(ns) ==> ns.len() == args.len() - i,
    decreases args.len() - i,
{
    if i < args.len() {
        lemma_numbers_len(args, i + 1, table);
    }
}

} // verus!
