use vstd::prelude::*;
use crate::error::LispError;
use crate::eval::{builtins, eval, find, fold, lemma_numbers_len, numbers, Number, Operation, Truth, Value};
use crate::syntax::{parse_spec, read_args, read_forest, read_group, tree, trees, Expression, Tree};

verus! {

proof fn lemma_trees_index(s: Seq<Expression>, i: int)
    requires
        0 <= i < s.len(),
    ensures
        trees(s).len() == s.len(),
        trees(s)[i] == tree(s[i]),
    decreases s.len(),
{
    let d = s.drop_last();
    assert(trees(s) == trees(d).push(tree(s.last())));
    if i < s.len() - 1 {
        lemma_trees_index(d, i);
        assert(d[i] == s[i]);
    } else if s.len() > 1 {
        lemma_trees_index(d, 0);
    } else {
        assert(d.len() == 0);
        assert(trees(d) == Seq::<Tree>::empty());
    }
}

proof fn lemma_group_is_call(toks: Seq<Seq<char>>, i: int)
    ensures
        read_group(toks, i) matches Ok((t, _)) ==> t is Call,
        read_group(toks, i) matches Err(e) ==> e == LispError::UnterminatedGroup,
    decreases toks.len() - i, 1int,
{
    if 0 <= i < toks.len() {
        lemma_args_is_call(toks, i + 1, toks[i], seq![]);
    }
}

proof fn lemma_args_is_call(toks: Seq<Seq<char>>, i: int, name: Seq<char>, acc: Seq<Tree>)
    ensures
        read_args(toks, i, name, acc) matches Ok((t, _)) ==> t is Call,
        read_args(toks, i, name, acc) matches Err(e) ==> e == LispError::UnterminatedGroup,
    decreases toks.len() - i, 0int,
{
    if 0 <= i < toks.len() {
        if toks[i] == seq!['('] {
            lemma_group_is_call(toks, i + 1);
            if let Ok((t, j)) = read_group(toks, i + 1) {
                if i < j && j <= toks.len() {
                    lemma_args_is_call(toks, j, name, acc.push(t));
                }
            }
        } else if toks[i] != seq![')'] {
            lemma_args_is_call(toks, i + 1, name, acc.push(crate::syntax::atom_tree(toks[i])));
        }
    }
}

proof fn lemma_forest_calls(toks: Seq<Seq<char>>, i: int, acc: Seq<Tree>)
    requires
        forall|k: int| 0 <= k < acc.len() ==> acc[k] is Call,
    ensures
        read_forest(toks, i, acc) matches Ok(ts) ==> forall|k: int|
            0 <= k < ts.len() ==> ts[k] is Call,
        read_forest(toks, i, acc) matches Err(e) ==> e == LispError::UnterminatedGroup,
    decreases toks.len() - i,
{
    if 0 <= i < toks.len() {
        if toks[i] == seq!['('] {
            lemma_group_is_call(toks, i + 1);
            if let Ok((t, j)) = read_group(toks, i + 1) {
                if i < j && j <= toks.len() {
                    lemma_forest_calls(toks, j, acc.push(t));
                }
            }
        } else {
            lemma_forest_calls(toks, i + 1, acc);
        }
    }
}

proof fn lemma_builtin_names()
    ensures
        find(builtins(), seq!['+']) == Some(Operation::Add),
        find(builtins(), seq!['*']) == Some(Operation::Multiply),
        find(builtins(), seq!['-']) == Some(Operation::Subtract),
        find(builtins(), seq!['/']) == Some(Operation::Divide),
        find(builtins(), seq!['<']) == Some(Operation::Less),
        find(builtins(), seq!['>']) == Some(Operation::Greater),
{
    let b = builtins();
    let b1 = b.drop_first();
    let b2 = b1.drop_first();
    let b3 = b2.drop_first();
    let b4 = b3.drop_first();
    let b5 = b4.drop_first();
    assert(b1[0] == (seq!['*'], Operation::Multiply));
    assert(b2[0] == (seq!['-'], Operation::Subtract));
    assert(b3[0] == (seq!['/'], Operation::Divide));
    assert(b4[0] == (seq!['<'], Operation::Less));
    assert(b5[0] == (seq!['>'], Operation::Greater));
    let names = seq![seq!['+'], seq!['*'], seq!['-'], seq!['/'], seq!['<'], seq!['>']];
    assert forall|p: int, q: int| 0 <= p < q < 6 implies names[p] != names[q] by {
        assert(names[p][0] != names[q][0]);
    }
    assert(find(b5, seq!['>']) == Some(Operation::Greater));
    assert(find(b4, seq!['<']) == Some(Operation::Less));
    assert(find(b4, seq!['>']) == find(b5, seq!['>']));
    assert(find(b3, seq!['/']) == Some(Operation::Divide));
    assert(find(b3, seq!['<']) == find(b4, seq!['<']));
    assert(find(b3, seq!['>']) == find(b4, seq!['>']));
    assert(find(b2, seq!['-']) == Some(Operation::Subtract));
    assert(find(b2, seq!['/']) == find(b3, seq!['/']));
    assert(find(b2, seq!['<']) == find(b3, seq!['<']));
    assert(find(b2, seq!['>']) == find(b3, seq!['>']));
    assert(find(b1, seq!['*']) == Some(Operation::Multiply));
    assert(find(b1, seq!['-']) == find(b2, seq!['-']));
    assert(find(b1, seq!['/']) == find(b2, seq!['/']));
    assert(find(b1, seq!['<']) == find(b2, seq!['<']));
    assert(find(b1, seq!['>']) == find(b2, seq!['>']));
    assert(find(b, seq!['*']) == find(b1, seq!['*']));
    assert(find(b, seq!['-']) == find(b1, seq!['-']));
    assert(find(b, seq!['/']) == find(b1, seq!['/']));
    assert(find(b, seq!['<']) == find(b1, seq!['<']));
    assert(find(b, seq!['>']) == find(b1, seq!['>']));
}

/// Parsing fails in one way only: a group that is opened and never closed.
pub proof fn law_parse_fails_only_unterminated(s: Seq<char>)
    ensures
        parse_spec(s) matches Err(e) ==> e == LispError::UnterminatedGroup,
{
    lemma_forest_calls(crate::lexer::lex(s), 0, seq![]);
}

/// Each expression that parsing yields is a call, and evaluating it leaves a
/// number or a truth value: never a call, nor a list that could hold one.
pub proof fn law_parsed_expressions_reduce(s: Seq<char>, es: Seq<Expression>, i: int, table: Seq<
    (Seq<char>, Operation),
>)
    requires
        parse_spec(s) == Ok::<Seq<Tree>, LispError>(trees(es)),
        0 <= i < es.len(),
    ensures
        eval(es[i], table) matches Ok(v) ==> (v is Num || v is Bool),
{
    lemma_forest_calls(crate::lexer::lex(s), 0, seq![]);
    lemma_trees_index(es, i);
    assert(tree(es[i]) is Call);
}

/// A numeric literal evaluates to itself.
pub proof fn law_literal_evaluates_to_itself(s: String, table: Seq<(Seq<char>, Operation)>)
    ensures
        eval(Expression::Num(s), table) == Ok::<Value, LispError>(Value::Num(Number::Literal(s))),
{
}

/// `+` with no arguments is `0.0`, and `*` with none is `1.0`.
pub proof fn law_empty_sum_and_product(name: String, args: Vec<Expression>)
    requires
        args@.len() == 0,
    ensures
        name@ == seq!['+'] ==> eval(Expression::Func(name, args), builtins()) == Ok::<
            Value,
            LispError,
        >(Value::Num(Number::Zero)),
        name@ == seq!['*'] ==> eval(Expression::Func(name, args), builtins()) == Ok::<
            Value,
            LispError,
        >(Value::Num(Number::One)),
{
    lemma_builtin_names();
}

/// `+` and `*` combine the numbers of their arguments one by one, left to
/// right, starting from `0.0` and `1.0`.
pub proof fn law_sum_and_product_fold_left(name: String, args: Vec<Expression>, ns: Seq<Number>)
    requires
        numbers(args@, 0, builtins()) == Ok::<Seq<Number>, LispError>(ns),
    ensures
        name@ == seq!['+'] ==> eval(Expression::Func(name, args), builtins()) == Ok::<
            Value,
            LispError,
        >(Value::Num(fold(Operation::Add, Number::Zero, ns))),
        name@ == seq!['*'] ==> eval(Expression::Func(name, args), builtins()) == Ok::<
            Value,
            LispError,
        >(Value::Num(fold(Operation::Multiply, Number::One, ns))),
{
    lemma_builtin_names();
}

/// `-` negates its one argument, and subtracts the rest from the first, left
/// to right, when it has more.
pub proof fn law_minus(name: String, args: Vec<Expression>, ns: Seq<Number>)
    requires
        name@ == seq!['-'],
        numbers(args@, 0, builtins()) == Ok::<Seq<Number>, LispError>(ns),
    ensures
        args@.len() == 1 ==> eval(Expression::Func(name, args), builtins()) == Ok::<
            Value,
            LispError,
        >(Value::Num(Number::Neg(Box::new(ns[0])))),
        args@.len() >= 2 ==> eval(Expression::Func(name, args), builtins()) == Ok::<
            Value,
            LispError,
        >(Value::Num(fold(Operation::Subtract, ns[0], ns.drop_first()))),
{
    lemma_builtin_names();
    lemma_numbers_len(args@, 0, builtins());
}

/// `(< a b)` and `(> b a)` compare the same two numbers, each the other way
/// round, whenever both operands evaluate to numbers.
pub proof fn law_less_mirrors_greater(a: Expression, b: Expression, x: Number, y: Number, lt: String, gt: String, ab: Vec<Expression>, ba: Vec<Expression>)
    requires
        lt@ == seq!['<'],
        gt@ == seq!['>'],
        ab@ == seq![a, b],
        ba@ == seq![b, a],
        eval(a, builtins()) == Ok::<Value, LispError>(Value::Num(x)),
        eval(b, builtins()) == Ok::<Value, LispError>(Value::Num(y)),
    ensures
        eval(Expression::Func(lt, ab), builtins()) == Ok::<Value, LispError>(
            Value::Bool(Truth::Less(Box::new(x), Box::new(y))),
        ),
        eval(Expression::Func(gt, ba), builtins()) == Ok::<Value, LispError>(
            Value::Bool(Truth::Greater(Box::new(y), Box::new(x))),
        ),
{
    lemma_builtin_names();
    assert(numbers(ab@, 2, builtins()) == Ok::<Seq<Number>, LispError>(seq![]));
    assert(numbers(ab@, 1, builtins()) == Ok::<Seq<Number>, LispError>(seq![y]));
    assert(seq![x] + seq![y] =~= seq![x, y]);
    assert(seq![y] + seq![x] =~= seq![y, x]);
    assert(seq![y] + seq![] =~= seq![y]);
    assert(seq![x] + seq![] =~= seq![x]);
    assert(numbers(ab@, 0, builtins()) == Ok::<Seq<Number>, LispError>(seq![x, y]));
    assert(numbers(ba@, 2, builtins()) == Ok::<Seq<Number>, LispError>(seq![]));
    assert(numbers(ba@, 1, builtins()) == Ok::<Seq<Number>, LispError>(seq![x]));
    assert(numbers(ba@, 0, builtins()) == Ok::<Seq<Number>, LispError>(seq![y, x]));
}

/// A call of a name that the table does not hold fails with that name.
pub proof fn law_unknown_operation(name: String, args: Vec<Expression>, table: Seq<(Seq<char>, Operation)>)
    requires
        find(table, name@) is None,
    ensures
        eval(Expression::Func(name, args), table) == Err::<Value, LispError>(
            LispError::UnknownOperation(name),
        ),
{
}

} // verus!
