use vstd::prelude::*;
use crate::error::LispError;
use crate::lexer::{lex, tokenize};
use crate::literal::{is_float_literal, is_number_literal};

verus! {

/// A node of the syntax tree.
#[derive(Debug, PartialEq)]
pub enum Expression {
    /// A numeric literal, kept as written; it denotes what `f64::from_str` reads from it.
    Num(String),
    Bool(bool),
    /// Any other atom.
    String(String),
    /// A list of expressions; the parser never builds one.
    List(Vec<Expression>),
    /// A call of the named operation on the argument expressions.
    Func(String, Vec<Expression>),
}

/// The mathematical shape of an [`Expression`].
pub enum Tree {
    Num(Seq<char>),
    Bool(bool),
    Text(Seq<char>),
    List(Seq<Tree>),
    Call(Seq<char>, Seq<Tree>),
}

pub open spec fn tree(e: Expression) -> Tree
    decreases e,
{
    match e {
        Expression::Num(s) => Tree::Num(s@),
        Expression::Bool(b) => Tree::Bool(b),
        Expression::String(s) => Tree::Text(s@),
        Expression::List(l) => Tree::List(trees(l@)),
        Expression::Func(name, args) => Tree::Call(name@, trees(args@)),
    }
}

pub open spec fn trees(s: Seq<Expression>) -> Seq<Tree>
    decreases s,
{
    if s.len() == 0 {
        seq![]
    } else {
        trees(s.drop_last()).push(tree(s.last()))
    }
}

pub open spec fn open_paren() -> Seq<char> {
    seq!['(']
}

pub open spec fn close_paren() -> Seq<char> {
    seq![')']
}

/// The literal an atom stands for: a number if it reads as one, else a boolean
/// if it is `true` or `false`, else text.
pub open spec fn atom_tree(tok: Seq<char>) -> Tree {
    if is_float_literal(tok) {
        Tree::Num(tok)
    } else if tok == seq!['t', 'r', 'u', 'e'] {
        Tree::Bool(true)
    } else if tok == seq!['f', 'a', 'l', 's', 'e'] {
        Tree::Bool(false)
    } else {
        Tree::Text(tok)
    }
}

/// Reads the group whose name stands at `i` (its `(` just before): the call it
/// forms and the position after its `)`.
pub open spec fn read_group(toks: Seq<Seq<char>>, i: int) -> Result<(Tree, int), LispError>
    decreases toks.len() - i, 1int,
{
    if i < 0 || i >= toks.len() {
        Err(LispError::UnterminatedGroup)
    } else {
        read_args(toks, i + 1, toks[i], seq![])
    }
}

/// Reads the arguments of the call `name` from `i` on, `acc` being those read so far.
pub open spec fn read_args(toks: Seq<Seq<char>>, i: int, name: Seq<char>, acc: Seq<Tree>) -> Result<
    (Tree, int),
    LispError,
>
    decreases toks.len() - i, 0int,
{
    if i < 0 || i >= toks.len() {
        Err(LispError::UnterminatedGroup)
    } else if toks[i] == open_paren() {
        match read_group(toks, i + 1) {
            Err(e) => Err(e),
            Ok((t, j)) => if i < j && j <= toks.len() {
                read_args(toks, j, name, acc.push(t))
            } else {
                Err(LispError::UnterminatedGroup)
            },
        }
    } else if toks[i] == close_paren() {
        Ok((Tree::Call(name, acc), i + 1))
    } else {
        read_args(toks, i + 1, name, acc.push(atom_tree(toks[i])))
    }
}

/// Reads the top-level groups from `i` on; other top-level tokens are skipped.
pub open spec fn read_forest(toks: Seq<Seq<char>>, i: int, acc: Seq<Tree>) -> Result<
    Seq<Tree>,
    LispError,
>
    decreases toks.len() - i,
{
    if i < 0 || i >= toks.len() {
        Ok(acc)
    } else if toks[i] == open_paren() {
        match read_group(toks, i + 1) {
            Err(e) => Err(e),
            Ok((t, j)) => if i < j && j <= toks.len() {
                read_forest(toks, j, acc.push(t))
            } else {
                Err(LispError::UnterminatedGroup)
            },
        }
    } else {
        read_forest(toks, i + 1, acc)
    }
}

/// The expressions that the source text `s` holds.
pub open spec fn parse_spec(s: Seq<char>) -> Result<Seq<Tree>, LispError> {
    read_forest(lex(s), 0, seq![])
}

pub open spec fn token_view(tokens: Seq<String>) -> Seq<Seq<char>> {
    tokens.map_values(|t: String| t@)
}

proof fn lemma_trees_push(s: Seq<Expression>, e: Expression)
    ensures
        trees(s.push(e)) == trees(s).push(tree(e)),
{
    assert(s.push(e).drop_last() =~= s);
}

/// Whether `t` is exactly the one character `c`.
fn is_char_token(t: &String, c: char) -> (r: bool)
    ensures
        r == (t@ == seq![c]),
{
    let s = t.as_str();
    if s.unicode_len() != 1 {
        return false;
    }
    let d = s.get_char(0);
    if d == c {
        assert(t@ =~= seq![c]);
    }
    d == c
}

/// Whether `t` and `w` hold the same characters.
fn same_text(t: &str, w: &str) -> (r: bool)
    ensures
        r == (t@ == w@),
{
    let n = t.unicode_len();
    if n != w.unicode_len() {
        return false;
    }
    let mut i: usize = 0;
    while i < n
        invariant
            n == t@.len() == w@.len(),
            i <= n,
            forall|k: int| 0 <= k < i ==> t@[k] == w@[k],
        decreases n - i,
    {
        if t.get_char(i) != w.get_char(i) {
            return false;
        }
        i = i + 1;
    }
    assert(t@ =~= w@);
    true
}

/// Classifies an atom as a number, a boolean or text.
fn read_atom(tok: &String) -> (e: Expression)
    ensures
        tree(e) == atom_tree(tok@),
{
    proof {
        reveal_strlit("true");
        reveal_strlit("false");
        assert("true"@ =~= seq!['t', 'r', 'u', 'e']);
        assert("false"@ =~= seq!['f', 'a', 'l', 's', 'e']);
    }
    if is_number_literal(tok.as_str()) {
        Expression::Num(tok.clone())
    } else if same_text(tok.as_str(), "true") {
        Expression::Bool(true)
    } else if same_text(tok.as_str(), "false") {
        Expression::Bool(false)
    } else {
        Expression::String(tok.clone())
    }
}

/// Reads the group whose name token stands at `pos`, the `(` that opened it
/// having been consumed; returns the call and the position after its `)`.
fn read_expression(tokens: &Vec<String>, pos: usize) -> (r: Result<(Expression, usize), LispError>)
    ensures
        match (r, read_group(token_view(tokens@), pos as int)) {
            (Ok((e, j)), Ok((t, k))) => tree(e) == t && j == k && pos < j <= tokens@.len(),
            (Err(e), Err(f)) => e == f,
            _ => false,
        },
    decreases tokens@.len() - pos,
{
    let ghost toks = token_view(tokens@);
    if pos >= tokens.len() {
        return Err(LispError::UnterminatedGroup);
    }
    let name = tokens[pos].clone();
    let mut elements: Vec<Expression> = Vec::new();
    let mut i: usize = pos + 1;
    assert(trees(elements@) =~= seq![]);
    while i < tokens.len()
        invariant
            toks == token_view(tokens@),
            pos < i <= tokens@.len(),
            name@ == toks[pos as int],
            read_group(toks, pos as int) == read_args(toks, i as int, name@, trees(elements@)),
        decreases tokens@.len() - i,
    {
        let t = &tokens[i];
        assert(toks[i as int] == t@);
        if is_char_token(t, '(') {
            match read_expression(tokens, i + 1) {
                Err(e) => {
                    return Err(e);
                },
                Ok((e, j)) => {
                    proof {
                        lemma_trees_push(elements@, e);
                    }
                    elements.push(e);
                    i = j;
                },
            }
        } else if is_char_token(t, ')') {
            return Ok((Expression::Func(name, elements), i + 1));
        } else {
            let a = read_atom(t);
            proof {
                lemma_trees_push(elements@, a);
            }
            elements.push(a);
            i = i + 1;
        }
    }
    Err(LispError::UnterminatedGroup)
}

/// Tokenizes and parses `code` into its top-level expressions, in order.
pub fn parse(code: String) -> (r: Result<Vec<Expression>, LispError>)
    ensures
        match (r, parse_spec(code@)) {
            (Ok(es), Ok(ts)) => trees(es@) == ts,
            (Err(e), Err(f)) => e == f,
            _ => false,
        },
{
    let tokens = tokenize(code);
    let ghost toks = token_view(tokens@);
    let mut expressions: Vec<Expression> = Vec::new();
    let mut i: usize = 0;
    assert(trees(expressions@) =~= seq![]);
    while i < tokens.len()
        invariant
            toks == token_view(tokens@),
            toks == lex(code@),
            i <= tokens@.len(),
            parse_spec(code@) == read_forest(toks, i as int, trees(expressions@)),
        decreases tokens@.len() - i,
    {
        let t = &tokens[i];
        assert(toks[i as int] == t@);
        if is_char_token(t, '(') {
            match read_expression(&tokens, i + 1) {
                Err(e) => {
                    return Err(e);
                },
                Ok((e, j)) => {
                    proof {
                        lemma_trees_push(expressions@, e);
                    }
                    expressions.push(e);
                    i = j;
                },
            }
        } else {
            i = i + 1;
        }
    }
    Ok(expressions)
}

} // verus!
