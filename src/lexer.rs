use vstd::prelude::*;

verus! {

/// The characters that `char::is_whitespace` accepts (Unicode `White_Space`).
pub open spec fn is_space(c: char) -> bool {
    ('\u{9}' <= c && c <= '\u{d}') || c == ' ' || c == '\u{85}' || c == '\u{a0}'
        || c == '\u{1680}' || ('\u{2000}' <= c && c <= '\u{200a}') || c == '\u{2028}'
        || c == '\u{2029}' || c == '\u{202f}' || c == '\u{205f}' || c == '\u{3000}'
}

pub open spec fn is_paren(c: char) -> bool {
    c == '(' || c == ')'
}

/// A character that may stand inside an atom.
pub open spec fn is_atom_char(c: char) -> bool {
    !is_space(c) && !is_paren(c)
}

/// Length of the longest prefix of `s` made of atom characters.
pub open spec fn atom_len(s: Seq<char>) -> nat
    decreases s.len(),
{
    if s.len() > 0 && is_atom_char(s[0]) {
        1 + atom_len(s.drop_first())
    } else {
        0
    }
}

/// The tokens of `s`, left to right: every parenthesis alone, every maximal run
/// of other non-space characters as one atom; spaces only separate.
pub open spec fn lex(s: Seq<char>) -> Seq<Seq<char>>
    decreases s.len(),
{
    if s.len() == 0 {
        seq![]
    } else if is_space(s[0]) {
        lex(s.drop_first())
    } else if is_paren(s[0]) {
        seq![seq![s[0]]] + lex(s.drop_first())
    } else {
        let n = atom_len(s);
        if 0 < n <= s.len() {
            seq![s.take(n as int)] + lex(s.skip(n as int))
        } else {
            seq![]
        }
    }
}

proof fn lemma_atom_len(s: Seq<char>, k: int)
    requires
        0 <= k <= s.len(),
        forall|j: int| 0 <= j < k ==> is_atom_char(#[trigger] s[j]),
        k == s.len() || !is_atom_char(s[k]),
    ensures
        atom_len(s) == k,
    decreases k,
{
    if k > 0 {
        let t = s.drop_first();
        assert forall|j: int| 0 <= j < k - 1 implies is_atom_char(#[trigger] t[j]) by {
            assert(t[j] == s[j + 1]);
        }
        if k - 1 < t.len() {
            assert(t[k - 1] == s[k]);
        }
        lemma_atom_len(t, k - 1);
    }
}

fn atom_char(c: char) -> (r: bool)
    ensures
        r == is_atom_char(c),
{
    !space(c) && c != '(' && c != ')'
}

fn space(c: char) -> (r: bool)
    ensures
        r == is_space(c),
{
    ('\u{9}' <= c && c <= '\u{d}') || c == ' ' || c == '\u{85}' || c == '\u{a0}'
        || c == '\u{1680}' || ('\u{2000}' <= c && c <= '\u{200a}') || c == '\u{2028}'
        || c == '\u{2029}' || c == '\u{202f}' || c == '\u{205f}' || c == '\u{3000}'
}

/// Splits `code` into tokens: `(` and `)` always stand alone, whatever surrounds
/// them, and whitespace separates atoms.
pub fn tokenize(code: String) -> (tokens: Vec<String>)
    ensures
        tokens@.map_values(|t: String| t@) == lex(code@),
{
    let src = code.as_str();
    let n = src.unicode_len();
    let mut tokens: Vec<String> = Vec::new();
    let mut i: usize = 0;
    assert(code@.skip(0) =~= code@);
    assert(tokens@.map_values(|t: String| t@) + lex(code@) =~= lex(code@));
    while i < n
        invariant
            n == code@.len(),
            src@ == code@,
            i <= n,
            tokens@.map_values(|t: String| t@) + lex(code@.skip(i as int)) == lex(code@),
        decreases n - i,
    {
        let ghost rest = code@.skip(i as int);
        let ghost before = tokens@.map_values(|t: String| t@);
        let c = src.get_char(i);
        assert(rest[0] == c);
        if space(c) {
            assert(rest.drop_first() =~= code@.skip(i + 1));
            i = i + 1;
        } else if c == '(' || c == ')' {
            assert(rest.drop_first() =~= code@.skip(i + 1));
            let t = src.substring_char(i, i + 1).to_owned();
            assert(t@ =~= seq![rest[0]]);
            tokens.push(t);
            i = i + 1;
            assert(tokens@.map_values(|t: String| t@) =~= before.push(t@));
            assert(before.push(t@) + lex(code@.skip(i as int)) =~= before + (seq![t@] + lex(
                code@.skip(i as int),
            )));
        } else {
            let mut j: usize = i + 1;
            while j < n && atom_char(src.get_char(j))
                invariant
                    src@ == code@,
                    n == code@.len(),
                    i < j <= n,
                    is_atom_char(code@[i as int]),
                    forall|k: int| i <= k < j ==> is_atom_char(#[trigger] code@[k]),
                decreases n - j,
            {
                j = j + 1;
            }
            proof {
                assert forall|k: int| 0 <= k < j - i implies is_atom_char(#[trigger] rest[k]) by {
                    assert(rest[k] == code@[i + k]);
                }
                if j < n {
                    assert(rest[j - i] == code@[j as int]);
                }
                lemma_atom_len(rest, j - i);
                assert(rest.skip(j - i) =~= code@.skip(j as int));
            }
            let t = src.substring_char(i, j).to_owned();
            assert(t@ =~= rest.take(j - i));
            tokens.push(t);
            i = j;
            assert(tokens@.map_values(|t: String| t@) =~= before.push(t@));
            assert(before.push(t@) + lex(code@.skip(i as int)) =~= before + (seq![t@] + lex(
                code@.skip(i as int),
            )));
        }
    }
    assert(code@.skip(n as int) =~= Seq::<char>::empty());
    assert(tokens@.map_values(|t: String| t@) + lex(code@.skip(n as int)) =~= tokens@.map_values(
        |t: String| t@,
    ));
    tokens
}

} // verus!
