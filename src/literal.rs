use vstd::prelude::*;

verus! {

pub open spec fn is_digit(c: char) -> bool {
    '0' <= c && c <= '9'
}

pub open spec fn is_sign(c: char) -> bool {
    c == '+' || c == '-'
}

pub open spec fn is_exp_mark(c: char) -> bool {
    c == 'e' || c == 'E'
}

/// The upper-case form of the letters that the special float words use.
pub open spec fn upper(c: char) -> char {
    if c == 'a' {
        'A'
    } else if c == 'f' {
        'F'
    } else if c == 'i' {
        'I'
    } else if c == 'n' {
        'N'
    } else if c == 't' {
        'T'
    } else if c == 'y' {
        'Y'
    } else {
        c
    }
}

/// `s` spells the lower-case word `w`, letter case aside.
pub open spec fn spells(s: Seq<char>, w: Seq<char>) -> bool {
    s.len() == w.len() && forall|i: int| 0 <= i < s.len() ==> (s[i] == w[i] || s[i] == upper(w[i]))
}

pub open spec fn is_special(b: Seq<char>) -> bool {
    spells(b, seq!['i', 'n', 'f']) || spells(b, seq!['i', 'n', 'f', 'i', 'n', 'i', 't', 'y'])
        || spells(b, seq!['n', 'a', 'n'])
}

/// Digits with at most one decimal point, and at least one digit.
pub open spec fn is_mantissa(m: Seq<char>) -> bool {
    &&& forall|i: int| 0 <= i < m.len() ==> is_digit(m[i]) || m[i] == '.'
    &&& forall|i: int, j: int| 0 <= i < j < m.len() ==> !(m[i] == '.' && m[j] == '.')
    &&& exists|i: int| 0 <= i < m.len() && is_digit(m[i])
}

/// `x` without its leading sign, if it has one.
pub open spec fn unsigned(x: Seq<char>) -> Seq<char> {
    if x.len() > 0 && is_sign(x[0]) {
        x.drop_first()
    } else {
        x
    }
}

/// One or more digits.
pub open spec fn is_digits(d: Seq<char>) -> bool {
    d.len() > 0 && forall|i: int| 0 <= i < d.len() ==> is_digit(d[i])
}

/// An optional sign followed by one or more digits.
pub open spec fn is_exponent(x: Seq<char>) -> bool {
    is_digits(unsigned(x))
}

pub open spec fn is_decimal(b: Seq<char>) -> bool {
    is_mantissa(b) || exists|k: int|
        0 <= k < b.len() && is_exp_mark(b[k]) && is_mantissa(b.take(k)) && is_exponent(
            b.skip(k + 1),
        )
}

/// The texts that `f64::from_str` accepts: an optional sign, then either a
/// decimal number with an optional exponent, or `inf`, `infinity` or `nan` in
/// any letter case.
pub open spec fn is_float_literal(s: Seq<char>) -> bool {
    is_special(unsigned(s)) || is_decimal(unsigned(s))
}

fn spells_exec(s: &str, lo: usize, hi: usize, w: &str) -> (r: bool)
    requires
        lo <= hi <= s@.len(),
    ensures
        r == spells(s@.subrange(lo as int, hi as int), w@),
{
    let ghost b = s@.subrange(lo as int, hi as int);
    let n = w.unicode_len();
    if hi - lo != n {
        return false;
    }
    let mut i: usize = 0;
    while i < n
        invariant
            n == w@.len(),
            hi - lo == n,
            lo <= hi <= s@.len(),
            b == s@.subrange(lo as int, hi as int),
            i <= n,
            forall|k: int| 0 <= k < i ==> (b[k] == w@[k] || b[k] == upper(w@[k])),
        decreases n - i,
    {
        let c = s.get_char(lo + i);
        let l = w.get_char(i);
        let u = if l == 'a' {
            'A'
        } else if l == 'f' {
            'F'
        } else if l == 'i' {
            'I'
        } else if l == 'n' {
            'N'
        } else if l == 't' {
            'T'
        } else if l == 'y' {
            'Y'
        } else {
            l
        };
        assert(b[i as int] == c);
        if c != l && c != u {
            return false;
        }
        i = i + 1;
    }
    true
}

fn mantissa_exec(s: &str, lo: usize, hi: usize) -> (r: bool)
    requires
        lo <= hi <= s@.len(),
    ensures
        r == is_mantissa(s@.subrange(lo as int, hi as int)),
{
    let ghost m = s@.subrange(lo as int, hi as int);
    let mut i: usize = lo;
    let mut dot: bool = false;
    let mut digit: bool = false;
    while i < hi
        invariant
            lo <= i <= hi <= s@.len(),
            m == s@.subrange(lo as int, hi as int),
            forall|k: int| 0 <= k < i - lo ==> is_digit(m[k]) || m[k] == '.',
            forall|k: int, j: int| 0 <= k < j < i - lo ==> !(m[k] == '.' && m[j] == '.'),
            dot <==> exists|k: int| 0 <= k < i - lo && m[k] == '.',
            digit <==> exists|k: int| 0 <= k < i - lo && is_digit(m[k]),
        decreases hi - i,
    {
        let c = s.get_char(i);
        assert(m[i - lo] == c);
        if c == '.' {
            if dot {
                let ghost k = choose|k: int| 0 <= k < i - lo && m[k] == '.';
                assert(m[k] == '.' && m[i - lo] == '.');
                return false;
            }
            dot = true;
        } else if '0' <= c && c <= '9' {
            digit = true;
        } else {
            return false;
        }
        i = i + 1;
    }
    digit
}

fn exponent_exec(s: &str, lo: usize, hi: usize) -> (r: bool)
    requires
        lo <= hi <= s@.len(),
    ensures
        r == is_exponent(s@.subrange(lo as int, hi as int)),
{
    let ghost x = s@.subrange(lo as int, hi as int);
    let mut start = lo;
    if lo < hi {
        let c = s.get_char(lo);
        assert(x[0] == c);
        if c == '+' || c == '-' {
            start = lo + 1;
        }
    }
    let ghost d = s@.subrange(start as int, hi as int);
    assert(d =~= unsigned(x));
    if start == hi {
        return false;
    }
    let mut i: usize = start;
    while i < hi
        invariant
            start <= i <= hi <= s@.len(),
            d == s@.subrange(start as int, hi as int),
            x == s@.subrange(lo as int, hi as int),
            d == unsigned(x),
            forall|k: int| 0 <= k < i - start ==> is_digit(d[k]),
        decreases hi - i,
    {
        let c = s.get_char(i);
        assert(d[i - start] == c);
        if !('0' <= c && c <= '9') {
            assert(!is_digit(d[i - start]));
            return false;
        }
        i = i + 1;
    }
    true
}

/// Whether `s` is a valid floating-point literal, as `f64::from_str` reads one.
pub fn is_number_literal(s: &str) -> (r: bool)
    ensures
        r == is_float_literal(s@),
{
    let n = s.unicode_len();
    let mut lo: usize = 0;
    if n > 0 {
        let c = s.get_char(0);
        if c == '+' || c == '-' {
            lo = 1;
        }
    }
    let ghost b = s@.subrange(lo as int, n as int);
    assert(b =~= unsigned(s@));
    if spells_exec(s, lo, n, "inf") || spells_exec(s, lo, n, "infinity") || spells_exec(
        s,
        lo,
        n,
        "nan",
    ) {
        proof {
            reveal_strlit("inf");
            reveal_strlit("infinity");
            reveal_strlit("nan");
            assert("inf"@ =~= seq!['i', 'n', 'f']);
            assert("infinity"@ =~= seq!['i', 'n', 'f', 'i', 'n', 'i', 't', 'y']);
            assert("nan"@ =~= seq!['n', 'a', 'n']);
        }
        return true;
    }
    proof {
        reveal_strlit("inf");
        reveal_strlit("infinity");
        reveal_strlit("nan");
        assert("inf"@ =~= seq!['i', 'n', 'f']);
        assert("infinity"@ =~= seq!['i', 'n', 'f', 'i', 'n', 'i', 't', 'y']);
        assert("nan"@ =~= seq!['n', 'a', 'n']);
    }
    // find the first exponent mark
    let mut k: usize = lo;
    while k < n && !(s.get_char(k) == 'e' || s.get_char(k) == 'E')
        invariant
            lo <= k <= n,
            n == s@.len(),
            b == s@.subrange(lo as int, n as int),
            forall|j: int| 0 <= j < k - lo ==> !is_exp_mark(#[trigger] b[j]),
        decreases n - k,
    {
        assert(b[k - lo] == s@[k as int]);
        k = k + 1;
    }
    if k == n {
        let r = mantissa_exec(s, lo, n);
        proof {
            if !r {
                assert forall|j: int|
                    0 <= j < b.len() && is_exp_mark(b[j]) && is_mantissa(b.take(j))
                        implies !is_exponent(b.skip(j + 1)) by {
                    assert(!is_exp_mark(b[j]));
                }
            }
        }
        r
    } else {
        let ghost kk = k - lo;
        assert(b[kk] == s@[k as int]);
        assert(is_exp_mark(b[kk]));
        let m = mantissa_exec(s, lo, k);
        let x = exponent_exec(s, k + 1, n);
        assert(s@.subrange(lo as int, k as int) =~= b.take(kk));
        assert(s@.subrange(k + 1, n as int) =~= b.skip(kk + 1));
        proof {
            // the mantissa may hold no exponent mark
            assert(!is_mantissa(b));
            assert forall|j: int|
                0 <= j < b.len() && j != kk && is_exp_mark(b[j]) implies !is_mantissa(
                b.take(j),
            ) by {
                assert(j > kk);
                assert(b.take(j)[kk] == b[kk]);
            }
        }
        m && x
    }
}

} // verus!
