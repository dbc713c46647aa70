//! The syntax of a real-number field: an optional sign, then `inf`, `infinity`
//! or `nan` in any case, or a decimal number with an optional exponent.
//!
//! ```text
//! Real     ::= Sign? ( 'inf' | 'infinity' | 'nan' | Number )
//! Number   ::= ( Digit+ | Digit+ '.' Digit* | Digit* '.' Digit+ ) Exp?
//! Exp      ::= ( 'e' | 'E' ) Sign? Digit+
//! Sign     ::= '+' | '-'
//! ```
use vstd::prelude::*;

verus! {

pub open spec fn is_digit(c: char) -> bool {
    '0' <= c && c <= '9'
}

pub open spec fn is_sign(c: char) -> bool {
    c == '+' || c == '-'
}

/// The number of decimal digits at the start of `s`.
pub open spec fn lead_digits(s: Seq<char>) -> nat
    decreases s.len(),
{
    if s.len() > 0 && is_digit(s[0]) {
        1 + lead_digits(s.drop_first())
    } else {
        0
    }
}

/// `s` without a leading sign.
pub open spec fn unsigned_part(s: Seq<char>) -> Seq<char> {
    if s.len() > 0 && is_sign(s[0]) {
        s.drop_first()
    } else {
        s
    }
}

/// `s` is one or more decimal digits.
pub open spec fn is_digits(s: Seq<char>) -> bool {
    s.len() > 0 && lead_digits(s) == s.len()
}

/// `s` is an exponent: `e` or `E`, an optional sign, and one or more digits.
pub open spec fn is_exponent(s: Seq<char>) -> bool {
    s.len() > 0 && (s[0] == 'e' || s[0] == 'E') && is_digits(unsigned_part(s.drop_first()))
}

/// `s` is empty or an exponent.
pub open spec fn is_opt_exponent(s: Seq<char>) -> bool {
    s.len() == 0 || is_exponent(s)
}

/// `s` is an unsigned decimal number: digits with at most one point, at least one
/// digit on one side of it, then an optional exponent.
pub open spec fn is_decimal(s: Seq<char>) -> bool {
    let a = lead_digits(s);
    let r = s.skip(a as int);
    if r.len() > 0 && r[0] == '.' {
        let b = lead_digits(r.drop_first());
        (a > 0 || b > 0) && is_opt_exponent(r.drop_first().skip(b as int))
    } else {
        a > 0 && is_opt_exponent(r)
    }
}

/// `s` spells the word `lower` with each letter in either case, `upper` holding
/// the same word in capitals.
pub open spec fn spells(s: Seq<char>, lower: Seq<char>, upper: Seq<char>) -> bool {
    &&& s.len() == lower.len()
    &&& lower.len() == upper.len()
    &&& forall|i: int| 0 <= i < s.len() ==> s[i] == lower[i] || s[i] == upper[i]
}

pub open spec fn is_special(s: Seq<char>) -> bool {
    ||| spells(s, seq!['i', 'n', 'f'], seq!['I', 'N', 'F'])
    ||| spells(
        s,
        seq!['i', 'n', 'f', 'i', 'n', 'i', 't', 'y'],
        seq!['I', 'N', 'F', 'I', 'N', 'I', 'T', 'Y'],
    )
    ||| spells(s, seq!['n', 'a', 'n'], seq!['N', 'A', 'N'])
}

/// `s` is a real-number field.
pub open spec fn is_real(s: Seq<char>) -> bool {
    is_special(unsigned_part(s)) || is_decimal(unsigned_part(s))
}

/// The index just past the digits of `t` that start at `i`.
fn skip_digits(t: &Vec<char>, i: usize) -> (j: usize)
    requires
        i <= t@.len(),
    ensures
        i <= j <= t@.len(),
        j - i == lead_digits(t@.skip(i as int)),
        t@.skip(i as int).skip(j - i) == t@.skip(j as int),
{
    let n = t.len();
    let mut j: usize = i;
    while j < n && '0' <= t[j] && t[j] <= '9'
        invariant
            i <= j <= n == t@.len(),
            lead_digits(t@.skip(i as int)) == (j - i) + lead_digits(t@.skip(j as int)),
        decreases n - j,
    {
        assert(t@.skip(j as int).drop_first() =~= t@.skip(j + 1));
        j = j + 1;
    }
    if j < n {
        assert(t@.skip(j as int)[0] == t@[j as int]);
    }
    assert(t@.skip(i as int).skip(j - i) =~= t@.skip(j as int));
    j
}

/// Whether the suffix of `t` from `i` on is one or more digits.
fn digits_to_end(t: &Vec<char>, i: usize) -> (r: bool)
    requires
        i <= t@.len(),
    ensures
        r == is_digits(t@.skip(i as int)),
{
    let j = skip_digits(t, i);
    j > i && j == t.len()
}

/// Whether the suffix of `t` from `i` on is empty or an exponent.
fn opt_exponent_from(t: &Vec<char>, i: usize) -> (r: bool)
    requires
        i <= t@.len(),
    ensures
        r == is_opt_exponent(t@.skip(i as int)),
{
    let n = t.len();
    if i == n {
        return true;
    }
    let ghost s = t@.skip(i as int);
    assert(s[0] == t@[i as int]);
    if t[i] != 'e' && t[i] != 'E' {
        return false;
    }
    assert(s.drop_first() =~= t@.skip(i + 1));
    let mut k: usize = i + 1;
    if k < n && (t[k] == '+' || t[k] == '-') {
        assert(t@.skip(i + 1).drop_first() =~= t@.skip(i + 2));
        k = k + 1;
    }
    digits_to_end(t, k)
}

/// Whether the suffix of `t` from `p` on spells `lower` in either case.
fn spells_from(t: &Vec<char>, p: usize, lower: &Vec<char>, upper: &Vec<char>) -> (r: bool)
    requires
        p <= t@.len(),
        lower@.len() == upper@.len(),
    ensures
        r == spells(t@.skip(p as int), lower@, upper@),
{
    let ghost s = t@.skip(p as int);
    let n = t.len();
    if n - p != lower.len() {
        return false;
    }
    let mut k: usize = 0;
    while k < lower.len()
        invariant
            s == t@.skip(p as int),
            s.len() == lower@.len() == upper@.len(),
            p <= n == t@.len(),
            p + s.len() == n,
            forall|m: int| 0 <= m < k ==> s[m] == lower@[m] || s[m] == upper@[m],
            k <= lower@.len(),
        decreases lower@.len() - k,
    {
        let c = t[p + k];
        assert(s[k as int] == c);
        if c != lower[k] && c != upper[k] {
            return false;
        }
        k = k + 1;
    }
    true
}

/// Whether `t` is a real-number field.
pub fn is_real_field(t: &Vec<char>) -> (r: bool)
    ensures
        r == is_real(t@),
{
    let n = t.len();
    let mut p: usize = 0;
    if n > 0 && (t[0] == '+' || t[0] == '-') {
        p = 1;
    }
    let ghost u = unsigned_part(t@);
    assert(u =~= t@.skip(p as int));
    let inf_lo = vec!['i', 'n', 'f'];
    let inf_up = vec!['I', 'N', 'F'];
    let infinity_lo = vec!['i', 'n', 'f', 'i', 'n', 'i', 't', 'y'];
    let infinity_up = vec!['I', 'N', 'F', 'I', 'N', 'I', 'T', 'Y'];
    let nan_lo = vec!['n', 'a', 'n'];
    let nan_up = vec!['N', 'A', 'N'];
    assert(inf_lo@ =~= seq!['i', 'n', 'f']);
    assert(inf_up@ =~= seq!['I', 'N', 'F']);
    assert(infinity_lo@ =~= seq!['i', 'n', 'f', 'i', 'n', 'i', 't', 'y']);
    assert(infinity_up@ =~= seq!['I', 'N', 'F', 'I', 'N', 'I', 'T', 'Y']);
    assert(nan_lo@ =~= seq!['n', 'a', 'n']);
    assert(nan_up@ =~= seq!['N', 'A', 'N']);
    if spells_from(t, p, &inf_lo, &inf_up) || spells_from(t, p, &infinity_lo, &infinity_up)
        || spells_from(t, p, &nan_lo, &nan_up) {
        return true;
    }
    // the decimal form
    let q = skip_digits(t, p);
    let ghost r = u.skip((q - p) as int);
    assert(r =~= t@.skip(q as int));
    if q < n && t[q] == '.' {
        assert(r[0] == t@[q as int]);
        assert(r.drop_first() =~= t@.skip(q + 1));
        let e = skip_digits(t, q + 1);
        (q > p || e > q + 1) && opt_exponent_from(t, e)
    } else {
        if q < n {
            assert(r[0] == t@[q as int]);
        }
        q > p && opt_exponent_from(t, q)
    }
}

} // verus!
