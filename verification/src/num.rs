//! Numeric text: the value of a decimal digit run, the canonical decimal
//! rendering of an integer, the scanner for floating-point literals, and the
//! canonical rendering of a 32-bit floating-point literal (the one place where
//! an outside crate does the work).

use vstd::prelude::*;
use crate::lex::{digits_end, is_digit_char, scan_digits_end};
use crate::strutil::chars_to_string;

verus! {

/// Numeric value of a decimal digit character.
pub open spec fn digit_of(c: char) -> int {
    c as u32 - 48
}

/// Value of the decimal digit run `s[i..j)`, most significant digit first.
pub open spec fn digits_val(s: Seq<char>, i: int, j: int) -> int
    decreases j - i,
{
    if j <= i {
        0
    } else {
        digits_val(s, i, j - 1) * 10 + digit_of(s[j - 1])
    }
}

/// A digit run has a non-negative value.
pub proof fn lemma_digits_val_nonneg(s: Seq<char>, i: int, j: int)
    requires
        forall|k: int| i <= k < j ==> is_digit_char(s[k]),
    ensures
        0 <= digits_val(s, i, j),
    decreases j - i,
{
    if j > i {
        lemma_digits_val_nonneg(s, i, j - 1);
    }
}

/// Extending a digit run to the right cannot shrink its value.
pub proof fn lemma_digits_val_mono(s: Seq<char>, i: int, k: int, j: int)
    requires
        i <= k <= j,
        forall|m: int| i <= m < j ==> is_digit_char(s[m]),
    ensures
        digits_val(s, i, k) <= digits_val(s, i, j),
    decreases j - k,
{
    if k < j {
        lemma_digits_val_mono(s, i, k, j - 1);
        lemma_digits_val_nonneg(s, i, j - 1);
    }
}

/// The value of a digit run depends only on the characters in the run.
pub proof fn lemma_digits_val_congr(s1: Seq<char>, s2: Seq<char>, i: int, j: int, off: int)
    requires
        0 <= i,
        0 <= i + off,
        j <= s1.len(),
        j + off <= s2.len(),
        forall|k: int| i <= k < j ==> #[trigger] s1[k] == s2[k + off],
    ensures
        digits_val(s1, i, j) == digits_val(s2, i + off, j + off),
    decreases j - i,
{
    if j > i {
        assert(s1[j - 1] == s2[j - 1 + off]);
        lemma_digits_val_congr(s1, s2, i, j - 1, off);
    }
}

/// Character of a decimal digit value.
pub open spec fn digit_char(d: int) -> char {
    if d == 0 {
        '0'
    } else if d == 1 {
        '1'
    } else if d == 2 {
        '2'
    } else if d == 3 {
        '3'
    } else if d == 4 {
        '4'
    } else if d == 5 {
        '5'
    } else if d == 6 {
        '6'
    } else if d == 7 {
        '7'
    } else if d == 8 {
        '8'
    } else {
        '9'
    }
}

/// Decimal digits of a non-negative integer, empty for zero.
pub open spec fn nat_chars(n: int) -> Seq<char>
    decreases n,
{
    if n <= 0 {
        Seq::empty()
    } else {
        nat_chars(n / 10).push(digit_char(n % 10))
    }
}

/// Canonical decimal rendering of an integer, as the standard library prints
/// it: no plus sign, a leading minus for negative values, `0` for zero.
pub open spec fn int_chars(v: int) -> Seq<char> {
    if v == 0 {
        seq!['0']
    } else if v < 0 {
        seq!['-'] + nat_chars(-v)
    } else {
        nat_chars(v)
    }
}

/// The digits of a non-negative integer are decimal digit characters.
pub proof fn lemma_nat_chars_digits(n: int)
    ensures
        forall|k: int| 0 <= k < nat_chars(n).len() ==> is_digit_char(#[trigger] nat_chars(n)[k]),
        n > 0 ==> nat_chars(n).len() >= 1,
    decreases n,
{
    if n > 0 {
        lemma_nat_chars_digits(n / 10);
        let t = nat_chars(n);
        assert forall|k: int| 0 <= k < t.len() implies is_digit_char(#[trigger] t[k]) by {
            if k < t.len() - 1 {
                assert(t[k] == nat_chars(n / 10)[k]);
            } else {
                assert(t[k] == digit_char(n % 10));
            }
        }
    }
}

/// Reading the rendered digits of a non-negative integer gives it back.
pub proof fn lemma_nat_chars_val(n: int)
    requires
        n >= 0,
    ensures
        digits_val(nat_chars(n), 0, nat_chars(n).len() as int) == n,
    decreases n,
{
    if n > 0 {
        let t = nat_chars(n);
        let l = t.len() as int;
        lemma_nat_chars_val(n / 10);
        assert forall|k: int| 0 <= k < l - 1 implies #[trigger] nat_chars(n / 10)[k] == t[k] by {
            assert(t[k] == nat_chars(n / 10)[k]);
        }
        lemma_digits_val_congr(nat_chars(n / 10), t, 0, l - 1, 0);
        assert(digits_val(t, 0, l) == digits_val(t, 0, l - 1) * 10 + digit_of(t[l - 1]));
        assert(digit_of(digit_char(n % 10)) == n % 10);
    }
}

/// Executable digit character of a small value.
pub fn digit_to_char(d: u64) -> (c: char)
    requires
        d < 10,
    ensures
        c == digit_char(d as int),
{
    if d == 0 {
        '0'
    } else if d == 1 {
        '1'
    } else if d == 2 {
        '2'
    } else if d == 3 {
        '3'
    } else if d == 4 {
        '4'
    } else if d == 5 {
        '5'
    } else if d == 6 {
        '6'
    } else if d == 7 {
        '7'
    } else if d == 8 {
        '8'
    } else {
        '9'
    }
}

/// Renders an integer in its canonical decimal form.
pub fn int_to_string(v: i32) -> (r: String)
    ensures
        r@ == int_chars(v as int),
{
    if v == 0 {
        let mut out: Vec<char> = Vec::new();
        out.push('0');
        proof {
            assert(out@ =~= int_chars(0));
        }
        return chars_to_string(&out);
    }
    let neg = v < 0;
    let m64: i64 = v as i64;
    let mut m: u64 = if v < 0 {
        (-m64) as u64
    } else {
        m64 as u64
    };
    let ghost m0: int = m as int;
    proof {
        assert(m0 > 0);
    }
    let mut rev: Vec<char> = Vec::new();
    while m > 0
        invariant
            nat_chars(m0) =~= nat_chars(m as int) + rev@.reverse(),
        decreases m,
    {
        let d = m % 10;
        let c = digit_to_char(d);
        let ghost old_rev = rev@;
        let ghost old_m = m as int;
        rev.push(c);
        m = m / 10;
        proof {
            assert(nat_chars(old_m) == nat_chars(old_m / 10).push(digit_char(old_m % 10)));
            assert(rev@.reverse() =~= seq![digit_char(old_m % 10)] + old_rev.reverse());
            assert(nat_chars(m0) =~= nat_chars(m as int) + rev@.reverse());
        }
    }
    proof {
        assert(nat_chars(0int) =~= Seq::<char>::empty());
        assert(nat_chars(m0) =~= rev@.reverse());
    }
    let mut out: Vec<char> = Vec::new();
    let ghost head: Seq<char> = if neg {
        seq!['-']
    } else {
        Seq::empty()
    };
    if neg {
        out.push('-');
    }
    proof {
        assert(out@ =~= head);
    }
    let n = rev.len();
    let mut k: usize = 0;
    while k < n
        invariant
            n == rev@.len(),
            k <= n,
            out@ =~= head + rev@.reverse().subrange(0, k as int),
        decreases n - k,
    {
        out.push(rev[n - 1 - k]);
        proof {
            assert(rev@.reverse()[k as int] == rev@[n - 1 - k as int]);
            assert(head + rev@.reverse().subrange(0, k + 1 as int) =~= (head
                + rev@.reverse().subrange(0, k as int)).push(rev@[n - 1 - k as int]));
        }
        k = k + 1;
    }
    proof {
        assert(rev@.reverse().subrange(0, n as int) =~= rev@.reverse());
        if neg {
            assert(out@ =~= int_chars(v as int));
        } else {
            assert(head + rev@.reverse() =~= rev@.reverse());
            assert(out@ =~= int_chars(v as int));
        }
    }
    chars_to_string(&out)
}

/// End of the floating-point literal starting at `i`: an optional sign, one
/// or more digits, an optional fraction (`.` then any digits), and an
/// optional exponent (`e` or `E`, an optional sign, one or more digits).
pub open spec fn scan_real_end(s: Seq<char>, i: int) -> Option<int> {
    if !(0 <= i <= s.len()) {
        None
    } else {
        let i1 = if i < s.len() && (s[i] == '+' || s[i] == '-') {
            i + 1
        } else {
            i
        };
        let j = scan_digits_end(s, i1);
        if j == i1 {
            None
        } else {
            let k = if j < s.len() && s[j] == '.' {
                scan_digits_end(s, j + 1)
            } else {
                j
            };
            let m = if k < s.len() && (s[k] == 'e' || s[k] == 'E') {
                let k1 = if k + 1 < s.len() && (s[k + 1] == '+' || s[k + 1] == '-') {
                    k + 2
                } else {
                    k + 1
                };
                let k2 = scan_digits_end(s, k1);
                if k2 == k1 {
                    k
                } else {
                    k2
                }
            } else {
                k
            };
            Some(m)
        }
    }
}

/// The whole of `t` is one floating-point literal.
pub open spec fn is_real_literal(t: Seq<char>) -> bool {
    scan_real_end(t, 0) == Some(t.len() as int)
}

/// The canonical rendering of the 32-bit floating-point value denoted by a
/// literal: what the outside conversion returns. Named only; no clause states
/// its digits on given values.
pub uninterp spec fn real_canon(s: Seq<char>) -> Seq<char>;

/// Relies on `nom::number::complete::float`, which recognizes a
/// floating-point literal prefix of its input and converts it with the
/// standard library's `str` parse (IEEE 754 round-to-nearest), and on the
/// standard `Display` of the resulting 32-bit value, which renders the
/// shortest decimal string that reads back as the same value. Re-rendering a
/// rendered finite value is therefore a fixed point, which the second clause
/// records for renderings that are themselves literals.
#[verifier::external_body]
pub(crate) fn canonical_real(lit: &String) -> (r: String)
    ensures
        r@ == real_canon(lit@),
        is_real_literal(r@) ==> real_canon(r@) == r@,
{
    match nom::number::complete::float::<&str, nom::error::Error<&str>>(lit.as_str()) {
        Ok((_, v)) => v.to_string(),
        Err(_) => String::new(),
    }
}

/// Executable twin of `scan_real_end`.
pub fn real_end(s: &Vec<char>, pos: usize) -> (r: Option<usize>)
    requires
        pos <= s@.len(),
    ensures
        match r {
            Some(j) => scan_real_end(s@, pos as int) == Some(j as int) && pos < j <= s@.len(),
            None => scan_real_end(s@, pos as int) is None,
        },
{
    let i1 = if pos < s.len() && (s[pos] == '+' || s[pos] == '-') {
        pos + 1
    } else {
        pos
    };
    let j = digits_end(s, i1);
    if j == i1 {
        return None;
    }
    let k = if j < s.len() && s[j] == '.' {
        digits_end(s, j + 1)
    } else {
        j
    };
    let m = if k < s.len() && (s[k] == 'e' || s[k] == 'E') {
        let k1 = if k + 1 < s.len() && (s[k + 1] == '+' || s[k + 1] == '-') {
            k + 2
        } else {
            k + 1
        };
        let k2 = digits_end(s, k1);
        if k2 == k1 {
            k
        } else {
            k2
        }
    } else {
        k
    };
    Some(m)
}

} // verus!
