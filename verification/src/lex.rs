//! Lexical layer of the grammar: character classes and the scanners for
//! whitespace, identifiers, digit runs, entry separators, and quoted strings.
//! Each scanner exists twice: a specification function over `Seq<char>` and a
//! verified executable twin over `Vec<char>` positions.

use vstd::prelude::*;

verus! {

/// A character that may appear in an identifier: an ASCII letter, an ASCII
/// digit, or an underscore.
pub open spec fn is_ident_char(c: char) -> bool {
    let u = c as u32;
    (97 <= u && u <= 122) || (65 <= u && u <= 90) || (48 <= u && u <= 57) || u == 95
}

/// A whitespace character: space, tab, carriage return, or newline.
pub open spec fn is_space_char(c: char) -> bool {
    c == ' ' || c == '\t' || c == '\r' || c == '\n'
}

/// An ASCII decimal digit.
pub open spec fn is_digit_char(c: char) -> bool {
    let u = c as u32;
    48 <= u && u <= 57
}

/// Executable twin of `is_ident_char`.
pub fn ident_char(c: char) -> (b: bool)
    ensures
        b == is_ident_char(c),
{
    let u = c as u32;
    (97 <= u && u <= 122) || (65 <= u && u <= 90) || (48 <= u && u <= 57) || u == 95
}

/// Executable twin of `is_space_char`.
pub fn space_char(c: char) -> (b: bool)
    ensures
        b == is_space_char(c),
{
    c == ' ' || c == '\t' || c == '\r' || c == '\n'
}

/// Executable twin of `is_digit_char`.
pub fn digit_char_test(c: char) -> (b: bool)
    ensures
        b == is_digit_char(c),
{
    let u = c as u32;
    48 <= u && u <= 57
}

/// Position of the first non-whitespace character at or after `i`.
pub open spec fn skip_ws(s: Seq<char>, i: int) -> int
    decreases s.len() - i,
{
    if 0 <= i && i < s.len() && is_space_char(s[i]) {
        skip_ws(s, i + 1)
    } else {
        i
    }
}

/// End of the run of identifier characters starting at `i`.
pub open spec fn scan_ident_end(s: Seq<char>, i: int) -> int
    decreases s.len() - i,
{
    if 0 <= i && i < s.len() && is_ident_char(s[i]) {
        scan_ident_end(s, i + 1)
    } else {
        i
    }
}

/// End of the run of decimal digits starting at `i`.
pub open spec fn scan_digits_end(s: Seq<char>, i: int) -> int
    decreases s.len() - i,
{
    if 0 <= i && i < s.len() && is_digit_char(s[i]) {
        scan_digits_end(s, i + 1)
    } else {
        i
    }
}

/// End of the run of entry terminators (`\r\n`, `\n`, or `;`) starting at `i`.
pub open spec fn scan_sep_end(s: Seq<char>, i: int) -> int
    decreases s.len() - i,
{
    if 0 <= i && i + 1 < s.len() && s[i] == '\r' && s[i + 1] == '\n' {
        scan_sep_end(s, i + 2)
    } else if 0 <= i && i < s.len() && (s[i] == ';' || s[i] == '\n') {
        scan_sep_end(s, i + 1)
    } else {
        i
    }
}

/// Position of the first `"` at or after `i`, if any.
pub open spec fn scan_to_quote(s: Seq<char>, i: int) -> Option<int>
    decreases s.len() - i,
{
    if !(0 <= i && i < s.len()) {
        None
    } else if s[i] == '"' {
        Some(i)
    } else {
        scan_to_quote(s, i + 1)
    }
}

/// `skip_ws` stays within bounds, skips only whitespace, and stops at a
/// non-whitespace character or at the end of the input.
pub proof fn lemma_skip_ws(s: Seq<char>, i: int)
    requires
        0 <= i <= s.len(),
    ensures
        i <= skip_ws(s, i) <= s.len(),
        forall|k: int| i <= k < skip_ws(s, i) ==> is_space_char(s[k]),
        skip_ws(s, i) < s.len() ==> !is_space_char(s[skip_ws(s, i)]),
    decreases s.len() - i,
{
    if i < s.len() && is_space_char(s[i]) {
        lemma_skip_ws(s, i + 1);
    }
}

/// `scan_ident_end` stays within bounds, passes only identifier characters,
/// and stops at a non-identifier character or at the end of the input.
pub proof fn lemma_scan_ident(s: Seq<char>, i: int)
    requires
        0 <= i <= s.len(),
    ensures
        i <= scan_ident_end(s, i) <= s.len(),
        forall|k: int| i <= k < scan_ident_end(s, i) ==> is_ident_char(s[k]),
        scan_ident_end(s, i) < s.len() ==> !is_ident_char(s[scan_ident_end(s, i)]),
    decreases s.len() - i,
{
    if i < s.len() && is_ident_char(s[i]) {
        lemma_scan_ident(s, i + 1);
    }
}

/// `scan_digits_end` stays within bounds, passes only digits, and stops at a
/// non-digit or at the end of the input.
pub proof fn lemma_scan_digits(s: Seq<char>, i: int)
    requires
        0 <= i <= s.len(),
    ensures
        i <= scan_digits_end(s, i) <= s.len(),
        forall|k: int| i <= k < scan_digits_end(s, i) ==> is_digit_char(s[k]),
        scan_digits_end(s, i) < s.len() ==> !is_digit_char(s[scan_digits_end(s, i)]),
    decreases s.len() - i,
{
    if i < s.len() && is_digit_char(s[i]) {
        lemma_scan_digits(s, i + 1);
    }
}

/// A run of identifier characters delimited on the right scans to exactly its
/// end.
pub proof fn lemma_ident_run(s: Seq<char>, i: int, j: int)
    requires
        0 <= i <= j <= s.len(),
        forall|k: int| i <= k < j ==> is_ident_char(s[k]),
        j == s.len() || !is_ident_char(s[j]),
    ensures
        scan_ident_end(s, i) == j,
    decreases j - i,
{
    if i < j {
        lemma_ident_run(s, i + 1, j);
    }
}

/// A run of digits delimited on the right scans to exactly its end.
pub proof fn lemma_digit_run(s: Seq<char>, i: int, j: int)
    requires
        0 <= i <= j <= s.len(),
        forall|k: int| i <= k < j ==> is_digit_char(s[k]),
        j == s.len() || !is_digit_char(s[j]),
    ensures
        scan_digits_end(s, i) == j,
    decreases j - i,
{
    if i < j {
        lemma_digit_run(s, i + 1, j);
    }
}

/// A run of whitespace delimited on the right is skipped to exactly its end.
pub proof fn lemma_ws_run(s: Seq<char>, i: int, j: int)
    requires
        0 <= i <= j <= s.len(),
        forall|k: int| i <= k < j ==> is_space_char(s[k]),
        j == s.len() || !is_space_char(s[j]),
    ensures
        skip_ws(s, i) == j,
    decreases j - i,
{
    if i < j {
        lemma_ws_run(s, i + 1, j);
    }
}

/// `scan_sep_end` stays within bounds and stops where no terminator starts.
pub proof fn lemma_scan_sep(s: Seq<char>, i: int)
    requires
        0 <= i <= s.len(),
    ensures
        i <= scan_sep_end(s, i) <= s.len(),
        ({
            let j = scan_sep_end(s, i);
            &&& !(j < s.len() && (s[j] == ';' || s[j] == '\n'))
            &&& !(j + 1 < s.len() && s[j] == '\r' && s[j + 1] == '\n')
        }),
    decreases s.len() - i,
{
    if i + 1 < s.len() && s[i] == '\r' && s[i + 1] == '\n' {
        lemma_scan_sep(s, i + 2);
    } else if i < s.len() && (s[i] == ';' || s[i] == '\n') {
        lemma_scan_sep(s, i + 1);
    }
}

/// `scan_to_quote` finds the first quote, or reports that none remains.
pub proof fn lemma_scan_to_quote(s: Seq<char>, i: int)
    requires
        0 <= i <= s.len(),
    ensures
        match scan_to_quote(s, i) {
            Some(k) => i <= k < s.len() && s[k] == '"' && forall|j: int|
                i <= j < k ==> s[j] != '"',
            None => forall|j: int| i <= j < s.len() ==> s[j] != '"',
        },
    decreases s.len() - i,
{
    if i < s.len() && s[i] != '"' {
        lemma_scan_to_quote(s, i + 1);
    }
}

/// Executable twin of `skip_ws`.
pub fn ws_end(s: &Vec<char>, pos: usize) -> (r: usize)
    requires
        pos <= s@.len(),
    ensures
        r as int == skip_ws(s@, pos as int),
        pos <= r <= s@.len(),
{
    let mut cur: usize = pos;
    while cur < s.len() && space_char(s[cur])
        invariant
            pos <= cur <= s@.len(),
            skip_ws(s@, pos as int) == skip_ws(s@, cur as int),
        decreases s@.len() - cur,
    {
        cur = cur + 1;
    }
    cur
}

/// Executable twin of `scan_ident_end`.
pub fn ident_end(s: &Vec<char>, pos: usize) -> (r: usize)
    requires
        pos <= s@.len(),
    ensures
        r as int == scan_ident_end(s@, pos as int),
        pos <= r <= s@.len(),
{
    let mut cur: usize = pos;
    while cur < s.len() && ident_char(s[cur])
        invariant
            pos <= cur <= s@.len(),
            scan_ident_end(s@, pos as int) == scan_ident_end(s@, cur as int),
        decreases s@.len() - cur,
    {
        cur = cur + 1;
    }
    cur
}

/// Executable twin of `scan_digits_end`.
pub fn digits_end(s: &Vec<char>, pos: usize) -> (r: usize)
    requires
        pos <= s@.len(),
    ensures
        r as int == scan_digits_end(s@, pos as int),
        pos <= r <= s@.len(),
{
    let mut cur: usize = pos;
    while cur < s.len() && digit_char_test(s[cur])
        invariant
            pos <= cur <= s@.len(),
            scan_digits_end(s@, pos as int) == scan_digits_end(s@, cur as int),
        decreases s@.len() - cur,
    {
        cur = cur + 1;
    }
    cur
}

/// Executable twin of `scan_sep_end`.
pub fn sep_end(s: &Vec<char>, pos: usize) -> (r: usize)
    requires
        pos <= s@.len(),
    ensures
        r as int == scan_sep_end(s@, pos as int),
        pos <= r <= s@.len(),
{
    let mut cur: usize = pos;
    loop
        invariant
            pos <= cur <= s@.len(),
            scan_sep_end(s@, pos as int) == scan_sep_end(s@, cur as int),
        decreases s@.len() - cur,
    {
        if cur < s.len() && s[cur] == '\r' && cur + 1 < s.len() && s[cur + 1] == '\n' {
            cur = cur + 2;
        } else if cur < s.len() && (s[cur] == ';' || s[cur] == '\n') {
            cur = cur + 1;
        } else {
            return cur;
        }
    }
}

/// Executable twin of `scan_to_quote`.
pub fn quote_pos(s: &Vec<char>, pos: usize) -> (r: Option<usize>)
    requires
        pos <= s@.len(),
    ensures
        match r {
            Some(k) => scan_to_quote(s@, pos as int) == Some(k as int) && pos <= k < s@.len(),
            None => scan_to_quote(s@, pos as int) is None,
        },
{
    let mut cur: usize = pos;
    while cur < s.len() && !(s[cur] == '"')
        invariant
            pos <= cur <= s@.len(),
            scan_to_quote(s@, pos as int) == scan_to_quote(s@, cur as int),
        decreases s@.len() - cur,
    {
        cur = cur + 1;
    }
    if cur < s.len() {
        Some(cur)
    } else {
        None
    }
}

} // verus!
