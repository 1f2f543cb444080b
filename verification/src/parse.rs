//! The grammar engine: a recursive-descent parser for the BLK format. Every
//! rule exists twice: a specification function over `Seq<char>` positions,
//! which is the meaning of the grammar, and a verified executable twin that
//! is proved to return exactly what the specification says.
//!
//! A block parse never fails; it consumes entries as long as an entry parses
//! and leaves the rest of the input untouched, as the top-level contract of
//! `parse_config` reports through its leftover string.

use vstd::prelude::*;
use crate::ast::{
    BlkBlock, BlkConfig, BlkEntry, BlkProperty, BlkPropertyValue, BlkSection, EntryV, ParseError,
    ParseErrorKind, PropertyV, SectionV, ValueV,
};
use crate::ast::{entries_reals_stable, entry_reals_stable, real_stable, value_reals_stable};
use crate::ast::view_entries;
use crate::lex::{
    ident_end, lemma_scan_ident, lemma_skip_ws, quote_pos, scan_ident_end, scan_sep_end,
    scan_to_quote, sep_end, skip_ws, ws_end,
};
use crate::num::{
    canonical_real, digit_of, digits_val, lemma_digits_val_mono, lemma_digits_val_nonneg,
    real_canon, real_end, scan_real_end,
};
use crate::lex::{digits_end, is_digit_char, lemma_scan_digits, scan_digits_end};
use crate::strutil::extract_string;
use crate::strutil::str_to_chars;

verus! {

/// The identifier starting at `i`: its end and its characters.
pub open spec fn spec_ident(s: Seq<char>, i: int) -> Option<(int, Seq<char>)> {
    if !(0 <= i <= s.len()) {
        None
    } else {
        let j = scan_ident_end(s, i);
        if j == i {
            None
        } else {
            Some((j, s.subrange(i, j)))
        }
    }
}

/// The entry separator starting at `i`: one or more terminators.
pub open spec fn spec_separator(s: Seq<char>, i: int) -> Option<int> {
    if !(0 <= i <= s.len()) {
        None
    } else {
        let j = scan_sep_end(s, i);
        if j == i {
            None
        } else {
            Some(j)
        }
    }
}

/// The boolean literal starting at `i`: `true` or `yes`, `false` or `no`.
pub open spec fn spec_boolean(s: Seq<char>, i: int) -> Option<(int, bool)> {
    if !(0 <= i <= s.len()) {
        None
    } else if i + 4 <= s.len() && s[i] == 't' && s[i + 1] == 'r' && s[i + 2] == 'u' && s[i + 3]
        == 'e' {
        Some(((i + 4), true))
    } else if i + 3 <= s.len() && s[i] == 'y' && s[i + 1] == 'e' && s[i + 2] == 's' {
        Some(((i + 3), true))
    } else if i + 5 <= s.len() && s[i] == 'f' && s[i + 1] == 'a' && s[i + 2] == 'l' && s[i + 3]
        == 's' && s[i + 4] == 'e' {
        Some(((i + 5), false))
    } else if i + 2 <= s.len() && s[i] == 'n' && s[i + 1] == 'o' {
        Some(((i + 2), false))
    } else {
        None
    }
}

/// The integer literal starting at `i`: an optional sign and digits, read as
/// a 32-bit signed value; a value out of range is a failure, not a wrap.
pub open spec fn spec_integer(s: Seq<char>, i: int) -> Option<(int, int)> {
    if !(0 <= i <= s.len()) {
        None
    } else {
        let neg = i < s.len() && s[i] == '-';
        let i1 = if i < s.len() && (s[i] == '-' || s[i] == '+') {
            i + 1
        } else {
            i
        };
        let j = scan_digits_end(s, i1);
        if j == i1 {
            None
        } else {
            let v = if neg {
                -digits_val(s, i1, j)
            } else {
                digits_val(s, i1, j)
            };
            if -2147483648 <= v <= 2147483647 {
                Some((j, v))
            } else {
                None
            }
        }
    }
}

/// The floating-point literal starting at `i`: its end and the canonical
/// rendering of the 32-bit value it denotes.
pub open spec fn spec_real(s: Seq<char>, i: int) -> Option<(int, Seq<char>)> {
    match scan_real_end(s, i) {
        Some(j) => Some((j, real_canon(s.subrange(i, j)))),
        None => None,
    }
}

/// The vector delimiter starting at `i`: a comma, then any whitespace.
pub open spec fn spec_vec_delim(s: Seq<char>, i: int) -> Option<int> {
    if 0 <= i && i < s.len() && s[i] == ',' {
        Some(skip_ws(s, i + 1))
    } else {
        None
    }
}

/// The quoted string starting at `i`: raw characters up to the next quote,
/// with no escape sequences.
pub open spec fn spec_quoted(s: Seq<char>, i: int) -> Option<(int, Seq<char>)> {
    if 0 <= i && i < s.len() && s[i] == '"' {
        match scan_to_quote(s, i + 1) {
            Some(k) => Some((k + 1, s.subrange(i + 1, k))),
            None => None,
        }
    } else {
        None
    }
}

/// The different types of BLK properties.
#[derive(Debug, PartialEq, Eq, Structural, Clone, Copy)]
pub enum BlkType {
    Text,
    Boolean,
    Integer,
    Real,
    Point2,
    Point3,
    Point4,
    Color,
}

/// The type tag starting at `i`: one of `t`, `b`, `i`, `r`, `p2`, `p3`,
/// `p4`, `c`.
pub open spec fn spec_blk_type(s: Seq<char>, i: int) -> Option<(int, BlkType)> {
    if !(0 <= i <= s.len()) {
        None
    } else if i < s.len() && s[i] == 't' {
        Some(((i + 1), BlkType::Text))
    } else if i < s.len() && s[i] == 'b' {
        Some(((i + 1), BlkType::Boolean))
    } else if i < s.len() && s[i] == 'i' {
        Some(((i + 1), BlkType::Integer))
    } else if i < s.len() && s[i] == 'r' {
        Some(((i + 1), BlkType::Real))
    } else if i + 2 <= s.len() && s[i] == 'p' && s[i + 1] == '2' {
        Some(((i + 2), BlkType::Point2))
    } else if i + 2 <= s.len() && s[i] == 'p' && s[i + 1] == '3' {
        Some(((i + 2), BlkType::Point3))
    } else if i + 2 <= s.len() && s[i] == 'p' && s[i + 1] == '4' {
        Some(((i + 2), BlkType::Point4))
    } else if i < s.len() && s[i] == 'c' {
        Some(((i + 1), BlkType::Color))
    } else {
        None
    }
}

/// The value starting at `i` for a property of type `t`: the component
/// sequence the tag selects, with comma delimiters between components.
pub open spec fn spec_property_value(s: Seq<char>, i: int, t: BlkType) -> Option<(int, ValueV)> {
    match t {
        BlkType::Text => match spec_quoted(s, i) {
            Some((j, txt)) => Some((j, ValueV::Text(txt))),
            None => None,
        },
        BlkType::Boolean => match spec_boolean(s, i) {
            Some((j, b)) => Some((j, ValueV::Boolean(b))),
            None => None,
        },
        BlkType::Integer => match spec_integer(s, i) {
            Some((j, v)) => Some((j, ValueV::Integer(v))),
            None => None,
        },
        BlkType::Real => match spec_real(s, i) {
            Some((j, r)) => Some((j, ValueV::Real(r))),
            None => None,
        },
        BlkType::Point2 => match spec_real(s, i) {
            Some((j1, a)) => match spec_vec_delim(s, j1) {
                Some(j2) => match spec_real(s, j2) {
                    Some((j3, b)) => Some((j3, ValueV::Vector2(a, b))),
                    None => None,
                },
                None => None,
            },
            None => None,
        },
        BlkType::Point3 => match spec_real(s, i) {
            Some((j1, a)) => match spec_vec_delim(s, j1) {
                Some(j2) => match spec_real(s, j2) {
                    Some((j3, b)) => match spec_vec_delim(s, j3) {
                        Some(j4) => match spec_real(s, j4) {
                            Some((j5, c)) => Some((j5, ValueV::Vector3(a, b, c))),
                            None => None,
                        },
                        None => None,
                    },
                    None => None,
                },
                None => None,
            },
            None => None,
        },
        BlkType::Point4 => match spec_real(s, i) {
            Some((j1, a)) => match spec_vec_delim(s, j1) {
                Some(j2) => match spec_real(s, j2) {
                    Some((j3, b)) => match spec_vec_delim(s, j3) {
                        Some(j4) => match spec_real(s, j4) {
                            Some((j5, c)) => match spec_vec_delim(s, j5) {
                                Some(j6) => match spec_real(s, j6) {
                                    Some((j7, d)) => Some((j7, ValueV::Vector4(a, b, c, d))),
                                    None => None,
                                },
                                None => None,
                            },
                            None => None,
                        },
                        None => None,
                    },
                    None => None,
                },
                None => None,
            },
            None => None,
        },
        BlkType::Color => match spec_integer(s, i) {
            Some((j1, a)) => match spec_vec_delim(s, j1) {
                Some(j2) => match spec_integer(s, j2) {
                    Some((j3, b)) => match spec_vec_delim(s, j3) {
                        Some(j4) => match spec_integer(s, j4) {
                            Some((j5, c)) => match spec_vec_delim(s, j5) {
                                Some(j6) => match spec_integer(s, j6) {
                                    Some((j7, d)) => Some((j7, ValueV::Color(a, b, c, d))),
                                    None => None,
                                },
                                None => None,
                            },
                            None => None,
                        },
                        None => None,
                    },
                    None => None,
                },
                None => None,
            },
            None => None,
        },
    }
}

/// The property starting at `i`: `identifier ':' type '=' value`.
pub open spec fn spec_property(s: Seq<char>, i: int) -> Option<(int, EntryV)> {
    match spec_ident(s, i) {
        None => None,
        Some((j, name)) => if j < s.len() && s[j] == ':' {
            match spec_blk_type(s, j + 1) {
                None => None,
                Some((k, t)) => if k < s.len() && s[k] == '=' {
                    match spec_property_value(s, k + 1, t) {
                        None => None,
                        Some((m, v)) => Some(
                            (m, EntryV::Property(PropertyV { key: name, value: v })),
                        ),
                    }
                } else {
                    None
                },
            }
        } else {
            None
        },
    }
}

/// The section starting at `i`: `identifier '{' block '}'`.
pub open spec fn spec_section(s: Seq<char>, i: int) -> Option<(int, EntryV)>
    decreases s.len() - i, 1int,
    via spec_section_dec
{
    if !(0 <= i <= s.len()) {
        None
    } else {
        let j = scan_ident_end(s, i);
        if j == i {
            None
        } else if j < s.len() && s[j] == '{' {
            let b = spec_block(s, j + 1);
            if b.0 < s.len() && s[b.0] == '}' {
                Some(
                    (b.0 + 1, EntryV::Section(SectionV { name: s.subrange(i, j), entries: b.1 })),
                )
            } else {
                None
            }
        } else {
            None
        }
    }
}

#[via_fn]
proof fn spec_section_dec(s: Seq<char>, i: int) {
    if 0 <= i <= s.len() {
        lemma_scan_ident(s, i);
    }
}

/// The entry starting at `i`: leading whitespace, then a section or a
/// property, then a separator.
pub open spec fn spec_entry(s: Seq<char>, i: int) -> Option<(int, EntryV)>
    decreases s.len() - i, 2int,
    via spec_entry_dec
{
    if !(0 <= i <= s.len()) {
        None
    } else {
        let i1 = skip_ws(s, i);
        let fe = match spec_section(s, i1) {
            Some(x) => Some(x),
            None => spec_property(s, i1),
        };
        match fe {
            None => None,
            Some((j, e)) => match spec_separator(s, j) {
                None => None,
                Some(k) => Some((k, e)),
            },
        }
    }
}

#[via_fn]
proof fn spec_entry_dec(s: Seq<char>, i: int) {
    if 0 <= i <= s.len() {
        lemma_skip_ws(s, i);
    }
}

/// The block starting at `i`: entries as long as an entry parses, then
/// trailing whitespace. A block parse always succeeds; it reports where it
/// stopped.
pub open spec fn spec_block(s: Seq<char>, i: int) -> (int, Seq<EntryV>)
    decreases s.len() - i, 3int,
{
    if !(0 <= i <= s.len()) {
        (i, Seq::empty())
    } else {
        match spec_entry(s, i) {
            Some((j, e)) => if i < j <= s.len() {
                let r = spec_block(s, j);
                (r.0, seq![e] + r.1)
            } else {
                (skip_ws(s, i), Seq::empty())
            },
            None => (skip_ws(s, i), Seq::empty()),
        }
    }
}

/// The whole input as one block: the entries parsed and the position where
/// parsing stopped; everything from there on is the leftover.
pub open spec fn spec_config(s: Seq<char>) -> (int, Seq<EntryV>) {
    spec_block(s, 0)
}

/// Parses an identifier.
pub fn parse_identifier(s: &Vec<char>, pos: usize) -> (r: Result<(usize, String), ParseError>)
    requires
        pos <= s@.len(),
    ensures
        (r matches Ok((j, name)) ==> spec_ident(s@, pos as int) == Some((j as int, name@)) && pos
            < j <= s@.len()),
        (r is Err ==> spec_ident(s@, pos as int) is None),
        (r matches Err(e) ==> e == (ParseError { offset: pos, kind: ParseErrorKind::EmptyIdentifier })),
{
    let j = ident_end(s, pos);
    if j == pos {
        Err(ParseError { offset: pos, kind: ParseErrorKind::EmptyIdentifier })
    } else {
        let name = extract_string(s, pos, j);
        Ok((j, name))
    }
}

/// Parses a line separator: one or more of `\r\n`, `\n`, `;`.
pub fn parse_separator(s: &Vec<char>, pos: usize) -> (r: Result<usize, ParseError>)
    requires
        pos <= s@.len(),
    ensures
        (r matches Ok(k) ==> spec_separator(s@, pos as int) == Some(k as int) && pos < k
            <= s@.len()),
        (r is Err ==> spec_separator(s@, pos as int) is None),
        (r matches Err(e) ==> e == (ParseError { offset: pos, kind: ParseErrorKind::SeparatorExpected })),
{
    let k = sep_end(s, pos);
    if k == pos {
        Err(ParseError { offset: pos, kind: ParseErrorKind::SeparatorExpected })
    } else {
        Ok(k)
    }
}

/// Parses a boolean literal.
pub fn parse_boolean(s: &Vec<char>, pos: usize) -> (r: Result<(usize, bool), ParseError>)
    requires
        pos <= s@.len(),
    ensures
        (r matches Ok((j, b)) ==> spec_boolean(s@, pos as int) == Some((j as int, b)) && pos < j
            <= s@.len()),
        (r is Err ==> spec_boolean(s@, pos as int) is None),
        (r matches Err(e) ==> e == (ParseError { offset: pos, kind: ParseErrorKind::BooleanExpected })),
{
    let n = s.len();
    if n - pos >= 4 && s[pos] == 't' && s[pos + 1] == 'r' && s[pos + 2] == 'u' && s[pos + 3]
        == 'e' {
        Ok((pos + 4, true))
    } else if n - pos >= 3 && s[pos] == 'y' && s[pos + 1] == 'e' && s[pos + 2] == 's' {
        Ok((pos + 3, true))
    } else if n - pos >= 5 && s[pos] == 'f' && s[pos + 1] == 'a' && s[pos + 2] == 'l' && s[pos + 3]
        == 's' && s[pos + 4] == 'e' {
        Ok((pos + 5, false))
    } else if n - pos >= 2 && s[pos] == 'n' && s[pos + 1] == 'o' {
        Ok((pos + 2, false))
    } else {
        Err(ParseError { offset: pos, kind: ParseErrorKind::BooleanExpected })
    }
}

/// Numeric value of a digit character.
fn char_digit_val(c: char) -> (d: u64)
    requires
        is_digit_char(c),
    ensures
        d as int == digit_of(c),
        d < 10,
{
    (c as u32 as u64) - 48
}

/// Parses an integer literal as a 32-bit signed value; a value out of range
/// is rejected, never truncated.
pub fn parse_integer(s: &Vec<char>, pos: usize) -> (r: Result<(usize, i32), ParseError>)
    requires
        pos <= s@.len(),
    ensures
        (r matches Ok((j, v)) ==> spec_integer(s@, pos as int) == Some((j as int, v as int)) && pos
            < j <= s@.len()),
        (r is Err ==> spec_integer(s@, pos as int) is None),
        (r matches Err(e) ==> e.offset == pos && (e.kind == ParseErrorKind::IntegerExpected
            || e.kind == ParseErrorKind::IntegerOverflow)),
{
    let neg = pos < s.len() && s[pos] == '-';
    let i1 = if pos < s.len() && (s[pos] == '-' || s[pos] == '+') {
        pos + 1
    } else {
        pos
    };
    let j = digits_end(s, i1);
    if j == i1 {
        return Err(ParseError { offset: pos, kind: ParseErrorKind::IntegerExpected });
    }
    proof {
        lemma_scan_digits(s@, i1 as int);
    }
    let mut acc: u64 = 0;
    let mut over = false;
    let mut k = i1;
    while k < j
        invariant
            i1 <= k <= j <= s@.len(),
            j as int == scan_digits_end(s@, i1 as int),
            forall|m: int| i1 <= m < j ==> is_digit_char(s@[m]),
            !over ==> acc as int == digits_val(s@, i1 as int, k as int) && acc
                < 100_000_000_000u64,
            over ==> digits_val(s@, i1 as int, k as int) >= 10_000_000_000,
        decreases j - k,
    {
        let ghost old_k = k as int;
        proof {
            lemma_digits_val_nonneg(s@, i1 as int, old_k);
        }
        let d = char_digit_val(s[k]);
        if over {
            proof {
                lemma_digits_val_mono(s@, i1 as int, old_k, old_k + 1);
            }
        } else if acc >= 10_000_000_000 {
            over = true;
            proof {
                lemma_digits_val_mono(s@, i1 as int, old_k, old_k + 1);
            }
        } else {
            acc = acc * 10 + d;
        }
        k = k + 1;
    }
    if over {
        proof {
            lemma_digits_val_nonneg(s@, i1 as int, j as int);
        }
        return Err(ParseError { offset: pos, kind: ParseErrorKind::IntegerOverflow });
    }
    if neg {
        if acc > 2147483648 {
            return Err(ParseError { offset: pos, kind: ParseErrorKind::IntegerOverflow });
        }
        let v: i64 = -(acc as i64);
        Ok((j, v as i32))
    } else {
        if acc > 2147483647 {
            return Err(ParseError { offset: pos, kind: ParseErrorKind::IntegerOverflow });
        }
        Ok((j, acc as i32))
    }
}

/// Parses a floating-point literal into its canonical rendering.
pub fn parse_real(s: &Vec<char>, pos: usize) -> (r: Result<(usize, String), ParseError>)
    requires
        pos <= s@.len(),
    ensures
        (r matches Ok((j, c)) ==> spec_real(s@, pos as int) == Some((j as int, c@)) && pos < j
            <= s@.len() && real_stable(c@)),
        (r is Err ==> spec_real(s@, pos as int) is None),
        (r matches Err(e) ==> e == (ParseError { offset: pos, kind: ParseErrorKind::RealExpected })),
{
    match real_end(s, pos) {
        None => Err(ParseError { offset: pos, kind: ParseErrorKind::RealExpected }),
        Some(j) => {
            let lit = extract_string(s, pos, j);
            let canon = canonical_real(&lit);
            Ok((j, canon))
        },
    }
}

/// Parses a vector delimiter: a comma, then any whitespace.
pub fn parse_vector_delimiter(s: &Vec<char>, pos: usize) -> (r: Result<usize, ParseError>)
    requires
        pos <= s@.len(),
    ensures
        (r matches Ok(k) ==> spec_vec_delim(s@, pos as int) == Some(k as int) && pos < k
            <= s@.len()),
        (r is Err ==> spec_vec_delim(s@, pos as int) is None),
        (r matches Err(e) ==> e == (ParseError { offset: pos, kind: ParseErrorKind::DelimiterExpected })),
{
    if pos < s.len() && s[pos] == ',' {
        let k = ws_end(s, pos + 1);
        Ok(k)
    } else {
        Err(ParseError { offset: pos, kind: ParseErrorKind::DelimiterExpected })
    }
}

/// Parses a quoted string: raw characters up to the closing quote.
pub fn parse_string(s: &Vec<char>, pos: usize) -> (r: Result<(usize, String), ParseError>)
    requires
        pos <= s@.len(),
    ensures
        (r matches Ok((j, t)) ==> spec_quoted(s@, pos as int) == Some((j as int, t@)) && pos < j
            <= s@.len()),
        (r is Err ==> spec_quoted(s@, pos as int) is None),
        (r matches Err(e) ==> e.offset == pos && (e.kind == ParseErrorKind::UnterminatedString
            <==> (pos < s@.len() && s@[pos as int] == '"')) && (e.kind
            == ParseErrorKind::UnterminatedString || e.kind == ParseErrorKind::StringExpected)),
{
    if pos < s.len() && s[pos] == '"' {
        match quote_pos(s, pos + 1) {
            Some(k) => {
                let t = extract_string(s, pos + 1, k);
                Ok((k + 1, t))
            },
            None => Err(ParseError { offset: pos, kind: ParseErrorKind::UnterminatedString }),
        }
    } else {
        Err(ParseError { offset: pos, kind: ParseErrorKind::StringExpected })
    }
}

/// Parses a type tag.
pub fn parse_blk_type(s: &Vec<char>, pos: usize) -> (r: Result<(usize, BlkType), ParseError>)
    requires
        pos <= s@.len(),
    ensures
        (r matches Ok((j, t)) ==> spec_blk_type(s@, pos as int) == Some((j as int, t)) && pos < j
            <= s@.len()),
        (r is Err ==> spec_blk_type(s@, pos as int) is None),
        (r matches Err(e) ==> e == (ParseError { offset: pos, kind: ParseErrorKind::UnknownPropertyType })),
{
    let n = s.len();
    if pos < n && s[pos] == 't' {
        Ok((pos + 1, BlkType::Text))
    } else if pos < n && s[pos] == 'b' {
        Ok((pos + 1, BlkType::Boolean))
    } else if pos < n && s[pos] == 'i' {
        Ok((pos + 1, BlkType::Integer))
    } else if pos < n && s[pos] == 'r' {
        Ok((pos + 1, BlkType::Real))
    } else if pos < n && s[pos] == 'p' && n - pos >= 2 && s[pos + 1] == '2' {
        Ok((pos + 2, BlkType::Point2))
    } else if pos < n && s[pos] == 'p' && n - pos >= 2 && s[pos + 1] == '3' {
        Ok((pos + 2, BlkType::Point3))
    } else if pos < n && s[pos] == 'p' && n - pos >= 2 && s[pos + 1] == '4' {
        Ok((pos + 2, BlkType::Point4))
    } else if pos < n && s[pos] == 'c' {
        Ok((pos + 1, BlkType::Color))
    } else {
        Err(ParseError { offset: pos, kind: ParseErrorKind::UnknownPropertyType })
    }
}


/// Parses the two comma-separated components of a `p2` value.
fn parse_point2(s: &Vec<char>, pos: usize) -> (r: Result<(usize, BlkPropertyValue), ParseError>)
    requires
        pos <= s@.len(),
    ensures
        (r matches Ok((j, v)) ==> spec_property_value(s@, pos as int, BlkType::Point2) == Some(
            (j as int, v@),
        ) && pos < j <= s@.len() && value_reals_stable(v@)),
        (r is Err ==> spec_property_value(s@, pos as int, BlkType::Point2) is None),
{
    let (j1, a) = match parse_real(s, pos) {
        Ok(x) => x,
        Err(e) => {
            return Err(e);
        },
    };
    let j2 = match parse_vector_delimiter(s, j1) {
        Ok(x) => x,
        Err(e) => {
            return Err(e);
        },
    };
    let (j3, b) = match parse_real(s, j2) {
        Ok(x) => x,
        Err(e) => {
            return Err(e);
        },
    };
    Ok((j3, BlkPropertyValue::Vector2(a, b)))
}

/// Parses the three comma-separated components of a `p3` value.
fn parse_point3(s: &Vec<char>, pos: usize) -> (r: Result<(usize, BlkPropertyValue), ParseError>)
    requires
        pos <= s@.len(),
    ensures
        (r matches Ok((j, v)) ==> spec_property_value(s@, pos as int, BlkType::Point3) == Some(
            (j as int, v@),
        ) && pos < j <= s@.len() && value_reals_stable(v@)),
        (r is Err ==> spec_property_value(s@, pos as int, BlkType::Point3) is None),
{
    let (j1, a) = match parse_real(s, pos) {
        Ok(x) => x,
        Err(e) => {
            return Err(e);
        },
    };
    let j2 = match parse_vector_delimiter(s, j1) {
        Ok(x) => x,
        Err(e) => {
            return Err(e);
        },
    };
    let (j3, b) = match parse_real(s, j2) {
        Ok(x) => x,
        Err(e) => {
            return Err(e);
        },
    };
    let j4 = match parse_vector_delimiter(s, j3) {
        Ok(x) => x,
        Err(e) => {
            return Err(e);
        },
    };
    let (j5, c) = match parse_real(s, j4) {
        Ok(x) => x,
        Err(e) => {
            return Err(e);
        },
    };
    Ok((j5, BlkPropertyValue::Vector3(a, b, c)))
}

/// Parses the four comma-separated components of a `p4` value.
fn parse_point4(s: &Vec<char>, pos: usize) -> (r: Result<(usize, BlkPropertyValue), ParseError>)
    requires
        pos <= s@.len(),
    ensures
        (r matches Ok((j, v)) ==> spec_property_value(s@, pos as int, BlkType::Point4) == Some(
            (j as int, v@),
        ) && pos < j <= s@.len() && value_reals_stable(v@)),
        (r is Err ==> spec_property_value(s@, pos as int, BlkType::Point4) is None),
{
    let (j1, a) = match parse_real(s, pos) {
        Ok(x) => x,
        Err(e) => {
            return Err(e);
        },
    };
    let j2 = match parse_vector_delimiter(s, j1) {
        Ok(x) => x,
        Err(e) => {
            return Err(e);
        },
    };
    let (j3, b) = match parse_real(s, j2) {
        Ok(x) => x,
        Err(e) => {
            return Err(e);
        },
    };
    let j4 = match parse_vector_delimiter(s, j3) {
        Ok(x) => x,
        Err(e) => {
            return Err(e);
        },
    };
    let (j5, c) = match parse_real(s, j4) {
        Ok(x) => x,
        Err(e) => {
            return Err(e);
        },
    };
    let j6 = match parse_vector_delimiter(s, j5) {
        Ok(x) => x,
        Err(e) => {
            return Err(e);
        },
    };
    let (j7, d) = match parse_real(s, j6) {
        Ok(x) => x,
        Err(e) => {
            return Err(e);
        },
    };
    Ok((j7, BlkPropertyValue::Vector4(a, b, c, d)))
}

/// Parses the four comma-separated integer channels of a `c` value.
fn parse_color(s: &Vec<char>, pos: usize) -> (r: Result<(usize, BlkPropertyValue), ParseError>)
    requires
        pos <= s@.len(),
    ensures
        (r matches Ok((j, v)) ==> spec_property_value(s@, pos as int, BlkType::Color) == Some(
            (j as int, v@),
        ) && pos < j <= s@.len() && value_reals_stable(v@)),
        (r is Err ==> spec_property_value(s@, pos as int, BlkType::Color) is None),
{
    let (j1, a) = match parse_integer(s, pos) {
        Ok(x) => x,
        Err(e) => {
            return Err(e);
        },
    };
    let j2 = match parse_vector_delimiter(s, j1) {
        Ok(x) => x,
        Err(e) => {
            return Err(e);
        },
    };
    let (j3, b) = match parse_integer(s, j2) {
        Ok(x) => x,
        Err(e) => {
            return Err(e);
        },
    };
    let j4 = match parse_vector_delimiter(s, j3) {
        Ok(x) => x,
        Err(e) => {
            return Err(e);
        },
    };
    let (j5, c) = match parse_integer(s, j4) {
        Ok(x) => x,
        Err(e) => {
            return Err(e);
        },
    };
    let j6 = match parse_vector_delimiter(s, j5) {
        Ok(x) => x,
        Err(e) => {
            return Err(e);
        },
    };
    let (j7, d) = match parse_integer(s, j6) {
        Ok(x) => x,
        Err(e) => {
            return Err(e);
        },
    };
    Ok((j7, BlkPropertyValue::Color(a, b, c, d)))
}

/// Parses the value of a property of type `t`.
pub fn parse_property_value(s: &Vec<char>, pos: usize, t: BlkType) -> (r: Result<
    (usize, BlkPropertyValue),
    ParseError,
>)
    requires
        pos <= s@.len(),
    ensures
        (r matches Ok((j, v)) ==> spec_property_value(s@, pos as int, t) == Some((j as int, v@))
            && pos < j <= s@.len() && value_reals_stable(v@)),
        (r is Err ==> spec_property_value(s@, pos as int, t) is None),
{
    match t {
        BlkType::Text => {
            let (j, txt) = match parse_string(s, pos) {
                Ok(x) => x,
                Err(e) => {
                    return Err(e);
                },
            };
            Ok((j, BlkPropertyValue::Text(txt)))
        },
        BlkType::Boolean => {
            let (j, b) = match parse_boolean(s, pos) {
                Ok(x) => x,
                Err(e) => {
                    return Err(e);
                },
            };
            Ok((j, BlkPropertyValue::Boolean(b)))
        },
        BlkType::Integer => {
            let (j, v) = match parse_integer(s, pos) {
                Ok(x) => x,
                Err(e) => {
                    return Err(e);
                },
            };
            Ok((j, BlkPropertyValue::Integer(v)))
        },
        BlkType::Real => {
            let (j, c) = match parse_real(s, pos) {
                Ok(x) => x,
                Err(e) => {
                    return Err(e);
                },
            };
            Ok((j, BlkPropertyValue::Real(c)))
        },
        BlkType::Point2 => parse_point2(s, pos),
        BlkType::Point3 => parse_point3(s, pos),
        BlkType::Point4 => parse_point4(s, pos),
        BlkType::Color => parse_color(s, pos),
    }
}

/// Parses a property: `identifier ':' type '=' value`.
pub fn parse_property(s: &Vec<char>, pos: usize) -> (r: Result<(usize, BlkEntry), ParseError>)
    requires
        pos <= s@.len(),
    ensures
        (r matches Ok((j, e)) ==> spec_property(s@, pos as int) == Some((j as int, e@)) && pos < j
            <= s@.len() && entry_reals_stable(e@)),
        (r is Err ==> spec_property(s@, pos as int) is None),
{
    let (j, key) = match parse_identifier(s, pos) {
        Ok(x) => x,
        Err(e) => {
            return Err(e);
        },
    };
    if !(j < s.len() && s[j] == ':') {
        return Err(ParseError { offset: j, kind: ParseErrorKind::ColonExpected });
    }
    let (k, t) = match parse_blk_type(s, j + 1) {
        Ok(x) => x,
        Err(e) => {
            return Err(e);
        },
    };
    if !(k < s.len() && s[k] == '=') {
        return Err(ParseError { offset: k, kind: ParseErrorKind::EqualsExpected });
    }
    let (m, v) = match parse_property_value(s, k + 1, t) {
        Ok(x) => x,
        Err(e) => {
            return Err(e);
        },
    };
    Ok((m, BlkEntry::Property(BlkProperty { key, value: v })))
}

/// Parses a section: `identifier '{' block '}'`.
pub fn parse_section(s: &Vec<char>, pos: usize) -> (r: Result<(usize, BlkEntry), ParseError>)
    requires
        pos <= s@.len(),
    ensures
        (r matches Ok((j, e)) ==> spec_section(s@, pos as int) == Some((j as int, e@)) && pos < j
            <= s@.len() && entry_reals_stable(e@)),
        (r is Err ==> spec_section(s@, pos as int) is None),
    decreases s@.len() - pos, 1int,
{
    let j = ident_end(s, pos);
    if j == pos {
        return Err(ParseError { offset: pos, kind: ParseErrorKind::EmptyIdentifier });
    }
    if !(j < s.len() && s[j] == '{') {
        return Err(ParseError { offset: j, kind: ParseErrorKind::BraceExpected });
    }
    let name = extract_string(s, pos, j);
    let (k, blk) = parse_block(s, j + 1);
    if k < s.len() && s[k] == '}' {
        Ok((k + 1, BlkEntry::Section(BlkSection { name, entries: blk.entries })))
    } else {
        Err(ParseError { offset: k, kind: ParseErrorKind::BraceExpected })
    }
}

/// Parses an entry: whitespace, then a section or a property, then a
/// separator.
pub fn parse_entry(s: &Vec<char>, pos: usize) -> (r: Result<(usize, BlkEntry), ParseError>)
    requires
        pos <= s@.len(),
    ensures
        (r matches Ok((k, e)) ==> spec_entry(s@, pos as int) == Some((k as int, e@)) && pos < k
            <= s@.len() && entry_reals_stable(e@)),
        (r is Err ==> spec_entry(s@, pos as int) is None),
    decreases s@.len() - pos, 2int,
{
    let i1 = ws_end(s, pos);
    let fe = match parse_section(s, i1) {
        Ok(x) => Ok(x),
        Err(_) => parse_property(s, i1),
    };
    match fe {
        Err(e) => Err(e),
        Ok((j, ent)) => match parse_separator(s, j) {
            Ok(k) => Ok((k, ent)),
            Err(e) => Err(e),
        },
    }
}

/// Parses a block: entries as long as an entry parses, then trailing
/// whitespace. Never fails; reports where it stopped.
pub fn parse_block(s: &Vec<char>, pos: usize) -> (r: (usize, BlkBlock))
    requires
        pos <= s@.len(),
    ensures
        r.0 as int == spec_block(s@, pos as int).0,
        r.1@ == spec_block(s@, pos as int).1,
        pos <= r.0 <= s@.len(),
        entries_reals_stable(r.1@),
    decreases s@.len() - pos, 3int,
{
    match parse_entry(s, pos) {
        Ok((j, e)) => {
            let (k, mut blk) = parse_block(s, j);
            let ghost old_entries = blk.entries@;
            blk.entries.insert(0, e);
            proof {
                assert(blk.entries@.drop_first() =~= old_entries);
                assert(view_entries(blk.entries@) =~= seq![e@] + view_entries(old_entries));
                let es = view_entries(blk.entries@);
                assert forall|m: int| 0 <= m < es.len() implies entry_reals_stable(
                    #[trigger] es[m],
                ) by {
                    if m > 0 {
                        assert(es[m] == view_entries(old_entries)[m - 1]);
                    }
                }
            }
            (k, blk)
        },
        Err(_) => {
            let k = ws_end(s, pos);
            (k, BlkBlock { entries: Vec::new() })
        },
    }
}

/// Parses a whole configuration. Always succeeds: the result holds the
/// unconsumed leftover text (empty when the whole input parsed) and the
/// configuration holding the entries parsed before the leftover.
pub fn parse_config(input: &str) -> (r: Result<(String, BlkConfig), ParseError>)
    ensures
        r is Ok,
        (r matches Ok((rest, config)) ==> config@ == spec_config(input@).1 && rest@
            == input@.subrange(spec_config(input@).0, input@.len() as int)
            && entries_reals_stable(config@)),
{
    let chars = str_to_chars(input);
    let (k, blk) = parse_block(&chars, 0);
    let rest = extract_string(&chars, k, chars.len());
    Ok((rest, BlkConfig { block: blk }))
}

} // verus!
