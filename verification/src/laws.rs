//! The laws of the format: well-formedness of a configuration tree, and the
//! theorem that parsing the canonical text of a well-formed tree gives that
//! tree back — which makes canonicalization idempotent.

use vstd::prelude::*;
use crate::ast::{EntryV, PropertyV, SectionV, ValueV};
use crate::lex::{
    is_digit_char, is_ident_char, is_space_char, lemma_digit_run, lemma_ident_run, lemma_scan_sep,
    lemma_scan_digits, lemma_scan_ident, lemma_scan_to_quote, lemma_skip_ws, lemma_ws_run,
    scan_digits_end, scan_ident_end, scan_sep_end, scan_to_quote, skip_ws,
};
use crate::num::{
    digit_of, digits_val, int_chars, is_real_literal, lemma_digits_val_congr,
    lemma_nat_chars_digits, lemma_nat_chars_val, nat_chars, real_canon, scan_real_end,
};
use crate::parse::{
    spec_block, spec_boolean, spec_config, spec_entry, spec_ident, spec_integer, spec_property,
    spec_property_value, spec_quoted, spec_real, spec_section, spec_separator, spec_vec_delim,
    BlkType,
};
use crate::ser::{indent_chars, ser_config, ser_entries, ser_entry, ser_value};

verus! {

/// A valid identifier: non-empty, made of letters, digits, and underscores.
pub open spec fn wf_ident(t: Seq<char>) -> bool {
    t.len() > 0 && forall|k: int| 0 <= k < t.len() ==> is_ident_char(#[trigger] t[k])
}

/// A representable text value: the format has no escapes, so a quote inside
/// the text could not be read back.
pub open spec fn wf_text(t: Seq<char>) -> bool {
    forall|k: int| 0 <= k < t.len() ==> #[trigger] t[k] != '"'
}

/// A value that fits a 32-bit signed integer.
pub open spec fn in_i32(i: int) -> bool {
    -2147483648 <= i <= 2147483647
}

/// A real component in canonical form: the text is itself a floating-point
/// literal, and re-canonicalizing it changes nothing.
pub open spec fn canon_real(r: Seq<char>) -> bool {
    is_real_literal(r) && real_canon(r) == r
}

/// Structural well-formedness of a value: texts representable, integers in
/// range. Every value a parse produces satisfies this.
pub open spec fn wf_struct_value(v: ValueV) -> bool {
    match v {
        ValueV::Text(t) => wf_text(t),
        ValueV::Integer(i) => in_i32(i),
        ValueV::Color(a, b, c, d) => in_i32(a) && in_i32(b) && in_i32(c) && in_i32(d),
        _ => true,
    }
}

/// The real components of a value are canonical literals. A parse produces
/// canonical components, but a literal whose value overflows the 32-bit
/// range canonicalizes to an `inf` rendering, which is not itself a literal;
/// such components fall outside this predicate.
pub open spec fn wf_reals_value(v: ValueV) -> bool {
    match v {
        ValueV::Real(r) => canon_real(r),
        ValueV::Vector2(a, b) => canon_real(a) && canon_real(b),
        ValueV::Vector3(a, b, c) => canon_real(a) && canon_real(b) && canon_real(c),
        ValueV::Vector4(a, b, c, d) => canon_real(a) && canon_real(b) && canon_real(c)
            && canon_real(d),
        _ => true,
    }
}

/// Structural well-formedness of an entry, through nested sections.
pub open spec fn wf_struct_entry(e: EntryV) -> bool
    decreases e, 0int,
{
    match e {
        EntryV::Section(sec) => wf_ident(sec.name) && wf_struct_entries(sec.entries),
        EntryV::Property(p) => wf_ident(p.key) && wf_struct_value(p.value),
    }
}

/// Structural well-formedness of a list of entries.
pub open spec fn wf_struct_entries(es: Seq<EntryV>) -> bool
    decreases es, 1int,
{
    forall|k: int| 0 <= k < es.len() ==> wf_struct_entry(#[trigger] es[k])
}

/// All real components of an entry are canonical literals.
pub open spec fn wf_reals_entry(e: EntryV) -> bool
    decreases e, 0int,
{
    match e {
        EntryV::Section(sec) => wf_reals_entries(sec.entries),
        EntryV::Property(p) => wf_reals_value(p.value),
    }
}

/// All real components of a list of entries are canonical literals.
pub open spec fn wf_reals_entries(es: Seq<EntryV>) -> bool
    decreases es, 1int,
{
    forall|k: int| 0 <= k < es.len() ==> wf_reals_entry(#[trigger] es[k])
}

/// Separator flexibility: `;`, `\n`, and `\r\n` each open a separator, and
/// nothing else does; a separator absorbs every consecutive terminator, so a
/// mixture such as `;\n;` is one separator.
pub proof fn lemma_separator_flexibility(s: Seq<char>, i: int)
    requires
        0 <= i <= s.len(),
    ensures
        spec_separator(s, i) is Some <==> (i < s.len() && (s[i] == ';' || s[i] == '\n' || (s[i]
            == '\r' && i + 1 < s.len() && s[i + 1] == '\n'))),
        match spec_separator(s, i) {
            Some(k) => i < k <= s.len() && !(k < s.len() && (s[k] == ';' || s[k] == '\n')) && !(k
                + 1 < s.len() && s[k] == '\r' && s[k + 1] == '\n'),
            None => true,
        },
{
    lemma_scan_sep(s, i);
    if i < s.len() && (s[i] == ';' || s[i] == '\n') {
        lemma_scan_sep(s, i + 1);
    } else if i + 1 < s.len() && s[i] == '\r' && s[i + 1] == '\n' {
        lemma_scan_sep(s, i + 2);
    }
}

/// Boolean aliasing: `true` and `yes` parse to the same value, as do `false`
/// and `no`; the serializer always emits the canonical spelling `yes`/`no`.
pub proof fn lemma_boolean_aliasing(s: Seq<char>, i: int, b: bool)
    requires
        0 <= i <= s.len(),
    ensures
        (i + 4 <= s.len() && s[i] == 't' && s[i + 1] == 'r' && s[i + 2] == 'u' && s[i + 3] == 'e')
            ==> spec_boolean(s, i) == Some(((i + 4), true)),
        (i + 3 <= s.len() && s[i] == 'y' && s[i + 1] == 'e' && s[i + 2] == 's') ==> spec_boolean(
            s,
            i,
        ) == Some(((i + 3), true)),
        (i + 5 <= s.len() && s[i] == 'f' && s[i + 1] == 'a' && s[i + 2] == 'l' && s[i + 3] == 's'
            && s[i + 4] == 'e') ==> spec_boolean(s, i) == Some(((i + 5), false)),
        (i + 2 <= s.len() && s[i] == 'n' && s[i + 1] == 'o') ==> spec_boolean(s, i) == Some(
            ((i + 2), false),
        ),
        ser_value(ValueV::Boolean(b)) == if b {
            seq!['b', '=', 'y', 'e', 's']
        } else {
            seq!['b', '=', 'n', 'o']
        },
{
}

/// A quote-free run followed by a quote scans to exactly that quote.
pub proof fn lemma_quote_run(s: Seq<char>, i: int, j: int)
    requires
        0 <= i <= j < s.len(),
        forall|k: int| i <= k < j ==> s[k] != '"',
        s[j] == '"',
    ensures
        scan_to_quote(s, i) == Some(j),
    decreases j - i,
{
    if i < j {
        lemma_quote_run(s, i + 1, j);
    }
}

/// Indentation is four spaces per level.
pub proof fn lemma_indent_spaces(d: int)
    requires
        d >= 0,
    ensures
        indent_chars(d).len() == 4 * d,
        forall|k: int| 0 <= k < 4 * d ==> #[trigger] indent_chars(d)[k] == ' ',
    decreases d,
{
    if d > 0 {
        lemma_indent_spaces(d - 1);
        assert forall|k: int| 0 <= k < 4 * d implies #[trigger] indent_chars(d)[k] == ' ' by {
            if k < 4 * (d - 1) {
                assert(indent_chars(d)[k] == indent_chars(d - 1)[k]);
            } else {
                assert(indent_chars(d)[k] == seq![' ', ' ', ' ', ' '][k - 4 * (d - 1)]);
            }
        }
    }
}

/// A floating-point literal is non-empty and starts with a sign or a digit.
pub proof fn lemma_real_literal_first(r: Seq<char>)
    requires
        is_real_literal(r),
    ensures
        r.len() >= 1,
        r[0] == '+' || r[0] == '-' || is_digit_char(r[0]),
{
    if r.len() == 0 {
        assert(scan_real_end(r, 0) == None::<int>);
    } else {
        if !(r[0] == '+' || r[0] == '-') {
            lemma_scan_digits(r, 0);
            assert(scan_digits_end(r, 0) != 0);
            assert(is_digit_char(r[0]));
        }
    }
}

/// The canonical rendering of an integer is non-empty and starts with a
/// minus sign or a digit.
pub proof fn lemma_int_chars_first(n: int)
    ensures
        int_chars(n).len() >= 1,
        int_chars(n)[0] == '-' || is_digit_char(int_chars(n)[0]),
{
    if n == 0 {
    } else if n < 0 {
        lemma_nat_chars_digits(-n);
    } else {
        lemma_nat_chars_digits(n);
    }
}

/// Reading the canonical rendering of a 32-bit integer, delimited on the
/// right by a non-digit, gives the integer back.
pub proof fn lemma_int_roundtrip(s: Seq<char>, i: int, n: int)
    requires
        in_i32(n),
        0 <= i,
        i + int_chars(n).len() <= s.len(),
        s.subrange(i, i + int_chars(n).len() as int) == int_chars(n),
        i + int_chars(n).len() == s.len() || !is_digit_char(s[i + int_chars(n).len()]),
    ensures
        spec_integer(s, i) == Some(((i + int_chars(n).len() as int), n)),
{
    let t = int_chars(n);
    let l = t.len() as int;
    assert forall|k: int| 0 <= k < l implies s[i + k] == t[k] by {
        assert(t[k] == s.subrange(i, i + l)[k]);
    }
    lemma_int_chars_first(n);
    assert(s.subrange(i, i + l)[0] == s[i]);
    assert(s[i] == t[0]);
    if n == 0 {
        assert(s[i] == '0');
        assert(!(s[i] == '-' || s[i] == '+'));
        lemma_digit_run(s, i, i + 1);
        assert(digits_val(s, i, i as int) == 0);
        assert(digits_val(s, i, i + 1) == digit_of('0'));
    } else if n > 0 {
        lemma_nat_chars_digits(n);
        assert(is_digit_char(s[i]));
        assert(!(s[i] == '-' || s[i] == '+'));
        assert forall|k: int| i <= k < i + l implies is_digit_char(s[k]) by {
            assert(s[k] == t[k - i]);
        }
        lemma_digit_run(s, i, i + l);
        lemma_digits_val_congr(t, s, 0, l, i);
        lemma_nat_chars_val(n);
    } else {
        let m = -n;
        lemma_nat_chars_digits(m);
        assert(t[0] == '-') by {
            assert(t == seq!['-'] + nat_chars(m));
        }
        assert(s[i] == '-');
        assert forall|k: int| i + 1 <= k < i + l implies is_digit_char(s[k]) by {
            assert(s[k] == t[k - i]);
            assert(t[k - i] == nat_chars(m)[k - i - 1]);
        }
        assert(l >= 2) by {
            assert(nat_chars(m).len() >= 1);
        }
        assert(is_digit_char(s[i + 1]));
        lemma_digit_run(s, i + 1, i + l);
        assert forall|k: int| 0 <= k < l - 1 implies #[trigger] nat_chars(m)[k] == s[k + (i + 1)] by {
            assert(s[i + 1 + k] == t[k + 1]);
            assert(t[k + 1] == nat_chars(m)[k]);
        }
        lemma_digits_val_congr(nat_chars(m), s, 0, l - 1, i + 1);
        lemma_nat_chars_val(m);
        assert(digits_val(s, i + 1, i + l) == m);
    }
}

/// Reading a floating-point literal, delimited on the right by a comma, a
/// newline, or the end of the input, consumes exactly the literal.
pub proof fn lemma_real_roundtrip(s: Seq<char>, i: int, r: Seq<char>)
    requires
        is_real_literal(r),
        0 <= i,
        i + r.len() <= s.len(),
        s.subrange(i, i + r.len() as int) == r,
        i + r.len() == s.len() || s[i + r.len()] == ',' || s[i + r.len()] == '\n',
    ensures
        scan_real_end(s, i) == Some(i + r.len() as int),
{
    let l = r.len() as int;
    lemma_real_literal_first(r);
    assert forall|k: int| 0 <= k < l implies s[i + k] == r[k] by {
        assert(r[k] == s.subrange(i, i + l)[k]);
    }
    assert(s.subrange(i, i + l)[0] == s[i]);
    assert(s[i] == r[0]);
    // Mirror the scan of `r` from position 0 onto `s` from position `i`.
    let sgn = r[0] == '+' || r[0] == '-';
    let i1 = if sgn {
        1int
    } else {
        0int
    };
    lemma_scan_digits(r, i1);
    let jr = scan_digits_end(r, i1);
    assert(jr != i1);
    // Integer digits.
    assert forall|k: int| i + i1 <= k < i + jr implies is_digit_char(s[k]) by {
        assert(s[k] == r[k - i]);
    }
    assert(jr == l || !is_digit_char(r[jr]));
    if jr < l {
        assert(s[i + jr] == r[jr]);
    }
    lemma_digit_run(s, i + i1, i + jr);
    assert(scan_digits_end(s, i + i1) == i + jr);
    // Fraction.
    let kr = if jr < l && r[jr] == '.' {
        scan_digits_end(r, jr + 1)
    } else {
        jr
    };
    if jr < l && r[jr] == '.' {
        lemma_scan_digits(r, jr + 1);
        assert forall|k: int| i + jr + 1 <= k < i + kr implies is_digit_char(s[k]) by {
            assert(s[k] == r[k - i]);
        }
        if kr < l {
            assert(s[i + kr] == r[kr]);
            assert(!is_digit_char(r[kr]));
        }
        lemma_digit_run(s, i + jr + 1, i + kr);
        assert(scan_digits_end(s, i + jr + 1) == i + kr);
    } else {
        if jr < l {
            assert(s[i + jr] == r[jr]);
            assert(r[jr] != '.');
        }
    }
    // Exponent.
    if kr < l && (r[kr] == 'e' || r[kr] == 'E') {
        let k1 = if kr + 1 < l && (r[kr + 1] == '+' || r[kr + 1] == '-') {
            kr + 2
        } else {
            kr + 1
        };
        lemma_scan_digits(r, k1);
        let k2 = scan_digits_end(r, k1);
        assert(k2 != k1 && k2 == l);
        assert(kr + 1 < l);
        assert(s[i + kr] == r[kr]);
        if kr + 1 < l {
            assert(s[i + kr + 1] == r[kr + 1]);
        }
        assert forall|k: int| i + k1 <= k < i + l implies is_digit_char(s[k]) by {
            assert(s[k] == r[k - i]);
        }
        lemma_digit_run(s, i + k1, i + l);
        assert(scan_digits_end(s, i + k1) == i + l);
    } else {
        assert(kr == l);
        if i + l < s.len() {
            assert(s[i + l] == ',' || s[i + l] == '\n');
        }
    }
}

/// The type tag under which a value is serialized.
pub open spec fn val_tag(v: ValueV) -> BlkType {
    match v {
        ValueV::Text(_) => BlkType::Text,
        ValueV::Boolean(_) => BlkType::Boolean,
        ValueV::Integer(_) => BlkType::Integer,
        ValueV::Real(_) => BlkType::Real,
        ValueV::Vector2(_, _) => BlkType::Point2,
        ValueV::Vector3(_, _, _) => BlkType::Point3,
        ValueV::Vector4(_, _, _, _) => BlkType::Point4,
        ValueV::Color(_, _, _, _) => BlkType::Color,
    }
}

/// The length of that tag in characters.
pub open spec fn val_tag_len(v: ValueV) -> int {
    match v {
        ValueV::Vector2(_, _) => 2,
        ValueV::Vector3(_, _, _) => 2,
        ValueV::Vector4(_, _, _, _) => 2,
        _ => 1,
    }
}

#[verifier::rlimit(50)]
#[verifier::spinoff_prover]
proof fn lemma_value_rt_text(s: Seq<char>, i: int, v: ValueV)
    requires
        wf_struct_value(v),
        wf_reals_value(v),
        0 <= i,
        i + ser_value(v).len() < s.len(),
        s.subrange(i, i + ser_value(v).len() as int) == ser_value(v),
        s[i + ser_value(v).len()] == '\n',
        v is Text,
    ensures
        crate::parse::spec_blk_type(s, i) == Some(((i + val_tag_len(v)), val_tag(v))),
        s[i + val_tag_len(v)] == '=',
        spec_property_value(s, i + val_tag_len(v) + 1, val_tag(v)) == Some(
            ((i + ser_value(v).len() as int), v),
        ),
{
    let sv = ser_value(v);
    let l = sv.len() as int;
    assert forall|k: int| 0 <= k < l implies s[i + k] == #[trigger] sv[k] by {
        assert(sv[k] == s.subrange(i, i + l)[k]);
    }
    assert(s.subrange(i, i + l)[0] == s[i]);
    assert(s[i] == sv[0]);
    let t = v->Text_0;
    assert(s[i] == 't');
    assert(s[i + 1] == sv[1] && sv[1] == '=');
    assert(s[i + 2] == sv[2] && sv[2] == '"');
    let pq = i + 3;
    let pc = pq + t.len() as int;
    assert(sv[3 + t.len() as int] == '"');
    assert(s[pc] == sv[3 + t.len() as int]);
    assert forall|k: int| pq <= k < pc implies s[k] != '"' by {
        assert(s[k] == sv[k - i]);
        assert(sv[k - i] == t[k - i - 3]);
    }
    lemma_quote_run(s, pq, pc);
    assert(s.subrange(pq, pc) =~= t) by {
        assert forall|k: int| 0 <= k < t.len() implies s.subrange(pq, pc)[k] == t[k] by {
            assert(s.subrange(pq, pc)[k] == s[pq + k]);
            assert(s[pq + k] == sv[3 + k]);
        }
    }
    assert(spec_quoted(s, i + 2) == Some(((i + l), t)));
}

#[verifier::rlimit(50)]
#[verifier::spinoff_prover]
proof fn lemma_value_rt_bool(s: Seq<char>, i: int, v: ValueV)
    requires
        wf_struct_value(v),
        wf_reals_value(v),
        0 <= i,
        i + ser_value(v).len() < s.len(),
        s.subrange(i, i + ser_value(v).len() as int) == ser_value(v),
        s[i + ser_value(v).len()] == '\n',
        v is Boolean,
    ensures
        crate::parse::spec_blk_type(s, i) == Some(((i + val_tag_len(v)), val_tag(v))),
        s[i + val_tag_len(v)] == '=',
        spec_property_value(s, i + val_tag_len(v) + 1, val_tag(v)) == Some(
            ((i + ser_value(v).len() as int), v),
        ),
{
    let sv = ser_value(v);
    let l = sv.len() as int;
    assert forall|k: int| 0 <= k < l implies s[i + k] == #[trigger] sv[k] by {
        assert(sv[k] == s.subrange(i, i + l)[k]);
    }
    assert(s.subrange(i, i + l)[0] == s[i]);
    assert(s[i] == sv[0]);
    let b = v->Boolean_0;
    assert(s[i] == 'b');
    assert(s[i + 1] == sv[1] && sv[1] == '=');
    if b {
        assert(s[i + 2] == sv[2] && s[i + 3] == sv[3] && s[i + 4] == sv[4]);
        assert(sv[2] == 'y' && sv[3] == 'e' && sv[4] == 's');
        assert(spec_boolean(s, i + 2) == Some(((i + 5), true)));
    } else {
        assert(s[i + 2] == sv[2] && s[i + 3] == sv[3]);
        assert(sv[2] == 'n' && sv[3] == 'o');
        assert(spec_boolean(s, i + 2) == Some(((i + 4), false)));
    }
}

#[verifier::rlimit(50)]
#[verifier::spinoff_prover]
proof fn lemma_value_rt_int(s: Seq<char>, i: int, v: ValueV)
    requires
        wf_struct_value(v),
        wf_reals_value(v),
        0 <= i,
        i + ser_value(v).len() < s.len(),
        s.subrange(i, i + ser_value(v).len() as int) == ser_value(v),
        s[i + ser_value(v).len()] == '\n',
        v is Integer,
    ensures
        crate::parse::spec_blk_type(s, i) == Some(((i + val_tag_len(v)), val_tag(v))),
        s[i + val_tag_len(v)] == '=',
        spec_property_value(s, i + val_tag_len(v) + 1, val_tag(v)) == Some(
            ((i + ser_value(v).len() as int), v),
        ),
{
    let sv = ser_value(v);
    let l = sv.len() as int;
    assert forall|k: int| 0 <= k < l implies s[i + k] == #[trigger] sv[k] by {
        assert(sv[k] == s.subrange(i, i + l)[k]);
    }
    assert(s.subrange(i, i + l)[0] == s[i]);
    assert(s[i] == sv[0]);
    let n = v->Integer_0;
    assert(s[i] == 'i');
    assert(s[i + 1] == sv[1] && sv[1] == '=');
    let pa = i + 2;
    let la = int_chars(n).len() as int;
    assert(s.subrange(pa, pa + la) =~= int_chars(n)) by {
        assert forall|k: int| 0 <= k < la implies s.subrange(pa, pa + la)[k] == int_chars(
            n,
        )[k] by {
            assert(s.subrange(pa, pa + la)[k] == s[pa + k]);
            assert(s[pa + k] == sv[2 + k]);
        }
    }
    assert(s[pa + la] == '\n');
    lemma_int_roundtrip(s, pa, n);
}

#[verifier::rlimit(50)]
#[verifier::spinoff_prover]
proof fn lemma_value_rt_real(s: Seq<char>, i: int, v: ValueV)
    requires
        wf_struct_value(v),
        wf_reals_value(v),
        0 <= i,
        i + ser_value(v).len() < s.len(),
        s.subrange(i, i + ser_value(v).len() as int) == ser_value(v),
        s[i + ser_value(v).len()] == '\n',
        v is Real,
    ensures
        crate::parse::spec_blk_type(s, i) == Some(((i + val_tag_len(v)), val_tag(v))),
        s[i + val_tag_len(v)] == '=',
        spec_property_value(s, i + val_tag_len(v) + 1, val_tag(v)) == Some(
            ((i + ser_value(v).len() as int), v),
        ),
{
    let sv = ser_value(v);
    let l = sv.len() as int;
    assert forall|k: int| 0 <= k < l implies s[i + k] == #[trigger] sv[k] by {
        assert(sv[k] == s.subrange(i, i + l)[k]);
    }
    assert(s.subrange(i, i + l)[0] == s[i]);
    assert(s[i] == sv[0]);
    let r = v->Real_0;
    assert(s[i] == 'r');
    assert(s[i + 1] == sv[1] && sv[1] == '=');
    let pa = i + 2;
    let la = r.len() as int;
    assert(s.subrange(pa, pa + la) =~= r) by {
        assert forall|k: int| 0 <= k < la implies s.subrange(pa, pa + la)[k] == r[k] by {
            assert(s.subrange(pa, pa + la)[k] == s[pa + k]);
            assert(s[pa + k] == sv[2 + k]);
        }
    }
    assert(s[pa + la] == '\n');
    lemma_real_roundtrip(s, pa, r);
    assert(spec_real(s, pa) == Some(((i + l), r)));
}

#[verifier::rlimit(80)]
#[verifier::spinoff_prover]
proof fn lemma_value_rt_v2(s: Seq<char>, i: int, v: ValueV)
    requires
        wf_struct_value(v),
        wf_reals_value(v),
        0 <= i,
        i + ser_value(v).len() < s.len(),
        s.subrange(i, i + ser_value(v).len() as int) == ser_value(v),
        s[i + ser_value(v).len()] == '\n',
        v is Vector2,
    ensures
        crate::parse::spec_blk_type(s, i) == Some(((i + val_tag_len(v)), val_tag(v))),
        s[i + val_tag_len(v)] == '=',
        spec_property_value(s, i + val_tag_len(v) + 1, val_tag(v)) == Some(
            ((i + ser_value(v).len() as int), v),
        ),
{
    let sv = ser_value(v);
    let l = sv.len() as int;
    assert forall|k: int| 0 <= k < l implies s[i + k] == #[trigger] sv[k] by {
        assert(sv[k] == s.subrange(i, i + l)[k]);
    }
    assert(s.subrange(i, i + l)[0] == s[i]);
    assert(s[i] == sv[0]);
    let a = v->Vector2_0;
    let b = v->Vector2_1;
    lemma_vector_component(s, i, sv, 3, a, ',');
    let q1 = i + 3 + a.len() as int;
    lemma_delim_then_real(s, q1, sv, q1 - i, b, '\n');
    assert(s[i + 1] == sv[1] && s[i + 2] == sv[2]);
    assert(s[i] == 'p' && sv[1] == '2' && sv[2] == '=');
}

#[verifier::rlimit(80)]
#[verifier::spinoff_prover]
proof fn lemma_value_rt_v3(s: Seq<char>, i: int, v: ValueV)
    requires
        wf_struct_value(v),
        wf_reals_value(v),
        0 <= i,
        i + ser_value(v).len() < s.len(),
        s.subrange(i, i + ser_value(v).len() as int) == ser_value(v),
        s[i + ser_value(v).len()] == '\n',
        v is Vector3,
    ensures
        crate::parse::spec_blk_type(s, i) == Some(((i + val_tag_len(v)), val_tag(v))),
        s[i + val_tag_len(v)] == '=',
        spec_property_value(s, i + val_tag_len(v) + 1, val_tag(v)) == Some(
            ((i + ser_value(v).len() as int), v),
        ),
{
    let sv = ser_value(v);
    let l = sv.len() as int;
    assert forall|k: int| 0 <= k < l implies s[i + k] == #[trigger] sv[k] by {
        assert(sv[k] == s.subrange(i, i + l)[k]);
    }
    assert(s.subrange(i, i + l)[0] == s[i]);
    assert(s[i] == sv[0]);
    let a = v->Vector3_0;
    let b = v->Vector3_1;
    let c = v->Vector3_2;
    lemma_vector_component(s, i, sv, 3, a, ',');
    let q1 = i + 3 + a.len() as int;
    lemma_delim_then_real(s, q1, sv, q1 - i, b, ',');
    let q2 = q1 + 2 + b.len() as int;
    lemma_delim_then_real(s, q2, sv, q2 - i, c, '\n');
    assert(s[i + 1] == sv[1] && s[i + 2] == sv[2]);
    assert(s[i] == 'p' && sv[1] == '3' && sv[2] == '=');
}

#[verifier::rlimit(100)]
#[verifier::spinoff_prover]
proof fn lemma_value_rt_v4(s: Seq<char>, i: int, v: ValueV)
    requires
        wf_struct_value(v),
        wf_reals_value(v),
        0 <= i,
        i + ser_value(v).len() < s.len(),
        s.subrange(i, i + ser_value(v).len() as int) == ser_value(v),
        s[i + ser_value(v).len()] == '\n',
        v is Vector4,
    ensures
        crate::parse::spec_blk_type(s, i) == Some(((i + val_tag_len(v)), val_tag(v))),
        s[i + val_tag_len(v)] == '=',
        spec_property_value(s, i + val_tag_len(v) + 1, val_tag(v)) == Some(
            ((i + ser_value(v).len() as int), v),
        ),
{
    let sv = ser_value(v);
    let l = sv.len() as int;
    assert forall|k: int| 0 <= k < l implies s[i + k] == #[trigger] sv[k] by {
        assert(sv[k] == s.subrange(i, i + l)[k]);
    }
    assert(s.subrange(i, i + l)[0] == s[i]);
    assert(s[i] == sv[0]);
    let a = v->Vector4_0;
    let b = v->Vector4_1;
    let c = v->Vector4_2;
    let d = v->Vector4_3;
    lemma_vector_component(s, i, sv, 3, a, ',');
    let q1 = i + 3 + a.len() as int;
    lemma_delim_then_real(s, q1, sv, q1 - i, b, ',');
    let q2 = q1 + 2 + b.len() as int;
    lemma_delim_then_real(s, q2, sv, q2 - i, c, ',');
    let q3 = q2 + 2 + c.len() as int;
    lemma_delim_then_real(s, q3, sv, q3 - i, d, '\n');
    assert(s[i + 1] == sv[1] && s[i + 2] == sv[2]);
    assert(s[i] == 'p' && sv[1] == '4' && sv[2] == '=');
}

#[verifier::rlimit(100)]
#[verifier::spinoff_prover]
proof fn lemma_value_rt_color(s: Seq<char>, i: int, v: ValueV)
    requires
        wf_struct_value(v),
        wf_reals_value(v),
        0 <= i,
        i + ser_value(v).len() < s.len(),
        s.subrange(i, i + ser_value(v).len() as int) == ser_value(v),
        s[i + ser_value(v).len()] == '\n',
        v is Color,
    ensures
        crate::parse::spec_blk_type(s, i) == Some(((i + val_tag_len(v)), val_tag(v))),
        s[i + val_tag_len(v)] == '=',
        spec_property_value(s, i + val_tag_len(v) + 1, val_tag(v)) == Some(
            ((i + ser_value(v).len() as int), v),
        ),
{
    let sv = ser_value(v);
    let l = sv.len() as int;
    assert forall|k: int| 0 <= k < l implies s[i + k] == #[trigger] sv[k] by {
        assert(sv[k] == s.subrange(i, i + l)[k]);
    }
    assert(s.subrange(i, i + l)[0] == s[i]);
    assert(s[i] == sv[0]);
    let a = v->Color_0;
    let b = v->Color_1;
    let c = v->Color_2;
    let d = v->Color_3;
    lemma_color_component(s, i, sv, 2, a, ',');
    let q1 = i + 2 + int_chars(a).len() as int;
    lemma_delim_then_int(s, q1, sv, q1 - i, b, ',');
    let q2 = q1 + 2 + int_chars(b).len() as int;
    lemma_delim_then_int(s, q2, sv, q2 - i, c, ',');
    let q3 = q2 + 2 + int_chars(c).len() as int;
    lemma_delim_then_int(s, q3, sv, q3 - i, d, '\n');
    assert(s[i + 1] == sv[1]);
    assert(s[i] == 'c' && sv[1] == '=');
}

/// Reading the serialized form of a well-formed value, delimited on the
/// right by the newline the serializer always writes, recovers its tag and
/// then exactly the value.
proof fn lemma_value_roundtrip(s: Seq<char>, i: int, v: ValueV)
    requires
        wf_struct_value(v),
        wf_reals_value(v),
        0 <= i,
        i + ser_value(v).len() < s.len(),
        s.subrange(i, i + ser_value(v).len() as int) == ser_value(v),
        s[i + ser_value(v).len()] == '\n',
    ensures
        crate::parse::spec_blk_type(s, i) == Some(((i + val_tag_len(v)), val_tag(v))),
        s[i + val_tag_len(v)] == '=',
        spec_property_value(s, i + val_tag_len(v) + 1, val_tag(v)) == Some(
            ((i + ser_value(v).len() as int), v),
        ),
{
    match v {
        ValueV::Text(_) => lemma_value_rt_text(s, i, v),
        ValueV::Boolean(_) => lemma_value_rt_bool(s, i, v),
        ValueV::Integer(_) => lemma_value_rt_int(s, i, v),
        ValueV::Real(_) => lemma_value_rt_real(s, i, v),
        ValueV::Vector2(_, _) => lemma_value_rt_v2(s, i, v),
        ValueV::Vector3(_, _, _) => lemma_value_rt_v3(s, i, v),
        ValueV::Vector4(_, _, _, _) => lemma_value_rt_v4(s, i, v),
        ValueV::Color(_, _, _, _) => lemma_value_rt_color(s, i, v),
    }
}

/// A real component whose window sits at `i + off` in `s`, followed by the
/// given delimiter, scans to exactly its end.
proof fn lemma_vector_component(s: Seq<char>, i: int, sv: Seq<char>, off: int, a: Seq<char>, fol:
    char)
    requires
        canon_real(a),
        0 <= i,
        0 <= off,
        off + a.len() < sv.len(),
        i + sv.len() <= s.len(),
        forall|k: int| 0 <= k < sv.len() ==> s[i + k] == #[trigger] sv[k],
        forall|k: int| 0 <= k < a.len() ==> sv[off + k] == #[trigger] a[k],
        sv[off + a.len() as int] == fol,
        fol == ',' || fol == '\n',
    ensures
        spec_real(s, i + off) == Some(((i + off + a.len() as int), a)),
{
    let pa = i + off;
    let la = a.len() as int;
    assert(s.subrange(pa, pa + la) =~= a) by {
        assert forall|k: int| 0 <= k < la implies s.subrange(pa, pa + la)[k] == a[k] by {
            assert(s.subrange(pa, pa + la)[k] == s[pa + k]);
            assert(s[pa + k] == sv[off + k]);
        }
    }
    assert(s[pa + la] == sv[off + la] && sv[off + la] == fol);
    lemma_real_roundtrip(s, pa, a);
}

/// A `", "` delimiter at `q`, then a real component, then the given
/// follower: the delimiter skips to the component and the component scans to
/// its end.
proof fn lemma_delim_then_real(s: Seq<char>, q: int, sv: Seq<char>, off: int, b: Seq<char>, fol:
    char)
    requires
        canon_real(b),
        q == (q - off) + off,
        0 <= q - off,
        0 <= off,
        off + 2 + b.len() < sv.len() + 1,
        (q - off) + sv.len() <= s.len(),
        forall|k: int| 0 <= k < sv.len() ==> s[(q - off) + k] == #[trigger] sv[k],
        sv[off] == ',',
        sv[off + 1] == ' ',
        forall|k: int| 0 <= k < b.len() ==> sv[off + 2 + k] == #[trigger] b[k],
        off + 2 + b.len() == sv.len() ==> fol == '\n' && (q - off) + sv.len() < s.len() && s[(q
            - off) + sv.len()] == '\n',
        off + 2 + b.len() < sv.len() ==> sv[off + 2 + b.len() as int] == fol,
        fol == ',' || fol == '\n',
    ensures
        spec_vec_delim(s, q) == Some(q + 2),
        spec_real(s, q + 2) == Some(((q + 2 + b.len() as int), b)),
{
    let pb = q + 2;
    let lb = b.len() as int;
    assert(s[q] == sv[off] && sv[off] == ',');
    assert(s[q + 1] == sv[off + 1] && sv[off + 1] == ' ');
    lemma_real_literal_first(b);
    assert(s[pb] == b[0]) by {
        assert(s[pb] == sv[off + 2]);
        assert(sv[off + 2] == b[0]);
    }
    assert(!is_space_char(s[pb]));
    lemma_ws_run(s, q + 1, pb);
    assert(skip_ws(s, q + 1) == pb);
    assert(s.subrange(pb, pb + lb) =~= b) by {
        assert forall|k: int| 0 <= k < lb implies s.subrange(pb, pb + lb)[k] == b[k] by {
            assert(s.subrange(pb, pb + lb)[k] == s[pb + k]);
            assert(s[pb + k] == sv[off + 2 + k]);
        }
    }
    if off + 2 + lb == sv.len() {
        assert(s[pb + lb] == '\n');
    } else {
        assert(s[pb + lb] == sv[off + 2 + lb]);
    }
    lemma_real_roundtrip(s, pb, b);
}

/// An integer component whose window sits at `i + off` in `s`, followed by
/// the given delimiter.
proof fn lemma_color_component(s: Seq<char>, i: int, sv: Seq<char>, off: int, n: int, fol: char)
    requires
        in_i32(n),
        0 <= i,
        0 <= off,
        off + int_chars(n).len() < sv.len(),
        i + sv.len() <= s.len(),
        forall|k: int| 0 <= k < sv.len() ==> s[i + k] == #[trigger] sv[k],
        forall|k: int| 0 <= k < int_chars(n).len() ==> sv[off + k] == #[trigger] int_chars(
            n,
        )[k],
        sv[off + int_chars(n).len() as int] == fol,
        fol == ',' || fol == '\n',
    ensures
        spec_integer(s, i + off) == Some(((i + off + int_chars(n).len() as int), n)),
{
    let pa = i + off;
    let la = int_chars(n).len() as int;
    assert(s.subrange(pa, pa + la) =~= int_chars(n)) by {
        assert forall|k: int| 0 <= k < la implies s.subrange(pa, pa + la)[k] == int_chars(n)[k] by {
            assert(s.subrange(pa, pa + la)[k] == s[pa + k]);
            assert(s[pa + k] == sv[off + k]);
        }
    }
    assert(s[pa + la] == sv[off + la] && sv[off + la] == fol);
    assert(!is_digit_char(fol));
    lemma_int_roundtrip(s, pa, n);
}

/// A `", "` delimiter at `q`, then an integer component, then the given
/// follower.
proof fn lemma_delim_then_int(s: Seq<char>, q: int, sv: Seq<char>, off: int, n: int, fol: char)
    requires
        in_i32(n),
        q == (q - off) + off,
        0 <= q - off,
        0 <= off,
        off + 2 + int_chars(n).len() < sv.len() + 1,
        (q - off) + sv.len() <= s.len(),
        forall|k: int| 0 <= k < sv.len() ==> s[(q - off) + k] == #[trigger] sv[k],
        sv[off] == ',',
        sv[off + 1] == ' ',
        forall|k: int| 0 <= k < int_chars(n).len() ==> sv[off + 2 + k] == #[trigger] int_chars(
            n,
        )[k],
        off + 2 + int_chars(n).len() == sv.len() ==> fol == '\n' && (q - off) + sv.len() < s.len()
            && s[(q - off) + sv.len()] == '\n',
        off + 2 + int_chars(n).len() < sv.len() ==> sv[off + 2 + int_chars(n).len() as int]
            == fol,
        fol == ',' || fol == '\n',
    ensures
        spec_vec_delim(s, q) == Some(q + 2),
        spec_integer(s, q + 2) == Some(((q + 2 + int_chars(n).len() as int), n)),
{
    let pb = q + 2;
    let lb = int_chars(n).len() as int;
    assert(s[q] == sv[off] && sv[off] == ',');
    assert(s[q + 1] == sv[off + 1] && sv[off + 1] == ' ');
    lemma_int_chars_first(n);
    assert(s[pb] == int_chars(n)[0]) by {
        assert(s[pb] == sv[off + 2]);
        assert(sv[off + 2] == int_chars(n)[0]);
    }
    assert(!is_space_char(s[pb]));
    lemma_ws_run(s, q + 1, pb);
    assert(skip_ws(s, q + 1) == pb);
    assert(s.subrange(pb, pb + lb) =~= int_chars(n)) by {
        assert forall|k: int| 0 <= k < lb implies s.subrange(pb, pb + lb)[k] == int_chars(n)[k] by {
            assert(s.subrange(pb, pb + lb)[k] == s[pb + k]);
            assert(s[pb + k] == sv[off + 2 + k]);
        }
    }
    if off + 2 + lb == sv.len() {
        assert(s[pb + lb] == '\n');
    } else {
        assert(s[pb + lb] == sv[off + 2 + lb]);
        assert(!is_digit_char(s[pb + lb]));
    }
    lemma_int_roundtrip(s, pb, n);
}

/// The canonical text of a well-formed entry is non-empty and starts with an
/// indentation space or an identifier character.
proof fn lemma_ser_entry_first(e: EntryV, d: int)
    requires
        wf_struct_entry(e),
        d >= 0,
    ensures
        ser_entry(e, d).len() >= 1,
        ser_entry(e, d)[0] == ' ' || is_ident_char(ser_entry(e, d)[0]),
{
    lemma_indent_spaces(d);
    match e {
        EntryV::Section(sec) => {
            if d > 0 {
                assert(ser_entry(e, d)[0] == indent_chars(d)[0]);
            } else {
                assert(indent_chars(0).len() == 0);
                assert(ser_entry(e, d)[0] == sec.name[0]);
                assert(is_ident_char(sec.name[0]));
            }
        },
        EntryV::Property(p) => {
            if d > 0 {
                assert(ser_entry(e, d)[0] == indent_chars(d)[0]);
            } else {
                assert(indent_chars(0).len() == 0);
                assert(ser_entry(e, d)[0] == p.key[0]);
                assert(is_ident_char(p.key[0]));
            }
        },
    }
}

/// Reading the canonical text of one well-formed entry, embedded at `i0`
/// after arbitrary whitespace from `i` on, consumes the whitespace and
/// exactly that text and yields exactly that entry. The character after the
/// text must not begin a separator, which holds everywhere the serializer
/// places an entry.
#[verifier::rlimit(100)]
#[verifier::spinoff_prover]
proof fn lemma_entry_roundtrip(s: Seq<char>, i: int, i0: int, e: EntryV, d: int)
    requires
        wf_struct_entry(e),
        wf_reals_entry(e),
        d >= 0,
        0 <= i <= i0,
        forall|k: int| i <= k < i0 ==> is_space_char(#[trigger] s[k]),
        i0 + ser_entry(e, d).len() <= s.len(),
        s.subrange(i0, i0 + ser_entry(e, d).len() as int) == ser_entry(e, d),
        ({
            let q = i0 + ser_entry(e, d).len() as int;
            q == s.len() || (s[q] != '\n' && s[q] != ';' && s[q] != '\r')
        }),
    ensures
        spec_entry(s, i) == Some(((i0 + ser_entry(e, d).len() as int), e)),
    decreases e, 0int,
{
    let ind = indent_chars(d);
    lemma_indent_spaces(d);
    let t = ser_entry(e, d);
    let lt = t.len() as int;
    let q = i0 + lt;
    assert forall|k: int| 0 <= k < lt implies s[i0 + k] == #[trigger] t[k] by {
        assert(t[k] == s.subrange(i0, i0 + lt)[k]);
    }
    let pk = i0 + 4 * d;
    match e {
        EntryV::Property(p) => {
            let key = p.key;
            let sv = ser_value(p.value);
            let lk = key.len() as int;
            let lv = sv.len() as int;
            let pc = pk + lk;
            let pv = pc + 1;
            let pn = pv + lv;
            assert(lt == 4 * d + lk + 1 + lv + 1);
            // Leading whitespace: the slack, then the indentation.
            assert forall|k: int| i <= k < pk implies is_space_char(s[k]) by {
                if k >= i0 {
                    assert(s[k] == t[k - i0]);
                    assert(t[k - i0] == ind[k - i0]);
                }
            }
            assert(s[pk] == t[4 * d] && t[4 * d] == key[0]);
            assert(is_ident_char(key[0]));
            assert(!is_space_char(s[pk]));
            lemma_ws_run(s, i, pk);
            // The key.
            assert forall|k: int| pk <= k < pc implies is_ident_char(s[k]) by {
                assert(s[k] == t[k - i0]);
                assert(t[k - i0] == key[k - i0 - 4 * d]);
            }
            assert(s[pc] == t[pc - i0] && t[pc - i0] == ':');
            assert(!is_ident_char(':'));
            lemma_ident_run(s, pk, pc);
            assert(s.subrange(pk, pc) =~= key) by {
                assert forall|k: int| 0 <= k < lk implies s.subrange(pk, pc)[k] == key[k] by {
                    assert(s.subrange(pk, pc)[k] == s[pk + k]);
                    assert(s[pk + k] == t[4 * d + k]);
                }
            }
            // A property is not a section: after the key comes `:`, not `{`.
            assert(spec_section(s, pk) is None);
            assert(spec_ident(s, pk) == Some((pc, key)));
            // The tag and the value.
            assert(s.subrange(pv, pn) =~= sv) by {
                assert forall|k: int| 0 <= k < lv implies s.subrange(pv, pn)[k] == sv[k] by {
                    assert(s.subrange(pv, pn)[k] == s[pv + k]);
                    assert(s[pv + k] == t[4 * d + lk + 1 + k]);
                }
            }
            assert(s[pn] == t[lt - 1] && t[lt - 1] == '\n');
            lemma_value_roundtrip(s, pv, p.value);
            assert(spec_property(s, pk) == Some((pn, EntryV::Property(p)))) by {
                assert(PropertyV { key: p.key, value: p.value } == p);
            }
            // The separator: exactly the newline.
            assert(scan_sep_end(s, q) == q);
            assert(scan_sep_end(s, pn) == q);
            assert(spec_separator(s, pn) == Some(q));
            assert(spec_entry(s, i) == Some((q, e)));
        },
        EntryV::Section(sec) => {
            let name = sec.name;
            let es = sec.entries;
            let tin = ser_entries(es, d + 1);
            let ln = name.len() as int;
            let lin = tin.len() as int;
            let pb = pk + ln;
            let pnl = pb + 1;
            let pin = pb + 2;
            let pe = pin + lin;
            let pz = pe + 4 * d;
            let pn2 = pz + 1;
            assert(lt == 4 * d + ln + 2 + lin + 4 * d + 2);
            // Leading whitespace.
            assert forall|k: int| i <= k < pk implies is_space_char(s[k]) by {
                if k >= i0 {
                    assert(s[k] == t[k - i0]);
                    assert(t[k - i0] == ind[k - i0]);
                }
            }
            assert(s[pk] == t[4 * d] && t[4 * d] == name[0]);
            assert(is_ident_char(name[0]));
            assert(!is_space_char(s[pk]));
            lemma_ws_run(s, i, pk);
            // The name, then the opening brace and its newline.
            assert forall|k: int| pk <= k < pb implies is_ident_char(s[k]) by {
                assert(s[k] == t[k - i0]);
                assert(t[k - i0] == name[k - i0 - 4 * d]);
            }
            assert(s[pb] == t[pb - i0] && t[pb - i0] == '{');
            assert(!is_ident_char('{'));
            lemma_ident_run(s, pk, pb);
            assert(s.subrange(pk, pb) =~= name) by {
                assert forall|k: int| 0 <= k < ln implies s.subrange(pk, pb)[k] == name[k] by {
                    assert(s.subrange(pk, pb)[k] == s[pk + k]);
                    assert(s[pk + k] == t[4 * d + k]);
                }
            }
            assert(s[pnl] == t[pnl - i0] && t[pnl - i0] == '\n');
            // The nested block, between `{` and `}`.
            assert(s.subrange(pin, pe) =~= tin) by {
                assert forall|k: int| 0 <= k < lin implies s.subrange(pin, pe)[k] == tin[k] by {
                    assert(s.subrange(pin, pe)[k] == s[pin + k]);
                    assert(s[pin + k] == t[4 * d + ln + 2 + k]);
                }
            }
            assert forall|k: int| pe <= k < pz implies s[k] == ' ' by {
                assert(s[k] == t[k - i0]);
                assert(t[k - i0] == ind[k - i0 - (4 * d + ln + 2 + lin)]);
            }
            assert(s[pz] == t[pz - i0] && t[pz - i0] == '}');
            lemma_block_roundtrip(s, pnl, pin, es, d + 1, pz);
            assert(spec_block(s, pnl) == (pz, es));
            assert(spec_section(s, pk) == Some((pn2, EntryV::Section(sec)))) by {
                assert(SectionV { name: sec.name, entries: sec.entries } == sec);
            }
            // The separator: exactly the newline after the closing brace.
            assert(s[pn2] == t[lt - 1] && t[lt - 1] == '\n');
            assert(scan_sep_end(s, q) == q);
            assert(scan_sep_end(s, pn2) == q);
            assert(spec_separator(s, pn2) == Some(q));
            assert(spec_entry(s, i) == Some((q, e)));
        },
    }
}

/// Reading the canonical text of a well-formed list of entries, embedded at
/// `j` after whitespace from `i` on and followed by spaces up to a closing
/// brace or the end of the input, consumes everything up to that point and
/// yields exactly those entries.
#[verifier::rlimit(100)]
#[verifier::spinoff_prover]
proof fn lemma_block_roundtrip(s: Seq<char>, i: int, j: int, es: Seq<EntryV>, d: int, stop: int)
    requires
        wf_struct_entries(es),
        wf_reals_entries(es),
        d >= 0,
        0 <= i <= j,
        forall|k: int| i <= k < j ==> is_space_char(#[trigger] s[k]),
        j + ser_entries(es, d).len() <= stop <= s.len(),
        s.subrange(j, j + ser_entries(es, d).len() as int) == ser_entries(es, d),
        forall|k: int| j + ser_entries(es, d).len() <= k < stop ==> #[trigger] s[k] == ' ',
        stop == s.len() || s[stop] == '}',
    ensures
        spec_block(s, i) == (stop, es),
    decreases es, 1int,
{
    let w = ser_entries(es, d);
    let lw = w.len() as int;
    assert forall|k: int| 0 <= k < lw implies s[j + k] == #[trigger] w[k] by {
        assert(w[k] == s.subrange(j, j + lw)[k]);
    }
    if es.len() == 0 {
        assert(lw == 0);
        assert forall|k: int| i <= k < stop implies is_space_char(s[k]) by {
            if k >= j {
                assert(s[k] == ' ');
            }
        }
        if stop < s.len() {
            assert(!is_space_char(s[stop]));
        }
        lemma_ws_run(s, i, stop);
        assert(scan_ident_end(s, stop) == stop);
        assert(spec_section(s, stop) is None);
        assert(spec_ident(s, stop) is None);
        assert(spec_property(s, stop) is None);
        assert(spec_entry(s, i) is None);
        assert(es =~= Seq::<EntryV>::empty());
        assert(spec_block(s, i) == (stop, es));
    } else {
        let e0 = es[0];
        let rest = es.drop_first();
        let t0 = ser_entry(e0, d);
        let l0 = t0.len() as int;
        let q0 = j + l0;
        assert(w == t0 + ser_entries(rest, d));
        assert(wf_struct_entry(e0));
        assert(wf_reals_entry(e0));
        assert(wf_struct_entries(rest)) by {
            assert forall|k: int| 0 <= k < rest.len() implies wf_struct_entry(
                #[trigger] rest[k],
            ) by {
                assert(rest[k] == es[k + 1]);
            }
        }
        assert(wf_reals_entries(rest)) by {
            assert forall|k: int| 0 <= k < rest.len() implies wf_reals_entry(
                #[trigger] rest[k],
            ) by {
                assert(rest[k] == es[k + 1]);
            }
        }
        lemma_ser_entry_first(e0, d);
        // The window of the first entry, and the character after it.
        assert(s.subrange(j, q0) =~= t0) by {
            assert forall|k: int| 0 <= k < l0 implies s.subrange(j, q0)[k] == t0[k] by {
                assert(s.subrange(j, q0)[k] == s[j + k]);
                assert(s[j + k] == w[k]);
                assert(w[k] == t0[k]);
            }
        }
        if rest.len() > 0 {
            lemma_ser_entry_first(rest[0], d);
            assert(ser_entries(rest, d) == ser_entry(rest[0], d) + ser_entries(
                rest.drop_first(),
                d,
            ));
            assert(s[q0] == w[l0]);
            assert(w[l0] == ser_entry(rest[0], d)[0]);
            assert(s[q0] != '\n' && s[q0] != ';' && s[q0] != '\r');
        } else {
            assert(lw == l0);
            if q0 < stop {
                assert(s[q0] == ' ');
            }
        }
        lemma_entry_roundtrip(s, i, j, e0, d);
        assert(spec_entry(s, i) == Some((q0, e0)));
        // The rest of the block, from right after the first entry.
        assert(s.subrange(q0, q0 + ser_entries(rest, d).len() as int) =~= ser_entries(rest, d))
            by {
            assert forall|k: int| 0 <= k < ser_entries(rest, d).len() implies s.subrange(
                q0,
                q0 + ser_entries(rest, d).len() as int,
            )[k] == ser_entries(rest, d)[k] by {
                assert(s.subrange(q0, q0 + ser_entries(rest, d).len() as int)[k] == s[q0 + k]);
                assert(s[q0 + k] == w[l0 + k]);
                assert(w[l0 + k] == ser_entries(rest, d)[k]);
            }
        }
        lemma_block_roundtrip(s, q0, q0, rest, d, stop);
        assert(spec_block(s, q0) == (stop, rest));
        assert(seq![e0] + rest =~= es);
        assert(spec_block(s, i) == (stop, es));
    }
}

/// Any value the parser produces is structurally well-formed.
proof fn lemma_parse_value_wf(s: Seq<char>, i: int, t: BlkType)
    ensures
        match spec_property_value(s, i, t) {
            Some((j, v)) => wf_struct_value(v),
            None => true,
        },
{
    match t {
        BlkType::Text => {
            if 0 <= i && i < s.len() && s[i] == '"' {
                lemma_scan_to_quote(s, i + 1);
                if let Some(k) = scan_to_quote(s, i + 1) {
                    assert forall|m: int| 0 <= m < k - i - 1 implies #[trigger] s.subrange(
                        i + 1,
                        k,
                    )[m] != '"' by {
                        assert(s.subrange(i + 1, k)[m] == s[i + 1 + m]);
                    }
                }
            }
        },
        _ => {},
    }
}

/// Any property the parser produces is structurally well-formed.
proof fn lemma_parse_property_wf(s: Seq<char>, i: int)
    requires
        0 <= i <= s.len(),
    ensures
        match spec_property(s, i) {
            Some((j, e)) => wf_struct_entry(e),
            None => true,
        },
{
    lemma_scan_ident(s, i);
    let j = scan_ident_end(s, i);
    if j != i {
        assert forall|k: int| 0 <= k < j - i implies is_ident_char(
            #[trigger] s.subrange(i, j)[k],
        ) by {
            assert(s.subrange(i, j)[k] == s[i + k]);
        }
        assert(wf_ident(s.subrange(i, j)));
        if j < s.len() && s[j] == ':' {
            if let Some((k, t)) = crate::parse::spec_blk_type(s, j + 1) {
                if k < s.len() && s[k] == '=' {
                    lemma_parse_value_wf(s, k + 1, t);
                }
            }
        }
    }
}

/// Any section the parser produces is structurally well-formed.
proof fn lemma_parse_section_wf(s: Seq<char>, i: int)
    requires
        0 <= i <= s.len(),
    ensures
        match spec_section(s, i) {
            Some((j, e)) => wf_struct_entry(e),
            None => true,
        },
    decreases s.len() - i, 1int,
{
    lemma_scan_ident(s, i);
    let j = scan_ident_end(s, i);
    if j != i && j < s.len() && s[j] == '{' {
        assert forall|k: int| 0 <= k < j - i implies is_ident_char(
            #[trigger] s.subrange(i, j)[k],
        ) by {
            assert(s.subrange(i, j)[k] == s[i + k]);
        }
        assert(wf_ident(s.subrange(i, j)));
        lemma_parse_block_wf(s, j + 1);
    }
}

/// Any entry the parser produces is structurally well-formed.
proof fn lemma_parse_entry_wf(s: Seq<char>, i: int)
    requires
        0 <= i <= s.len(),
    ensures
        match spec_entry(s, i) {
            Some((j, e)) => wf_struct_entry(e),
            None => true,
        },
    decreases s.len() - i, 2int,
{
    lemma_skip_ws(s, i);
    let i1 = skip_ws(s, i);
    lemma_parse_section_wf(s, i1);
    lemma_parse_property_wf(s, i1);
}

/// Every entry a block parse produces is structurally well-formed.
proof fn lemma_parse_block_wf(s: Seq<char>, i: int)
    requires
        0 <= i <= s.len(),
    ensures
        wf_struct_entries(spec_block(s, i).1),
    decreases s.len() - i, 3int,
{
    lemma_parse_entry_wf(s, i);
    match spec_entry(s, i) {
        Some((j, e)) => {
            if i < j <= s.len() {
                lemma_parse_block_wf(s, j);
                let rest = spec_block(s, j).1;
                let es = spec_block(s, i).1;
                assert(es == seq![e] + rest);
                assert forall|k: int| 0 <= k < es.len() implies wf_struct_entry(
                    #[trigger] es[k],
                ) by {
                    if k > 0 {
                        assert(es[k] == rest[k - 1]);
                    }
                }
            }
        },
        None => {},
    }
}

/// What a parse returns is structurally well-formed: identifiers are valid,
/// text values hold no quote, and integers fit 32 bits.
pub proof fn lemma_parse_wf(s: Seq<char>)
    ensures
        wf_struct_entries(spec_config(s).1),
{
    lemma_parse_block_wf(s, 0);
}

/// Serialization inverts to parsing: the canonical text of a well-formed
/// configuration parses back to exactly that configuration, with nothing
/// left over. Canonicalization is therefore idempotent.
pub proof fn lemma_serialize_parse_roundtrip(es: Seq<EntryV>)
    requires
        wf_struct_entries(es),
        wf_reals_entries(es),
    ensures
        spec_config(ser_config(es)) == (ser_config(es).len() as int, es),
{
    let s = ser_config(es);
    assert(s.subrange(0, s.len() as int) =~= s);
    lemma_block_roundtrip(s, 0, 0, es, 0, s.len() as int);
}

/// All real components of a value are floating-point literals.
pub open spec fn value_reals_literal(v: ValueV) -> bool {
    match v {
        ValueV::Real(r) => is_real_literal(r),
        ValueV::Vector2(a, b) => is_real_literal(a) && is_real_literal(b),
        ValueV::Vector3(a, b, c) => is_real_literal(a) && is_real_literal(b) && is_real_literal(c),
        ValueV::Vector4(a, b, c, d) => is_real_literal(a) && is_real_literal(b)
            && is_real_literal(c) && is_real_literal(d),
        _ => true,
    }
}

/// All real components of an entry are floating-point literals.
pub open spec fn entry_reals_literal(e: EntryV) -> bool
    decreases e, 0int,
{
    match e {
        EntryV::Section(sec) => entries_reals_literal(sec.entries),
        EntryV::Property(p) => value_reals_literal(p.value),
    }
}

/// All real components of a list of entries are floating-point literals.
pub open spec fn entries_reals_literal(es: Seq<EntryV>) -> bool
    decreases es, 1int,
{
    forall|k: int| 0 <= k < es.len() ==> entry_reals_literal(#[trigger] es[k])
}

proof fn lemma_entry_literal_stable(e: EntryV)
    requires
        entry_reals_literal(e),
        crate::ast::entry_reals_stable(e),
    ensures
        wf_reals_entry(e),
    decreases e, 0int,
{
    match e {
        EntryV::Section(sec) => {
            lemma_entries_literal_stable(sec.entries);
        },
        EntryV::Property(_) => {},
    }
}

/// Real components that are literals and stable under re-canonicalization
/// are exactly in canonical form.
pub proof fn lemma_entries_literal_stable(es: Seq<EntryV>)
    requires
        entries_reals_literal(es),
        crate::ast::entries_reals_stable(es),
    ensures
        wf_reals_entries(es),
    decreases es, 1int,
{
    assert forall|k: int| 0 <= k < es.len() implies wf_reals_entry(#[trigger] es[k]) by {
        lemma_entry_literal_stable(es[k]);
    }
}

/// Whether a stored real component is itself a floating-point literal.
fn real_literal_check(t: &String) -> (ret: bool)
    ensures
        ret == is_real_literal(t@),
{
    let v = crate::strutil::str_to_chars(t.as_str());
    match crate::num::real_end(&v, 0) {
        Some(j) => j == v.len(),
        None => false,
    }
}

/// Whether every real component of a value is a floating-point literal.
fn value_reals_literal_check(v: &crate::ast::BlkPropertyValue) -> (ret: bool)
    ensures
        ret == value_reals_literal(v@),
{
    match v {
        crate::ast::BlkPropertyValue::Real(r) => real_literal_check(r),
        crate::ast::BlkPropertyValue::Vector2(a, b) => real_literal_check(a) && real_literal_check(
            b,
        ),
        crate::ast::BlkPropertyValue::Vector3(a, b, c) => real_literal_check(a)
            && real_literal_check(b) && real_literal_check(c),
        crate::ast::BlkPropertyValue::Vector4(a, b, c, d) => real_literal_check(a)
            && real_literal_check(b) && real_literal_check(c) && real_literal_check(d),
        _ => true,
    }
}

/// Whether every real component of an entry is a floating-point literal.
fn entry_reals_literal_check(e: &crate::ast::BlkEntry) -> (ret: bool)
    ensures
        ret == entry_reals_literal(e@),
    decreases e, 0int,
{
    match e {
        crate::ast::BlkEntry::Section(sec) => {
            let ret = entries_reals_literal_check(&sec.entries, 0);
            proof {
                crate::ast::lemma_view_entries(sec.entries@);
            }
            ret
        },
        crate::ast::BlkEntry::Property(p) => value_reals_literal_check(&p.value),
    }
}

/// Whether every real component of the entries from `from` on is a
/// floating-point literal.
fn entries_reals_literal_check(es: &Vec<crate::ast::BlkEntry>, from: usize) -> (ret: bool)
    requires
        from <= es@.len(),
    ensures
        ret == (forall|k: int|
            from <= k < es@.len() ==> entry_reals_literal(
                #[trigger] crate::ast::view_entries(es@)[k],
            )),
    decreases es, es@.len() - from,
{
    proof {
        crate::ast::lemma_view_entries(es@);
    }
    if from < es.len() {
        let head = entry_reals_literal_check(&es[from]);
        if head {
            let rest = entries_reals_literal_check(es, from + 1);
            proof {
                if rest {
                    assert forall|k: int| from <= k < es@.len() implies entry_reals_literal(
                        #[trigger] crate::ast::view_entries(es@)[k],
                    ) by {
                        if k == from {
                            assert(crate::ast::view_entries(es@)[k] == crate::ast::view_entry(
                                es@[k],
                            ));
                        }
                    }
                } else {
                    assert(exists|k: int|
                        from + 1 <= k < es@.len() && !entry_reals_literal(
                            #[trigger] crate::ast::view_entries(es@)[k],
                        ));
                }
            }
            rest
        } else {
            proof {
                assert(!entry_reals_literal(crate::ast::view_entries(es@)[from as int]));
            }
            false
        }
    } else {
        true
    }
}

/// Parses a text and renders its canonical form. The flag reports whether
/// every real component of the parse is itself a floating-point literal;
/// only a component whose source literal overflows the 32-bit range is not.
/// When the flag is set, the canonical text parses back to exactly the same
/// configuration with nothing left over, so a second canonicalization
/// returns the same text.
pub fn canonicalize(input: &str) -> (r: (String, bool))
    ensures
        r.0@ == ser_config(spec_config(input@).1),
        r.1 ==> spec_config(r.0@) == (r.0@.len() as int, spec_config(input@).1),
{
    let (_, config) = crate::parse::parse_config(input).unwrap();
    let ok = entries_reals_literal_check(&config.block.entries, 0);
    proof {
        crate::ast::lemma_view_entries(config.block.entries@);
        if ok {
            assert(entries_reals_literal(config@));
            lemma_parse_wf(input@);
            lemma_entries_literal_stable(config@);
            lemma_serialize_parse_roundtrip(config@);
        }
    }
    let text = crate::ser::stringify_config(&config);
    (text, ok)
}

/// Idempotent canonicalization: for an input whose parse is well-formed,
/// serializing, re-parsing, and serializing again reproduces the first
/// serialization, and the re-parse loses nothing. The well-formedness of the
/// real components is a genuine hypothesis: a literal whose value overflows
/// the 32-bit range canonicalizes to an `inf` rendering that the grammar
/// does not read back.
pub proof fn lemma_canonicalization_idempotent(text: Seq<char>)
    requires
        wf_reals_entries(spec_config(text).1),
    ensures
        ({
            let c1 = spec_config(text).1;
            let canon = ser_config(c1);
            spec_config(canon).1 == c1 && ser_config(spec_config(canon).1) == canon
        }),
{
    lemma_parse_wf(text);
    lemma_serialize_parse_roundtrip(spec_config(text).1);
}

} // verus!
