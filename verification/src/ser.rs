//! The canonical serializer: a deterministic pretty-printer from the tree
//! back to BLK text. Entries are indented four spaces per nesting depth;
//! properties are rendered `key:tag=value` with newline terminators; booleans
//! always come out as `yes`/`no`, whatever their source spelling was.

use vstd::prelude::*;
use crate::ast::{
    lemma_view_entries, view_entries, view_entry, BlkConfig, BlkEntry, BlkPropertyValue, EntryV,
    ValueV,
};
use crate::num::{int_chars, int_to_string};
use crate::strutil::{append_str_chars, chars_to_string};

verus! {

/// Indentation of a nesting depth: four spaces per level.
pub open spec fn indent_chars(d: int) -> Seq<char>
    decreases d,
{
    if d <= 0 {
        Seq::empty()
    } else {
        indent_chars(d - 1) + seq![' ', ' ', ' ', ' ']
    }
}

/// Canonical text of a property value, type tag included.
pub open spec fn ser_value(v: ValueV) -> Seq<char> {
    match v {
        ValueV::Text(t) => seq!['t', '=', '"'] + t + seq!['"'],
        ValueV::Boolean(b) => if b {
            seq!['b', '=', 'y', 'e', 's']
        } else {
            seq!['b', '=', 'n', 'o']
        },
        ValueV::Integer(i) => seq!['i', '='] + int_chars(i),
        ValueV::Real(r) => seq!['r', '='] + r,
        ValueV::Vector2(a, b) => seq!['p', '2', '='] + a + seq![',', ' '] + b,
        ValueV::Vector3(a, b, c) => seq!['p', '3', '='] + a + seq![',', ' '] + b + seq![',', ' ']
            + c,
        ValueV::Vector4(a, b, c, d) => seq!['p', '4', '='] + a + seq![',', ' '] + b
            + seq![',', ' '] + c + seq![',', ' '] + d,
        ValueV::Color(a, b, c, d) => seq!['c', '='] + int_chars(a) + seq![',', ' '] + int_chars(b)
            + seq![',', ' '] + int_chars(c) + seq![',', ' '] + int_chars(d),
    }
}

/// Canonical text of one entry at nesting depth `d`.
pub open spec fn ser_entry(e: EntryV, d: int) -> Seq<char>
    decreases e, 0int,
{
    match e {
        EntryV::Section(sec) => indent_chars(d) + sec.name + seq!['{', '\n'] + ser_entries(
            sec.entries,
            d + 1,
        ) + indent_chars(d) + seq!['}', '\n'],
        EntryV::Property(p) => indent_chars(d) + p.key + seq![':'] + ser_value(p.value)
            + seq!['\n'],
    }
}

/// Canonical text of a list of entries, in order, at nesting depth `d`.
pub open spec fn ser_entries(es: Seq<EntryV>, d: int) -> Seq<char>
    decreases es, 1int,
{
    if es.len() == 0 {
        Seq::empty()
    } else {
        ser_entry(es[0], d) + ser_entries(es.drop_first(), d)
    }
}

/// Canonical text of a whole configuration.
pub open spec fn ser_config(es: Seq<EntryV>) -> Seq<char> {
    ser_entries(es, 0)
}

/// Appends the characters of `src` to `out`.
fn append_chars(out: &mut Vec<char>, src: &Vec<char>)
    ensures
        final(out)@ == old(out)@ + src@,
{
    let mut k: usize = 0;
    while k < src.len()
        invariant
            k <= src@.len(),
            out@ == old(out)@ + src@.subrange(0, k as int),
        decreases src@.len() - k,
    {
        out.push(src[k]);
        proof {
            assert(old(out)@ + src@.subrange(0, k + 1 as int) =~= (old(out)@ + src@.subrange(
                0,
                k as int,
            )).push(src@[k as int]));
        }
        k = k + 1;
    }
    proof {
        assert(src@.subrange(0, src@.len() as int) =~= src@);
    }
}

/// One more level of indentation.
fn extend_indent(ind: &Vec<char>) -> (r: Vec<char>)
    ensures
        r@ == ind@ + seq![' ', ' ', ' ', ' '],
{
    let mut r: Vec<char> = Vec::new();
    append_chars(&mut r, ind);
    r.push(' ');
    r.push(' ');
    r.push(' ');
    r.push(' ');
    proof {
        assert(r@ =~= ind@ + seq![' ', ' ', ' ', ' ']);
    }
    r
}

/// Writes the canonical text of a property value.
fn write_value(out: &mut Vec<char>, v: &BlkPropertyValue)
    ensures
        final(out)@ == old(out)@ + ser_value(v@),
{
    match v {
        BlkPropertyValue::Text(t) => {
            out.push('t');
            out.push('=');
            out.push('"');
            append_str_chars(out, t);
            out.push('"');
            proof {
                assert(out@ =~= old(out)@ + ser_value(v@));
            }
        },
        BlkPropertyValue::Boolean(b) => {
            out.push('b');
            out.push('=');
            if *b {
                out.push('y');
                out.push('e');
                out.push('s');
            } else {
                out.push('n');
                out.push('o');
            }
            proof {
                assert(out@ =~= old(out)@ + ser_value(v@));
            }
        },
        BlkPropertyValue::Integer(i) => {
            let txt = int_to_string(*i);
            out.push('i');
            out.push('=');
            append_str_chars(out, &txt);
            proof {
                assert(out@ =~= old(out)@ + ser_value(v@));
            }
        },
        BlkPropertyValue::Real(r) => {
            out.push('r');
            out.push('=');
            append_str_chars(out, r);
            proof {
                assert(out@ =~= old(out)@ + ser_value(v@));
            }
        },
        BlkPropertyValue::Vector2(a, b) => {
            out.push('p');
            out.push('2');
            out.push('=');
            append_str_chars(out, a);
            out.push(',');
            out.push(' ');
            append_str_chars(out, b);
            proof {
                assert(out@ =~= old(out)@ + ser_value(v@));
            }
        },
        BlkPropertyValue::Vector3(a, b, c) => {
            out.push('p');
            out.push('3');
            out.push('=');
            append_str_chars(out, a);
            out.push(',');
            out.push(' ');
            append_str_chars(out, b);
            out.push(',');
            out.push(' ');
            append_str_chars(out, c);
            proof {
                assert(out@ =~= old(out)@ + ser_value(v@));
            }
        },
        BlkPropertyValue::Vector4(a, b, c, d) => {
            out.push('p');
            out.push('4');
            out.push('=');
            append_str_chars(out, a);
            out.push(',');
            out.push(' ');
            append_str_chars(out, b);
            out.push(',');
            out.push(' ');
            append_str_chars(out, c);
            out.push(',');
            out.push(' ');
            append_str_chars(out, d);
            proof {
                assert(out@ =~= old(out)@ + ser_value(v@));
            }
        },
        BlkPropertyValue::Color(a, b, c, d) => {
            let ta = int_to_string(*a);
            let tb = int_to_string(*b);
            let tc = int_to_string(*c);
            let td = int_to_string(*d);
            out.push('c');
            out.push('=');
            append_str_chars(out, &ta);
            out.push(',');
            out.push(' ');
            append_str_chars(out, &tb);
            out.push(',');
            out.push(' ');
            append_str_chars(out, &tc);
            out.push(',');
            out.push(' ');
            append_str_chars(out, &td);
            proof {
                assert(out@ =~= old(out)@ + ser_value(v@));
            }
        },
    }
}

/// Writes the canonical text of one entry at the given depth.
fn write_entry(out: &mut Vec<char>, e: &BlkEntry, ind: &Vec<char>, d: Ghost<int>)
    requires
        d@ >= 0,
        ind@ == indent_chars(d@),
    ensures
        final(out)@ == old(out)@ + ser_entry(e@, d@),
    decreases e, 0int,
{
    match e {
        BlkEntry::Section(sec) => {
            append_chars(out, ind);
            append_str_chars(out, &sec.name);
            out.push('{');
            out.push('\n');
            let ind2 = extend_indent(ind);
            proof {
                assert(indent_chars(d@ + 1) == indent_chars(d@) + seq![' ', ' ', ' ', ' ']);
            }
            write_entries(out, &sec.entries, 0, &ind2, Ghost(d@ + 1));
            append_chars(out, ind);
            out.push('}');
            out.push('\n');
            proof {
                assert(view_entries(sec.entries@).skip(0) =~= view_entries(sec.entries@));
                assert(out@ =~= old(out)@ + ser_entry(e@, d@));
            }
        },
        BlkEntry::Property(p) => {
            append_chars(out, ind);
            append_str_chars(out, &p.key);
            out.push(':');
            write_value(out, &p.value);
            out.push('\n');
            proof {
                assert(out@ =~= old(out)@ + ser_entry(e@, d@));
            }
        },
    }
}

/// Writes the canonical text of the entries of `es` from index `from` on.
fn write_entries(out: &mut Vec<char>, es: &Vec<BlkEntry>, from: usize, ind: &Vec<char>, d: Ghost<
    int,
>)
    requires
        from <= es@.len(),
        d@ >= 0,
        ind@ == indent_chars(d@),
    ensures
        final(out)@ == old(out)@ + ser_entries(view_entries(es@).skip(from as int), d@),
    decreases es, es@.len() - from,
{
    proof {
        lemma_view_entries(es@);
    }
    if from < es.len() {
        let ghost tail = view_entries(es@).skip(from as int);
        write_entry(out, &es[from], ind, d);
        write_entries(out, es, from + 1, ind, d);
        proof {
            assert(tail[0] == view_entries(es@)[from as int]);
            assert(tail.drop_first() =~= view_entries(es@).skip(from + 1 as int));
            assert(ser_entries(tail, d@) == ser_entry(tail[0], d@) + ser_entries(
                tail.drop_first(),
                d@,
            ));
            assert(out@ =~= old(out)@ + ser_entries(tail, d@));
        }
    } else {
        proof {
            assert(view_entries(es@).skip(from as int) =~= Seq::<EntryV>::empty());
            assert(out@ =~= old(out)@ + ser_entries(view_entries(es@).skip(from as int), d@));
        }
    }
}

/// Renders a configuration as canonical BLK text. Pure with respect to the
/// tree: equal trees give byte-identical text.
pub fn stringify_config(config: &BlkConfig) -> (r: String)
    ensures
        r@ == ser_config(config@),
{
    let mut out: Vec<char> = Vec::new();
    let ind: Vec<char> = Vec::new();
    proof {
        assert(ind@ =~= indent_chars(0));
    }
    write_entries(&mut out, &config.block.entries, 0, &ind, Ghost(0));
    proof {
        assert(view_entries(config.block.entries@).skip(0) =~= view_entries(
            config.block.entries@,
        ));
    }
    chars_to_string(&out)
}

} // verus!
