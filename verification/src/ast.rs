//! The tree produced by the parser and consumed by the serializer: a
//! configuration is a block, a block is an ordered list of entries, and an
//! entry is either a named section holding a nested block or a typed property.
//!
//! The 32-bit floating-point values of the textual format (`r`, `p2`, `p3`,
//! `p4`) are carried as their canonical decimal rendering (the shortest string
//! that reads back as the same 32-bit value), so that the tree holds plain
//! values throughout; see `crate::num::real_canon`.

use vstd::prelude::*;

verus! {

/// The possible values a property can have in a BLK configuration.
#[derive(Debug, PartialEq)]
pub enum BlkPropertyValue {
    Text(String),
    Boolean(bool),
    Integer(i32),
    Real(String),
    Vector2(String, String),
    Vector3(String, String, String),
    Vector4(String, String, String, String),
    Color(i32, i32, i32, i32),
}

/// A property in a BLK configuration.
#[derive(Debug, PartialEq)]
pub struct BlkProperty {
    pub key: String,
    pub value: BlkPropertyValue,
}

/// A section in a BLK configuration.
#[derive(Debug, PartialEq)]
pub struct BlkSection {
    pub name: String,
    pub entries: Vec<BlkEntry>,
}

/// An entry in a BLK configuration: either a section or a property.
#[derive(Debug, PartialEq)]
pub enum BlkEntry {
    Section(BlkSection),
    Property(BlkProperty),
}

/// A block in a BLK configuration.
#[derive(Debug, PartialEq)]
pub struct BlkBlock {
    pub entries: Vec<BlkEntry>,
}

/// A BLK configuration: one block of top-level entries.
#[derive(Debug, PartialEq)]
pub struct BlkConfig {
    pub block: BlkBlock,
}

/// Mathematical image of a property value: strings as character sequences,
/// machine integers as unbounded integers.
pub enum ValueV {
    Text(Seq<char>),
    Boolean(bool),
    Integer(int),
    Real(Seq<char>),
    Vector2(Seq<char>, Seq<char>),
    Vector3(Seq<char>, Seq<char>, Seq<char>),
    Vector4(Seq<char>, Seq<char>, Seq<char>, Seq<char>),
    Color(int, int, int, int),
}

/// Mathematical image of a property.
pub struct PropertyV {
    pub key: Seq<char>,
    pub value: ValueV,
}

/// Mathematical image of a section.
pub struct SectionV {
    pub name: Seq<char>,
    pub entries: Seq<EntryV>,
}

/// Mathematical image of an entry.
pub enum EntryV {
    Section(SectionV),
    Property(PropertyV),
}

impl View for BlkPropertyValue {
    type V = ValueV;

    open spec fn view(&self) -> ValueV {
        match self {
            BlkPropertyValue::Text(t) => ValueV::Text(t@),
            BlkPropertyValue::Boolean(b) => ValueV::Boolean(*b),
            BlkPropertyValue::Integer(i) => ValueV::Integer(*i as int),
            BlkPropertyValue::Real(r) => ValueV::Real(r@),
            BlkPropertyValue::Vector2(x, y) => ValueV::Vector2(x@, y@),
            BlkPropertyValue::Vector3(x, y, z) => ValueV::Vector3(x@, y@, z@),
            BlkPropertyValue::Vector4(x, y, z, w) => ValueV::Vector4(x@, y@, z@, w@),
            BlkPropertyValue::Color(r, g, b, a) => ValueV::Color(
                *r as int,
                *g as int,
                *b as int,
                *a as int,
            ),
        }
    }
}

impl View for BlkProperty {
    type V = PropertyV;

    open spec fn view(&self) -> PropertyV {
        PropertyV { key: self.key@, value: self.value@ }
    }
}

/// Mathematical image of one entry, recursing through nested sections.
pub open spec fn view_entry(e: BlkEntry) -> EntryV
    decreases e,
{
    match e {
        BlkEntry::Section(s) => EntryV::Section(
            SectionV { name: s.name@, entries: view_entries(s.entries@) },
        ),
        BlkEntry::Property(p) => EntryV::Property(p@),
    }
}

/// Mathematical image of a list of entries, in order.
pub open spec fn view_entries(es: Seq<BlkEntry>) -> Seq<EntryV>
    decreases es,
{
    if es.len() == 0 {
        Seq::empty()
    } else {
        seq![view_entry(es[0])] + view_entries(es.drop_first())
    }
}

impl View for BlkEntry {
    type V = EntryV;

    open spec fn view(&self) -> EntryV {
        view_entry(*self)
    }
}

impl View for BlkBlock {
    type V = Seq<EntryV>;

    open spec fn view(&self) -> Seq<EntryV> {
        view_entries(self.entries@)
    }
}

impl View for BlkConfig {
    type V = Seq<EntryV>;

    open spec fn view(&self) -> Seq<EntryV> {
        self.block@
    }
}

/// The images of the entries of a list are its entries' images, one for one.
pub proof fn lemma_view_entries(es: Seq<BlkEntry>)
    ensures
        view_entries(es).len() == es.len(),
        forall|k: int| 0 <= k < es.len() ==> view_entries(es)[k] == view_entry(es[k]),
    decreases es,
{
    if es.len() > 0 {
        lemma_view_entries(es.drop_first());
    }
}

/// A real component as the parser stores it: if the stored text is itself a
/// floating-point literal, re-canonicalizing it changes nothing. Every
/// component a parse produces has this property; only a literal whose value
/// overflows the 32-bit range yields a non-literal rendering.
pub open spec fn real_stable(r: Seq<char>) -> bool {
    crate::num::is_real_literal(r) ==> crate::num::real_canon(r) == r
}

/// All real components of a value are stable under re-canonicalization.
pub open spec fn value_reals_stable(v: ValueV) -> bool {
    match v {
        ValueV::Real(r) => real_stable(r),
        ValueV::Vector2(a, b) => real_stable(a) && real_stable(b),
        ValueV::Vector3(a, b, c) => real_stable(a) && real_stable(b) && real_stable(c),
        ValueV::Vector4(a, b, c, d) => real_stable(a) && real_stable(b) && real_stable(c)
            && real_stable(d),
        _ => true,
    }
}

/// All real components of an entry are stable under re-canonicalization.
pub open spec fn entry_reals_stable(e: EntryV) -> bool
    decreases e, 0int,
{
    match e {
        EntryV::Section(sec) => entries_reals_stable(sec.entries),
        EntryV::Property(p) => value_reals_stable(p.value),
    }
}

/// All real components of a list of entries are stable under
/// re-canonicalization.
pub open spec fn entries_reals_stable(es: Seq<EntryV>) -> bool
    decreases es, 1int,
{
    forall|k: int| 0 <= k < es.len() ==> entry_reals_stable(#[trigger] es[k])
}

/// Why a parse attempt was rejected.
#[derive(Debug, PartialEq, Eq, Structural, Clone, Copy)]
pub enum ParseErrorKind {
    EmptyIdentifier,
    SeparatorExpected,
    BooleanExpected,
    IntegerExpected,
    IntegerOverflow,
    RealExpected,
    StringExpected,
    UnterminatedString,
    UnknownPropertyType,
    DelimiterExpected,
    EqualsExpected,
    ColonExpected,
    BraceExpected,
}

/// A syntax error: the input does not match the grammar at `offset`.
#[derive(Debug, PartialEq, Eq, Structural, Clone, Copy)]
pub struct ParseError {
    pub offset: usize,
    pub kind: ParseErrorKind,
}

} // verus!
