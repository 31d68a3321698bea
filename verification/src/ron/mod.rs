use vstd::prelude::*;
use crate::number::{Decimal, DecimalV};
use crate::span::{Span, Spanned};

/// RON data parser: converts `.ron` source text into a spanned [`RonValue`] tree.
pub mod parser;

verus! {

/// A parsed RON data value, preserving bare identifiers for enum validation.
#[derive(Debug, PartialEq)]
pub enum RonValue {
    /// A quoted string (e.g., `"Ashborn Hound"`).
    String(String),
    /// A whole number (e.g., `42`, `-1`).
    Integer(i64),
    /// A number written with a decimal point (e.g., `3.14`, `1.0`), kept exactly.
    Float(Decimal),
    /// A boolean (`true` or `false`).
    Bool(bool),
    /// `Some(value)` or `None`.
    Option(Option<Box<Spanned<RonValue>>>),
    /// A bare identifier (e.g., `Creature`), preserved for enum variant validation.
    Identifier(String),
    /// An enum variant carrying data (e.g., `Damage(5)`).
    EnumVariant(String, Box<Spanned<RonValue>>),
    /// A list of values (e.g., `[Creature, Trap]`).
    List(Vec<Spanned<RonValue>>),
    /// A map of key-value pairs (e.g., `{"str": 5}`), in source order.
    Dict(Vec<(Spanned<RonValue>, Spanned<RonValue>)>),
    /// A positional tuple (e.g., `(1.0, 2.5)`).
    Tuple(Vec<Spanned<RonValue>>),
    /// A struct with named fields (e.g., `(name: "foo", age: 5)`).
    Struct(RonStruct),
}

/// A parsed RON struct containing ordered field name-value pairs.
#[derive(Debug, PartialEq)]
pub struct RonStruct {
    /// Field name-value pairs in declaration order.
    pub fields: Vec<(Spanned<String>, Spanned<RonValue>)>,
    /// Source location of the closing `)`, the anchor for missing-field errors.
    pub close_span: Span,
}

/// The mathematical content of a [`RonValue`].
pub enum SpecRonValue {
    String(Seq<char>),
    Integer(i64),
    Float(DecimalV),
    Bool(bool),
    Option(Option<Box<Spanned<SpecRonValue>>>),
    Identifier(Seq<char>),
    EnumVariant(Seq<char>, Box<Spanned<SpecRonValue>>),
    List(Seq<Spanned<SpecRonValue>>),
    Dict(Seq<(Spanned<SpecRonValue>, Spanned<SpecRonValue>)>),
    Tuple(Seq<Spanned<SpecRonValue>>),
    Struct(SpecRonStruct),
}

/// The mathematical content of a [`RonStruct`].
pub struct SpecRonStruct {
    pub fields: Seq<(Spanned<Seq<char>>, Spanned<SpecRonValue>)>,
    pub close_span: Span,
}

/// The content of a spanned value.
pub open spec fn spanned_view(e: Spanned<RonValue>) -> Spanned<SpecRonValue>
    decreases e,
{
    Spanned { value: value_view(e.value), span: e.span }
}

/// The content of a value.
pub open spec fn value_view(v: RonValue) -> SpecRonValue
    decreases v,
{
    match v {
        RonValue::String(s) => SpecRonValue::String(s@),
        RonValue::Integer(n) => SpecRonValue::Integer(n),
        RonValue::Float(d) => SpecRonValue::Float(d@),
        RonValue::Bool(b) => SpecRonValue::Bool(b),
        RonValue::Option(o) => SpecRonValue::Option(
            match o {
                Some(b) => Some(Box::new(spanned_view(*b))),
                None => None,
            },
        ),
        RonValue::Identifier(s) => SpecRonValue::Identifier(s@),
        RonValue::EnumVariant(n, b) => SpecRonValue::EnumVariant(n@, Box::new(spanned_view(*b))),
        RonValue::List(l) => SpecRonValue::List(list_view(l@)),
        RonValue::Dict(m) => SpecRonValue::Dict(pairs_view(m@)),
        RonValue::Tuple(l) => SpecRonValue::Tuple(list_view(l@)),
        RonValue::Struct(s) => SpecRonValue::Struct(
            SpecRonStruct { fields: fields_view(s.fields@), close_span: s.close_span },
        ),
    }
}

pub open spec fn list_view(l: Seq<Spanned<RonValue>>) -> Seq<Spanned<SpecRonValue>>
    decreases l,
{
    Seq::new(
        l.len(),
        |i: int|
            if 0 <= i < l.len() {
                spanned_view(l[i])
            } else {
                arbitrary()
            },
    )
}

pub open spec fn pairs_view(l: Seq<(Spanned<RonValue>, Spanned<RonValue>)>) -> Seq<
    (Spanned<SpecRonValue>, Spanned<SpecRonValue>),
>
    decreases l,
{
    Seq::new(
        l.len(),
        |i: int|
            if 0 <= i < l.len() {
                (spanned_view(l[i].0), spanned_view(l[i].1))
            } else {
                arbitrary()
            },
    )
}

pub open spec fn fields_view(l: Seq<(Spanned<String>, Spanned<RonValue>)>) -> Seq<
    (Spanned<Seq<char>>, Spanned<SpecRonValue>),
>
    decreases l,
{
    Seq::new(
        l.len(),
        |i: int|
            if 0 <= i < l.len() {
                (l[i].0@, spanned_view(l[i].1))
            } else {
                arbitrary()
            },
    )
}

impl View for RonValue {
    type V = SpecRonValue;

    open spec fn view(&self) -> SpecRonValue {
        value_view(*self)
    }
}

pub proof fn lemma_list_view_push(l: Seq<Spanned<RonValue>>, x: Spanned<RonValue>)
    ensures
        list_view(l.push(x)) == list_view(l).push(spanned_view(x)),
{
    assert(list_view(l.push(x)) =~= list_view(l).push(spanned_view(x)));
}

pub proof fn lemma_pairs_view_push(
    l: Seq<(Spanned<RonValue>, Spanned<RonValue>)>,
    x: (Spanned<RonValue>, Spanned<RonValue>),
)
    ensures
        pairs_view(l.push(x)) == pairs_view(l).push((spanned_view(x.0), spanned_view(x.1))),
{
    assert(pairs_view(l.push(x)) =~= pairs_view(l).push((spanned_view(x.0), spanned_view(x.1))));
}

pub proof fn lemma_fields_view_push(
    l: Seq<(Spanned<String>, Spanned<RonValue>)>,
    x: (Spanned<String>, Spanned<RonValue>),
)
    ensures
        fields_view(l.push(x)) == fields_view(l).push((x.0@, spanned_view(x.1))),
{
    assert(fields_view(l.push(x)) =~= fields_view(l).push((x.0@, spanned_view(x.1))));
}

pub proof fn lemma_views_empty()
    ensures
        list_view(Seq::<Spanned<RonValue>>::empty()) == Seq::<Spanned<SpecRonValue>>::empty(),
        pairs_view(Seq::<(Spanned<RonValue>, Spanned<RonValue>)>::empty()) == Seq::<
            (Spanned<SpecRonValue>, Spanned<SpecRonValue>),
        >::empty(),
        fields_view(Seq::<(Spanned<String>, Spanned<RonValue>)>::empty()) == Seq::<
            (Spanned<Seq<char>>, Spanned<SpecRonValue>),
        >::empty(),
{
    assert(list_view(Seq::<Spanned<RonValue>>::empty()) =~= Seq::<Spanned<SpecRonValue>>::empty());
    assert(pairs_view(Seq::<(Spanned<RonValue>, Spanned<RonValue>)>::empty()) =~= Seq::<
        (Spanned<SpecRonValue>, Spanned<SpecRonValue>),
    >::empty());
    assert(fields_view(Seq::<(Spanned<String>, Spanned<RonValue>)>::empty()) =~= Seq::<
        (Spanned<Seq<char>>, Spanned<SpecRonValue>),
    >::empty());
}

} // verus!
