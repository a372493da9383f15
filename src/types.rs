//! Value types, native values and the schemas that describe records and
//! tagged unions.
use vstd::prelude::*;
use crate::number::NumKind;
use crate::value::{blobs_view, strings_view, AttrView, AttributeValue};

verus! {

broadcast use vstd::std_specs::vec::group_vec_axioms;

/// A rule under which a field is left out of the encoded map. Skip
/// predicates are this closed set, named in `skip_if` tokens, rather than
/// arbitrary functions: a schema cannot carry a function reference.
#[derive(Debug, Clone, Copy, PartialEq, Eq, Structural)]
pub enum SkipRule {
    /// Empty text, bytes, set, list or map.
    IsEmpty,
    /// The number zero.
    IsZero,
    /// An absent optional value.
    IsNone,
    /// The boolean `false`.
    IsFalse,
}

/// The type of a field or of a nested value.
#[derive(Debug)]
pub enum ValueType {
    Text,
    Bool,
    Binary,
    Number(NumKind),
    /// A unique identifier, written as hyphenated text.
    Uuid,
    /// An instant with its offset from UTC, written as RFC 3339 text.
    Timestamp,
    /// A plain enumeration, written as the name of its variant.
    Enumeration(Vec<String>),
    TextSet,
    NumberSet(NumKind),
    BinarySet,
    List(Box<ValueType>),
    Optional(Box<ValueType>),
    /// Text keys to values of one type.
    MapOf(Box<ValueType>),
    /// An attribute value kept as it is.
    Raw,
    Record(Box<EntitySchema>),
    Union(Box<UnionSchema>),
}

/// One field of a record schema, with the facts its directives establish.
#[derive(Debug)]
pub struct FieldSchema {
    /// Name of the field in the record.
    pub name: String,
    /// Name of the attribute on the wire: the rename target, else `name`.
    pub wire_name: String,
    pub flatten: bool,
    pub default_on_absent: bool,
    pub partition_key: bool,
    pub sort_key: bool,
    pub skip_if: Option<SkipRule>,
    pub ty: ValueType,
}

/// The fields of a record type, in declaration order.
#[derive(Debug)]
pub struct EntitySchema {
    pub fields: Vec<FieldSchema>,
}

/// One variant of a tagged union and its single payload.
#[derive(Debug)]
pub struct VariantSchema {
    pub name: String,
    /// Value of the tag field for this variant: the rename target, else `name`.
    pub wire_tag: String,
    pub payload: ValueType,
}

/// An internally tagged union: the tag lives beside the payload's attributes.
#[derive(Debug)]
pub struct UnionSchema {
    /// Name of the attribute that holds the tag.
    pub tag: String,
    pub variants: Vec<VariantSchema>,
}

/// A native value, shaped by a [`ValueType`].
#[derive(Debug, PartialEq)]
pub enum Value {
    Text(String),
    Bool(bool),
    Binary(Vec<u8>),
    Number(i128),
    /// The 128 bits of a unique identifier.
    Uuid(u128),
    /// Seconds and nanoseconds after the Unix epoch, and the offset in
    /// seconds east of UTC at which the instant is shown.
    Timestamp(i64, u32, i32),
    /// The index of a variant of a plain enumeration.
    Choice(usize),
    TextSet(Vec<String>),
    NumberSet(Vec<i128>),
    BinarySet(Vec<Vec<u8>>),
    List(Vec<Value>),
    /// The absent optional value.
    Null,
    MapOf(Vec<(String, Value)>),
    Raw(AttributeValue),
    /// One value per schema field, in declaration order.
    Record(Vec<Value>),
    /// The index of the active variant and its payload.
    Variant(usize, Box<Value>),
}

/// Mathematical view of a [`Value`].
pub enum ValueView {
    Text(Seq<char>),
    Bool(bool),
    Binary(Seq<u8>),
    Number(int),
    Uuid(u128),
    Timestamp(i64, u32, i32),
    Choice(nat),
    TextSet(Seq<Seq<char>>),
    NumberSet(Seq<int>),
    BinarySet(Seq<Seq<u8>>),
    List(Seq<ValueView>),
    Null,
    MapOf(Seq<(Seq<char>, ValueView)>),
    Raw(AttrView),
    Record(Seq<ValueView>),
    Variant(nat, Box<ValueView>),
}

impl Value {
    pub open spec fn view(&self) -> ValueView
        decreases self,
    {
        match self {
            Value::Text(s) => ValueView::Text(s@),
            Value::Bool(b) => ValueView::Bool(*b),
            Value::Binary(b) => ValueView::Binary(b@),
            Value::Number(n) => ValueView::Number(*n as int),
            Value::Uuid(u) => ValueView::Uuid(*u),
            Value::Timestamp(s, n, o) => ValueView::Timestamp(*s, *n, *o),
            Value::Choice(i) => ValueView::Choice(*i as nat),
            Value::TextSet(v) => ValueView::TextSet(strings_view(v@)),
            Value::NumberSet(v) => ValueView::NumberSet(ints_view(v@)),
            Value::BinarySet(v) => ValueView::BinarySet(blobs_view(v@)),
            Value::List(v) => ValueView::List(
                Seq::new(
                    v.len() as nat,
                    |i: int|
                        if 0 <= i < v.len() {
                            v[i].view()
                        } else {
                            ValueView::Null
                        },
                ),
            ),
            Value::Null => ValueView::Null,
            Value::MapOf(v) => ValueView::MapOf(
                Seq::new(
                    v.len() as nat,
                    |i: int|
                        if 0 <= i < v.len() {
                            (v[i].0@, v[i].1.view())
                        } else {
                            (Seq::empty(), ValueView::Null)
                        },
                ),
            ),
            Value::Raw(a) => ValueView::Raw(a@),
            Value::Record(v) => ValueView::Record(
                Seq::new(
                    v.len() as nat,
                    |i: int|
                        if 0 <= i < v.len() {
                            v[i].view()
                        } else {
                            ValueView::Null
                        },
                ),
            ),
            Value::Variant(i, p) => ValueView::Variant(*i as nat, Box::new(p.view())),
        }
    }
}

pub open spec fn ints_view(v: Seq<i128>) -> Seq<int> {
    v.map_values(|n: i128| n as int)
}

} // verus!
