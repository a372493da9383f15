//! Error types shared by the codec, the entity mapper and schema construction.
use vstd::prelude::*;

verus! {

/// Errors that may result from decoding attribute values.
#[derive(Debug, PartialEq)]
pub enum AttributeError {
    /// The value has the expected variant but its contents are malformed.
    InvalidFormat,
    /// The value is not of the expected variant.
    InvalidType,
    /// A required attribute is absent from the map being decoded.
    MissingField {
        /// Wire name of the missing attribute.
        name: String,
    },
}

/// Mathematical view of an [`AttributeError`].
pub enum ErrorView {
    InvalidFormat,
    InvalidType,
    MissingField(Seq<char>),
}

impl AttributeError {
    pub open spec fn view(&self) -> ErrorView {
        match self {
            AttributeError::InvalidFormat => ErrorView::InvalidFormat,
            AttributeError::InvalidType => ErrorView::InvalidType,
            AttributeError::MissingField { name } => ErrorView::MissingField(name@),
        }
    }

    /// Human readable description of the error.
    pub fn message(&self) -> (r: String)
        ensures
            r@ == error_message(self@),
    {
        match self {
            AttributeError::InvalidFormat => String::from_str("Invalid format"),
            AttributeError::InvalidType => String::from_str("Invalid type"),
            AttributeError::MissingField { name } => {
                let mut r = String::from_str("Missing field ");
                r.append(name.as_str());
                r
            },
        }
    }
}

/// The text that describes each error.
pub open spec fn error_message(e: ErrorView) -> Seq<char> {
    match e {
        ErrorView::InvalidFormat => "Invalid format"@,
        ErrorView::InvalidType => "Invalid type"@,
        ErrorView::MissingField(name) => "Missing field "@ + name,
    }
}

/// Errors raised once, when a schema is constructed.
#[derive(Debug, PartialEq)]
pub enum SchemaError {
    /// A directive token that is not known.
    UnknownDirective {
        name: String,
    },
    /// A directive that needs a value was given none.
    MissingDirectiveValue {
        name: String,
    },
    /// A directive that takes no value was given one.
    UnexpectedDirectiveValue {
        name: String,
    },
    /// `flatten` stands beside another directive on one field.
    FlattenNotExclusive {
        field: String,
    },
    /// A `skip_if` predicate that is not known.
    UnknownPredicate {
        name: String,
    },
    /// `flatten` on a field whose type does not encode to a map.
    FlattenNotMap {
        field: String,
    },
    /// `default` on a field whose type has no zero value.
    NoDefault {
        field: String,
    },
    /// A key field whose type does not encode to text, a number or bytes.
    InvalidKeyType {
        field: String,
    },
    /// A union variant whose payload does not encode to a map.
    PayloadNotMap {
        variant: String,
    },
    /// More than one field is marked as partition key.
    DuplicatePartitionKey,
    /// More than one field is marked as sort key.
    DuplicateSortKey,
    /// A key projection was asked of a schema without a partition key.
    MissingPartitionKey,
    /// Two variants of a union share one wire tag.
    DuplicateTag {
        tag: String,
    },
}

/// Mathematical view of a [`SchemaError`].
pub enum SchemaErrorView {
    UnknownDirective(Seq<char>),
    MissingDirectiveValue(Seq<char>),
    UnexpectedDirectiveValue(Seq<char>),
    FlattenNotExclusive(Seq<char>),
    UnknownPredicate(Seq<char>),
    FlattenNotMap(Seq<char>),
    NoDefault(Seq<char>),
    InvalidKeyType(Seq<char>),
    PayloadNotMap(Seq<char>),
    DuplicatePartitionKey,
    DuplicateSortKey,
    MissingPartitionKey,
    DuplicateTag(Seq<char>),
}

impl SchemaError {
    pub open spec fn view(&self) -> SchemaErrorView {
        match self {
            SchemaError::UnknownDirective { name } => SchemaErrorView::UnknownDirective(name@),
            SchemaError::MissingDirectiveValue { name } => SchemaErrorView::MissingDirectiveValue(name@),
            SchemaError::UnexpectedDirectiveValue { name } => SchemaErrorView::UnexpectedDirectiveValue(name@),
            SchemaError::FlattenNotExclusive { field } => SchemaErrorView::FlattenNotExclusive(field@),
            SchemaError::UnknownPredicate { name } => SchemaErrorView::UnknownPredicate(name@),
            SchemaError::FlattenNotMap { field } => SchemaErrorView::FlattenNotMap(field@),
            SchemaError::NoDefault { field } => SchemaErrorView::NoDefault(field@),
            SchemaError::InvalidKeyType { field } => SchemaErrorView::InvalidKeyType(field@),
            SchemaError::PayloadNotMap { variant } => SchemaErrorView::PayloadNotMap(variant@),
            SchemaError::DuplicatePartitionKey => SchemaErrorView::DuplicatePartitionKey,
            SchemaError::DuplicateSortKey => SchemaErrorView::DuplicateSortKey,
            SchemaError::MissingPartitionKey => SchemaErrorView::MissingPartitionKey,
            SchemaError::DuplicateTag { tag } => SchemaErrorView::DuplicateTag(tag@),
        }
    }
}

} // verus!
