//! What can be wrong with a schema.

use vstd::prelude::*;

verus! {

/// A mistake in a schema, found while compiling it.
#[derive(Clone, Debug, PartialEq, Eq)]
pub enum SchemaError {
    /// A layout names a field that the type does not have.
    UnknownField(String),
    /// A layout made of directives was given fields without names.
    NamedFieldsRequired,
    /// The variable-length layout was given something other than a struct
    /// of exactly one unnamed field.
    VarUintShape,
    /// A variant has no layout.
    MissingLayout(String),
    /// A variant has more than one layout.
    MultipleLayouts(String),
    /// A sum type declares neither a representation width nor the
    /// non-overlap assertion.
    MissingTagPolicy,
    /// A sum type declares its tag policy more than once.
    ConflictingTagPolicy,
    /// A variant's explicit discriminant is not plain literal text (ASCII
    /// letters, digits and `_`, starting with a digit) holding an integer
    /// literal that fits in 64 bits.
    BadDiscriminant(String),
    /// Counting up from the previous variant passes the largest 64-bit value.
    DiscriminantOverflow(String),
    /// A variant's discriminant is already taken by an earlier variant.
    DuplicateDiscriminant(String),
    /// A segment starts with `u ` but is not of the form
    /// `u <digits> <digits>bit`.
    MalformedSegment(String),
    /// A variant's discriminant does not fit in the width of the tag.
    DiscriminantTooWide(String),
}

/// The mathematical form of a [`SchemaError`].
pub enum SchemaFault {
    UnknownField(Seq<char>),
    NamedFieldsRequired,
    VarUintShape,
    MissingLayout(Seq<char>),
    MultipleLayouts(Seq<char>),
    MissingTagPolicy,
    ConflictingTagPolicy,
    BadDiscriminant(Seq<char>),
    DiscriminantOverflow(Seq<char>),
    DuplicateDiscriminant(Seq<char>),
    MalformedSegment(Seq<char>),
    DiscriminantTooWide(Seq<char>),
}

impl View for SchemaError {
    type V = SchemaFault;

    open spec fn view(&self) -> SchemaFault {
        match self {
            SchemaError::UnknownField(n) => SchemaFault::UnknownField(n@),
            SchemaError::NamedFieldsRequired => SchemaFault::NamedFieldsRequired,
            SchemaError::VarUintShape => SchemaFault::VarUintShape,
            SchemaError::MissingLayout(n) => SchemaFault::MissingLayout(n@),
            SchemaError::MultipleLayouts(n) => SchemaFault::MultipleLayouts(n@),
            SchemaError::MissingTagPolicy => SchemaFault::MissingTagPolicy,
            SchemaError::ConflictingTagPolicy => SchemaFault::ConflictingTagPolicy,
            SchemaError::BadDiscriminant(n) => SchemaFault::BadDiscriminant(n@),
            SchemaError::DiscriminantOverflow(n) => SchemaFault::DiscriminantOverflow(n@),
            SchemaError::DuplicateDiscriminant(n) => SchemaFault::DuplicateDiscriminant(n@),
            SchemaError::MalformedSegment(t) => SchemaFault::MalformedSegment(t@),
            SchemaError::DiscriminantTooWide(n) => SchemaFault::DiscriminantTooWide(n@),
        }
    }
}

/// The message of an error: a fixed text, followed by the field, variant
/// or segment at fault where there is one.
pub open spec fn message_of(e: SchemaFault) -> Seq<char> {
    match e {
        SchemaFault::UnknownField(n) => "unknown field "@ + n,
        SchemaFault::NamedFieldsRequired => "for unambiguous parsing, layouts must describe named fields"@,
        SchemaFault::VarUintShape => "the variable-length layout needs a struct of exactly one unnamed field"@,
        SchemaFault::MissingLayout(n) => "a layout is required for variant "@ + n,
        SchemaFault::MultipleLayouts(n) => "several layouts found for variant "@ + n,
        SchemaFault::MissingTagPolicy => "don't know how to differentiate the tags of the variants"@,
        SchemaFault::ConflictingTagPolicy => "the tag policy of a sum type is declared more than once"@,
        SchemaFault::BadDiscriminant(n) => "unreadable discriminant of variant "@ + n,
        SchemaFault::DiscriminantOverflow(n) => "discriminant overflow at variant "@ + n,
        SchemaFault::DuplicateDiscriminant(n) => "discriminant already taken, at variant "@ + n,
        SchemaFault::MalformedSegment(n) => "malformed layout segment "@ + n,
        SchemaFault::DiscriminantTooWide(n) => "discriminant does not fit the tag, at variant "@ + n,
    }
}

impl SchemaError {
    /// A message that names what is wrong: the field, variant or segment at
    /// fault where there is one.
    pub fn message(&self) -> (r: String)
        ensures
            r@ == message_of(self@),
    {
        match self {
            SchemaError::UnknownField(n) => {
                let mut s = String::from_str("unknown field ");
                s.append(n.as_str());
                s
            },
            SchemaError::NamedFieldsRequired => String::from_str("for unambiguous parsing, layouts must describe named fields"),
            SchemaError::VarUintShape => String::from_str("the variable-length layout needs a struct of exactly one unnamed field"),
            SchemaError::MissingLayout(n) => {
                let mut s = String::from_str("a layout is required for variant ");
                s.append(n.as_str());
                s
            },
            SchemaError::MultipleLayouts(n) => {
                let mut s = String::from_str("several layouts found for variant ");
                s.append(n.as_str());
                s
            },
            SchemaError::MissingTagPolicy => String::from_str("don't know how to differentiate the tags of the variants"),
            SchemaError::ConflictingTagPolicy => String::from_str("the tag policy of a sum type is declared more than once"),
            SchemaError::BadDiscriminant(n) => {
                let mut s = String::from_str("unreadable discriminant of variant ");
                s.append(n.as_str());
                s
            },
            SchemaError::DiscriminantOverflow(n) => {
                let mut s = String::from_str("discriminant overflow at variant ");
                s.append(n.as_str());
                s
            },
            SchemaError::DuplicateDiscriminant(n) => {
                let mut s = String::from_str("discriminant already taken, at variant ");
                s.append(n.as_str());
                s
            },
            SchemaError::MalformedSegment(n) => {
                let mut s = String::from_str("malformed layout segment ");
                s.append(n.as_str());
                s
            },
            SchemaError::DiscriminantTooWide(n) => {
                let mut s = String::from_str("discriminant does not fit the tag, at variant ");
                s.append(n.as_str());
                s
            },
        }
    }
}

} // verus!
