//! The structural shape of an annotated type.

use vstd::prelude::*;
use crate::attrs::Attribute;
use crate::error::Span;

verus! {

/// An identifier and the place where it is written.
#[derive(Clone, Debug, PartialEq, Eq)]
pub struct Ident {
    pub name: String,
    pub span: Span,
}

/// A field with a name, the place of that name, and its annotations.
#[derive(Clone, Debug, PartialEq, Eq)]
pub struct NamedField {
    pub name: String,
    pub span: Span,
    pub attrs: Vec<Attribute>,
}

/// A field known by its position, with its place and its annotations.
#[derive(Clone, Debug, PartialEq, Eq)]
pub struct UnnamedField {
    pub span: Span,
    pub attrs: Vec<Attribute>,
}

/// The fields of a product type or of one variant of a sum type.
#[derive(Clone, Debug, PartialEq, Eq)]
pub enum Fields {
    Named(Vec<NamedField>),
    Unnamed(Vec<UnnamedField>),
    Unit,
}

/// One alternative of a sum type.
#[derive(Clone, Debug, PartialEq, Eq)]
pub struct Variant {
    pub ident: Ident,
    pub attrs: Vec<Attribute>,
    pub fields: Fields,
}

/// What a type is made of.
#[derive(Clone, Debug, PartialEq, Eq)]
pub enum Data {
    /// A product type: one shape.
    Struct(Fields),
    /// A sum type: its alternatives in order.
    Enum(Vec<Variant>),
    /// An overlay of fields without a discriminant, with the place of its
    /// keyword. Nothing is generated for it.
    Union(Span),
}

/// A type as it was declared: name, annotations and shape.
#[derive(Clone, Debug, PartialEq, Eq)]
pub struct DeriveInput {
    pub ident: Ident,
    pub attrs: Vec<Attribute>,
    pub data: Data,
}

} // verus!
