use vstd::prelude::*;
use crate::attributes::{AttributeEntry, AttributeError, AttributeFault};
use crate::types::{TypeError, TypeExpr};

verus! {

/// One field of a struct or enum variant as declared.
pub struct FieldDecl {
    /// The field's name; none for a positional field.
    pub name: Option<String>,
    /// The field's type.
    pub ty: TypeExpr,
    /// The field's `#[jnix(...)]` entries.
    pub attributes: Vec<AttributeEntry>,
}

/// The fields of a struct or enum variant as declared.
pub enum FieldsDecl {
    /// No fields, and no braces or parentheses.
    Unit,
    /// Fields with names, in braces.
    Named(Vec<FieldDecl>),
    /// Positional fields, in parentheses.
    Unnamed(Vec<FieldDecl>),
}

/// One variant of an enum as declared.
pub struct VariantDecl {
    /// The variant's name.
    pub name: String,
    /// The variant's `#[jnix(...)]` entries.
    pub attributes: Vec<AttributeEntry>,
    /// The variant's fields.
    pub fields: FieldsDecl,
}

/// What a type declaration holds.
pub enum DataDecl {
    /// A struct and its fields.
    Struct(FieldsDecl),
    /// An enum and its variants, in declaration order.
    Enum(Vec<VariantDecl>),
    /// A union.
    Union,
}

/// A type declaration, as the generator reads it.
pub struct TypeDecl {
    /// The type's name.
    pub name: String,
    /// The type's `#[jnix(...)]` entries.
    pub attributes: Vec<AttributeEntry>,
    /// The names of the type's generic type parameters, in declaration order.
    pub type_params: Vec<String>,
    /// The type's fields or variants.
    pub data: DataDecl,
}

/// Why no conversion code can be generated for a declaration.
#[derive(PartialEq, Eq, Debug)]
pub enum GenerationError {
    /// A `#[jnix(...)]` entry is refused.
    InvalidAttribute(AttributeError),
    /// A field's type cannot be checked for generic parameters.
    UnsupportedType(TypeError),
    /// A field among named fields has no name.
    MissingFieldName,
    /// Neither `class_name` nor `package` is given for the type.
    MissingClassName,
    /// The declaration is a union.
    UnionNotSupported,
}

/// A [`GenerationError`] as a value of the specification.
pub enum GenerationFault {
    InvalidAttribute(AttributeFault),
    UnsupportedType(TypeError),
    MissingFieldName,
    MissingClassName,
    UnionNotSupported,
}

impl View for GenerationError {
    type V = GenerationFault;

    open spec fn view(&self) -> GenerationFault {
        match self {
            GenerationError::InvalidAttribute(e) => GenerationFault::InvalidAttribute(e@),
            GenerationError::UnsupportedType(e) => GenerationFault::UnsupportedType(*e),
            GenerationError::MissingFieldName => GenerationFault::MissingFieldName,
            GenerationError::MissingClassName => GenerationFault::MissingClassName,
            GenerationError::UnionNotSupported => GenerationFault::UnionNotSupported,
        }
    }
}

} // verus!
