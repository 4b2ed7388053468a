//! Type-directed generation of the conversion between Rust values and Java
//! objects reached through JNI reflection.
//!
//! A type declaration is described with the plain model of [`TypeDecl`]; the
//! generator parses its configuration, analyses its generic parameters and
//! produces, for each direction, a plan that fixes every class name, member
//! name and signature that the generated conversion code uses.

mod attributes;
mod decl;
mod fields;
mod generics;
mod laws;
mod parsed_type;
mod scan;
mod text;
mod types;
mod variants;

pub use attributes::{key_from_name, AttributeEntry, AttributeError, ConfigKey, JnixAttributes};
pub use decl::{DataDecl, FieldDecl, FieldsDecl, GenerationError, TypeDecl, VariantDecl};
pub use fields::{
    ConstructorPlan, FieldRead, FieldSlot, FieldType, Member, ParsedField, ParsedFields, ReadPlan,
    SignatureSource,
};
pub use generics::{ParsedGenerics, TypeParameters};
pub use laws::{
    lemma_constructor_signature, lemma_enum_class_constants, lemma_enum_class_recognition,
    lemma_erasure, lemma_first_match, lemma_no_match, lemma_plans_agree, lemma_read_then_write,
    lemma_round_trip, lemma_sealed_deny_case, lemma_sealed_unit_case, lemma_skipped_field_absent,
};
pub use parsed_type::{FromJavaBody, FromJavaPlan, IntoJavaBody, IntoJavaPlan, ParsedType, TypeData};
pub use scan::{first_check, run_scan, scan_step, ScanStep};
pub use text::{
    class_signature, constructor_signature, decimal, jni_class_name, split, split_at_first, str_eq,
    trim,
};
pub use types::{TypeBound, TypeError, TypeExpr};
pub use variants::{
    nested_class_name, object_signature_for, CaseInbound, CaseOutbound, ParsedVariant,
    ParsedVariants,
};
