use vstd::prelude::*;
use crate::attributes::{parsed, AttributeFault, Config, ConfigKey, JnixAttributes};
use crate::decl::{DataDecl, GenerationError, GenerationFault, TypeDecl};
use crate::fields::{
    decls_of, first_fault, parsed_from, read_plan, shape_of, slot_plan, ConstructorPlan, FieldRead,
    FieldSlot, ParsedFields, ReadPlan,
};
use crate::generics::{declared_bound, ParsedGenerics, TypeParameters};
use crate::text::{append_str, jni_class_name, push_char, slashed};
use crate::types::TypeError;
use crate::variants::{
    enum_in_plan, enum_out_plan, first_variant_fault, object_signature_for, object_signature_of,
    variant_from, CaseInbound, CaseOutbound, ParsedVariants,
};

verus! {

/// The fields of a struct or the variants of an enum.
pub enum TypeData {
    Enum(ParsedVariants),
    Struct(ParsedFields),
}

/// What the conversion into a Java object does.
pub enum IntoJavaBody {
    /// A struct constructs an object.
    Struct(ConstructorPlan),
    /// An enum does what its variant's case says.
    Enum(Vec<CaseOutbound>),
}

/// What the conversion from a Java object does.
pub enum FromJavaBody {
    /// A struct reads its fields through accessors.
    Struct(ReadPlan),
    /// An enum scans its variants' cases in order; `deny` tells, for each
    /// variant, whether it may not be built from Java data.
    Enum { enum_class: bool, deny: Vec<bool>, cases: Vec<CaseInbound> },
}

/// The conversion of a type into Java objects.
pub struct IntoJavaPlan {
    /// The dotted name of the Java class.
    pub class_name: String,
    /// The class name in the slashed form that JNI looks classes up by.
    pub jni_class: String,
    /// The JNI signature of an object of the class.
    pub signature: String,
    pub body: IntoJavaBody,
}

/// The conversion of Java objects into a type.
pub struct FromJavaPlan {
    /// The dotted name of the Java class.
    pub class_name: String,
    /// The class name in the slashed form that JNI looks classes up by.
    pub jni_class: String,
    /// The JNI signature of an object of the class.
    pub signature: String,
    pub body: FromJavaBody,
}

/// The dotted name of the Java class that a type named `ty_name` with the
/// configuration `attrs` stands for: its `class_name`, else its `package` and
/// its own name, else none.
pub open spec fn class_name_of(attrs: JnixAttributes, ty_name: Seq<char>) -> Option<Seq<char>> {
    match attrs.value(ConfigKey::ClassName) {
        Some(c) => Some(c),
        None => match attrs.value(ConfigKey::Package) {
            Some(p) => Some(p + seq!['.'] + ty_name),
            None => None,
        },
    }
}

/// Why the declaration `d` is refused, if it is: its own configuration, then
/// a union, then its first refused field or variant.
pub open spec fn type_fault(d: TypeDecl) -> Option<GenerationFault> {
    match parsed(d.attributes@) {
        Err(e) => Some(GenerationFault::InvalidAttribute(e)),
        Ok(_) => match d.data {
            DataDecl::Union => Some(GenerationFault::UnionNotSupported),
            DataDecl::Struct(f) => first_fault(decls_of(f), shape_of(f)),
            DataDecl::Enum(vs) => first_variant_fault(vs@),
        },
    }
}

/// The declaration `d` has no more fields in one list than a `u32` counts.
pub open spec fn countable(d: TypeDecl) -> bool {
    match d.data {
        DataDecl::Struct(f) => decls_of(f).len() <= u32::MAX,
        DataDecl::Enum(vs) => forall|i: int| 0 <= i < vs@.len() ==> decls_of((#[trigger] vs@[i]).fields).len() <= u32::MAX,
        DataDecl::Union => true,
    }
}

/// A type declaration with its configuration, generic parameters and data.
pub struct ParsedType {
    attributes: JnixAttributes,
    ident: String,
    generics: ParsedGenerics,
    data: TypeData,
}

impl ParsedType {
    pub closed spec fn attrs(&self) -> JnixAttributes {
        self.attributes
    }

    pub closed spec fn name(&self) -> Seq<char> {
        self.ident@
    }

    /// The generic parameters with their erasure signatures.
    pub closed spec fn params(&self) -> TypeParameters {
        self.generics.parameters()
    }

    pub closed spec fn data(&self) -> TypeData {
        self.data
    }

    /// `self` is the parsed form of the declaration `d`.
    pub open spec fn parsed_from(&self, d: TypeDecl) -> bool {
        &&& parsed(d.attributes@) == Ok::<Config, AttributeFault>(self.attrs().config())
        &&& self.name() == d.name@
        &&& self.params().wf()
        &&& self.params().names() == d.type_params@.map_values(|s: String| s@)
        &&& self.params().sigs().len() == d.type_params@.len()
        &&& forall|i: int| 0 <= i < d.type_params@.len() ==> #[trigger] self.params().sigs()[i]
            == declared_bound(self.attrs().value(ConfigKey::Bounds), d.type_params@[i]@)
        &&& match (self.data(), d.data) {
            (TypeData::Struct(pf), DataDecl::Struct(f)) => {
                &&& pf.shape() == shape_of(f)
                &&& pf.items().len() == decls_of(f).len()
                &&& forall|i: int| 0 <= i < pf.items().len() ==> parsed_from(
                    #[trigger] pf.items()[i],
                    decls_of(f)[i],
                    shape_of(f),
                    i,
                    self.attrs().has("skip_all"@),
                )
            },
            (TypeData::Enum(pv), DataDecl::Enum(vs)) => {
                &&& pv.items().len() == vs@.len()
                &&& forall|i: int| 0 <= i < vs@.len() ==> variant_from(#[trigger] pv.items()[i], vs@[i])
                &&& pv.is_enum_class() == crate::variants::all_unit(pv.items())
            },
            _ => false,
        }
    }

    /// The fields or variants of the type.
    pub fn type_data(&self) -> (r: &TypeData)
        ensures
            *r == self.data(),
    {
        &self.data
    }

    /// Parses the declaration `decl`.
    pub fn new(decl: TypeDecl) -> (r: Result<Self, GenerationError>)
        requires
            countable(decl),
        ensures
            match r {
                Ok(t) => type_fault(decl) is None && t.parsed_from(decl),
                Err(e) => type_fault(decl) == Some(e@),
            },
    {
        let TypeDecl { name, attributes, type_params, data } = decl;
        let attributes = match JnixAttributes::new(&attributes) {
            Ok(a) => a,
            Err(e) => return Err(GenerationError::InvalidAttribute(e)),
        };
        let generics = ParsedGenerics::new(&type_params, &attributes);
        let data = match TypeData::from(data, &attributes) {
            Ok(d) => d,
            Err(e) => return Err(e),
        };
        Ok(ParsedType { attributes, ident: name, generics, data })
    }

    /// The dotted name of the Java class that the type stands for.
    pub fn class_name(&self) -> (r: Result<String, GenerationError>)
        ensures
            match r {
                Ok(c) => class_name_of(self.attrs(), self.name()) == Some(c@),
                Err(e) => class_name_of(self.attrs(), self.name()) is None && e == GenerationError::MissingClassName,
            },
    {
        if let Some(c) = self.attributes.get(ConfigKey::ClassName) {
            return Ok(c);
        }
        if let Some(mut class_name) = self.attributes.get(ConfigKey::Package) {
            push_char(&mut class_name, '.');
            append_str(&mut class_name, self.ident.as_str());
            return Ok(class_name);
        }
        Err(GenerationError::MissingClassName)
    }

    /// The conversion of the type into Java objects.
    pub fn generate_into_java(&self) -> (r: Result<IntoJavaPlan, GenerationError>)
        requires
            self.params().wf(),
        ensures
            match r {
                Ok(p) => {
                    &&& class_name_of(self.attrs(), self.name()) == Some(p.class_name@)
                    &&& p.jni_class@ == slashed(p.class_name@)
                    &&& p.signature@ == object_signature_of(p.jni_class@)
                    &&& into_body_matches(p.body, self.data(), p.jni_class@, self.params())
                },
                Err(e) => match class_name_of(self.attrs(), self.name()) {
                    None => e == GenerationError::MissingClassName,
                    Some(c) => into_body_fault(self.data(), slashed(c), self.params()) == Some(e@),
                },
            },
    {
        let class_name = match self.class_name() {
            Ok(c) => c,
            Err(e) => return Err(e),
        };
        let jni_class = jni_class_name(class_name.as_str());
        let signature = object_signature_for(jni_class.as_str());
        let tp = self.generics.parameters_ref();
        let body = match self.data.generate_into_java_body(jni_class.as_str(), tp) {
            Ok(b) => b,
            Err(e) => return Err(e),
        };
        Ok(IntoJavaPlan { class_name, jni_class, signature, body })
    }

    /// The conversion of Java objects into the type.
    pub fn generate_from_java(&self) -> (r: Result<FromJavaPlan, GenerationError>)
        requires
            self.params().wf(),
        ensures
            match r {
                Ok(p) => {
                    &&& class_name_of(self.attrs(), self.name()) == Some(p.class_name@)
                    &&& p.jni_class@ == slashed(p.class_name@)
                    &&& p.signature@ == object_signature_of(p.jni_class@)
                    &&& from_body_matches(p.body, self.data(), p.jni_class@, self.params())
                },
                Err(e) => match class_name_of(self.attrs(), self.name()) {
                    None => e == GenerationError::MissingClassName,
                    Some(c) => from_body_fault(self.data(), slashed(c), self.params()) == Some(e@),
                },
            },
    {
        let class_name = match self.class_name() {
            Ok(c) => c,
            Err(e) => return Err(e),
        };
        let jni_class = jni_class_name(class_name.as_str());
        let signature = object_signature_for(jni_class.as_str());
        let tp = self.generics.parameters_ref();
        let body = match self.data.generate_from_java_body(jni_class.as_str(), tp) {
            Ok(b) => b,
            Err(e) => return Err(e),
        };
        Ok(FromJavaPlan { class_name, jni_class, signature, body })
    }
}

/// `body` converts values of a type with data `data` into objects of the
/// class with JNI name `class`.
pub open spec fn into_body_matches(body: IntoJavaBody, data: TypeData, class: Seq<char>, tp: TypeParameters) -> bool {
    match (body, data) {
        (IntoJavaBody::Struct(c), TypeData::Struct(f)) => c.class@ == class
            && slot_plan(f.items(), tp) == Ok::<_, TypeError>(c.slots@.map_values(|s: FieldSlot| s@)),
        (IntoJavaBody::Enum(cases), TypeData::Enum(vs)) => enum_out_plan(vs.items(), class, vs.is_enum_class(), tp)
            == Ok::<_, TypeError>(cases@.map_values(|c: CaseOutbound| c@)),
        _ => false,
    }
}

/// Why no conversion of values with data `data` into objects of the class
/// with JNI name `class` can be generated, if none can.
pub open spec fn into_body_fault(data: TypeData, class: Seq<char>, tp: TypeParameters) -> Option<GenerationFault> {
    match data {
        TypeData::Struct(f) => match slot_plan(f.items(), tp) {
            Err(e) => Some(GenerationFault::UnsupportedType(e)),
            Ok(_) => None,
        },
        TypeData::Enum(vs) => match enum_out_plan(vs.items(), class, vs.is_enum_class(), tp) {
            Err(e) => Some(GenerationFault::UnsupportedType(e)),
            Ok(_) => None,
        },
    }
}

/// `body` converts objects of the class with JNI name `class` into values of
/// a type with data `data`.
pub open spec fn from_body_matches(body: FromJavaBody, data: TypeData, class: Seq<char>, tp: TypeParameters) -> bool {
    match (body, data) {
        (FromJavaBody::Struct(p), TypeData::Struct(f)) => p.class@ == class && p.shape == f.shape()
            && read_plan(f.items(), tp) == Ok::<_, TypeError>(p.reads@.map_values(|x: FieldRead| x@)),
        (FromJavaBody::Enum { enum_class, deny, cases }, TypeData::Enum(vs)) => {
            &&& enum_class == vs.is_enum_class()
            &&& deny@.len() == vs.items().len()
            &&& forall|i: int| 0 <= i < deny@.len() ==> deny@[i] == (#[trigger] vs.items()[i]).attributes.has("deny"@)
            &&& enum_in_plan(vs.items(), class, vs.is_enum_class(), tp) == Ok::<_, TypeError>(cases@.map_values(|c: CaseInbound| c@))
        },
        _ => false,
    }
}

/// Why no conversion of objects of the class with JNI name `class` into
/// values with data `data` can be generated, if none can.
pub open spec fn from_body_fault(data: TypeData, class: Seq<char>, tp: TypeParameters) -> Option<GenerationFault> {
    match data {
        TypeData::Struct(f) => match read_plan(f.items(), tp) {
            Err(e) => Some(GenerationFault::UnsupportedType(e)),
            Ok(_) => None,
        },
        TypeData::Enum(vs) => match enum_in_plan(vs.items(), class, vs.is_enum_class(), tp) {
            Err(e) => Some(GenerationFault::UnsupportedType(e)),
            Ok(_) => None,
        },
    }
}

impl TypeData {
    /// The fields or variants of `data`, for a type configured by
    /// `attributes`.
    pub fn from(data: DataDecl, attributes: &JnixAttributes) -> (r: Result<Self, GenerationError>)
        requires
            match data {
                DataDecl::Struct(f) => decls_of(f).len() <= u32::MAX,
                DataDecl::Enum(vs) => forall|i: int| 0 <= i < vs@.len() ==> decls_of((#[trigger] vs@[i]).fields).len() <= u32::MAX,
                DataDecl::Union => true,
            },
        ensures
            match r {
                Ok(TypeData::Struct(pf)) => match data {
                    DataDecl::Struct(f) => {
                        &&& first_fault(decls_of(f), shape_of(f)) is None
                        &&& pf.shape() == shape_of(f)
                        &&& pf.items().len() == decls_of(f).len()
                        &&& forall|i: int| 0 <= i < pf.items().len() ==> parsed_from(
                            #[trigger] pf.items()[i],
                            decls_of(f)[i],
                            shape_of(f),
                            i,
                            attributes.has("skip_all"@),
                        )
                    },
                    _ => false,
                },
                Ok(TypeData::Enum(pv)) => match data {
                    DataDecl::Enum(vs) => {
                        &&& first_variant_fault(vs@) is None
                        &&& pv.items().len() == vs@.len()
                        &&& forall|i: int| 0 <= i < vs@.len() ==> variant_from(#[trigger] pv.items()[i], vs@[i])
                        &&& pv.is_enum_class() == crate::variants::all_unit(pv.items())
                    },
                    _ => false,
                },
                Err(e) => match data {
                    DataDecl::Union => e == GenerationError::UnionNotSupported,
                    DataDecl::Struct(f) => first_fault(decls_of(f), shape_of(f)) == Some(e@),
                    DataDecl::Enum(vs) => first_variant_fault(vs@) == Some(e@),
                },
            },
    {
        match data {
            DataDecl::Enum(variants) => match ParsedVariants::new(variants) {
                Ok(v) => Ok(TypeData::Enum(v)),
                Err(e) => Err(e),
            },
            DataDecl::Struct(fields) => match ParsedFields::new(fields, attributes) {
                Ok(f) => Ok(TypeData::Struct(f)),
                Err(e) => Err(e),
            },
            DataDecl::Union => Err(GenerationError::UnionNotSupported),
        }
    }

    /// The conversion of values with this data into objects of the class
    /// with JNI name `class`.
    pub fn generate_into_java_body(&self, class: &str, tp: &TypeParameters) -> (r: Result<IntoJavaBody, GenerationError>)
        requires
            tp.wf(),
        ensures
            match r {
                Ok(b) => into_body_matches(b, *self, class@, *tp),
                Err(e) => into_body_fault(*self, class@, *tp) == Some(e@),
            },
    {
        match self {
            TypeData::Enum(variants) => match variants.generate_enum_into_java(class, tp) {
                Ok(cases) => Ok(IntoJavaBody::Enum(cases)),
                Err(e) => Err(GenerationError::UnsupportedType(e)),
            },
            TypeData::Struct(fields) => match fields.generate_into_java(class, tp) {
                Ok(c) => Ok(IntoJavaBody::Struct(c)),
                Err(e) => Err(GenerationError::UnsupportedType(e)),
            },
        }
    }

    /// The conversion of objects of the class with JNI name `class` into
    /// values with this data.
    pub fn generate_from_java_body(&self, class: &str, tp: &TypeParameters) -> (r: Result<FromJavaBody, GenerationError>)
        requires
            tp.wf(),
        ensures
            match r {
                Ok(b) => from_body_matches(b, *self, class@, *tp),
                Err(e) => from_body_fault(*self, class@, *tp) == Some(e@),
            },
    {
        match self {
            TypeData::Enum(variants) => match variants.generate_enum_from_java(class, tp) {
                Ok(cases) => Ok(FromJavaBody::Enum { enum_class: variants.enum_class(), deny: variants.deny_flags(), cases }),
                Err(e) => Err(GenerationError::UnsupportedType(e)),
            },
            TypeData::Struct(fields) => match fields.generate_from_java(class, tp) {
                Ok(p) => Ok(FromJavaBody::Struct(p)),
                Err(e) => Err(GenerationError::UnsupportedType(e)),
            },
        }
    }
}

} // verus!
