use vstd::prelude::*;
use crate::attributes::{parsed, AttributeFault, Config, JnixAttributes};
use crate::decl::{GenerationError, GenerationFault, VariantDecl};
use crate::fields::{
    decls_of, first_fault, parsed_from, read_plan, shape_of, slot_plan, ConstructorPlan, FieldRead,
    FieldSlot, FieldType, ParsedFields, ReadPlan, SlotView,
};
use crate::generics::TypeParameters;
use crate::text::{append_str, push_char, to_string};
use crate::types::TypeError;

verus! {

/// The JNI name of the class of variant `name` nested in the class `class`.
pub open spec fn nested_class_of(class: Seq<char>, name: Seq<char>) -> Seq<char> {
    class + seq!['$'] + name
}

/// The JNI signature of an object of the class with JNI name `class`.
pub open spec fn object_signature_of(class: Seq<char>) -> Seq<char> {
    seq!['L'] + class + seq![';']
}

/// One variant of an enum with its fields and configuration.
pub struct ParsedVariant {
    pub name: String,
    pub fields: ParsedFields,
    pub attributes: JnixAttributes,
}

/// Why the declared variant `d` is refused, if it is: its first refused
/// field, else its own configuration.
pub open spec fn variant_fault(d: VariantDecl) -> Option<GenerationFault> {
    match first_fault(decls_of(d.fields), shape_of(d.fields)) {
        Some(e) => Some(e),
        None => match parsed(d.attributes@) {
            Err(e) => Some(GenerationFault::InvalidAttribute(e)),
            Ok(_) => None,
        },
    }
}

/// Why the first refused variant among `ds` is refused, if one is.
pub open spec fn first_variant_fault(ds: Seq<VariantDecl>) -> Option<GenerationFault>
    decreases ds.len(),
{
    if ds.len() == 0 {
        None
    } else {
        match first_variant_fault(ds.drop_last()) {
            Some(e) => Some(e),
            None => variant_fault(ds.last()),
        }
    }
}

/// `v` is the parsed form of the declared variant `d`.
pub open spec fn variant_from(v: ParsedVariant, d: VariantDecl) -> bool {
    &&& v.name@ == d.name@
    &&& v.fields.shape() == shape_of(d.fields)
    &&& v.fields.items().len() == decls_of(d.fields).len()
    &&& forall|i: int| 0 <= i < v.fields.items().len() ==> parsed_from(
        #[trigger] v.fields.items()[i],
        decls_of(d.fields)[i],
        shape_of(d.fields),
        i,
        false,
    )
    &&& parsed(d.attributes@) == Ok::<Config, AttributeFault>(v.attributes.config())
}

/// Whether every variant carries no fields, so that the enum stands for a
/// Java enum class rather than a sealed class hierarchy.
pub open spec fn all_unit(vs: Seq<ParsedVariant>) -> bool {
    forall|i: int| 0 <= i < vs.len() ==> (#[trigger] vs[i]).fields.shape() == FieldType::Unit
}

/// How one variant is turned into a Java object.
pub enum CaseOutbound {
    /// The object is the static field `field` of the class `class`, whose
    /// signature is `signature`.
    StaticField { class: String, field: String, signature: String },
    /// The object is constructed.
    Construct(ConstructorPlan),
}

/// A [`CaseOutbound`] as a value of the specification.
pub enum CaseOutView {
    StaticField(Seq<char>, Seq<char>, Seq<char>),
    Construct(Seq<char>, Seq<SlotView>),
}

impl View for CaseOutbound {
    type V = CaseOutView;

    open spec fn view(&self) -> CaseOutView {
        match self {
            CaseOutbound::StaticField { class, field, signature } => CaseOutView::StaticField(class@, field@, signature@),
            CaseOutbound::Construct(p) => CaseOutView::Construct(p.class@, p.slots@.map_values(|s: FieldSlot| s@)),
        }
    }
}

/// How one variant is recognised in, and rebuilt from, a Java object.
pub enum CaseInbound {
    /// The object is, by identity, the static field `field` of the class
    /// `class`, whose signature is `signature`; `deny` tells whether the
    /// variant may not be built from Java data.
    SameObject { class: String, field: String, signature: String, deny: bool },
    /// The object is an instance of the class `class`; the variant is rebuilt
    /// with `read`, which is absent where the variant may not be built from
    /// Java data.
    InstanceOf { class: String, read: Option<ReadPlan> },
}

/// A [`CaseInbound`] as a value of the specification.
pub enum CaseInView {
    SameObject(Seq<char>, Seq<char>, Seq<char>, bool),
    InstanceOf(Seq<char>, Option<(Seq<char>, FieldType, Seq<Option<SlotView>>)>),
}

impl View for CaseInbound {
    type V = CaseInView;

    open spec fn view(&self) -> CaseInView {
        match self {
            CaseInbound::SameObject { class, field, signature, deny } => CaseInView::SameObject(class@, field@, signature@, *deny),
            CaseInbound::InstanceOf { class, read } => CaseInView::InstanceOf(
                class@,
                match read {
                    Some(p) => Some((p.class@, p.shape, p.reads@.map_values(|x: FieldRead| x@))),
                    None => None,
                },
            ),
        }
    }
}

/// How variant `v` of the enum whose class has JNI name `class` is turned
/// into a Java object.
pub open spec fn case_out(v: ParsedVariant, class: Seq<char>, simple: bool, tp: TypeParameters) -> Result<CaseOutView, TypeError> {
    let nested = nested_class_of(class, v.name@);
    if simple {
        Ok(CaseOutView::StaticField(class, v.name@, object_signature_of(class)))
    } else if v.fields.shape() == FieldType::Unit {
        Ok(CaseOutView::StaticField(nested, "INSTANCE"@, object_signature_of(nested)))
    } else {
        match slot_plan(v.fields.items(), tp) {
            Ok(slots) => Ok(CaseOutView::Construct(nested, slots)),
            Err(e) => Err(e),
        }
    }
}

/// How variant `v` of the enum whose class has JNI name `class` is
/// recognised and rebuilt.
pub open spec fn case_in(v: ParsedVariant, class: Seq<char>, simple: bool, tp: TypeParameters) -> Result<CaseInView, TypeError> {
    let nested = nested_class_of(class, v.name@);
    let deny = v.attributes.has("deny"@);
    if simple {
        Ok(CaseInView::SameObject(class, v.name@, object_signature_of(class), deny))
    } else if deny {
        Ok(CaseInView::InstanceOf(nested, None))
    } else {
        match read_plan(v.fields.items(), tp) {
            Ok(reads) => Ok(CaseInView::InstanceOf(nested, Some((nested, v.fields.shape(), reads)))),
            Err(e) => Err(e),
        }
    }
}

/// [`case_out`] for each of `vs`, in order; the first variant that fails
/// decides the error.
pub open spec fn enum_out_plan(vs: Seq<ParsedVariant>, class: Seq<char>, simple: bool, tp: TypeParameters) -> Result<Seq<CaseOutView>, TypeError>
    decreases vs.len(),
{
    if vs.len() == 0 {
        Ok(Seq::empty())
    } else {
        match enum_out_plan(vs.drop_last(), class, simple, tp) {
            Err(e) => Err(e),
            Ok(cases) => match case_out(vs.last(), class, simple, tp) {
                Err(e) => Err(e),
                Ok(c) => Ok(cases.push(c)),
            },
        }
    }
}

/// [`case_in`] for each of `vs`, in order; the first variant that fails
/// decides the error.
pub open spec fn enum_in_plan(vs: Seq<ParsedVariant>, class: Seq<char>, simple: bool, tp: TypeParameters) -> Result<Seq<CaseInView>, TypeError>
    decreases vs.len(),
{
    if vs.len() == 0 {
        Ok(Seq::empty())
    } else {
        match enum_in_plan(vs.drop_last(), class, simple, tp) {
            Err(e) => Err(e),
            Ok(cases) => match case_in(vs.last(), class, simple, tp) {
                Err(e) => Err(e),
                Ok(c) => Ok(cases.push(c)),
            },
        }
    }
}

impl ParsedVariant {
    /// Parses the declared variant `d`.
    pub fn from_decl(d: VariantDecl) -> (r: Result<Self, GenerationError>)
        requires
            decls_of(d.fields).len() <= u32::MAX,
        ensures
            match r {
                Ok(v) => variant_fault(d) is None && variant_from(v, d),
                Err(e) => variant_fault(d) == Some(e@),
            },
    {
        let VariantDecl { name, attributes, fields } = d;
        let fields = match ParsedFields::new(fields, &JnixAttributes::empty()) {
            Ok(f) => f,
            Err(e) => return Err(e),
        };
        let attributes = match JnixAttributes::new(&attributes) {
            Ok(a) => a,
            Err(e) => return Err(GenerationError::InvalidAttribute(e)),
        };
        Ok(ParsedVariant { name, fields, attributes })
    }
}

/// The variants of an enum, in declaration order.
pub struct ParsedVariants {
    variants: Vec<ParsedVariant>,
    enum_class: bool,
}

/// The JNI name of the class of variant `name` nested in `class`.
pub fn nested_class_name(class: &str, name: &str) -> (r: String)
    ensures
        r@ == nested_class_of(class@, name@),
{
    let mut out = to_string(class);
    push_char(&mut out, '$');
    append_str(&mut out, name);
    out
}

/// The JNI signature of an object of the class with JNI name `class`.
pub fn object_signature_for(class: &str) -> (r: String)
    ensures
        r@ == object_signature_of(class@),
{
    let mut out = String::new();
    push_char(&mut out, 'L');
    append_str(&mut out, class);
    push_char(&mut out, ';');
    assert(out@ =~= object_signature_of(class@));
    out
}

impl ParsedVariants {
    /// The variants.
    pub closed spec fn items(&self) -> Seq<ParsedVariant> {
        self.variants@
    }

    /// Whether the enum stands for a Java enum class.
    pub closed spec fn is_enum_class(&self) -> bool {
        self.enum_class
    }

    /// Parses the declared variants `decls`, in order.
    pub fn new(decls: Vec<VariantDecl>) -> (r: Result<Self, GenerationError>)
        requires
            forall|i: int| 0 <= i < decls@.len() ==> decls_of((#[trigger] decls@[i]).fields).len() <= u32::MAX,
        ensures
            match r {
                Ok(pv) => {
                    &&& first_variant_fault(decls@) is None
                    &&& pv.items().len() == decls@.len()
                    &&& forall|i: int| 0 <= i < decls@.len() ==> variant_from(#[trigger] pv.items()[i], decls@[i])
                    &&& pv.is_enum_class() == all_unit(pv.items())
                },
                Err(e) => first_variant_fault(decls@) == Some(e@),
            },
    {
        let ghost ds = decls@;
        let n = decls.len();
        let mut rest = decls;
        let mut variants: Vec<ParsedVariant> = Vec::new();
        let mut only_unit = true;
        let mut i: usize = 0;
        assert(ds.subrange(0, 0) =~= Seq::<VariantDecl>::empty());
        assert(rest@ =~= ds.subrange(0, ds.len() as int));
        while rest.len() > 0
            invariant
                ds == decls@,
                ds.len() == n,
                forall|j: int| 0 <= j < ds.len() ==> decls_of((#[trigger] ds[j]).fields).len() <= u32::MAX,
                i <= ds.len(),
                rest@ == ds.subrange(i as int, ds.len() as int),
                variants@.len() == i,
                first_variant_fault(ds.subrange(0, i as int)) is None,
                forall|j: int| 0 <= j < i ==> variant_from(#[trigger] variants@[j], ds[j]),
                only_unit == all_unit(variants@),
            decreases rest.len(),
        {
            let d = rest.remove(0);
            assert(d == ds[i as int]);
            assert(ds.subrange(0, i + 1).drop_last() == ds.subrange(0, i as int));
            assert(ds.subrange(0, i + 1).last() == ds[i as int]);
            let v = match ParsedVariant::from_decl(d) {
                Ok(v) => v,
                Err(e) => {
                    assert(first_variant_fault(ds.subrange(0, i + 1)) == Some(e@));
                    proof {
                        lemma_first_variant_fault_stays(ds, i as int + 1);
                    }
                    return Err(e);
                },
            };
            let unit = v.fields.is_unit();
            let ghost before = variants@;
            variants.push(v);
            only_unit = only_unit && unit;
            assert(all_unit(variants@) == (all_unit(before) && unit)) by {
                if all_unit(before) && unit {
                    assert forall|j: int| 0 <= j < variants@.len() implies (#[trigger] variants@[j]).fields.shape() == FieldType::Unit by {
                        if j < before.len() {
                            assert(variants@[j] == before[j]);
                        }
                    }
                }
                if !unit {
                    assert(variants@[variants@.len() - 1].fields.shape() != FieldType::Unit);
                }
                if !all_unit(before) {
                    let j = choose|j: int| 0 <= j < before.len() && (#[trigger] before[j]).fields.shape() != FieldType::Unit;
                    assert(variants@[j] == before[j]);
                }
            }
            i = i + 1;
            assert(rest@ =~= ds.subrange(i as int, ds.len() as int));
        }
        assert(ds.subrange(0, ds.len() as int) == ds);
        Ok(ParsedVariants { variants, enum_class: only_unit })
    }

    /// Whether the enum stands for a Java enum class, all of its variants
    /// carrying no fields, rather than for a sealed class hierarchy.
    pub fn enum_class(&self) -> (r: bool)
        ensures
            r == self.is_enum_class(),
    {
        self.enum_class
    }

    /// The number of variants.
    pub fn len(&self) -> (r: usize)
        ensures
            r == self.items().len(),
    {
        self.variants.len()
    }

    /// The variant at `index`.
    pub fn variant(&self, index: usize) -> (r: &ParsedVariant)
        requires
            index < self.items().len(),
        ensures
            *r == self.items()[index as int],
    {
        &self.variants[index]
    }

    /// Whether each variant, in order, may not be built from Java data.
    pub fn deny_flags(&self) -> (r: Vec<bool>)
        ensures
            r@.len() == self.items().len(),
            forall|i: int| 0 <= i < r@.len() ==> r@[i] == (#[trigger] self.items()[i]).attributes.has("deny"@),
    {
        let mut r: Vec<bool> = Vec::new();
        let mut i: usize = 0;
        while i < self.variants.len()
            invariant
                i <= self.variants@.len(),
                r@.len() == i,
                forall|j: int| 0 <= j < i ==> r@[j] == (#[trigger] self.variants@[j]).attributes.has("deny"@),
            decreases self.variants@.len() - i,
        {
            r.push(self.variants[i].attributes.has_flag("deny"));
            i = i + 1;
        }
        r
    }

    /// How each variant is turned into a Java object of the class with JNI
    /// name `class`, in declaration order.
    pub fn generate_enum_into_java(&self, class: &str, tp: &TypeParameters) -> (r: Result<Vec<CaseOutbound>, TypeError>)
        requires
            tp.wf(),
        ensures
            match r {
                Ok(cases) => enum_out_plan(self.items(), class@, self.is_enum_class(), *tp)
                    == Ok::<_, TypeError>(cases@.map_values(|c: CaseOutbound| c@)),
                Err(e) => enum_out_plan(self.items(), class@, self.is_enum_class(), *tp)
                    == Err::<Seq<CaseOutView>, _>(e),
            },
    {
        if self.enum_class {
            Ok(self.generate_enum_class_into_java_conversions(class, tp))
        } else {
            self.generate_sealed_class_into_java_conversions(class, tp)
        }
    }

    /// Each variant as the static field of the enum class `class` that bears
    /// its name.
    fn generate_enum_class_into_java_conversions(&self, class: &str, tp: &TypeParameters) -> (r: Vec<CaseOutbound>)
        ensures
            enum_out_plan(self.items(), class@, true, *tp) == Ok::<_, TypeError>(r@.map_values(|c: CaseOutbound| c@)),
    {
        let ghost vs = self.variants@;
        let mut cases: Vec<CaseOutbound> = Vec::new();
        let mut i: usize = 0;
        assert(vs.subrange(0, 0) =~= Seq::<ParsedVariant>::empty());
        assert(cases@.map_values(|c: CaseOutbound| c@) =~= Seq::<CaseOutView>::empty());
        while i < self.variants.len()
            invariant
                vs == self.variants@,
                i <= vs.len(),
                enum_out_plan(vs.subrange(0, i as int), class@, true, *tp) == Ok::<_, TypeError>(cases@.map_values(|c: CaseOutbound| c@)),
            decreases vs.len() - i,
        {
            let ghost before = cases@.map_values(|c: CaseOutbound| c@);
            assert(vs.subrange(0, i + 1).drop_last() == vs.subrange(0, i as int));
            assert(vs.subrange(0, i + 1).last() == vs[i as int]);
            let v = &self.variants[i];
            let case = CaseOutbound::StaticField {
                class: to_string(class),
                field: to_string(v.name.as_str()),
                signature: object_signature_for(class),
            };
            let ghost cv = case@;
            cases.push(case);
            assert(cases@.map_values(|c: CaseOutbound| c@) =~= before.push(cv));
            i = i + 1;
        }
        assert(vs.subrange(0, vs.len() as int) == vs);
        cases
    }

    /// Each variant as an object of the class nested in `class` that bears
    /// its name.
    fn generate_sealed_class_into_java_conversions(&self, class: &str, tp: &TypeParameters) -> (r: Result<Vec<CaseOutbound>, TypeError>)
        requires
            tp.wf(),
        ensures
            match r {
                Ok(cases) => enum_out_plan(self.items(), class@, false, *tp)
                    == Ok::<_, TypeError>(cases@.map_values(|c: CaseOutbound| c@)),
                Err(e) => enum_out_plan(self.items(), class@, false, *tp) == Err::<Seq<CaseOutView>, _>(e),
            },
    {
        let ghost vs = self.variants@;
        let mut cases: Vec<CaseOutbound> = Vec::new();
        let mut i: usize = 0;
        assert(vs.subrange(0, 0) =~= Seq::<ParsedVariant>::empty());
        assert(cases@.map_values(|c: CaseOutbound| c@) =~= Seq::<CaseOutView>::empty());
        while i < self.variants.len()
            invariant
                tp.wf(),
                vs == self.variants@,
                i <= vs.len(),
                enum_out_plan(vs.subrange(0, i as int), class@, false, *tp) == Ok::<_, TypeError>(cases@.map_values(|c: CaseOutbound| c@)),
            decreases vs.len() - i,
        {
            let ghost before = cases@.map_values(|c: CaseOutbound| c@);
            assert(vs.subrange(0, i + 1).drop_last() == vs.subrange(0, i as int));
            assert(vs.subrange(0, i + 1).last() == vs[i as int]);
            let v = &self.variants[i];
            let nested = nested_class_name(class, v.name.as_str());
            let case = if v.fields.is_unit() {
                Self::generate_unit_variant_into_java_conversion(nested.as_str())
            } else {
                match Self::generate_variant_with_fields_into_java_conversion(v, nested.as_str(), tp) {
                    Ok(c) => c,
                    Err(e) => {
                        proof {
                            lemma_enum_out_error_stays(vs, class@, false, *tp, i as int + 1);
                        }
                        return Err(e);
                    },
                }
            };
            let ghost cv = case@;
            cases.push(case);
            assert(cases@.map_values(|c: CaseOutbound| c@) =~= before.push(cv));
            i = i + 1;
        }
        assert(vs.subrange(0, vs.len() as int) == vs);
        Ok(cases)
    }

    /// A variant without fields as the singleton `INSTANCE` of its nested
    /// class `nested`.
    pub fn generate_unit_variant_into_java_conversion(nested: &str) -> (r: CaseOutbound)
        ensures
            r@ == CaseOutView::StaticField(nested@, "INSTANCE"@, object_signature_of(nested@)),
    {
        CaseOutbound::StaticField {
            class: to_string(nested),
            field: String::from_str("INSTANCE"),
            signature: object_signature_for(nested),
        }
    }

    /// A variant with fields as a new object of its nested class `nested`.
    pub fn generate_variant_with_fields_into_java_conversion(variant: &ParsedVariant, nested: &str, tp: &TypeParameters) -> (r: Result<CaseOutbound, TypeError>)
        requires
            tp.wf(),
        ensures
            match r {
                Ok(c) => slot_plan(variant.fields.items(), *tp) is Ok
                    && c@ == CaseOutView::Construct(nested@, slot_plan(variant.fields.items(), *tp)->Ok_0),
                Err(e) => slot_plan(variant.fields.items(), *tp) == Err::<Seq<SlotView>, _>(e),
            },
    {
        match variant.fields.generate_into_java(nested, tp) {
            Ok(p) => Ok(CaseOutbound::Construct(p)),
            Err(e) => Err(e),
        }
    }

    /// How each variant is recognised in, and rebuilt from, a Java object of
    /// the class with JNI name `class`, in declaration order.
    pub fn generate_enum_from_java(&self, class: &str, tp: &TypeParameters) -> (r: Result<Vec<CaseInbound>, TypeError>)
        requires
            tp.wf(),
        ensures
            match r {
                Ok(cases) => enum_in_plan(self.items(), class@, self.is_enum_class(), *tp)
                    == Ok::<_, TypeError>(cases@.map_values(|c: CaseInbound| c@)),
                Err(e) => enum_in_plan(self.items(), class@, self.is_enum_class(), *tp)
                    == Err::<Seq<CaseInView>, _>(e),
            },
    {
        if self.enum_class {
            Ok(self.generate_enum_class_from_java_conversions(class, tp))
        } else {
            self.generate_sealed_class_from_java_conversions(class, tp)
        }
    }

    /// Each variant recognised as the static field of the enum class `class`
    /// that bears its name.
    fn generate_enum_class_from_java_conversions(&self, class: &str, tp: &TypeParameters) -> (r: Vec<CaseInbound>)
        ensures
            enum_in_plan(self.items(), class@, true, *tp) == Ok::<_, TypeError>(r@.map_values(|c: CaseInbound| c@)),
    {
        let ghost vs = self.variants@;
        let mut cases: Vec<CaseInbound> = Vec::new();
        let mut i: usize = 0;
        assert(vs.subrange(0, 0) =~= Seq::<ParsedVariant>::empty());
        assert(cases@.map_values(|c: CaseInbound| c@) =~= Seq::<CaseInView>::empty());
        while i < self.variants.len()
            invariant
                vs == self.variants@,
                i <= vs.len(),
                enum_in_plan(vs.subrange(0, i as int), class@, true, *tp) == Ok::<_, TypeError>(cases@.map_values(|c: CaseInbound| c@)),
            decreases vs.len() - i,
        {
            let ghost before = cases@.map_values(|c: CaseInbound| c@);
            assert(vs.subrange(0, i + 1).drop_last() == vs.subrange(0, i as int));
            assert(vs.subrange(0, i + 1).last() == vs[i as int]);
            let v = &self.variants[i];
            let case = CaseInbound::SameObject {
                class: to_string(class),
                field: to_string(v.name.as_str()),
                signature: object_signature_for(class),
                deny: v.attributes.has_flag("deny"),
            };
            let ghost cv = case@;
            cases.push(case);
            assert(cases@.map_values(|c: CaseInbound| c@) =~= before.push(cv));
            i = i + 1;
        }
        assert(vs.subrange(0, vs.len() as int) == vs);
        cases
    }

    /// Each variant recognised as an instance of the class nested in `class`
    /// that bears its name.
    fn generate_sealed_class_from_java_conversions(&self, class: &str, tp: &TypeParameters) -> (r: Result<Vec<CaseInbound>, TypeError>)
        requires
            tp.wf(),
        ensures
            match r {
                Ok(cases) => enum_in_plan(self.items(), class@, false, *tp)
                    == Ok::<_, TypeError>(cases@.map_values(|c: CaseInbound| c@)),
                Err(e) => enum_in_plan(self.items(), class@, false, *tp) == Err::<Seq<CaseInView>, _>(e),
            },
    {
        let ghost vs = self.variants@;
        let mut cases: Vec<CaseInbound> = Vec::new();
        let mut i: usize = 0;
        assert(vs.subrange(0, 0) =~= Seq::<ParsedVariant>::empty());
        assert(cases@.map_values(|c: CaseInbound| c@) =~= Seq::<CaseInView>::empty());
        while i < self.variants.len()
            invariant
                tp.wf(),
                vs == self.variants@,
                i <= vs.len(),
                enum_in_plan(vs.subrange(0, i as int), class@, false, *tp) == Ok::<_, TypeError>(cases@.map_values(|c: CaseInbound| c@)),
            decreases vs.len() - i,
        {
            let ghost before = cases@.map_values(|c: CaseInbound| c@);
            assert(vs.subrange(0, i + 1).drop_last() == vs.subrange(0, i as int));
            assert(vs.subrange(0, i + 1).last() == vs[i as int]);
            let v = &self.variants[i];
            let nested = nested_class_name(class, v.name.as_str());
            let read = if v.attributes.has_flag("deny") {
                None
            } else {
                match v.fields.generate_from_java(nested.as_str(), tp) {
                    Ok(p) => Some(p),
                    Err(e) => {
                        proof {
                            lemma_enum_in_error_stays(vs, class@, false, *tp, i as int + 1);
                        }
                        return Err(e);
                    },
                }
            };
            let case = CaseInbound::InstanceOf { class: nested, read };
            let ghost cv = case@;
            cases.push(case);
            assert(cases@.map_values(|c: CaseInbound| c@) =~= before.push(cv));
            i = i + 1;
        }
        assert(vs.subrange(0, vs.len() as int) == vs);
        Ok(cases)
    }
}

proof fn lemma_enum_out_error_stays(vs: Seq<ParsedVariant>, class: Seq<char>, simple: bool, tp: TypeParameters, k: int)
    requires
        0 <= k <= vs.len(),
        enum_out_plan(vs.subrange(0, k), class, simple, tp) is Err,
    ensures
        enum_out_plan(vs, class, simple, tp) == enum_out_plan(vs.subrange(0, k), class, simple, tp),
    decreases vs.len() - k,
{
    if k < vs.len() {
        assert(vs.subrange(0, k + 1).drop_last() == vs.subrange(0, k));
        lemma_enum_out_error_stays(vs, class, simple, tp, k + 1);
    } else {
        assert(vs.subrange(0, k) == vs);
    }
}

proof fn lemma_enum_in_error_stays(vs: Seq<ParsedVariant>, class: Seq<char>, simple: bool, tp: TypeParameters, k: int)
    requires
        0 <= k <= vs.len(),
        enum_in_plan(vs.subrange(0, k), class, simple, tp) is Err,
    ensures
        enum_in_plan(vs, class, simple, tp) == enum_in_plan(vs.subrange(0, k), class, simple, tp),
    decreases vs.len() - k,
{
    if k < vs.len() {
        assert(vs.subrange(0, k + 1).drop_last() == vs.subrange(0, k));
        lemma_enum_in_error_stays(vs, class, simple, tp, k + 1);
    } else {
        assert(vs.subrange(0, k) == vs);
    }
}

proof fn lemma_first_variant_fault_stays(ds: Seq<VariantDecl>, k: int)
    requires
        0 <= k <= ds.len(),
        first_variant_fault(ds.subrange(0, k)) is Some,
    ensures
        first_variant_fault(ds) == first_variant_fault(ds.subrange(0, k)),
    decreases ds.len() - k,
{
    if k < ds.len() {
        assert(ds.subrange(0, k + 1).drop_last() == ds.subrange(0, k));
        lemma_first_variant_fault_stays(ds, k + 1);
    } else {
        assert(ds.subrange(0, k) == ds);
    }
}

} // verus!
