use vstd::prelude::*;
use heck::MixedCase;
use crate::attributes::{parsed, AttributeEntry, AttributeError, ConfigKey, JnixAttributes};
use crate::decl::{FieldDecl, FieldsDecl, GenerationError, GenerationFault};
use crate::generics::{erased, TypeParameters};
use crate::text::{append_str, class_signature, class_signature_of, decimal, decimal_of, push_char, to_string};
use crate::types::{TypeError, TypeExpr};

verus! {

/// What heck's mixed case conversion makes of a string.
pub uninterp spec fn mixed_case_of(s: Seq<char>) -> Seq<char>;

/// Relies on heck's `MixedCase::to_mixed_case` for `str`, whose result depends
/// on the characters of its argument alone.
#[verifier::external_body]
fn to_mixed_case(s: &str) -> (r: String)
    ensures
        r@ == mixed_case_of(s@),
{
    s.to_mixed_case()
}

/// The name of the Java accessor that returns the field `name`.
pub open spec fn getter_of(name: Seq<char>) -> Seq<char> {
    mixed_case_of("get_"@ + name)
}

/// The name of a binding that generated code gives the field `name`.
pub open spec fn binding_of(prefix: Seq<char>, name: Seq<char>) -> Seq<char> {
    seq!['_'] + prefix + seq!['_'] + name
}

/// The name given to the positional field at `index`.
pub open spec fn positional_name(index: nat) -> Seq<char> {
    seq!['_'] + decimal_of(index)
}

/// How a field is reached in a value of its type.
pub enum Member {
    /// By its name.
    Named(String),
    /// By its position.
    Unnamed(u32),
}

/// The shape of a field list.
#[derive(PartialEq, Eq, Structural, Clone, Copy, Debug)]
pub enum FieldType {
    /// No fields.
    Unit,
    /// Named fields.
    Named,
    /// Positional fields.
    Unnamed,
}

/// Where the JNI signature of a converted field comes from.
pub enum SignatureSource {
    /// This signature, fixed when the code is generated.
    Fixed(String),
    /// The signature that the conversion of the field's type declares.
    Declared,
}

impl View for SignatureSource {
    type V = Option<Seq<char>>;

    open spec fn view(&self) -> Option<Seq<char>> {
        match self {
            SignatureSource::Fixed(s) => Some(s@),
            SignatureSource::Declared => None,
        }
    }
}

/// One field of a struct or enum variant with its configuration.
pub struct ParsedField {
    /// The field's name, `_<index>` for a positional field.
    pub name: String,
    /// The field's type.
    pub ty: TypeExpr,
    /// The field's configuration.
    pub attributes: JnixAttributes,
    /// How the field is reached.
    pub member: Member,
    /// Whether the field takes no part in the conversion.
    pub skip: bool,
}

/// The signature of field `f` under the parameters `tp`: the class that its
/// `target_class` names, else the signature it is erased to, else none (the
/// signature that its own type declares).
pub open spec fn field_signature(f: ParsedField, tp: TypeParameters) -> Result<Option<Seq<char>>, TypeError> {
    match f.attributes.value(ConfigKey::TargetClass) {
        Some(c) => Ok(Some(class_signature_of(c))),
        None => erased(f.ty, &tp),
    }
}

/// One converted field: its position among the declared fields, the accessor
/// that reads it back and its signature.
pub struct FieldSlot {
    pub position: usize,
    pub getter: String,
    pub signature: SignatureSource,
}

/// A [`FieldSlot`] as a value of the specification.
pub struct SlotView {
    pub position: int,
    pub getter: Seq<char>,
    pub signature: Option<Seq<char>>,
}

impl View for FieldSlot {
    type V = SlotView;

    open spec fn view(&self) -> SlotView {
        SlotView { position: self.position as int, getter: self.getter@, signature: self.signature@ }
    }
}

/// How one field is obtained when a value is built from a Java object.
pub enum FieldRead {
    /// Through the accessor of this slot.
    Getter(FieldSlot),
    /// From the type's default value; the field is skipped.
    Default,
}

impl View for FieldRead {
    type V = Option<SlotView>;

    open spec fn view(&self) -> Option<SlotView> {
        match self {
            FieldRead::Getter(s) => Some(s@),
            FieldRead::Default => None,
        }
    }
}

/// The slot of field `f` at `position`.
pub open spec fn slot_of(f: ParsedField, position: int, sig: Option<Seq<char>>) -> SlotView {
    SlotView { position, getter: getter_of(f.name@), signature: sig }
}

/// The converted fields, in declaration order: one slot per field that is
/// not skipped. The first such field whose signature cannot be found decides
/// the error.
pub open spec fn slot_plan(fields: Seq<ParsedField>, tp: TypeParameters) -> Result<Seq<SlotView>, TypeError>
    decreases fields.len(),
{
    if fields.len() == 0 {
        Ok(Seq::empty())
    } else {
        match slot_plan(fields.drop_last(), tp) {
            Err(e) => Err(e),
            Ok(slots) => if fields.last().skip {
                Ok(slots)
            } else {
                match field_signature(fields.last(), tp) {
                    Err(e) => Err(e),
                    Ok(sig) => Ok(slots.push(slot_of(fields.last(), fields.len() - 1, sig))),
                }
            },
        }
    }
}

/// How each field is obtained when a value is built from a Java object, in
/// declaration order: skipped fields from the default value, the others
/// through their accessor.
pub open spec fn read_plan(fields: Seq<ParsedField>, tp: TypeParameters) -> Result<Seq<Option<SlotView>>, TypeError>
    decreases fields.len(),
{
    if fields.len() == 0 {
        Ok(Seq::empty())
    } else {
        match read_plan(fields.drop_last(), tp) {
            Err(e) => Err(e),
            Ok(reads) => if fields.last().skip {
                Ok(reads.push(None))
            } else {
                match field_signature(fields.last(), tp) {
                    Err(e) => Err(e),
                    Ok(sig) => Ok(reads.push(Some(slot_of(fields.last(), fields.len() - 1, sig)))),
                }
            },
        }
    }
}

/// The declared fields that `decl` lists.
pub open spec fn decls_of(decl: FieldsDecl) -> Seq<FieldDecl> {
    match decl {
        FieldsDecl::Unit => Seq::empty(),
        FieldsDecl::Named(v) => v@,
        FieldsDecl::Unnamed(v) => v@,
    }
}

/// The shape of `decl`.
pub open spec fn shape_of(decl: FieldsDecl) -> FieldType {
    match decl {
        FieldsDecl::Unit => FieldType::Unit,
        FieldsDecl::Named(_) => FieldType::Named,
        FieldsDecl::Unnamed(_) => FieldType::Unnamed,
    }
}

/// Why the declared field `d` is refused, if it is.
pub open spec fn decl_fault(d: FieldDecl, shape: FieldType) -> Option<GenerationFault> {
    if shape == FieldType::Named && d.name is None {
        Some(GenerationFault::MissingFieldName)
    } else {
        match parsed(d.attributes@) {
            Err(e) => Some(GenerationFault::InvalidAttribute(e)),
            Ok(_) => None,
        }
    }
}

/// Why the first refused field among `ds` is refused, if one is.
pub open spec fn first_fault(ds: Seq<FieldDecl>, shape: FieldType) -> Option<GenerationFault>
    decreases ds.len(),
{
    if ds.len() == 0 {
        None
    } else {
        match first_fault(ds.drop_last(), shape) {
            Some(e) => Some(e),
            None => decl_fault(ds.last(), shape),
        }
    }
}

/// `f` is the parsed form of the declared field `d` at `index`, in a list of
/// the given shape, where `skip_all` tells whether the type skips all fields.
pub open spec fn parsed_from(f: ParsedField, d: FieldDecl, shape: FieldType, index: int, skip_all: bool) -> bool {
    &&& f.name@ == if shape == FieldType::Named { d.name->Some_0@ } else { positional_name(index as nat) }
    &&& f.ty == d.ty
    &&& parsed(d.attributes@) == Ok::<_, crate::attributes::AttributeFault>(f.attributes.config())
    &&& f.skip == (f.attributes.has("skip"@) || skip_all)
    &&& match f.member {
        Member::Named(s) => shape == FieldType::Named && s@ == f.name@,
        Member::Unnamed(k) => shape != FieldType::Named && k == index,
    }
}

impl ParsedField {
    /// A field named `name` with type `ty`, configured by `entries`.
    pub fn new(name: String, ty: TypeExpr, entries: &Vec<AttributeEntry>, member: Member) -> (r: Result<Self, AttributeError>)
        ensures
            match r {
                Ok(f) => {
                    &&& f.name == name
                    &&& f.ty == ty
                    &&& f.member == member
                    &&& parsed(entries@) == Ok::<_, crate::attributes::AttributeFault>(f.attributes.config())
                    &&& f.skip == f.attributes.has("skip"@)
                },
                Err(e) => parsed(entries@) == Err::<crate::attributes::Config, _>(e@),
            },
    {
        let attributes = match JnixAttributes::new(entries) {
            Ok(a) => a,
            Err(e) => return Err(e),
        };
        let skip = attributes.has_flag("skip");
        Ok(ParsedField { name, ty, attributes, member, skip })
    }

    /// The named field `d`.
    pub fn from_named_field(d: FieldDecl) -> (r: Result<Self, GenerationError>)
        ensures
            match r {
                Ok(f) => decl_fault(d, FieldType::Named) is None && parsed_from(f, d, FieldType::Named, 0, false),
                Err(e) => decl_fault(d, FieldType::Named) == Some(e@),
            },
    {
        let FieldDecl { name, ty, attributes } = d;
        let name = match name {
            Some(n) => n,
            None => return Err(GenerationError::MissingFieldName),
        };
        let member = Member::Named(to_string(name.as_str()));
        match Self::new(name, ty, &attributes, member) {
            Ok(f) => Ok(f),
            Err(e) => Err(GenerationError::InvalidAttribute(e)),
        }
    }

    /// The positional field `d` at `index`.
    pub fn from_unnamed_field(d: FieldDecl, index: u32) -> (r: Result<Self, GenerationError>)
        ensures
            match r {
                Ok(f) => decl_fault(d, FieldType::Unnamed) is None && parsed_from(f, d, FieldType::Unnamed, index as int, false),
                Err(e) => decl_fault(d, FieldType::Unnamed) == Some(e@),
            },
    {
        let FieldDecl { name: _, ty, attributes } = d;
        let mut name = String::new();
        push_char(&mut name, '_');
        let digits = decimal(index);
        append_str(&mut name, digits.as_str());
        assert(name@ =~= positional_name(index as nat));
        match Self::new(name, ty, &attributes, Member::Unnamed(index)) {
            Ok(f) => Ok(f),
            Err(e) => Err(GenerationError::InvalidAttribute(e)),
        }
    }

    /// The field's type.
    pub fn get_type(&self) -> (r: &TypeExpr)
        ensures
            *r == self.ty,
    {
        &self.ty
    }

    /// The name `_<prefix>_<name>` that generated code binds the field to.
    pub fn binding(&self, prefix: &str) -> (r: String)
        ensures
            r@ == binding_of(prefix@, self.name@),
    {
        let mut out = String::new();
        push_char(&mut out, '_');
        append_str(&mut out, prefix);
        push_char(&mut out, '_');
        append_str(&mut out, self.name.as_str());
        assert(out@ =~= binding_of(prefix@, self.name@));
        out
    }

    /// The name that generated code binds the field's value to before it is
    /// converted.
    pub fn source_binding(&self) -> (r: String)
        ensures
            r@ == binding_of("source"@, self.name@),
    {
        self.binding("source")
    }

    /// The text of the closure that the field's `map` directive applies to
    /// the field before it is converted, if it has one.
    pub fn preconversion(&self) -> (r: Option<String>)
        ensures
            crate::attributes::opt_view(r) == self.attributes.value(ConfigKey::Mapping),
    {
        self.attributes.get(ConfigKey::Mapping)
    }

    /// The name of the Java accessor that reads the field back.
    pub fn getter_name(&self) -> (r: String)
        ensures
            r@ == getter_of(self.name@),
    {
        let mut s = String::from_str("get_");
        append_str(&mut s, self.name.as_str());
        to_mixed_case(s.as_str())
    }

    /// The field's signature under the parameters `tp`.
    pub fn signature(&self, tp: &TypeParameters) -> (r: Result<SignatureSource, TypeError>)
        requires
            tp.wf(),
        ensures
            match r {
                Ok(s) => field_signature(*self, *tp) == Ok::<_, TypeError>(s@),
                Err(e) => field_signature(*self, *tp) == Err::<Option<Seq<char>>, _>(e),
            },
    {
        match self.attributes.get(ConfigKey::TargetClass) {
            Some(class) => Ok(SignatureSource::Fixed(class_signature(class.as_str()))),
            None => match tp.erased_type_for(&self.ty) {
                Ok(Some(s)) => Ok(SignatureSource::Fixed(s)),
                Ok(None) => Ok(SignatureSource::Declared),
                Err(e) => Err(e),
            },
        }
    }

    /// The slot of this field at `position`.
    fn slot(&self, position: usize, tp: &TypeParameters) -> (r: Result<FieldSlot, TypeError>)
        requires
            tp.wf(),
        ensures
            match r {
                Ok(s) => field_signature(*self, *tp) == Ok::<_, TypeError>(s.signature@)
                    && s@ == slot_of(*self, position as int, s.signature@),
                Err(e) => field_signature(*self, *tp) == Err::<Option<Seq<char>>, _>(e),
            },
    {
        match self.signature(tp) {
            Ok(signature) => Ok(FieldSlot { position, getter: self.getter_name(), signature }),
            Err(e) => Err(e),
        }
    }
}

/// The fields of a struct or enum variant, in declaration order.
pub struct ParsedFields {
    fields: Vec<ParsedField>,
    field_type: FieldType,
}

/// The conversion of a value into a new Java object: the class to construct,
/// and the constructor's parameters, one slot per converted field in
/// declaration order.
pub struct ConstructorPlan {
    pub class: String,
    pub slots: Vec<FieldSlot>,
}

/// The conversion of a Java object into a value: the class whose accessors
/// are called, the shape of the value, and how each field is obtained, in
/// declaration order.
pub struct ReadPlan {
    pub class: String,
    pub shape: FieldType,
    pub reads: Vec<FieldRead>,
}

impl ParsedFields {
    /// The fields.
    pub closed spec fn items(&self) -> Seq<ParsedField> {
        self.fields@
    }

    /// The shape of the field list.
    pub closed spec fn shape(&self) -> FieldType {
        self.field_type
    }

    /// Parses the declared fields `decl` of an item configured by
    /// `attributes`; a `skip_all` flag there skips every field.
    pub fn new(decl: FieldsDecl, attributes: &JnixAttributes) -> (r: Result<Self, GenerationError>)
        requires
            decls_of(decl).len() <= u32::MAX,
        ensures
            match r {
                Ok(pf) => {
                    &&& first_fault(decls_of(decl), shape_of(decl)) is None
                    &&& pf.shape() == shape_of(decl)
                    &&& pf.items().len() == decls_of(decl).len()
                    &&& forall|i: int| 0 <= i < pf.items().len() ==> parsed_from(
                        #[trigger] pf.items()[i],
                        decls_of(decl)[i],
                        shape_of(decl),
                        i,
                        attributes.has("skip_all"@),
                    )
                },
                Err(e) => first_fault(decls_of(decl), shape_of(decl)) == Some(e@),
            },
    {
        let ghost ds = decls_of(decl);
        let shape = Self::get_field_type(&decl);
        let skip_all = attributes.has_flag("skip_all");
        let mut rest = match decl {
            FieldsDecl::Unit => Vec::new(),
            FieldsDecl::Named(v) => v,
            FieldsDecl::Unnamed(v) => v,
        };
        let mut fields: Vec<ParsedField> = Vec::new();
        let mut i: usize = 0;
        assert(ds.subrange(0, 0) =~= Seq::<FieldDecl>::empty());
        assert(rest@ =~= ds.subrange(0, ds.len() as int));
        while rest.len() > 0
            invariant
                ds == decls_of(decl),
                shape == shape_of(decl),
                ds.len() <= u32::MAX,
                i <= ds.len(),
                rest@ == ds.subrange(i as int, ds.len() as int),
                fields@.len() == i,
                first_fault(ds.subrange(0, i as int), shape) is None,
                forall|j: int| 0 <= j < i ==> parsed_from(#[trigger] fields@[j], ds[j], shape, j, skip_all),
            decreases rest.len(),
        {
            let d = rest.remove(0);
            assert(d == ds[i as int]);
            assert(ds.subrange(0, i + 1).drop_last() == ds.subrange(0, i as int));
            assert(ds.subrange(0, i + 1).last() == ds[i as int]);
            let parsed_field = if shape == FieldType::Named {
                Self::parse_named(d)
            } else {
                Self::parse_unnamed(d, i as u32)
            };
            let mut field = match parsed_field {
                Ok(f) => f,
                Err(e) => {
                    assert(first_fault(ds.subrange(0, i + 1), shape) == Some(e@));
                    proof {
                        lemma_first_fault_stays(ds, shape, i as int + 1);
                    }
                    return Err(e);
                },
            };
            if skip_all {
                field.skip = true;
            }
            fields.push(field);
            i = i + 1;
            assert(rest@ =~= ds.subrange(i as int, ds.len() as int));
        }
        assert(ds.subrange(0, ds.len() as int) == ds);
        Ok(ParsedFields { fields, field_type: shape })
    }

    fn parse_named(d: FieldDecl) -> (r: Result<ParsedField, GenerationError>)
        ensures
            match r {
                Ok(f) => decl_fault(d, FieldType::Named) is None && parsed_from(f, d, FieldType::Named, 0, false),
                Err(e) => decl_fault(d, FieldType::Named) == Some(e@),
            },
    {
        ParsedField::from_named_field(d)
    }

    fn parse_unnamed(d: FieldDecl, index: u32) -> (r: Result<ParsedField, GenerationError>)
        ensures
            match r {
                Ok(f) => decl_fault(d, FieldType::Unnamed) is None && parsed_from(f, d, FieldType::Unnamed, index as int, false),
                Err(e) => decl_fault(d, FieldType::Unnamed) == Some(e@),
            },
    {
        ParsedField::from_unnamed_field(d, index)
    }

    /// The shape of `decl`.
    pub fn get_field_type(decl: &FieldsDecl) -> (r: FieldType)
        ensures
            r == shape_of(*decl),
    {
        match decl {
            FieldsDecl::Unit => FieldType::Unit,
            FieldsDecl::Named(_) => FieldType::Named,
            FieldsDecl::Unnamed(_) => FieldType::Unnamed,
        }
    }

    /// Whether the item has no fields, nor braces or parentheses.
    pub fn is_unit(&self) -> (r: bool)
        ensures
            r == (self.shape() == FieldType::Unit),
    {
        self.field_type == FieldType::Unit
    }

    /// The shape of the field list.
    pub fn field_type(&self) -> (r: FieldType)
        ensures
            r == self.shape(),
    {
        self.field_type
    }

    /// The number of fields.
    pub fn len(&self) -> (r: usize)
        ensures
            r == self.items().len(),
    {
        self.fields.len()
    }

    /// The field at `index`.
    pub fn field(&self, index: usize) -> (r: &ParsedField)
        requires
            index < self.items().len(),
        ensures
            *r == self.items()[index as int],
    {
        &self.fields[index]
    }

    /// The construction of an object of the class `class` from a value with
    /// these fields.
    pub fn generate_into_java(&self, class: &str, tp: &TypeParameters) -> (r: Result<ConstructorPlan, TypeError>)
        requires
            tp.wf(),
        ensures
            match r {
                Ok(p) => p.class@ == class@ && slot_plan(self.items(), *tp) == Ok::<_, TypeError>(
                    p.slots@.map_values(|s: FieldSlot| s@),
                ),
                Err(e) => slot_plan(self.items(), *tp) == Err::<Seq<SlotView>, _>(e),
            },
    {
        let ghost fs = self.fields@;
        let mut slots: Vec<FieldSlot> = Vec::new();
        let mut i: usize = 0;
        assert(fs.subrange(0, 0) =~= Seq::<ParsedField>::empty());
        assert(slots@.map_values(|s: FieldSlot| s@) =~= Seq::<SlotView>::empty());
        while i < self.fields.len()
            invariant
                tp.wf(),
                fs == self.fields@,
                i <= fs.len(),
                slot_plan(fs.subrange(0, i as int), *tp) == Ok::<_, TypeError>(slots@.map_values(|s: FieldSlot| s@)),
            decreases fs.len() - i,
        {
            let ghost before = slots@.map_values(|s: FieldSlot| s@);
            assert(fs.subrange(0, i + 1).drop_last() == fs.subrange(0, i as int));
            assert(fs.subrange(0, i + 1).last() == fs[i as int]);
            let f = &self.fields[i];
            if !f.skip {
                match f.slot(i, tp) {
                    Ok(s) => {
                        slots.push(s);
                        assert(slots@.map_values(|s: FieldSlot| s@) =~= before.push(s@));
                    },
                    Err(e) => {
                        proof {
                            lemma_slot_plan_error_stays(fs, *tp, i as int + 1);
                        }
                        return Err(e);
                    },
                }
            }
            i = i + 1;
        }
        assert(fs.subrange(0, fs.len() as int) == fs);
        Ok(ConstructorPlan { class: to_string(class), slots })
    }

    /// The reconstruction of a value with these fields from an object of the
    /// class `class`.
    pub fn generate_from_java(&self, class: &str, tp: &TypeParameters) -> (r: Result<ReadPlan, TypeError>)
        requires
            tp.wf(),
        ensures
            match r {
                Ok(p) => p.class@ == class@ && p.shape == self.shape() && read_plan(self.items(), *tp) == Ok::<_, TypeError>(
                    p.reads@.map_values(|x: FieldRead| x@),
                ),
                Err(e) => read_plan(self.items(), *tp) == Err::<Seq<Option<SlotView>>, _>(e),
            },
    {
        let ghost fs = self.fields@;
        let mut reads: Vec<FieldRead> = Vec::new();
        let mut i: usize = 0;
        assert(fs.subrange(0, 0) =~= Seq::<ParsedField>::empty());
        assert(reads@.map_values(|x: FieldRead| x@) =~= Seq::<Option<SlotView>>::empty());
        while i < self.fields.len()
            invariant
                tp.wf(),
                fs == self.fields@,
                i <= fs.len(),
                read_plan(fs.subrange(0, i as int), *tp) == Ok::<_, TypeError>(reads@.map_values(|x: FieldRead| x@)),
            decreases fs.len() - i,
        {
            let ghost before = reads@.map_values(|x: FieldRead| x@);
            assert(fs.subrange(0, i + 1).drop_last() == fs.subrange(0, i as int));
            assert(fs.subrange(0, i + 1).last() == fs[i as int]);
            let f = &self.fields[i];
            if f.skip {
                reads.push(FieldRead::Default);
                assert(reads@.map_values(|x: FieldRead| x@) =~= before.push(None));
            } else {
                match f.slot(i, tp) {
                    Ok(s) => {
                        let ghost sv = s@;
                        reads.push(FieldRead::Getter(s));
                        assert(reads@.map_values(|x: FieldRead| x@) =~= before.push(Some(sv)));
                    },
                    Err(e) => {
                        proof {
                            lemma_read_plan_error_stays(fs, *tp, i as int + 1);
                        }
                        return Err(e);
                    },
                }
            }
            i = i + 1;
        }
        assert(fs.subrange(0, fs.len() as int) == fs);
        Ok(ReadPlan { class: to_string(class), shape: self.field_type, reads })
    }
}

proof fn lemma_first_fault_stays(ds: Seq<FieldDecl>, shape: FieldType, k: int)
    requires
        0 <= k <= ds.len(),
        first_fault(ds.subrange(0, k), shape) is Some,
    ensures
        first_fault(ds, shape) == first_fault(ds.subrange(0, k), shape),
    decreases ds.len() - k,
{
    if k < ds.len() {
        assert(ds.subrange(0, k + 1).drop_last() == ds.subrange(0, k));
        lemma_first_fault_stays(ds, shape, k + 1);
    } else {
        assert(ds.subrange(0, k) == ds);
    }
}

proof fn lemma_slot_plan_error_stays(fs: Seq<ParsedField>, tp: TypeParameters, k: int)
    requires
        0 <= k <= fs.len(),
        slot_plan(fs.subrange(0, k), tp) is Err,
    ensures
        slot_plan(fs, tp) == slot_plan(fs.subrange(0, k), tp),
    decreases fs.len() - k,
{
    if k < fs.len() {
        assert(fs.subrange(0, k + 1).drop_last() == fs.subrange(0, k));
        lemma_slot_plan_error_stays(fs, tp, k + 1);
    } else {
        assert(fs.subrange(0, k) == fs);
    }
}

proof fn lemma_read_plan_error_stays(fs: Seq<ParsedField>, tp: TypeParameters, k: int)
    requires
        0 <= k <= fs.len(),
        read_plan(fs.subrange(0, k), tp) is Err,
    ensures
        read_plan(fs, tp) == read_plan(fs.subrange(0, k), tp),
    decreases fs.len() - k,
{
    if k < fs.len() {
        assert(fs.subrange(0, k + 1).drop_last() == fs.subrange(0, k));
        lemma_read_plan_error_stays(fs, tp, k + 1);
    } else {
        assert(fs.subrange(0, k) == fs);
    }
}

} // verus!
