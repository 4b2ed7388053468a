use jnix::{
    constructor_signature, AttributeEntry, CaseInbound, CaseOutbound, DataDecl, FieldDecl,
    FieldRead, FieldType, FieldsDecl, FromJavaBody, GenerationError, IntoJavaBody, ParsedType,
    SignatureSource, TypeDecl, TypeError, TypeExpr, VariantDecl,
};

fn path(name: &str) -> TypeExpr {
    TypeExpr::Path(Some(name.to_string()), vec![])
}

fn kv(key: &str, value: &str) -> AttributeEntry {
    AttributeEntry::KeyValue(key.to_string(), Some(value.to_string()))
}

fn flag(name: &str) -> AttributeEntry {
    AttributeEntry::Flag(name.to_string())
}

fn named(name: &str, ty: TypeExpr, attributes: Vec<AttributeEntry>) -> FieldDecl {
    FieldDecl { name: Some(name.to_string()), ty, attributes }
}

fn positional(ty: TypeExpr) -> FieldDecl {
    FieldDecl { name: None, ty, attributes: vec![] }
}

fn struct_decl(name: &str, attributes: Vec<AttributeEntry>, type_params: Vec<&str>, fields: FieldsDecl) -> TypeDecl {
    TypeDecl {
        name: name.to_string(),
        attributes,
        type_params: type_params.into_iter().map(|p| p.to_string()).collect(),
        data: DataDecl::Struct(fields),
    }
}

fn enum_decl(name: &str, attributes: Vec<AttributeEntry>, variants: Vec<VariantDecl>) -> TypeDecl {
    TypeDecl { name: name.to_string(), attributes, type_params: vec![], data: DataDecl::Enum(variants) }
}

fn variant(name: &str, attributes: Vec<AttributeEntry>, fields: FieldsDecl) -> VariantDecl {
    VariantDecl { name: name.to_string(), attributes, fields }
}

fn fixed(s: &SignatureSource) -> Option<String> {
    match s {
        SignatureSource::Fixed(sig) => Some(sig.clone()),
        SignatureSource::Declared => None,
    }
}

fn point() -> ParsedType {
    let decl = struct_decl(
        "Point",
        vec![kv("class_name", "pkg.Point")],
        vec![],
        FieldsDecl::Named(vec![named("x", path("i32"), vec![]), named("y", path("i32"), vec![])]),
    );
    ParsedType::new(decl).unwrap()
}

#[test]
fn point_constructor_signature_and_order() {
    let plan = point().generate_into_java().unwrap();
    assert_eq!(plan.class_name, "pkg.Point");
    assert_eq!(plan.jni_class, "pkg/Point");
    assert_eq!(plan.signature, "Lpkg/Point;");
    let IntoJavaBody::Struct(c) = plan.body else { panic!("expected a struct body") };
    assert_eq!(c.class, "pkg/Point");
    let positions: Vec<usize> = c.slots.iter().map(|s| s.position).collect();
    assert_eq!(positions, vec![0, 1]);
    assert!(c.slots.iter().all(|s| fixed(&s.signature).is_none()));
    let sigs: Vec<String> = c.slots.iter().map(|_| "I".to_string()).collect();
    assert_eq!(constructor_signature(&sigs), "(II)V");
}

#[test]
fn point_accessors() {
    let plan = point().generate_from_java().unwrap();
    let FromJavaBody::Struct(r) = plan.body else { panic!("expected a struct body") };
    assert_eq!(r.shape, FieldType::Named);
    let getters: Vec<String> = r
        .reads
        .iter()
        .map(|x| match x {
            FieldRead::Getter(s) => s.getter.clone(),
            FieldRead::Default => "-".to_string(),
        })
        .collect();
    assert_eq!(getters, vec!["getX".to_string(), "getY".to_string()]);
}

#[test]
fn constructor_signature_of_no_parameters() {
    assert_eq!(constructor_signature(&vec![]), "()V");
    let parts = vec!["Ljava/lang/String;".to_string(), "Z".to_string(), "[B".to_string()];
    assert_eq!(constructor_signature(&parts), "(Ljava/lang/String;Z[B)V");
}

#[test]
fn package_gives_class_name() {
    let decl = struct_decl("MyData", vec![kv("package", "my.package")], vec![], FieldsDecl::Unit);
    let plan = ParsedType::new(decl).unwrap().generate_into_java().unwrap();
    assert_eq!(plan.class_name, "my.package.MyData");
    assert_eq!(plan.jni_class, "my/package/MyData");
    let IntoJavaBody::Struct(c) = plan.body else { panic!("expected a struct body") };
    assert!(c.slots.is_empty());
}

#[test]
fn class_name_wins_over_package() {
    let decl = struct_decl(
        "MyData",
        vec![kv("package", "my.package"), kv("class_name", "other.Name")],
        vec![],
        FieldsDecl::Unit,
    );
    let plan = ParsedType::new(decl).unwrap().generate_from_java().unwrap();
    assert_eq!(plan.class_name, "other.Name");
}

#[test]
fn missing_class_name_is_refused() {
    let decl = struct_decl("MyData", vec![], vec![], FieldsDecl::Unit);
    let parsed = ParsedType::new(decl).unwrap();
    assert_eq!(parsed.generate_into_java().err(), Some(GenerationError::MissingClassName));
    assert_eq!(parsed.generate_from_java().err(), Some(GenerationError::MissingClassName));
}

#[test]
fn skipped_field_has_no_slot_and_no_accessor() {
    let decl = struct_decl(
        "Conf",
        vec![kv("package", "p")],
        vec![],
        FieldsDecl::Named(vec![
            named("a", path("i32"), vec![]),
            named("hidden", TypeExpr::Other, vec![flag("skip")]),
            named("b_value", path("bool"), vec![]),
        ]),
    );
    let parsed = ParsedType::new(decl).unwrap();
    let out = parsed.generate_into_java().unwrap();
    let IntoJavaBody::Struct(c) = out.body else { panic!("expected a struct body") };
    let positions: Vec<usize> = c.slots.iter().map(|s| s.position).collect();
    assert_eq!(positions, vec![0, 2]);
    let inb = parsed.generate_from_java().unwrap();
    let FromJavaBody::Struct(r) = inb.body else { panic!("expected a struct body") };
    assert_eq!(r.reads.len(), 3);
    assert!(matches!(r.reads[1], FieldRead::Default));
    match &r.reads[2] {
        FieldRead::Getter(s) => assert_eq!(s.getter, "getBValue"),
        FieldRead::Default => panic!("field b_value is read"),
    }
}

#[test]
fn skip_all_skips_every_field() {
    let decl = struct_decl(
        "Empty",
        vec![kv("package", "p"), flag("skip_all")],
        vec![],
        FieldsDecl::Named(vec![named("a", path("i32"), vec![]), named("b", path("i32"), vec![])]),
    );
    let plan = ParsedType::new(decl).unwrap().generate_into_java().unwrap();
    let IntoJavaBody::Struct(c) = plan.body else { panic!("expected a struct body") };
    assert!(c.slots.is_empty());
}

#[test]
fn generic_field_erases_to_bound_and_concrete_keeps_its_own() {
    let decl = struct_decl(
        "Holder",
        vec![kv("package", "p"), kv("bounds", "T: java.lang.Number")],
        vec!["T"],
        FieldsDecl::Named(vec![named("value", path("T"), vec![]), named("count", path("Count"), vec![])]),
    );
    let plan = ParsedType::new(decl).unwrap().generate_into_java().unwrap();
    let IntoJavaBody::Struct(c) = plan.body else { panic!("expected a struct body") };
    assert_eq!(fixed(&c.slots[0].signature), Some("Ljava/lang/Number;".to_string()));
    assert_eq!(fixed(&c.slots[1].signature), None);
}

#[test]
fn unbounded_parameter_and_nested_use_erase_to_object() {
    let decl = struct_decl(
        "Pair",
        vec![kv("package", "p")],
        vec!["A"],
        FieldsDecl::Unnamed(vec![
            positional(path("A")),
            positional(TypeExpr::Reference(Box::new(path("A")))),
            positional(TypeExpr::Path(None, vec![path("u8")])),
        ]),
    );
    let plan = ParsedType::new(decl).unwrap().generate_into_java().unwrap();
    let IntoJavaBody::Struct(c) = plan.body else { panic!("expected a struct body") };
    assert_eq!(fixed(&c.slots[0].signature), Some("Ljava/lang/Object;".to_string()));
    assert_eq!(fixed(&c.slots[1].signature), Some("Ljava/lang/Object;".to_string()));
    assert_eq!(fixed(&c.slots[2].signature), None);
}

#[test]
fn target_class_overrides_signature() {
    let decl = struct_decl(
        "Wrapper",
        vec![kv("package", "p")],
        vec!["T"],
        FieldsDecl::Named(vec![named("inner", path("T"), vec![kv("target_class", "net.example.Thing")])]),
    );
    let plan = ParsedType::new(decl).unwrap().generate_from_java().unwrap();
    let FromJavaBody::Struct(r) = plan.body else { panic!("expected a struct body") };
    match &r.reads[0] {
        FieldRead::Getter(s) => assert_eq!(fixed(&s.signature), Some("Lnet/example/Thing;".to_string())),
        FieldRead::Default => panic!("field inner is read"),
    }
}

#[test]
fn positional_fields_use_numbered_accessors() {
    let decl = struct_decl(
        "Tuple",
        vec![kv("package", "p")],
        vec![],
        FieldsDecl::Unnamed(vec![positional(path("i32")), positional(path("i32"))]),
    );
    let parsed = ParsedType::new(decl).unwrap();
    let plan = parsed.generate_from_java().unwrap();
    let FromJavaBody::Struct(r) = plan.body else { panic!("expected a struct body") };
    assert_eq!(r.shape, FieldType::Unnamed);
    let getters: Vec<String> = r
        .reads
        .iter()
        .map(|x| match x {
            FieldRead::Getter(s) => s.getter.clone(),
            FieldRead::Default => String::new(),
        })
        .collect();
    assert_eq!(getters, vec!["get0".to_string(), "get1".to_string()]);
}

#[test]
fn unsupported_type_is_refused() {
    let decl = struct_decl(
        "Odd",
        vec![kv("package", "p")],
        vec!["T"],
        FieldsDecl::Named(vec![named("f", TypeExpr::Tuple(vec![path("u8"), TypeExpr::Macro]), vec![])]),
    );
    let parsed = ParsedType::new(decl).unwrap();
    assert_eq!(parsed.generate_into_java().err(), Some(GenerationError::UnsupportedType(TypeError::Macro)));
}

#[test]
fn tuple_stops_at_first_parameter_use() {
    let decl = struct_decl(
        "Odd",
        vec![kv("package", "p")],
        vec!["T"],
        FieldsDecl::Named(vec![named("f", TypeExpr::Tuple(vec![path("T"), TypeExpr::Infer]), vec![])]),
    );
    let plan = ParsedType::new(decl).unwrap().generate_into_java().unwrap();
    let IntoJavaBody::Struct(c) = plan.body else { panic!("expected a struct body") };
    assert_eq!(fixed(&c.slots[0].signature), Some("Ljava/lang/Object;".to_string()));
}

#[test]
fn union_is_refused() {
    let decl = TypeDecl { name: "U".to_string(), attributes: vec![], type_params: vec![], data: DataDecl::Union };
    assert_eq!(ParsedType::new(decl).err(), Some(GenerationError::UnionNotSupported));
}

#[test]
fn named_field_without_name_is_refused() {
    let decl = struct_decl("S", vec![], vec![], FieldsDecl::Named(vec![positional(path("i32"))]));
    assert_eq!(ParsedType::new(decl).err(), Some(GenerationError::MissingFieldName));
}

#[test]
fn simple_enumeration_reads_static_fields() {
    let decl = enum_decl(
        "Color",
        vec![kv("class_name", "pkg.Color")],
        vec![
            variant("A", vec![], FieldsDecl::Unit),
            variant("B", vec![], FieldsDecl::Unit),
            variant("C", vec![], FieldsDecl::Unit),
        ],
    );
    let parsed = ParsedType::new(decl).unwrap();
    let out = parsed.generate_into_java().unwrap();
    let IntoJavaBody::Enum(cases) = out.body else { panic!("expected an enum body") };
    let fields: Vec<(String, String, String)> = cases
        .iter()
        .map(|c| match c {
            CaseOutbound::StaticField { class, field, signature } => (class.clone(), field.clone(), signature.clone()),
            CaseOutbound::Construct(_) => panic!("enum class entries are static fields"),
        })
        .collect();
    assert_eq!(fields[0], ("pkg/Color".to_string(), "A".to_string(), "Lpkg/Color;".to_string()));
    assert_eq!(fields[1].1, "B");
    assert_ne!(fields[0].1, fields[1].1);
    let inb = parsed.generate_from_java().unwrap();
    let FromJavaBody::Enum { enum_class, deny, cases } = inb.body else { panic!("expected an enum body") };
    assert!(enum_class);
    assert_eq!(deny, vec![false, false, false]);
    assert!(matches!(&cases[1], CaseInbound::SameObject { field, deny: false, .. } if field == "B"));
}

#[test]
fn sealed_hierarchy_uses_nested_classes() {
    let decl = enum_decl(
        "Shape",
        vec![kv("package", "geo")],
        vec![
            variant("Empty", vec![], FieldsDecl::Unit),
            variant("Circle", vec![], FieldsDecl::Named(vec![named("radius", path("i32"), vec![])])),
            variant("Native", vec![flag("deny")], FieldsDecl::Unnamed(vec![positional(path("u64"))])),
        ],
    );
    let parsed = ParsedType::new(decl).unwrap();
    let out = parsed.generate_into_java().unwrap();
    let IntoJavaBody::Enum(cases) = out.body else { panic!("expected an enum body") };
    match &cases[0] {
        CaseOutbound::StaticField { class, field, signature } => {
            assert_eq!(class, "geo/Shape$Empty");
            assert_eq!(field, "INSTANCE");
            assert_eq!(signature, "Lgeo/Shape$Empty;");
        },
        CaseOutbound::Construct(_) => panic!("a variant without fields is a singleton"),
    }
    match &cases[1] {
        CaseOutbound::Construct(c) => {
            assert_eq!(c.class, "geo/Shape$Circle");
            assert_eq!(c.slots.len(), 1);
            assert_eq!(c.slots[0].getter, "getRadius");
        },
        CaseOutbound::StaticField { .. } => panic!("a variant with fields is constructed"),
    }
    let inb = parsed.generate_from_java().unwrap();
    let FromJavaBody::Enum { enum_class, deny, cases } = inb.body else { panic!("expected an enum body") };
    assert!(!enum_class);
    assert_eq!(deny, vec![false, false, true]);
    assert!(matches!(&cases[2], CaseInbound::InstanceOf { class, read: None } if class == "geo/Shape$Native"));
    match &cases[1] {
        CaseInbound::InstanceOf { class, read: Some(r) } => {
            assert_eq!(class, "geo/Shape$Circle");
            assert_eq!(r.class, "geo/Shape$Circle");
            assert_eq!(r.shape, FieldType::Named);
        },
        _ => panic!("the variant Circle is rebuilt"),
    }
}

#[test]
fn both_directions_use_the_same_accessors() {
    let decl = struct_decl(
        "Mixed",
        vec![kv("package", "p")],
        vec!["T"],
        FieldsDecl::Named(vec![
            named("first_name", path("String"), vec![]),
            named("cache", path("u8"), vec![flag("skip")]),
            named("payload", path("T"), vec![]),
        ]),
    );
    let parsed = ParsedType::new(decl).unwrap();
    let IntoJavaBody::Struct(c) = parsed.generate_into_java().unwrap().body else { panic!("expected a struct body") };
    let FromJavaBody::Struct(r) = parsed.generate_from_java().unwrap().body else { panic!("expected a struct body") };
    assert_eq!(c.slots.len(), 2);
    for slot in &c.slots {
        match &r.reads[slot.position] {
            FieldRead::Getter(read) => {
                assert_eq!(read.position, slot.position);
                assert_eq!(read.getter, slot.getter);
                assert_eq!(fixed(&read.signature), fixed(&slot.signature));
            },
            FieldRead::Default => panic!("a converted field is read back"),
        }
    }
    assert_eq!(c.slots[0].getter, "getFirstName");
    assert_eq!(fixed(&c.slots[1].signature), Some("Ljava/lang/Object;".to_string()));
}

#[test]
fn refused_field_attribute_stops_parsing() {
    let decl = struct_decl(
        "S",
        vec![kv("package", "p")],
        vec![],
        FieldsDecl::Named(vec![
            named("a", path("i32"), vec![]),
            named("b", path("i32"), vec![AttributeEntry::KeyValue("mapping".to_string(), Some("x".to_string()))]),
            named("c", path("i32"), vec![AttributeEntry::Malformed]),
        ]),
    );
    assert_eq!(
        ParsedType::new(decl).err(),
        Some(GenerationError::InvalidAttribute(jnix::AttributeError::UnknownKey("mapping".to_string())))
    );
    let decl = enum_decl("E", vec![AttributeEntry::InvalidKey], vec![]);
    assert_eq!(ParsedType::new(decl).err(), Some(GenerationError::InvalidAttribute(jnix::AttributeError::InvalidKey)));
}

#[test]
fn containers_of_a_parameter_erase_to_object() {
    let generic = |name: &str| TypeExpr::Path(None, vec![path(name)]);
    let decl = struct_decl(
        "Bag",
        vec![kv("package", "p"), kv("bounds", "T: java.lang.Number")],
        vec!["T"],
        FieldsDecl::Named(vec![
            named("items", generic("T"), vec![]),
            named("maybe", generic("T"), vec![]),
            named("counts", generic("u32"), vec![]),
        ]),
    );
    let parsed = ParsedType::new(decl).unwrap();
    let IntoJavaBody::Struct(c) = parsed.generate_into_java().unwrap().body else { panic!("expected a struct body") };
    assert_eq!(fixed(&c.slots[0].signature), Some("Ljava/lang/Object;".to_string()));
    assert_eq!(fixed(&c.slots[1].signature), Some("Ljava/lang/Object;".to_string()));
    assert_eq!(fixed(&c.slots[2].signature), None);
    let FromJavaBody::Struct(r) = parsed.generate_from_java().unwrap().body else { panic!("expected a struct body") };
    match &r.reads[0] {
        FieldRead::Getter(s) => assert_eq!(fixed(&s.signature), Some("Ljava/lang/Object;".to_string())),
        FieldRead::Default => panic!("field items is read"),
    }
}
