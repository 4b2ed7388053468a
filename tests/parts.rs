use jnix::{
    class_signature, decimal, first_check, jni_class_name, key_from_name, nested_class_name,
    object_signature_for, run_scan, scan_step, split, split_at_first,
    str_eq, trim, AttributeEntry, AttributeError, ConfigKey, JnixAttributes, ScanStep,
    TypeBound, TypeError, TypeExpr, TypeParameters,
};

fn names(v: &[&str]) -> Vec<String> {
    v.iter().map(|s| s.to_string()).collect()
}

#[test]
fn attributes_collect_flags_and_values() {
    let entries = vec![
        AttributeEntry::Flag("skip".to_string()),
        AttributeEntry::KeyValue("package".to_string(), Some("a.b".to_string())),
        AttributeEntry::KeyValue("package".to_string(), Some("c.d".to_string())),
    ];
    let a = JnixAttributes::new(&entries).unwrap();
    assert!(a.has_flag("skip"));
    assert!(!a.has_flag("deny"));
    assert_eq!(a.get_value("package"), Some("c.d".to_string()));
    assert_eq!(a.get(ConfigKey::ClassName), None);
    assert_eq!(a.get_value("unknown"), None);
}

#[test]
fn empty_attributes_have_nothing() {
    let a = JnixAttributes::empty();
    assert!(!a.has_flag("skip"));
    assert_eq!(a.get_value("map"), None);
}

#[test]
fn attribute_errors() {
    let unknown = vec![AttributeEntry::KeyValue("colour".to_string(), Some("x".to_string()))];
    assert_eq!(JnixAttributes::new(&unknown).err(), Some(AttributeError::UnknownKey("colour".to_string())));
    let not_str = vec![AttributeEntry::KeyValue("map".to_string(), None)];
    assert_eq!(JnixAttributes::new(&not_str).err(), Some(AttributeError::InvalidValue("map".to_string())));
    let bad_key = vec![AttributeEntry::Flag("ok".to_string()), AttributeEntry::InvalidKey, AttributeEntry::Malformed];
    assert_eq!(JnixAttributes::new(&bad_key).err(), Some(AttributeError::InvalidKey));
    assert_eq!(JnixAttributes::new(&vec![AttributeEntry::Malformed]).err(), Some(AttributeError::Malformed));
}

#[test]
fn keys_by_name() {
    assert_eq!(key_from_name("class_name"), Some(ConfigKey::ClassName));
    assert_eq!(key_from_name("target_class"), Some(ConfigKey::TargetClass));
    assert_eq!(key_from_name("bounds"), Some(ConfigKey::Bounds));
    assert_eq!(key_from_name("Bounds"), None);
}

#[test]
fn text_helpers() {
    assert!(str_eq("abc", "abc"));
    assert!(!str_eq("abc", "abd"));
    assert_eq!(trim("  T \t"), "T");
    assert_eq!(trim("   "), "");
    assert_eq!(jni_class_name("java.lang.String"), "java/lang/String");
    assert_eq!(class_signature("java.lang.String"), "Ljava/lang/String;");
    assert_eq!(decimal(0), "0");
    assert_eq!(decimal(4_294_967_295), "4294967295");
}

#[test]
fn bounds_directive_parsing() {
    let tp = TypeParameters::collect_type_bounds(
        &names(&["T", "U", "V"]),
        &Some(" T : java.lang.Number, U: a.B , T: x.Y, W: z.Z, broken".to_string()),
    );
    assert!(!tp.is_empty());
    assert_eq!(tp.bound_for("T"), Some("Lx/Y;".to_string()));
    assert_eq!(tp.bound_for("U"), Some("La/B;".to_string()));
    assert_eq!(tp.bound_for("V"), Some("Ljava/lang/Object;".to_string()));
    assert_eq!(tp.bound_for("W"), None);
    assert_eq!(
        TypeParameters::parse_bounds_for_one_type("K: a.b.C"),
        Some(("K".to_string(), "La/b/C;".to_string()))
    );
    assert_eq!(TypeParameters::parse_bounds_for_one_type("K"), None);
}

#[test]
fn no_parameters_is_empty() {
    let tp = TypeParameters::collect_type_bounds(&vec![], &None);
    assert!(tp.is_empty());
    assert_eq!(tp.erased_type_for(&TypeExpr::Path(Some("T".to_string()), vec![])), Ok(None));
}

#[test]
fn parameter_use_in_type_forms() {
    let tp = TypeParameters::collect_type_bounds(&names(&["T"]), &None);
    let t = || Box::new(TypeExpr::Path(Some("T".to_string()), vec![]));
    assert_eq!(tp.is_used_in_type(&TypeExpr::Never), Ok(false));
    assert_eq!(tp.is_used_in_type(&TypeExpr::Slice(t())), Ok(true));
    assert_eq!(tp.is_used_in_type(&TypeExpr::Array(Box::new(TypeExpr::Path(None, vec![])))), Ok(false));
    assert_eq!(tp.is_used_in_type(&TypeExpr::BareFn(vec![], Some(t()))), Ok(true));
    assert_eq!(tp.is_used_in_type(&TypeExpr::BareFn(vec![TypeExpr::Verbatim], Some(t()))), Err(TypeError::Verbatim));
    assert_eq!(
        tp.is_used_in_type(&TypeExpr::TraitObject(vec![TypeBound::Lifetime, TypeBound::Trait(Some("T".to_string()))])),
        Ok(true)
    );
    assert_eq!(tp.is_used_in_type(&TypeExpr::ImplTrait(vec![TypeBound::Trait(None)])), Ok(false));
    assert_eq!(tp.is_used_in_type(&TypeExpr::Other), Err(TypeError::Unknown));
    assert_eq!(tp.erased_type_for(&TypeExpr::Ptr(t())), Ok(Some("Ljava/lang/Object;".to_string())));
    assert_eq!(tp.erased_type_for(&TypeExpr::Infer), Err(TypeError::Infer));
}

#[test]
fn scan_stops_at_first_match() {
    let deny = vec![false, false, false];
    assert_eq!(run_scan(&deny, &vec![false, true, true]), (ScanStep::Select(1), 2));
    assert_eq!(run_scan(&deny, &vec![false, false, false]), (ScanStep::NoMatch, 3));
    assert_eq!(run_scan(&vec![], &vec![]), (ScanStep::NoMatch, 0));
    assert_eq!(first_check(3), ScanStep::Check(0));
    assert_eq!(scan_step(&deny, 0, false), ScanStep::Check(1));
    assert_eq!(scan_step(&deny, 2, false), ScanStep::NoMatch);
}

#[test]
fn denied_case_fails_and_others_succeed() {
    let deny = vec![false, true, false];
    assert_eq!(run_scan(&deny, &vec![false, true, false]), (ScanStep::Deny(1), 2));
    assert_eq!(run_scan(&deny, &vec![false, false, true]), (ScanStep::Select(2), 3));
    assert_eq!(run_scan(&deny, &vec![true, false, false]), (ScanStep::Select(0), 1));
}

#[test]
fn split_helpers() {
    assert_eq!(split("a,b,,c", ','), vec!["a", "b", "", "c"]);
    assert_eq!(split("", ','), vec![""]);
    assert_eq!(split_at_first("T: a.b: c", ':'), Some(("T".to_string(), " a.b: c".to_string())));
    assert_eq!(split_at_first("T", ':'), None);
}

#[test]
fn nested_class_names() {
    assert_eq!(nested_class_name("geo/Shape", "Circle"), "geo/Shape$Circle");
    assert_eq!(object_signature_for("geo/Shape$Circle"), "Lgeo/Shape$Circle;");
}

#[test]
fn type_arguments_of_paths_are_checked() {
    let tp = TypeParameters::collect_type_bounds(&names(&["T"]), &None);
    let t = TypeExpr::Path(Some("T".to_string()), vec![]);
    let vec_t = TypeExpr::Path(None, vec![t]);
    assert_eq!(tp.is_used_in_type(&vec_t), Ok(true));
    assert_eq!(tp.erased_type_for(&vec_t), Ok(Some("Ljava/lang/Object;".to_string())));
    let option_vec_t = TypeExpr::Path(None, vec![vec_t]);
    assert_eq!(tp.erased_type_for(&option_vec_t), Ok(Some("Ljava/lang/Object;".to_string())));
    let map_u8 = TypeExpr::Path(None, vec![TypeExpr::Path(Some("u8".to_string()), vec![]), TypeExpr::Macro]);
    assert_eq!(tp.is_used_in_type(&map_u8), Err(TypeError::Macro));
    let vec_u8 = TypeExpr::Path(None, vec![TypeExpr::Path(Some("u8".to_string()), vec![])]);
    assert_eq!(tp.erased_type_for(&vec_u8), Ok(None));
}
