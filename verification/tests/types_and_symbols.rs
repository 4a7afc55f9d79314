use swcc::symbols::{ClassInfo, FieldInfo, MethodInfo, ModuleId, Span, StructInfo, TypeTable, FunctionSig};
use swcc::types::Type;

fn field(name: &str, ty: Type) -> FieldInfo {
    FieldInfo { name: name.to_string(), ty, mutable: true, span: Span { start: 0, end: 0 } }
}

fn sig(name: &str) -> FunctionSig {
    FunctionSig {
        module: ModuleId(0),
        name: name.to_string(),
        generics: Vec::new(),
        params: Vec::new(),
        ret: Type::Void,
        extern_c: false,
        span: Span { start: 0, end: 0 },
    }
}

fn method(name: &str) -> MethodInfo {
    MethodInfo { name: name.to_string(), sig: sig(name), virtual_: false, override_: false, span: Span { start: 0, end: 0 } }
}

fn class(name: &str, base: Option<u32>, fields: Vec<FieldInfo>, methods: Vec<MethodInfo>) -> ClassInfo {
    ClassInfo { module: ModuleId(0), name: name.to_string(), generics: Vec::new(), base, fields, methods, final_: false }
}

/// Animal <- Dog <- Puppy, and an unrelated Cat.
pub fn zoo() -> TypeTable {
    TypeTable {
        structs: vec![StructInfo { module: ModuleId(0), name: "Point".to_string(), generics: Vec::new(), fields: vec![field("x", Type::Int)] }],
        enums: Vec::new(),
        classes: vec![
            class("Animal", None, vec![field("name", Type::Str)], vec![method("speak")]),
            class("Dog", Some(0), vec![field("tricks", Type::Int)], vec![method("fetch"), method("speak")]),
            class("Puppy", Some(1), vec![], vec![]),
            class("Cat", None, vec![field("lives", Type::Int)], vec![]),
        ],
        interfaces: Vec::new(),
        class_interfaces: Vec::new(),
        generic_struct_instances: Vec::new(),
        generic_class_instances: Vec::new(),
    }
}

#[test]
fn display_names_types() {
    assert_eq!(Type::Int.display(), "int");
    assert_eq!(Type::Array(Box::new(Type::Str)).display(), "string[]");
    assert_eq!(Type::Nullable(Box::new(Type::U8)).display(), "u8?");
    assert_eq!(Type::Ptr(Box::new(Type::I32)).display(), "ptr<i32>");
    assert_eq!(Type::Class(3).display(), "class#3");
    assert_eq!(Type::Struct(12).display(), "struct#12");
    assert_eq!(Type::TypeParam("T".to_string()).display(), "T");
    assert_eq!(Type::Function { params: vec![Type::Int], ret: Box::new(Type::Void) }.display(), "function");
    assert_eq!(Type::Unknown.display(), "未知类型");
    assert_eq!(Type::Error.display(), "错误类型");
}

#[test]
fn classifies_types() {
    assert!(Type::Char.is_integer());
    assert!(!Type::F32.is_integer());
    assert!(Type::Int.is_signed_integer());
    assert!(!Type::UInt.is_signed_integer());
    assert!(Type::F64.is_float());
    assert!(Type::U16.is_numeric());
    assert!(!Type::Bool.is_numeric());
    assert!(Type::Null.is_reference());
    assert!(Type::Array(Box::new(Type::Int)).is_reference());
    assert!(!Type::Struct(0).is_reference());
    let n = Type::Nullable(Box::new(Type::Str));
    assert_eq!(n.without_nullable(), &Type::Str);
    assert_eq!(Type::Int.without_nullable(), &Type::Int);
}

#[test]
fn names_by_id() {
    let t = zoo();
    assert_eq!(t.struct_name(0), "Point");
    assert_eq!(t.class_name(2), "Puppy");
}

#[test]
fn base_chain_walks_to_the_root() {
    let t = zoo();
    assert_eq!(t.class_base_chain(2), vec![2, 1, 0]);
    assert_eq!(t.class_base_chain(3), vec![3]);
}

#[test]
fn finds_fields_and_methods_nearest_first() {
    let t = zoo();
    assert_eq!(t.find_class_field(2, "name"), Some((0, 0)));
    assert_eq!(t.find_class_field(2, "tricks"), Some((1, 0)));
    assert_eq!(t.find_class_field(2, "lives"), None);
    assert_eq!(t.find_class_method(2, "speak"), Some((1, 1)));
    assert_eq!(t.find_class_method(0, "speak"), Some((0, 0)));
    assert_eq!(t.find_class_method(3, "speak"), None);
}

#[test]
fn class_assignability_follows_the_base_chain() {
    let t = zoo();
    assert!(t.is_class_assignable_to(2, 0));
    assert!(t.is_class_assignable_to(2, 2));
    assert!(!t.is_class_assignable_to(0, 2));
    assert!(!t.is_class_assignable_to(3, 0));
}
