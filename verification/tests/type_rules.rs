use swcc::symbols::{ClassInfo, FieldInfo, FunctionSig, ModuleId, ParamSig, Span, StructInfo, SymbolId, TypeTable};
use swcc::typing::{
    infer_binding, infer_type_arg, instantiate_struct, is_assignable, main_signature_messages, pick_overload, return_check,
    same_type, substitute_type,
};
use swcc::types::Type;

fn span() -> Span {
    Span { start: 0, end: 0 }
}

fn class(name: &str, base: Option<u32>) -> ClassInfo {
    ClassInfo { module: ModuleId(0), name: name.to_string(), generics: Vec::new(), base, fields: Vec::new(), methods: Vec::new(), final_: false }
}

fn table() -> TypeTable {
    TypeTable {
        structs: vec![StructInfo {
            module: ModuleId(1),
            name: "Pair".to_string(),
            generics: vec!["A".to_string(), "B".to_string()],
            fields: vec![
                FieldInfo { name: "first".to_string(), ty: tp("A"), mutable: true, span: Span { start: 3, end: 4 } },
                FieldInfo { name: "rest".to_string(), ty: Type::Array(Box::new(tp("B"))), mutable: false, span: span() },
            ],
        }],
        enums: Vec::new(),
        classes: vec![class("Shape", None), class("Circle", Some(0)), class("Other", None)],
        interfaces: Vec::new(),
        class_interfaces: vec![(0, vec![7])],
        generic_struct_instances: Vec::new(),
        generic_class_instances: Vec::new(),
    }
}

fn tp(name: &str) -> Type {
    Type::TypeParam(name.to_string())
}

fn param(name: &str, ty: Type) -> ParamSig {
    ParamSig { name: name.to_string(), ty, has_default: false, rest: false }
}

fn sig(name: &str, params: Vec<ParamSig>, ret: Type) -> FunctionSig {
    FunctionSig { module: ModuleId(0), name: name.to_string(), generics: Vec::new(), params, ret, extern_c: false, span: span() }
}

#[test]
fn compares_types_structurally() {
    assert!(same_type(&Type::Array(Box::new(tp("T"))), &Type::Array(Box::new(tp("T")))));
    assert!(!same_type(&tp("T"), &tp("U")));
    assert!(!same_type(&Type::Int, &Type::Isize));
    let f = Type::Function { params: vec![Type::Int, Type::Str], ret: Box::new(Type::Bool) };
    let g = Type::Function { params: vec![Type::Int], ret: Box::new(Type::Bool) };
    assert!(same_type(&f, &f.clone()));
    assert!(!same_type(&f, &g));
}

#[test]
fn substitutes_bound_parameters_only() {
    let args = vec![("T".to_string(), Type::Int)];
    let t = Type::Function { params: vec![tp("T"), Type::Nullable(Box::new(tp("U")))], ret: Box::new(Type::Array(Box::new(tp("T")))) };
    let r = substitute_type(&t, &args);
    assert_eq!(r, Type::Function { params: vec![Type::Int, Type::Nullable(Box::new(tp("U")))], ret: Box::new(Type::Array(Box::new(Type::Int))) });
    assert_eq!(substitute_type(&tp("T"), &Vec::new()), tp("T"));
}

#[test]
fn infers_through_arrays_once() {
    let mut known = Vec::new();
    infer_type_arg(&Type::Array(Box::new(tp("T"))), &Type::Array(Box::new(Type::Str)), &mut known);
    assert_eq!(known, vec![("T".to_string(), Type::Str)]);
    infer_type_arg(&tp("T"), &Type::Int, &mut known);
    assert_eq!(known, vec![("T".to_string(), Type::Str)]);
    infer_type_arg(&Type::Array(Box::new(tp("U"))), &Type::Int, &mut known);
    assert_eq!(known.len(), 1);
    assert_eq!(infer_binding(&tp("T"), &Type::Int, &known), None);
    assert_eq!(infer_binding(&Type::Nullable(Box::new(tp("V"))), &Type::Nullable(Box::new(Type::Bool)), &known), Some(("V".to_string(), Type::Bool)));
}

#[test]
fn assignability_rules() {
    let t = table();
    assert!(is_assignable(&t, &Type::Int, &Type::Isize));
    assert!(is_assignable(&t, &Type::Usize, &Type::UInt));
    assert!(!is_assignable(&t, &Type::Int, &Type::I64));
    assert!(is_assignable(&t, &Type::Null, &Type::Nullable(Box::new(Type::Int))));
    assert!(is_assignable(&t, &Type::Null, &Type::Str));
    assert!(!is_assignable(&t, &Type::Null, &Type::Int));
    assert!(is_assignable(&t, &Type::Class(1), &Type::Class(0)));
    assert!(!is_assignable(&t, &Type::Class(0), &Type::Class(1)));
    assert!(is_assignable(&t, &Type::Class(1), &Type::Interface(7)));
    assert!(!is_assignable(&t, &Type::Class(2), &Type::Interface(7)));
    assert!(is_assignable(&t, &Type::Array(Box::new(Type::Class(1))), &Type::Array(Box::new(Type::Class(0)))));
    assert!(is_assignable(&t, &Type::Int, &Type::Nullable(Box::new(Type::Isize))));
    assert!(is_assignable(&t, &Type::Error, &Type::Str));
    assert!(!is_assignable(&t, &Type::Str, &Type::Int));
}

#[test]
fn overloads_prefer_exact_matches() {
    let t = table();
    let cands = vec![
        (SymbolId(1), sig("f", vec![param("x", Type::Isize)], Type::Void)),
        (SymbolId(2), sig("f", vec![param("x", Type::Int)], Type::Bool)),
    ];
    let (id, s) = pick_overload(&t, &cands, &vec![Type::Int], false).unwrap();
    assert_eq!(id, SymbolId(2));
    assert_eq!(s.ret, Type::Bool);
    assert!(pick_overload(&t, &cands, &vec![Type::Str], false).is_none());
    assert!(pick_overload(&t, &cands, &vec![], false).is_none());
}

#[test]
fn overloads_fill_defaults_and_rest() {
    let t = table();
    let mut with_default = param("y", Type::Int);
    with_default.has_default = true;
    let cands = vec![(SymbolId(3), sig("g", vec![param("x", Type::Int), with_default], Type::Void))];
    assert!(pick_overload(&t, &cands, &vec![Type::Int], false).is_none());
    assert_eq!(pick_overload(&t, &cands, &vec![Type::Int], true).unwrap().0, SymbolId(3));
    let mut rest = param("more", Type::Str);
    rest.rest = true;
    let variadic = vec![(SymbolId(4), sig("h", vec![param("x", Type::Int), rest], Type::Void))];
    assert_eq!(pick_overload(&t, &variadic, &vec![Type::Int, Type::Str, Type::Str], false).unwrap().0, SymbolId(4));
    assert!(pick_overload(&t, &variadic, &vec![Type::Int, Type::Int], false).is_none());
}

#[test]
fn overloads_bind_generic_return_types() {
    let t = table();
    let cands = vec![(SymbolId(5), sig("first", vec![param("items", Type::Array(Box::new(tp("T"))))], tp("T")))];
    let (_, s) = pick_overload(&t, &cands, &vec![Type::Array(Box::new(Type::Str))], false).unwrap();
    assert_eq!(s.ret, Type::Str);
    assert_eq!(s.name, "first");
    assert_eq!(s.params.len(), 1);
}

#[test]
fn instantiates_generic_structs_once() {
    let mut t = table();
    let ty = instantiate_struct(&mut t, 0, vec![Type::Int, Type::Str]);
    assert_eq!(ty, Type::Struct(1));
    assert_eq!(t.structs.len(), 2);
    assert_eq!(t.structs[1].name, "Pair");
    assert!(t.structs[1].generics.is_empty());
    assert_eq!(t.structs[1].fields[0].ty, Type::Int);
    assert_eq!(t.structs[1].fields[1].ty, Type::Array(Box::new(Type::Str)));
    assert_eq!(t.structs[1].fields[0].span, Span { start: 3, end: 4 });
    assert_eq!(instantiate_struct(&mut t, 0, vec![Type::Int, Type::Str]), Type::Struct(1));
    assert_eq!(t.structs.len(), 2);
    assert_eq!(instantiate_struct(&mut t, 0, vec![Type::Int]), Type::Error);
    assert_eq!(instantiate_struct(&mut t, 0, vec![Type::Bool, Type::Str]), Type::Struct(2));
}

fn entry(name: &str, params: Vec<ParamSig>, ret: Type) -> FunctionSig {
    FunctionSig { module: ModuleId(0), name: name.to_string(), generics: Vec::new(), params, ret, extern_c: false, span: span() }
}

#[test]
fn main_takes_string_array_and_returns_int() {
    assert!(main_signature_messages(&entry("main", vec![], Type::Int)).is_empty());
    let args = param("args", Type::Array(Box::new(Type::Str)));
    assert!(main_signature_messages(&entry("main", vec![args], Type::Int)).is_empty());
    assert_eq!(
        main_signature_messages(&entry("main", vec![param("n", Type::Int)], Type::Void)),
        vec!["main 参数只能为 string[]（或省略）".to_string(), "main 返回类型必须为 int".to_string()]
    );
    assert_eq!(main_signature_messages(&entry("main", vec![], Type::Void)), vec!["main 返回类型必须为 int".to_string()]);
    assert!(main_signature_messages(&entry("run", vec![param("n", Type::Int)], Type::Void)).is_empty());
}

#[test]
fn functions_with_a_result_must_return() {
    assert_eq!(return_check(&Type::Int, false, false).as_deref(), Some("函数缺少 return，返回类型为 int"));
    assert_eq!(return_check(&Type::Int, true, false), None);
    assert_eq!(return_check(&Type::Int, false, true), None);
    assert_eq!(return_check(&Type::Void, false, false), None);
    assert_eq!(return_check(&Type::Class(0), false, false), None);
    assert_eq!(return_check(&Type::Unknown, true, false).as_deref(), Some("无法推导函数返回类型：return 表达式类型不一致"));
    assert_eq!(return_check(&Type::Unknown, false, false), None);
}
