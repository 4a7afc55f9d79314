use swcc::members::check_member;
use swcc::symbols::{
    ClassInfo, EnumInfo, FieldInfo, FunctionSig, InterfaceInfo, MethodInfo, ModuleId, ParamSig, Span, StructInfo,
    TypeTable,
};
use swcc::types::Type;

fn span() -> Span {
    Span { start: 0, end: 0 }
}

fn field(name: &str, ty: Type) -> FieldInfo {
    FieldInfo { name: name.to_string(), ty, mutable: true, span: span() }
}

fn sig(name: &str, params: Vec<Type>, ret: Type) -> FunctionSig {
    FunctionSig {
        module: ModuleId(0),
        name: name.to_string(),
        generics: Vec::new(),
        params: params
            .into_iter()
            .map(|ty| ParamSig { name: "p".to_string(), ty, has_default: false, rest: false })
            .collect(),
        ret,
        extern_c: false,
        span: span(),
    }
}

fn table() -> TypeTable {
    TypeTable {
        structs: vec![StructInfo { module: ModuleId(0), name: "Point".to_string(), generics: Vec::new(), fields: vec![field("x", Type::F64)] }],
        enums: vec![EnumInfo { module: ModuleId(0), name: "Color".to_string(), members: vec![("Red".to_string(), 0), ("Blue".to_string(), 1)] }],
        classes: vec![
            ClassInfo {
                module: ModuleId(0),
                name: "Shape".to_string(),
                generics: Vec::new(),
                base: None,
                fields: vec![field("id", Type::Int)],
                methods: vec![MethodInfo { name: "area".to_string(), sig: sig("area", vec![], Type::F64), virtual_: true, override_: false, span: span() }],
                final_: false,
            },
            ClassInfo {
                module: ModuleId(0),
                name: "Circle".to_string(),
                generics: Vec::new(),
                base: Some(0),
                fields: vec![field("r", Type::F64)],
                methods: Vec::new(),
                final_: false,
            },
        ],
        interfaces: vec![InterfaceInfo {
            module: ModuleId(0),
            name: "Named".to_string(),
            generics: Vec::new(),
            methods: vec![sig("name", vec![Type::Int], Type::Str)],
        }],
        class_interfaces: Vec::new(),
        generic_struct_instances: Vec::new(),
        generic_class_instances: Vec::new(),
    }
}

#[test]
fn members_of_classes_structs_and_interfaces() {
    let t = table();
    assert_eq!(check_member(&t, &Type::Class(1), "r", false), (Type::F64, vec![]));
    assert_eq!(check_member(&t, &Type::Class(1), "id", false), (Type::Int, vec![]));
    assert_eq!(check_member(&t, &Type::Class(1), "length", false), (Type::Int, vec![]));
    assert_eq!(
        check_member(&t, &Type::Class(1), "area", false),
        (Type::Function { params: vec![], ret: Box::new(Type::F64) }, vec![])
    );
    assert_eq!(check_member(&t, &Type::Class(1), "nope", false), (Type::Error, vec!["类 Circle 没有成员 `nope`".to_string()]));
    assert_eq!(check_member(&t, &Type::Struct(0), "x", false), (Type::F64, vec![]));
    assert_eq!(check_member(&t, &Type::Struct(0), "y", false), (Type::Error, vec!["结构体 Point 没有字段 `y`".to_string()]));
    assert_eq!(
        check_member(&t, &Type::Interface(0), "name", false),
        (Type::Function { params: vec![Type::Int], ret: Box::new(Type::Str) }, vec![])
    );
    assert_eq!(check_member(&t, &Type::Interface(0), "size", false).1, vec!["接口 Named 没有方法 `size`".to_string()]);
}

#[test]
fn members_of_enums_strings_and_nullables() {
    let t = table();
    assert_eq!(check_member(&t, &Type::Enum(0), "Blue", false), (Type::Enum(0), vec![]));
    assert_eq!(check_member(&t, &Type::Enum(0), "Green", false).1, vec!["枚举 Color 没有成员 `Green`".to_string()]);
    assert_eq!(check_member(&t, &Type::Str, "length", false), (Type::Int, vec![]));
    assert_eq!(check_member(&t, &Type::Array(Box::new(Type::Int)), "first", false).1, vec!["类型 int[] 没有成员 `first`".to_string()]);
    assert_eq!(check_member(&t, &Type::Bool, "x", false), (Type::Error, vec!["类型 bool 没有成员 `x`".to_string()]));
    assert_eq!(check_member(&t, &Type::Error, "x", false), (Type::Error, vec![]));
    let nullable = Type::Nullable(Box::new(Type::Struct(0)));
    assert_eq!(check_member(&t, &nullable, "x", true), (Type::Nullable(Box::new(Type::F64)), vec![]));
    assert_eq!(
        check_member(&t, &nullable, "x", false),
        (Type::Nullable(Box::new(Type::F64)), vec!["值可能为空，请使用 `?.`".to_string()])
    );
}
