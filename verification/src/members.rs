//! The checker's rule on member access `object.name`, given the object's type.

use vstd::prelude::*;

use crate::expressions::{with_type, with_types};
use crate::naming::param_types;
use crate::statements::base_type;
use crate::symbols::{
    base_chain, chain_ends, chain_finite, chain_within, first_field, first_method, lemma_base_chain, lemma_chain_suffix,
    lemma_found_field_on_chain, method_position, ClassInfo, FunctionSig, ParamSig, TypeTable,
};
use crate::text::{push_str, same_text, string_from_chars};
use crate::types::{display_text, Type, TypeV, display_v, is_float_v, is_integer_v, is_numeric_v, lemma_display_v, base_v};

verus! {

/// The type of a function value with the signature `sig`.
pub open spec fn fn_type(sig: FunctionSig) -> TypeV {
    TypeV::Function(param_types(sig.params@), Box::new(sig.ret@))
}

/// The first of `sigs` named `name`, from index `i` on.
pub open spec fn sig_named(sigs: Seq<FunctionSig>, name: Seq<char>, i: int) -> Option<int>
    decreases sigs.len() - i,
{
    if i < 0 || i >= sigs.len() {
        None
    } else if sigs[i].name@ == name {
        Some(i)
    } else {
        sig_named(sigs, name, i + 1)
    }
}

/// The first member named `name` of an enum, from index `i` on.
pub open spec fn member_named(members: Seq<(String, i64)>, name: Seq<char>, i: int) -> Option<int>
    decreases members.len() - i,
{
    if i < 0 || i >= members.len() {
        None
    } else if members[i].0@ == name {
        Some(i)
    } else {
        member_named(members, name, i + 1)
    }
}

/// The first field named `name` of a struct's fields, from index `i` on.
pub open spec fn struct_field_named(fields: Seq<crate::symbols::FieldInfo>, name: Seq<char>, i: int) -> Option<int>
    decreases fields.len() - i,
{
    if i < 0 || i >= fields.len() {
        None
    } else if fields[i].name@ == name {
        Some(i)
    } else {
        struct_field_named(fields, name, i + 1)
    }
}

/// The declarations that an object type names exist (the type table is read there).
pub open spec fn member_ids_ok(types: TypeTable, t: TypeV) -> bool {
    match base_v(t) {
        TypeV::Class(id) => chain_finite(types.classes@, id),
        TypeV::Struct(id) => id < types.structs@.len(),
        TypeV::Interface(id) => id < types.interfaces@.len(),
        TypeV::Enum(id) => id < types.enums@.len(),
        _ => true,
    }
}

/// `类型 T 没有成员 `name``.
pub open spec fn no_member_text(t: TypeV, name: Seq<char>) -> Seq<char> {
    with_type("类型 "@, t, " 没有成员 `"@) + name + "`"@
}

/// The type of `object.name` for an object of type `object_ty` (`optional`: written
/// `?.`), and its errors. On the object's type without its nullability:
/// - a class: its nearest field of that name, else `length` as `int`, else its nearest
///   method as a function value, else an error;
/// - a struct: its field, else an error;
/// - an interface: its method as a function value, else an error;
/// - an enum: the enum itself for one of its members, else an error;
/// - a string or an array: `length` as `int`, else an error;
/// - the error type: the error type; anything else: an error.
/// The result is nullable when the access is optional or the object nullable; a
/// nullable object needs `?.`.
pub open spec fn member_rule(types: TypeTable, object_ty: TypeV, name: Seq<char>, optional: bool) -> (
    TypeV,
    Seq<Seq<char>>,
) {
    let (result, errors) = member_of(types, base_v(object_ty), name);
    if optional || object_ty is Nullable {
        (TypeV::Nullable(Box::new(result)), if object_ty is Nullable && !optional {
            errors.push("值可能为空，请使用 `?.`"@)
        } else {
            errors
        })
    } else {
        (result, errors)
    }
}

/// The type of member `name` of a value of the (non-nullable) type `base`, and its
/// errors (see `member_rule`).
pub open spec fn member_of(types: TypeTable, base: TypeV, name: Seq<char>) -> (TypeV, Seq<Seq<char>>) {
    match base {
        TypeV::Class(id) => {
            let c = types.classes@;
            match first_field(c, base_chain(c, id), name) {
                Some((k, i)) => (c[k as int].fields@[i].ty@, Seq::empty()),
                None => if name == "length"@ {
                    (TypeV::Int, Seq::empty())
                } else {
                    match first_method(c, base_chain(c, id), name) {
                        Some((k, i)) => (fn_type(c[k as int].methods@[i].sig), Seq::empty()),
                        None => (TypeV::Error, seq!["类 "@ + c[id as int].name@ + " 没有成员 `"@ + name + "`"@]),
                    }
                },
            }
        },
        TypeV::Struct(id) => {
            let info = types.structs@[id as int];
            match struct_field_named(info.fields@, name, 0) {
                Some(i) => (info.fields@[i].ty@, Seq::empty()),
                None => (TypeV::Error, seq!["结构体 "@ + info.name@ + " 没有字段 `"@ + name + "`"@]),
            }
        },
        TypeV::Interface(id) => {
            let info = types.interfaces@[id as int];
            match sig_named(info.methods@, name, 0) {
                Some(i) => (fn_type(info.methods@[i]), Seq::empty()),
                None => (TypeV::Error, seq!["接口 "@ + info.name@ + " 没有方法 `"@ + name + "`"@]),
            }
        },
        TypeV::Enum(id) => {
            let info = types.enums@[id as int];
            match member_named(info.members@, name, 0) {
                Some(_) => (TypeV::Enum(id), Seq::empty()),
                None => (TypeV::Error, seq!["枚举 "@ + info.name@ + " 没有成员 `"@ + name + "`"@]),
            }
        },
        TypeV::Str | TypeV::Array(_) => if name == "length"@ {
            (TypeV::Int, Seq::empty())
        } else {
            (TypeV::Error, seq![no_member_text(base, name)])
        },
        TypeV::Error => (TypeV::Error, Seq::empty()),
        _ => (TypeV::Error, seq![no_member_text(base, name)]),
    }
}

/// A found method is declared, under that name, by a class on the base chain.
proof fn lemma_found_method_on_chain(classes: Seq<ClassInfo>, chain: Seq<u32>, name: Seq<char>)
    requires
        forall|j: int| 0 <= j < chain.len() ==> chain[j] < classes.len(),
        first_method(classes, chain, name) is Some,
    ensures
        ({
            let (id, i) = first_method(classes, chain, name)->0;
            &&& id < classes.len()
            &&& 0 <= i < classes[id as int].methods@.len()
        }),
    decreases chain.len(),
{
    match method_position(classes[chain[0] as int].methods@, name, 0) {
        Some(i) => {
            lemma_method_found(classes[chain[0] as int].methods@, name, 0, i);
        },
        None => {
            lemma_found_method_on_chain(classes, chain.drop_first(), name);
        },
    }
}

proof fn lemma_method_found(methods: Seq<crate::symbols::MethodInfo>, name: Seq<char>, i: int, k: int)
    requires
        method_position(methods, name, i) == Some(k),
    ensures
        i <= k < methods.len(),
    decreases methods.len() - i,
{
    if methods[i].name@ != name {
        lemma_method_found(methods, name, i + 1, k);
    }
}

/// The classes of a finite base chain exist.
pub(crate) proof fn lemma_chain_ids(classes: Seq<ClassInfo>, id: u32)
    requires
        chain_finite(classes, id),
    ensures
        forall|j: int| 0 <= j < base_chain(classes, id).len() ==> base_chain(classes, id)[j] < classes.len(),
{
    let n = choose|n: nat| chain_ends(classes, id, n);
    lemma_base_chain(classes, id, n);
    assert forall|j: int| 0 <= j < base_chain(classes, id).len() implies base_chain(classes, id)[j] < classes.len() by {
        lemma_chain_suffix(classes, id, n, j);
    }
}

pub(crate) fn fn_type_of(sig: &FunctionSig) -> (r: Type)
    ensures
        r@ == fn_type(*sig),
{
    let mut params: Vec<Type> = Vec::new();
    let mut i: usize = 0;
    while i < sig.params.len()
        invariant
            i <= sig.params@.len(),
            Type::view_all(params@) == param_types(sig.params@.take(i as int)),
        decreases sig.params@.len() - i,
    {
        let t = sig.params[i].ty.clone();
        proof {
            crate::types::lemma_view_all_push(params@, t);
            assert(param_types(sig.params@.take(i + 1)) =~= param_types(sig.params@.take(i as int)).push(
                sig.params@[i as int].ty@,
            ));
        }
        params.push(t);
        i += 1;
    }
    proof {
        assert(sig.params@.take(i as int) =~= sig.params@);
    }
    Type::Function { params, ret: Box::new(sig.ret.clone()) }
}

fn named_message(a: &str, owner: &str, b: &str, name: &str) -> (r: String)
    ensures
        r@ == a@ + owner@ + b@ + name@ + "`"@,
{
    let mut out: Vec<char> = Vec::new();
    push_str(&mut out, a);
    push_str(&mut out, owner);
    push_str(&mut out, b);
    push_str(&mut out, name);
    push_str(&mut out, "`");
    string_from_chars(&out)
}

fn no_member_message(t: &Type, name: &str) -> (r: String)
    ensures
        r@ == no_member_text(t@, name@),
{
    let mut out: Vec<char> = Vec::new();
    push_str(&mut out, "类型 ");
    proof {
        lemma_display_v(*t);
    }
    t.display_into(&mut out);
    push_str(&mut out, " 没有成员 `");
    push_str(&mut out, name);
    push_str(&mut out, "`");
    string_from_chars(&out)
}

/// The type and errors of `object.name` (see `member_rule`).
pub fn check_member(types: &TypeTable, object_ty: &Type, name: &str, optional: bool) -> (r: (Type, Vec<String>))
    requires
        member_ids_ok(*types, object_ty@),
    ensures
        r.0@ == member_rule(*types, object_ty@, name@, optional).0,
        crate::text::strs_view(r.1@) == member_rule(*types, object_ty@, name@, optional).1,
{
    proof {
        reveal_strlit("length");
    }
    let mut errors: Vec<String> = Vec::new();
    proof {
        crate::types::lemma_base_v(*object_ty);
    }
    let base = object_ty.without_nullable();
    let result: Type = match base {
        Type::Class(id) => {
            proof {
                lemma_chain_ids(types.classes@, *id);
            }
            match types.find_class_field(*id, name) {
                Some((k, i)) => {
                    proof {
                        lemma_found_field_on_chain(types.classes@, base_chain(types.classes@, *id), name@);
                    }
                    types.classes[k as usize].fields[i].ty.clone()
                },
                None => if same_text(name, "length") {
                    Type::Int
                } else {
                    match types.find_class_method(*id, name) {
                        Some((k, i)) => {
                            proof {
                                lemma_found_method_on_chain(types.classes@, base_chain(types.classes@, *id), name@);
                            }
                            fn_type_of(&types.classes[k as usize].methods[i].sig)
                        },
                        None => {
                            proof {
                                assert(base_chain(types.classes@, *id)[0] == *id);
                            }
                            errors.push(named_message("类 ", types.class_name(*id), " 没有成员 `", name));
                            Type::Error
                        },
                    }
                },
            }
        },
        Type::Struct(id) => {
            let info = &types.structs[*id as usize];
            let mut i: usize = 0;
            while i < info.fields.len() && !same_text(info.fields[i].name.as_str(), name)
                invariant
                    i <= info.fields@.len(),
                    struct_field_named(info.fields@, name@, i as int) == struct_field_named(info.fields@, name@, 0),
                decreases info.fields@.len() - i,
            {
                i += 1;
            }
            if i < info.fields.len() {
                info.fields[i].ty.clone()
            } else {
                errors.push(named_message("结构体 ", info.name.as_str(), " 没有字段 `", name));
                Type::Error
            }
        },
        Type::Interface(id) => {
            let info = &types.interfaces[*id as usize];
            let mut i: usize = 0;
            while i < info.methods.len() && !same_text(info.methods[i].name.as_str(), name)
                invariant
                    i <= info.methods@.len(),
                    sig_named(info.methods@, name@, i as int) == sig_named(info.methods@, name@, 0),
                decreases info.methods@.len() - i,
            {
                i += 1;
            }
            if i < info.methods.len() {
                fn_type_of(&info.methods[i])
            } else {
                errors.push(named_message("接口 ", info.name.as_str(), " 没有方法 `", name));
                Type::Error
            }
        },
        Type::Enum(id) => {
            let info = &types.enums[*id as usize];
            let mut i: usize = 0;
            while i < info.members.len() && !same_text(info.members[i].0.as_str(), name)
                invariant
                    i <= info.members@.len(),
                    member_named(info.members@, name@, i as int) == member_named(info.members@, name@, 0),
                decreases info.members@.len() - i,
            {
                i += 1;
            }
            if i < info.members.len() {
                Type::Enum(*id)
            } else {
                errors.push(named_message("枚举 ", info.name.as_str(), " 没有成员 `", name));
                Type::Error
            }
        },
        Type::Str | Type::Array(_) => {
            if same_text(name, "length") {
                Type::Int
            } else {
                errors.push(no_member_message(base, name));
                Type::Error
            }
        },
        Type::Error => Type::Error,
        _ => {
            errors.push(no_member_message(base, name));
            Type::Error
        },
    };
    let nullable = match object_ty {
        Type::Nullable(_) => true,
        _ => false,
    };
    assert(crate::text::strs_view(errors@) =~= member_of(*types, base_v(object_ty@), name@).1);
    assert(result@ == member_of(*types, base_v(object_ty@), name@).0);
    if optional || nullable {
        if nullable && !optional {
            errors.push(String::from_str("值可能为空，请使用 `?.`"));
        }
        assert(crate::text::strs_view(errors@) =~= member_rule(*types, object_ty@, name@, optional).1);
        (Type::Nullable(Box::new(result)), errors)
    } else {
        (result, errors)
    }
}

} // verus!
