//! The checker's rules on statements, given the types of their expressions: conditions,
//! `for-of`, `switch` cases, `throw`, `break` and `continue`, `return` (which also
//! settles the function's return type), and variable declarations with their
//! destructuring patterns.

use vstd::prelude::*;

use crate::expressions::{literal_fits, literal_target_ok, with_type, with_types, Expr};
use crate::symbols::{FieldInfo, TypeTable};
use crate::text::{push_str, same_text, string_from_chars};
use crate::types::{Type, TypeV, display_v, is_float_v, is_integer_v, is_numeric_v, lemma_display_v, base_v};
use crate::typing::{assignable, class_ids_ok, classes_ok, is_assignable};

verus! {

/// The statements whose condition must be a `bool`.
#[derive(Clone, Copy, Debug, PartialEq, Eq, Structural)]
pub enum CondKind {
    If,
    While,
    For,
}

/// The keyword of a statement with a condition.
pub open spec fn cond_keyword(k: CondKind) -> Seq<char> {
    match k {
        CondKind::If => "if"@,
        CondKind::While => "while"@,
        CondKind::For => "for"@,
    }
}

fn message(a: &str, t: &Type, b: &str) -> (r: String)
    ensures
        r@ == with_type(a@, t@, b@),
{
    let mut out: Vec<char> = Vec::new();
    push_str(&mut out, a);
    proof {
        lemma_display_v(*t);
    }
    t.display_into(&mut out);
    push_str(&mut out, b);
    string_from_chars(&out)
}

fn message2(a: &str, t: &Type, b: &str, u: &Type) -> (r: String)
    ensures
        r@ == with_types(a@, t@, b@, u@),
{
    let mut out: Vec<char> = Vec::new();
    push_str(&mut out, a);
    proof {
        lemma_display_v(*t);
    }
    t.display_into(&mut out);
    push_str(&mut out, b);
    proof {
        lemma_display_v(*u);
    }
    u.display_into(&mut out);
    string_from_chars(&out)
}

/// The view of an optional message.
pub open spec fn opt_text(m: Option<String>) -> Option<Seq<char>> {
    match m {
        Some(s) => Some(s@),
        None => None,
    }
}

/// The error of a condition of type `ty`: it must be `bool`.
pub open spec fn cond_error(kind: CondKind, ty: TypeV) -> Option<Seq<char>> {
    if ty is Bool {
        None
    } else {
        Some(cond_keyword(kind) + with_type(" 条件必须是 bool，实际为 "@, ty, ""@))
    }
}

/// The error of the condition of an `if`, `while` or `for` (see `cond_error`).
pub fn check_condition(kind: CondKind, ty: &Type) -> (r: Option<String>)
    ensures
        opt_text(r) == cond_error(kind, ty@),
{
    match ty {
        Type::Bool => None,
        _ => {
            let mut out: Vec<char> = Vec::new();
            match kind {
                CondKind::If => push_str(&mut out, "if"),
                CondKind::While => push_str(&mut out, "while"),
                CondKind::For => push_str(&mut out, "for"),
            }
            push_str(&mut out, " 条件必须是 bool，实际为 ");
            proof {
                lemma_display_v(*ty);
            }
            ty.display_into(&mut out);
            push_str(&mut out, "");
            assert(out@ =~= cond_keyword(kind) + with_type(" 条件必须是 bool，实际为 "@, ty@, ""@));
            Some(string_from_chars(&out))
        },
    }
}

/// The element type of `for (x of iterable)` and its error: an array gives its
/// element, a string its `char`s; a nullable value gives its base type, with an error
/// asking to test it first; anything else gives the error type.
pub open spec fn foreach_rule(iterable: TypeV) -> (TypeV, Option<Seq<char>>) {
    match iterable {
        TypeV::Array(inner) => (*inner, None),
        TypeV::Str => (TypeV::Char, None),
        TypeV::Nullable(inner) => (*inner, Some("for-of 迭代值可能为空，请先判空"@)),
        _ => (TypeV::Error, Some(with_type("for-of 只能迭代 T[] 或 string，实际为 "@, iterable, ""@))),
    }
}

/// The element type and error of a `for-of` loop (see `foreach_rule`).
pub fn check_foreach(iterable: &Type) -> (r: (Type, Option<String>))
    ensures
        r.0@ == foreach_rule(iterable@).0,
        opt_text(r.1) == foreach_rule(iterable@).1,
{
    match iterable {
        Type::Array(inner) => ((**inner).clone(), None),
        Type::Str => (Type::Char, None),
        Type::Nullable(inner) => ((**inner).clone(), Some(String::from_str("for-of 迭代值可能为空，请先判空"))),
        other => (Type::Error, Some(message("for-of 只能迭代 T[] 或 string，实际为 ", other, ""))),
    }
}

/// The error of a `case` of type `case_ty` in a `switch` on a value of type
/// `value_ty`: one must be assignable to the other.
pub open spec fn case_error(types: TypeTable, case_ty: TypeV, value_ty: TypeV) -> Option<Seq<char>> {
    if !assignable(types, case_ty, value_ty) && !assignable(types, value_ty, case_ty) {
        Some(with_types("case 类型 "@, case_ty, " 与 switch 值类型 "@, value_ty) + " 不匹配"@)
    } else {
        None
    }
}

/// The error of a `switch` case (see `case_error`).
pub fn check_case(types: &TypeTable, case_ty: &Type, value_ty: &Type) -> (r: Option<String>)
    requires
        classes_ok(*types),
        class_ids_ok(case_ty@, types.classes@.len()),
        class_ids_ok(value_ty@, types.classes@.len()),
    ensures
        opt_text(r) == case_error(*types, case_ty@, value_ty@),
{
    if !is_assignable(types, case_ty, value_ty) && !is_assignable(types, value_ty, case_ty) {
        let mut out: Vec<char> = Vec::new();
        push_str(&mut out, "case 类型 ");
        proof {
            lemma_display_v(*case_ty);
        }
        case_ty.display_into(&mut out);
        push_str(&mut out, " 与 switch 值类型 ");
        proof {
            lemma_display_v(*value_ty);
        }
        value_ty.display_into(&mut out);
        push_str(&mut out, " 不匹配");
        assert(out@ =~= with_types("case 类型 "@, case_ty@, " 与 switch 值类型 "@, value_ty@) + " 不匹配"@);
        Some(string_from_chars(&out))
    } else {
        None
    }
}

/// The error of `throw` of a value of type `ty`: it must be a string or a class
/// instance.
pub open spec fn throw_error(ty: TypeV) -> Option<Seq<char>> {
    if !(ty is Str) && !(ty is Class) {
        Some(with_type("throw 的值必须是 string 或 class 实例，实际为 "@, ty, ""@))
    } else {
        None
    }
}

/// The error of a `throw` (see `throw_error`).
pub fn check_throw(ty: &Type) -> (r: Option<String>)
    ensures
        opt_text(r) == throw_error(ty@),
{
    match ty {
        Type::Str | Type::Class(_) => None,
        _ => Some(message("throw 的值必须是 string 或 class 实例，实际为 ", ty, "")),
    }
}

/// The message of a `break` outside loops and `switch`es.
pub const BREAK_MESSAGE: &'static str = "break 只能在循环或 switch 内使用";

/// The message of a `continue` outside loops.
pub const CONTINUE_MESSAGE: &'static str = "continue 只能在循环内使用";

/// Whether a `break` at the given loop and `switch` nesting is an error: outside both.
pub fn break_misplaced(loop_depth: usize, switch_depth: usize) -> (r: bool)
    ensures
        r == (loop_depth == 0 && switch_depth == 0),
{
    loop_depth == 0 && switch_depth == 0
}

/// Whether a `continue` at the given loop nesting is an error: outside loops.
pub fn continue_misplaced(loop_depth: usize) -> (r: bool)
    ensures
        r == (loop_depth == 0),
{
    loop_depth == 0
}

/// The function's return type after a `return` and the error it gets, `ret` being the
/// return type so far (`Unknown` while it is to be inferred) and `value` the type of
/// the returned value, if any. A value settles a return type still unknown and
/// otherwise must be assignable to it; a bare `return` settles `void` and otherwise
/// needs `void`.
pub open spec fn return_rule(types: TypeTable, ret: TypeV, value: Option<TypeV>) -> (TypeV, Option<Seq<char>>) {
    match value {
        Some(ty) => if ret is Unknown {
            (ty, None)
        } else if !assignable(types, ty, ret) {
            (ret, Some(with_types("return 类型 "@, ty, " 与函数返回类型 "@, ret) + " 不匹配"@))
        } else {
            (ret, None)
        },
        None => if ret is Unknown {
            (TypeV::Void, None)
        } else if !(ret is Void) {
            (ret, Some(with_type("函数声明返回 "@, ret, "，但 return 缺少表达式"@)))
        } else {
            (ret, None)
        },
    }
}

/// What the checker knows of the function whose body it walks.
pub struct ReturnState {
    /// The return type so far (`Unknown` while it is to be inferred).
    pub ret: Type,
    /// A `return` with a value has been seen.
    pub saw_return_value: bool,
}

/// Checks a `return` (see `return_rule`): settles the return type, notes a returned
/// value, and gives the error.
pub fn check_return(types: &TypeTable, state: &mut ReturnState, value: Option<&Type>) -> (r: Option<String>)
    requires
        classes_ok(*types),
        value matches Some(t) ==> class_ids_ok(t@, types.classes@.len()),
    ensures
        final(state).ret@ == return_rule(*types, old(state).ret@, match value {
            Some(t) => Some(t@),
            None => None,
        }).0,
        opt_text(r) == return_rule(*types, old(state).ret@, match value {
            Some(t) => Some(t@),
            None => None,
        }).1,
        final(state).saw_return_value == (old(state).saw_return_value || value is Some),
{
    let unknown = match state.ret {
        Type::Unknown => true,
        _ => false,
    };
    match value {
        Some(ty) => {
            state.saw_return_value = true;
            if unknown {
                state.ret = ty.clone();
                None
            } else if !is_assignable(types, ty, &state.ret) {
                let m = message2("return 类型 ", ty, " 与函数返回类型 ", &state.ret);
                let mut out: Vec<char> = Vec::new();
                push_str(&mut out, m.as_str());
                push_str(&mut out, " 不匹配");
                Some(string_from_chars(&out))
            } else {
                None
            }
        },
        None => {
            if unknown {
                state.ret = Type::Void;
                None
            } else {
                match state.ret {
                    Type::Void => None,
                    _ => Some(message("函数声明返回 ", &state.ret, "，但 return 缺少表达式")),
                }
            }
        },
    }
}

// ---------------------------------------------------------------------------
// Variable declarations.
// ---------------------------------------------------------------------------

/// The message of a declaration with neither a type nor an initialiser.
pub const UNTYPED_MESSAGE: &'static str = "变量声明缺少类型标注或初始化表达式";

/// The type of a declared variable and the error of its declaration: with a type
/// annotation, that type, and an initialiser must be assignable to it or a literal
/// that may take it; without one, the initialiser's type; with neither, the error
/// type and an error.
pub open spec fn declared_type(types: TypeTable, annotation: Option<TypeV>, init: Option<(Expr, TypeV)>) -> (
    TypeV,
    Option<Seq<char>>,
) {
    match annotation {
        Some(ty) => match init {
            Some((e, init_ty)) => if !assignable(types, init_ty, ty) && !literal_fits(e, ty) {
                (ty, Some(with_types("初始化式类型 "@, init_ty, " 不能赋给 "@, ty)))
            } else {
                (ty, None)
            },
            None => (ty, None),
        },
        None => match init {
            Some((_, init_ty)) => (init_ty, None),
            None => (TypeV::Error, Some(UNTYPED_MESSAGE@)),
        },
    }
}

/// The type and error of a variable declaration (see `declared_type`).
pub fn check_declared_type(types: &TypeTable, annotation: Option<&Type>, init: Option<(&Expr, &Type)>) -> (r: (
    Type,
    Option<String>,
))
    requires
        classes_ok(*types),
        init matches Some((_, t)) ==> class_ids_ok(t@, types.classes@.len()),
    ensures
        r.0@ == declared_type(
            *types,
            match annotation {
                Some(t) => Some(t@),
                None => None,
            },
            match init {
                Some((e, t)) => Some((*e, t@)),
                None => None,
            },
        ).0,
        opt_text(r.1) == declared_type(
            *types,
            match annotation {
                Some(t) => Some(t@),
                None => None,
            },
            match init {
                Some((e, t)) => Some((*e, t@)),
                None => None,
            },
        ).1,
{
    match annotation {
        Some(ty) => match init {
            Some((e, init_ty)) => {
                if !is_assignable(types, init_ty, ty) && !literal_target_ok(e, ty) {
                    (ty.clone(), Some(message2("初始化式类型 ", init_ty, " 不能赋给 ", ty)))
                } else {
                    (ty.clone(), None)
                }
            },
            None => (ty.clone(), None),
        },
        None => match init {
            Some((_, init_ty)) => (init_ty.clone(), None),
            None => (Type::Error, Some(String::from_str(UNTYPED_MESSAGE))),
        },
    }
}

/// A type without its nullability.
pub open spec fn base_type(t: Type) -> Type {
    match t {
        Type::Nullable(inner) => *inner,
        _ => t,
    }
}

/// The message of a destructuring declaration without an initialiser.
pub const PATTERN_INIT_MESSAGE: &'static str = "解构声明需要初始化表达式";

/// The element type that `let [a, b] = init` binds, or its error: the initialiser
/// (nullability aside) must be an array.
pub open spec fn array_pattern(init_ty: TypeV) -> Result<TypeV, Seq<char>> {
    match base_v(init_ty) {
        TypeV::Array(e) => Ok(*e),
        _ => Err(with_type("数组解构目标必须是数组，实际为 "@, init_ty, ""@)),
    }
}

/// The element type of an array destructuring (see `array_pattern`).
pub fn check_array_pattern(init_ty: &Type) -> (r: Result<Type, String>)
    ensures
        match (r, array_pattern(init_ty@)) {
            (Ok(t), Ok(v)) => t@ == v,
            (Err(m), Err(v)) => m@ == v,
            _ => false,
        },
{
    proof {
        crate::types::lemma_base_v(*init_ty);
    }
    match init_ty.without_nullable() {
        Type::Array(e) => Ok((**e).clone()),
        _ => Err(message("数组解构目标必须是数组，实际为 ", init_ty, "")),
    }
}

/// The first field of `fields` named `name`, from index `i` on.
pub open spec fn field_named(fields: Seq<FieldInfo>, name: Seq<char>, i: int) -> Option<int>
    decreases fields.len() - i,
{
    if i < 0 || i >= fields.len() {
        None
    } else if fields[i].name@ == name {
        Some(i)
    } else {
        field_named(fields, name, i + 1)
    }
}

/// What `let { f, g } = init` binds for each named field: its type, or the error that
/// the struct has no such field; or the error that the initialiser (nullability
/// aside) is no struct.
pub open spec fn object_pattern(types: TypeTable, init_ty: TypeV, names: Seq<Seq<char>>) -> Result<
    Seq<Result<TypeV, Seq<char>>>,
    Seq<char>,
> {
    match base_v(init_ty) {
        TypeV::Struct(id) => {
            let info = types.structs@[id as int];
            Ok(
                Seq::new(
                    names.len(),
                    |k: int|
                        match field_named(info.fields@, names[k], 0) {
                            Some(i) => Ok(info.fields@[i].ty@),
                            None => Err("struct "@ + info.name@ + " 没有字段 `"@ + names[k] + "`"@),
                        },
                ),
            )
        },
        _ => Err(with_type("对象解构目标必须是 struct，实际为 "@, init_ty, ""@)),
    }
}

/// The view of the outcome for one field of an object destructuring.
pub open spec fn field_outcome(r: Result<Type, String>) -> Result<TypeV, Seq<char>> {
    match r {
        Ok(t) => Ok(t@),
        Err(m) => Err(m@),
    }
}

/// What an object destructuring binds (see `object_pattern`).
pub fn check_object_pattern(types: &TypeTable, init_ty: &Type, names: &Vec<String>) -> (r: Result<
    Vec<Result<Type, String>>,
    String,
>)
    requires
        base_type(*init_ty) matches Type::Struct(id) ==> id < types.structs@.len(),
    ensures
        match (r, object_pattern(*types, init_ty@, crate::text::strs_view(names@))) {
            (Ok(v), Ok(w)) => v@.len() == w.len() && forall|k: int|
                0 <= k < w.len() ==> field_outcome(#[trigger] v@[k]) == w[k],
            (Err(m), Err(w)) => m@ == w,
            _ => false,
        },
{
    proof {
        crate::types::lemma_base_v(*init_ty);
    }
    let id = match init_ty.without_nullable() {
        Type::Struct(id) => *id,
        _ => return Err(message("对象解构目标必须是 struct，实际为 ", init_ty, "")),
    };
    let info = &types.structs[id as usize];
    let ghost want = object_pattern(*types, init_ty@, crate::text::strs_view(names@))->Ok_0;
    let mut out: Vec<Result<Type, String>> = Vec::new();
    let mut k: usize = 0;
    while k < names.len()
        invariant
            k <= names@.len(),
            info == types.structs@[id as int],
            base_v(init_ty@) == TypeV::Struct(id),
            want == object_pattern(*types, init_ty@, crate::text::strs_view(names@))->Ok_0,
            want.len() == names@.len(),
            out@.len() == k,
            forall|j: int| 0 <= j < k ==> field_outcome(#[trigger] out@[j]) == want[j],
        decreases names@.len() - k,
    {
        let name = names[k].as_str();
        let mut i: usize = 0;
        while i < info.fields.len() && !same_text(info.fields[i].name.as_str(), name)
            invariant
                i <= info.fields@.len(),
                field_named(info.fields@, name@, i as int) == field_named(info.fields@, name@, 0),
            decreases info.fields@.len() - i,
        {
            i += 1;
        }
        if i < info.fields.len() {
            out.push(Ok(info.fields[i].ty.clone()));
        } else {
            let mut m: Vec<char> = Vec::new();
            push_str(&mut m, "struct ");
            push_str(&mut m, info.name.as_str());
            push_str(&mut m, " 没有字段 `");
            push_str(&mut m, name);
            push_str(&mut m, "`");
            out.push(Err(string_from_chars(&m)));
        }
        proof {
            let nk = crate::text::strs_view(names@)[k as int];
            assert(nk == name@);
            assert(want[k as int] == (match field_named(info.fields@, nk, 0) {
                Some(i) => Ok(info.fields@[i].ty@),
                None => Err("struct "@ + info.name@ + " 没有字段 `"@ + nk + "`"@),
            }));
            if i < info.fields@.len() {
                assert(field_named(info.fields@, name@, i as int) == Some(i as int));
            }
            assert(field_outcome(out@[k as int]) == want[k as int]);
        }
        k += 1;
    }
    Ok(out)
}

} // verus!
