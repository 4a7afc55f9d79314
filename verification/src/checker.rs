//! The checker's walk over expressions: the type of an expression and the errors it
//! gets, in the order the checker reports them, built from the rules of
//! `expressions`, `members` and `typing`.

use vstd::prelude::*;

use crate::expressions::{
    assign_errors, binary_check, cast_error, check_assign, check_binary, check_cast,
    check_conditional, check_index, check_slice, check_unary, conditional_rule, index_rule, item_element,
    literal_type, literal_type_spec, message1, message2, slice_rule, spread_error, unary_rule, with_type, with_types,
    Expr, UnaryOp,
};
use crate::members::{check_member, fn_type, member_ids_ok, member_rule};
use crate::symbols::{FunctionSig, SymbolId, TypeTable};
use crate::text::{push_str, same_text, string_from_chars, strs_view};
use crate::types::{is_integer_v, is_numeric_v, lemma_base_v, Type, TypeV};
use crate::typing::{assignable, class_ids_ok, classes_ok, is_assignable, overload, pick_overload};

verus! {

/// A variable in scope: its name, type, and whether it may be assigned to
/// (parameters may not).
pub struct Local {
    pub name: String,
    pub ty: Type,
    pub mutable: bool,
}

/// What the checker knows while it walks a function body, besides its scopes of
/// locals: the program's types, the module's variables and functions (each name with
/// its overloads), and the class whose method it is, if any.
pub struct CheckCtx {
    pub types: TypeTable,
    pub globals: Vec<Local>,
    pub functions: Vec<(String, Vec<(SymbolId, FunctionSig)>)>,
    pub this_class: Option<u32>,
}

/// A local as the rules read it: its name, its type and whether it may be assigned
/// to.
pub type LocalV = (Seq<char>, TypeV, bool);

/// The view of a local.
pub open spec fn local_view(l: Local) -> LocalV {
    (l.name@, l.ty@, l.mutable)
}

/// The view of a scope.
pub open spec fn scope_view(s: Seq<Local>) -> Seq<LocalV> {
    s.map_values(|l: Local| local_view(l))
}

/// The view of a stack of scopes.
pub open spec fn scopes_view(s: Seq<Vec<Local>>) -> Seq<Seq<LocalV>> {
    s.map_values(|v: Vec<Local>| scope_view(v@))
}

// ---------------------------------------------------------------------------
// Names.
// ---------------------------------------------------------------------------

/// The index of the last local named `name` in a scope (the latest declaration).
pub open spec fn last_named(scope: Seq<LocalV>, name: Seq<char>) -> Option<int>
    decreases scope.len(),
{
    if scope.len() == 0 {
        None
    } else if scope.last().0 == name {
        Some(scope.len() - 1)
    } else {
        last_named(scope.drop_last(), name)
    }
}

/// The local named `name` in the innermost scope that has one.
pub open spec fn scoped(scopes: Seq<Seq<LocalV>>, name: Seq<char>) -> Option<LocalV>
    decreases scopes.len(),
{
    if scopes.len() == 0 {
        None
    } else {
        match last_named(scopes.last(), name) {
            Some(i) => Some(scopes.last()[i]),
            None => scoped(scopes.drop_last(), name),
        }
    }
}

/// The index of the first module variable named `name`.
pub open spec fn global_named(globals: Seq<Local>, name: Seq<char>, i: int) -> Option<int>
    decreases globals.len() - i,
{
    if i < 0 || i >= globals.len() {
        None
    } else if globals[i].name@ == name {
        Some(i)
    } else {
        global_named(globals, name, i + 1)
    }
}

/// The index of the module's functions named `name`.
pub open spec fn function_named(fs: Seq<(String, Vec<(SymbolId, FunctionSig)>)>, name: Seq<char>, i: int) -> Option<
    int,
>
    decreases fs.len() - i,
{
    if i < 0 || i >= fs.len() {
        None
    } else if fs[i].0@ == name {
        Some(i)
    } else {
        function_named(fs, name, i + 1)
    }
}

/// What a name stands for.
pub enum Named {
    /// A local or module variable: its type and whether it may be assigned to.
    Var(TypeV, bool),
    /// A module function: its first overload.
    Function(FunctionSig),
}

/// Looking a name up: the scopes, innermost first; then the module's variables; then
/// its functions.
pub open spec fn resolve(cx: CheckCtx, sc: Seq<Seq<LocalV>>, name: Seq<char>) -> Option<Named> {
    match scoped(sc, name) {
        Some(l) => Some(Named::Var(l.1, l.2)),
        None => match global_named(cx.globals@, name, 0) {
            Some(i) => Some(Named::Var(cx.globals@[i].ty@, cx.globals@[i].mutable)),
            None => match function_named(cx.functions@, name, 0) {
                Some(i) => if cx.functions@[i].1@.len() > 0 {
                    Some(Named::Function(cx.functions@[i].1@[0].1))
                } else {
                    None
                },
                None => None,
            },
        },
    }
}

/// The overloads of the module function `name`, if the module has that name.
pub open spec fn module_name(cx: CheckCtx, name: Seq<char>) -> Option<Seq<(SymbolId, FunctionSig)>> {
    match global_named(cx.globals@, name, 0) {
        Some(_) => Some(Seq::empty()),
        None => match function_named(cx.functions@, name, 0) {
            Some(i) => Some(cx.functions@[i].1@),
            None => None,
        },
    }
}

// ---------------------------------------------------------------------------
// The walk.
// ---------------------------------------------------------------------------

/// `m` as a list of messages.
pub open spec fn opt_seq(m: Option<Seq<char>>) -> Seq<Seq<char>> {
    match m {
        Some(t) => seq![t],
        None => Seq::empty(),
    }
}

/// `名` quoted into a message: `a`, the name, `b`.
pub open spec fn quoted(a: Seq<char>, name: Seq<char>, b: Seq<char>) -> Seq<char> {
    a + name + b
}

/// The type of `e` and the errors its check reports, in order.
/// - literals have their literal type; a name the type of what it stands for (a
///   function: its first overload as a function value), else an error;
/// - `this` is the method's class, `super` its base class, else an error;
/// - a cast has its target type, with an error when the value's type cannot be cast;
/// - prefix, binary, conditional, index, slice, postfix, member and assignment
///   expressions follow their rules after their parts are checked; `++`/`--` also
///   need an assignable operand, an assignment an assignable target;
/// - a spread outside a literal or a call is an error;
/// - an array literal has the type of its first element;
/// - a call follows `call_check`.
pub open spec fn check_spec(cx: CheckCtx, sc: Seq<Seq<LocalV>>, e: Expr) -> (TypeV, Seq<Seq<char>>)
    decreases e, 1nat,
{
    match e {
        Expr::Ident(name) => match resolve(cx, sc, name@) {
            Some(Named::Var(t, _)) => (t, Seq::empty()),
            Some(Named::Function(sig)) => (fn_type(sig), Seq::empty()),
            None => (TypeV::Error, seq![quoted("未定义的名称 `"@, name@, "`"@)]),
        },
        Expr::This => match cx.this_class {
            Some(c) => (TypeV::Class(c), Seq::empty()),
            None => (TypeV::Error, seq!["`this` 只能在类方法中使用"@]),
        },
        Expr::Super => match cx.this_class {
            Some(c) => match cx.types.classes@[c as int].base {
                Some(b) => (TypeV::Class(b), Seq::empty()),
                None => (TypeV::Error, seq!["`super` 只能在有基类的类中使用"@]),
            },
            None => (TypeV::Error, seq!["`super` 只能在有基类的类中使用"@]),
        },
        Expr::Group(inner) => check_spec(cx, sc, *inner),
        Expr::Cast { expr, ty } => {
            let (from, errs) = check_spec(cx, sc, *expr);
            (ty@, errs + opt_seq(cast_error(from, ty@)))
        },
        Expr::Unary { op, expr } => {
            let (t, errs) = check_spec(cx, sc, *expr);
            let (lv, lerrs) = if (op is Inc || op is Dec) && is_numeric_v(t) {
                lvalue_spec(cx, sc, *expr)
            } else {
                (false, Seq::empty())
            };
            let (r, m) = unary_rule(op, t, lv);
            (r, errs + lerrs + opt_seq(m))
        },
        Expr::Postfix { expr, .. } => {
            let (t, errs) = check_spec(cx, sc, *expr);
            let (lv, lerrs) = if is_numeric_v(t) {
                lvalue_spec(cx, sc, *expr)
            } else {
                (false, Seq::empty())
            };
            let (r, m) = unary_rule(UnaryOp::Inc, t, lv);
            (r, errs + lerrs + opt_seq(m))
        },
        Expr::Binary { op, left, right } => {
            let (lt, e1) = check_spec(cx, sc, *left);
            let (rt, e2) = check_spec(cx, sc, *right);
            let (r, m) = binary_check(cx.types, op, *left, *right, lt, rt);
            (r, e1 + e2 + opt_seq(m))
        },
        Expr::Assign { op, target, value } => {
            let (lv, e0) = lvalue_spec(cx, sc, *target);
            let e1 = if lv {
                Seq::empty()
            } else {
                seq!["赋值目标不可写"@]
            };
            let (tt, e2) = check_spec(cx, sc, *target);
            let (vt, e3) = check_spec(cx, sc, *value);
            (tt, e0 + e1 + e2 + e3 + assign_errors(cx.types, op, true, tt, *value, vt))
        },
        Expr::Conditional { cond, then, else_ } => {
            let (ct, e1) = check_spec(cx, sc, *cond);
            let e2 = if ct is Bool {
                Seq::empty()
            } else {
                seq![with_type("三元条件必须是 bool，实际为 "@, ct, ""@)]
            };
            let (tt, e3) = check_spec(cx, sc, *then);
            let (et, e4) = check_spec(cx, sc, *else_);
            let (r, e5) = conditional_rule(cx.types, TypeV::Bool, tt, et);
            (r, e1 + e2 + e3 + e4 + e5)
        },
        Expr::Index { object, index, optional } => {
            let (ot, e1) = check_spec(cx, sc, *object);
            let (it, e2) = check_spec(cx, sc, *index);
            let (r, e3) = index_rule(ot, it, optional);
            (r, e1 + e2 + e3)
        },
        Expr::Slice { object, start, end } => {
            let (ot, e1) = check_spec(cx, sc, *object);
            let e2 = match start {
                Some(b) => bound_check(cx, sc, *b),
                None => Seq::empty(),
            };
            let e3 = match end {
                Some(b) => bound_check(cx, sc, *b),
                None => Seq::empty(),
            };
            let (r, e4) = slice_rule(ot, Seq::empty());
            (r, e1 + e2 + e3 + e4)
        },
        Expr::Spread(inner) => {
            let (t, errs) = check_spec(cx, sc, *inner);
            (t, seq!["`...` 展开只能用于数组/对象字面量或调用参数"@] + errs)
        },
        Expr::Array(items) => {
            let (first, errs) = array_walk(cx, sc, items@);
            match first {
                Some(t) => (TypeV::Array(Box::new(t)), errs),
                None => (TypeV::Array(Box::new(TypeV::Error)), errs),
            }
        },
        Expr::Member { object, name, optional } => {
            let (ot, e1) = check_spec(cx, sc, *object);
            let (r, e2) = member_rule(cx.types, ot, name@, optional);
            (r, e1 + e2)
        },
        Expr::Call { name, args } => call_check(cx, sc, name@, args@),
        Expr::Typed(t) => (t@, Seq::empty()),
        _ => (literal_type_spec(e)->0@, Seq::empty()),
    }
}

/// The errors of a slice bound: its check's, then one unless it is an integer.
pub open spec fn bound_check(cx: CheckCtx, sc: Seq<Seq<LocalV>>, b: Expr) -> Seq<Seq<char>>
    decreases b, 2nat,
{
    let (t, errs) = check_spec(cx, sc, b);
    errs + if is_integer_v(t) {
        Seq::empty()
    } else {
        seq![with_type("切片边界必须是整数，实际为 "@, t, ""@)]
    }
}

/// Whether `e` may be assigned to, and the errors that finding out reports: a
/// variable declared mutable; a mutable field of a struct or class value (the object
/// is checked); any indexing.
pub open spec fn lvalue_spec(cx: CheckCtx, sc: Seq<Seq<LocalV>>, e: Expr) -> (bool, Seq<Seq<char>>)
    decreases e, 0nat,
{
    match e {
        Expr::Ident(name) => match resolve(cx, sc, name@) {
            Some(Named::Var(_, m)) => (m, Seq::empty()),
            _ => (false, Seq::empty()),
        },
        Expr::Member { object, name, .. } => {
            let (ot, errs) = check_spec(cx, sc, *object);
            (field_mutable(cx.types, ot, name@), errs)
        },
        Expr::Index { .. } => (true, Seq::empty()),
        _ => (false, Seq::empty()),
    }
}

/// The field `name` of a value of type `t` (not made non-nullable) is mutable.
pub open spec fn field_mutable(types: TypeTable, t: TypeV, name: Seq<char>) -> bool {
    match t {
        TypeV::Struct(id) => if id < types.structs@.len() {
            match crate::symbols::field_position(types.structs@[id as int].fields@, name, 0) {
                Some(i) => types.structs@[id as int].fields@[i].mutable,
                None => false,
            }
        } else {
            false
        },
        TypeV::Class(id) => {
            let c = types.classes@;
            match crate::symbols::first_field(c, crate::symbols::base_chain(c, id), name) {
                Some((k, i)) => c[k as int].fields@[i].mutable,
                None => false,
            }
        },
        _ => false,
    }
}

/// The element type of an array literal's items and the errors of their checks, in
/// item order (see `array_rule` for the element rules).
pub open spec fn array_walk(cx: CheckCtx, sc: Seq<Seq<LocalV>>, items: Seq<Expr>) -> (Option<TypeV>, Seq<Seq<char>>)
    decreases items, 3nat,
{
    if items.len() == 0 {
        (None, Seq::empty())
    } else {
        let (first, errs) = array_walk(cx, sc, items.drop_last());
        let item = items.last();
        let (spread, (t, e)) = match item {
            Expr::Spread(inner) => (true, check_spec(cx, sc, *inner)),
            _ => (false, check_spec(cx, sc, item)),
        };
        let element = item_element(spread, t);
        let errs = errs + e + spread_error(spread, t);
        match first {
            None => (Some(element), errs),
            Some(expected) => (Some(expected), if expected != element {
                errs.push(with_types("数组元素类型不一致："@, expected, " 与 "@, element))
            } else {
                errs
            }),
        }
    }
}

/// The types of a call's arguments and the errors of their checks: a spread array
/// literal gives its elements; another spread is an error with the error type.
pub open spec fn args_walk(cx: CheckCtx, sc: Seq<Seq<LocalV>>, args: Seq<Expr>) -> (Seq<TypeV>, Seq<Seq<char>>)
    decreases args, 3nat,
{
    if args.len() == 0 {
        (Seq::empty(), Seq::empty())
    } else {
        let (ts, errs) = args_walk(cx, sc, args.drop_last());
        let arg = args.last();
        match arg {
            Expr::Spread(inner) => match *inner {
                Expr::Array(items) => {
                    let (us, e) = list_walk(cx, sc, items@);
                    (ts + us, errs + e)
                },
                _ => (ts.push(TypeV::Error), errs.push("调用展开暂只支持数组字面量"@)),
            },
            _ => {
                let (t, e) = check_spec(cx, sc, arg);
                (ts.push(t), errs + e)
            },
        }
    }
}

/// The types and errors of a list of expressions, checked in order.
pub open spec fn list_walk(cx: CheckCtx, sc: Seq<Seq<LocalV>>, es: Seq<Expr>) -> (Seq<TypeV>, Seq<Seq<char>>)
    decreases es, 3nat,
{
    if es.len() == 0 {
        (Seq::empty(), Seq::empty())
    } else {
        let (ts, errs) = list_walk(cx, sc, es.drop_last());
        let (t, e) = check_spec(cx, sc, es.last());
        (ts.push(t), errs + e)
    }
}

/// The message when a function value is called with the wrong number of arguments.
pub open spec fn arity_text(want: nat, got: nat) -> Seq<char> {
    "闭包调用参数数量不匹配：需要 "@ + crate::text::decimal(want) + " 个，实际 "@ + crate::text::decimal(got) + " 个"@
}

/// The errors of passing arguments of types `args` to the parameters `params` of a
/// function value, one per argument that is not assignable.
pub open spec fn closure_arg_errors(types: TypeTable, args: Seq<TypeV>, params: Seq<TypeV>) -> Seq<Seq<char>>
    decreases args.len(),
{
    if args.len() == 0 {
        Seq::empty()
    } else {
        let k = args.len() - 1;
        closure_arg_errors(types, args.drop_last(), params) + if assignable(types, args[k], params[k]) {
            Seq::empty()
        } else {
            seq![with_types("闭包参数类型不匹配："@, args[k], " 不能赋给 "@, params[k])]
        }
    }
}

/// The type and errors of the call `name(args)`. The arguments are checked first.
/// A variable of function type is called as a function value: the arguments are
/// checked again, their number must match (else an error and the error type), each
/// must be assignable to its parameter, and the call has the result type. Otherwise
/// the module's overloads of the name are chosen from (`overload`): none of that name,
/// or a name that is no function, is an error; no matching overload is the error
/// `没有找到匹配的重载函数`; the chosen one gives its (instantiated) result type.
pub open spec fn call_check(cx: CheckCtx, sc: Seq<Seq<LocalV>>, name: Seq<char>, args: Seq<Expr>) -> (TypeV, Seq<Seq<char>>)
    decreases args, 4nat,
{
    let (ats, e1) = args_walk(cx, sc, args);
    let closure = match scoped(sc, name) {
        Some(l) => l.1 is Function,
        None => match global_named(cx.globals@, name, 0) {
            Some(i) => cx.globals@[i].ty@ is Function,
            None => false,
        },
    };
    if closure {
        let ft = match resolve(cx, sc, name) {
            Some(Named::Var(t, _)) => t,
            _ => TypeV::Error,
        };
        let (ps, ret) = match ft {
            TypeV::Function(ps, ret) => (ps, *ret),
            _ => (Seq::empty(), TypeV::Error),
        };
        let (bts, e2) = args_walk(cx, sc, args);
        if bts.len() != ps.len() {
            (TypeV::Error, e1 + e2 + seq![arity_text(ps.len(), bts.len())])
        } else {
            (ret, e1 + e2 + closure_arg_errors(cx.types, bts, ps))
        }
    } else {
        match module_name(cx, name) {
            None => (TypeV::Error, e1 + seq![quoted("未定义的函数 `"@, name, "`"@)]),
            Some(cands) => if cands.len() == 0 {
                (TypeV::Error, e1 + seq![quoted("`"@, name, "` 不是函数"@)])
            } else {
                match overload(cx.types, cands, ats, true) {
                    Some((_, sig)) => (sig.ret, e1),
                    None => (TypeV::Error, e1 + seq!["没有找到匹配的重载函数"@]),
                }
            },
        }
    }
}

// ---------------------------------------------------------------------------
// What the walk needs of its input.
// ---------------------------------------------------------------------------

/// A type whose classes exist and whose members can be looked up.
pub open spec fn types_ok(cx: CheckCtx, t: TypeV) -> bool {
    class_ids_ok(t, cx.types.classes@.len()) && member_ids_ok(cx.types, t)
}

/// The context can be walked in: every class's base chain is finite, and the
/// method's class exists.
pub open spec fn cx_ok(cx: CheckCtx) -> bool {
    &&& classes_ok(cx.types)
    &&& match cx.this_class {
        Some(c) => c < cx.types.classes@.len(),
        None => true,
    }
}

/// The types that the rules at each node of `e` compare or look into are well
/// formed: the operands of operators, assignments, conditionals and `++`/`--`, the
/// objects of member accesses and the arguments of calls.
pub open spec fn check_ok(cx: CheckCtx, sc: Seq<Seq<LocalV>>, e: Expr) -> bool
    decreases e, 1nat,
{
    match e {
        Expr::Group(inner) => check_ok(cx, sc, *inner),
        Expr::Cast { expr, .. } => check_ok(cx, sc, *expr),
        Expr::Unary { expr, .. } => (check_ok(cx, sc, *expr) && types_ok(cx, check_spec(cx, sc, *expr).0)),
        Expr::Postfix { expr, .. } => (check_ok(cx, sc, *expr) && types_ok(cx, check_spec(cx, sc, *expr).0)),
        Expr::Binary { left, right, .. } => (check_ok(cx, sc, *left) && types_ok(cx, check_spec(cx, sc, *left).0)) && (check_ok(cx, sc, *right) && types_ok(cx, check_spec(cx, sc, *right).0)),
        Expr::Assign { target, value, .. } => (check_ok(cx, sc, *target) && types_ok(cx, check_spec(cx, sc, *target).0)) && (check_ok(cx, sc, *value) && types_ok(cx, check_spec(cx, sc, *value).0)),
        Expr::Conditional { cond, then, else_ } => check_ok(cx, sc, *cond) && (check_ok(cx, sc, *then) && types_ok(cx, check_spec(cx, sc, *then).0)) && (check_ok(cx, sc, *else_) && types_ok(cx, check_spec(cx, sc, *else_).0)),
        Expr::Index { object, index, .. } => check_ok(cx, sc, *object) && check_ok(cx, sc, *index),
        Expr::Slice { object, start, end } => check_ok(cx, sc, *object) && match start {
            Some(b) => check_ok(cx, sc, *b),
            None => true,
        } && match end {
            Some(b) => check_ok(cx, sc, *b),
            None => true,
        },
        Expr::Spread(inner) => check_ok(cx, sc, *inner),
        Expr::Array(items) => items_ok(cx, sc, items@),
        Expr::Member { object, .. } => (check_ok(cx, sc, *object) && types_ok(cx, check_spec(cx, sc, *object).0)),
        Expr::Call { args, .. } => call_args_ok(cx, sc, args@),
        _ => true,
    }
}

/// Each item of an array literal (a spread: what it spreads) can be walked.
pub open spec fn items_ok(cx: CheckCtx, sc: Seq<Seq<LocalV>>, items: Seq<Expr>) -> bool
    decreases items, 3nat,
{
    if items.len() == 0 {
        true
    } else {
        items_ok(cx, sc, items.drop_last()) && match items.last() {
            Expr::Spread(inner) => check_ok(cx, sc, *inner),
            item => check_ok(cx, sc, item),
        }
    }
}

/// Each argument of a call can be walked and has a well-formed type (the items of a
/// spread array literal too).
pub open spec fn call_args_ok(cx: CheckCtx, sc: Seq<Seq<LocalV>>, args: Seq<Expr>) -> bool
    decreases args, 3nat,
{
    if args.len() == 0 {
        true
    } else {
        call_args_ok(cx, sc, args.drop_last()) && match args.last() {
            Expr::Spread(inner) => match *inner {
                Expr::Array(items) => list_ok(cx, sc, items@),
                _ => true,
            },
            arg => (check_ok(cx, sc, arg) && types_ok(cx, check_spec(cx, sc, arg).0)),
        }
    }
}

/// Each expression of a list can be walked and has a well-formed type.
pub open spec fn list_ok(cx: CheckCtx, sc: Seq<Seq<LocalV>>, es: Seq<Expr>) -> bool
    decreases es, 3nat,
{
    if es.len() == 0 {
        true
    } else {
        list_ok(cx, sc, es.drop_last()) && (check_ok(cx, sc, es.last()) && types_ok(cx, check_spec(cx, sc, es.last()).0))
    }
}

/// `e` can be walked and its type is well formed.
pub open spec fn sub_ok(cx: CheckCtx, sc: Seq<Seq<LocalV>>, e: Expr) -> bool {
    check_ok(cx, sc, e) && types_ok(cx, check_spec(cx, sc, e).0)
}

proof fn lemma_items_each(cx: CheckCtx, sc: Seq<Seq<LocalV>>, s: Seq<Expr>, i: int)
    requires
        items_ok(cx, sc, s),
        0 <= i < s.len(),
    ensures
        match s[i] {
            Expr::Spread(inner) => check_ok(cx, sc, *inner),
            item => check_ok(cx, sc, item),
        },
    decreases s.len(),
{
    if i < s.len() - 1 {
        lemma_items_each(cx, sc, s.drop_last(), i);
        assert(s.drop_last()[i] == s[i]);
    }
}

proof fn lemma_args_each(cx: CheckCtx, sc: Seq<Seq<LocalV>>, s: Seq<Expr>, i: int)
    requires
        call_args_ok(cx, sc, s),
        0 <= i < s.len(),
    ensures
        match s[i] {
            Expr::Spread(inner) => match *inner {
                Expr::Array(items) => list_ok(cx, sc, items@),
                _ => true,
            },
            arg => sub_ok(cx, sc, arg),
        },
    decreases s.len(),
{
    if i < s.len() - 1 {
        lemma_args_each(cx, sc, s.drop_last(), i);
        assert(s.drop_last()[i] == s[i]);
    }
}

proof fn lemma_list_each(cx: CheckCtx, sc: Seq<Seq<LocalV>>, s: Seq<Expr>, i: int)
    requires
        list_ok(cx, sc, s),
        0 <= i < s.len(),
    ensures
        sub_ok(cx, sc, s[i]),
    decreases s.len(),
{
    if i < s.len() - 1 {
        lemma_list_each(cx, sc, s.drop_last(), i);
        assert(s.drop_last()[i] == s[i]);
    }
}

// ---------------------------------------------------------------------------
// Messages.
// ---------------------------------------------------------------------------

fn push_msg(out: &mut Vec<String>, m: String)
    ensures
        strs_view(final(out)@) == strs_view(old(out)@).push(m@),
{
    out.push(m);
    assert(strs_view(out@) =~= strs_view(old(out)@).push(m@));
}

fn push_opt(out: &mut Vec<String>, m: Option<String>)
    ensures
        strs_view(final(out)@) == strs_view(old(out)@) + opt_seq(
            match m {
                Some(t) => Some(t@),
                None => None,
            },
        ),
{
    match m {
        Some(t) => push_msg(out, t),
        None => {
            assert(strs_view(out@) =~= strs_view(out@) + Seq::<Seq<char>>::empty());
        },
    }
}

fn append_msgs(out: &mut Vec<String>, ms: Vec<String>)
    ensures
        strs_view(final(out)@) == strs_view(old(out)@) + strs_view(ms@),
{
    let ghost head = strs_view(out@);
    let mut i: usize = 0;
    while i < ms.len()
        invariant
            i <= ms@.len(),
            strs_view(out@) == head + strs_view(ms@).take(i as int),
        decreases ms@.len() - i,
    {
        let m = ms[i].clone();
        push_msg(out, m);
        i += 1;
        assert(strs_view(out@) =~= head + strs_view(ms@).take(i as int));
    }
    assert(strs_view(ms@).take(i as int) =~= strs_view(ms@));
}

fn quoted_msg(a: &str, name: &str, b: &str) -> (r: String)
    ensures
        r@ == quoted(a@, name@, b@),
{
    let mut v: Vec<char> = Vec::new();
    push_str(&mut v, a);
    push_str(&mut v, name);
    push_str(&mut v, b);
    string_from_chars(&v)
}

fn arity_msg(want: usize, got: usize) -> (r: String)
    ensures
        r@ == arity_text(want as nat, got as nat),
{
    let mut v: Vec<char> = Vec::new();
    push_str(&mut v, "闭包调用参数数量不匹配：需要 ");
    crate::text::push_decimal(&mut v, want as u64);
    push_str(&mut v, " 个，实际 ");
    crate::text::push_decimal(&mut v, got as u64);
    push_str(&mut v, " 个");
    string_from_chars(&v)
}

// ---------------------------------------------------------------------------
// Looking names up.
// ---------------------------------------------------------------------------

fn find_last(scope: &Vec<Local>, name: &str) -> (r: Option<usize>)
    ensures
        match r {
            Some(i) => last_named(scope_view(scope@), name@) == Some(i as int) && i < scope@.len(),
            None => last_named(scope_view(scope@), name@) is None,
        },
{
    let ghost v = scope_view(scope@);
    let mut i: usize = scope.len();
    assert(v.take(i as int) =~= v);
    while i > 0
        invariant
            i <= scope@.len(),
            v == scope_view(scope@),
            v.len() == scope@.len(),
            last_named(v, name@) == last_named(v.take(i as int), name@),
        decreases i,
    {
        assert(v.take(i as int).last() == v[i - 1]);
        assert(v[i - 1].0 == scope@[i - 1].name@);
        if same_text(scope[i - 1].name.as_str(), name) {
            return Some(i - 1);
        }
        assert(v.take(i as int).drop_last() =~= v.take(i - 1));
        i -= 1;
    }
    None
}

pub(crate) fn find_scoped<'a>(scopes: &'a Vec<Vec<Local>>, name: &str) -> (r: Option<&'a Local>)
    ensures
        match r {
            Some(l) => scoped(scopes_view(scopes@), name@) == Some(local_view(*l)),
            None => scoped(scopes_view(scopes@), name@) is None,
        },
{
    let ghost v = scopes_view(scopes@);
    let mut k: usize = scopes.len();
    assert(v.take(k as int) =~= v);
    while k > 0
        invariant
            k <= scopes@.len(),
            v == scopes_view(scopes@),
            v.len() == scopes@.len(),
            scoped(v, name@) == scoped(v.take(k as int), name@),
        decreases k,
    {
        assert(v.take(k as int).last() == v[k - 1]);
        assert(v[k - 1] == scope_view(scopes@[k - 1]@));
        match find_last(&scopes[k - 1], name) {
            Some(i) => {
                assert(scope_view(scopes@[k - 1]@)[i as int] == local_view(scopes@[k - 1]@[i as int]));
                return Some(&scopes[k - 1][i]);
            },
            None => {},
        }
        assert(v.take(k as int).drop_last() =~= v.take(k - 1));
        k -= 1;
    }
    None
}

pub(crate) fn find_global(globals: &Vec<Local>, name: &str) -> (r: Option<usize>)
    ensures
        match r {
            Some(i) => global_named(globals@, name@, 0) == Some(i as int) && i < globals@.len(),
            None => global_named(globals@, name@, 0) is None,
        },
{
    let mut i: usize = 0;
    while i < globals.len()
        invariant
            i <= globals@.len(),
            global_named(globals@, name@, 0) == global_named(globals@, name@, i as int),
        decreases globals@.len() - i,
    {
        if same_text(globals[i].name.as_str(), name) {
            return Some(i);
        }
        i += 1;
    }
    None
}

pub(crate) fn find_function(fs: &Vec<(String, Vec<(SymbolId, FunctionSig)>)>, name: &str) -> (r: Option<usize>)
    ensures
        match r {
            Some(i) => function_named(fs@, name@, 0) == Some(i as int) && i < fs@.len(),
            None => function_named(fs@, name@, 0) is None,
        },
{
    let mut i: usize = 0;
    while i < fs.len()
        invariant
            i <= fs@.len(),
            function_named(fs@, name@, 0) == function_named(fs@, name@, i as int),
        decreases fs@.len() - i,
    {
        if same_text(fs[i].0.as_str(), name) {
            return Some(i);
        }
        i += 1;
    }
    None
}

/// What a name resolves to, as a type and whether it may be assigned to (a function:
/// its function value, not assignable).
pub open spec fn resolved(cx: CheckCtx, sc: Seq<Seq<LocalV>>, name: Seq<char>) -> Option<(TypeV, bool)> {
    match resolve(cx, sc, name) {
        Some(Named::Var(t, m)) => Some((t, m)),
        Some(Named::Function(sig)) => Some((fn_type(sig), false)),
        None => None,
    }
}

fn resolve_exec(cx: &CheckCtx, scopes: &Vec<Vec<Local>>, name: &str) -> (r: Option<(Type, bool)>)
    ensures
        match r {
            Some((t, m)) => resolved(*cx, scopes_view(scopes@), name@) == Some((t@, m)),
            None => resolved(*cx, scopes_view(scopes@), name@) is None,
        },
{
    match find_scoped(scopes, name) {
        Some(l) => {
            return Some((l.ty.clone(), l.mutable));
        },
        None => {},
    }
    match find_global(&cx.globals, name) {
        Some(i) => {
            return Some((cx.globals[i].ty.clone(), cx.globals[i].mutable));
        },
        None => {},
    }
    match find_function(&cx.functions, name) {
        Some(i) => if cx.functions[i].1.len() > 0 {
            Some((crate::members::fn_type_of(&cx.functions[i].1[0].1), false))
        } else {
            None
        },
        None => None,
    }
}

// ---------------------------------------------------------------------------
// The walk, executed.
// ---------------------------------------------------------------------------

proof fn lemma_plus_empty(s: Seq<Seq<char>>)
    ensures
        s + Seq::<Seq<char>>::empty() == s,
{
    assert(s + Seq::<Seq<char>>::empty() =~= s);
}

pub(crate) fn is_function_type(t: &Type) -> (r: bool)
    ensures
        r == (t@ is Function),
{
    match t {
        Type::Function { .. } => true,
        _ => false,
    }
}

fn field_mutable_exec(types: &TypeTable, t: &Type, name: &str) -> (r: bool)
    requires
        member_ids_ok(*types, t@),
    ensures
        r == field_mutable(*types, t@, name@),
{
    match t {
        Type::Struct(id) => {
            if (*id as usize) < types.structs.len() {
                let fields = &types.structs[*id as usize].fields;
                match crate::symbols::field_index(fields, name) {
                    Some(i) => {
                        proof {
                            crate::symbols::lemma_field_position_found(fields@, name@, 0, i as int);
                        }
                        fields[i].mutable
                    },
                    None => false,
                }
            } else {
                false
            }
        },
        Type::Class(id) => {
            proof {
                crate::members::lemma_chain_ids(types.classes@, *id);
            }
            match types.find_class_field(*id, name) {
                Some((k, i)) => {
                    proof {
                        crate::symbols::lemma_found_field_on_chain(
                            types.classes@,
                            crate::symbols::base_chain(types.classes@, *id),
                            name@,
                        );
                    }
                    types.classes[k as usize].fields[i].mutable
                },
                None => false,
            }
        },
        _ => false,
    }
}

/// Whether `e` may be assigned to (see `lvalue_spec`); the errors of checking a
/// member's object are appended to `out`.
pub fn check_lvalue(cx: &CheckCtx, scopes: &Vec<Vec<Local>>, e: &Expr, out: &mut Vec<String>) -> (r: bool)
    requires
        cx_ok(*cx),
        check_ok(*cx, scopes_view(scopes@), *e),
    ensures
        r == lvalue_spec(*cx, scopes_view(scopes@), *e).0,
        strs_view(final(out)@) == strs_view(old(out)@) + lvalue_spec(*cx, scopes_view(scopes@), *e).1,
    decreases e, 3nat,
{
    proof {
        lemma_plus_empty(strs_view(out@));
    }
    match e {
        Expr::Ident(name) => match resolve_exec(cx, scopes, name.as_str()) {
            Some((_, m)) => m,
            None => false,
        },
        Expr::Member { object, name, .. } => {
            let ot = check_expr(cx, scopes, object, out);
            field_mutable_exec(&cx.types, &ot, name.as_str())
        },
        Expr::Index { .. } => true,
        _ => false,
    }
}

#[verifier::rlimit(60)]
fn check_items(cx: &CheckCtx, scopes: &Vec<Vec<Local>>, items: &Vec<Expr>, out: &mut Vec<String>) -> (first: Option<Type>)
    requires
        cx_ok(*cx),
        items_ok(*cx, scopes_view(scopes@), items@),
    ensures
        match first {
            Some(t) => array_walk(*cx, scopes_view(scopes@), items@).0 == Some(t@),
            None => array_walk(*cx, scopes_view(scopes@), items@).0 is None,
        },
        strs_view(final(out)@) == strs_view(old(out)@) + array_walk(*cx, scopes_view(scopes@), items@).1,
    decreases items, 1nat,
{
    let ghost o0 = strs_view(out@);
    let mut first: Option<Type> = None;
    let mut i: usize = 0;
    assert(o0 + array_walk(*cx, scopes_view(scopes@), items@.take(0)).1 =~= o0);
    while i < items.len()
        invariant
            i <= items@.len(),
            cx_ok(*cx),
            items_ok(*cx, scopes_view(scopes@), items@),
            strs_view(out@) == o0 + array_walk(*cx, scopes_view(scopes@), items@.take(i as int)).1,
            match first {
                Some(t) => array_walk(*cx, scopes_view(scopes@), items@.take(i as int)).0 == Some(t@),
                None => array_walk(*cx, scopes_view(scopes@), items@.take(i as int)).0 is None,
            },
        decreases items@.len() - i,
    {
        proof {
            lemma_items_each(*cx, scopes_view(scopes@), items@, i as int);
            assert(items@.take(i + 1).drop_last() =~= items@.take(i as int));
            assert(items@.take(i + 1).last() == items@[i as int]);
        }
        let ghost before = strs_view(out@);
        let (spread, t) = match &items[i] {
            Expr::Spread(inner) => (true, check_expr(cx, scopes, inner, out)),
            item => (false, check_expr(cx, scopes, item, out)),
        };
        proof {
            crate::types::lemma_base_v(t);
        }
        let base = t.without_nullable();
        let base_array = match base {
            Type::Array(_) => true,
            _ => false,
        };
        if spread && !base_array {
            push_msg(out, message1("展开目标必须是数组，实际为 ", base, ""));
        }
        let element = crate::expressions::item_element_ref(spread, &t).clone();
        match &first {
            Some(expected) => {
                if !crate::typing::same_type(expected, &element) {
                    push_msg(out, message2("数组元素类型不一致：", expected, " 与 ", &element));
                }
            },
            None => {},
        }
        if first.is_none() {
            first = Some(element);
        }
        proof {
            assert(strs_view(out@) =~= o0 + array_walk(*cx, scopes_view(scopes@), items@.take(i + 1)).1);
        }
        i += 1;
    }
    proof {
        assert(items@.take(i as int) =~= items@);
    }
    first
}

fn check_list(cx: &CheckCtx, scopes: &Vec<Vec<Local>>, es: &Vec<Expr>, out: &mut Vec<String>) -> (ts: Vec<Type>)
    requires
        cx_ok(*cx),
        list_ok(*cx, scopes_view(scopes@), es@),
    ensures
        Type::view_all(ts@) == list_walk(*cx, scopes_view(scopes@), es@).0,
        forall|j: int| 0 <= j < ts@.len() ==> class_ids_ok(#[trigger] ts@[j]@, cx.types.classes@.len()),
        strs_view(final(out)@) == strs_view(old(out)@) + list_walk(*cx, scopes_view(scopes@), es@).1,
    decreases es, 1nat,
{
    let ghost o0 = strs_view(out@);
    let mut ts: Vec<Type> = Vec::new();
    let mut i: usize = 0;
    assert(o0 + list_walk(*cx, scopes_view(scopes@), es@.take(0)).1 =~= o0);
    while i < es.len()
        invariant
            i <= es@.len(),
            cx_ok(*cx),
            list_ok(*cx, scopes_view(scopes@), es@),
            Type::view_all(ts@) == list_walk(*cx, scopes_view(scopes@), es@.take(i as int)).0,
            forall|j: int| 0 <= j < ts@.len() ==> class_ids_ok(#[trigger] ts@[j]@, cx.types.classes@.len()),
            strs_view(out@) == o0 + list_walk(*cx, scopes_view(scopes@), es@.take(i as int)).1,
        decreases es@.len() - i,
    {
        proof {
            lemma_list_each(*cx, scopes_view(scopes@), es@, i as int);
            assert(es@.take(i + 1).drop_last() =~= es@.take(i as int));
            assert(es@.take(i + 1).last() == es@[i as int]);
        }
        let t = check_expr(cx, scopes, &es[i], out);
        proof {
            crate::types::lemma_view_all_push(ts@, t);
        }
        ts.push(t);
        proof {
            assert(strs_view(out@) =~= o0 + list_walk(*cx, scopes_view(scopes@), es@.take(i + 1)).1);
        }
        i += 1;
    }
    proof {
        assert(es@.take(i as int) =~= es@);
    }
    ts
}

pub(crate) fn check_args(cx: &CheckCtx, scopes: &Vec<Vec<Local>>, args: &Vec<Expr>, out: &mut Vec<String>) -> (ts: Vec<Type>)
    requires
        cx_ok(*cx),
        call_args_ok(*cx, scopes_view(scopes@), args@),
    ensures
        Type::view_all(ts@) == args_walk(*cx, scopes_view(scopes@), args@).0,
        forall|j: int| 0 <= j < ts@.len() ==> class_ids_ok(#[trigger] ts@[j]@, cx.types.classes@.len()),
        strs_view(final(out)@) == strs_view(old(out)@) + args_walk(*cx, scopes_view(scopes@), args@).1,
    decreases args, 1nat,
{
    let ghost o0 = strs_view(out@);
    let mut ts: Vec<Type> = Vec::new();
    let mut i: usize = 0;
    assert(o0 + args_walk(*cx, scopes_view(scopes@), args@.take(0)).1 =~= o0);
    while i < args.len()
        invariant
            i <= args@.len(),
            cx_ok(*cx),
            call_args_ok(*cx, scopes_view(scopes@), args@),
            Type::view_all(ts@) == args_walk(*cx, scopes_view(scopes@), args@.take(i as int)).0,
            forall|j: int| 0 <= j < ts@.len() ==> class_ids_ok(#[trigger] ts@[j]@, cx.types.classes@.len()),
            strs_view(out@) == o0 + args_walk(*cx, scopes_view(scopes@), args@.take(i as int)).1,
        decreases args@.len() - i,
    {
        proof {
            lemma_args_each(*cx, scopes_view(scopes@), args@, i as int);
            assert(args@.take(i + 1).drop_last() =~= args@.take(i as int));
            assert(args@.take(i + 1).last() == args@[i as int]);
        }
        let ghost ts0 = ts@;
        match &args[i] {
            Expr::Spread(inner) => match &**inner {
                Expr::Array(items) => {
                    let mut us = check_list(cx, scopes, items, out);
                    let ghost uv = us@;
                    ts.append(&mut us);
                    proof {
                        assert(ts@ == ts0 + uv);
                        lemma_view_all_concat(ts0, uv);
                        assert forall|k: int| 0 <= k < ts@.len() implies class_ids_ok(#[trigger] ts@[k]@, cx.types.classes@.len()) by {
                            if k >= ts0.len() {
                                assert(ts@[k] == uv[k - ts0.len()]);
                            } else {
                                assert(ts@[k] == ts0[k]);
                            }
                        }
                    }
                },
                _ => {
                    proof {
                        crate::types::lemma_view_all_push(ts@, Type::Error);
                    }
                    ts.push(Type::Error);
                    push_msg(out, String::from_str("调用展开暂只支持数组字面量"));
                },
            },
            arg => {
                let t = check_expr(cx, scopes, arg, out);
                proof {
                    crate::types::lemma_view_all_push(ts@, t);
                }
                ts.push(t);
            },
        }
        proof {
            assert(strs_view(out@) =~= o0 + args_walk(*cx, scopes_view(scopes@), args@.take(i + 1)).1);
        }
        i += 1;
    }
    proof {
        assert(args@.take(i as int) =~= args@);
    }
    ts
}

proof fn lemma_view_all_concat(a: Seq<Type>, b: Seq<Type>)
    ensures
        Type::view_all(a + b) == Type::view_all(a) + Type::view_all(b),
    decreases b.len(),
{
    if b.len() == 0 {
        assert(a + b =~= a);
        assert(Type::view_all(a) + Type::view_all(b) =~= Type::view_all(a));
    } else {
        lemma_view_all_concat(a, b.drop_last());
        assert((a + b).drop_last() =~= a + b.drop_last());
        assert(Type::view_all(a) + Type::view_all(b) =~= (Type::view_all(a) + Type::view_all(b.drop_last())).push(
            b.last()@,
        ));
    }
}

/// The type of the call `name(args)`, with its errors appended to `out` (see
/// `call_check`): a function value is called directly; otherwise the overloads of
/// the module function `name` are chosen from by `pick_overload`, and none matching is
/// the error `没有找到匹配的重载函数`.
pub fn check_call(cx: &CheckCtx, scopes: &Vec<Vec<Local>>, name: &str, args: &Vec<Expr>, out: &mut Vec<String>) -> (t: Type)
    requires
        cx_ok(*cx),
        call_args_ok(*cx, scopes_view(scopes@), args@),
    ensures
        t@ == call_check(*cx, scopes_view(scopes@), name@, args@).0,
        strs_view(final(out)@) == strs_view(old(out)@) + call_check(*cx, scopes_view(scopes@), name@, args@).1,
    decreases args, 2nat,
{
    let ghost o0 = strs_view(out@);
    let ats = check_args(cx, scopes, args, out);
    let closure = match find_scoped(scopes, name) {
        Some(l) => is_function_type(&l.ty),
        None => match find_global(&cx.globals, name) {
            Some(i) => is_function_type(&cx.globals[i].ty),
            None => false,
        },
    };
    if closure {
        let ft = match resolve_exec(cx, scopes, name) {
            Some((t, _)) => t,
            None => Type::Error,
        };
        let bts = check_args(cx, scopes, args, out);
        let ghost o2 = strs_view(out@);
        match &ft {
            Type::Function { params, ret } => {
                proof {
                    crate::types::lemma_view_all(params@);
                    crate::types::lemma_view_all(bts@);
                }
                if bts.len() != params.len() {
                    push_msg(out, arity_msg(params.len(), bts.len()));
                    proof {
                        assert(strs_view(out@) =~= o0 + call_check(*cx, scopes_view(scopes@), name@, args@).1);
                    }
                    Type::Error
                } else {
                    let ghost bv = Type::view_all(bts@);
                    let ghost pv = Type::view_all(params@);
                    let mut k: usize = 0;
                    assert(o2 + closure_arg_errors(cx.types, bv.take(0), pv) =~= o2);
                    while k < bts.len()
                        invariant
                            k <= bts@.len(),
                            bts@.len() == params@.len(),
                            bv == Type::view_all(bts@),
                            pv == Type::view_all(params@),
                            bv.len() == bts@.len(),
                            pv.len() == params@.len(),
                            forall|j: int| 0 <= j < bts@.len() ==> #[trigger] bv[j] == bts@[j]@,
                            forall|j: int| 0 <= j < params@.len() ==> #[trigger] pv[j] == params@[j]@,
                            forall|j: int| 0 <= j < bts@.len() ==> class_ids_ok(#[trigger] bts@[j]@, cx.types.classes@.len()),
                            cx_ok(*cx),
                            strs_view(out@) == o2 + closure_arg_errors(cx.types, bv.take(k as int), pv),
                        decreases bts@.len() - k,
                    {
                        proof {
                            assert(bv.take(k + 1).drop_last() =~= bv.take(k as int));
                            assert(bv.take(k + 1)[k as int] == bts@[k as int]@);
                            assert(class_ids_ok(bts@[k as int]@, cx.types.classes@.len()));
                        }
                        if !is_assignable(&cx.types, &bts[k], &params[k]) {
                            push_msg(out, message2("闭包参数类型不匹配：", &bts[k], " 不能赋给 ", &params[k]));
                        }
                        proof {
                            assert(strs_view(out@) =~= o2 + closure_arg_errors(cx.types, bv.take(k + 1), pv));
                        }
                        k += 1;
                    }
                    proof {
                        assert(bv.take(k as int) =~= bv);
                        assert(strs_view(out@) =~= o0 + call_check(*cx, scopes_view(scopes@), name@, args@).1);
                    }
                    (**ret).clone()
                }
            },
            _ => {
                if bts.len() != 0 {
                    push_msg(out, arity_msg(0, bts.len()));
                }
                proof {
                    assert(strs_view(out@) =~= o0 + call_check(*cx, scopes_view(scopes@), name@, args@).1);
                }
                Type::Error
            },
        }
    } else {
        match find_global(&cx.globals, name) {
            Some(_) => {
                push_msg(out, quoted_msg("`", name, "` 不是函数"));
                assert(strs_view(out@) =~= o0 + call_check(*cx, scopes_view(scopes@), name@, args@).1);
                Type::Error
            },
            None => match find_function(&cx.functions, name) {
                None => {
                    push_msg(out, quoted_msg("未定义的函数 `", name, "`"));
                    assert(strs_view(out@) =~= o0 + call_check(*cx, scopes_view(scopes@), name@, args@).1);
                    Type::Error
                },
                Some(i) => {
                    let cands = &cx.functions[i].1;
                    if cands.len() == 0 {
                        push_msg(out, quoted_msg("`", name, "` 不是函数"));
                        assert(strs_view(out@) =~= o0 + call_check(*cx, scopes_view(scopes@), name@, args@).1);
                        Type::Error
                    } else {
                        match pick_overload(&cx.types, cands, &ats, true) {
                            Some((_, sig)) => {
                                assert(strs_view(out@) =~= o0 + call_check(*cx, scopes_view(scopes@), name@, args@).1);
                                sig.ret
                            },
                            None => {
                                push_msg(out, String::from_str("没有找到匹配的重载函数"));
                                assert(strs_view(out@) =~= o0 + call_check(*cx, scopes_view(scopes@), name@, args@).1);
                                Type::Error
                            },
                        }
                    }
                },
            },
        }
    }
}

#[verifier::rlimit(100)]
fn check_unary_expr(cx: &CheckCtx, scopes: &Vec<Vec<Local>>, e: &Expr, out: &mut Vec<String>) -> (t: Type)
    requires
        cx_ok(*cx),
        check_ok(*cx, scopes_view(scopes@), *e),
        e is Unary,
    ensures
        t@ == check_spec(*cx, scopes_view(scopes@), *e).0,
        strs_view(final(out)@) == strs_view(old(out)@) + check_spec(*cx, scopes_view(scopes@), *e).1,
    decreases e, 1nat,
{
    let ghost o0 = strs_view(out@);
    proof {
        lemma_plus_empty(o0);
    }
    match e {
        Expr::Unary { op, expr } => {
            let t = check_expr(cx, scopes, expr, out);
            let step = match op {
                UnaryOp::Inc => true,
                UnaryOp::Dec => true,
                _ => false,
            };
            let lv = if step && t.is_numeric() {
                check_lvalue(cx, scopes, expr, out)
            } else {
                false
            };
            let (r, m) = check_unary(op, &t, lv);
            push_opt(out, m);
            assert(strs_view(out@) =~= o0 + check_spec(*cx, scopes_view(scopes@), *e).1);
            r
        },
        _ => Type::Error,
    }
}

#[verifier::rlimit(100)]
fn check_postfix_expr(cx: &CheckCtx, scopes: &Vec<Vec<Local>>, e: &Expr, out: &mut Vec<String>) -> (t: Type)
    requires
        cx_ok(*cx),
        check_ok(*cx, scopes_view(scopes@), *e),
        e is Postfix,
    ensures
        t@ == check_spec(*cx, scopes_view(scopes@), *e).0,
        strs_view(final(out)@) == strs_view(old(out)@) + check_spec(*cx, scopes_view(scopes@), *e).1,
    decreases e, 1nat,
{
    let ghost o0 = strs_view(out@);
    proof {
        lemma_plus_empty(o0);
    }
    match e {
        Expr::Postfix { expr, .. } => {
            let t = check_expr(cx, scopes, expr, out);
            let lv = if t.is_numeric() {
                check_lvalue(cx, scopes, expr, out)
            } else {
                false
            };
            let (r, m) = check_unary(&UnaryOp::Inc, &t, lv);
            push_opt(out, m);
            assert(strs_view(out@) =~= o0 + check_spec(*cx, scopes_view(scopes@), *e).1);
            r
        },
        _ => Type::Error,
    }
}

#[verifier::rlimit(100)]
fn check_binary_expr(cx: &CheckCtx, scopes: &Vec<Vec<Local>>, e: &Expr, out: &mut Vec<String>) -> (t: Type)
    requires
        cx_ok(*cx),
        check_ok(*cx, scopes_view(scopes@), *e),
        e is Binary,
    ensures
        t@ == check_spec(*cx, scopes_view(scopes@), *e).0,
        strs_view(final(out)@) == strs_view(old(out)@) + check_spec(*cx, scopes_view(scopes@), *e).1,
    decreases e, 1nat,
{
    let ghost o0 = strs_view(out@);
    proof {
        lemma_plus_empty(o0);
    }
    match e {
        Expr::Binary { op, left, right } => {
            let lt = check_expr(cx, scopes, left, out);
            let rt = check_expr(cx, scopes, right, out);
            let (r, m) = check_binary(&cx.types, op, left, right, &lt, &rt);
            push_opt(out, m);
            assert(strs_view(out@) =~= o0 + check_spec(*cx, scopes_view(scopes@), *e).1);
            r
        },
        _ => Type::Error,
    }
}

#[verifier::rlimit(100)]
fn check_assign_expr(cx: &CheckCtx, scopes: &Vec<Vec<Local>>, e: &Expr, out: &mut Vec<String>) -> (t: Type)
    requires
        cx_ok(*cx),
        check_ok(*cx, scopes_view(scopes@), *e),
        e is Assign,
    ensures
        t@ == check_spec(*cx, scopes_view(scopes@), *e).0,
        strs_view(final(out)@) == strs_view(old(out)@) + check_spec(*cx, scopes_view(scopes@), *e).1,
    decreases e, 1nat,
{
    let ghost o0 = strs_view(out@);
    proof {
        lemma_plus_empty(o0);
    }
    match e {
        Expr::Assign { op, target, value } => {
            let lv = check_lvalue(cx, scopes, target, out);
            if !lv {
                push_msg(out, String::from_str("赋值目标不可写"));
            }
            let tt = check_expr(cx, scopes, target, out);
            let vt = check_expr(cx, scopes, value, out);
            let errs = check_assign(&cx.types, op, true, &tt, value, &vt);
            append_msgs(out, errs);
            assert(strs_view(out@) =~= o0 + check_spec(*cx, scopes_view(scopes@), *e).1);
            tt
        },
        _ => Type::Error,
    }
}

#[verifier::rlimit(100)]
fn check_conditional_expr(cx: &CheckCtx, scopes: &Vec<Vec<Local>>, e: &Expr, out: &mut Vec<String>) -> (t: Type)
    requires
        cx_ok(*cx),
        check_ok(*cx, scopes_view(scopes@), *e),
        e is Conditional,
    ensures
        t@ == check_spec(*cx, scopes_view(scopes@), *e).0,
        strs_view(final(out)@) == strs_view(old(out)@) + check_spec(*cx, scopes_view(scopes@), *e).1,
    decreases e, 1nat,
{
    let ghost o0 = strs_view(out@);
    proof {
        lemma_plus_empty(o0);
    }
    match e {
        Expr::Conditional { cond, then, else_ } => {
            let ct = check_expr(cx, scopes, cond, out);
            let is_bool = match ct {
                Type::Bool => true,
                _ => false,
            };
            if !is_bool {
                push_msg(out, message1("三元条件必须是 bool，实际为 ", &ct, ""));
            }
            let tt = check_expr(cx, scopes, then, out);
            let et = check_expr(cx, scopes, else_, out);
            let (r, errs) = check_conditional(&cx.types, &Type::Bool, &tt, &et);
            append_msgs(out, errs);
            assert(strs_view(out@) =~= o0 + check_spec(*cx, scopes_view(scopes@), *e).1);
            r
        },
        _ => Type::Error,
    }
}

#[verifier::rlimit(100)]
fn check_cast_expr(cx: &CheckCtx, scopes: &Vec<Vec<Local>>, e: &Expr, out: &mut Vec<String>) -> (t: Type)
    requires
        cx_ok(*cx),
        check_ok(*cx, scopes_view(scopes@), *e),
        e is Cast,
    ensures
        t@ == check_spec(*cx, scopes_view(scopes@), *e).0,
        strs_view(final(out)@) == strs_view(old(out)@) + check_spec(*cx, scopes_view(scopes@), *e).1,
    decreases e, 1nat,
{
    let ghost o0 = strs_view(out@);
    proof {
        lemma_plus_empty(o0);
    }
    match e {
        Expr::Cast { expr, ty } => {
            let from = check_expr(cx, scopes, expr, out);
            push_opt(out, check_cast(&from, ty));
            assert(strs_view(out@) =~= o0 + check_spec(*cx, scopes_view(scopes@), *e).1);
            ty.clone()
        },
        _ => Type::Error,
    }
}

#[verifier::rlimit(100)]
fn check_index_expr(cx: &CheckCtx, scopes: &Vec<Vec<Local>>, e: &Expr, out: &mut Vec<String>) -> (t: Type)
    requires
        cx_ok(*cx),
        check_ok(*cx, scopes_view(scopes@), *e),
        e is Index,
    ensures
        t@ == check_spec(*cx, scopes_view(scopes@), *e).0,
        strs_view(final(out)@) == strs_view(old(out)@) + check_spec(*cx, scopes_view(scopes@), *e).1,
    decreases e, 1nat,
{
    let ghost o0 = strs_view(out@);
    proof {
        lemma_plus_empty(o0);
    }
    match e {
        Expr::Index { object, index, optional } => {
            let ot = check_expr(cx, scopes, object, out);
            let it = check_expr(cx, scopes, index, out);
            let (r, errs) = check_index(&ot, &it, *optional);
            append_msgs(out, errs);
            assert(strs_view(out@) =~= o0 + check_spec(*cx, scopes_view(scopes@), *e).1);
            r
        },
        _ => Type::Error,
    }
}

#[verifier::rlimit(100)]
fn check_slice_expr(cx: &CheckCtx, scopes: &Vec<Vec<Local>>, e: &Expr, out: &mut Vec<String>) -> (t: Type)
    requires
        cx_ok(*cx),
        check_ok(*cx, scopes_view(scopes@), *e),
        e is Slice,
    ensures
        t@ == check_spec(*cx, scopes_view(scopes@), *e).0,
        strs_view(final(out)@) == strs_view(old(out)@) + check_spec(*cx, scopes_view(scopes@), *e).1,
    decreases e, 1nat,
{
    let ghost o0 = strs_view(out@);
    proof {
        lemma_plus_empty(o0);
    }
    match e {
        Expr::Slice { object, start, end } => {
            let ot = check_expr(cx, scopes, object, out);
            let ghost o1 = strs_view(out@);
            match start {
                Some(b) => {
                    let bt = check_expr(cx, scopes, b, out);
                    if !bt.is_integer() {
                        push_msg(out, message1("切片边界必须是整数，实际为 ", &bt, ""));
                    }
                    assert(strs_view(out@) =~= o1 + bound_check(*cx, scopes_view(scopes@), **b));
                },
                None => {},
            }
            let ghost o2 = strs_view(out@);
            match end {
                Some(b) => {
                    let bt = check_expr(cx, scopes, b, out);
                    if !bt.is_integer() {
                        push_msg(out, message1("切片边界必须是整数，实际为 ", &bt, ""));
                    }
                    assert(strs_view(out@) =~= o2 + bound_check(*cx, scopes_view(scopes@), **b));
                },
                None => {},
            }
            let no_bounds: Vec<Type> = Vec::new();
            let (r, errs) = check_slice(&ot, &no_bounds);
            append_msgs(out, errs);
            proof {
                assert(Type::view_all(no_bounds@) =~= Seq::<TypeV>::empty());
            }
            assert(strs_view(out@) =~= o0 + check_spec(*cx, scopes_view(scopes@), *e).1);
            r
        },
        _ => Type::Error,
    }
}

#[verifier::rlimit(100)]
fn check_spread_expr(cx: &CheckCtx, scopes: &Vec<Vec<Local>>, e: &Expr, out: &mut Vec<String>) -> (t: Type)
    requires
        cx_ok(*cx),
        check_ok(*cx, scopes_view(scopes@), *e),
        e is Spread,
    ensures
        t@ == check_spec(*cx, scopes_view(scopes@), *e).0,
        strs_view(final(out)@) == strs_view(old(out)@) + check_spec(*cx, scopes_view(scopes@), *e).1,
    decreases e, 1nat,
{
    let ghost o0 = strs_view(out@);
    proof {
        lemma_plus_empty(o0);
    }
    match e {
        Expr::Spread(inner) => {
            push_msg(out, String::from_str("`...` 展开只能用于数组/对象字面量或调用参数"));
            let t = check_expr(cx, scopes, inner, out);
            assert(strs_view(out@) =~= o0 + check_spec(*cx, scopes_view(scopes@), *e).1);
            t
        },
        _ => Type::Error,
    }
}

#[verifier::rlimit(100)]
fn check_member_expr(cx: &CheckCtx, scopes: &Vec<Vec<Local>>, e: &Expr, out: &mut Vec<String>) -> (t: Type)
    requires
        cx_ok(*cx),
        check_ok(*cx, scopes_view(scopes@), *e),
        e is Member,
    ensures
        t@ == check_spec(*cx, scopes_view(scopes@), *e).0,
        strs_view(final(out)@) == strs_view(old(out)@) + check_spec(*cx, scopes_view(scopes@), *e).1,
    decreases e, 1nat,
{
    let ghost o0 = strs_view(out@);
    proof {
        lemma_plus_empty(o0);
    }
    match e {
        Expr::Member { object, name, optional } => {
            let ot = check_expr(cx, scopes, object, out);
            let (r, errs) = check_member(&cx.types, &ot, name.as_str(), *optional);
            append_msgs(out, errs);
            assert(strs_view(out@) =~= o0 + check_spec(*cx, scopes_view(scopes@), *e).1);
            r
        },
        _ => Type::Error,
    }
}

/// The type of `e`, with the errors its check reports appended to `out` in order
/// (see `check_spec`).
#[verifier::rlimit(50)]
pub fn check_expr(cx: &CheckCtx, scopes: &Vec<Vec<Local>>, e: &Expr, out: &mut Vec<String>) -> (t: Type)
    requires
        cx_ok(*cx),
        check_ok(*cx, scopes_view(scopes@), *e),
    ensures
        t@ == check_spec(*cx, scopes_view(scopes@), *e).0,
        strs_view(final(out)@) == strs_view(old(out)@) + check_spec(*cx, scopes_view(scopes@), *e).1,
    decreases e, 2nat,
{
    let ghost o0 = strs_view(out@);
    proof {
        lemma_plus_empty(o0);
    }
    match e {
        Expr::Ident(name) => {
            let r = match resolve_exec(cx, scopes, name.as_str()) {
                Some((t, _)) => t,
                None => {
                    push_msg(out, quoted_msg("未定义的名称 `", name.as_str(), "`"));
                    Type::Error
                },
            };
            assert(r@ == check_spec(*cx, scopes_view(scopes@), *e).0);
            r
        },
        Expr::This => {
            let r = match cx.this_class {
                Some(c) => Type::Class(c),
                None => {
                    push_msg(out, String::from_str("`this` 只能在类方法中使用"));
                    Type::Error
                },
            };
            assert(r@ == check_spec(*cx, scopes_view(scopes@), *e).0);
            r
        },
        Expr::Super => {
            let base = match cx.this_class {
                Some(c) => cx.types.classes[c as usize].base,
                None => None,
            };
            let r = match base {
                Some(b) => Type::Class(b),
                None => {
                    push_msg(out, String::from_str("`super` 只能在有基类的类中使用"));
                    Type::Error
                },
            };
            assert(r@ == check_spec(*cx, scopes_view(scopes@), *e).0);
            r
        },
        Expr::Group(inner) => check_expr(cx, scopes, inner, out),
        Expr::Unary { .. } => check_unary_expr(cx, scopes, e, out),
        Expr::Postfix { .. } => check_postfix_expr(cx, scopes, e, out),
        Expr::Binary { .. } => check_binary_expr(cx, scopes, e, out),
        Expr::Assign { .. } => check_assign_expr(cx, scopes, e, out),
        Expr::Conditional { .. } => check_conditional_expr(cx, scopes, e, out),
        Expr::Cast { .. } => check_cast_expr(cx, scopes, e, out),
        Expr::Index { .. } => check_index_expr(cx, scopes, e, out),
        Expr::Slice { .. } => check_slice_expr(cx, scopes, e, out),
        Expr::Spread(_) => check_spread_expr(cx, scopes, e, out),
        Expr::Member { .. } => check_member_expr(cx, scopes, e, out),
        Expr::Array(items) => {
            let first = check_items(cx, scopes, items, out);
            assert(check_spec(*cx, scopes_view(scopes@), *e) == (match array_walk(*cx, scopes_view(scopes@), items@).0 {
                Some(t) => TypeV::Array(Box::new(t)),
                None => TypeV::Array(Box::new(TypeV::Error)),
            }, array_walk(*cx, scopes_view(scopes@), items@).1));
            let elem = match first {
                Some(t) => t,
                None => Type::Error,
            };
            let ghost ev = elem@;
            assert(check_spec(*cx, scopes_view(scopes@), *e).0 == TypeV::Array(Box::new(ev)));
            let r = Type::Array(Box::new(elem));
            assert(r@ == TypeV::Array(Box::new(ev)));
            assert(r@ == check_spec(*cx, scopes_view(scopes@), *e).0);
            r
        },
        Expr::Call { name, args } => check_call(cx, scopes, name.as_str(), args, out),
        Expr::Typed(t) => t.clone(),
        _ => {
            let r = match literal_type(e) {
                Some(t) => t,
                None => Type::Error,
            };
            assert(r@ == check_spec(*cx, scopes_view(scopes@), *e).0);
            r
        },
    }
}

} // verus!
