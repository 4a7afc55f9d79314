//! The pieces of lowering to the intermediate representation that do not read the
//! syntax tree: operator names, the built-in string methods, stable symbol names,
//! default values and integer literals.

use vstd::prelude::*;

use crate::mir::{MirBinary, MirCallee, MirExpr, MirFunction, MirLocal, MirStmt, MirStmtKind, MirTarget};
use crate::symbols::{
    base_chain, chain_ends, chain_finite, lemma_chain_suffix, FunctionSig, ModuleId, ParamSig, Span, TypeTable,
};
use crate::typing::{param_view, sig_view, sig_with_ret, SigV};
use crate::text::{chars_of, decimal, digit_char, push_decimal, push_str, same_text, starts_with, string_from_chars};
use crate::types::{lemma_view_all, lemma_view_all_push, Type, TypeV};

verus! {

// ---------------------------------------------------------------------------
// Operators.
// ---------------------------------------------------------------------------

/// The binary operators of the source language.
#[derive(Clone, Copy, Debug, PartialEq, Eq, Structural)]
pub enum BinaryOp {
    Add,
    Sub,
    Mul,
    Div,
    Rem,
    Pow,
    Eq,
    Ne,
    Lt,
    Le,
    Gt,
    Ge,
    And,
    Or,
    Coalesce,
    BitAnd,
    BitOr,
    BitXor,
    Shl,
    Shr,
}

/// The source text of a binary operator.
pub open spec fn op_text(op: BinaryOp) -> Seq<char> {
    match op {
        BinaryOp::Add => "+"@,
        BinaryOp::Sub => "-"@,
        BinaryOp::Mul => "*"@,
        BinaryOp::Div => "/"@,
        BinaryOp::Rem => "%"@,
        BinaryOp::Pow => "**"@,
        BinaryOp::Eq => "=="@,
        BinaryOp::Ne => "!="@,
        BinaryOp::Lt => "<"@,
        BinaryOp::Le => "<="@,
        BinaryOp::Gt => ">"@,
        BinaryOp::Ge => ">="@,
        BinaryOp::And => "&&"@,
        BinaryOp::Or => "||"@,
        BinaryOp::Coalesce => "??"@,
        BinaryOp::BitAnd => "&"@,
        BinaryOp::BitOr => "|"@,
        BinaryOp::BitXor => "^"@,
        BinaryOp::Shl => "<<"@,
        BinaryOp::Shr => ">>"@,
    }
}

/// The source text of a binary operator, for messages.
pub fn binary_op_name(op: &BinaryOp) -> (r: &'static str)
    ensures
        r@ == op_text(*op),
{
    match op {
        BinaryOp::Add => "+",
        BinaryOp::Sub => "-",
        BinaryOp::Mul => "*",
        BinaryOp::Div => "/",
        BinaryOp::Rem => "%",
        BinaryOp::Pow => "**",
        BinaryOp::Eq => "==",
        BinaryOp::Ne => "!=",
        BinaryOp::Lt => "<",
        BinaryOp::Le => "<=",
        BinaryOp::Gt => ">",
        BinaryOp::Ge => ">=",
        BinaryOp::And => "&&",
        BinaryOp::Or => "||",
        BinaryOp::Coalesce => "??",
        BinaryOp::BitAnd => "&",
        BinaryOp::BitOr => "|",
        BinaryOp::BitXor => "^",
        BinaryOp::Shl => "<<",
        BinaryOp::Shr => ">>",
    }
}

/// The intermediate operator of a source operator.
pub open spec fn mir_op(op: BinaryOp) -> MirBinary {
    match op {
        BinaryOp::Add => MirBinary::Add,
        BinaryOp::Sub => MirBinary::Sub,
        BinaryOp::Mul => MirBinary::Mul,
        BinaryOp::Div => MirBinary::Div,
        BinaryOp::Rem => MirBinary::Rem,
        BinaryOp::Pow => MirBinary::Pow,
        BinaryOp::Eq => MirBinary::Eq,
        BinaryOp::Ne => MirBinary::Ne,
        BinaryOp::Lt => MirBinary::Lt,
        BinaryOp::Le => MirBinary::Le,
        BinaryOp::Gt => MirBinary::Gt,
        BinaryOp::Ge => MirBinary::Ge,
        BinaryOp::And => MirBinary::And,
        BinaryOp::Or => MirBinary::Or,
        BinaryOp::Coalesce => MirBinary::Coalesce,
        BinaryOp::BitAnd => MirBinary::BitAnd,
        BinaryOp::BitOr => MirBinary::BitOr,
        BinaryOp::BitXor => MirBinary::BitXor,
        BinaryOp::Shl => MirBinary::Shl,
        BinaryOp::Shr => MirBinary::Shr,
    }
}

/// Each source operator lowers to the intermediate operator of the same meaning:
/// `+` to addition, `<<` to a left shift, `>>` to a right shift, `&&` to logical and,
/// and so on for every operator.
pub proof fn lemma_mir_op_same_meaning()
    ensures
        mir_op(BinaryOp::Add) == MirBinary::Add,
        mir_op(BinaryOp::Sub) == MirBinary::Sub,
        mir_op(BinaryOp::Mul) == MirBinary::Mul,
        mir_op(BinaryOp::Div) == MirBinary::Div,
        mir_op(BinaryOp::Rem) == MirBinary::Rem,
        mir_op(BinaryOp::Pow) == MirBinary::Pow,
        mir_op(BinaryOp::Eq) == MirBinary::Eq,
        mir_op(BinaryOp::Ne) == MirBinary::Ne,
        mir_op(BinaryOp::Lt) == MirBinary::Lt,
        mir_op(BinaryOp::Le) == MirBinary::Le,
        mir_op(BinaryOp::Gt) == MirBinary::Gt,
        mir_op(BinaryOp::Ge) == MirBinary::Ge,
        mir_op(BinaryOp::And) == MirBinary::And,
        mir_op(BinaryOp::Or) == MirBinary::Or,
        mir_op(BinaryOp::Coalesce) == MirBinary::Coalesce,
        mir_op(BinaryOp::BitAnd) == MirBinary::BitAnd,
        mir_op(BinaryOp::BitOr) == MirBinary::BitOr,
        mir_op(BinaryOp::BitXor) == MirBinary::BitXor,
        mir_op(BinaryOp::Shl) == MirBinary::Shl,
        mir_op(BinaryOp::Shr) == MirBinary::Shr,
{
}

/// The intermediate operator of a source operator.
pub fn mir_binary(op: &BinaryOp) -> (r: MirBinary)
    ensures
        r == mir_op(*op),
{
    match op {
        BinaryOp::Add => MirBinary::Add,
        BinaryOp::Sub => MirBinary::Sub,
        BinaryOp::Mul => MirBinary::Mul,
        BinaryOp::Div => MirBinary::Div,
        BinaryOp::Rem => MirBinary::Rem,
        BinaryOp::Pow => MirBinary::Pow,
        BinaryOp::Eq => MirBinary::Eq,
        BinaryOp::Ne => MirBinary::Ne,
        BinaryOp::Lt => MirBinary::Lt,
        BinaryOp::Le => MirBinary::Le,
        BinaryOp::Gt => MirBinary::Gt,
        BinaryOp::Ge => MirBinary::Ge,
        BinaryOp::And => MirBinary::And,
        BinaryOp::Or => MirBinary::Or,
        BinaryOp::Coalesce => MirBinary::Coalesce,
        BinaryOp::BitAnd => MirBinary::BitAnd,
        BinaryOp::BitOr => MirBinary::BitOr,
        BinaryOp::BitXor => MirBinary::BitXor,
        BinaryOp::Shl => MirBinary::Shl,
        BinaryOp::Shr => MirBinary::Shr,
    }
}

/// Types that `+` joins to a string.
pub fn concatable_with_string(ty: &Type) -> (r: bool)
    ensures
        r == (ty is Str || ty is Int || ty is F32 || ty is F64 || ty is Bool || ty is Char),
{
    matches!(ty, Type::Str | Type::Int | Type::F32 | Type::F64 | Type::Bool | Type::Char)
}

// ---------------------------------------------------------------------------
// Values by type.
// ---------------------------------------------------------------------------

/// The base of a possibly nullable type.
pub open spec fn base_of(t: TypeV) -> TypeV {
    match t {
        TypeV::Nullable(x) => *x,
        _ => t,
    }
}

/// The value that `?.` gives when the object is `null`: `0.0` for floating-point
/// results (as its bits, all zero), `null` for references, `0` otherwise.
pub fn optional_fallback(ty: &Type) -> (r: MirExpr)
    ensures
        match base_of(ty@) {
            TypeV::F32 | TypeV::F64 => r matches MirExpr::Float(b) && b == 0,
            TypeV::Str | TypeV::Array(_) | TypeV::Class(_) | TypeV::Ptr(_) | TypeV::Null => r is Null,
            _ => r matches MirExpr::Int(v) && v == 0,
        },
{
    let t = ty.without_nullable();
    assert(t@ == base_of(ty@));
    match t {
        Type::F32 | Type::F64 => MirExpr::Float(0),
        _ => if t.is_reference() {
            MirExpr::Null
        } else {
            MirExpr::Int(0)
        },
    }
}

/// The runtime's tag of a variadic argument: 1 floating point, 2 string, 3 bool,
/// 4 char, 0 the rest (nullables by their base type).
pub open spec fn vararg_tag_spec(t: TypeV) -> i64 {
    match base_of(t) {
        TypeV::F32 | TypeV::F64 => 1,
        TypeV::Str => 2,
        TypeV::Bool => 3,
        TypeV::Char => 4,
        _ => 0,
    }
}

/// The runtime's tag of a variadic argument's type.
pub fn vararg_tag(ty: &Type) -> (r: i64)
    ensures
        r == vararg_tag_spec(ty@),
{
    let t = ty.without_nullable();
    assert(t@ == base_of(ty@));
    match t {
        Type::F32 | Type::F64 => 1,
        Type::Str => 2,
        Type::Bool => 3,
        Type::Char => 4,
        _ => 0,
    }
}

/// The runtime function that turns a value of a type into a string.
pub open spec fn to_string_intrinsic(t: TypeV) -> Seq<char> {
    match t {
        TypeV::F32 | TypeV::F64 => "float_to_string"@,
        TypeV::Bool => "bool_to_string"@,
        TypeV::Char => "char_to_string"@,
        _ => "int_to_string"@,
    }
}

/// The expression that turns `value`, of type `ty`, into a string: itself for a
/// string, else a call of the runtime's conversion.
pub fn to_string_expr(value: MirExpr, ty: &Type) -> (r: MirExpr)
    ensures
        ty@ == TypeV::Str ==> r == value,
        ty@ != TypeV::Str ==> (r matches MirExpr::Call { callee: MirCallee::Intrinsic { name }, args } && name@
            == to_string_intrinsic(ty@) && args@ == seq![value]),
{
    if matches!(ty, Type::Str) {
        return value;
    }
    let name: &str = match ty {
        Type::F32 | Type::F64 => "float_to_string",
        Type::Bool => "bool_to_string",
        Type::Char => "char_to_string",
        _ => "int_to_string",
    };
    let ghost v = value;
    let mut args: Vec<MirExpr> = Vec::new();
    args.push(value);
    assert(args@ =~= seq![v]);
    MirExpr::Call { callee: MirCallee::Intrinsic { name: String::from_str(name) }, args }
}

// ---------------------------------------------------------------------------
// Operators.
// ---------------------------------------------------------------------------

/// A call of the runtime function `name` with `args`.
pub open spec fn is_intrinsic_call(e: MirExpr, name: Seq<char>, args: Seq<MirExpr>) -> bool {
    e matches MirExpr::Call { callee: MirCallee::Intrinsic { name: n }, args: a } && n@ == name && a@ == args
}

/// `value` turned into a string (see `to_string_expr`).
pub open spec fn is_string_of(e: MirExpr, value: MirExpr, t: TypeV) -> bool {
    if t == TypeV::Str {
        e == value
    } else {
        is_intrinsic_call(e, to_string_intrinsic(t), seq![value])
    }
}

/// A string concatenation applies: one side is a string and the other can be turned
/// into one.
pub open spec fn concat_applies(op: BinaryOp, l: TypeV, r: TypeV) -> bool {
    op == BinaryOp::Add && ((l == TypeV::Str && concatable_v(r)) || (r == TypeV::Str && l != TypeV::Str
        && concatable_v(l)))
}

/// The types that `+` can join to a string.
pub open spec fn concatable_v(t: TypeV) -> bool {
    t is Str || t is Int || t is F32 || t is F64 || t is Bool || t is Char
}

fn call_intrinsic(name: &str, a: MirExpr, b: MirExpr) -> (r: MirExpr)
    ensures
        is_intrinsic_call(r, name@, seq![a, b]),
{
    let ghost (va, vb) = (a, b);
    let mut args: Vec<MirExpr> = Vec::new();
    args.push(a);
    args.push(b);
    assert(args@ =~= seq![va, vb]);
    MirExpr::Call { callee: MirCallee::Intrinsic { name: String::from_str(name) }, args }
}

/// Lowers `left op right` from its lowered operands and the operands' types:
/// - `+` with a string on one side and on the other a value that can be turned into
///   one: the runtime's `string_concat` of both, the other side turned into a string;
/// - `**`: the runtime's `pow_f64` for a floating-point left operand, else `pow_i64`;
/// - `%` on a floating-point left operand: the runtime's `frem_f64`;
/// - `==` and `!=` on strings: the runtime's `string_eq` and `string_ne`;
/// - the equality of two struct values is no single operation: `None` (it compares
///   the fields one by one);
/// - anything else: the operator itself.
pub fn lower_binary(op: BinaryOp, left_ty: &Type, right_ty: &Type, left: MirExpr, right: MirExpr) -> (r: Option<MirExpr>)
    ensures
        concat_applies(op, left_ty@, right_ty@) ==> (r matches Some(e) && e matches MirExpr::Call {
            callee: MirCallee::Intrinsic { name },
            args,
        } && name@ == "string_concat"@ && args@.len() == 2 && is_string_of(args@[0], left, left_ty@)
            && is_string_of(args@[1], right, right_ty@)),
        !concat_applies(op, left_ty@, right_ty@) && (op == BinaryOp::Eq || op == BinaryOp::Ne)
            && left_ty@ is Struct ==> r is None,
        !concat_applies(op, left_ty@, right_ty@) && !((op == BinaryOp::Eq || op == BinaryOp::Ne)
            && left_ty@ is Struct) ==> (r matches Some(e) && if op == BinaryOp::Pow {
            is_intrinsic_call(
                e,
                if left_ty@ is F32 || left_ty@ is F64 {
                    "pow_f64"@
                } else {
                    "pow_i64"@
                },
                seq![left, right],
            )
        } else if op == BinaryOp::Rem && (left_ty@ is F32 || left_ty@ is F64) {
            is_intrinsic_call(e, "frem_f64"@, seq![left, right])
        } else if (op == BinaryOp::Eq || op == BinaryOp::Ne) && left_ty@ == TypeV::Str {
            is_intrinsic_call(
                e,
                if op == BinaryOp::Eq {
                    "string_eq"@
                } else {
                    "string_ne"@
                },
                seq![left, right],
            )
        } else {
            e == MirExpr::Binary { op: mir_op(op), left: Box::new(left), right: Box::new(right) }
        }),
{
    let is_add = match op {
        BinaryOp::Add => true,
        _ => false,
    };
    let left_str = match left_ty {
        Type::Str => true,
        _ => false,
    };
    let right_str = match right_ty {
        Type::Str => true,
        _ => false,
    };
    if is_add && left_str && concatable_with_string(right_ty) {
        let r = to_string_expr(right, right_ty);
        return Some(call_intrinsic("string_concat", left, r));
    }
    if is_add && right_str && !left_str && concatable_with_string(left_ty) {
        let l = to_string_expr(left, left_ty);
        return Some(call_intrinsic("string_concat", l, right));
    }
    let is_eq = match op {
        BinaryOp::Eq => true,
        _ => false,
    };
    let is_ne = match op {
        BinaryOp::Ne => true,
        _ => false,
    };
    let left_struct = match left_ty {
        Type::Struct(_) => true,
        _ => false,
    };
    if (is_eq || is_ne) && left_struct {
        return None;
    }
    let is_pow = match op {
        BinaryOp::Pow => true,
        _ => false,
    };
    let is_rem = match op {
        BinaryOp::Rem => true,
        _ => false,
    };
    if is_pow {
        let name = if left_ty.is_float() {
            "pow_f64"
        } else {
            "pow_i64"
        };
        return Some(call_intrinsic(name, left, right));
    }
    if is_rem && left_ty.is_float() {
        return Some(call_intrinsic("frem_f64", left, right));
    }
    if (is_eq || is_ne) && left_str {
        let name = if is_eq {
            "string_eq"
        } else {
            "string_ne"
        };
        return Some(call_intrinsic(name, left, right));
    }
    Some(MirExpr::Binary { op: mir_binary(&op), left: Box::new(left), right: Box::new(right) })
}

/// The error when `++`/`--` has no assignable target.
pub const STEP_TARGET_MESSAGE: &'static str = "`++`/`--` 需要可赋值的数值目标";

/// Lowers a prefix `++x` or `--x` (`decrement`: `--`): an assignment of `x + 1` (or
/// `x - 1`, `current` being the lowered `x`) to the target, which yields the new
/// value; without an assignable target, the value 0 and an error.
pub fn lower_prefix_step(decrement: bool, target: Option<MirTarget>, current: MirExpr) -> (r: (MirExpr, Option<String>))
    ensures
        match target {
            Some(t) => r.1 is None && r.0 == MirExpr::Assign {
                target: t,
                value: Box::new(
                    MirExpr::Binary {
                        op: if decrement {
                            MirBinary::Sub
                        } else {
                            MirBinary::Add
                        },
                        left: Box::new(current),
                        right: Box::new(MirExpr::Int(1)),
                    },
                ),
            },
            None => r.0 == MirExpr::Int(0) && (r.1 matches Some(m) && m@ == STEP_TARGET_MESSAGE@),
        },
{
    match target {
        Some(t) => {
            let op = if decrement {
                MirBinary::Sub
            } else {
                MirBinary::Add
            };
            let value = MirExpr::Binary { op, left: Box::new(current), right: Box::new(MirExpr::Int(1)) };
            (MirExpr::Assign { target: t, value: Box::new(value) }, None)
        },
        None => (MirExpr::Int(0), Some(String::from_str(STEP_TARGET_MESSAGE))),
    }
}

/// Lowers a postfix `x++` or `x--`: a postfix step of the target, which writes the
/// new value and yields the old one; without an assignable target, the value 0 and an
/// error.
pub fn lower_postfix_step(decrement: bool, target: Option<MirTarget>) -> (r: (MirExpr, Option<String>))
    ensures
        match target {
            Some(t) => r.1 is None && r.0 == MirExpr::Postfix {
                target: t,
                op: if decrement {
                    crate::mir::MirUnary::Dec
                } else {
                    crate::mir::MirUnary::Inc
                },
            },
            None => r.0 == MirExpr::Int(0) && (r.1 matches Some(m) && m@ == STEP_TARGET_MESSAGE@),
        },
{
    match target {
        Some(t) => {
            let op = if decrement {
                crate::mir::MirUnary::Dec
            } else {
                crate::mir::MirUnary::Inc
            };
            (MirExpr::Postfix { target: t, op }, None)
        },
        None => (MirExpr::Int(0), Some(String::from_str(STEP_TARGET_MESSAGE))),
    }
}

/// The error when an assignment expression cannot be lowered.
pub const ASSIGN_LOWERING_MESSAGE: &'static str = "赋值表达式降级失败";

/// Lowers an assignment expression `x = v` or `x op= v` from its lowered target and
/// value (for `op=`, the value already combines `x` and `v`): an assignment, which
/// yields the value assigned; without them, the value 0 and an error.
pub fn lower_assign_expr(parts: Option<(MirTarget, MirExpr)>) -> (r: (MirExpr, Option<String>))
    ensures
        match parts {
            Some((t, v)) => r.1 is None && r.0 == MirExpr::Assign { target: t, value: Box::new(v) },
            None => r.0 == MirExpr::Int(0) && (r.1 matches Some(m) && m@ == ASSIGN_LOWERING_MESSAGE@),
        },
{
    match parts {
        Some((t, v)) => (MirExpr::Assign { target: t, value: Box::new(v) }, None),
        None => (MirExpr::Int(0), Some(String::from_str(ASSIGN_LOWERING_MESSAGE))),
    }
}

// ---------------------------------------------------------------------------
// Stable symbol names.
// ---------------------------------------------------------------------------

/// The letters that stand for a parameter type in symbol names of overloads. Each type
/// has its own: a letter for `int` (`i`), `uint` (`u`), `f64` (`f`), `f32` (`g`),
/// `string` (`s`), `bool` (`b`), `char` (`c`), `void` (`v`); `I` or `U` and the width
/// for the sized integers (`I08` … `I64`, `Isz`, `U08` … `U64`, `Usz`); `a` (array), `n`
/// (nullable) or `p` (pointer) before the element type; `S`, `E`, `C` or `N` (struct,
/// enum, class, interface), the declaration's number and `_`; `T`, the name's length,
/// `_` and the name of a generic parameter; `F`, the number of parameters, `_`, the
/// parameters' letters and the result's of a function type; `z`, `q` and `x` for the
/// `null` type, a type still unknown and an erroneous type.
pub open spec fn abbrev(t: TypeV) -> Seq<char>
    decreases t,
{
    match t {
        TypeV::Void => "v"@,
        TypeV::Bool => "b"@,
        TypeV::Char => "c"@,
        TypeV::Str => "s"@,
        TypeV::Int => "i"@,
        TypeV::UInt => "u"@,
        TypeV::F64 => "f"@,
        TypeV::F32 => "g"@,
        TypeV::I8 => "I08"@,
        TypeV::I16 => "I16"@,
        TypeV::I32 => "I32"@,
        TypeV::I64 => "I64"@,
        TypeV::Isize => "Isz"@,
        TypeV::U8 => "U08"@,
        TypeV::U16 => "U16"@,
        TypeV::U32 => "U32"@,
        TypeV::U64 => "U64"@,
        TypeV::Usize => "Usz"@,
        TypeV::Null => "z"@,
        TypeV::Unknown => "q"@,
        TypeV::Error => "x"@,
        TypeV::Array(inner) => "a"@ + abbrev(*inner),
        TypeV::Nullable(inner) => "n"@ + abbrev(*inner),
        TypeV::Ptr(inner) => "p"@ + abbrev(*inner),
        TypeV::Struct(id) => "S"@ + decimal(id as nat) + "_"@,
        TypeV::Enum(id) => "E"@ + decimal(id as nat) + "_"@,
        TypeV::Class(id) => "C"@ + decimal(id as nat) + "_"@,
        TypeV::Interface(id) => "N"@ + decimal(id as nat) + "_"@,
        TypeV::TypeParam(name) => "T"@ + decimal(name.len()) + "_"@ + name,
        TypeV::Function(ps, ret) => "F"@ + decimal(ps.len()) + "_"@ + abbrev_seq(ps) + abbrev(*ret),
    }
}

/// The letters of a sequence of types, in order.
pub open spec fn abbrev_seq(ps: Seq<TypeV>) -> Seq<char>
    decreases ps,
{
    if ps.len() == 0 {
        Seq::empty()
    } else {
        abbrev_seq(ps.drop_last()) + abbrev(ps.last())
    }
}

fn push_id(out: &mut Vec<char>, tag: &str, id: u32)
    ensures
        final(out)@ == old(out)@ + tag@ + decimal(id as nat) + "_"@,
{
    push_str(out, tag);
    push_decimal(out, id as u64);
    push_str(out, "_");
}

fn push_abbrev(out: &mut Vec<char>, ty: &Type)
    ensures
        final(out)@ == old(out)@ + abbrev(ty@),
    decreases ty,
{
    let ghost start = out@;
    match ty {
        Type::Void => push_str(out, "v"),
        Type::Bool => push_str(out, "b"),
        Type::Char => push_str(out, "c"),
        Type::Str => push_str(out, "s"),
        Type::Int => push_str(out, "i"),
        Type::UInt => push_str(out, "u"),
        Type::F64 => push_str(out, "f"),
        Type::F32 => push_str(out, "g"),
        Type::I8 => push_str(out, "I08"),
        Type::I16 => push_str(out, "I16"),
        Type::I32 => push_str(out, "I32"),
        Type::I64 => push_str(out, "I64"),
        Type::Isize => push_str(out, "Isz"),
        Type::U8 => push_str(out, "U08"),
        Type::U16 => push_str(out, "U16"),
        Type::U32 => push_str(out, "U32"),
        Type::U64 => push_str(out, "U64"),
        Type::Usize => push_str(out, "Usz"),
        Type::Null => push_str(out, "z"),
        Type::Unknown => push_str(out, "q"),
        Type::Error => push_str(out, "x"),
        Type::Array(inner) => {
            push_str(out, "a");
            push_abbrev(out, inner);
        },
        Type::Nullable(inner) => {
            push_str(out, "n");
            push_abbrev(out, inner);
        },
        Type::Ptr(inner) => {
            push_str(out, "p");
            push_abbrev(out, inner);
        },
        Type::Struct(id) => push_id(out, "S", *id),
        Type::Enum(id) => push_id(out, "E", *id),
        Type::Class(id) => push_id(out, "C", *id),
        Type::Interface(id) => push_id(out, "N", *id),
        Type::TypeParam(name) => {
            push_str(out, "T");
            push_decimal(out, name.unicode_len() as u64);
            push_str(out, "_");
            push_str(out, name.as_str());
        },
        Type::Function { params, ret } => {
            proof {
                lemma_view_all(params@);
            }
            push_str(out, "F");
            push_decimal(out, params.len() as u64);
            push_str(out, "_");
            let ghost head = out@;
            let mut i: usize = 0;
            while i < params.len()
                invariant
                    i <= params@.len(),
                    ty is Function,
                    ty->Function_params == *params,
                    Type::view_all(params@).len() == params@.len(),
                    forall|j: int| 0 <= j < params@.len() ==> #[trigger] Type::view_all(params@)[j] == params@[j]@,
                    out@ == head + abbrev_seq(Type::view_all(params@).take(i as int)),
                decreases params@.len() - i,
            {
                proof {
                    assert(decreases_to!(*ty => ty->Function_params));
                    assert(decreases_to!(ty->Function_params => params@));
                    assert(decreases_to!(params@ => params@[i as int]));
                }
                push_abbrev(out, &params[i]);
                proof {
                    let vs = Type::view_all(params@);
                    assert(vs.take(i + 1).drop_last() =~= vs.take(i as int));
                    assert(vs.take(i + 1).last() == params@[i as int]@);
                }
                i += 1;
            }
            proof {
                assert(Type::view_all(params@).take(i as int) =~= Type::view_all(params@));
            }
            push_abbrev(out, ret);
        },
    }
    assert(out@ =~= start + abbrev(ty@));
}

/// The stable letters of a parameter type (see `abbrev`).
pub fn type_abbrev(ty: &Type) -> (r: String)
    ensures
        r@ == abbrev(ty@),
{
    let mut out: Vec<char> = Vec::new();
    push_abbrev(&mut out, ty);
    assert(out@ =~= abbrev(ty@));
    string_from_chars(&out)
}

/// The letters of the parameter types of a signature, in order.
pub open spec fn abbrevs(params: Seq<crate::symbols::ParamSig>) -> Seq<char>
    decreases params.len(),
{
    if params.len() == 0 {
        Seq::empty()
    } else {
        abbrevs(params.drop_last()) + abbrev(params.last().ty@)
    }
}

/// The symbol of a function: `sw_user_main` for `main` (the runtime's `main` calls
/// it), else `sw_fn_`, the module's file stem, `_` and the name, and for functions
/// with parameters `_` and the letters of their types, which tell overloads apart
/// (`naming::lemma_stable_names_tell_overloads_apart`).
pub open spec fn stable_name(sig: FunctionSig, stem: Seq<char>) -> Seq<char> {
    if sig.name@ == "main"@ {
        "sw_user_main"@
    } else {
        let a = abbrevs(sig.params@);
        "sw_fn_"@ + stem + "_"@ + sig.name@ + (if a.len() == 0 {
            Seq::empty()
        } else {
            "_"@ + a
        })
    }
}

/// The stable symbol of a function of the module with file stem `module_stem`.
pub fn stable_function_name(sig: &FunctionSig, module_stem: &str) -> (r: String)
    ensures
        r@ == stable_name(*sig, module_stem@),
{
    if same_text(sig.name.as_str(), "main") {
        return String::from_str("sw_user_main");
    }
    let mut letters: Vec<char> = Vec::new();
    let mut i: usize = 0;
    while i < sig.params.len()
        invariant
            i <= sig.params@.len(),
            letters@ == abbrevs(sig.params@.take(i as int)),
        decreases sig.params@.len() - i,
    {
        push_abbrev(&mut letters, &sig.params[i].ty);
        assert(sig.params@.take(i + 1).drop_last() =~= sig.params@.take(i as int));
        i += 1;
    }
    assert(sig.params@.take(i as int) =~= sig.params@);
    let mut out: Vec<char> = Vec::new();
    push_str(&mut out, "sw_fn_");
    push_str(&mut out, module_stem);
    push_str(&mut out, "_");
    push_str(&mut out, sig.name.as_str());
    let ghost before = out@;
    if letters.len() > 0 {
        push_str(&mut out, "_");
        let l = string_from_chars(&letters);
        push_str(&mut out, l.as_str());
    }
    assert(out@ =~= stable_name(*sig, module_stem@));
    string_from_chars(&out)
}

/// The signature that stands in for an unknown callee after an error.
pub fn placeholder_sig() -> (r: FunctionSig)
    ensures
        r.module == ModuleId(0),
        r.name@ == Seq::<char>::empty(),
        r.generics@.len() == 0,
        r.params@.len() == 0,
        r.ret@ == TypeV::Error,
        !r.extern_c,
        r.span == (Span { start: 0, end: 0 }),
{
    FunctionSig {
        module: ModuleId(0),
        name: String::new(),
        generics: Vec::new(),
        params: Vec::new(),
        ret: Type::Error,
        extern_c: false,
        span: Span { start: 0, end: 0 },
    }
}

/// The fields of a class's base classes, which come first in its layout.
pub open spec fn ancestor_fields(types: TypeTable, chain: Seq<u32>) -> int
    decreases chain.len(),
{
    if chain.len() == 0 {
        0
    } else {
        ancestor_fields(types, chain.drop_last()) + types.classes@[chain.last() as int].fields@.len()
    }
}

proof fn lemma_ancestor_fields_prefix(types: TypeTable, s: Seq<u32>, i: int)
    requires
        0 <= i <= s.len(),
    ensures
        ancestor_fields(types, s.take(i)) <= ancestor_fields(types, s),
    decreases s.len() - i,
{
    if i < s.len() {
        lemma_ancestor_fields_prefix(types, s, i + 1);
        assert(s.take(i + 1).drop_last() =~= s.take(i));
    } else {
        assert(s.take(i) =~= s);
    }
}

/// The number of fields that a class's base classes (not the class itself) hold.
pub fn ancestor_field_count(types: &TypeTable, class_id: u32) -> (r: usize)
    requires
        chain_finite(types.classes@, class_id),
        ancestor_fields(*types, base_chain(types.classes@, class_id).skip(1)) <= usize::MAX,
    ensures
        r == ancestor_fields(*types, base_chain(types.classes@, class_id).skip(1)),
{
    let chain = types.class_base_chain(class_id);
    let ghost rest = chain@.skip(1);
    proof {
        let n = choose|n: nat| chain_ends(types.classes@, class_id, n);
        assert forall|j: int| 0 <= j < chain@.len() implies #[trigger] chain@[j] < types.classes@.len() by {
            lemma_chain_suffix(types.classes@, class_id, n, j);
        }
    }
    let mut total: usize = 0;
    let mut i: usize = 1;
    while i < chain.len()
        invariant
            1 <= i,
            i <= chain@.len() || chain@.len() == 0,
            chain@ == base_chain(types.classes@, class_id),
            rest == chain@.skip(1),
            forall|j: int| 0 <= j < chain@.len() ==> #[trigger] chain@[j] < types.classes@.len(),
            ancestor_fields(*types, rest) <= usize::MAX,
            total == ancestor_fields(*types, rest.take(i - 1)),
        decreases chain@.len() - i,
    {
        proof {
            assert(rest.take(i as int).drop_last() =~= rest.take(i - 1));
            lemma_ancestor_fields_prefix(*types, rest, i as int);
        }
        total = total + types.classes[chain[i] as usize].fields.len();
        i += 1;
    }
    proof {
        if chain@.len() > 0 {
            assert(rest.take(chain@.len() - 1) =~= rest);
        } else {
            assert(rest.take(0) =~= rest);
        }
    }
    total
}

// ---------------------------------------------------------------------------
// The built-in string methods.
// ---------------------------------------------------------------------------

/// Part 1 of the table of English string methods (see `english_method`).
pub open spec fn string_methods_0(m: Seq<char>) -> Option<(Seq<char>, Seq<TypeV>, TypeV)> {
    if m == "to_upper"@ {
        Some(("to_upper"@, seq![], TypeV::Str))
    } else if m == "to_lower"@ {
        Some(("to_lower"@, seq![], TypeV::Str))
    } else if m == "trim"@ {
        Some(("trim"@, seq![], TypeV::Str))
    } else if m == "trim_left"@ {
        Some(("trim_left"@, seq![], TypeV::Str))
    } else if m == "trim_right"@ {
        Some(("trim_right"@, seq![], TypeV::Str))
    } else if m == "ends_with"@ {
        Some(("ends_with"@, seq![TypeV::Str], TypeV::Bool))
    } else if m == "lines"@ {
        Some(("lines"@, seq![], TypeV::Array(Box::new(TypeV::Str))))
    } else if m == "split_whitespace"@ {
        Some(("split_whitespace"@, seq![], TypeV::Array(Box::new(TypeV::Str))))
    } else if m == "chars"@ {
        Some(("chars"@, seq![], TypeV::Array(Box::new(TypeV::Str))))
    } else if m == "count"@ {
        Some(("count"@, seq![TypeV::Str], TypeV::Int))
    } else if m == "last_index_of"@ {
        Some(("last_index_of"@, seq![TypeV::Str], TypeV::Int))
    } else if m == "is_ascii"@ {
        Some(("is_ascii"@, seq![], TypeV::Bool))
    } else if m == "escape"@ {
        Some(("escape"@, seq![], TypeV::Str))
    } else if m == "unescape"@ {
        Some(("unescape"@, seq![], TypeV::Str))
    } else {
        string_methods_1(m)
    }
}

/// Part 2 of the table of English string methods (see `english_method`).
pub open spec fn string_methods_1(m: Seq<char>) -> Option<(Seq<char>, Seq<TypeV>, TypeV)> {
    if m == "is_empty"@ {
        Some(("is_empty"@, seq![], TypeV::Bool))
    } else if m == "utf8_is_valid"@ {
        Some(("utf8_is_valid"@, seq![], TypeV::Bool))
    } else if m == "truncate"@ {
        Some(("truncate"@, seq![TypeV::Int], TypeV::Str))
    } else if m == "ellipsis"@ {
        Some(("ellipsis"@, seq![TypeV::Int], TypeV::Str))
    } else if m == "contains"@ {
        Some(("contains"@, seq![TypeV::Str], TypeV::Bool))
    } else if m == "index_of"@ {
        Some(("index_of"@, seq![TypeV::Str], TypeV::Int))
    } else if m == "starts_with"@ {
        Some(("starts_with"@, seq![TypeV::Str], TypeV::Bool))
    } else if m == "substring"@ {
        Some(("substring"@, seq![TypeV::Int, TypeV::Int], TypeV::Str))
    } else if m == "replace"@ {
        Some(("replace"@, seq![TypeV::Str, TypeV::Str], TypeV::Str))
    } else if m == "split"@ {
        Some(("split"@, seq![TypeV::Str], TypeV::Array(Box::new(TypeV::Str))))
    } else if m == "parse_int"@ {
        Some(("parse_int"@, seq![], TypeV::Int))
    } else if m == "parse_float"@ {
        Some(("parse_float"@, seq![], TypeV::F64))
    } else if m == "parse_int_or"@ {
        Some(("parse_int_or"@, seq![TypeV::Int], TypeV::Int))
    } else if m == "parse_float_or"@ {
        Some(("parse_float_or"@, seq![TypeV::F64], TypeV::F64))
    } else {
        string_methods_2(m)
    }
}

/// Part 3 of the table of English string methods (see `english_method`).
pub open spec fn string_methods_2(m: Seq<char>) -> Option<(Seq<char>, Seq<TypeV>, TypeV)> {
    if m == "is_number"@ {
        Some(("is_number"@, seq![], TypeV::Bool))
    } else if m == "parse_bool"@ {
        Some(("parse_bool"@, seq![], TypeV::Bool))
    } else if m == "repeat"@ {
        Some(("repeat"@, seq![TypeV::Int], TypeV::Str))
    } else if m == "reverse"@ {
        Some(("reverse"@, seq![], TypeV::Str))
    } else if m == "split_chars"@ {
        Some(("split_chars"@, seq![TypeV::Str], TypeV::Array(Box::new(TypeV::Str))))
    } else if m == "index_of_char"@ {
        Some(("index_of_char"@, seq![TypeV::Str], TypeV::Int))
    } else if m == "substring_chars"@ {
        Some(("utf8_substring"@, seq![TypeV::Int, TypeV::Int], TypeV::Str))
    } else if m == "pad_left"@ {
        Some(("pad_left"@, seq![TypeV::Int, TypeV::Str], TypeV::Str))
    } else if m == "pad_right"@ {
        Some(("pad_right"@, seq![TypeV::Int, TypeV::Str], TypeV::Str))
    } else if m == "remove_prefix"@ {
        Some(("remove_prefix"@, seq![TypeV::Str], TypeV::Str))
    } else if m == "remove_suffix"@ {
        Some(("remove_suffix"@, seq![TypeV::Str], TypeV::Str))
    } else if m == "is_upper"@ {
        Some(("is_upper"@, seq![], TypeV::Bool))
    } else if m == "is_lower"@ {
        Some(("is_lower"@, seq![], TypeV::Bool))
    } else if m == "is_digit"@ {
        Some(("is_digit"@, seq![], TypeV::Bool))
    } else {
        string_methods_3(m)
    }
}

/// Part 4 of the table of English string methods (see `english_method`).
pub open spec fn string_methods_3(m: Seq<char>) -> Option<(Seq<char>, Seq<TypeV>, TypeV)> {
    if m == "capitalize"@ {
        Some(("capitalize"@, seq![], TypeV::Str))
    } else if m == "is_blank"@ {
        Some(("is_blank"@, seq![], TypeV::Bool))
    } else if m == "strip_whitespace"@ {
        Some(("strip_whitespace"@, seq![], TypeV::Str))
    } else if m == "substring_between"@ {
        Some(("substring_between"@, seq![TypeV::Str, TypeV::Str], TypeV::Str))
    } else if m == "substring_between_last"@ {
        Some(("substring_between_last"@, seq![TypeV::Str, TypeV::Str], TypeV::Str))
    } else if m == "before"@ {
        Some(("before"@, seq![TypeV::Str], TypeV::Str))
    } else if m == "after"@ {
        Some(("after"@, seq![TypeV::Str], TypeV::Str))
    } else if m == "before_last"@ {
        Some(("before_last"@, seq![TypeV::Str], TypeV::Str))
    } else if m == "after_last"@ {
        Some(("after_last"@, seq![TypeV::Str], TypeV::Str))
    } else if m == "char_code"@ {
        Some(("char_code"@, seq![TypeV::Int], TypeV::Int))
    } else {
        None
    }
}

/// The English method that a Chinese method name stands for.
pub open spec fn alias_target(m: Seq<char>) -> Option<Seq<char>> {
    if m == "是否空白"@ {
        Some("is_blank"@)
    } else if m == "删全部空白"@ {
        Some("strip_whitespace"@)
    } else if m == "取文本中间"@ {
        Some("substring_between"@)
    } else if m == "取文本中间反向"@ {
        Some("substring_between_last"@)
    } else if m == "取文本左边"@ {
        Some("before"@)
    } else if m == "取文本右边"@ {
        Some("after"@)
    } else if m == "取文本左边反向"@ {
        Some("before_last"@)
    } else if m == "取文本右边反向"@ {
        Some("after_last"@)
    } else if m == "取字符代码"@ {
        Some("char_code"@)
    } else if m == "转大写"@ {
        Some("to_upper"@)
    } else if m == "转小写"@ {
        Some("to_lower"@)
    } else if m == "首字母大写"@ {
        Some("capitalize"@)
    } else if m == "反转文本"@ {
        Some("reverse"@)
    } else if m == "替换文本"@ {
        Some("replace"@)
    } else if m == "删除前缀"@ {
        Some("remove_prefix"@)
    } else if m == "删除后缀"@ {
        Some("remove_suffix"@)
    } else if m == "是否包含"@ {
        Some("contains"@)
    } else if m == "开头为"@ {
        Some("starts_with"@)
    } else if m == "结尾为"@ {
        Some("ends_with"@)
    } else {
        None
    }
}

/// The English string methods: the runtime symbol each calls, its parameter types
/// (the receiver not counted) and its result type.
pub open spec fn english_method(m: Seq<char>) -> Option<(Seq<char>, Seq<TypeV>, TypeV)> {
    string_methods_0(m)
}

/// The built-in method of strings with a name: an English method, or a Chinese alias,
/// which is the English method it stands for.
pub open spec fn string_method_spec(m: Seq<char>) -> Option<(Seq<char>, Seq<TypeV>, TypeV)> {
    match english_method(m) {
        Some(e) => Some(e),
        None => match alias_target(m) {
            Some(en) => english_method(en),
            None => None,
        },
    }
}

/// A Chinese alias is the same method as the English name it stands for.
pub proof fn lemma_string_method_aliases(alias: Seq<char>, english: Seq<char>)
    requires
        alias_target(alias) == Some(english),
        english_method(alias) is None,
        english_method(english) is Some,
    ensures
        string_method_spec(alias) == string_method_spec(english),
{
}

/// The view of a method entry.
pub open spec fn method_view(r: Option<(String, Vec<Type>, Type)>) -> Option<(Seq<char>, Seq<TypeV>, TypeV)> {
    match r {
        Some((n, ps, t)) => Some((n@, Type::view_all(ps@), t@)),
        None => None,
    }
}

fn params0() -> (v: Vec<Type>)
    ensures
        Type::view_all(v@) == Seq::<TypeV>::empty(),
{
    Vec::new()
}

fn params1(a: Type) -> (v: Vec<Type>)
    ensures
        Type::view_all(v@) == seq![a@],
{
    let ghost av = a@;
    let mut v: Vec<Type> = Vec::new();
    proof {
        lemma_view_all_push(v@, a);
    }
    v.push(a);
    assert(Type::view_all(v@) =~= seq![av]);
    v
}

fn params2(a: Type, b: Type) -> (v: Vec<Type>)
    ensures
        Type::view_all(v@) == seq![a@, b@],
{
    let ghost av = a@;
    let ghost bv = b@;
    let mut v: Vec<Type> = Vec::new();
    proof {
        lemma_view_all_push(v@, a);
    }
    v.push(a);
    proof {
        lemma_view_all_push(v@, b);
    }
    v.push(b);
    assert(Type::view_all(v@) =~= seq![av, bv]);
    v
}

fn string_methods_exec_0(m: &str) -> (r: Option<(String, Vec<Type>, Type)>)
    ensures
        method_view(r) == string_methods_0(m@),
{
    if same_text(m, "to_upper") {
        Some((String::from_str("to_upper"), params0(), Type::Str))
    } else if same_text(m, "to_lower") {
        Some((String::from_str("to_lower"), params0(), Type::Str))
    } else if same_text(m, "trim") {
        Some((String::from_str("trim"), params0(), Type::Str))
    } else if same_text(m, "trim_left") {
        Some((String::from_str("trim_left"), params0(), Type::Str))
    } else if same_text(m, "trim_right") {
        Some((String::from_str("trim_right"), params0(), Type::Str))
    } else if same_text(m, "ends_with") {
        Some((String::from_str("ends_with"), params1(Type::Str), Type::Bool))
    } else if same_text(m, "lines") {
        Some((String::from_str("lines"), params0(), Type::Array(Box::new(Type::Str))))
    } else if same_text(m, "split_whitespace") {
        Some((String::from_str("split_whitespace"), params0(), Type::Array(Box::new(Type::Str))))
    } else if same_text(m, "chars") {
        Some((String::from_str("chars"), params0(), Type::Array(Box::new(Type::Str))))
    } else if same_text(m, "count") {
        Some((String::from_str("count"), params1(Type::Str), Type::Int))
    } else if same_text(m, "last_index_of") {
        Some((String::from_str("last_index_of"), params1(Type::Str), Type::Int))
    } else if same_text(m, "is_ascii") {
        Some((String::from_str("is_ascii"), params0(), Type::Bool))
    } else if same_text(m, "escape") {
        Some((String::from_str("escape"), params0(), Type::Str))
    } else if same_text(m, "unescape") {
        Some((String::from_str("unescape"), params0(), Type::Str))
    } else {
        string_methods_exec_1(m)
    }
}

fn string_methods_exec_1(m: &str) -> (r: Option<(String, Vec<Type>, Type)>)
    ensures
        method_view(r) == string_methods_1(m@),
{
    if same_text(m, "is_empty") {
        Some((String::from_str("is_empty"), params0(), Type::Bool))
    } else if same_text(m, "utf8_is_valid") {
        Some((String::from_str("utf8_is_valid"), params0(), Type::Bool))
    } else if same_text(m, "truncate") {
        Some((String::from_str("truncate"), params1(Type::Int), Type::Str))
    } else if same_text(m, "ellipsis") {
        Some((String::from_str("ellipsis"), params1(Type::Int), Type::Str))
    } else if same_text(m, "contains") {
        Some((String::from_str("contains"), params1(Type::Str), Type::Bool))
    } else if same_text(m, "index_of") {
        Some((String::from_str("index_of"), params1(Type::Str), Type::Int))
    } else if same_text(m, "starts_with") {
        Some((String::from_str("starts_with"), params1(Type::Str), Type::Bool))
    } else if same_text(m, "substring") {
        Some((String::from_str("substring"), params2(Type::Int, Type::Int), Type::Str))
    } else if same_text(m, "replace") {
        Some((String::from_str("replace"), params2(Type::Str, Type::Str), Type::Str))
    } else if same_text(m, "split") {
        Some((String::from_str("split"), params1(Type::Str), Type::Array(Box::new(Type::Str))))
    } else if same_text(m, "parse_int") {
        Some((String::from_str("parse_int"), params0(), Type::Int))
    } else if same_text(m, "parse_float") {
        Some((String::from_str("parse_float"), params0(), Type::F64))
    } else if same_text(m, "parse_int_or") {
        Some((String::from_str("parse_int_or"), params1(Type::Int), Type::Int))
    } else if same_text(m, "parse_float_or") {
        Some((String::from_str("parse_float_or"), params1(Type::F64), Type::F64))
    } else {
        string_methods_exec_2(m)
    }
}

fn string_methods_exec_2(m: &str) -> (r: Option<(String, Vec<Type>, Type)>)
    ensures
        method_view(r) == string_methods_2(m@),
{
    if same_text(m, "is_number") {
        Some((String::from_str("is_number"), params0(), Type::Bool))
    } else if same_text(m, "parse_bool") {
        Some((String::from_str("parse_bool"), params0(), Type::Bool))
    } else if same_text(m, "repeat") {
        Some((String::from_str("repeat"), params1(Type::Int), Type::Str))
    } else if same_text(m, "reverse") {
        Some((String::from_str("reverse"), params0(), Type::Str))
    } else if same_text(m, "split_chars") {
        Some((String::from_str("split_chars"), params1(Type::Str), Type::Array(Box::new(Type::Str))))
    } else if same_text(m, "index_of_char") {
        Some((String::from_str("index_of_char"), params1(Type::Str), Type::Int))
    } else if same_text(m, "substring_chars") {
        Some((String::from_str("utf8_substring"), params2(Type::Int, Type::Int), Type::Str))
    } else if same_text(m, "pad_left") {
        Some((String::from_str("pad_left"), params2(Type::Int, Type::Str), Type::Str))
    } else if same_text(m, "pad_right") {
        Some((String::from_str("pad_right"), params2(Type::Int, Type::Str), Type::Str))
    } else if same_text(m, "remove_prefix") {
        Some((String::from_str("remove_prefix"), params1(Type::Str), Type::Str))
    } else if same_text(m, "remove_suffix") {
        Some((String::from_str("remove_suffix"), params1(Type::Str), Type::Str))
    } else if same_text(m, "is_upper") {
        Some((String::from_str("is_upper"), params0(), Type::Bool))
    } else if same_text(m, "is_lower") {
        Some((String::from_str("is_lower"), params0(), Type::Bool))
    } else if same_text(m, "is_digit") {
        Some((String::from_str("is_digit"), params0(), Type::Bool))
    } else {
        string_methods_exec_3(m)
    }
}

fn string_methods_exec_3(m: &str) -> (r: Option<(String, Vec<Type>, Type)>)
    ensures
        method_view(r) == string_methods_3(m@),
{
    if same_text(m, "capitalize") {
        Some((String::from_str("capitalize"), params0(), Type::Str))
    } else if same_text(m, "is_blank") {
        Some((String::from_str("is_blank"), params0(), Type::Bool))
    } else if same_text(m, "strip_whitespace") {
        Some((String::from_str("strip_whitespace"), params0(), Type::Str))
    } else if same_text(m, "substring_between") {
        Some((String::from_str("substring_between"), params2(Type::Str, Type::Str), Type::Str))
    } else if same_text(m, "substring_between_last") {
        Some((String::from_str("substring_between_last"), params2(Type::Str, Type::Str), Type::Str))
    } else if same_text(m, "before") {
        Some((String::from_str("before"), params1(Type::Str), Type::Str))
    } else if same_text(m, "after") {
        Some((String::from_str("after"), params1(Type::Str), Type::Str))
    } else if same_text(m, "before_last") {
        Some((String::from_str("before_last"), params1(Type::Str), Type::Str))
    } else if same_text(m, "after_last") {
        Some((String::from_str("after_last"), params1(Type::Str), Type::Str))
    } else if same_text(m, "char_code") {
        Some((String::from_str("char_code"), params1(Type::Int), Type::Int))
    } else {
        None
    }
}

fn alias_target_exec(m: &str) -> (r: Option<String>)
    ensures
        match r {
            Some(e) => alias_target(m@) == Some(e@),
            None => alias_target(m@) is None,
        },
{
    if same_text(m, "是否空白") {
        Some(String::from_str("is_blank"))
    } else if same_text(m, "删全部空白") {
        Some(String::from_str("strip_whitespace"))
    } else if same_text(m, "取文本中间") {
        Some(String::from_str("substring_between"))
    } else if same_text(m, "取文本中间反向") {
        Some(String::from_str("substring_between_last"))
    } else if same_text(m, "取文本左边") {
        Some(String::from_str("before"))
    } else if same_text(m, "取文本右边") {
        Some(String::from_str("after"))
    } else if same_text(m, "取文本左边反向") {
        Some(String::from_str("before_last"))
    } else if same_text(m, "取文本右边反向") {
        Some(String::from_str("after_last"))
    } else if same_text(m, "取字符代码") {
        Some(String::from_str("char_code"))
    } else if same_text(m, "转大写") {
        Some(String::from_str("to_upper"))
    } else if same_text(m, "转小写") {
        Some(String::from_str("to_lower"))
    } else if same_text(m, "首字母大写") {
        Some(String::from_str("capitalize"))
    } else if same_text(m, "反转文本") {
        Some(String::from_str("reverse"))
    } else if same_text(m, "替换文本") {
        Some(String::from_str("replace"))
    } else if same_text(m, "删除前缀") {
        Some(String::from_str("remove_prefix"))
    } else if same_text(m, "删除后缀") {
        Some(String::from_str("remove_suffix"))
    } else if same_text(m, "是否包含") {
        Some(String::from_str("contains"))
    } else if same_text(m, "开头为") {
        Some(String::from_str("starts_with"))
    } else if same_text(m, "结尾为") {
        Some(String::from_str("ends_with"))
    } else {
        None
    }
}


/// The built-in method of strings with a name (see `string_method_spec`).
pub fn string_method(method: &str) -> (r: Option<(String, Vec<Type>, Type)>)
    ensures
        method_view(r) == string_method_spec(method@),
{
    match string_methods_exec_0(method) {
        Some(e) => Some(e),
        None => match alias_target_exec(method) {
            Some(en) => string_methods_exec_0(en.as_str()),
            None => None,
        },
    }
}


// ---------------------------------------------------------------------------
// Integer literals.
// ---------------------------------------------------------------------------

/// `s` without its `_` separators.
pub open spec fn without_underscores(s: Seq<char>) -> Seq<char>
    decreases s.len(),
{
    if s.len() == 0 {
        s
    } else if s.last() == '_' {
        without_underscores(s.drop_last())
    } else {
        without_underscores(s.drop_last()).push(s.last())
    }
}

/// The value of a digit in a radix (`char::to_digit`).
pub open spec fn digit_value(c: char, radix: nat) -> Option<nat> {
    let v: int = if '0' <= c && c <= '9' {
        c as int - '0' as int
    } else if 'a' <= c && c <= 'z' {
        c as int - 'a' as int + 10
    } else if 'A' <= c && c <= 'Z' {
        c as int - 'A' as int + 10
    } else {
        radix as int
    };
    if 0 <= v < radix {
        Some(v as nat)
    } else {
        None
    }
}

/// The value of a run of digits in a radix, if every character is one.
pub open spec fn digits_value(s: Seq<char>, radix: nat) -> Option<nat>
    decreases s.len(),
{
    if s.len() == 0 {
        Some(0)
    } else {
        match (digits_value(s.drop_last(), radix), digit_value(s.last(), radix)) {
            (Some(v), Some(d)) => Some(v * radix + d),
            _ => None,
        }
    }
}

/// `i64::from_str_radix`: an optional sign and at least one digit, the value within
/// the range of `i64`.
pub open spec fn i64_from_radix(s: Seq<char>, radix: nat) -> Option<int> {
    if s.len() == 0 {
        None
    } else {
        let neg = s[0] == '-';
        let body = if s[0] == '-' || s[0] == '+' {
            s.drop_first()
        } else {
            s
        };
        if body.len() == 0 {
            None
        } else {
            match digits_value(body, radix) {
                Some(v) => if neg {
                    if v <= 0x8000_0000_0000_0000 {
                        Some(-v)
                    } else {
                        None
                    }
                } else if v <= 0x7fff_ffff_ffff_ffff {
                    Some(v as int)
                } else {
                    None
                },
                None => None,
            }
        }
    }
}

/// The value of an integer literal: `_` separators ignored, `0x`, `0b` and `0o`
/// prefixes for hexadecimal, binary and octal, decimal otherwise.
pub open spec fn int_literal(text: Seq<char>) -> Option<int> {
    let d = without_underscores(text);
    if starts_with(d, "0x"@) {
        i64_from_radix(d.skip(2), 16)
    } else if starts_with(d, "0b"@) {
        i64_from_radix(d.skip(2), 2)
    } else if starts_with(d, "0o"@) {
        i64_from_radix(d.skip(2), 8)
    } else {
        i64_from_radix(d, 10)
    }
}

fn digit_exec(c: char, radix: u32) -> (r: Option<u32>)
    requires
        2 <= radix <= 36,
    ensures
        match r {
            Some(d) => digit_value(c, radix as nat) == Some(d as nat),
            None => digit_value(c, radix as nat) is None,
        },
{
    let v: u32 = if '0' <= c && c <= '9' {
        (c as u32) - ('0' as u32)
    } else if 'a' <= c && c <= 'z' {
        (c as u32) - ('a' as u32) + 10
    } else if 'A' <= c && c <= 'Z' {
        (c as u32) - ('A' as u32) + 10
    } else {
        radix
    };
    if v < radix {
        Some(v)
    } else {
        None
    }
}

pub proof fn lemma_digits_prefix(s: Seq<char>, radix: nat, i: int)
    requires
        0 <= i <= s.len(),
        radix >= 2,
        digits_value(s, radix) is Some,
    ensures
        digits_value(s.take(i), radix) is Some,
        digits_value(s.take(i), radix)->0 <= digits_value(s, radix)->0,
    decreases s.len() - i,
{
    if i == s.len() {
        assert(s.take(i) =~= s);
    } else {
        lemma_digits_prefix(s, radix, i + 1);
        assert(s.take(i + 1).drop_last() =~= s.take(i));
        let v = digits_value(s.take(i), radix)->0;
        assert(v * radix >= v) by (nonlinear_arith)
            requires
                radix >= 2,
        ;
    }
}

/// `i64::from_str_radix` on the characters of `s`.
fn i64_from_chars(s: &Vec<char>, radix: u32) -> (r: Option<i64>)
    requires
        radix == 2 || radix == 8 || radix == 10 || radix == 16,
    ensures
        match r {
            Some(v) => i64_from_radix(s@, radix as nat) == Some(v as int),
            None => i64_from_radix(s@, radix as nat) is None,
        },
{
    let n = s.len();
    if n == 0 {
        return None;
    }
    let neg = s[0] == '-';
    let start: usize = if s[0] == '-' || s[0] == '+' {
        1
    } else {
        0
    };
    if start == n {
        assert(s@.drop_first().len() == 0);
        return None;
    }
    let ghost body = if s@[0] == '-' || s@[0] == '+' {
        s@.drop_first()
    } else {
        s@
    };
    assert(body =~= s@.skip(start as int));
    let limit: u128 = if neg {
        0x8000_0000_0000_0000
    } else {
        0x7fff_ffff_ffff_ffff
    };
    let mut v: u128 = 0;
    let mut i: usize = start;
    while i < n
        invariant
            n == s@.len(),
            n > 0,
            start <= i <= n,
            start <= 1,
            neg == (s@[0] == '-'),
            start == (if s@[0] == '-' || s@[0] == '+' { 1usize } else { 0usize }),
            limit == (if neg { 0x8000_0000_0000_0000u128 } else { 0x7fff_ffff_ffff_ffffu128 }),
            body == (if s@[0] == '-' || s@[0] == '+' {
                s@.drop_first()
            } else {
                s@
            }),
            body.len() > 0,
            body == s@.skip(start as int),
            2 <= radix <= 16,
            v <= limit,
            limit <= 0x8000_0000_0000_0000,
            digits_value(body.take(i - start), radix as nat) == Some(v as nat),
        decreases n - i,
    {
        proof {
            assert(body.take(i - start + 1).drop_last() =~= body.take(i - start));
            assert(body.take(i - start + 1).last() == s@[i as int]);
        }
        match digit_exec(s[i], radix) {
            Some(d) => {
                assert(v * (radix as u128) <= 0x8000_0000_0000_0000 * 16) by (nonlinear_arith)
                    requires
                        v <= 0x8000_0000_0000_0000,
                        radix <= 16,
                ;
                let next: u128 = v * (radix as u128) + (d as u128);
                assert(digits_value(body.take(i - start + 1), radix as nat) == Some(next as nat));
                if next > limit {
                    proof {
                        if digits_value(body, radix as nat) is Some {
                            lemma_digits_prefix(body, radix as nat, i - start + 1);
                        }
                    }
                    return None;
                }
                v = next;
            },
            None => {
                assert(digits_value(body.take(i - start + 1), radix as nat) is None);
                proof {
                    if digits_value(body, radix as nat) is Some {
                        lemma_digits_prefix(body, radix as nat, i - start + 1);
                    }
                }
                return None;
            },
        }
        i += 1;
    }
    assert(body.take(n - start) =~= body);
    if neg {
        if v == 0x8000_0000_0000_0000 {
            Some(i64::MIN)
        } else {
            Some(-(v as i64))
        }
    } else {
        Some(v as i64)
    }
}

/// The value of an integer literal (see `int_literal`), if it fits in `i64`.
pub fn parse_int(text: &str) -> (r: Option<i64>)
    ensures
        match r {
            Some(v) => int_literal(text@) == Some(v as int),
            None => int_literal(text@) is None,
        },
{
    let t = chars_of(text);
    let mut d: Vec<char> = Vec::new();
    let mut i: usize = 0;
    while i < t.len()
        invariant
            t@ == text@,
            i <= t@.len(),
            d@ == without_underscores(t@.take(i as int)),
        decreases t@.len() - i,
    {
        proof {
            assert(t@.take(i + 1).drop_last() =~= t@.take(i as int));
        }
        if t[i] != '_' {
            d.push(t[i]);
        }
        i += 1;
    }
    assert(t@.take(i as int) =~= t@);
    let n = d.len();
    proof {
        reveal_strlit("0x");
        reveal_strlit("0b");
        reveal_strlit("0o");
        assert("0x"@ =~= seq!['0', 'x']);
        assert("0b"@ =~= seq!['0', 'b']);
        assert("0o"@ =~= seq!['0', 'o']);
        if n >= 2 {
            assert(d@.take(2) =~= seq![d@[0], d@[1]]);
        }
    }
    let radix: u32 = if n >= 2 && d[0] == '0' && d[1] == 'x' {
        16
    } else if n >= 2 && d[0] == '0' && d[1] == 'b' {
        2
    } else if n >= 2 && d[0] == '0' && d[1] == 'o' {
        8
    } else {
        10
    };
    if radix == 10 {
        i64_from_chars(&d, 10)
    } else {
        let rest = crate::text::slice_chars(&d, 2, n);
        assert(rest@ =~= d@.skip(2));
        i64_from_chars(&rest, radix)
    }
}


proof fn lemma_digit_char(d: nat)
    requires
        d < 10,
    ensures
        '0' <= digit_char(d) <= '9',
        digit_value(digit_char(d), 10) == Some(d),
{
}

/// A decimal numeral is a non-empty run of digits that reads back as its number.
#[verifier::spinoff_prover]
pub proof fn lemma_decimal_digits(n: nat)
    ensures
        decimal(n).len() > 0,
        forall|i: int| 0 <= i < decimal(n).len() ==> '0' <= #[trigger] decimal(n)[i] <= '9',
        digits_value(decimal(n), 10) == Some(n),
    decreases n,
{
    if n < 10 {
        lemma_digit_char(n);
        assert(decimal(n) == seq![digit_char(n)]);
        assert(decimal(n).drop_last() =~= Seq::<char>::empty());
        assert(decimal(n).last() == digit_char(n));
        assert(digits_value(Seq::<char>::empty(), 10) == Some(0nat));
        assert(digits_value(decimal(n), 10) == Some(0 * 10 + n));
    } else {
        lemma_decimal_digits(n / 10);
        lemma_digit_char(n % 10);
        assert(decimal(n).drop_last() =~= decimal(n / 10));
        assert(decimal(n).last() == digit_char(n % 10));
        assert((n / 10) * 10 + n % 10 == n);
        assert(digits_value(decimal(n), 10) == Some(((n / 10) * 10 + n % 10) as nat));
    }
}

proof fn lemma_no_underscores(s: Seq<char>)
    requires
        forall|i: int| 0 <= i < s.len() ==> '0' <= #[trigger] s[i] <= '9',
    ensures
        without_underscores(s) == s,
    decreases s.len(),
{
    if s.len() > 0 {
        lemma_no_underscores(s.drop_last());
        assert(s.drop_last().push(s.last()) =~= s);
    }
}

/// The decimal numeral of a number in the range of `i64` reads back as that number.
pub proof fn lemma_decimal_literal(n: nat)
    requires
        n <= 0x7fff_ffff_ffff_ffff,
    ensures
        int_literal(decimal(n)) == Some(n as int),
{
    let d = decimal(n);
    lemma_decimal_digits(n);
    lemma_no_underscores(d);
    reveal_strlit("0x");
    reveal_strlit("0b");
    reveal_strlit("0o");
    assert("0x"@ =~= seq!['0', 'x']);
    assert("0b"@ =~= seq!['0', 'b']);
    assert("0o"@ =~= seq!['0', 'o']);
    if d.len() >= 2 {
        assert('0' <= d[1] <= '9');
        assert(d.take(2)[1] == d[1]);
    }
    assert(!starts_with(d, "0x"@));
    assert(!starts_with(d, "0b"@));
    assert(!starts_with(d, "0o"@));
    assert('0' <= d[0] <= '9');
}


// ---------------------------------------------------------------------------
// The string pool and the locals of a function.
// ---------------------------------------------------------------------------

/// The views of the strings of a pool.
pub open spec fn pool_view(strings: Seq<String>) -> Seq<Seq<char>> {
    Seq::new(strings.len(), |i: int| strings[i]@)
}

/// No string occurs twice in a pool.
pub open spec fn pool_unique(strings: Seq<Seq<char>>) -> bool {
    forall|i: int, j: int| 0 <= i < j < strings.len() ==> strings[i] != strings[j]
}

/// The index of a string literal in the module's pool, adding it at the end when it
/// is new.
pub fn intern_string(strings: &mut Vec<String>, value: &str) -> (r: usize)
    ensures
        old(strings)@.len() < usize::MAX ==> r < final(strings)@.len(),
        pool_view(old(strings)@).contains(value@) ==> pool_view(final(strings)@) == pool_view(old(strings)@)
            && pool_view(final(strings)@)[r as int] == value@ && forall|k: int|
            0 <= k < r ==> pool_view(old(strings)@)[k] != value@,
        !pool_view(old(strings)@).contains(value@) ==> pool_view(final(strings)@) == pool_view(old(strings)@).push(
            value@,
        ) && r == old(strings)@.len(),
        pool_unique(pool_view(old(strings)@)) ==> pool_unique(pool_view(final(strings)@)),
{
    let ghost before = pool_view(strings@);
    let mut i: usize = 0;
    while i < strings.len()
        invariant
            i <= strings@.len(),
            strings@ == old(strings)@,
            before == pool_view(strings@),
            forall|k: int| 0 <= k < i ==> before[k] != value@,
        decreases strings@.len() - i,
    {
        if same_text(strings[i].as_str(), value) {
            assert(before[i as int] == value@);
            return i;
        }
        i += 1;
    }
    assert(!before.contains(value@));
    strings.push(String::from_str(value));
    assert(pool_view(strings@) =~= before.push(value@));
    strings.len() - 1
}

/// Interning a string twice gives the same index and leaves the pool as the first
/// time did.
pub proof fn lemma_intern_idempotent(pool: Seq<Seq<char>>, value: Seq<char>)
    requires
        pool_unique(pool),
    ensures
        pool_unique(if pool.contains(value) { pool } else { pool.push(value) }),
        (if pool.contains(value) { pool } else { pool.push(value) }).contains(value),
{
    if !pool.contains(value) {
        let p = pool.push(value);
        assert(p[pool.len() as int] == value);
        assert forall|i: int, j: int| 0 <= i < j < p.len() implies p[i] != p[j] by {
            if j == pool.len() {
                assert(pool[i] != value);
            }
        }
    }
}

/// The view of a local: name, type and mutability.
pub open spec fn local_view(l: MirLocal) -> (Seq<char>, TypeV, bool) {
    (l.name@, l.ty@, l.mutable)
}

/// Declares a local of a function being lowered (its type with the function's
/// generic parameters substituted) and gives its index.
pub fn declare_local(
    locals: &mut Vec<MirLocal>,
    type_args: &Vec<(String, Type)>,
    name: &str,
    ty: Type,
    mutable: bool,
) -> (r: usize)
    requires
        old(locals)@.len() < usize::MAX,
    ensures
        r == old(locals)@.len(),
        final(locals)@.len() == old(locals)@.len() + 1,
        final(locals)@.drop_last() == old(locals)@,
        local_view(final(locals)@.last()) == (name@, crate::typing::subst(ty@, crate::typing::args_view(type_args@)), mutable),
{
    let t = crate::typing::substitute_type(&ty, type_args);
    let index = locals.len();
    locals.push(MirLocal { name: String::from_str(name), ty: t, mutable });
    assert(locals@.drop_last() =~= old(locals)@);
    index
}

/// The local that a name denotes in nested scopes (innermost last): the innermost
/// scope that binds it decides.
pub open spec fn lookup_scopes(scopes: Seq<Seq<(String, usize)>>, name: Seq<char>) -> Option<usize>
    decreases scopes.len(),
{
    if scopes.len() == 0 {
        None
    } else {
        match scope_binding(scopes.last(), name, 0) {
            Some(i) => Some(i),
            None => lookup_scopes(scopes.drop_last(), name),
        }
    }
}

/// The index that a scope binds a name to, searching its entries from `k` on.
pub open spec fn scope_binding(scope: Seq<(String, usize)>, name: Seq<char>, k: int) -> Option<usize>
    decreases scope.len() - k,
{
    if k < 0 || k >= scope.len() {
        None
    } else if scope[k].0@ == name {
        Some(scope[k].1)
    } else {
        scope_binding(scope, name, k + 1)
    }
}

/// Looks a name up in nested scopes, innermost (last) first.
pub fn lookup_local(scopes: &Vec<Vec<(String, usize)>>, name: &str) -> (r: Option<usize>)
    ensures
        r == lookup_scopes(Seq::new(scopes@.len(), |i: int| scopes@[i]@), name@),
{
    let ghost all = Seq::new(scopes@.len(), |i: int| scopes@[i]@);
    let mut s: usize = scopes.len();
    assert(all.take(s as int) =~= all);
    while s > 0
        invariant
            s <= scopes@.len(),
            all == Seq::new(scopes@.len(), |i: int| scopes@[i]@),
            lookup_scopes(all, name@) == lookup_scopes(all.take(s as int), name@),
        decreases s,
    {
        let scope = &scopes[s - 1];
        let mut k: usize = 0;
        while k < scope.len()
            invariant
                k <= scope@.len(),
                1 <= s <= scopes@.len(),
                *scope == scopes@[s - 1],
                all == Seq::new(scopes@.len(), |i: int| scopes@[i]@),
                lookup_scopes(all, name@) == lookup_scopes(all.take(s as int), name@),
                scope_binding(scope@, name@, 0) == scope_binding(scope@, name@, k as int),
            decreases scope@.len() - k,
        {
            if same_text(scope[k].0.as_str(), name) {
                proof {
                    assert(all.take(s as int).last() == scope@);
                    assert(scope_binding(scope@, name@, k as int) == Some(scope@[k as int].1));
                }
                return Some(scope[k].1);
            }
            k += 1;
        }
        proof {
            assert(all.take(s as int).last() == scope@);
            assert(all.take(s as int).drop_last() =~= all.take(s - 1));
        }
        s -= 1;
    }
    None
}


// ---------------------------------------------------------------------------
// The entry point of `swc test`.
// ---------------------------------------------------------------------------

/// The index of the first occurrence of a string in a pool.
pub open spec fn first_index(pool: Seq<Seq<char>>, v: Seq<char>) -> int
    decreases pool.len(),
{
    if pool.len() == 0 {
        0
    } else if pool.last() == v && !pool.drop_last().contains(v) {
        pool.len() - 1
    } else {
        first_index(pool.drop_last(), v)
    }
}

/// The pool after interning `v`.
pub open spec fn interned(pool: Seq<Seq<char>>, v: Seq<char>) -> Seq<Seq<char>> {
    if pool.contains(v) {
        pool
    } else {
        pool.push(v)
    }
}

proof fn lemma_first_index(pool: Seq<Seq<char>>, v: Seq<char>, r: int)
    requires
        0 <= r < pool.len(),
        pool[r] == v,
        forall|k: int| 0 <= k < r ==> pool[k] != v,
    ensures
        first_index(pool, v) == r,
    decreases pool.len(),
{
    if r < pool.len() - 1 {
        assert(pool.drop_last()[r] == v);
        lemma_first_index(pool.drop_last(), v, r);
    } else {
        assert forall|k: int| 0 <= k < pool.drop_last().len() implies pool.drop_last()[k] != v by {}
    }
}

proof fn lemma_interned_contains(pool: Seq<Seq<char>>, v: Seq<char>, w: Seq<char>)
    ensures
        interned(pool, v).contains(v),
        pool.contains(w) ==> interned(pool, v).contains(w),
{
    if !pool.contains(v) {
        assert(pool.push(v)[pool.len() as int] == v);
        if pool.contains(w) {
            let k = choose|k: int| 0 <= k < pool.len() && pool[k] == w;
            assert(pool.push(v)[k] == w);
        }
    }
}

proof fn lemma_first_index_grow(pool: Seq<Seq<char>>, v: Seq<char>, w: Seq<char>)
    requires
        pool.contains(v),
    ensures
        first_index(interned(pool, w), v) == first_index(pool, v),
{
    if !pool.contains(w) {
        assert(pool.push(w).drop_last() =~= pool);
    }
}

/// Interns a string and gives its index: the first index of it in the pool after.
fn intern(strings: &mut Vec<String>, value: &str) -> (r: usize)
    requires
        old(strings)@.len() < usize::MAX,
    ensures
        pool_view(final(strings)@) == interned(pool_view(old(strings)@), value@),
        r as int == first_index(pool_view(final(strings)@), value@),
        r < final(strings)@.len(),
        final(strings)@.len() <= old(strings)@.len() + 1,
{
    let r = intern_string(strings, value);
    proof {
        let after = pool_view(strings@);
        lemma_first_index(after, value@, r as int);
    }
    r
}

/// The signature of the runtime function that prints a test's line.
pub open spec fn println_sig_v() -> SigV {
    SigV {
        module: ModuleId(0),
        name: "sw_test_println"@,
        generics: seq![],
        params: seq![("text"@, TypeV::Str, false, false)],
        ret: TypeV::Void,
        extern_c: true,
        span: Span { start: 0, end: 0 },
    }
}

/// The signature of the runtime's `setjmp`.
pub open spec fn setjmp_sig_v() -> SigV {
    SigV {
        module: ModuleId(0),
        name: "sw_setjmp"@,
        generics: seq![],
        params: seq![("buf"@, TypeV::Ptr(Box::new(TypeV::I8)), false, false)],
        ret: TypeV::Int,
        extern_c: true,
        span: Span { start: 0, end: 0 },
    }
}

fn extern_sig(name: &str, param: &str, ty: Type, ret: Type) -> (r: FunctionSig)
    ensures
        sig_view(r) == (SigV {
            module: ModuleId(0),
            name: name@,
            generics: seq![],
            params: seq![(param@, ty@, false, false)],
            ret: ret@,
            extern_c: true,
            span: Span { start: 0, end: 0 },
        }),
{
    let ghost tv = ty@;
    let mut params: Vec<ParamSig> = Vec::new();
    params.push(ParamSig { name: String::from_str(param), ty, has_default: false, rest: false });
    let r = FunctionSig {
        module: ModuleId(0),
        name: String::from_str(name),
        generics: Vec::new(),
        params,
        ret,
        extern_c: true,
        span: Span { start: 0, end: 0 },
    };
    assert(sig_view(r).generics =~= Seq::<Seq<char>>::empty());
    assert(sig_view(r).params =~= seq![(param@, tv, false, false)]);
    r
}

/// A call of a runtime intrinsic with these arguments.
pub open spec fn intrinsic_call(e: MirExpr, name: Seq<char>, args: Seq<MirExpr>) -> bool {
    e matches MirExpr::Call { callee: MirCallee::Intrinsic { name: n }, args: a } && n@ == name && a@ == args
}

/// The statement that prints a test's line: the prefix string and the test's name.
pub open spec fn print_line_stmt(st: MirStmt, prefix: usize, name: usize) -> bool {
    &&& st.kind matches MirStmtKind::Expr(MirExpr::Call { callee: MirCallee::Extern { name: n, sig }, args })
    &&& n@ == "sw_test_println"@
    &&& sig_view(sig) == println_sig_v()
    &&& args@.len() == 1
    &&& intrinsic_call(args@[0], "string_concat"@, seq![MirExpr::Str(prefix), MirExpr::Str(name)])
}

/// The statement that counts a failure: `fail = fail + 1`.
pub open spec fn count_failure_stmt(st: MirStmt) -> bool {
    st.kind matches MirStmtKind::Assign { target: MirTarget::Local(0), value: MirExpr::Binary { op, left, right } }
        && op == MirBinary::Add && *left == MirExpr::Local(0) && *right == MirExpr::Int(1)
}

/// The call of a test function.
pub open spec fn test_call(e: MirExpr, module: u32, name: Seq<char>, sig: FunctionSig) -> bool {
    e matches MirExpr::Call { callee: MirCallee::Function { module: m, name: n, sig: s }, args } && m == module
        && n@ == name && sig_view(s) == sig_view(sig) && args@.len() == 0
}

/// A test function returns no value to check.
pub open spec fn returns_nothing(sig: FunctionSig) -> bool {
    sig.ret@ == TypeV::Void || sig.ret@ == TypeV::Unknown
}

/// A call of the runtime's `setjmp` on the exception frame.
pub open spec fn setjmp_call(e: MirExpr) -> bool {
    e matches MirExpr::Call { callee: MirCallee::Extern { name, sig }, args } && name@ == "sw_setjmp"@ && sig_view(sig)
        == setjmp_sig_v() && args@ == seq![MirExpr::Local(2)]
}

/// `setjmp(frame) != 0`: the test threw.
pub open spec fn threw_cond(e: MirExpr) -> bool {
    e matches MirExpr::Binary { op, left, right } && op == MirBinary::Ne && *right == MirExpr::Int(0) && setjmp_call(
        *left,
    )
}

/// The condition under which a test that returned counts as failed: a non-zero
/// result, never for a test that returns nothing.
pub open spec fn failed_cond(e: MirExpr, nothing: bool) -> bool {
    if nothing {
        e == MirExpr::Bool(false)
    } else {
        e matches MirExpr::Binary { op, left, right } && op == MirBinary::Ne && *left == MirExpr::Local(1) && *right
            == MirExpr::Int(0)
    }
}

/// The call of the test, its result kept in local 1 unless it returns nothing.
pub open spec fn call_stmt(st: MirStmt, module: u32, name: Seq<char>, sig: FunctionSig) -> bool {
    if returns_nothing(sig) {
        st.kind matches MirStmtKind::Expr(c) && test_call(c, module, name, sig)
    } else {
        st.kind matches MirStmtKind::VarDecl { local: 1, init: Some(c) } && test_call(c, module, name, sig)
    }
}

/// The check of a test's result: count and print a failure, or print success.
pub open spec fn verdict_stmt(st: MirStmt, sig: FunctionSig, ok: usize, fail: usize, name_idx: usize) -> bool {
    st.kind matches MirStmtKind::If { cond, then, else_ } && failed_cond(cond, returns_nothing(sig)) && then@.len()
        == 2 && count_failure_stmt(then@[0]) && print_line_stmt(then@[1], fail, name_idx) && else_@.len() == 1
        && print_line_stmt(else_@[0], ok, name_idx)
}

/// A statement that evaluates an intrinsic call on the exception frame.
pub open spec fn frame_stmt(st: MirStmt, name: Seq<char>) -> bool {
    st.kind matches MirStmtKind::Expr(e) && intrinsic_call(e, name, seq![MirExpr::Local(2)])
}

/// The path after a throw: take the exception (local 3), leave the frame, count and
/// print a failure.
pub open spec fn thrown_path(stmts: Seq<MirStmt>, fail: usize, name_idx: usize) -> bool {
    &&& stmts.len() == 4
    &&& stmts[0].kind matches MirStmtKind::VarDecl { local: 3, init: Some(v) } && intrinsic_call(
        v,
        "sw_try_value"@,
        seq![MirExpr::Local(2)],
    )
    &&& frame_stmt(stmts[1], "sw_try_leave"@)
    &&& count_failure_stmt(stmts[2])
    &&& print_line_stmt(stmts[3], fail, name_idx)
}

/// The path of a test that returned: call it, judge its result, leave the frame.
pub open spec fn returned_path(stmts: Seq<MirStmt>, module: u32, name: Seq<char>, sig: FunctionSig, ok: usize, fail: usize, name_idx: usize) -> bool {
    &&& stmts.len() == 3
    &&& call_stmt(stmts[0], module, name, sig)
    &&& verdict_stmt(stmts[1], sig, ok, fail, name_idx)
    &&& frame_stmt(stmts[2], "sw_try_leave"@)
}

/// The statements that run one test: open an exception frame (local 2), then branch
/// on `setjmp`: after a throw, the thrown path; else the returned path.
pub open spec fn test_stmts(a: MirStmt, b: MirStmt, module: u32, name: Seq<char>, sig: FunctionSig, ok: usize, fail: usize, name_idx: usize) -> bool {
    &&& a.kind matches MirStmtKind::VarDecl { local: 2, init: Some(e) } && intrinsic_call(e, "sw_try_begin"@, seq![])
    &&& b.kind matches MirStmtKind::If { cond, then, else_ } && threw_cond(cond) && thrown_path(then@, fail, name_idx)
        && returned_path(else_@, module, name, sig, ok, fail, name_idx)
}

fn intrinsic(name: &str, args: Vec<MirExpr>) -> (r: MirExpr)
    ensures
        intrinsic_call(r, name@, args@),
{
    MirExpr::Call { callee: MirCallee::Intrinsic { name: String::from_str(name) }, args }
}

fn print_line(prefix: usize, name: usize) -> (r: MirStmt)
    ensures
        print_line_stmt(r, prefix, name),
{
    let mut parts: Vec<MirExpr> = Vec::new();
    parts.push(MirExpr::Str(prefix));
    parts.push(MirExpr::Str(name));
    assert(parts@ =~= seq![MirExpr::Str(prefix), MirExpr::Str(name)]);
    let text = intrinsic("string_concat", parts);
    let mut args: Vec<MirExpr> = Vec::new();
    args.push(text);
    let sig = extern_sig("sw_test_println", "text", Type::Str, Type::Void);
    assert(sig_view(sig).params =~= println_sig_v().params);
    MirStmt::new(
        MirStmtKind::Expr(
            MirExpr::Call { callee: MirCallee::Extern { name: String::from_str("sw_test_println"), sig }, args },
        ),
    )
}

fn count_failure() -> (r: MirStmt)
    ensures
        count_failure_stmt(r),
{
    MirStmt::new(
        MirStmtKind::Assign {
            target: MirTarget::Local(0),
            value: MirExpr::Binary {
                op: MirBinary::Add,
                left: Box::new(MirExpr::Local(0)),
                right: Box::new(MirExpr::Int(1)),
            },
        },
    )
}

fn frame_args() -> (r: Vec<MirExpr>)
    ensures
        r@ == seq![MirExpr::Local(2)],
{
    let mut v: Vec<MirExpr> = Vec::new();
    v.push(MirExpr::Local(2));
    assert(v@ =~= seq![MirExpr::Local(2)]);
    v
}

fn run_test(module: u32, name: &String, sig: &FunctionSig, ok: usize, fail: usize, name_idx: usize) -> (r: (
    MirStmt,
    MirStmt,
))
    ensures
        test_stmts(r.0, r.1, module, name@, *sig, ok, fail, name_idx),
{
    let nothing = matches!(sig.ret, Type::Void | Type::Unknown);
    let call = MirExpr::Call {
        callee: MirCallee::Function { module, name: name.clone(), sig: sig_with_ret(sig, sig.ret.clone()) },
        args: Vec::new(),
    };
    let cond = if nothing {
        MirExpr::Bool(false)
    } else {
        MirExpr::Binary { op: MirBinary::Ne, left: Box::new(MirExpr::Local(1)), right: Box::new(MirExpr::Int(0)) }
    };
    let mut else_stmts: Vec<MirStmt> = Vec::new();
    if nothing {
        else_stmts.push(MirStmt::new(MirStmtKind::Expr(call)));
    } else {
        else_stmts.push(MirStmt::new(MirStmtKind::VarDecl { local: 1, init: Some(call) }));
    }
    let mut on_fail: Vec<MirStmt> = Vec::new();
    on_fail.push(count_failure());
    on_fail.push(print_line(fail, name_idx));
    let mut on_ok: Vec<MirStmt> = Vec::new();
    on_ok.push(print_line(ok, name_idx));
    else_stmts.push(MirStmt::new(MirStmtKind::If { cond, then: on_fail, else_: on_ok }));
    else_stmts.push(MirStmt::new(MirStmtKind::Expr(intrinsic("sw_try_leave", frame_args()))));
    let mut then_stmts: Vec<MirStmt> = Vec::new();
    then_stmts.push(MirStmt::new(MirStmtKind::VarDecl { local: 3, init: Some(intrinsic("sw_try_value", frame_args())) }));
    then_stmts.push(MirStmt::new(MirStmtKind::Expr(intrinsic("sw_try_leave", frame_args()))));
    then_stmts.push(count_failure());
    then_stmts.push(print_line(fail, name_idx));
    let begin = MirStmt::new(MirStmtKind::VarDecl { local: 2, init: Some(intrinsic("sw_try_begin", Vec::new())) });
    proof {
        let e: Seq<MirExpr> = Seq::empty();
        assert(e =~= seq![]);
    }
    let byte = Type::I8;
    assert(byte@ == TypeV::I8);
    let byte_ptr = Type::Ptr(Box::new(byte));
    assert(byte_ptr@ == TypeV::Ptr(Box::new(TypeV::I8)));
    let setjmp = extern_sig("sw_setjmp", "buf", byte_ptr, Type::Int);
    assert(sig_view(setjmp).params =~= setjmp_sig_v().params);
    let jump = MirExpr::Call { callee: MirCallee::Extern { name: String::from_str("sw_setjmp"), sig: setjmp }, args: frame_args() };
    let branch = MirStmt::new(
        MirStmtKind::If {
            cond: MirExpr::Binary { op: MirBinary::Ne, left: Box::new(jump), right: Box::new(MirExpr::Int(0)) },
            then: then_stmts,
            else_: else_stmts,
        },
    );
    (begin, branch)
}

/// The locals of the test entry point: the failure count, a test's result, the
/// exception frame and the exception.
pub open spec fn test_main_locals(locals: Seq<MirLocal>) -> bool {
    &&& locals.len() == 4
    &&& local_view(locals[0]) == ("fail"@, TypeV::Int, true)
    &&& local_view(locals[1]) == ("$ret"@, TypeV::Int, true)
    &&& local_view(locals[2]) == ("$frame"@, TypeV::Ptr(Box::new(TypeV::I8)), true)
    &&& local_view(locals[3]) == ("$exc"@, TypeV::Ptr(Box::new(TypeV::I8)), false)
}

/// The pool after interning the prefixes and then the names of the tests.
pub open spec fn test_pool(pool: Seq<Seq<char>>, tests: Seq<(String, FunctionSig)>) -> Seq<Seq<char>>
    decreases tests.len(),
{
    if tests.len() == 0 {
        interned(interned(pool, "[ok] "@), "[FAIL] "@)
    } else {
        interned(test_pool(pool, tests.drop_last()), tests.last().1.name@)
    }
}

/// The entry point of a test build (`sw_user_main`): runs every test in order inside
/// its own exception frame, prints `[ok] ` or `[FAIL] ` and the test's name, and
/// returns the number of failures. The prefixes and the names go to the string pool.
pub fn build_test_main(strings: &mut Vec<String>, module_id: u32, test_fns: &Vec<(String, FunctionSig)>) -> (r: Option<
    MirFunction,
>)
    requires
        old(strings)@.len() + test_fns@.len() + 2 < usize::MAX,
    ensures
        pool_view(final(strings)@) == test_pool(pool_view(old(strings)@), test_fns@),
        r matches Some(f) && {
            let pool = pool_view(final(strings)@);
            let ok = first_index(pool, "[ok] "@);
            let fail = first_index(pool, "[FAIL] "@);
            &&& f.name@ == "sw_user_main"@
            &&& f.user_name@.len() == 0
            &&& !f.exported
            &&& f.params@.len() == 0
            &&& f.ret@ == TypeV::Int
            &&& !f.extern_c
            &&& test_main_locals(f.locals@)
            &&& f.body@.len() == 2 * test_fns@.len() + 2
            &&& f.body@[0].kind matches MirStmtKind::VarDecl { local: 0, init: Some(z) } && z == MirExpr::Int(0)
            &&& f.body@.last().kind matches MirStmtKind::Return(Some(x)) && x == MirExpr::Local(0)
            &&& forall|i: int|
                0 <= i < test_fns@.len() ==> #[trigger] test_stmts(
                    f.body@[1 + 2 * i],
                    f.body@[2 + 2 * i],
                    module_id,
                    test_fns@[i].0@,
                    test_fns@[i].1,
                    ok as usize,
                    fail as usize,
                    first_index(pool, test_fns@[i].1.name@) as usize,
                )
        },
{
    let mut locals: Vec<MirLocal> = Vec::new();
    locals.push(MirLocal { name: String::from_str("fail"), ty: Type::Int, mutable: true });
    locals.push(MirLocal { name: String::from_str("$ret"), ty: Type::Int, mutable: true });
    let b1 = Type::I8;
    assert(b1@ == TypeV::I8);
    let p1 = Type::Ptr(Box::new(b1));
    assert(p1@ == TypeV::Ptr(Box::new(TypeV::I8)));
    locals.push(MirLocal { name: String::from_str("$frame"), ty: p1, mutable: true });
    let b2 = Type::I8;
    assert(b2@ == TypeV::I8);
    let p2 = Type::Ptr(Box::new(b2));
    assert(p2@ == TypeV::Ptr(Box::new(TypeV::I8)));
    locals.push(MirLocal { name: String::from_str("$exc"), ty: p2, mutable: false });
    assert(test_main_locals(locals@));
    let mut body: Vec<MirStmt> = Vec::new();
    body.push(MirStmt::new(MirStmtKind::VarDecl { local: 0, init: Some(MirExpr::Int(0)) }));
    let ghost start = pool_view(strings@);
    let ok = intern(strings, "[ok] ");
    let fail = intern(strings, "[FAIL] ");
    proof {
        lemma_first_index_grow(interned(start, "[ok] "@), "[ok] "@, "[FAIL] "@);
        lemma_interned_contains(start, "[ok] "@, "[ok] "@);
        lemma_interned_contains(interned(start, "[ok] "@), "[FAIL] "@, "[ok] "@);
        assert(test_fns@.take(0) =~= Seq::<(String, FunctionSig)>::empty());
    }
    let mut names: Vec<usize> = Vec::new();
    let mut i: usize = 0;
    while i < test_fns.len()
        invariant
            i <= test_fns@.len(),
            start.len() + test_fns@.len() + 2 < usize::MAX,
            strings@.len() <= start.len() + 2 + i,
            pool_view(strings@) == test_pool(start, test_fns@.take(i as int)),
            pool_view(strings@).contains("[ok] "@),
            pool_view(strings@).contains("[FAIL] "@),
            ok as int == first_index(pool_view(strings@), "[ok] "@),
            fail as int == first_index(pool_view(strings@), "[FAIL] "@),
            names@.len() == i,
            forall|j: int| 0 <= j < i ==> #[trigger] pool_view(strings@).contains(test_fns@[j].1.name@),
            forall|j: int| 0 <= j < i ==> #[trigger] names@[j] as int == first_index(pool_view(strings@), test_fns@[j].1.name@),
            body@.len() == 1 + 2 * i,
            body@[0].kind matches MirStmtKind::VarDecl { local: 0, init: Some(z) } && z == MirExpr::Int(0),
            forall|j: int|
                0 <= j < i ==> #[trigger] test_stmts(
                    body@[1 + 2 * j],
                    body@[2 + 2 * j],
                    module_id,
                    test_fns@[j].0@,
                    test_fns@[j].1,
                    ok,
                    fail,
                    names@[j],
                ),
        decreases test_fns@.len() - i,
    {
        let ghost before = pool_view(strings@);
        let ghost names_before = names@;
        let entry = &test_fns[i];
        let name_idx = intern(strings, entry.1.name.as_str());
        proof {
            let after = pool_view(strings@);
            assert(test_fns@.take(i + 1).drop_last() =~= test_fns@.take(i as int));
            assert(test_fns@.take(i + 1).last() == *entry);
            lemma_first_index_grow(before, "[ok] "@, entry.1.name@);
            lemma_first_index_grow(before, "[FAIL] "@, entry.1.name@);
            lemma_interned_contains(before, entry.1.name@, "[ok] "@);
            lemma_interned_contains(before, entry.1.name@, "[FAIL] "@);
        }
        let (a, b) = run_test(module_id, &entry.0, &entry.1, ok, fail, name_idx);
        let ghost body_before = body@;
        body.push(a);
        body.push(b);
        names.push(name_idx);
        proof {
            let after = pool_view(strings@);
            lemma_interned_contains(before, entry.1.name@, entry.1.name@);
            assert forall|j: int| 0 <= j < i + 1 implies #[trigger] after.contains(test_fns@[j].1.name@) by {
                if j < i {
                    assert(before.contains(test_fns@[j].1.name@));
                    lemma_interned_contains(before, entry.1.name@, test_fns@[j].1.name@);
                }
            }
            assert forall|j: int| 0 <= j < i + 1 implies #[trigger] names@[j] as int == first_index(
                after,
                test_fns@[j].1.name@,
            ) by {
                if j < i {
                    assert(names@[j] == names_before[j]);
                    assert(before.contains(test_fns@[j].1.name@));
                    assert(names_before[j] as int == first_index(before, test_fns@[j].1.name@));
                    lemma_first_index_grow(before, test_fns@[j].1.name@, entry.1.name@);
                }
            }
            assert forall|j: int| 0 <= j < i + 1 implies #[trigger] test_stmts(
                body@[1 + 2 * j],
                body@[2 + 2 * j],
                module_id,
                test_fns@[j].0@,
                test_fns@[j].1,
                ok,
                fail,
                names@[j],
            ) by {
                if j < i {
                    assert(body@[1 + 2 * j] == body_before[1 + 2 * j]);
                    assert(body@[2 + 2 * j] == body_before[2 + 2 * j]);
                    assert(names@[j] == names_before[j]);
                }
            }
        }
        i += 1;
    }
    let ghost body_loop = body@;
    body.push(MirStmt::new(MirStmtKind::Return(Some(MirExpr::Local(0)))));
    assert(test_fns@.take(i as int) =~= test_fns@);
    let f = MirFunction {
        name: String::from_str("sw_user_main"),
        user_name: String::new(),
        exported: false,
        params: Vec::new(),
        ret: Type::Int,
        locals,
        body,
        extern_c: false,
    };
    proof {
        let pool = pool_view(strings@);
        assert forall|j: int| 0 <= j < test_fns@.len() implies #[trigger] test_stmts(
            f.body@[1 + 2 * j],
            f.body@[2 + 2 * j],
            module_id,
            test_fns@[j].0@,
            test_fns@[j].1,
            ok,
            fail,
            first_index(pool, test_fns@[j].1.name@) as usize,
        ) by {
            assert(f.body@[1 + 2 * j] == body_loop[1 + 2 * j]);
            assert(f.body@[2 + 2 * j] == body_loop[2 + 2 * j]);
            assert(names@[j] as int == first_index(pool, test_fns@[j].1.name@));
        }
        assert(f.body@[0] == body_loop[0]);
        assert(ok as usize == first_index(pool, "[ok] "@) as usize);
        assert(fail as usize == first_index(pool, "[FAIL] "@) as usize);
        assert(test_main_locals(f.locals@));
        assert(f.body@.len() == 2 * test_fns@.len() + 2);
    }
    Some(f)
}

proof fn lemma_first_index_in(pool: Seq<Seq<char>>, v: Seq<char>)
    requires
        pool.contains(v),
    ensures
        0 <= first_index(pool, v) < pool.len(),
        pool[first_index(pool, v)] == v,
    decreases pool.len(),
{
    if !(pool.last() == v && !pool.drop_last().contains(v)) {
        if pool.last() == v {
        } else {
            let k = choose|k: int| 0 <= k < pool.len() && pool[k] == v;
            assert(pool.drop_last()[k] == v);
        }
        lemma_first_index_in(pool.drop_last(), v);
    }
}

} // verus!
