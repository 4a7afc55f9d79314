//! The checker's rules on expressions that need no scope: compile-time constants, the
//! types that literals take, the typing of binary operators and the check of top-level
//! initialisers, over the library's own expression tree.

use vstd::prelude::*;

use crate::lowering::{concatable_with_string, int_literal, op_text, parse_int, BinaryOp};
use crate::symbols::TypeTable;
use crate::text::{push_str, string_from_chars};
use crate::types::{display_text, Type, TypeV, display_v, is_float_v, is_integer_v, is_numeric_v, lemma_display_v, base_v};
use crate::typing::{assignable, class_ids_ok, classes_ok, is_assignable, is_reference_v, same_type};

verus! {

/// Prefix operators of the source language.
#[derive(Clone, Copy, Debug, PartialEq, Eq, Structural)]
pub enum UnaryOp {
    Neg,
    Pos,
    Not,
    BitNot,
    Inc,
    Dec,
    Await,
}

/// The type suffix of an integer literal (`1u8`).
#[derive(Clone, Copy, Debug, PartialEq, Eq, Structural)]
pub enum IntegerSuffix {
    I8,
    I16,
    I32,
    I64,
    Isize,
    U8,
    U16,
    U32,
    U64,
    Usize,
}

/// The type suffix of a floating-point literal (`1.5f32`).
#[derive(Clone, Copy, Debug, PartialEq, Eq, Structural)]
pub enum FloatSuffix {
    F32,
    F64,
}

/// Compound and plain assignment operators.
#[derive(Clone, Copy, Debug, PartialEq, Eq, Structural)]
pub enum AssignOp {
    Assign,
    Add,
    Sub,
    Mul,
    Div,
    Rem,
    BitAnd,
    BitOr,
    BitXor,
    Shl,
    Shr,
    LogicalAnd,
    LogicalOr,
    Coalesce,
}

/// Postfix operators.
#[derive(Clone, Copy, Debug, PartialEq, Eq, Structural)]
pub enum PostfixOp {
    Inc,
    Dec,
}

/// An expression of the source language, as the checker reads it. Type annotations
/// (the target of a cast) are already resolved to types.
pub enum Expr {
    /// An integer literal, as written, and its type suffix.
    Integer { text: String, suffix: Option<IntegerSuffix> },
    /// A floating-point literal, as written, its type suffix, and the bit pattern of
    /// its `f64` value (reading the digits is floating-point work, done where the tree
    /// is built).
    Float { text: String, suffix: Option<FloatSuffix>, bits: u64 },
    Str(String),
    Null,
    Bool(bool),
    Char(char),
    /// A name.
    Ident(String),
    This,
    Super,
    /// `(e)`.
    Group(Box<Expr>),
    /// `e as T`.
    Cast { expr: Box<Expr>, ty: Type },
    Unary { op: UnaryOp, expr: Box<Expr> },
    Binary { op: BinaryOp, left: Box<Expr>, right: Box<Expr> },
    /// `target op= value`.
    Assign { op: AssignOp, target: Box<Expr>, value: Box<Expr> },
    /// `cond ? then : else`.
    Conditional { cond: Box<Expr>, then: Box<Expr>, else_: Box<Expr> },
    /// `object[index]`, or `object?.[index]` when `optional`.
    Index { object: Box<Expr>, index: Box<Expr>, optional: bool },
    /// `object[start..end]`.
    Slice { object: Box<Expr>, start: Option<Box<Expr>>, end: Option<Box<Expr>> },
    /// `e++`, `e--`.
    Postfix { expr: Box<Expr>, op: PostfixOp },
    /// `...e`.
    Spread(Box<Expr>),
    /// `[a, b, ...c]`.
    Array(Vec<Expr>),
    /// `object.name`, or `object?.name` when `optional`.
    Member { object: Box<Expr>, name: String, optional: bool },
    /// A call of a function by its name: `name(args)`.
    Call { name: String, args: Vec<Expr> },
    /// An expression of another kind (a method or `super` call, a lambda, `new`, an
    /// object literal, a template, `?`, `match`), with the type its own check gave.
    Typed(Type),
}

/// The sign of `a` times the quotient of the magnitudes: Rust's `/` on integers.
pub open spec fn trunc_div(a: int, b: int) -> int {
    let q = abs(a) / abs(b);
    if (a < 0) == (b < 0) {
        q
    } else {
        -q
    }
}

/// The remainder that takes the sign of `a`: Rust's `%` on integers.
pub open spec fn trunc_rem(a: int, b: int) -> int {
    let r = abs(a) % abs(b);
    if a < 0 {
        -r
    } else {
        r
    }
}

/// `|a|`.
pub open spec fn abs(a: int) -> int {
    if a < 0 {
        -a
    } else {
        a
    }
}

/// `a` when it fits in `i64`.
pub open spec fn in_i64(a: int) -> Option<int> {
    if i64::MIN <= a <= i64::MAX {
        Some(a)
    } else {
        None
    }
}

/// `l op r` as `i64::checked_add`, `checked_sub`, `checked_mul`, `checked_div` and
/// `checked_rem` compute it; other operators give no constant.
pub open spec fn checked_op(op: BinaryOp, l: int, r: int) -> Option<int> {
    match op {
        BinaryOp::Add => in_i64(l + r),
        BinaryOp::Sub => in_i64(l - r),
        BinaryOp::Mul => in_i64(l * r),
        BinaryOp::Div => if r == 0 {
            None
        } else {
            in_i64(trunc_div(l, r))
        },
        BinaryOp::Rem => if r == 0 || (l == i64::MIN && r == -1) {
            None
        } else {
            Some(trunc_rem(l, r))
        },
        _ => None,
    }
}

/// The value of a constant integer expression: literals, `-` and `+` before a
/// constant, and `+ - * / %` of two constants without overflow or division by zero.
pub open spec fn const_value(e: Expr) -> Option<int>
    decreases e,
{
    match e {
        Expr::Integer { text, .. } => int_literal(text@),
        Expr::Unary { op, expr } => match op {
            UnaryOp::Neg => match const_value(*expr) {
                Some(v) => Some(-v),
                None => None,
            },
            UnaryOp::Pos => const_value(*expr),
            _ => None,
        },
        Expr::Binary { op, left, right } => match const_value(*left) {
            Some(l) => match const_value(*right) {
                Some(r) => checked_op(op, l, r),
                None => None,
            },
            None => None,
        },
        _ => None,
    }
}

/// Evaluating `e` negates no `i64::MIN` (negating it overflows, and the evaluation
/// stops there). A right operand is evaluated only after a constant left one.
pub open spec fn negation_ok(e: Expr) -> bool
    decreases e,
{
    match e {
        Expr::Unary { op, expr } => match op {
            UnaryOp::Neg => negation_ok(*expr) && const_value(*expr) != Some(i64::MIN as int),
            UnaryOp::Pos => negation_ok(*expr),
            _ => true,
        },
        Expr::Binary { op, left, right } => negation_ok(*left) && (const_value(*left) is Some ==> negation_ok(
            *right,
        )),
        _ => true,
    }
}

fn checked_exec(op: BinaryOp, l: i64, r: i64) -> (v: Option<i64>)
    ensures
        match v {
            Some(x) => checked_op(op, l as int, r as int) == Some(x as int),
            None => checked_op(op, l as int, r as int) is None,
        },
{
    let a = l as i128;
    let b = r as i128;
    let wide: i128 = match op {
        BinaryOp::Add => a + b,
        BinaryOp::Sub => a - b,
        BinaryOp::Mul => {
            assert(-0x4000_0000_0000_0000_0000_0000_0000_0000 <= a * b <= 0x4000_0000_0000_0000_0000_0000_0000_0000)
                by (nonlinear_arith)
                requires
                    -0x8000_0000_0000_0000 <= a <= 0x7fff_ffff_ffff_ffff,
                    -0x8000_0000_0000_0000 <= b <= 0x7fff_ffff_ffff_ffff,
            ;
            a * b
        },
        BinaryOp::Div | BinaryOp::Rem => {
            if r == 0 {
                return None;
            }
            let ua: u128 = if a < 0 {
                (-a) as u128
            } else {
                a as u128
            };
            let ub: u128 = if b < 0 {
                (-b) as u128
            } else {
                b as u128
            };
            assert(ua as int == abs(a as int) && ub as int == abs(b as int));
            if let BinaryOp::Div = op {
                let q = ua / ub;
                assert(q <= ua) by (nonlinear_arith)
                    requires
                        ub >= 1,
                        q == ua / ub,
                ;
                if (a < 0) == (b < 0) {
                    q as i128
                } else {
                    -(q as i128)
                }
            } else {
                if l == i64::MIN && r == -1 {
                    return None;
                }
                let m = ua % ub;
                if a < 0 {
                    -(m as i128)
                } else {
                    m as i128
                }
            }
        },
        _ => return None,
    };
    if wide < i64::MIN as i128 || wide > i64::MAX as i128 {
        None
    } else {
        Some(wide as i64)
    }
}

/// Constant arithmetic computes on the operands in their order: when `left` and
/// `right` are constants `a` and `b`, `left + right`, `left - right` and
/// `left * right` are the constants `a + b`, `a - b` and `a * b` when those fit in
/// `i64`, and no constant otherwise.
pub proof fn lemma_const_arithmetic(left: Expr, right: Expr, a: int, b: int)
    requires
        const_value(left) == Some(a),
        const_value(right) == Some(b),
    ensures
        const_value(Expr::Binary { op: BinaryOp::Add, left: Box::new(left), right: Box::new(right) }) == (if i64::MIN
            <= a + b <= i64::MAX {
            Some(a + b)
        } else {
            None
        }),
        const_value(Expr::Binary { op: BinaryOp::Sub, left: Box::new(left), right: Box::new(right) }) == (if i64::MIN
            <= a - b <= i64::MAX {
            Some(a - b)
        } else {
            None
        }),
        const_value(Expr::Binary { op: BinaryOp::Mul, left: Box::new(left), right: Box::new(right) }) == (if i64::MIN
            <= a * b <= i64::MAX {
            Some(a * b)
        } else {
            None
        }),
{
}

/// Constant division and remainder of non-negative operands are the quotient and
/// remainder of `a` by `b`, in that order; a negative dividend gives the negated
/// quotient and remainder of its magnitude (Rust's rounding toward zero); division
/// by zero gives no constant.
pub proof fn lemma_const_division(left: Expr, right: Expr, a: int, b: int)
    requires
        const_value(left) == Some(a),
        const_value(right) == Some(b),
        i64::MIN < a <= i64::MAX,
        i64::MIN < b <= i64::MAX,
    ensures
        b == 0 ==> const_value(Expr::Binary { op: BinaryOp::Div, left: Box::new(left), right: Box::new(right) }) is None,
        b == 0 ==> const_value(Expr::Binary { op: BinaryOp::Rem, left: Box::new(left), right: Box::new(right) }) is None,
        a >= 0 && b > 0 ==> const_value(Expr::Binary { op: BinaryOp::Div, left: Box::new(left), right: Box::new(right) })
            == Some(a / b),
        a >= 0 && b > 0 ==> const_value(Expr::Binary { op: BinaryOp::Rem, left: Box::new(left), right: Box::new(right) })
            == Some(a % b),
        a < 0 && b > 0 ==> const_value(Expr::Binary { op: BinaryOp::Div, left: Box::new(left), right: Box::new(right) })
            == Some(-((-a) / b)),
        a < 0 && b > 0 ==> const_value(Expr::Binary { op: BinaryOp::Rem, left: Box::new(left), right: Box::new(right) })
            == Some(-((-a) % b)),
{
    if b > 0 {
        assert(0 <= abs(a) / b <= abs(a)) by (nonlinear_arith)
            requires
                b > 0,
                abs(a) >= 0,
        ;
    }
}

/// The value of a constant integer expression (see `const_value`).
pub fn const_int(e: &Expr) -> (r: Option<i64>)
    requires
        negation_ok(*e),
    ensures
        match r {
            Some(v) => const_value(*e) == Some(v as int),
            None => const_value(*e) is None,
        },
    decreases e,
{
    match e {
        Expr::Integer { text, .. } => parse_int(text.as_str()),
        Expr::Unary { op, expr } => match op {
            UnaryOp::Neg => match const_int(expr) {
                Some(v) => Some(-v),
                None => None,
            },
            UnaryOp::Pos => const_int(expr),
            _ => None,
        },
        Expr::Binary { op, left, right } => {
            let l = match const_int(left) {
                Some(l) => l,
                None => return None,
            };
            let r = match const_int(right) {
                Some(r) => r,
                None => return None,
            };
            checked_exec(*op, l, r)
        },
        _ => None,
    }
}

/// The type of a constant expression: `int`, `f64`, `string`, `bool` and `char`
/// literals; an arithmetic operator of two numeric constants has the left one's
/// type, a comparison of two constants is `bool`; `-` and `+` keep a numeric type,
/// `!` a `bool` and `~` an integer type. Anything else is no constant.
pub open spec fn const_type_spec(e: Expr) -> Option<Type>
    decreases e,
{
    match e {
        Expr::Integer { .. } => Some(Type::Int),
        Expr::Float { .. } => Some(Type::F64),
        Expr::Str(_) => Some(Type::Str),
        Expr::Bool(_) => Some(Type::Bool),
        Expr::Char(_) => Some(Type::Char),
        Expr::Null => None,
        Expr::Binary { op, left, right } => match (const_type_spec(*left), const_type_spec(*right)) {
            (Some(l), Some(r)) => if (op is Add || op is Sub || op is Mul || op is Div || op is Rem)
                && l.is_numeric() && r.is_numeric() {
                Some(l)
            } else if op is Eq || op is Ne || op is Lt || op is Le || op is Gt || op is Ge {
                Some(Type::Bool)
            } else {
                None
            },
            _ => None,
        },
        Expr::Unary { op, expr } => match const_type_spec(*expr) {
            Some(inner) => {
                let valid = match op {
                    UnaryOp::Neg | UnaryOp::Pos => inner.is_numeric(),
                    UnaryOp::Not => inner is Bool,
                    UnaryOp::BitNot => inner.is_integer(),
                    _ => false,
                };
                if valid {
                    Some(inner)
                } else {
                    None
                }
            },
            None => None,
        },
        _ => None,
    }
}

/// The type of a constant expression (see `const_type_spec`); `None` when it is no
/// constant.
pub fn const_type(e: &Expr) -> (r: Option<Type>)
    ensures
        match r {
            Some(t) => const_type_spec(*e) matches Some(s) && t@ == s@,
            None => const_type_spec(*e) is None,
        },
    decreases e,
{
    match e {
        Expr::Integer { .. } => Some(Type::Int),
        Expr::Float { .. } => Some(Type::F64),
        Expr::Str(_) => Some(Type::Str),
        Expr::Bool(_) => Some(Type::Bool),
        Expr::Char(_) => Some(Type::Char),
        Expr::Null => None,
        Expr::Binary { op, left, right } => {
            let l = match const_type(left) {
                Some(l) => l,
                None => return None,
            };
            let r = match const_type(right) {
                Some(r) => r,
                None => return None,
            };
            let arith = match op {
                BinaryOp::Add | BinaryOp::Sub | BinaryOp::Mul | BinaryOp::Div | BinaryOp::Rem => true,
                _ => false,
            };
            if arith && l.is_numeric() && r.is_numeric() {
                return Some(l);
            }
            match op {
                BinaryOp::Eq | BinaryOp::Ne | BinaryOp::Lt | BinaryOp::Le | BinaryOp::Gt | BinaryOp::Ge => Some(
                    Type::Bool,
                ),
                _ => None,
            }
        },
        Expr::Unary { op, expr } => {
            let inner = match const_type(expr) {
                Some(t) => t,
                None => return None,
            };
            let valid = match op {
                UnaryOp::Neg | UnaryOp::Pos => inner.is_numeric(),
                UnaryOp::Not => match inner {
                    Type::Bool => true,
                    _ => false,
                },
                UnaryOp::BitNot => inner.is_integer(),
                _ => false,
            };
            if valid {
                Some(inner)
            } else {
                None
            }
        },
        _ => None,
    }
}

/// A numeric literal may take the type `target` without a conversion: an integer
/// literal an integer type, a floating-point literal a floating-point type.
pub open spec fn literal_fits(e: Expr, target: TypeV) -> bool {
    match e {
        Expr::Integer { .. } => is_integer_v(target),
        Expr::Float { .. } => is_float_v(target),
        _ => false,
    }
}

/// Whether the literal `e` may take the type `target` (see `literal_fits`).
pub fn literal_target_ok(e: &Expr, target: &Type) -> (r: bool)
    ensures
        r == literal_fits(*e, target@),
{
    match e {
        Expr::Integer { .. } => target.is_integer(),
        Expr::Float { .. } => target.is_float(),
        _ => false,
    }
}

/// A numeric literal.
pub open spec fn is_numeric_literal(e: Expr) -> bool {
    e is Integer || e is Float
}

/// The operand types of a binary operator once a numeric literal has taken the type of
/// the other operand when that one is numeric (the left literal first).
pub open spec fn adapted_types(left: Expr, right: Expr, lt: TypeV, rt: TypeV) -> (TypeV, TypeV) {
    if is_numeric_literal(left) && is_numeric_v(rt) {
        (rt, rt)
    } else if is_numeric_literal(right) && is_numeric_v(lt) {
        (lt, lt)
    } else {
        (lt, rt)
    }
}

/// The operand types of a binary operator with its literals adapted (see
/// `adapted_types`).
pub fn adapt_literal_operands(left: &Expr, right: &Expr, left_ty: Type, right_ty: Type) -> (r: (Type, Type))
    ensures
        r.0@ == adapted_types(*left, *right, left_ty@, right_ty@).0,
        r.1@ == adapted_types(*left, *right, left_ty@, right_ty@).1,
{
    let left_literal = match left {
        Expr::Integer { .. } | Expr::Float { .. } => true,
        _ => false,
    };
    let right_literal = match right {
        Expr::Integer { .. } | Expr::Float { .. } => true,
        _ => false,
    };
    if left_literal && right_ty.is_numeric() {
        (right_ty.clone(), right_ty)
    } else if right_literal && left_ty.is_numeric() {
        (left_ty.clone(), left_ty)
    } else {
        (left_ty, right_ty)
    }
}

/// The message when the operands of a binary operator do not fit it.
pub open spec fn binary_type_text(op: BinaryOp, left: TypeV, right: TypeV) -> Seq<char> {
    "二元运算 `"@ + op_text(op) + "` 的操作数类型不匹配："@ + display_v(left) + " 与 "@ + display_v(right)
}

/// The message when the operands of a binary operator do not fit it.
pub fn binary_type_message(op: &BinaryOp, left: &Type, right: &Type) -> (r: String)
    ensures
        r@ == binary_type_text(*op, left@, right@),
{
    let mut out: Vec<char> = Vec::new();
    push_str(&mut out, "二元运算 `");
    push_str(&mut out, crate::lowering::binary_op_name(op));
    push_str(&mut out, "` 的操作数类型不匹配：");
    proof {
        lemma_display_v(*left);
    }
    left.display_into(&mut out);
    push_str(&mut out, " 与 ");
    proof {
        lemma_display_v(*right);
    }
    right.display_into(&mut out);
    string_from_chars(&out)
}

/// A scalar that `+` turns into text next to a string.
pub open spec fn concatable(t: TypeV) -> bool {
    t is Str || t is Int || t is F32 || t is F64 || t is Bool || t is Char
}

/// The message when the left operand of `??` is not nullable.
pub open spec fn coalesce_text(left: TypeV) -> Seq<char> {
    "`??` 左侧必须是可空类型，实际为 "@ + display_v(left)
}

/// The type of `a op b` for operand types `a` and `b` (literals already adapted), and
/// the error it gets, if any:
/// - `+`: two strings, or a string and a scalar, make a string; two equal numeric
///   types make that type;
/// - `- * / % **`: two equal numeric types make that type;
/// - `== !=`: `bool`, an error unless the types are equal or one is `null` and the
///   other a reference or nullable type;
/// - `< <= > >=`: `bool`, an error unless both are the same numeric type;
/// - `&& ||`: `bool`, an error unless both are `bool`;
/// - `& | ^ << >>`: two equal integer types make that type;
/// - `??`: a nullable left whose base type the right operand is assignable to makes that
///   base type;
/// otherwise the error type and the operand-type error (`??`: its own message).
pub open spec fn binary_rule(types: TypeTable, op: BinaryOp, a: TypeV, b: TypeV) -> (TypeV, Option<Seq<char>>) {
    let mismatch = Some(binary_type_text(op, a, b));
    match op {
        BinaryOp::Add => if (a is Str && b is Str) || (a is Str && concatable(b)) || (b is Str && concatable(a)) {
            (TypeV::Str, None)
        } else if is_numeric_v(a) && a == b {
            (a, None)
        } else {
            (TypeV::Error, mismatch)
        },
        BinaryOp::Sub | BinaryOp::Mul | BinaryOp::Div | BinaryOp::Rem | BinaryOp::Pow => if is_numeric_v(a) && a
            == b {
            (a, None)
        } else {
            (TypeV::Error, mismatch)
        },
        BinaryOp::Eq | BinaryOp::Ne => if a == b || (a is Null && (is_reference_v(b) || b is Nullable)) || (b is Null
            && (is_reference_v(a) || a is Nullable)) {
            (TypeV::Bool, None)
        } else {
            (TypeV::Bool, mismatch)
        },
        BinaryOp::Lt | BinaryOp::Le | BinaryOp::Gt | BinaryOp::Ge => if is_numeric_v(a) && a == b {
            (TypeV::Bool, None)
        } else {
            (TypeV::Bool, mismatch)
        },
        BinaryOp::And | BinaryOp::Or => if a is Bool && b is Bool {
            (TypeV::Bool, None)
        } else {
            (TypeV::Bool, mismatch)
        },
        BinaryOp::BitAnd | BinaryOp::BitOr | BinaryOp::BitXor | BinaryOp::Shl | BinaryOp::Shr => if is_integer_v(a)
            && a == b {
            (a, None)
        } else {
            (TypeV::Error, mismatch)
        },
        BinaryOp::Coalesce => match a {
            TypeV::Nullable(inner) => if assignable(types, b, *inner) {
                (*inner, None)
            } else {
                (TypeV::Error, Some(coalesce_text(a)))
            },
            _ => (TypeV::Error, Some(coalesce_text(a))),
        },
    }
}

/// The type of the binary expression `left op right` whose operands have the types
/// `left_ty` and `right_ty`, with the error it gets (see `adapted_types` and
/// `binary_rule`).
pub open spec fn binary_check(
    types: TypeTable,
    op: BinaryOp,
    left: Expr,
    right: Expr,
    left_ty: TypeV,
    right_ty: TypeV,
) -> (TypeV, Option<Seq<char>>) {
    let (a, b) = adapted_types(left, right, left_ty, right_ty);
    binary_rule(types, op, a, b)
}

fn coalesce_message(left: &Type) -> (r: String)
    ensures
        r@ == coalesce_text(left@),
{
    let mut out: Vec<char> = Vec::new();
    push_str(&mut out, "`??` 左侧必须是可空类型，实际为 ");
    proof {
        lemma_display_v(*left);
    }
    left.display_into(&mut out);
    string_from_chars(&out)
}

fn binary_rule_exec(types: &TypeTable, op: &BinaryOp, a: &Type, b: &Type) -> (r: (Type, Option<String>))
    requires
        classes_ok(*types),
        class_ids_ok(b@, types.classes@.len()),
    ensures
        r.0@ == binary_rule(*types, *op, a@, b@).0,
        (match r.1 {
            Some(m) => Some(m@),
            None => None,
        }) == binary_rule(*types, *op, a@, b@).1,
{
    let same = same_type(a, b);
    match op {
        BinaryOp::Add => {
            let a_str = match a {
                Type::Str => true,
                _ => false,
            };
            let b_str = match b {
                Type::Str => true,
                _ => false,
            };
            if (a_str && b_str) || (a_str && concatable_with_string(b)) || (b_str && concatable_with_string(a)) {
                (Type::Str, None)
            } else if a.is_numeric() && same {
                (a.clone(), None)
            } else {
                (Type::Error, Some(binary_type_message(op, a, b)))
            }
        },
        BinaryOp::Sub | BinaryOp::Mul | BinaryOp::Div | BinaryOp::Rem | BinaryOp::Pow => {
            if a.is_numeric() && same {
                (a.clone(), None)
            } else {
                (Type::Error, Some(binary_type_message(op, a, b)))
            }
        },
        BinaryOp::Eq | BinaryOp::Ne => {
            let a_null = match a {
                Type::Null => true,
                _ => false,
            };
            let b_null = match b {
                Type::Null => true,
                _ => false,
            };
            let a_nullable = match a {
                Type::Nullable(_) => true,
                _ => false,
            };
            let b_nullable = match b {
                Type::Nullable(_) => true,
                _ => false,
            };
            if same || (a_null && (b.is_reference() || b_nullable)) || (b_null && (a.is_reference() || a_nullable)) {
                (Type::Bool, None)
            } else {
                (Type::Bool, Some(binary_type_message(op, a, b)))
            }
        },
        BinaryOp::Lt | BinaryOp::Le | BinaryOp::Gt | BinaryOp::Ge => {
            if a.is_numeric() && same {
                (Type::Bool, None)
            } else {
                (Type::Bool, Some(binary_type_message(op, a, b)))
            }
        },
        BinaryOp::And | BinaryOp::Or => {
            let both = match (a, b) {
                (Type::Bool, Type::Bool) => true,
                _ => false,
            };
            if both {
                (Type::Bool, None)
            } else {
                (Type::Bool, Some(binary_type_message(op, a, b)))
            }
        },
        BinaryOp::BitAnd | BinaryOp::BitOr | BinaryOp::BitXor | BinaryOp::Shl | BinaryOp::Shr => {
            if a.is_integer() && same {
                (a.clone(), None)
            } else {
                (Type::Error, Some(binary_type_message(op, a, b)))
            }
        },
        BinaryOp::Coalesce => match a {
            Type::Nullable(inner) => {
                if is_assignable(types, b, inner) {
                    ((**inner).clone(), None)
                } else {
                    (Type::Error, Some(coalesce_message(a)))
                }
            },
            _ => (Type::Error, Some(coalesce_message(a))),
        },
    }
}

/// The type of the binary expression `left op right` whose operands have the types
/// `left_ty` and `right_ty`, and the error it gets (see `binary_check`).
pub fn check_binary(
    types: &TypeTable,
    op: &BinaryOp,
    left: &Expr,
    right: &Expr,
    left_ty: &Type,
    right_ty: &Type,
) -> (r: (Type, Option<String>))
    requires
        classes_ok(*types),
        class_ids_ok(left_ty@, types.classes@.len()),
        class_ids_ok(right_ty@, types.classes@.len()),
    ensures
        r.0@ == binary_check(*types, *op, *left, *right, left_ty@, right_ty@).0,
        (match r.1 {
            Some(m) => Some(m@),
            None => None,
        }) == binary_check(*types, *op, *left, *right, left_ty@, right_ty@).1,
{
    let left_literal = match left {
        Expr::Integer { .. } | Expr::Float { .. } => true,
        _ => false,
    };
    let right_literal = match right {
        Expr::Integer { .. } | Expr::Float { .. } => true,
        _ => false,
    };
    if left_literal && right_ty.is_numeric() {
        binary_rule_exec(types, op, right_ty, right_ty)
    } else if right_literal && left_ty.is_numeric() {
        binary_rule_exec(types, op, left_ty, left_ty)
    } else {
        binary_rule_exec(types, op, left_ty, right_ty)
    }
}

// ---------------------------------------------------------------------------
// Literals, casts, prefix operators, conditionals and assignments.
// ---------------------------------------------------------------------------

/// The type of a literal: an integer literal's suffix type or `int`, a floating-point
/// literal's suffix type or `f64`, `string`, `char`, `bool`, and the `null` type; no
/// other expression is a literal.
pub open spec fn literal_type_spec(e: Expr) -> Option<Type> {
    match e {
        Expr::Integer { suffix, .. } => Some(
            match suffix {
                Some(IntegerSuffix::I8) => Type::I8,
                Some(IntegerSuffix::I16) => Type::I16,
                Some(IntegerSuffix::I32) => Type::I32,
                Some(IntegerSuffix::I64) => Type::I64,
                Some(IntegerSuffix::Isize) => Type::Isize,
                Some(IntegerSuffix::U8) => Type::U8,
                Some(IntegerSuffix::U16) => Type::U16,
                Some(IntegerSuffix::U32) => Type::U32,
                Some(IntegerSuffix::U64) => Type::U64,
                Some(IntegerSuffix::Usize) => Type::Usize,
                None => Type::Int,
            },
        ),
        Expr::Float { suffix, .. } => Some(
            match suffix {
                Some(FloatSuffix::F32) => Type::F32,
                _ => Type::F64,
            },
        ),
        Expr::Str(_) => Some(Type::Str),
        Expr::Char(_) => Some(Type::Char),
        Expr::Bool(_) => Some(Type::Bool),
        Expr::Null => Some(Type::Null),
        _ => None,
    }
}

/// The type of a literal (see `literal_type_spec`).
pub fn literal_type(e: &Expr) -> (r: Option<Type>)
    ensures
        r == literal_type_spec(*e),
{
    match e {
        Expr::Integer { suffix, .. } => Some(
            match suffix {
                Some(IntegerSuffix::I8) => Type::I8,
                Some(IntegerSuffix::I16) => Type::I16,
                Some(IntegerSuffix::I32) => Type::I32,
                Some(IntegerSuffix::I64) => Type::I64,
                Some(IntegerSuffix::Isize) => Type::Isize,
                Some(IntegerSuffix::U8) => Type::U8,
                Some(IntegerSuffix::U16) => Type::U16,
                Some(IntegerSuffix::U32) => Type::U32,
                Some(IntegerSuffix::U64) => Type::U64,
                Some(IntegerSuffix::Usize) => Type::Usize,
                None => Type::Int,
            },
        ),
        Expr::Float { suffix, .. } => Some(
            match suffix {
                Some(FloatSuffix::F32) => Type::F32,
                _ => Type::F64,
            },
        ),
        Expr::Str(_) => Some(Type::Str),
        Expr::Char(_) => Some(Type::Char),
        Expr::Bool(_) => Some(Type::Bool),
        Expr::Null => Some(Type::Null),
        _ => None,
    }
}

/// `a`, the type's name and `b`.
pub open spec fn with_type(a: Seq<char>, t: TypeV, b: Seq<char>) -> Seq<char> {
    a + display_v(t) + b
}

/// `a`, the first type's name, `b`, the second type's name.
pub open spec fn with_types(a: Seq<char>, t: TypeV, b: Seq<char>, u: TypeV) -> Seq<char> {
    a + display_v(t) + b + display_v(u)
}

pub(crate) fn message1(a: &str, t: &Type, b: &str) -> (r: String)
    ensures
        r@ == with_type(a@, t@, b@),
{
    let mut out: Vec<char> = Vec::new();
    push_str(&mut out, a);
    proof {
        lemma_display_v(*t);
    }
    t.display_into(&mut out);
    push_str(&mut out, b);
    string_from_chars(&out)
}

pub(crate) fn message2(a: &str, t: &Type, b: &str, u: &Type) -> (r: String)
    ensures
        r@ == with_types(a@, t@, b@, u@),
{
    let mut out: Vec<char> = Vec::new();
    push_str(&mut out, a);
    proof {
        lemma_display_v(*t);
    }
    t.display_into(&mut out);
    push_str(&mut out, b);
    proof {
        lemma_display_v(*u);
    }
    u.display_into(&mut out);
    string_from_chars(&out)
}

/// A value of type `from` may be cast to `to`: either is the error type; both are
/// numeric; `char` and an integer type either way; a pointer and an integer type
/// either way; two pointers.
pub open spec fn convertible(from: TypeV, to: TypeV) -> bool {
    ||| from is Error || to is Error
    ||| is_numeric_v(from) && is_numeric_v(to)
    ||| from is Char && is_integer_v(to)
    ||| is_integer_v(from) && to is Char
    ||| from is Ptr && is_integer_v(to)
    ||| is_integer_v(from) && to is Ptr
    ||| from is Ptr && to is Ptr
}

/// The error of the cast of a `from` value to `to`, if it is not convertible.
pub open spec fn cast_error(from: TypeV, to: TypeV) -> Option<Seq<char>> {
    if convertible(from, to) {
        None
    } else {
        Some(with_types("不能把 "@, from, " 转换为 "@, to))
    }
}

/// The error of a cast (the cast's type is its target, `to`).
pub fn check_cast(from: &Type, to: &Type) -> (r: Option<String>)
    ensures
        (match r {
            Some(m) => Some(m@),
            None => None,
        }) == cast_error(from@, to@),
{
    let from_error = match from {
        Type::Error => true,
        _ => false,
    };
    let to_error = match to {
        Type::Error => true,
        _ => false,
    };
    let from_char = match from {
        Type::Char => true,
        _ => false,
    };
    let to_char = match to {
        Type::Char => true,
        _ => false,
    };
    let from_ptr = match from {
        Type::Ptr(_) => true,
        _ => false,
    };
    let to_ptr = match to {
        Type::Ptr(_) => true,
        _ => false,
    };
    let ok = from_error || to_error || (from.is_numeric() && to.is_numeric()) || (from_char && to.is_integer()) || (
    from.is_integer() && to_char) || (from_ptr && to.is_integer()) || (from.is_integer() && to_ptr) || (from_ptr
        && to_ptr);
    if ok {
        None
    } else {
        Some(message2("不能把 ", from, " 转换为 ", to))
    }
}

/// The type of a prefix operator applied to an operand of type `ty`, and its error:
/// `!` makes `bool` and needs a `bool`; `-` and `+` keep a numeric type; `~` keeps an
/// integer type; `++` and `--` keep a numeric type and need an assignable operand
/// (`lvalue`); `await` is not supported.
pub open spec fn unary_rule(op: UnaryOp, ty: TypeV, lvalue: bool) -> (TypeV, Option<Seq<char>>) {
    match op {
        UnaryOp::Not => (TypeV::Bool, if ty is Bool {
            None
        } else {
            Some(with_type("`!` 需要 bool，实际为 "@, ty, ""@))
        }),
        UnaryOp::Neg | UnaryOp::Pos => (ty, if is_numeric_v(ty) {
            None
        } else {
            Some(with_type("一元符号需要数值，实际为 "@, ty, ""@))
        }),
        UnaryOp::BitNot => (ty, if is_integer_v(ty) {
            None
        } else {
            Some(with_type("`~` 需要整数，实际为 "@, ty, ""@))
        }),
        UnaryOp::Inc | UnaryOp::Dec => (ty, if is_numeric_v(ty) && lvalue {
            None
        } else {
            Some("`++`/`--` 需要可赋值的数值目标"@)
        }),
        UnaryOp::Await => (ty, Some("v0.1 语义阶段暂不支持 await"@)),
    }
}

/// The type and error of a prefix operator (see `unary_rule`); `lvalue` says whether
/// the operand can be assigned to.
pub fn check_unary(op: &UnaryOp, ty: &Type, lvalue: bool) -> (r: (Type, Option<String>))
    ensures
        r.0@ == unary_rule(*op, ty@, lvalue).0,
        (match r.1 {
            Some(m) => Some(m@),
            None => None,
        }) == unary_rule(*op, ty@, lvalue).1,
{
    match op {
        UnaryOp::Not => {
            let ok = match ty {
                Type::Bool => true,
                _ => false,
            };
            (Type::Bool, if ok {
                None
            } else {
                Some(message1("`!` 需要 bool，实际为 ", ty, ""))
            })
        },
        UnaryOp::Neg | UnaryOp::Pos => (ty.clone(), if ty.is_numeric() {
            None
        } else {
            Some(message1("一元符号需要数值，实际为 ", ty, ""))
        }),
        UnaryOp::BitNot => (ty.clone(), if ty.is_integer() {
            None
        } else {
            Some(message1("`~` 需要整数，实际为 ", ty, ""))
        }),
        UnaryOp::Inc | UnaryOp::Dec => (ty.clone(), if ty.is_numeric() && lvalue {
            None
        } else {
            Some(String::from_str("`++`/`--` 需要可赋值的数值目标"))
        }),
        UnaryOp::Await => (ty.clone(), Some(String::from_str("v0.1 语义阶段暂不支持 await"))),
    }
}

/// The type of `cond ? then : else` with branch types `then_ty` and `else_ty`, and its
/// errors in order: the condition must be `bool`; the branch types must be assignable
/// one to the other (the `else` type when `then` is assignable to it, else the `then`
/// type), else the error type.
pub open spec fn conditional_rule(types: TypeTable, cond_ty: TypeV, then_ty: TypeV, else_ty: TypeV) -> (
    TypeV,
    Seq<Seq<char>>,
) {
    let cond_errors = if cond_ty is Bool {
        Seq::empty()
    } else {
        seq![with_type("三元条件必须是 bool，实际为 "@, cond_ty, ""@)]
    };
    if assignable(types, then_ty, else_ty) {
        (else_ty, cond_errors)
    } else if assignable(types, else_ty, then_ty) {
        (then_ty, cond_errors)
    } else {
        (TypeV::Error, cond_errors.push(with_types("三元表达式分支类型不一致："@, then_ty, " 与 "@, else_ty)))
    }
}

/// The type and errors of a conditional expression (see `conditional_rule`).
pub fn check_conditional(types: &TypeTable, cond_ty: &Type, then_ty: &Type, else_ty: &Type) -> (r: (Type, Vec<String>))
    requires
        classes_ok(*types),
        class_ids_ok(then_ty@, types.classes@.len()),
        class_ids_ok(else_ty@, types.classes@.len()),
    ensures
        r.0@ == conditional_rule(*types, cond_ty@, then_ty@, else_ty@).0,
        crate::text::strs_view(r.1@) == conditional_rule(*types, cond_ty@, then_ty@, else_ty@).1,
{
    let mut errors: Vec<String> = Vec::new();
    let cond_ok = match cond_ty {
        Type::Bool => true,
        _ => false,
    };
    if !cond_ok {
        errors.push(message1("三元条件必须是 bool，实际为 ", cond_ty, ""));
    }
    let ghost before = errors@;
    if is_assignable(types, then_ty, else_ty) {
        proof {
            assert(crate::text::strs_view(errors@) =~= conditional_rule(*types, cond_ty@, then_ty@, else_ty@).1);
        }
        (else_ty.clone(), errors)
    } else if is_assignable(types, else_ty, then_ty) {
        proof {
            assert(crate::text::strs_view(errors@) =~= conditional_rule(*types, cond_ty@, then_ty@, else_ty@).1);
        }
        (then_ty.clone(), errors)
    } else {
        errors.push(message2("三元表达式分支类型不一致：", then_ty, " 与 ", else_ty));
        proof {
            assert(crate::text::strs_view(errors@) =~= conditional_rule(*types, cond_ty@, then_ty@, else_ty@).1);
        }
        (Type::Error, errors)
    }
}

/// The errors of the assignment `target op= value` in order (its type is the
/// target's): the target must be assignable to (`lvalue`); then `=` needs the value
/// assignable to the target, or a literal that may take the target's type; `&&=` and
/// `||=` need a `bool` target and a value assignable to it; `+=` on a string needs a
/// string, a scalar that turns into text, or a value assignable to `string`; any other
/// compound assignment needs a numeric target.
pub open spec fn assign_errors(
    types: TypeTable,
    op: AssignOp,
    lvalue: bool,
    target_ty: TypeV,
    value: Expr,
    value_ty: TypeV,
) -> Seq<Seq<char>> {
    let first = if lvalue {
        Seq::empty()
    } else {
        seq!["赋值目标不可写"@]
    };
    let second = if op is Assign {
        if !assignable(types, value_ty, target_ty) && !literal_fits(value, target_ty) {
            seq![with_types("不能把 "@, value_ty, " 赋给 "@, target_ty)]
        } else {
            Seq::empty()
        }
    } else if op is LogicalAnd || op is LogicalOr {
        if !(target_ty is Bool) || !assignable(types, value_ty, target_ty) {
            seq![with_type("`&&=`/`||=` 需要 bool 目标，实际为 "@, target_ty, ""@)]
        } else {
            Seq::empty()
        }
    } else if op is Add && target_ty is Str {
        if !(value_ty is Str) && !concatable(value_ty) && !assignable(types, value_ty, TypeV::Str) {
            seq![with_type("不能把 "@, value_ty, " 拼接到 string"@)]
        } else {
            Seq::empty()
        }
    } else if !is_numeric_v(target_ty) {
        seq!["复合赋值需要数值目标"@]
    } else {
        Seq::empty()
    };
    first + second
}

/// The errors of an assignment (see `assign_errors`); `lvalue` says whether the target
/// can be assigned to.
pub fn check_assign(
    types: &TypeTable,
    op: &AssignOp,
    lvalue: bool,
    target_ty: &Type,
    value: &Expr,
    value_ty: &Type,
) -> (r: Vec<String>)
    requires
        classes_ok(*types),
        class_ids_ok(value_ty@, types.classes@.len()),
    ensures
        crate::text::strs_view(r@) == assign_errors(*types, *op, lvalue, target_ty@, *value, value_ty@),
{
    let mut errors: Vec<String> = Vec::new();
    if !lvalue {
        errors.push(String::from_str("赋值目标不可写"));
    }
    let target_bool = match target_ty {
        Type::Bool => true,
        _ => false,
    };
    let target_str = match target_ty {
        Type::Str => true,
        _ => false,
    };
    let value_str = match value_ty {
        Type::Str => true,
        _ => false,
    };
    match op {
        AssignOp::Assign => {
            if !is_assignable(types, value_ty, target_ty) && !literal_target_ok(value, target_ty) {
                errors.push(message2("不能把 ", value_ty, " 赋给 ", target_ty));
            }
        },
        AssignOp::LogicalAnd | AssignOp::LogicalOr => {
            if !target_bool || !is_assignable(types, value_ty, target_ty) {
                errors.push(message1("`&&=`/`||=` 需要 bool 目标，实际为 ", target_ty, ""));
            }
        },
        _ => {
            let add = match op {
                AssignOp::Add => true,
                _ => false,
            };
            if add && target_str {
                let string_ty = Type::Str;
                if !value_str && !concatable_with_string(value_ty) && !is_assignable(types, value_ty, &string_ty) {
                    errors.push(message1("不能把 ", value_ty, " 拼接到 string"));
                }
            } else if !target_ty.is_numeric() {
                errors.push(String::from_str("复合赋值需要数值目标"));
            }
        },
    }
    assert(crate::text::strs_view(errors@) =~= assign_errors(*types, *op, lvalue, target_ty@, *value, value_ty@));
    errors
}

/// The type of `object[index]` (`optional`: written `?[]`), and its errors in order:
/// the index must be an integer; the object (without its nullability) must be an
/// array, whose element it gives, or a string, which gives a `char`; the error type
/// gives the error type. The result is nullable when the access is optional or the
/// object is nullable.
pub open spec fn index_rule(object_ty: TypeV, index_ty: TypeV, optional: bool) -> (TypeV, Seq<Seq<char>>) {
    let index_errors = if is_integer_v(index_ty) {
        Seq::empty()
    } else {
        seq![with_type("索引必须是整数，实际为 "@, index_ty, ""@)]
    };
    let base = match object_ty {
        TypeV::Nullable(inner) => *inner,
        _ => object_ty,
    };
    let (element, errors) = match base {
        TypeV::Array(inner) => (*inner, index_errors),
        TypeV::Str => (TypeV::Char, index_errors),
        TypeV::Error => (TypeV::Error, index_errors),
        _ => (TypeV::Error, index_errors.push(with_type("类型 "@, base, " 不能索引"@))),
    };
    if optional || object_ty is Nullable {
        (TypeV::Nullable(Box::new(element)), errors)
    } else {
        (element, errors)
    }
}

/// The type and errors of an index expression (see `index_rule`).
pub fn check_index(object_ty: &Type, index_ty: &Type, optional: bool) -> (r: (Type, Vec<String>))
    ensures
        r.0@ == index_rule(object_ty@, index_ty@, optional).0,
        crate::text::strs_view(r.1@) == index_rule(object_ty@, index_ty@, optional).1,
{
    let mut errors: Vec<String> = Vec::new();
    if !index_ty.is_integer() {
        errors.push(message1("索引必须是整数，实际为 ", index_ty, ""));
    }
    let base = object_ty.without_nullable();
    proof {
        crate::types::lemma_base_v(*object_ty);
    }
    let element = match base {
        Type::Array(inner) => (**inner).clone(),
        Type::Str => Type::Char,
        Type::Error => Type::Error,
        other => {
            errors.push(message1("类型 ", other, " 不能索引"));
            Type::Error
        },
    };
    let nullable = match object_ty {
        Type::Nullable(_) => true,
        _ => false,
    };
    assert(crate::text::strs_view(errors@) =~= index_rule(object_ty@, index_ty@, optional).1);
    if optional || nullable {
        (Type::Nullable(Box::new(element)), errors)
    } else {
        (element, errors)
    }
}

/// The errors of the bounds of a slice, in order: each must be an integer.
pub open spec fn bound_errors(bounds: Seq<TypeV>) -> Seq<Seq<char>>
    decreases bounds.len(),
{
    if bounds.len() == 0 {
        Seq::empty()
    } else {
        let rest = bound_errors(bounds.drop_last());
        if is_integer_v(bounds.last()) {
            rest
        } else {
            rest.push(with_type("切片边界必须是整数，实际为 "@, bounds.last(), ""@))
        }
    }
}

/// The type of `object[start..end]` whose present bounds have the types `bounds`, and
/// its errors: those of the bounds, then, unless the object (without its nullability)
/// is an array, which the slice's type is, the error type and its error.
pub open spec fn slice_rule(object_ty: TypeV, bounds: Seq<TypeV>) -> (TypeV, Seq<Seq<char>>) {
    let base = match object_ty {
        TypeV::Nullable(inner) => *inner,
        _ => object_ty,
    };
    match base {
        TypeV::Array(inner) => (TypeV::Array(inner), bound_errors(bounds)),
        _ => (TypeV::Error, bound_errors(bounds).push(with_type("切片只能用于数组，实际为 "@, base, ""@))),
    }
}

/// The type and errors of a slice expression (see `slice_rule`).
pub fn check_slice(object_ty: &Type, bounds: &Vec<Type>) -> (r: (Type, Vec<String>))
    ensures
        r.0@ == slice_rule(object_ty@, Type::view_all(bounds@)).0,
        crate::text::strs_view(r.1@) == slice_rule(object_ty@, Type::view_all(bounds@)).1,
{
    let mut errors: Vec<String> = Vec::new();
    let mut i: usize = 0;
    while i < bounds.len()
        invariant
            i <= bounds@.len(),
            crate::text::strs_view(errors@) == bound_errors(Type::view_all(bounds@.take(i as int))),
        decreases bounds@.len() - i,
    {
        let ghost before = errors@;
        proof {
            assert(bounds@.take(i + 1).drop_last() =~= bounds@.take(i as int));
            assert(bounds@.take(i + 1).last() == bounds@[i as int]);
        }
        if !bounds[i].is_integer() {
            errors.push(message1("切片边界必须是整数，实际为 ", &bounds[i], ""));
        }
        proof {
            crate::types::lemma_view_all_push(bounds@.take(i as int), bounds@[i as int]);
            assert(bounds@.take(i + 1) =~= bounds@.take(i as int).push(bounds@[i as int]));
            assert(Type::view_all(bounds@.take(i + 1)).drop_last() =~= Type::view_all(bounds@.take(i as int)));
            assert(crate::text::strs_view(errors@) =~= bound_errors(Type::view_all(bounds@.take(i + 1))));
        }
        i += 1;
    }
    proof {
        assert(bounds@.take(i as int) =~= bounds@);
    }
    match object_ty.without_nullable() {
        Type::Array(inner) => (Type::Array(Box::new((**inner).clone())), errors),
        other => {
            errors.push(message1("切片只能用于数组，实际为 ", other, ""));
            proof {
                assert(crate::text::strs_view(errors@) =~= slice_rule(object_ty@, Type::view_all(bounds@)).1);
            }
            (Type::Error, errors)
        },
    }
}

/// The element type that an array literal's item brings: its own type, or for a
/// spread `...x` the element type of the array `x` (nullability aside), else the error
/// type.
pub open spec fn item_element(spread: bool, ty: TypeV) -> TypeV {
    if spread {
        match ty {
            TypeV::Nullable(inner) => match *inner {
                TypeV::Array(e) => *e,
                _ => TypeV::Error,
            },
            TypeV::Array(e) => *e,
            _ => TypeV::Error,
        }
    } else {
        ty
    }
}

/// The error of a spread item whose type is no array.
pub open spec fn spread_error(spread: bool, ty: TypeV) -> Seq<Seq<char>> {
    let base = match ty {
        TypeV::Nullable(inner) => *inner,
        _ => ty,
    };
    if spread && !(base is Array) {
        seq![with_type("展开目标必须是数组，实际为 "@, base, ""@)]
    } else {
        Seq::empty()
    }
}

/// The element type of an array literal whose items are `items` (whether each is a
/// spread, and its type), and its errors in item order: a spread of what is no array,
/// and an item whose element type differs from the first item's. The element type is
/// the first item's, or the error type for an empty literal.
pub open spec fn array_rule(items: Seq<(bool, TypeV)>) -> (Option<TypeV>, Seq<Seq<char>>)
    decreases items.len(),
{
    if items.len() == 0 {
        (None, Seq::empty())
    } else {
        let (first, errors) = array_rule(items.drop_last());
        let (spread, ty) = items.last();
        let element = item_element(spread, ty);
        let errors = errors + spread_error(spread, ty);
        match first {
            None => (Some(element), errors),
            Some(expected) => (Some(expected), if expected != element {
                errors.push(with_types("数组元素类型不一致："@, expected, " 与 "@, element))
            } else {
                errors
            }),
        }
    }
}

/// The type of an array literal: an array of the element type (see `array_rule`).
pub open spec fn array_type(items: Seq<(bool, TypeV)>) -> TypeV {
    match array_rule(items).0 {
        Some(e) => TypeV::Array(Box::new(e)),
        None => TypeV::Array(Box::new(TypeV::Error)),
    }
}

pub(crate) fn item_element_ref(spread: bool, ty: &Type) -> (r: &Type)
    ensures
        r@ == item_element(spread, ty@),
{
    proof {
        crate::types::lemma_base_v(*ty);
    }
    if spread {
        match ty.without_nullable() {
            Type::Array(e) => e,
            _ => &ERROR_TYPE,
        }
    } else {
        ty
    }
}

/// The error type, to refer to.
pub const ERROR_TYPE: Type = Type::Error;

/// The views of an array literal's items.
pub open spec fn item_views(items: Seq<(bool, Type)>) -> Seq<(bool, TypeV)> {
    items.map_values(|p: (bool, Type)| (p.0, p.1@))
}

/// The type and errors of an array literal (see `array_rule`).
pub fn check_array(items: &Vec<(bool, Type)>) -> (r: (Type, Vec<String>))
    ensures
        r.0@ == array_type(item_views(items@)),
        crate::text::strs_view(r.1@) == array_rule(item_views(items@)).1,
{
    let mut errors: Vec<String> = Vec::new();
    let mut first: Option<&Type> = None;
    let mut i: usize = 0;
    while i < items.len()
        invariant
            i <= items@.len(),
            crate::text::strs_view(errors@) == array_rule(item_views(items@.take(i as int))).1,
            (match first {
                Some(t) => Some(t@),
                None => None,
            }) == array_rule(item_views(items@.take(i as int))).0,
        decreases items@.len() - i,
    {
        proof {
            assert(items@.take(i + 1).drop_last() =~= items@.take(i as int));
            assert(items@.take(i + 1).last() == items@[i as int]);
            assert(item_views(items@.take(i + 1)).drop_last() =~= item_views(items@.take(i as int)));
            assert(item_views(items@.take(i + 1)).last() == (items@[i as int].0, items@[i as int].1@));
        }
        let spread = items[i].0;
        let ty = &items[i].1;
        let base = ty.without_nullable();
        let base_array = match base {
            Type::Array(_) => true,
            _ => false,
        };
        if spread && !base_array {
            errors.push(message1("展开目标必须是数组，实际为 ", base, ""));
        }
        let element = item_element_ref(spread, ty);
        match first {
            None => {
                first = Some(element);
            },
            Some(expected) => {
                if !same_type(expected, element) {
                    errors.push(message2("数组元素类型不一致：", expected, " 与 ", element));
                }
            },
        }
        proof {
            assert(crate::text::strs_view(errors@) =~= array_rule(item_views(items@.take(i + 1))).1);
        }
        i += 1;
    }
    proof {
        assert(items@.take(i as int) =~= items@);
    }
    let element = match first {
        Some(t) => t.clone(),
        None => Type::Error,
    };
    let r0 = Type::Array(Box::new(element));
    assert(r0@ == TypeV::Array(Box::new(element@)));
    (r0, errors)
}

/// The message when a top-level variable is initialised with what is no constant.
pub const GLOBAL_INIT_MESSAGE: &'static str = "顶层变量初始化式必须是编译期常量表达式";

/// The indexes of the top-level variables whose initialiser is no constant (those
/// without an initialiser pass).
pub open spec fn non_constant_globals(inits: Seq<Option<Expr>>) -> Seq<int>
    decreases inits.len(),
{
    if inits.len() == 0 {
        Seq::empty()
    } else {
        let rest = non_constant_globals(inits.drop_last());
        match inits.last() {
            Some(e) => if const_type_spec(e) is None {
                rest.push(inits.len() - 1)
            } else {
                rest
            },
            None => rest,
        }
    }
}

/// The top-level variables (by index) that get `GLOBAL_INIT_MESSAGE`: those whose
/// initialiser is no constant.
pub fn check_globals(inits: &Vec<Option<Expr>>) -> (r: Vec<usize>)
    ensures
        r@.len() == non_constant_globals(inits@).len(),
        forall|i: int| 0 <= i < r@.len() ==> r@[i] as int == #[trigger] non_constant_globals(inits@)[i],
{
    let mut out: Vec<usize> = Vec::new();
    let mut i: usize = 0;
    while i < inits.len()
        invariant
            i <= inits@.len(),
            out@.len() == non_constant_globals(inits@.take(i as int)).len(),
            forall|j: int| 0 <= j < out@.len() ==> out@[j] as int == #[trigger] non_constant_globals(inits@.take(i as int))[j],
        decreases inits@.len() - i,
    {
        proof {
            assert(inits@.take(i + 1).drop_last() =~= inits@.take(i as int));
        }
        match &inits[i] {
            Some(e) => {
                if const_type(e).is_none() {
                    out.push(i);
                }
            },
            None => {},
        }
        i += 1;
    }
    proof {
        assert(inits@.take(i as int) =~= inits@);
    }
    out
}

} // verus!
