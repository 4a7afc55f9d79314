//! Lowering expressions and statements to the intermediate representation. The types
//! of subexpressions are those the checker gives them (`checker::check_spec`) in the
//! scopes of the lowering state; names resolve to the function's locals first, then
//! to the module's globals.

use vstd::prelude::*;

use crate::body::{lemma_walk_keeps_outer, stmt_ok, walk_stmt, BodyState, FlowV, Stmt};
use crate::checker::{
    args_walk, check_expr, check_ok, check_spec, cx_ok, function_named, global_named, scoped, scopes_view, CheckCtx,
    Local, LocalV,
};
use crate::expressions::{AssignOp, Expr, IntegerSuffix, PostfixOp, UnaryOp};
use crate::lowering::{
    abbrev, ancestor_fields, base_of, concatable_v, int_literal, lookup_local, lookup_scopes, mir_binary, mir_op,
    parse_int, pool_view, to_string_intrinsic, BinaryOp,
    ASSIGN_LOWERING_MESSAGE, STEP_TARGET_MESSAGE,
};
use crate::mir::{
    expr_v, exprs_v, lemma_exprs_v_push, lemma_stmts_v_push, stmts_v, MirStmt, MirStmtKind, MirStmtV, MirBinary, MirCallee, MirCalleeV, MirExpr, MirExprV, MirLocal, MirTarget,
    MirTargetV, MirUnary,
};
use crate::symbols::{base_chain, field_position, first_field, FunctionSig, ModuleId, ParamSig, Span, SymbolId, TypeTable};
use crate::text::decimal;
use crate::types::{base_v, Type, TypeV};
use crate::typing::{overload, subst, SigV};

verus! {

/// What lowering a function's body reads: the checker's context (types, module
/// variables and functions, the method's class), the module, the stems of the modules
/// (by module id) that stable symbol names use, the names of the module's globals (by
/// global index), and the type arguments of the instance being lowered.
pub struct LowerCtx {
    pub check: CheckCtx,
    pub module: u32,
    pub stems: Vec<String>,
    pub globals: Vec<String>,
    pub type_args: Vec<(String, Type)>,
}

/// The scopes of a function being lowered: those that bind names to its locals, and
/// the checker's scopes of the same names (innermost last).
pub struct Frame {
    pub slots: Vec<Vec<(String, usize)>>,
    pub scopes: Vec<Vec<Local>>,
}

/// What lowering adds to: the module's string pool and the errors found.
pub struct Sink {
    pub strings: Vec<String>,
    pub errors: Vec<String>,
}

/// The view of a frame.
pub struct FrameV {
    pub slots: Seq<Seq<(String, usize)>>,
    pub scopes: Seq<Seq<LocalV>>,
}

/// The view of a sink.
pub struct SinkV {
    pub strings: Seq<Seq<char>>,
    pub errors: Seq<Seq<char>>,
}

/// The view of a frame.
pub open spec fn frame_v(fr: Frame) -> FrameV {
    FrameV { slots: Seq::new(fr.slots@.len(), |i: int| fr.slots@[i]@), scopes: scopes_view(fr.scopes@) }
}

/// The view of a sink.
pub open spec fn sink_v(k: Sink) -> SinkV {
    SinkV { strings: pool_view(k.strings@), errors: crate::text::strs_view(k.errors@) }
}

impl View for Frame {
    type V = FrameV;

    open spec fn view(&self) -> FrameV {
        frame_v(*self)
    }
}

impl View for Sink {
    type V = SinkV;

    open spec fn view(&self) -> SinkV {
        sink_v(*self)
    }
}

// ---------------------------------------------------------------------------
// Reading the context.
// ---------------------------------------------------------------------------

/// The checker's type of `e` in the scopes of the state.
pub open spec fn ty_of(cx: LowerCtx, f: FrameV, e: Expr) -> TypeV {
    check_spec(cx.check, f.scopes, e).0
}

/// `t` with the instance's type arguments put in.
pub open spec fn inst(cx: LowerCtx, t: TypeV) -> TypeV {
    subst(t, crate::typing::args_view(cx.type_args@))
}

/// The state with one more error.
pub open spec fn with_error(k: SinkV, m: Seq<char>) -> SinkV {
    SinkV { errors: k.errors.push(m), ..k }
}

/// The first index of `v` in the pool, from `k` on.
pub open spec fn pool_index(pool: Seq<Seq<char>>, v: Seq<char>, k: int) -> Option<int>
    decreases pool.len() - k,
{
    if k < 0 || k >= pool.len() {
        None
    } else if pool[k] == v {
        Some(k)
    } else {
        pool_index(pool, v, k + 1)
    }
}

/// The pool after interning `v`, and its index there: its first index when it is
/// already in, else the next index.
pub open spec fn interned(pool: Seq<Seq<char>>, v: Seq<char>) -> (Seq<Seq<char>>, int) {
    match pool_index(pool, v, 0) {
        Some(i) => (pool, i),
        None => (pool.push(v), pool.len() as int),
    }
}

/// The index of the first global named `name`, from `k` on.
pub open spec fn global_index(globals: Seq<String>, name: Seq<char>, k: int) -> Option<int>
    decreases globals.len() - k,
{
    if k < 0 || k >= globals.len() {
        None
    } else if globals[k]@ == name {
        Some(k)
    } else {
        global_index(globals, name, k + 1)
    }
}

/// The stem of module `m` (`mod` for a module without one).
pub open spec fn stem_of(cx: LowerCtx, m: u32) -> Seq<char> {
    if m < cx.stems@.len() {
        cx.stems@[m as int]@
    } else {
        "mod"@
    }
}

/// The type letters of parameters (see `lowering::abbrevs`).
pub open spec fn abbrevs_v(ps: Seq<(Seq<char>, TypeV, bool, bool)>) -> Seq<char>
    decreases ps.len(),
{
    if ps.len() == 0 {
        Seq::empty()
    } else {
        abbrevs_v(ps.drop_last()) + abbrev(ps.last().1)
    }
}

/// The stable symbol name of a function (see `lowering::stable_name`).
pub open spec fn stable_name_v(sig: SigV, stem: Seq<char>) -> Seq<char> {
    if sig.name == "main"@ {
        "sw_user_main"@
    } else {
        let a = abbrevs_v(sig.params);
        "sw_fn_"@ + stem + "_"@ + sig.name + (if a.len() == 0 {
            Seq::empty()
        } else {
            "_"@ + a
        })
    }
}

/// The index of field `name` in the layout of a value of type `t` (or `t?`): a
/// struct's field; a class's nearest field, after the fields of the classes it
/// derives from.
pub open spec fn field_slot(types: TypeTable, t: TypeV, name: Seq<char>) -> Option<int> {
    match base_v(t) {
        TypeV::Struct(id) => if id < types.structs@.len() {
            field_position(types.structs@[id as int].fields@, name, 0)
        } else {
            None
        },
        TypeV::Class(id) => {
            let c = types.classes@;
            match first_field(c, base_chain(c, id), name) {
                Some((k, i)) => Some(ancestor_fields(types, base_chain(c, k).skip(1)) + i),
                None => None,
            }
        },
        _ => None,
    }
}

/// The discriminant of the member `name` of an enum.
pub open spec fn enum_value(members: Seq<(String, i64)>, name: Seq<char>, k: int) -> Option<i64>
    decreases members.len() - k,
{
    if k < 0 || k >= members.len() {
        None
    } else if members[k].0@ == name {
        Some(members[k].1)
    } else {
        enum_value(members, name, k + 1)
    }
}

/// An unsigned integer suffix.
pub open spec fn unsigned_suffix(s: Option<IntegerSuffix>) -> bool {
    match s {
        Some(IntegerSuffix::U8) | Some(IntegerSuffix::U16) | Some(IntegerSuffix::U32) | Some(IntegerSuffix::U64)
        | Some(IntegerSuffix::Usize) => true,
        _ => false,
    }
}

/// A call of the runtime function `name`.
pub open spec fn intrinsic(name: Seq<char>, args: Seq<MirExprV>) -> MirExprV {
    MirExprV::Call { callee: MirCalleeV::Intrinsic { name }, args }
}

/// `v` of type `t` as a string.
pub open spec fn string_of(v: MirExprV, t: TypeV) -> MirExprV {
    if t == TypeV::Str {
        v
    } else {
        intrinsic(to_string_intrinsic(t), seq![v])
    }
}

/// The operator `op` on lowered operands, the left one of type `lt`, once string
/// concatenation does not apply: `**` and floating-point `%` call the runtime, as do
/// `==` and `!=` on strings; anything else is the operator itself.
pub open spec fn binary_form(op: BinaryOp, lt: TypeV, l: MirExprV, r: MirExprV) -> MirExprV {
    if op == BinaryOp::Pow {
        intrinsic(
            if lt is F32 || lt is F64 {
                "pow_f64"@
            } else {
                "pow_i64"@
            },
            seq![l, r],
        )
    } else if op == BinaryOp::Rem && (lt is F32 || lt is F64) {
        intrinsic("frem_f64"@, seq![l, r])
    } else if (op == BinaryOp::Eq || op == BinaryOp::Ne) && lt == TypeV::Str {
        intrinsic(
            if op == BinaryOp::Eq {
                "string_eq"@
            } else {
                "string_ne"@
            },
            seq![l, r],
        )
    } else {
        MirExprV::Binary { op: mir_op(op), left: Box::new(l), right: Box::new(r) }
    }
}

/// The operator that a compound assignment `op=` applies.
pub open spec fn assign_binary(op: AssignOp) -> MirBinary {
    match op {
        AssignOp::Add => MirBinary::Add,
        AssignOp::Sub => MirBinary::Sub,
        AssignOp::Mul => MirBinary::Mul,
        AssignOp::Div => MirBinary::Div,
        AssignOp::Rem => MirBinary::Rem,
        AssignOp::BitAnd => MirBinary::BitAnd,
        AssignOp::BitOr => MirBinary::BitOr,
        AssignOp::BitXor => MirBinary::BitXor,
        AssignOp::Shl => MirBinary::Shl,
        AssignOp::Shr => MirBinary::Shr,
        AssignOp::Coalesce => MirBinary::Coalesce,
        AssignOp::LogicalAnd => MirBinary::And,
        _ => MirBinary::Or,
    }
}

/// A compound assignment `x op= v` applies the operator of the same meaning:
/// `+=` adds, `-=` subtracts, `<<=` shifts left, `&&=` is logical and, and so on.
pub proof fn lemma_compound_ops_same_meaning()
    ensures
        assign_binary(AssignOp::Add) == MirBinary::Add,
        assign_binary(AssignOp::Sub) == MirBinary::Sub,
        assign_binary(AssignOp::Mul) == MirBinary::Mul,
        assign_binary(AssignOp::Div) == MirBinary::Div,
        assign_binary(AssignOp::Rem) == MirBinary::Rem,
        assign_binary(AssignOp::BitAnd) == MirBinary::BitAnd,
        assign_binary(AssignOp::BitOr) == MirBinary::BitOr,
        assign_binary(AssignOp::BitXor) == MirBinary::BitXor,
        assign_binary(AssignOp::Shl) == MirBinary::Shl,
        assign_binary(AssignOp::Shr) == MirBinary::Shr,
        assign_binary(AssignOp::Coalesce) == MirBinary::Coalesce,
        assign_binary(AssignOp::LogicalAnd) == MirBinary::And,
        assign_binary(AssignOp::LogicalOr) == MirBinary::Or,
        unary_mir(UnaryOp::Not) == MirUnary::Not,
        unary_mir(UnaryOp::Neg) == MirUnary::Neg,
        unary_mir(UnaryOp::Pos) == MirUnary::Pos,
        unary_mir(UnaryOp::BitNot) == MirUnary::BitNot,
{
}

/// The operator of a prefix operator other than `++`, `--` and `await`.
pub open spec fn unary_mir(op: UnaryOp) -> MirUnary {
    match op {
        UnaryOp::Not => MirUnary::Not,
        UnaryOp::Neg => MirUnary::Neg,
        UnaryOp::Pos => MirUnary::Pos,
        _ => MirUnary::BitNot,
    }
}

/// The parameters of a closure's calling convention: the environment, then one per
/// parameter type, named `arg0`, `arg1`, ….
pub open spec fn closure_params(ps: Seq<TypeV>) -> Seq<(Seq<char>, TypeV, bool, bool)>
    decreases ps.len(),
{
    if ps.len() == 0 {
        seq![("$env"@, TypeV::Ptr(Box::new(TypeV::I8)), false, false)]
    } else {
        closure_params(ps.drop_last()).push(("arg"@ + decimal((ps.len() - 1) as nat), ps.last(), false, false))
    }
}

/// The signature a call through a function value of type `(ps) => ret` uses.
pub open spec fn closure_sig(module: u32, ps: Seq<TypeV>, ret: TypeV) -> SigV {
    SigV {
        module: ModuleId(module),
        name: "$closure"@,
        generics: Seq::empty(),
        params: closure_params(ps),
        ret,
        extern_c: false,
        span: Span { start: 0, end: 0 },
    }
}

/// The type of the variable `name` when it holds a function value.
pub open spec fn function_value(cx: LowerCtx, f: FrameV, name: Seq<char>) -> Option<(Seq<TypeV>, TypeV)> {
    let t = match scoped(f.scopes, name) {
        Some(l) => Some(l.1),
        None => match global_named(cx.check.globals@, name, 0) {
            Some(i) => Some(cx.check.globals@[i].ty@),
            None => None,
        },
    };
    match t {
        Some(TypeV::Function(ps, ret)) => Some((ps, *ret)),
        _ => None,
    }
}

/// The overload that a call of the module function `name` with `args` calls.
pub open spec fn call_target(cx: LowerCtx, f: FrameV, name: Seq<char>, args: Seq<Expr>) -> Option<SigV> {
    match function_named(cx.check.functions@, name, 0) {
        Some(i) => match overload(cx.check.types, cx.check.functions@[i].1@, args_walk(cx.check, f.scopes, args).0, true) {
            Some((_, sig)) => Some(sig),
            None => None,
        },
        None => None,
    }
}

/// The callee of a call of `sig`: an `extern "C"` function by its own name, else
/// the function by its stable symbol name.
pub open spec fn direct_callee(cx: LowerCtx, sig: SigV) -> MirCalleeV {
    if sig.extern_c {
        MirCalleeV::Extern { name: sig.name, sig }
    } else {
        MirCalleeV::Function { module: sig.module.0, name: stable_name_v(sig, stem_of(cx, sig.module.0)), sig }
    }
}

// ---------------------------------------------------------------------------
// The lowering.
// ---------------------------------------------------------------------------

/// The lowered form of `e` and the state after it:
/// - integer literals give their value (unsigned for unsigned suffixes), floating-point
///   literals their bits, strings their index in the pool (interned), and the other
///   literals themselves;
/// - a name gives its local, else its global, else an error and 0; `this` gives local
///   0 in a method, else an error and 0; `super` alone is an error and `null`;
/// - casts cast to the type with the instance's arguments put in;
/// - `++x`/`--x` assign `x ± 1` (yielding the new value) and `x++`/`x--` are postfix
///   steps, each needing an assignable target, else an error and 0; other prefix
///   operators apply theirs (`await` is an error, lowered as `!`);
/// - `+` with a string joins strings; `**`, floating-point `%` and string equality call
///   the runtime; other binary operators apply theirs;
/// - an assignment expression assigns (see `assign_spec`), else an error and 0;
/// - `c ? a : b` selects; indexing a string calls the runtime, indexing an array reads
///   its element; `.length` of a string calls the runtime and of an array reads the
///   length; a field reads its slot in the layout; an enum member gives its value;
///   otherwise an error and 0; `?.` and `?.[]` give the type's zero value when the
///   object is null;
/// - a spread outside a literal or a call is an error and lowers its operand; an array
///   literal lowers its items (spread items spread);
/// - a call of a function value passes the value and the arguments; a call of a
///   module function calls the overload the checker chose, with spread array literals
///   spread.
pub open spec fn lower_spec(cx: LowerCtx, f: FrameV, k: SinkV, e: Expr) -> (MirExprV, SinkV)
    decreases e, 2nat,
{
    match e {
        Expr::Integer { text, suffix } => {
            let v: i64 = match int_literal(text@) {
                Some(v) => v as i64,
                None => 0,
            };
            (if unsigned_suffix(suffix) {
                MirExprV::UInt(v as u64)
            } else {
                MirExprV::Int(v)
            }, k)
        },
        Expr::Float { bits, .. } => (MirExprV::Float(bits), k),
        Expr::Str(text) => {
            let (pool, i) = interned(k.strings, text@);
            (MirExprV::Str(i as usize), SinkV { strings: pool, ..k })
        },
        Expr::Char(c) => (MirExprV::Char(c), k),
        Expr::Bool(b) => (MirExprV::Bool(b), k),
        Expr::Null => (MirExprV::Null, k),
        Expr::Ident(name) => ident_spec(cx, f, k, name@),
        Expr::This => if cx.check.this_class is Some {
            (MirExprV::Local(0), k)
        } else {
            (MirExprV::Int(0), with_error(k, "`this` 只能在方法中降级"@))
        },
        Expr::Super => (MirExprV::Null, with_error(k, "`super` 只能用于调用基类构造函数或方法"@)),
        Expr::Group(inner) => lower_spec(cx, f, k, *inner),
        Expr::Cast { expr, ty } => {
            let (v, s1) = lower_spec(cx, f, k, *expr);
            (MirExprV::Cast { expr: Box::new(v), to: inst(cx, ty@) }, s1)
        },
        Expr::Unary { op, expr } => if op is Inc || op is Dec {
            let (t, s1) = target_spec(cx, f, k, *expr);
            match t {
                Some(tg) => {
                    let (cur, s2) = lower_spec(cx, f, s1, *expr);
                    (MirExprV::Assign {
                        target: tg,
                        value: Box::new(
                            MirExprV::Binary {
                                op: if op is Dec {
                                    MirBinary::Sub
                                } else {
                                    MirBinary::Add
                                },
                                left: Box::new(cur),
                                right: Box::new(MirExprV::Int(1)),
                            },
                        ),
                    }, s2)
                },
                None => (MirExprV::Int(0), with_error(s1, STEP_TARGET_MESSAGE@)),
            }
        } else if op is Await {
            let (v, s1) = lower_spec(cx, f, with_error(k, "await 降级暂不支持"@), *expr);
            (MirExprV::Unary { op: MirUnary::Not, expr: Box::new(v) }, s1)
        } else {
            let (v, s1) = lower_spec(cx, f, k, *expr);
            (MirExprV::Unary { op: unary_mir(op), expr: Box::new(v) }, s1)
        },
        Expr::Postfix { expr, op } => {
            let (t, s1) = target_spec(cx, f, k, *expr);
            match t {
                Some(tg) => (MirExprV::Postfix {
                    target: tg,
                    op: if op is Dec {
                        MirUnary::Dec
                    } else {
                        MirUnary::Inc
                    },
                }, s1),
                None => (MirExprV::Int(0), with_error(s1, STEP_TARGET_MESSAGE@)),
            }
        },
        Expr::Binary { op, left, right } => {
            let lt = ty_of(cx, f, *left);
            let rt = ty_of(cx, f, *right);
            let (l, s1) = lower_spec(cx, f, k, *left);
            let (r, s2) = lower_spec(cx, f, s1, *right);
            if op == BinaryOp::Add && lt == TypeV::Str && concatable_v(rt) {
                (intrinsic("string_concat"@, seq![l, string_of(r, rt)]), s2)
            } else if op == BinaryOp::Add && rt == TypeV::Str && lt != TypeV::Str && concatable_v(lt) {
                (intrinsic("string_concat"@, seq![string_of(l, lt), r]), s2)
            } else {
                (binary_form(op, lt, l, r), s2)
            }
        },
        Expr::Assign { .. } => {
            let (parts, s1) = assign_spec(cx, f, k, e);
            match parts {
                Some((tg, v)) => (MirExprV::Assign { target: tg, value: Box::new(v) }, s1),
                None => (MirExprV::Int(0), with_error(s1, ASSIGN_LOWERING_MESSAGE@)),
            }
        },
        Expr::Conditional { cond, then, else_ } => {
            let (c, s1) = lower_spec(cx, f, k, *cond);
            let (a, s2) = lower_spec(cx, f, s1, *then);
            let (b, s3) = lower_spec(cx, f, s2, *else_);
            (MirExprV::Select { cond: Box::new(c), then: Box::new(a), else_: Box::new(b) }, s3)
        },
        Expr::Index { object, index, optional } => {
            let ot = ty_of(cx, f, *object);
            let (o, s1) = lower_spec(cx, f, k, *object);
            let (i, s2) = lower_spec(cx, f, s1, *index);
            let access = if ot == TypeV::Str {
                intrinsic("string_char_at"@, seq![o, i])
            } else {
                MirExprV::Index {
                    object: Box::new(o),
                    index: Box::new(i),
                    elem: match base_v(ot) {
                        TypeV::Array(x) => *x,
                        _ => TypeV::Int,
                    },
                }
            };
            if optional {
                let (o2, s3) = lower_spec(cx, f, s2, *object);
                (guarded(o2, access, ty_of(cx, f, e)), s3)
            } else {
                (access, s2)
            }
        },
        Expr::Member { object, name, optional } => {
            let ot = ty_of(cx, f, *object);
            let (access, s1) = if name@ == "length"@ && (base_v(ot) is Array || base_v(ot) is Str) {
                let (o, s1) = lower_spec(cx, f, k, *object);
                (if base_v(ot) is Str {
                    intrinsic("string_char_len"@, seq![o])
                } else {
                    MirExprV::Len { object: Box::new(o), string: false }
                }, s1)
            } else {
                match field_slot(cx.check.types, ot, name@) {
                    Some(slot) => {
                        let (o, s1) = lower_spec(cx, f, k, *object);
                        (MirExprV::Field { object: Box::new(o), index: slot as usize }, s1)
                    },
                    None => match ot {
                        TypeV::Enum(id) => match if id < cx.check.types.enums@.len() {
                            enum_value(cx.check.types.enums@[id as int].members@, name@, 0)
                        } else {
                            None
                        } {
                            Some(v) => (MirExprV::Int(v), k),
                            None => (MirExprV::Int(0), with_error(k, "成员访问未解析"@)),
                        },
                        _ => (MirExprV::Int(0), with_error(k, "成员访问未解析"@)),
                    },
                }
            };
            if optional {
                let (o2, s2) = lower_spec(cx, f, s1, *object);
                (guarded(o2, access, ty_of(cx, f, e)), s2)
            } else {
                (access, s1)
            }
        },
        Expr::Spread(inner) => lower_spec(cx, f, with_error(k, "`...` 展开只能用于数组/对象字面量或调用参数"@), *inner),
        Expr::Array(items) => {
            let elem = match ty_of(cx, f, e) {
                TypeV::Array(x) => *x,
                other => other,
            };
            let (vs, s1) = items_spec(cx, f, k, items@);
            (MirExprV::Array { elem: inst(cx, elem), items: vs }, s1)
        },
        Expr::Call { name, args } => match function_value(cx, f, name@) {
            Some((ps, ret)) => {
                let (fv, s1) = ident_spec(cx, f, k, name@);
                let (vs, s2) = list_spec(cx, f, s1, args@);
                (MirExprV::Call {
                    callee: MirCalleeV::Closure { sig: closure_sig(cx.module, ps, ret) },
                    args: seq![fv] + vs,
                }, s2)
            },
            None => {
                let (vs, s1) = call_args_spec(cx, f, k, args@);
                match call_target(cx, f, name@, args@) {
                    Some(sig) => (MirExprV::Call { callee: direct_callee(cx, sig), args: vs }, s1),
                    None => (MirExprV::Int(0), s1),
                }
            },
        },
        _ => (MirExprV::Int(0), k),
    }
}

/// A name: its local, else its global, else an error and 0.
pub open spec fn ident_spec(cx: LowerCtx, f: FrameV, k: SinkV, name: Seq<char>) -> (MirExprV, SinkV) {
    match lookup_scopes(f.slots, name) {
        Some(i) => (MirExprV::Local(i), k),
        None => match global_index(cx.globals@, name, 0) {
            Some(g) => (MirExprV::Global(g as u32), k),
            None => (MirExprV::Int(0), with_error(k, "无法降级标识符"@)),
        },
    }
}

/// `access`, or the zero value of `t` when the object `o` is null.
pub open spec fn guarded(o: MirExprV, access: MirExprV, t: TypeV) -> MirExprV {
    MirExprV::Select {
        cond: Box::new(MirExprV::Binary { op: MirBinary::Ne, left: Box::new(o), right: Box::new(MirExprV::Int(0)) }),
        then: Box::new(access),
        else_: Box::new(
            match base_of(t) {
                TypeV::F32 | TypeV::F64 => MirExprV::Float(0),
                TypeV::Str | TypeV::Array(_) | TypeV::Class(_) | TypeV::Ptr(_) | TypeV::Null => MirExprV::Null,
                _ => MirExprV::Int(0),
            },
        ),
    }
}

/// The place that `e` denotes, and the state after lowering it: a local, else a
/// global; a field slot of the lowered object; an element of the lowered array;
/// nothing for anything else.
pub open spec fn target_spec(cx: LowerCtx, f: FrameV, k: SinkV, e: Expr) -> (Option<MirTargetV>, SinkV)
    decreases e, 1nat,
{
    match e {
        Expr::Ident(name) => match lookup_scopes(f.slots, name@) {
            Some(i) => (Some(MirTargetV::Local(i)), k),
            None => match global_index(cx.globals@, name@, 0) {
                Some(g) => (Some(MirTargetV::Global(g as u32)), k),
                None => (None, k),
            },
        },
        Expr::Member { object, name, .. } => match field_slot(cx.check.types, ty_of(cx, f, *object), name@) {
            Some(slot) => {
                let (o, s1) = lower_spec(cx, f, k, *object);
                (Some(MirTargetV::Field { object: Box::new(o), index: slot as usize }), s1)
            },
            None => (None, k),
        },
        Expr::Index { object, index, .. } => {
            let ot = ty_of(cx, f, *object);
            let (o, s1) = lower_spec(cx, f, k, *object);
            let (i, s2) = lower_spec(cx, f, s1, *index);
            (Some(MirTargetV::Index {
                object: Box::new(o),
                index: Box::new(i),
                elem: match base_v(ot) {
                    TypeV::Array(x) => *x,
                    _ => TypeV::Int,
                },
            }), s2)
        },
        _ => (None, k),
    }
}

/// The place and value of an assignment expression: the target's place, then the
/// lowered value; `op=` combines the target's current value with it (`+=` on a string
/// joins strings).
pub open spec fn assign_spec(cx: LowerCtx, f: FrameV, k: SinkV, e: Expr) -> (Option<(MirTargetV, MirExprV)>, SinkV)
    decreases e, 1nat,
{
    match e {
        Expr::Assign { op, target, value } => {
            let (t, s1) = target_spec(cx, f, k, *target);
            match t {
                Some(tg) => {
                    let (v, s2) = lower_spec(cx, f, s1, *value);
                    if op == AssignOp::Assign {
                        (Some((tg, v)), s2)
                    } else {
                        let (cur, s3) = lower_spec(cx, f, s2, *target);
                        if op == AssignOp::Add && ty_of(cx, f, *target) == TypeV::Str {
                            (Some((tg, intrinsic("string_concat"@, seq![cur, string_of(v, ty_of(cx, f, *value))]))), s3)
                        } else {
                            (Some((tg, MirExprV::Binary { op: assign_binary(op), left: Box::new(cur), right: Box::new(v) })), s3)
                        }
                    }
                },
                None => (None, s1),
            }
        },
        _ => (None, k),
    }
}

/// The items of an array literal, lowered in order (a spread item spreads its array).
pub open spec fn items_spec(cx: LowerCtx, f: FrameV, k: SinkV, items: Seq<Expr>) -> (Seq<MirExprV>, SinkV)
    decreases items, 3nat,
{
    if items.len() == 0 {
        (Seq::empty(), k)
    } else {
        let (vs, s1) = items_spec(cx, f, k, items.drop_last());
        match items.last() {
            Expr::Spread(inner) => {
                let (v, s2) = lower_spec(cx, f, s1, *inner);
                (vs.push(MirExprV::ArraySpread(Box::new(v))), s2)
            },
            item => {
                let (v, s2) = lower_spec(cx, f, s1, item);
                (vs.push(v), s2)
            },
        }
    }
}

/// Expressions lowered in order.
pub open spec fn list_spec(cx: LowerCtx, f: FrameV, k: SinkV, es: Seq<Expr>) -> (Seq<MirExprV>, SinkV)
    decreases es, 3nat,
{
    if es.len() == 0 {
        (Seq::empty(), k)
    } else {
        let (vs, s1) = list_spec(cx, f, k, es.drop_last());
        let (v, s2) = lower_spec(cx, f, s1, es.last());
        (vs.push(v), s2)
    }
}

/// The arguments of a call, lowered in order; a spread array literal gives its items.
pub open spec fn call_args_spec(cx: LowerCtx, f: FrameV, k: SinkV, args: Seq<Expr>) -> (Seq<MirExprV>, SinkV)
    decreases args, 3nat,
{
    if args.len() == 0 {
        (Seq::empty(), k)
    } else {
        let (vs, s1) = call_args_spec(cx, f, k, args.drop_last());
        match args.last() {
            Expr::Spread(inner) => match *inner {
                Expr::Array(items) => {
                    let (us, s2) = list_spec(cx, f, s1, items@);
                    (vs + us, s2)
                },
                _ => {
                    let (v, s2) = lower_spec(cx, f, s1, args.last());
                    (vs.push(v), s2)
                },
            },
            arg => {
                let (v, s2) = lower_spec(cx, f, s1, arg);
                (vs.push(v), s2)
            },
        }
    }
}

// ---------------------------------------------------------------------------
// What lowering needs of its input.
// ---------------------------------------------------------------------------

/// The number of arguments a call passes once spread array literals are spread.
pub open spec fn flat_count(args: Seq<Expr>) -> nat
    decreases args.len(),
{
    if args.len() == 0 {
        0
    } else {
        flat_count(args.drop_last()) + match args.last() {
            Expr::Spread(inner) => match *inner {
                Expr::Array(items) => items@.len(),
                _ => 1,
            },
            _ => 1nat,
        }
    }
}

/// A name's global, if it is one, has an index that fits the representation.
pub open spec fn ident_ok(cx: LowerCtx, f: FrameV, name: Seq<char>) -> bool {
    lookup_scopes(f.slots, name) is None ==> match global_index(cx.globals@, name, 0) {
        Some(g) => g <= u32::MAX,
        None => true,
    }
}

/// A field's slot fits the representation.
pub open spec fn slot_ok(cx: LowerCtx, t: TypeV, name: Seq<char>) -> bool {
    match field_slot(cx.check.types, t, name) {
        Some(v) => v <= usize::MAX,
        None => true,
    }
}

/// `e` can be lowered: every subexpression can be checked where it stands
/// (`check_ok`), and it holds none of the forms this lowering leaves out: a slice, an
/// expression the library's tree holds only by its type (`Expr::Typed`: method calls,
/// lambdas, `new`, object literals, templates, `?`, `match`), `==`/`!=` between
/// struct values (compared field by field), and a call of a module function that is
/// generic, variadic, not found by the checker, or needs default arguments.
pub open spec fn lower_ok(cx: LowerCtx, f: FrameV, e: Expr) -> bool
    decreases e, 1nat,
{
    &&& check_ok(cx.check, f.scopes, e)
    &&& match e {
        Expr::Ident(name) => ident_ok(cx, f, name@),
        Expr::Group(inner) => lower_ok(cx, f, *inner),
        Expr::Cast { expr, .. } => lower_ok(cx, f, *expr),
        Expr::Unary { expr, .. } => lower_ok(cx, f, *expr) && target_ok(cx, f, *expr),
        Expr::Postfix { expr, .. } => lower_ok(cx, f, *expr) && target_ok(cx, f, *expr),
        Expr::Binary { op, left, right } => lower_ok(cx, f, *left) && lower_ok(cx, f, *right) && !((op
            == BinaryOp::Eq || op == BinaryOp::Ne) && ty_of(cx, f, *left) is Struct),
        Expr::Assign { target, value, .. } => lower_ok(cx, f, *target) && lower_ok(cx, f, *value) && target_ok(
            cx,
            f,
            *target,
        ),
        Expr::Conditional { cond, then, else_ } => lower_ok(cx, f, *cond) && lower_ok(cx, f, *then) && lower_ok(
            cx,
            f,
            *else_,
        ),
        Expr::Index { object, index, .. } => lower_ok(cx, f, *object) && lower_ok(cx, f, *index),
        Expr::Member { object, name, .. } => lower_ok(cx, f, *object) && slot_ok(cx, ty_of(cx, f, *object), name@),
        Expr::Spread(inner) => lower_ok(cx, f, *inner),
        Expr::Array(items) => items_lower_ok(cx, f, items@),
        Expr::Call { name, args } => args_lower_ok(cx, f, args@) && match function_value(cx, f, name@) {
            Some(_) => ident_ok(cx, f, name@),
            None => match call_target(cx, f, name@, args@) {
                Some(sig) => sig.generics.len() == 0 && (forall|i: int|
                    0 <= i < sig.params.len() ==> !(#[trigger] sig.params[i]).3) && flat_count(args@)
                    == sig.params.len(),
                None => false,
            },
        },
        Expr::Slice { .. } => false,
        Expr::Typed(_) => false,
        _ => true,
    }
}

/// The target of `++`, `--` or an assignment can be lowered.
pub open spec fn target_ok(cx: LowerCtx, f: FrameV, e: Expr) -> bool {
    match e {
        Expr::Ident(name) => ident_ok(cx, f, name@),
        Expr::Member { object, name, .. } => slot_ok(cx, ty_of(cx, f, *object), name@),
        _ => true,
    }
}

/// Each item of an array literal (a spread: what it spreads) can be lowered.
pub open spec fn items_lower_ok(cx: LowerCtx, f: FrameV, items: Seq<Expr>) -> bool
    decreases items, 2nat,
{
    if items.len() == 0 {
        true
    } else {
        items_lower_ok(cx, f, items.drop_last()) && match items.last() {
            Expr::Spread(inner) => lower_ok(cx, f, *inner),
            item => lower_ok(cx, f, item),
        }
    }
}

/// Each argument of a call (the items of a spread array literal) can be lowered.
pub open spec fn args_lower_ok(cx: LowerCtx, f: FrameV, args: Seq<Expr>) -> bool
    decreases args, 2nat,
{
    if args.len() == 0 {
        true
    } else {
        args_lower_ok(cx, f, args.drop_last()) && lower_ok(cx, f, args.last()) && match args.last() {
            Expr::Spread(inner) => match *inner {
                Expr::Array(items) => list_lower_ok(cx, f, items@),
                _ => true,
            },
            _ => true,
        }
    }
}

/// Each expression of a list can be lowered.
pub open spec fn list_lower_ok(cx: LowerCtx, f: FrameV, es: Seq<Expr>) -> bool
    decreases es, 2nat,
{
    if es.len() == 0 {
        true
    } else {
        list_lower_ok(cx, f, es.drop_last()) && lower_ok(cx, f, es.last())
    }
}

// ---------------------------------------------------------------------------
// Building blocks.
// ---------------------------------------------------------------------------

/// Where `pool_index` finds `v`: the first place from `i` on.
proof fn lemma_pool_index(pool: Seq<Seq<char>>, v: Seq<char>, i: int)
    requires
        0 <= i,
    ensures
        match pool_index(pool, v, i) {
            Some(j) => i <= j < pool.len() && pool[j] == v && forall|m: int| i <= m < j ==> pool[m] != v,
            None => forall|m: int| i <= m < pool.len() ==> pool[m] != v,
        },
    decreases pool.len() - i,
{
    if i < pool.len() && pool[i] != v {
        lemma_pool_index(pool, v, i + 1);
    }
}

fn add_error(k: &mut Sink, m: &str)
    ensures
        final(k)@ == with_error(old(k)@, m@),
{
    k.errors.push(String::from_str(m));
    assert(crate::text::strs_view(k.errors@) =~= crate::text::strs_view(old(k).errors@).push(m@));
}

fn intern(k: &mut Sink, v: &str) -> (r: usize)
    ensures
        final(k)@ == (SinkV { strings: interned(old(k)@.strings, v@).0, ..old(k)@ }),
        r as int == interned(old(k)@.strings, v@).1,
{
    let ghost pool = pool_view(k.strings@);
    let r = crate::lowering::intern_string(&mut k.strings, v);
    proof {
        lemma_pool_index(pool, v@, 0);
        if pool.contains(v@) {
            let j = choose|j: int| 0 <= j < pool.len() && pool[j] == v@;
            assert(pool_index(pool, v@, 0) is Some);
        } else {
            if pool_index(pool, v@, 0) is Some {
                let j = pool_index(pool, v@, 0)->0;
                assert(pool[j] == v@);
                assert(pool.contains(v@));
            }
        }
    }
    r
}

fn call_n(name: &str, args: Vec<MirExpr>) -> (r: MirExpr)
    ensures
        r@ == intrinsic(name@, exprs_v(args@)),
{
    MirExpr::Call { callee: MirCallee::Intrinsic { name: String::from_str(name) }, args }
}

fn list1(a: MirExpr) -> (r: Vec<MirExpr>)
    ensures
        exprs_v(r@) == seq![a@],
{
    let ghost va = a;
    let mut v: Vec<MirExpr> = Vec::new();
    v.push(a);
    proof {
        lemma_exprs_v_push(Seq::empty(), va);
        assert(v@ =~= Seq::<MirExpr>::empty().push(va));
        assert(exprs_v(Seq::<MirExpr>::empty()) =~= Seq::<MirExprV>::empty());
        assert(seq![expr_v(va)] =~= Seq::<MirExprV>::empty().push(expr_v(va)));
    }
    v
}

fn list2(a: MirExpr, b: MirExpr) -> (r: Vec<MirExpr>)
    ensures
        exprs_v(r@) == seq![a@, b@],
{
    let ghost vb = b;
    let mut v = list1(a);
    let ghost before = v@;
    v.push(b);
    proof {
        lemma_exprs_v_push(before, vb);
        assert(v@ == before.push(vb));
        assert(seq![a@, vb@] =~= seq![a@].push(vb@));
    }
    v
}

fn string_of_exec(v: MirExpr, t: &Type) -> (r: MirExpr)
    ensures
        r@ == string_of(v@, t@),
{
    if matches!(t, Type::Str) {
        return v;
    }
    let name: &str = match t {
        Type::F32 | Type::F64 => "float_to_string",
        Type::Bool => "bool_to_string",
        Type::Char => "char_to_string",
        _ => "int_to_string",
    };
    call_n(name, list1(v))
}

fn type_of(cx: &LowerCtx, fr: &Frame, e: &Expr) -> (t: Type)
    requires
        cx_ok(cx.check),
        check_ok(cx.check, fr@.scopes, *e),
    ensures
        t@ == ty_of(*cx, fr@, *e),
{
    let mut scratch: Vec<String> = Vec::new();
    check_expr(&cx.check, &fr.scopes, e, &mut scratch)
}

fn global_of(globals: &Vec<String>, name: &str) -> (r: Option<usize>)
    ensures
        match r {
            Some(i) => global_index(globals@, name@, 0) == Some(i as int),
            None => global_index(globals@, name@, 0) is None,
        },
{
    let mut i: usize = 0;
    while i < globals.len()
        invariant
            i <= globals@.len(),
            global_index(globals@, name@, 0) == global_index(globals@, name@, i as int),
        decreases globals@.len() - i,
    {
        if crate::text::same_text(globals[i].as_str(), name) {
            return Some(i);
        }
        i += 1;
    }
    None
}

fn lower_ident(cx: &LowerCtx, fr: &Frame, k: &mut Sink, name: &str) -> (r: MirExpr)
    requires
        ident_ok(*cx, fr@, name@),
    ensures
        r@ == ident_spec(*cx, fr@, old(k)@, name@).0,
        final(k)@ == ident_spec(*cx, fr@, old(k)@, name@).1,
{
    match lookup_local(&fr.slots, name) {
        Some(i) => MirExpr::Local(i),
        None => match global_of(&cx.globals, name) {
            Some(g) => MirExpr::Global(g as u32),
            None => {
                add_error(k, "无法降级标识符");
                MirExpr::Int(0)
            },
        },
    }
}

proof fn lemma_exprs_v_concat(a: Seq<MirExpr>, b: Seq<MirExpr>)
    ensures
        exprs_v(a + b) == exprs_v(a) + exprs_v(b),
    decreases b.len(),
{
    if b.len() == 0 {
        assert(a + b =~= a);
        assert(exprs_v(b) =~= Seq::<MirExprV>::empty());
        assert(exprs_v(a) + exprs_v(b) =~= exprs_v(a));
    } else {
        lemma_exprs_v_concat(a, b.drop_last());
        assert((a + b).drop_last() =~= a + b.drop_last());
        assert(exprs_v(a) + exprs_v(b) =~= (exprs_v(a) + exprs_v(b.drop_last())).push(expr_v(b.last())));
    }
}

/// The slot of a field (see `field_slot`).
fn field_slot_exec(types: &TypeTable, t: &Type, name: &str) -> (r: Option<usize>)
    requires
        crate::members::member_ids_ok(*types, t@),
        crate::typing::classes_ok(*types),
        match field_slot(*types, t@, name@) {
            Some(v) => v <= usize::MAX,
            None => true,
        },
    ensures
        match r {
            Some(v) => field_slot(*types, t@, name@) == Some(v as int),
            None => field_slot(*types, t@, name@) is None,
        },
{
    proof {
        crate::types::lemma_base_v(*t);
    }
    match t.without_nullable() {
        Type::Struct(id) => {
            if (*id as usize) < types.structs.len() {
                crate::symbols::field_index(&types.structs[*id as usize].fields, name)
            } else {
                None
            }
        },
        Type::Class(id) => {
            proof {
                crate::members::lemma_chain_ids(types.classes@, *id);
            }
            match types.find_class_field(*id, name) {
                Some((owner, i)) => {
                    proof {
                        crate::symbols::lemma_found_field_on_chain(types.classes@, base_chain(types.classes@, *id), name@);
                        assert(owner < types.classes@.len());
                        assert(crate::symbols::chain_finite(types.classes@, owner));
                    }
                    let before = crate::lowering::ancestor_field_count(types, owner);
                    Some(before + i)
                },
                None => None,
            }
        },
        _ => None,
    }
}

fn enum_value_exec(members: &Vec<(String, i64)>, name: &str) -> (r: Option<i64>)
    ensures
        r == enum_value(members@, name@, 0),
{
    let mut i: usize = 0;
    while i < members.len()
        invariant
            i <= members@.len(),
            enum_value(members@, name@, 0) == enum_value(members@, name@, i as int),
        decreases members@.len() - i,
    {
        if crate::text::same_text(members[i].0.as_str(), name) {
            return Some(members[i].1);
        }
        i += 1;
    }
    None
}

fn zero_of(t: &Type) -> (r: MirExpr)
    ensures
        r@ == match base_of(t@) {
            TypeV::F32 | TypeV::F64 => MirExprV::Float(0),
            TypeV::Str | TypeV::Array(_) | TypeV::Class(_) | TypeV::Ptr(_) | TypeV::Null => MirExprV::Null,
            _ => MirExprV::Int(0),
        },
{
    crate::lowering::optional_fallback(t)
}

fn guard(o: MirExpr, access: MirExpr, t: &Type) -> (r: MirExpr)
    ensures
        r@ == guarded(o@, access@, t@),
{
    let ghost ov = o@;
    let ghost av = access@;
    let zero = MirExpr::Int(0);
    assert(zero@ == MirExprV::Int(0));
    let cond = MirExpr::Binary { op: MirBinary::Ne, left: Box::new(o), right: Box::new(zero) };
    assert(cond@ == MirExprV::Binary { op: MirBinary::Ne, left: Box::new(ov), right: Box::new(MirExprV::Int(0)) });
    let z = zero_of(t);
    let ghost zv = z@;
    let r = MirExpr::Select { cond: Box::new(cond), then: Box::new(access), else_: Box::new(z) };
    assert(r@ == MirExprV::Select { cond: Box::new(cond@), then: Box::new(av), else_: Box::new(zv) });
    r
}

fn elem_of(t: &Type) -> (r: Type)
    ensures
        r@ == match base_v(t@) {
            TypeV::Array(x) => *x,
            _ => TypeV::Int,
        },
{
    proof {
        crate::types::lemma_base_v(*t);
    }
    match t.without_nullable() {
        Type::Array(x) => (**x).clone(),
        _ => Type::Int,
    }
}

/// The place that `e` denotes (see `target_spec`).
fn lower_target(cx: &LowerCtx, fr: &Frame, k: &mut Sink, e: &Expr) -> (r: Option<MirTarget>)
    requires
        cx_ok(cx.check),
        lower_ok(*cx, fr@, *e),
        target_ok(*cx, fr@, *e),
    ensures
        match r {
            Some(t) => target_spec(*cx, fr@, old(k)@, *e).0 == Some(crate::mir::target_v(t)),
            None => target_spec(*cx, fr@, old(k)@, *e).0 is None,
        },
        final(k)@ == target_spec(*cx, fr@, old(k)@, *e).1,
    decreases e, 1nat,
{
    match e {
        Expr::Ident(name) => match lookup_local(&fr.slots, name.as_str()) {
            Some(i) => Some(MirTarget::Local(i)),
            None => match global_of(&cx.globals, name.as_str()) {
                Some(g) => Some(MirTarget::Global(g as u32)),
                None => None,
            },
        },
        Expr::Member { object, name, .. } => {
            let ot = type_of(cx, fr, object);
            match field_slot_exec(&cx.check.types, &ot, name.as_str()) {
                Some(slot) => {
                    let o = lower_expr(cx, fr, k, object);
                    Some(MirTarget::Field { object: Box::new(o), index: slot })
                },
                None => None,
            }
        },
        Expr::Index { object, index, .. } => {
            let ot = type_of(cx, fr, object);
            let o = lower_expr(cx, fr, k, object);
            let i = lower_expr(cx, fr, k, index);
            Some(MirTarget::Index { object: Box::new(o), index: Box::new(i), elem: Box::new(elem_of(&ot)) })
        },
        _ => None,
    }
}

/// The place and value of an assignment expression (see `assign_spec`).
fn lower_assign_parts(cx: &LowerCtx, fr: &Frame, k: &mut Sink, e: &Expr) -> (r: Option<(MirTarget, MirExpr)>)
    requires
        cx_ok(cx.check),
        lower_ok(*cx, fr@, *e),
        e is Assign,
    ensures
        match r {
            Some((t, v)) => assign_spec(*cx, fr@, old(k)@, *e).0 == Some((crate::mir::target_v(t), v@)),
            None => assign_spec(*cx, fr@, old(k)@, *e).0 is None,
        },
        final(k)@ == assign_spec(*cx, fr@, old(k)@, *e).1,
    decreases e, 1nat,
{
    match e {
        Expr::Assign { op, target, value } => {
            let t = lower_target(cx, fr, k, target);
            match t {
                Some(tg) => {
                    let v = lower_expr(cx, fr, k, value);
                    match op {
                        AssignOp::Assign => Some((tg, v)),
                        _ => {
                            let cur = lower_expr(cx, fr, k, target);
                            let tt = type_of(cx, fr, target);
                            let is_str = match tt {
                                Type::Str => true,
                                _ => false,
                            };
                            let is_add = match op {
                                AssignOp::Add => true,
                                _ => false,
                            };
                            if is_add && is_str {
                                let vt = type_of(cx, fr, value);
                                let sv = string_of_exec(v, &vt);
                                Some((tg, call_n("string_concat", list2(cur, sv))))
                            } else {
                                let bop = match op {
                                    AssignOp::Add => MirBinary::Add,
                                    AssignOp::Sub => MirBinary::Sub,
                                    AssignOp::Mul => MirBinary::Mul,
                                    AssignOp::Div => MirBinary::Div,
                                    AssignOp::Rem => MirBinary::Rem,
                                    AssignOp::BitAnd => MirBinary::BitAnd,
                                    AssignOp::BitOr => MirBinary::BitOr,
                                    AssignOp::BitXor => MirBinary::BitXor,
                                    AssignOp::Shl => MirBinary::Shl,
                                    AssignOp::Shr => MirBinary::Shr,
                                    AssignOp::Coalesce => MirBinary::Coalesce,
                                    AssignOp::LogicalAnd => MirBinary::And,
                                    _ => MirBinary::Or,
                                };
                                Some((tg, MirExpr::Binary { op: bop, left: Box::new(cur), right: Box::new(v) }))
                            }
                        },
                    }
                },
                None => None,
            }
        },
        _ => None,
    }
}

#[verifier::rlimit(100)]
fn lower_step_expr(cx: &LowerCtx, fr: &Frame, k: &mut Sink, e: &Expr) -> (r: MirExpr)
    requires
        cx_ok(cx.check),
        lower_ok(*cx, fr@, *e),
        e matches Expr::Unary { op, .. } && (op is Inc || op is Dec),
    ensures
        r@ == lower_spec(*cx, fr@, old(k)@, *e).0,
        final(k)@ == lower_spec(*cx, fr@, old(k)@, *e).1,
    decreases e, 1nat,
{
    let ghost k0 = k@;
    match e {
        Expr::Unary { op, expr } => {
            let dec = match op {
                UnaryOp::Dec => true,
                _ => false,
            };
            let ghost ts = target_spec(*cx, fr@, k0, **expr);
            assert(lower_ok(*cx, fr@, **expr) && target_ok(*cx, fr@, **expr));
            let t = lower_target(cx, fr, k, expr);
            match t {
                Some(tg) => {
                    let ghost tv = crate::mir::target_v(tg);
                    let ghost k1 = k@;
                    assert(k1 == ts.1);
                    let cur = lower_expr(cx, fr, k, expr);
                    let ghost cv = cur@;
                    assert(cv == lower_spec(*cx, fr@, k1, **expr).0);
                    let bop = if dec {
                        MirBinary::Sub
                    } else {
                        MirBinary::Add
                    };
                    let one = MirExpr::Int(1);
                    assert(one@ == MirExprV::Int(1));
                    let value = MirExpr::Binary { op: bop, left: Box::new(cur), right: Box::new(one) };
                    assert(value@ == MirExprV::Binary { op: bop, left: Box::new(cv), right: Box::new(MirExprV::Int(1)) });
                    let r = MirExpr::Assign { target: tg, value: Box::new(value) };
                    assert(r@ == MirExprV::Assign { target: tv, value: Box::new(value@) });
                    r
                },
                None => {
                    add_error(k, STEP_TARGET_MESSAGE);
                    MirExpr::Int(0)
                },
            }
        },
        _ => MirExpr::Int(0),
    }
}

#[verifier::rlimit(100)]
fn lower_unary_expr(cx: &LowerCtx, fr: &Frame, k: &mut Sink, e: &Expr) -> (r: MirExpr)
    requires
        cx_ok(cx.check),
        lower_ok(*cx, fr@, *e),
        e is Unary,
    ensures
        r@ == lower_spec(*cx, fr@, old(k)@, *e).0,
        final(k)@ == lower_spec(*cx, fr@, old(k)@, *e).1,
    decreases e, 2nat,
{
    match e {
        Expr::Unary { op, expr } => match op {
            UnaryOp::Inc | UnaryOp::Dec => lower_step_expr(cx, fr, k, e),
            UnaryOp::Await => {
                add_error(k, "await 降级暂不支持");
                let v = lower_expr(cx, fr, k, expr);
                MirExpr::Unary { op: MirUnary::Not, expr: Box::new(v) }
            },
            _ => {
                let v = lower_expr(cx, fr, k, expr);
                let u = match op {
                    UnaryOp::Not => MirUnary::Not,
                    UnaryOp::Neg => MirUnary::Neg,
                    UnaryOp::Pos => MirUnary::Pos,
                    _ => MirUnary::BitNot,
                };
                MirExpr::Unary { op: u, expr: Box::new(v) }
            },
        },
        _ => MirExpr::Int(0),
    }
}

#[verifier::rlimit(100)]
fn lower_postfix_expr(cx: &LowerCtx, fr: &Frame, k: &mut Sink, e: &Expr) -> (r: MirExpr)
    requires
        cx_ok(cx.check),
        lower_ok(*cx, fr@, *e),
        e is Postfix,
    ensures
        r@ == lower_spec(*cx, fr@, old(k)@, *e).0,
        final(k)@ == lower_spec(*cx, fr@, old(k)@, *e).1,
    decreases e, 2nat,
{
    match e {
        Expr::Postfix { expr, op } => match lower_target(cx, fr, k, expr) {
            Some(tg) => {
                let u = match op {
                    PostfixOp::Dec => MirUnary::Dec,
                    PostfixOp::Inc => MirUnary::Inc,
                };
                MirExpr::Postfix { target: tg, op: u }
            },
            None => {
                add_error(k, STEP_TARGET_MESSAGE);
                MirExpr::Int(0)
            },
        },
        _ => MirExpr::Int(0),
    }
}

#[verifier::rlimit(100)]
fn lower_binary_expr(cx: &LowerCtx, fr: &Frame, k: &mut Sink, e: &Expr) -> (r: MirExpr)
    requires
        cx_ok(cx.check),
        lower_ok(*cx, fr@, *e),
        e is Binary,
    ensures
        r@ == lower_spec(*cx, fr@, old(k)@, *e).0,
        final(k)@ == lower_spec(*cx, fr@, old(k)@, *e).1,
    decreases e, 2nat,
{
    match e {
        Expr::Binary { op, left, right } => {
            let lt = type_of(cx, fr, left);
            let rt = type_of(cx, fr, right);
            let l = lower_expr(cx, fr, k, left);
            let r = lower_expr(cx, fr, k, right);
            let is_add = match op {
                BinaryOp::Add => true,
                _ => false,
            };
            let l_str = match lt {
                Type::Str => true,
                _ => false,
            };
            let r_str = match rt {
                Type::Str => true,
                _ => false,
            };
            if is_add && l_str && crate::lowering::concatable_with_string(&rt) {
                let rs = string_of_exec(r, &rt);
                call_n("string_concat", list2(l, rs))
            } else if is_add && r_str && !l_str && crate::lowering::concatable_with_string(&lt) {
                let ls = string_of_exec(l, &lt);
                call_n("string_concat", list2(ls, r))
            } else {
                let is_pow = match op {
                    BinaryOp::Pow => true,
                    _ => false,
                };
                let is_rem = match op {
                    BinaryOp::Rem => true,
                    _ => false,
                };
                let is_eq = match op {
                    BinaryOp::Eq => true,
                    _ => false,
                };
                let is_ne = match op {
                    BinaryOp::Ne => true,
                    _ => false,
                };
                if is_pow {
                    let name = if lt.is_float() {
                        "pow_f64"
                    } else {
                        "pow_i64"
                    };
                    call_n(name, list2(l, r))
                } else if is_rem && lt.is_float() {
                    call_n("frem_f64", list2(l, r))
                } else if (is_eq || is_ne) && l_str {
                    let name = if is_eq {
                        "string_eq"
                    } else {
                        "string_ne"
                    };
                    call_n(name, list2(l, r))
                } else {
                    MirExpr::Binary { op: mir_binary(op), left: Box::new(l), right: Box::new(r) }
                }
            }
        },
        _ => MirExpr::Int(0),
    }
}

#[verifier::rlimit(100)]
fn lower_assign_expr_node(cx: &LowerCtx, fr: &Frame, k: &mut Sink, e: &Expr) -> (r: MirExpr)
    requires
        cx_ok(cx.check),
        lower_ok(*cx, fr@, *e),
        e is Assign,
    ensures
        r@ == lower_spec(*cx, fr@, old(k)@, *e).0,
        final(k)@ == lower_spec(*cx, fr@, old(k)@, *e).1,
    decreases e, 2nat,
{
    match e {
        Expr::Assign { .. } => match lower_assign_parts(cx, fr, k, e) {
            Some((tg, v)) => MirExpr::Assign { target: tg, value: Box::new(v) },
            None => {
                add_error(k, ASSIGN_LOWERING_MESSAGE);
                MirExpr::Int(0)
            },
        },
        _ => MirExpr::Int(0),
    }
}

#[verifier::rlimit(100)]
fn lower_index_expr(cx: &LowerCtx, fr: &Frame, k: &mut Sink, e: &Expr) -> (r: MirExpr)
    requires
        cx_ok(cx.check),
        lower_ok(*cx, fr@, *e),
        e is Index,
    ensures
        r@ == lower_spec(*cx, fr@, old(k)@, *e).0,
        final(k)@ == lower_spec(*cx, fr@, old(k)@, *e).1,
    decreases e, 2nat,
{
    match e {
        Expr::Index { object, index, optional } => {
            let ot = type_of(cx, fr, object);
            let o = lower_expr(cx, fr, k, object);
            let i = lower_expr(cx, fr, k, index);
            let is_str = match ot {
                Type::Str => true,
                _ => false,
            };
            let access = if is_str {
                call_n("string_char_at", list2(o, i))
            } else {
                MirExpr::Index { object: Box::new(o), index: Box::new(i), elem: Box::new(elem_of(&ot)) }
            };
            if *optional {
                let et = type_of(cx, fr, e);
                let o2 = lower_expr(cx, fr, k, object);
                guard(o2, access, &et)
            } else {
                access
            }
        },
        _ => MirExpr::Int(0),
    }
}

#[verifier::rlimit(100)]
fn lower_member_expr(cx: &LowerCtx, fr: &Frame, k: &mut Sink, e: &Expr) -> (r: MirExpr)
    requires
        cx_ok(cx.check),
        lower_ok(*cx, fr@, *e),
        e is Member,
    ensures
        r@ == lower_spec(*cx, fr@, old(k)@, *e).0,
        final(k)@ == lower_spec(*cx, fr@, old(k)@, *e).1,
    decreases e, 2nat,
{
    match e {
        Expr::Member { object, name, optional } => {
            let ot = type_of(cx, fr, object);
            proof {
                crate::types::lemma_base_v(ot);
            }
            let base = ot.without_nullable();
            let base_str = match base {
                Type::Str => true,
                _ => false,
            };
            let base_array = match base {
                Type::Array(_) => true,
                _ => false,
            };
            let access = if crate::text::same_text(name.as_str(), "length") && (base_array || base_str) {
                let o = lower_expr(cx, fr, k, object);
                if base_str {
                    call_n("string_char_len", list1(o))
                } else {
                    MirExpr::Len { object: Box::new(o), string: false }
                }
            } else {
                match field_slot_exec(&cx.check.types, &ot, name.as_str()) {
                    Some(slot) => {
                        let o = lower_expr(cx, fr, k, object);
                        MirExpr::Field { object: Box::new(o), index: slot }
                    },
                    None => {
                        let found = match ot {
                            Type::Enum(id) => if (id as usize) < cx.check.types.enums.len() {
                                enum_value_exec(&cx.check.types.enums[id as usize].members, name.as_str())
                            } else {
                                None
                            },
                            _ => None,
                        };
                        match found {
                            Some(v) => MirExpr::Int(v),
                            None => {
                                add_error(k, "成员访问未解析");
                                MirExpr::Int(0)
                            },
                        }
                    },
                }
            };
            if *optional {
                let et = type_of(cx, fr, e);
                let o2 = lower_expr(cx, fr, k, object);
                guard(o2, access, &et)
            } else {
                access
            }
        },
        _ => MirExpr::Int(0),
    }
}

#[verifier::rlimit(100)]
fn lower_array_expr(cx: &LowerCtx, fr: &Frame, k: &mut Sink, e: &Expr) -> (r: MirExpr)
    requires
        cx_ok(cx.check),
        lower_ok(*cx, fr@, *e),
        e is Array,
    ensures
        r@ == lower_spec(*cx, fr@, old(k)@, *e).0,
        final(k)@ == lower_spec(*cx, fr@, old(k)@, *e).1,
    decreases e, 2nat,
{
    match e {
        Expr::Array(items) => {
            let t = type_of(cx, fr, e);
            let elem = match t {
                Type::Array(x) => *x,
                other => other,
            };
            let elem = crate::typing::substitute_type(&elem, &cx.type_args);
            let vs = lower_items(cx, fr, k, items);
            MirExpr::Array { elem: Box::new(elem), items: vs }
        },
        _ => MirExpr::Int(0),
    }
}

#[verifier::rlimit(100)]
fn lower_call_expr(cx: &LowerCtx, fr: &Frame, k: &mut Sink, e: &Expr) -> (r: MirExpr)
    requires
        cx_ok(cx.check),
        lower_ok(*cx, fr@, *e),
        e is Call,
    ensures
        r@ == lower_spec(*cx, fr@, old(k)@, *e).0,
        final(k)@ == lower_spec(*cx, fr@, old(k)@, *e).1,
    decreases e, 2nat,
{
    match e {
        Expr::Call { name, args } => {
            let fvt: Option<Type> = match crate::checker::find_scoped(&fr.scopes, name.as_str()) {
                Some(l) => Some(l.ty.clone()),
                None => match crate::checker::find_global(&cx.check.globals, name.as_str()) {
                    Some(i) => Some(cx.check.globals[i].ty.clone()),
                    None => None,
                },
            };
            match fvt {
                Some(Type::Function { params, ret }) => {
                    let fv = lower_ident(cx, fr, k, name.as_str());
                    proof {
                        lemma_args_give_list(*cx, fr@, args@);
                    }
                    let vs = lower_list(cx, fr, k, args);
                    let mut all = list1(fv);
                    let ghost a0 = all@;
                    let mut rest = vs;
                    let ghost r0 = rest@;
                    all.append(&mut rest);
                    proof {
                        lemma_exprs_v_concat(a0, r0);
                    }
                    let sig = closure_sig_exec(cx.module, &params, &ret);
                    MirExpr::Call { callee: MirCallee::Closure { sig }, args: all }
                },
                _ => {
                    let vs = lower_call_args(cx, fr, k, args);
                    let mut scratch: Vec<String> = Vec::new();
                    let ats = crate::checker::check_args(&cx.check, &fr.scopes, args, &mut scratch);
                    match crate::checker::find_function(&cx.check.functions, name.as_str()) {
                        Some(fi) => match crate::typing::pick_overload(&cx.check.types, &cx.check.functions[fi].1, &ats, true) {
                            Some((_, sig)) => {
                                let callee = direct_callee_exec(cx, sig);
                                MirExpr::Call { callee, args: vs }
                            },
                            None => MirExpr::Int(0),
                        },
                        None => MirExpr::Int(0),
                    }
                },
            }
        },
        _ => MirExpr::Int(0),
    }
}

fn closure_sig_exec(module: u32, params: &Vec<Type>, ret: &Type) -> (r: FunctionSig)
    ensures
        crate::typing::sig_view(r) == closure_sig(module, Type::view_all(params@), ret@),
{
    let mut ps: Vec<ParamSig> = Vec::new();
    let byte = Type::I8;
    assert(byte@ == TypeV::I8);
    ps.push(ParamSig { name: String::from_str("$env"), ty: Type::Ptr(Box::new(byte)), has_default: false, rest: false });
    let ghost pv = Type::view_all(params@);
    proof {
        crate::types::lemma_view_all(params@);
        assert(pv.take(0) =~= Seq::<TypeV>::empty());
        assert(crate::typing::param_view(ps@[0]) == ("$env"@, TypeV::Ptr(Box::new(TypeV::I8)), false, false));
        assert(Seq::new(ps@.len(), |j: int| crate::typing::param_view(ps@[j])) =~= closure_params(pv.take(0)));
    }
    let mut i: usize = 0;
    while i < params.len()
        invariant
            i <= params@.len(),
            pv == Type::view_all(params@),
            pv.len() == params@.len(),
            forall|j: int| 0 <= j < params@.len() ==> #[trigger] pv[j] == params@[j]@,
            ps@.len() == i + 1,
            Seq::new(ps@.len(), |j: int| crate::typing::param_view(ps@[j])) == closure_params(pv.take(i as int)),
        decreases params@.len() - i,
    {
        let mut name: Vec<char> = Vec::new();
        crate::text::push_str(&mut name, "arg");
        crate::text::push_decimal(&mut name, i as u64);
        let ghost before = ps@;
        let pname = crate::text::string_from_chars(&name);
        assert(pname@ == "arg"@ + decimal(i as nat));
        ps.push(ParamSig { name: pname, ty: params[i].clone(), has_default: false, rest: false });
        proof {
            assert(pv.take(i + 1).drop_last() =~= pv.take(i as int));
            assert(pv.take(i + 1).last() == pv[i as int]);
            assert(pv.take(i + 1).len() - 1 == i);
            assert(crate::typing::param_view(ps@[i + 1]) == ("arg"@ + decimal(i as nat), pv[i as int], false, false));
            assert(Seq::new(ps@.len(), |j: int| crate::typing::param_view(ps@[j])) =~= Seq::new(
                before.len(),
                |j: int| crate::typing::param_view(before[j]),
            ).push(crate::typing::param_view(ps@[i + 1])));
        }
        i += 1;
    }
    proof {
        assert(pv.take(i as int) =~= pv);
    }
    let r = FunctionSig {
        module: ModuleId(module),
        name: String::from_str("$closure"),
        generics: Vec::new(),
        params: ps,
        ret: ret.clone(),
        extern_c: false,
        span: Span { start: 0, end: 0 },
    };
    proof {
        assert(crate::typing::sig_view(r).generics =~= Seq::<Seq<char>>::empty());
    }
    r
}

proof fn lemma_abbrevs_view(p: Seq<ParamSig>)
    ensures
        crate::lowering::abbrevs(p) == abbrevs_v(Seq::new(p.len(), |i: int| crate::typing::param_view(p[i]))),
    decreases p.len(),
{
    if p.len() > 0 {
        lemma_abbrevs_view(p.drop_last());
        assert(Seq::new(p.len(), |i: int| crate::typing::param_view(p[i])).drop_last() =~= Seq::new(
            p.drop_last().len(),
            |i: int| crate::typing::param_view(p.drop_last()[i]),
        ));
    }
}

fn direct_callee_exec(cx: &LowerCtx, sig: FunctionSig) -> (r: MirCallee)
    ensures
        crate::mir::callee_v(r) == direct_callee(*cx, crate::typing::sig_view(sig)),
{
    if sig.extern_c {
        let name = sig.name.clone();
        MirCallee::Extern { name, sig }
    } else {
        let m = sig.module.0;
        let stem: &str = if (m as usize) < cx.stems.len() {
            cx.stems[m as usize].as_str()
        } else {
            "mod"
        };
        let name = crate::lowering::stable_function_name(&sig, stem);
        proof {
            lemma_abbrevs_view(sig.params@);
        }
        MirCallee::Function { module: m, name, sig }
    }
}

fn lower_items(cx: &LowerCtx, fr: &Frame, k: &mut Sink, items: &Vec<Expr>) -> (r: Vec<MirExpr>)
    requires
        cx_ok(cx.check),
        items_lower_ok(*cx, fr@, items@),
    ensures
        exprs_v(r@) == items_spec(*cx, fr@, old(k)@, items@).0,
        final(k)@ == items_spec(*cx, fr@, old(k)@, items@).1,
    decreases items, 1nat,
{
    let ghost k0 = k@;
    let mut out: Vec<MirExpr> = Vec::new();
    let mut i: usize = 0;
    assert(exprs_v(out@) =~= items_spec(*cx, fr@, k0, items@.take(0)).0);
    while i < items.len()
        invariant
            i <= items@.len(),
            cx_ok(cx.check),
            items_lower_ok(*cx, fr@, items@),
            exprs_v(out@) == items_spec(*cx, fr@, k0, items@.take(i as int)).0,
            k@ == items_spec(*cx, fr@, k0, items@.take(i as int)).1,
        decreases items@.len() - i,
    {
        proof {
            assert(items@.take(i + 1).drop_last() =~= items@.take(i as int));
            assert(items@.take(i + 1).last() == items@[i as int]);
            lemma_items_lower_each(*cx, fr@, items@, i as int);
        }
        let ghost before = out@;
        let v = match &items[i] {
            Expr::Spread(inner) => {
                let x = lower_expr(cx, fr, k, inner);
                MirExpr::ArraySpread(Box::new(x))
            },
            item => lower_expr(cx, fr, k, item),
        };
        let ghost vv = v;
        out.push(v);
        proof {
            lemma_exprs_v_push(before, vv);
        }
        i += 1;
    }
    proof {
        assert(items@.take(i as int) =~= items@);
    }
    out
}

proof fn lemma_items_lower_each(cx: LowerCtx, f: FrameV, s: Seq<Expr>, i: int)
    requires
        items_lower_ok(cx, f, s),
        0 <= i < s.len(),
    ensures
        match s[i] {
            Expr::Spread(inner) => lower_ok(cx, f, *inner),
            item => lower_ok(cx, f, item),
        },
    decreases s.len(),
{
    if i < s.len() - 1 {
        lemma_items_lower_each(cx, f, s.drop_last(), i);
        assert(s.drop_last()[i] == s[i]);
    }
}

proof fn lemma_list_lower_each(cx: LowerCtx, f: FrameV, s: Seq<Expr>, i: int)
    requires
        list_lower_ok(cx, f, s),
        0 <= i < s.len(),
    ensures
        lower_ok(cx, f, s[i]),
    decreases s.len(),
{
    if i < s.len() - 1 {
        lemma_list_lower_each(cx, f, s.drop_last(), i);
        assert(s.drop_last()[i] == s[i]);
    }
}

proof fn lemma_args_lower_each(cx: LowerCtx, f: FrameV, s: Seq<Expr>, i: int)
    requires
        args_lower_ok(cx, f, s),
        0 <= i < s.len(),
    ensures
        lower_ok(cx, f, s[i]) && match s[i] {
            Expr::Spread(inner) => match *inner {
                Expr::Array(items) => list_lower_ok(cx, f, items@),
                _ => true,
            },
            _ => true,
        },
    decreases s.len(),
{
    if i < s.len() - 1 {
        lemma_args_lower_each(cx, f, s.drop_last(), i);
        assert(s.drop_last()[i] == s[i]);
    }
}

proof fn lemma_args_give_list(cx: LowerCtx, f: FrameV, s: Seq<Expr>)
    requires
        args_lower_ok(cx, f, s),
    ensures
        list_lower_ok(cx, f, s),
    decreases s.len(),
{
    if s.len() > 0 {
        lemma_args_give_list(cx, f, s.drop_last());
    }
}

fn lower_list(cx: &LowerCtx, fr: &Frame, k: &mut Sink, es: &Vec<Expr>) -> (r: Vec<MirExpr>)
    requires
        cx_ok(cx.check),
        list_lower_ok(*cx, fr@, es@),
    ensures
        exprs_v(r@) == list_spec(*cx, fr@, old(k)@, es@).0,
        final(k)@ == list_spec(*cx, fr@, old(k)@, es@).1,
    decreases es, 1nat,
{
    let ghost k0 = k@;
    let mut out: Vec<MirExpr> = Vec::new();
    let mut i: usize = 0;
    assert(exprs_v(out@) =~= list_spec(*cx, fr@, k0, es@.take(0)).0);
    while i < es.len()
        invariant
            i <= es@.len(),
            cx_ok(cx.check),
            list_lower_ok(*cx, fr@, es@),
            exprs_v(out@) == list_spec(*cx, fr@, k0, es@.take(i as int)).0,
            k@ == list_spec(*cx, fr@, k0, es@.take(i as int)).1,
        decreases es@.len() - i,
    {
        proof {
            assert(es@.take(i + 1).drop_last() =~= es@.take(i as int));
            assert(es@.take(i + 1).last() == es@[i as int]);
            lemma_list_lower_each(*cx, fr@, es@, i as int);
        }
        let ghost before = out@;
        let v = lower_expr(cx, fr, k, &es[i]);
        let ghost vv = v;
        out.push(v);
        proof {
            lemma_exprs_v_push(before, vv);
        }
        i += 1;
    }
    proof {
        assert(es@.take(i as int) =~= es@);
    }
    out
}

fn lower_call_args(cx: &LowerCtx, fr: &Frame, k: &mut Sink, args: &Vec<Expr>) -> (r: Vec<MirExpr>)
    requires
        cx_ok(cx.check),
        args_lower_ok(*cx, fr@, args@),
    ensures
        exprs_v(r@) == call_args_spec(*cx, fr@, old(k)@, args@).0,
        final(k)@ == call_args_spec(*cx, fr@, old(k)@, args@).1,
    decreases args, 1nat,
{
    let ghost k0 = k@;
    let mut out: Vec<MirExpr> = Vec::new();
    let mut i: usize = 0;
    assert(exprs_v(out@) =~= call_args_spec(*cx, fr@, k0, args@.take(0)).0);
    while i < args.len()
        invariant
            i <= args@.len(),
            cx_ok(cx.check),
            args_lower_ok(*cx, fr@, args@),
            exprs_v(out@) == call_args_spec(*cx, fr@, k0, args@.take(i as int)).0,
            k@ == call_args_spec(*cx, fr@, k0, args@.take(i as int)).1,
        decreases args@.len() - i,
    {
        proof {
            assert(args@.take(i + 1).drop_last() =~= args@.take(i as int));
            assert(args@.take(i + 1).last() == args@[i as int]);
            lemma_args_lower_each(*cx, fr@, args@, i as int);
        }
        let ghost before = out@;
        let spread_items: Option<&Vec<Expr>> = match &args[i] {
            Expr::Spread(inner) => match &**inner {
                Expr::Array(items) => Some(items),
                _ => None,
            },
            _ => None,
        };
        match spread_items {
            Some(items) => {
                let mut us = lower_list(cx, fr, k, items);
                let ghost uv = us@;
                out.append(&mut us);
                proof {
                    lemma_exprs_v_concat(before, uv);
                }
            },
            None => {
                let v = lower_expr(cx, fr, k, &args[i]);
                let ghost vv = v;
                out.push(v);
                proof {
                    lemma_exprs_v_push(before, vv);
                }
            },
        }
        i += 1;
    }
    proof {
        assert(args@.take(i as int) =~= args@);
    }
    out
}

/// Lowers `e` (see `lower_spec`): the lowered expression, with the strings it interns
/// and the errors it finds added to `k`.
#[verifier::rlimit(100)]
pub fn lower_expr(cx: &LowerCtx, fr: &Frame, k: &mut Sink, e: &Expr) -> (r: MirExpr)
    requires
        cx_ok(cx.check),
        lower_ok(*cx, fr@, *e),
    ensures
        r@ == lower_spec(*cx, fr@, old(k)@, *e).0,
        final(k)@ == lower_spec(*cx, fr@, old(k)@, *e).1,
    decreases e, 3nat,
{
    match e {
        Expr::Integer { text, suffix } => {
            let v: i64 = match parse_int(text.as_str()) {
                Some(v) => v,
                None => 0,
            };
            let unsigned = match suffix {
                Some(IntegerSuffix::U8) | Some(IntegerSuffix::U16) | Some(IntegerSuffix::U32) | Some(
                    IntegerSuffix::U64,
                ) | Some(IntegerSuffix::Usize) => true,
                _ => false,
            };
            if unsigned {
                MirExpr::UInt(v as u64)
            } else {
                MirExpr::Int(v)
            }
        },
        Expr::Float { bits, .. } => MirExpr::Float(*bits),
        Expr::Str(text) => {
            let i = intern(k, text.as_str());
            MirExpr::Str(i)
        },
        Expr::Char(c) => MirExpr::Char(*c),
        Expr::Bool(b) => MirExpr::Bool(*b),
        Expr::Null => MirExpr::Null,
        Expr::Ident(name) => lower_ident(cx, fr, k, name.as_str()),
        Expr::This => match cx.check.this_class {
            Some(_) => MirExpr::Local(0),
            None => {
                add_error(k, "`this` 只能在方法中降级");
                MirExpr::Int(0)
            },
        },
        Expr::Super => {
            add_error(k, "`super` 只能用于调用基类构造函数或方法");
            MirExpr::Null
        },
        Expr::Group(inner) => lower_expr(cx, fr, k, inner),
        Expr::Cast { expr, ty } => {
            let v = lower_expr(cx, fr, k, expr);
            let to = crate::typing::substitute_type(ty, &cx.type_args);
            MirExpr::Cast { expr: Box::new(v), to }
        },
        Expr::Unary { .. } => lower_unary_expr(cx, fr, k, e),
        Expr::Postfix { .. } => lower_postfix_expr(cx, fr, k, e),
        Expr::Binary { .. } => lower_binary_expr(cx, fr, k, e),
        Expr::Assign { .. } => lower_assign_expr_node(cx, fr, k, e),
        Expr::Conditional { cond, then, else_ } => {
            let c = lower_expr(cx, fr, k, cond);
            let a = lower_expr(cx, fr, k, then);
            let b = lower_expr(cx, fr, k, else_);
            MirExpr::Select { cond: Box::new(c), then: Box::new(a), else_: Box::new(b) }
        },
        Expr::Index { .. } => lower_index_expr(cx, fr, k, e),
        Expr::Member { .. } => lower_member_expr(cx, fr, k, e),
        Expr::Spread(inner) => {
            add_error(k, "`...` 展开只能用于数组/对象字面量或调用参数");
            lower_expr(cx, fr, k, inner)
        },
        Expr::Array(_) => lower_array_expr(cx, fr, k, e),
        Expr::Call { .. } => lower_call_expr(cx, fr, k, e),
        _ => MirExpr::Int(0),
    }
}

// ---------------------------------------------------------------------------
// Statements.
// ---------------------------------------------------------------------------

/// What lowering a function body changes: its frame, its locals (name, type and
/// whether assignable), and the sink.
pub struct BodyLower {
    pub frame: Frame,
    pub locals: Vec<MirLocal>,
    pub sink: Sink,
}

/// The view of a body being lowered.
pub struct BodyV {
    pub f: FrameV,
    pub locals: Seq<(Seq<char>, TypeV, bool)>,
    pub k: SinkV,
}

/// The view of a body being lowered.
pub open spec fn body_v(b: BodyLower) -> BodyV {
    BodyV {
        f: b.frame@,
        locals: Seq::new(b.locals@.len(), |i: int| crate::lowering::local_view(b.locals@[i])),
        k: b.sink@,
    }
}

/// A walk state whose loop and return facts the scopes do not depend on.
pub open spec fn scope_flow() -> FlowV {
    FlowV { in_loop: false, in_switch: false, ret: TypeV::Void, saw_value: false }
}

/// The type of a declared local: its annotation unless erroneous, else its
/// initialiser's type, with the instance's arguments put in; else the error type.
pub open spec fn local_type(cx: LowerCtx, f: FrameV, annotation: Option<Type>, init: Option<Expr>) -> TypeV {
    match annotation {
        Some(t) if t@ != TypeV::Error => inst(cx, t@),
        _ => match init {
            Some(e) => inst(cx, ty_of(cx, f, e)),
            None => TypeV::Error,
        },
    }
}

/// The place and value of an expression statement that assigns: an assignment
/// expression (see `assign_spec`), or `++`/`--` (the target and its value plus or
/// minus 1).
pub open spec fn parts_spec(cx: LowerCtx, f: FrameV, k: SinkV, e: Expr) -> (Option<(MirTargetV, MirExprV)>, SinkV) {
    match e {
        Expr::Assign { .. } => assign_spec(cx, f, k, e),
        Expr::Unary { op, expr } => if op is Inc || op is Dec {
            step_parts(cx, f, k, *expr, op is Dec)
        } else {
            (None, k)
        },
        Expr::Postfix { expr, op } => step_parts(cx, f, k, *expr, op is Dec),
        _ => (None, k),
    }
}

/// The place of `x` and the value `x ± 1`.
pub open spec fn step_parts(cx: LowerCtx, f: FrameV, k: SinkV, x: Expr, dec: bool) -> (Option<(MirTargetV, MirExprV)>, SinkV) {
    let (t, k1) = target_spec(cx, f, k, x);
    match t {
        Some(tg) => {
            let (cur, k2) = lower_spec(cx, f, k1, x);
            (Some((tg, MirExprV::Binary {
                op: if dec {
                    MirBinary::Sub
                } else {
                    MirBinary::Add
                },
                left: Box::new(cur),
                right: Box::new(MirExprV::Int(1)),
            })), k2)
        },
        None => (None, k1),
    }
}

/// The frame once `name` is bound to the local `idx` in the innermost scope.
pub open spec fn bind(f: FrameV, name: String, idx: int) -> Seq<Seq<(String, usize)>> {
    f.slots.update(f.slots.len() - 1, seq![(name, idx as usize)] + f.slots.last())
}

/// The statements `s` lowers to, and the body after it:
/// - an assigning expression statement becomes an assignment; another one an
///   expression statement;
/// - a declaration declares a local (its type: `local_type`), binds the name in the
///   innermost scope, and lowers its initialiser there;
/// - a block lowers its statements in a new scope;
/// - `if`, `while`, `break`, `continue` and `return` lower their parts in order.
pub open spec fn stmt_spec(cx: LowerCtx, b: BodyV, s: Stmt) -> (Seq<MirStmtV>, BodyV)
    decreases s, 0nat,
{
    match s {
        Stmt::Expr(e) => {
            let (p, k1) = parts_spec(cx, b.f, b.k, e);
            match p {
                Some((t, v)) => (seq![MirStmtV::Assign { target: t, value: v }], BodyV { k: k1, ..b }),
                None => {
                    let (m, k2) = lower_spec(cx, b.f, k1, e);
                    (seq![MirStmtV::Expr(m)], BodyV { k: k2, ..b })
                },
            }
        },
        Stmt::Var { name, mutable, annotation, init } => {
            let ty = local_type(cx, b.f, annotation, init);
            let idx = b.locals.len() as int;
            let slots = bind(b.f, name, idx);
            let (iv, k1) = match init {
                Some(e) => {
                    let (m, k1) = lower_spec(cx, FrameV { slots, scopes: b.f.scopes }, b.k, e);
                    (Some(m), k1)
                },
                None => (None, b.k),
            };
            (seq![MirStmtV::VarDecl { local: idx as usize, init: iv }], BodyV {
                f: FrameV { slots, scopes: walk_stmt(cx.check, b.f.scopes, scope_flow(), s).0 },
                locals: b.locals.push((name@, inst(cx, ty), mutable)),
                k: k1,
            })
        },
        Stmt::Block(stmts) => {
            let inner = BodyV { f: FrameV { slots: b.f.slots.push(Seq::empty()), scopes: b.f.scopes.push(Seq::empty()) }, ..b };
            let (ms, b1) = stmts_spec(cx, inner, stmts@);
            (ms, BodyV { f: FrameV { slots: b1.f.slots.drop_last(), scopes: b1.f.scopes.drop_last() }, ..b1 })
        },
        Stmt::If { cond, then, else_ } => {
            let (c, k1) = lower_spec(cx, b.f, b.k, cond);
            let (t, b1) = stmt_spec(cx, BodyV { k: k1, ..b }, *then);
            match else_ {
                Some(other) => {
                    let (el, b2) = stmt_spec(cx, b1, *other);
                    (seq![MirStmtV::If { cond: c, then: t, else_: el }], b2)
                },
                None => (seq![MirStmtV::If { cond: c, then: t, else_: Seq::empty() }], b1),
            }
        },
        Stmt::While { cond, body } => {
            let (c, k1) = lower_spec(cx, b.f, b.k, cond);
            let (t, b1) = stmt_spec(cx, BodyV { k: k1, ..b }, *body);
            (seq![MirStmtV::While { cond: c, body: t }], b1)
        },
        Stmt::Break => (seq![MirStmtV::Break], b),
        Stmt::Continue => (seq![MirStmtV::Continue], b),
        Stmt::Return(value) => match value {
            Some(e) => {
                let (m, k1) = lower_spec(cx, b.f, b.k, e);
                (seq![MirStmtV::Return(Some(m))], BodyV { k: k1, ..b })
            },
            None => (seq![MirStmtV::Return(None)], b),
        },
    }
}

/// The statements a list lowers to, in order.
pub open spec fn stmts_spec(cx: LowerCtx, b: BodyV, stmts: Seq<Stmt>) -> (Seq<MirStmtV>, BodyV)
    decreases stmts, 1nat,
{
    if stmts.len() == 0 {
        (Seq::empty(), b)
    } else {
        let (ms, b1) = stmts_spec(cx, b, stmts.drop_last());
        let (ns, b2) = stmt_spec(cx, b1, stmts.last());
        (ms + ns, b2)
    }
}

/// `s` can be lowered where it stands: its expressions can be (`lower_ok`), a
/// declaration can be checked (`stmt_ok`), and there is room for another local.
pub open spec fn stmt_lower_ok(cx: LowerCtx, b: BodyV, s: Stmt) -> bool
    decreases s, 0nat,
{
    match s {
        Stmt::Expr(e) => lower_ok(cx, b.f, e),
        Stmt::Var { name, init, .. } => {
            &&& stmt_ok(cx.check, b.f.scopes, scope_flow(), s)
            &&& b.locals.len() < usize::MAX
            &&& match init {
                Some(e) => lower_ok(cx, FrameV { slots: bind(b.f, name, b.locals.len() as int), scopes: b.f.scopes }, e),
                None => true,
            }
        },
        Stmt::Block(stmts) => stmts_lower_ok(
            cx,
            BodyV { f: FrameV { slots: b.f.slots.push(Seq::empty()), scopes: b.f.scopes.push(Seq::empty()) }, ..b },
            stmts@,
        ),
        Stmt::If { cond, then, else_ } => {
            &&& lower_ok(cx, b.f, cond)
            &&& stmt_lower_ok(cx, BodyV { k: lower_spec(cx, b.f, b.k, cond).1, ..b }, *then)
            &&& match else_ {
                Some(other) => stmt_lower_ok(cx, stmt_spec(cx, BodyV { k: lower_spec(cx, b.f, b.k, cond).1, ..b }, *then).1, *other),
                None => true,
            }
        },
        Stmt::While { cond, body } => lower_ok(cx, b.f, cond) && stmt_lower_ok(cx, BodyV { k: lower_spec(cx, b.f, b.k, cond).1, ..b }, *body),
        Stmt::Return(value) => match value {
            Some(e) => lower_ok(cx, b.f, e),
            None => true,
        },
        _ => true,
    }
}

/// Each statement of a list can be lowered where it stands.
pub open spec fn stmts_lower_ok(cx: LowerCtx, b: BodyV, stmts: Seq<Stmt>) -> bool
    decreases stmts, 1nat,
{
    if stmts.len() == 0 {
        true
    } else {
        stmts_lower_ok(cx, b, stmts.drop_last()) && stmt_lower_ok(cx, stmts_spec(cx, b, stmts.drop_last()).1, stmts.last())
    }
}

/// Lowering a statement keeps the number of scopes.
pub proof fn lemma_stmt_keeps_depth(cx: LowerCtx, b: BodyV, s: Stmt)
    requires
        b.f.slots.len() > 0,
        b.f.scopes.len() > 0,
    ensures
        stmt_spec(cx, b, s).1.f.slots.len() == b.f.slots.len(),
        stmt_spec(cx, b, s).1.f.scopes.len() == b.f.scopes.len(),
    decreases s, 0nat,
{
    match s {
        Stmt::Var { .. } => {
            crate::body::lemma_walk_keeps_outer(cx.check, b.f.scopes, scope_flow(), s);
        },
        Stmt::Block(stmts) => {
            let inner = BodyV { f: FrameV { slots: b.f.slots.push(Seq::empty()), scopes: b.f.scopes.push(Seq::empty()) }, ..b };
            lemma_stmts_keep_depth(cx, inner, stmts@);
        },
        Stmt::If { cond, then, else_ } => {
            let b0 = BodyV { k: lower_spec(cx, b.f, b.k, cond).1, ..b };
            lemma_stmt_keeps_depth(cx, b0, *then);
            match else_ {
                Some(other) => lemma_stmt_keeps_depth(cx, stmt_spec(cx, b0, *then).1, *other),
                None => {},
            }
        },
        Stmt::While { cond, body } => {
            lemma_stmt_keeps_depth(cx, BodyV { k: lower_spec(cx, b.f, b.k, cond).1, ..b }, *body);
        },
        _ => {},
    }
}

/// Lowering a list of statements keeps the number of scopes.
pub proof fn lemma_stmts_keep_depth(cx: LowerCtx, b: BodyV, stmts: Seq<Stmt>)
    requires
        b.f.slots.len() > 0,
        b.f.scopes.len() > 0,
    ensures
        stmts_spec(cx, b, stmts).1.f.slots.len() == b.f.slots.len(),
        stmts_spec(cx, b, stmts).1.f.scopes.len() == b.f.scopes.len(),
    decreases stmts, 1nat,
{
    if stmts.len() > 0 {
        lemma_stmts_keep_depth(cx, b, stmts.drop_last());
        lemma_stmt_keeps_depth(cx, stmts_spec(cx, b, stmts.drop_last()).1, stmts.last());
    }
}

#[verifier::rlimit(100)]
fn lower_expr_stmt(cx: &LowerCtx, b: &mut BodyLower, s: &Stmt, out: &mut Vec<MirStmt>)
    requires
        cx_ok(cx.check),
        old(b).frame.slots@.len() > 0,
        old(b).frame.scopes@.len() > 0,
        stmt_lower_ok(*cx, body_v(*old(b)), *s),
        s is Expr,
    ensures
        stmts_v(final(out)@) == stmts_v(old(out)@) + stmt_spec(*cx, body_v(*old(b)), *s).0,
        body_v(*final(b)) == stmt_spec(*cx, body_v(*old(b)), *s).1,
    decreases s, 1nat,
{
    let ghost b0 = body_v(*b);
    let ghost o0 = stmts_v(out@);
    match s {
        Stmt::Expr(e) => {
            match lower_parts(cx, &b.frame, &mut b.sink, e) {
                Some((t, v)) => push_stmt(out, MirStmt::new(MirStmtKind::Assign { target: t, value: v })),
                None => {
                    let m = lower_expr(cx, &b.frame, &mut b.sink, e);
                    push_stmt(out, MirStmt::new(MirStmtKind::Expr(m)));
                },
            }
            assert(body_v(*b) =~= stmt_spec(*cx, b0, *s).1);
        },
        _ => {
            assert(false);
        },
    }
}

#[verifier::rlimit(100)]
fn lower_var_stmt(cx: &LowerCtx, b: &mut BodyLower, s: &Stmt, out: &mut Vec<MirStmt>)
    requires
        cx_ok(cx.check),
        old(b).frame.slots@.len() > 0,
        old(b).frame.scopes@.len() > 0,
        stmt_lower_ok(*cx, body_v(*old(b)), *s),
        s is Var,
    ensures
        stmts_v(final(out)@) == stmts_v(old(out)@) + stmt_spec(*cx, body_v(*old(b)), *s).0,
        body_v(*final(b)) == stmt_spec(*cx, body_v(*old(b)), *s).1,
    decreases s, 1nat,
{
    let ghost b0 = body_v(*b);
    let ghost o0 = stmts_v(out@);
    match s {
        Stmt::Var { name, mutable, annotation, init } => {
            let ty = local_type_exec(cx, &b.frame, annotation, init);
            let ghost tyv = ty@;
            let ghost lv0 = b.locals@;
            let idx = crate::lowering::declare_local(&mut b.locals, &cx.type_args, name.as_str(), ty, *mutable);
            bind_slot(&mut b.frame, name, idx);
            let iv = match init {
                Some(e) => Some(lower_expr(cx, &b.frame, &mut b.sink, e)),
                None => None,
            };
            let ghost k1 = b.sink@;
            let mut flow = BodyState {
                in_loop: false,
                in_switch: false,
                ret: crate::statements::ReturnState { ret: Type::Void, saw_return_value: false },
            };
            assert(crate::body::flow_view(flow) == scope_flow());
            let mut junk: Vec<String> = Vec::new();
            crate::body::check_stmt(&cx.check, &mut b.frame.scopes, &mut flow, s, &mut junk);
            let ghost ivv = match &iv {
                Some(m) => Some(m@),
                None => None,
            };
            let st = MirStmt::new(MirStmtKind::VarDecl { local: idx, init: iv });
            assert(st@ == MirStmtV::VarDecl { local: idx, init: ivv });
            push_stmt(out, st);
            proof {
                assert(body_v(*b).locals =~= lv0_view(lv0).push((name@, crate::typing::subst(tyv, crate::typing::args_view(cx.type_args@)), *mutable)));
                assert(body_v(*b) =~= stmt_spec(*cx, b0, *s).1);
                assert(stmts_v(out@) =~= o0 + stmt_spec(*cx, b0, *s).0);
            }
        },
        _ => {
            assert(false);
        },
    }
}

#[verifier::rlimit(100)]
fn lower_block_stmt(cx: &LowerCtx, b: &mut BodyLower, s: &Stmt, out: &mut Vec<MirStmt>)
    requires
        cx_ok(cx.check),
        old(b).frame.slots@.len() > 0,
        old(b).frame.scopes@.len() > 0,
        stmt_lower_ok(*cx, body_v(*old(b)), *s),
        s is Block,
    ensures
        stmts_v(final(out)@) == stmts_v(old(out)@) + stmt_spec(*cx, body_v(*old(b)), *s).0,
        body_v(*final(b)) == stmt_spec(*cx, body_v(*old(b)), *s).1,
    decreases s, 1nat,
{
    let ghost b0 = body_v(*b);
    let ghost o0 = stmts_v(out@);
    match s {
        Stmt::Block(stmts) => {
            b.frame.slots.push(Vec::new());
            b.frame.scopes.push(Vec::new());
            proof {
                assert(b.frame@.slots =~= b0.f.slots.push(Seq::empty()));
                assert(crate::checker::scope_view(Seq::<Local>::empty()) =~= Seq::<LocalV>::empty());
                assert(b.frame@.scopes =~= b0.f.scopes.push(Seq::empty()));
                assert(body_v(*b) =~= (BodyV { f: FrameV { slots: b0.f.slots.push(Seq::empty()), scopes: b0.f.scopes.push(Seq::empty()) }, ..b0 }));
            }
            let ghost inner = body_v(*b);
            lower_stmts(cx, b, stmts, out);
            proof {
                lemma_stmts_keep_depth(*cx, inner, stmts@);
            }
            let ghost mid = b.frame.slots@;
            let ghost mid2 = b.frame.scopes@;
            b.frame.slots.pop();
            b.frame.scopes.pop();
            proof {
                assert(b.frame@.slots =~= Seq::new(mid.len(), |i: int| mid[i]@).drop_last());
                assert(b.frame@.scopes =~= crate::checker::scopes_view(mid2).drop_last());
                assert(body_v(*b) =~= stmt_spec(*cx, b0, *s).1);
            }
        },
        _ => {
            assert(false);
        },
    }
}

#[verifier::rlimit(100)]
fn lower_if_stmt(cx: &LowerCtx, b: &mut BodyLower, s: &Stmt, out: &mut Vec<MirStmt>)
    requires
        cx_ok(cx.check),
        old(b).frame.slots@.len() > 0,
        old(b).frame.scopes@.len() > 0,
        stmt_lower_ok(*cx, body_v(*old(b)), *s),
        s is If,
    ensures
        stmts_v(final(out)@) == stmts_v(old(out)@) + stmt_spec(*cx, body_v(*old(b)), *s).0,
        body_v(*final(b)) == stmt_spec(*cx, body_v(*old(b)), *s).1,
    decreases s, 1nat,
{
    let ghost b0 = body_v(*b);
    let ghost o0 = stmts_v(out@);
    match s {
        Stmt::If { cond, then, else_ } => {
            let c = lower_expr(cx, &b.frame, &mut b.sink, cond);
            let mut tv: Vec<MirStmt> = Vec::new();
            assert(stmts_v(tv@) =~= Seq::<MirStmtV>::empty());
            lower_stmt(cx, b, then, &mut tv);
            proof {
                lemma_stmt_keeps_depth(*cx, BodyV { k: lower_spec(*cx, b0.f, b0.k, *cond).1, ..b0 }, **then);
            }
            let mut ev: Vec<MirStmt> = Vec::new();
            assert(stmts_v(ev@) =~= Seq::<MirStmtV>::empty());
            match else_ {
                Some(other) => {
                    lower_stmt(cx, b, other, &mut ev);
                },
                None => {},
            }
            let ghost (cvv, tvv, evv) = (c@, stmts_v(tv@), stmts_v(ev@));
            let st = MirStmt::new(MirStmtKind::If { cond: c, then: tv, else_: ev });
            assert(st@ == MirStmtV::If { cond: cvv, then: tvv, else_: evv });
            push_stmt(out, st);
            proof {
                assert(stmts_v(out@) =~= o0 + stmt_spec(*cx, b0, *s).0);
            }
        },
        _ => {
            assert(false);
        },
    }
}

#[verifier::rlimit(100)]
fn lower_while_stmt(cx: &LowerCtx, b: &mut BodyLower, s: &Stmt, out: &mut Vec<MirStmt>)
    requires
        cx_ok(cx.check),
        old(b).frame.slots@.len() > 0,
        old(b).frame.scopes@.len() > 0,
        stmt_lower_ok(*cx, body_v(*old(b)), *s),
        s is While,
    ensures
        stmts_v(final(out)@) == stmts_v(old(out)@) + stmt_spec(*cx, body_v(*old(b)), *s).0,
        body_v(*final(b)) == stmt_spec(*cx, body_v(*old(b)), *s).1,
    decreases s, 1nat,
{
    let ghost b0 = body_v(*b);
    let ghost o0 = stmts_v(out@);
    match s {
        Stmt::While { cond, body } => {
            let c = lower_expr(cx, &b.frame, &mut b.sink, cond);
            let mut bv: Vec<MirStmt> = Vec::new();
            assert(stmts_v(bv@) =~= Seq::<MirStmtV>::empty());
            lower_stmt(cx, b, body, &mut bv);
            let ghost (cvv, bvv) = (c@, stmts_v(bv@));
            let st = MirStmt::new(MirStmtKind::While { cond: c, body: bv });
            assert(st@ == MirStmtV::While { cond: cvv, body: bvv });
            push_stmt(out, st);
            proof {
                assert(stmts_v(out@) =~= o0 + stmt_spec(*cx, b0, *s).0);
            }
        },
        _ => {
            assert(false);
        },
    }
}

#[verifier::rlimit(100)]
fn lower_return_stmt(cx: &LowerCtx, b: &mut BodyLower, s: &Stmt, out: &mut Vec<MirStmt>)
    requires
        cx_ok(cx.check),
        old(b).frame.slots@.len() > 0,
        old(b).frame.scopes@.len() > 0,
        stmt_lower_ok(*cx, body_v(*old(b)), *s),
        s is Return,
    ensures
        stmts_v(final(out)@) == stmts_v(old(out)@) + stmt_spec(*cx, body_v(*old(b)), *s).0,
        body_v(*final(b)) == stmt_spec(*cx, body_v(*old(b)), *s).1,
    decreases s, 1nat,
{
    let ghost b0 = body_v(*b);
    let ghost o0 = stmts_v(out@);
    match s {
        Stmt::Return(value) => {
            let v = match value {
                Some(e) => Some(lower_expr(cx, &b.frame, &mut b.sink, e)),
                None => None,
            };
            let ghost vv = match &v {
                Some(m) => Some(m@),
                None => None,
            };
            let st = MirStmt::new(MirStmtKind::Return(v));
            assert(st@ == MirStmtV::Return(vv));
            push_stmt(out, st);
            proof {
                assert(stmts_v(out@) =~= o0 + stmt_spec(*cx, b0, *s).0);
                assert(body_v(*b) =~= stmt_spec(*cx, b0, *s).1);
            }
        },
        _ => {
            assert(false);
        },
    }
}

fn local_type_exec(cx: &LowerCtx, fr: &Frame, annotation: &Option<Type>, init: &Option<Expr>) -> (r: Type)
    requires
        cx_ok(cx.check),
        *init matches Some(e) ==> check_ok(cx.check, fr@.scopes, e),
    ensures
        r@ == local_type(*cx, fr@, *annotation, *init),
{
    let ann_ok = match annotation {
        Some(t) => match t {
            Type::Error => false,
            _ => true,
        },
        None => false,
    };
    if ann_ok {
        match annotation {
            Some(t) => crate::typing::substitute_type(t, &cx.type_args),
            None => Type::Error,
        }
    } else {
        match init {
            Some(e) => {
                let it = type_of(cx, fr, e);
                crate::typing::substitute_type(&it, &cx.type_args)
            },
            None => Type::Error,
        }
    }
}

fn bind_slot(fr: &mut Frame, name: &String, idx: usize)
    requires
        old(fr).slots@.len() > 0,
    ensures
        final(fr)@ == (FrameV { slots: bind(old(fr)@, *name, idx as int), ..old(fr)@ }),
        final(fr).slots@.len() == old(fr).slots@.len(),
        final(fr).scopes == old(fr).scopes,
{
    let ghost f0 = fr@;
    let ghost s0 = fr.slots@;
    let mut top = fr.slots.pop().unwrap();
    assert(top == s0.last());
    assert(fr.slots@ == s0.drop_last());
    let entry = (name.clone(), idx);
    assert(entry == (*name, idx));
    let ghost t0 = top@;
    top.insert(0, entry);
    assert(top@ =~= seq![(*name, idx)] + t0);
    let ghost t1 = top;
    fr.slots.push(top);
    proof {
        assert(fr.slots@ == s0.drop_last().push(t1));
        assert(f0.slots.len() == s0.len());
        assert(forall|i: int| 0 <= i < s0.len() ==> #[trigger] f0.slots[i] == s0[i]@);
        assert(Seq::new(fr.slots@.len(), |i: int| fr.slots@[i]@) =~= bind(f0, *name, idx as int));
    }
}

pub open spec fn lv0_view(l: Seq<MirLocal>) -> Seq<(Seq<char>, TypeV, bool)> {
    Seq::new(l.len(), |i: int| crate::lowering::local_view(l[i]))
}

fn push_stmt(out: &mut Vec<MirStmt>, st: MirStmt)
    ensures
        stmts_v(final(out)@) == stmts_v(old(out)@).push(st@),
{
    let ghost before = out@;
    let ghost sv = st;
    out.push(st);
    proof {
        lemma_stmts_v_push(before, sv);
    }
}

/// The place and value of an assigning expression statement (see `parts_spec`).
fn lower_parts(cx: &LowerCtx, fr: &Frame, k: &mut Sink, e: &Expr) -> (r: Option<(MirTarget, MirExpr)>)
    requires
        cx_ok(cx.check),
        lower_ok(*cx, fr@, *e),
    ensures
        match r {
            Some((t, v)) => parts_spec(*cx, fr@, old(k)@, *e).0 == Some((crate::mir::target_v(t), v@)),
            None => parts_spec(*cx, fr@, old(k)@, *e).0 is None,
        },
        final(k)@ == parts_spec(*cx, fr@, old(k)@, *e).1,
{
    match e {
        Expr::Assign { .. } => lower_assign_parts(cx, fr, k, e),
        Expr::Unary { op, expr } => match op {
            UnaryOp::Inc => lower_step_parts(cx, fr, k, expr, false),
            UnaryOp::Dec => lower_step_parts(cx, fr, k, expr, true),
            _ => None,
        },
        Expr::Postfix { expr, op } => {
            let dec = match op {
                PostfixOp::Dec => true,
                PostfixOp::Inc => false,
            };
            lower_step_parts(cx, fr, k, expr, dec)
        },
        _ => None,
    }
}

fn lower_step_parts(cx: &LowerCtx, fr: &Frame, k: &mut Sink, x: &Expr, dec: bool) -> (r: Option<(MirTarget, MirExpr)>)
    requires
        cx_ok(cx.check),
        lower_ok(*cx, fr@, *x),
        target_ok(*cx, fr@, *x),
    ensures
        match r {
            Some((t, v)) => step_parts(*cx, fr@, old(k)@, *x, dec).0 == Some((crate::mir::target_v(t), v@)),
            None => step_parts(*cx, fr@, old(k)@, *x, dec).0 is None,
        },
        final(k)@ == step_parts(*cx, fr@, old(k)@, *x, dec).1,
{
    match lower_target(cx, fr, k, x) {
        Some(tg) => {
            let cur = lower_expr(cx, fr, k, x);
            let ghost cv = cur@;
            let one = MirExpr::Int(1);
            assert(one@ == MirExprV::Int(1));
            let bop = if dec {
                MirBinary::Sub
            } else {
                MirBinary::Add
            };
            let v = MirExpr::Binary { op: bop, left: Box::new(cur), right: Box::new(one) };
            assert(v@ == MirExprV::Binary { op: bop, left: Box::new(cv), right: Box::new(MirExprV::Int(1)) });
            Some((tg, v))
        },
        None => None,
    }
}

/// Lowers the statement `s`, appending what it lowers to to `out` and updating the
/// body (see `stmt_spec`).
pub fn lower_stmt(cx: &LowerCtx, b: &mut BodyLower, s: &Stmt, out: &mut Vec<MirStmt>)
    requires
        cx_ok(cx.check),
        old(b).frame.slots@.len() > 0,
        old(b).frame.scopes@.len() > 0,
        stmt_lower_ok(*cx, body_v(*old(b)), *s),
    ensures
        stmts_v(final(out)@) == stmts_v(old(out)@) + stmt_spec(*cx, body_v(*old(b)), *s).0,
        body_v(*final(b)) == stmt_spec(*cx, body_v(*old(b)), *s).1,
    decreases s, 2nat,
{
    match s {
        Stmt::Expr(_) => lower_expr_stmt(cx, b, s, out),
        Stmt::Var { .. } => lower_var_stmt(cx, b, s, out),
        Stmt::Block(_) => lower_block_stmt(cx, b, s, out),
        Stmt::If { .. } => lower_if_stmt(cx, b, s, out),
        Stmt::While { .. } => lower_while_stmt(cx, b, s, out),
        Stmt::Return(_) => lower_return_stmt(cx, b, s, out),
        Stmt::Break => {
            push_stmt(out, MirStmt::new(MirStmtKind::Break));
            assert(stmts_v(out@) =~= stmts_v(old(out)@) + stmt_spec(*cx, body_v(*old(b)), *s).0);
        },
        Stmt::Continue => {
            push_stmt(out, MirStmt::new(MirStmtKind::Continue));
            assert(stmts_v(out@) =~= stmts_v(old(out)@) + stmt_spec(*cx, body_v(*old(b)), *s).0);
        },
    }
}

/// Lowers statements in order (see `stmts_spec`).
#[verifier::rlimit(100)]
pub fn lower_stmts(cx: &LowerCtx, b: &mut BodyLower, stmts: &Vec<Stmt>, out: &mut Vec<MirStmt>)
    requires
        cx_ok(cx.check),
        old(b).frame.slots@.len() > 0,
        old(b).frame.scopes@.len() > 0,
        stmts_lower_ok(*cx, body_v(*old(b)), stmts@),
    ensures
        stmts_v(final(out)@) == stmts_v(old(out)@) + stmts_spec(*cx, body_v(*old(b)), stmts@).0,
        body_v(*final(b)) == stmts_spec(*cx, body_v(*old(b)), stmts@).1,
    decreases stmts, 1nat,
{
    let ghost b0 = body_v(*b);
    let ghost o0 = stmts_v(out@);
    let mut i: usize = 0;
    assert(o0 + stmts_spec(*cx, b0, stmts@.take(0)).0 =~= o0);
    while i < stmts.len()
        invariant
            i <= stmts@.len(),
            cx_ok(cx.check),
            b0.f.slots.len() > 0,
            b0.f.scopes.len() > 0,
            stmts_lower_ok(*cx, b0, stmts@),
            b.frame.slots@.len() == b0.f.slots.len(),
            b.frame.scopes@.len() == b0.f.scopes.len(),
            body_v(*b) == stmts_spec(*cx, b0, stmts@.take(i as int)).1,
            stmts_v(out@) == o0 + stmts_spec(*cx, b0, stmts@.take(i as int)).0,
        decreases stmts@.len() - i,
    {
        proof {
            assert(stmts@.take(i + 1).drop_last() =~= stmts@.take(i as int));
            assert(stmts@.take(i + 1).last() == stmts@[i as int]);
            lemma_stmts_lower_prefix(*cx, b0, stmts@, i + 1);
        }
        let ghost bi = body_v(*b);
        let ghost prev = stmts_spec(*cx, b0, stmts@.take(i as int));
        let ghost oi = stmts_v(out@);
        assert(stmts_spec(*cx, b0, stmts@.take(i + 1)) == (prev.0 + stmt_spec(*cx, prev.1, stmts@[i as int]).0, stmt_spec(
            *cx,
            prev.1,
            stmts@[i as int],
        ).1));
        assert(stmt_lower_ok(*cx, bi, stmts@[i as int]));
        lower_stmt(cx, b, &stmts[i], out);
        proof {
            lemma_stmt_keeps_depth(*cx, bi, stmts@[i as int]);
            assert(stmts_v(out@) == oi + stmt_spec(*cx, prev.1, stmts@[i as int]).0);
            assert(stmts_v(out@) =~= o0 + stmts_spec(*cx, b0, stmts@.take(i + 1)).0);
        }
        i += 1;
    }
    proof {
        assert(stmts@.take(i as int) =~= stmts@);
    }
}

proof fn lemma_stmts_lower_prefix(cx: LowerCtx, b: BodyV, stmts: Seq<Stmt>, k: int)
    requires
        stmts_lower_ok(cx, b, stmts),
        0 < k <= stmts.len(),
    ensures
        stmts_lower_ok(cx, b, stmts.take(k)),
    decreases stmts.len() - k,
{
    if k < stmts.len() {
        assert(stmts.take(k + 1).drop_last() =~= stmts.take(k));
        if k + 1 < stmts.len() {
            lemma_stmts_lower_prefix(cx, b, stmts, k + 1);
        } else {
            assert(stmts.take(k + 1) =~= stmts);
        }
    } else {
        assert(stmts.take(k) =~= stmts);
    }
}

// ---------------------------------------------------------------------------
// Functions.
// ---------------------------------------------------------------------------

/// A lowered function as contracts read it.
pub struct FunctionV {
    pub name: Seq<char>,
    pub user_name: Seq<char>,
    pub exported: bool,
    pub params: Seq<(Seq<char>, TypeV)>,
    pub ret: TypeV,
    pub locals: Seq<(Seq<char>, TypeV, bool)>,
    pub body: Seq<MirStmtV>,
    pub extern_c: bool,
}

/// The view of a lowered function.
pub open spec fn function_v(f: crate::mir::MirFunction) -> FunctionV {
    FunctionV {
        name: f.name@,
        user_name: f.user_name@,
        exported: f.exported,
        params: Seq::new(f.params@.len(), |i: int| (f.params@[i].name@, f.params@[i].ty@)),
        ret: f.ret@,
        locals: lv0_view(f.locals@),
        body: stmts_v(f.body@),
        extern_c: f.extern_c,
    }
}

/// The scope that binds the parameters to the first locals (a later parameter of
/// the same name wins).
pub open spec fn param_slots(ps: Seq<ParamSig>) -> Seq<(String, usize)>
    decreases ps.len(),
{
    if ps.len() == 0 {
        Seq::empty()
    } else {
        seq![(ps.last().name, (ps.len() - 1) as usize)] + param_slots(ps.drop_last())
    }
}

/// The body before its statements: the parameters as the first locals (not
/// assignable), bound in one scope, for the checker too.
pub open spec fn entry_body(cx: LowerCtx, ps: Seq<ParamSig>, k: SinkV) -> BodyV {
    BodyV {
        f: FrameV {
            slots: seq![param_slots(ps)],
            scopes: seq![Seq::new(ps.len(), |i: int| (ps[i].name@, ps[i].ty@, false))],
        },
        locals: Seq::new(ps.len(), |i: int| (ps[i].name@, inst(cx, ps[i].ty@), false)),
        k,
    }
}

/// The function that a body lowers to: its symbol name, source name, whether it is
/// exported, its signature's parameters and return type, its locals (the parameters
/// first) and its statements.
pub open spec fn function_spec(
    cx: LowerCtx,
    name: Seq<char>,
    user_name: Seq<char>,
    exported: bool,
    sig: FunctionSig,
    body: Seq<Stmt>,
    k: SinkV,
) -> (FunctionV, SinkV) {
    let (ms, b) = stmts_spec(cx, entry_body(cx, sig.params@, k), body);
    (FunctionV {
        name,
        user_name,
        exported,
        params: Seq::new(sig.params@.len(), |i: int| (sig.params@[i].name@, sig.params@[i].ty@)),
        ret: sig.ret@,
        locals: b.locals,
        body: ms,
        extern_c: sig.extern_c,
    }, b.k)
}

/// Lowers a function (see `function_spec`).
pub fn lower_function(
    cx: &LowerCtx,
    name: &str,
    user_name: &str,
    exported: bool,
    sig: &FunctionSig,
    body: &Vec<Stmt>,
    k: &mut Sink,
) -> (r: crate::mir::MirFunction)
    requires
        cx_ok(cx.check),
        sig.params@.len() < usize::MAX,
        stmts_lower_ok(*cx, entry_body(*cx, sig.params@, old(k)@), body@),
    ensures
        function_v(r) == function_spec(*cx, name@, user_name@, exported, *sig, body@, old(k)@).0,
        final(k)@ == function_spec(*cx, name@, user_name@, exported, *sig, body@, old(k)@).1,
{
    let ps = &sig.params;
    let mut locals: Vec<MirLocal> = Vec::new();
    let mut slot_scope: Vec<(String, usize)> = Vec::new();
    let mut check_scope: Vec<Local> = Vec::new();
    let mut params: Vec<crate::mir::MirParam> = Vec::new();
    let mut i: usize = 0;
    while i < ps.len()
        invariant
            i <= ps@.len(),
            ps@.len() < usize::MAX,
            *ps == sig.params,
            locals@.len() == i,
            check_scope@.len() == i,
            params@.len() == i,
            lv0_view(locals@) =~= Seq::new(i as nat, |j: int| (ps@[j].name@, inst(*cx, ps@[j].ty@), false)),
            slot_scope@ == param_slots(ps@.take(i as int)),
            crate::checker::scope_view(check_scope@) =~= Seq::new(i as nat, |j: int| (ps@[j].name@, ps@[j].ty@, false)),
            Seq::new(params@.len(), |j: int| (params@[j].name@, params@[j].ty@)) =~= Seq::new(
                i as nat,
                |j: int| (ps@[j].name@, ps@[j].ty@),
            ),
        decreases ps@.len() - i,
    {
        let ghost l0 = locals@;
        let idx = crate::lowering::declare_local(&mut locals, &cx.type_args, ps[i].name.as_str(), ps[i].ty.clone(), false);
        proof {
            assert(locals@ =~= l0.push(locals@.last()));
            assert forall|j: int| 0 <= j < i + 1 implies #[trigger] lv0_view(locals@)[j] == (ps@[j].name@, inst(*cx, ps@[j].ty@), false) by {
                if j < i {
                    assert(locals@[j] == l0[j]);
                    assert(lv0_view(l0)[j] == (ps@[j].name@, inst(*cx, ps@[j].ty@), false));
                }
            }
        }
        let ghost s0 = slot_scope@;
        let entry = (ps[i].name.clone(), idx);
        assert(entry == (ps@[i as int].name, i));
        slot_scope.insert(0, entry);
        proof {
            assert(slot_scope@ == s0.insert(0, (ps@[i as int].name, i)));
            assert(ps@.take(i + 1).drop_last() =~= ps@.take(i as int));
            assert(ps@.take(i + 1).last() == ps@[i as int]);
            assert(slot_scope@ =~= param_slots(ps@.take(i + 1)));
        }
        let ghost c0 = check_scope@;
        check_scope.push(Local { name: ps[i].name.clone(), ty: ps[i].ty.clone(), mutable: false });
        proof {
            assert forall|j: int| 0 <= j < i + 1 implies #[trigger] crate::checker::scope_view(check_scope@)[j] == (ps@[j].name@, ps@[j].ty@, false) by {
                if j < i {
                    assert(check_scope@[j] == c0[j]);
                    assert(crate::checker::scope_view(c0)[j] == (ps@[j].name@, ps@[j].ty@, false));
                }
            }
        }
        let ghost p0 = params@;
        params.push(crate::mir::MirParam { name: ps[i].name.clone(), ty: ps[i].ty.clone() });
        proof {
            assert forall|j: int| 0 <= j < i + 1 implies (#[trigger] params@[j]).name@ == ps@[j].name@ && params@[j].ty@ == ps@[j].ty@ by {
                if j < i {
                    assert(params@[j] == p0[j]);
                    assert(Seq::new(p0.len(), |m: int| (p0[m].name@, p0[m].ty@))[j] == (ps@[j].name@, ps@[j].ty@));
                }
            }
            assert(Seq::new(params@.len(), |j: int| (params@[j].name@, params@[j].ty@)) =~= Seq::new(
                (i + 1) as nat,
                |j: int| (ps@[j].name@, ps@[j].ty@),
            ));
        }
        i += 1;
    }
    proof {
        assert(ps@.take(i as int) =~= ps@);
    }
    let mut slots: Vec<Vec<(String, usize)>> = Vec::new();
    slots.push(slot_scope);
    let mut scopes: Vec<Vec<Local>> = Vec::new();
    scopes.push(check_scope);
    let mut sink = Sink { strings: Vec::new(), errors: Vec::new() };
    std::mem::swap(&mut sink, k);
    let mut b = BodyLower { frame: Frame { slots, scopes }, locals, sink };
    proof {
        assert(b.frame@.slots =~= seq![param_slots(sig.params@)]);
        assert(b.frame@.scopes =~= seq![Seq::new(ps@.len(), |j: int| (ps@[j].name@, ps@[j].ty@, false))]);
        assert(body_v(b) =~= entry_body(*cx, sig.params@, old(k)@));
    }
    let mut out: Vec<MirStmt> = Vec::new();
    assert(stmts_v(out@) =~= Seq::<MirStmtV>::empty());
    lower_stmts(cx, &mut b, body, &mut out);
    let BodyLower { frame: _, locals: final_locals, sink: final_sink } = b;
    *k = final_sink;
    let r = crate::mir::MirFunction {
        name: String::from_str(name),
        user_name: String::from_str(user_name),
        exported,
        params,
        ret: sig.ret.clone(),
        locals: final_locals,
        body: out,
        extern_c: sig.extern_c,
    };
    proof {
        assert(function_v(r) =~= function_spec(*cx, name@, user_name@, exported, *sig, body@, old(k)@).0);
    }
    r
}

} // verus!
