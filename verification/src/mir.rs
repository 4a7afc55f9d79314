//! The intermediate representation that the semantic analysis produces for the code generator.

use vstd::prelude::*;

use crate::symbols::FunctionSig;
use crate::types::{Type, TypeV};
use crate::typing::{sig_view, SigV};

verus! {

/// The intermediate representation of one module.
#[derive(Debug)]
pub struct MirModule {
    pub module_id: u32,
    pub functions: Vec<MirFunction>,
    pub globals: Vec<MirGlobal>,
    /// The string literals of the module, each once.
    pub strings: Vec<String>,
}

/// A global variable.
#[derive(Debug)]
pub struct MirGlobal {
    pub name: String,
    pub ty: Type,
    pub mutable: bool,
    pub init: Option<MirExpr>,
}

/// A function.
#[derive(Debug)]
pub struct MirFunction {
    /// The symbol name that the code generator gives the function.
    pub name: String,
    /// The name of the function in the source (empty for generated functions).
    pub user_name: String,
    /// The function is a top-level `export`.
    pub exported: bool,
    pub params: Vec<MirParam>,
    pub ret: Type,
    pub locals: Vec<MirLocal>,
    pub body: Vec<MirStmt>,
    pub extern_c: bool,
}

/// A parameter of a function.
#[derive(Clone, Debug)]
pub struct MirParam {
    pub name: String,
    pub ty: Type,
}

/// A local variable of a function.
#[derive(Clone, Debug)]
pub struct MirLocal {
    pub name: String,
    pub ty: Type,
    pub mutable: bool,
}

/// A statement.
#[derive(Debug)]
pub struct MirStmt {
    pub kind: MirStmtKind,
}

impl MirStmt {
    /// A statement of the given kind.
    pub fn new(kind: MirStmtKind) -> (s: Self)
        ensures
            s.kind == kind,
    {
        MirStmt { kind }
    }
}

/// The kinds of statement.
#[derive(Debug)]
#[allow(inconsistent_fields)]
pub enum MirStmtKind {
    /// Declares a local; without `init` the code generator zeroes it.
    VarDecl { local: usize, init: Option<MirExpr> },
    Assign { target: MirTarget, value: MirExpr },
    If { cond: MirExpr, then: Vec<MirStmt>, else_: Vec<MirStmt> },
    While { cond: MirExpr, body: Vec<MirStmt> },
    Return(Option<MirExpr>),
    Expr(MirExpr),
    Break,
    Continue,
}

/// A place that can be assigned.
#[derive(Debug)]
#[allow(inconsistent_fields)]
pub enum MirTarget {
    Local(usize),
    Global(u32),
    Field {
        object: Box<MirExpr>,
        /// The field's position in the layout (base-class fields first for classes).
        index: usize,
    },
    Index {
        object: Box<MirExpr>,
        index: Box<MirExpr>,
        /// The element type (floating-point elements move as their bit patterns).
        elem: Box<Type>,
    },
}

/// An expression.
#[derive(Debug)]
#[allow(inconsistent_fields)]
pub enum MirExpr {
    Int(i64),
    UInt(u64),
    /// A floating-point constant, as the bits of its IEEE 754 double.
    Float(u64),
    Bool(bool),
    Char(char),
    /// A string of the module's pool, by index.
    Str(usize),
    Null,
    Local(usize),
    Global(u32),
    Unary { op: MirUnary, expr: Box<MirExpr> },
    Binary { op: MirBinary, left: Box<MirExpr>, right: Box<MirExpr> },
    Call { callee: MirCallee, args: Vec<MirExpr> },
    Field { object: Box<MirExpr>, index: usize },
    Index {
        object: Box<MirExpr>,
        index: Box<MirExpr>,
        /// The element type (floating-point elements move as their bit patterns).
        elem: Box<Type>,
    },
    /// An array literal, allocated and filled by the runtime.
    Array { elem: Box<Type>, items: Vec<MirExpr> },
    /// The packed variadic arguments: a type tag and a value each.
    VarArgs(Vec<(i64, MirExpr)>),
    /// The length of an array or (`string`) a string.
    Len { object: Box<MirExpr>, string: bool },
    /// A struct value.
    Struct { ty: Type, fields: Vec<(usize, MirExpr)> },
    /// An explicit conversion.
    Cast { expr: Box<MirExpr>, to: Type },
    /// A conditional: only the branch taken is evaluated.
    Select { cond: Box<MirExpr>, then: Box<MirExpr>, else_: Box<MirExpr> },
    /// An assignment used as a value: the value assigned.
    Assign { target: MirTarget, value: Box<MirExpr> },
    /// Postfix `++`/`--`: writes the new value, gives the old one.
    Postfix { target: MirTarget, op: MirUnary },
    /// A closure object: a function and its captured values.
    ClosureNew { name: String, captures: Vec<MirExpr>, sig: FunctionSig },
    /// Reads a captured value inside a closure's function.
    EnvGet { slot: usize },
    /// Creates an object of a class and runs its constructor.
    New { class: u32, args: Vec<MirExpr> },
    /// `...items` inside an array literal: the items of another array.
    ArraySpread(Box<MirExpr>),
}

/// What a call calls.
#[derive(Debug)]
#[allow(inconsistent_fields)]
pub enum MirCallee {
    Function { module: u32, name: String, sig: FunctionSig },
    Method { class: u32, name: String, sig: FunctionSig },
    /// An interface method, dispatched through the receiver's table (`args[0]`).
    InterfaceMethod { interface: u32, index: usize, sig: FunctionSig },
    /// A closure object (`args[0]`).
    Closure { sig: FunctionSig },
    Extern { name: String, sig: FunctionSig },
    Intrinsic { name: String },
}

/// Unary operators.
#[derive(Clone, Copy, Debug, PartialEq, Eq, Structural)]
pub enum MirUnary {
    Neg,
    Not,
    BitNot,
    Pos,
    Inc,
    Dec,
}

/// Binary operators.
#[derive(Clone, Copy, Debug, PartialEq, Eq, Structural)]
pub enum MirBinary {
    Add,
    Sub,
    Mul,
    Div,
    Rem,
    Pow,
    Eq,
    Ne,
    Lt,
    Le,
    Gt,
    Ge,
    And,
    Or,
    BitAnd,
    BitOr,
    BitXor,
    Shl,
    Shr,
    Coalesce,
}

// ---------------------------------------------------------------------------
// Views.
// ---------------------------------------------------------------------------

/// An expression as contracts read it: strings as characters, types as their views.
pub enum MirExprV {
    Int(i64),
    UInt(u64),
    Float(u64),
    Bool(bool),
    Char(char),
    Str(usize),
    Null,
    Local(usize),
    Global(u32),
    Unary { op: MirUnary, expr: Box<MirExprV> },
    Binary { op: MirBinary, left: Box<MirExprV>, right: Box<MirExprV> },
    Call { callee: MirCalleeV, args: Seq<MirExprV> },
    Field { object: Box<MirExprV>, index: usize },
    Index { object: Box<MirExprV>, index: Box<MirExprV>, elem: TypeV },
    Array { elem: TypeV, items: Seq<MirExprV> },
    VarArgs(Seq<(i64, MirExprV)>),
    Len { object: Box<MirExprV>, string: bool },
    Struct { ty: TypeV, fields: Seq<(usize, MirExprV)> },
    Cast { expr: Box<MirExprV>, to: TypeV },
    Select { cond: Box<MirExprV>, then: Box<MirExprV>, else_: Box<MirExprV> },
    Assign { target: MirTargetV, value: Box<MirExprV> },
    Postfix { target: MirTargetV, op: MirUnary },
    ClosureNew { name: Seq<char>, captures: Seq<MirExprV>, sig: SigV },
    EnvGet { slot: usize },
    New { class: u32, args: Seq<MirExprV> },
    ArraySpread(Box<MirExprV>),
}

/// A callee as contracts read it.
pub enum MirCalleeV {
    Function { module: u32, name: Seq<char>, sig: SigV },
    Method { class: u32, name: Seq<char>, sig: SigV },
    InterfaceMethod { interface: u32, index: usize, sig: SigV },
    Closure { sig: SigV },
    Extern { name: Seq<char>, sig: SigV },
    Intrinsic { name: Seq<char> },
}

/// An assignable place as contracts read it.
pub enum MirTargetV {
    Local(usize),
    Global(u32),
    Field { object: Box<MirExprV>, index: usize },
    Index { object: Box<MirExprV>, index: Box<MirExprV>, elem: TypeV },
}

/// A statement as contracts read it.
pub enum MirStmtV {
    VarDecl { local: usize, init: Option<MirExprV> },
    Assign { target: MirTargetV, value: MirExprV },
    If { cond: MirExprV, then: Seq<MirStmtV>, else_: Seq<MirStmtV> },
    While { cond: MirExprV, body: Seq<MirStmtV> },
    Return(Option<MirExprV>),
    Expr(MirExprV),
    Break,
    Continue,
}

/// The view of a callee.
pub open spec fn callee_v(c: MirCallee) -> MirCalleeV {
    match c {
        MirCallee::Function { module, name, sig } => MirCalleeV::Function { module, name: name@, sig: sig_view(sig) },
        MirCallee::Method { class, name, sig } => MirCalleeV::Method { class, name: name@, sig: sig_view(sig) },
        MirCallee::InterfaceMethod { interface, index, sig } => MirCalleeV::InterfaceMethod {
            interface,
            index,
            sig: sig_view(sig),
        },
        MirCallee::Closure { sig } => MirCalleeV::Closure { sig: sig_view(sig) },
        MirCallee::Extern { name, sig } => MirCalleeV::Extern { name: name@, sig: sig_view(sig) },
        MirCallee::Intrinsic { name } => MirCalleeV::Intrinsic { name: name@ },
    }
}

/// The view of an expression.
pub open spec fn expr_v(e: MirExpr) -> MirExprV
    decreases e, 0nat,
{
    match e {
        MirExpr::Int(v) => MirExprV::Int(v),
        MirExpr::UInt(v) => MirExprV::UInt(v),
        MirExpr::Float(v) => MirExprV::Float(v),
        MirExpr::Bool(v) => MirExprV::Bool(v),
        MirExpr::Char(v) => MirExprV::Char(v),
        MirExpr::Str(v) => MirExprV::Str(v),
        MirExpr::Null => MirExprV::Null,
        MirExpr::Local(v) => MirExprV::Local(v),
        MirExpr::Global(v) => MirExprV::Global(v),
        MirExpr::Unary { op, expr } => MirExprV::Unary { op, expr: Box::new(expr_v(*expr)) },
        MirExpr::Binary { op, left, right } => MirExprV::Binary {
            op,
            left: Box::new(expr_v(*left)),
            right: Box::new(expr_v(*right)),
        },
        MirExpr::Call { callee, args } => MirExprV::Call { callee: callee_v(callee), args: exprs_v(args@) },
        MirExpr::Field { object, index } => MirExprV::Field { object: Box::new(expr_v(*object)), index },
        MirExpr::Index { object, index, elem } => MirExprV::Index {
            object: Box::new(expr_v(*object)),
            index: Box::new(expr_v(*index)),
            elem: (*elem)@,
        },
        MirExpr::Array { elem, items } => MirExprV::Array { elem: (*elem)@, items: exprs_v(items@) },
        MirExpr::VarArgs(items) => MirExprV::VarArgs(tagged_v(items@)),
        MirExpr::Len { object, string } => MirExprV::Len { object: Box::new(expr_v(*object)), string },
        MirExpr::Struct { ty, fields } => MirExprV::Struct { ty: ty@, fields: indexed_v(fields@) },
        MirExpr::Cast { expr, to } => MirExprV::Cast { expr: Box::new(expr_v(*expr)), to: to@ },
        MirExpr::Select { cond, then, else_ } => MirExprV::Select {
            cond: Box::new(expr_v(*cond)),
            then: Box::new(expr_v(*then)),
            else_: Box::new(expr_v(*else_)),
        },
        MirExpr::Assign { target, value } => MirExprV::Assign { target: target_v(target), value: Box::new(expr_v(*value)) },
        MirExpr::Postfix { target, op } => MirExprV::Postfix { target: target_v(target), op },
        MirExpr::ClosureNew { name, captures, sig } => MirExprV::ClosureNew {
            name: name@,
            captures: exprs_v(captures@),
            sig: sig_view(sig),
        },
        MirExpr::EnvGet { slot } => MirExprV::EnvGet { slot },
        MirExpr::New { class, args } => MirExprV::New { class, args: exprs_v(args@) },
        MirExpr::ArraySpread(inner) => MirExprV::ArraySpread(Box::new(expr_v(*inner))),
    }
}

/// The views of a list of expressions.
pub open spec fn exprs_v(s: Seq<MirExpr>) -> Seq<MirExprV>
    decreases s, 1nat,
{
    if s.len() == 0 {
        Seq::empty()
    } else {
        exprs_v(s.drop_last()).push(expr_v(s.last()))
    }
}

/// The views of tagged expressions.
pub open spec fn tagged_v(s: Seq<(i64, MirExpr)>) -> Seq<(i64, MirExprV)>
    decreases s, 1nat,
{
    if s.len() == 0 {
        Seq::empty()
    } else {
        tagged_v(s.drop_last()).push((s.last().0, expr_v(s.last().1)))
    }
}

/// The views of indexed expressions.
pub open spec fn indexed_v(s: Seq<(usize, MirExpr)>) -> Seq<(usize, MirExprV)>
    decreases s, 1nat,
{
    if s.len() == 0 {
        Seq::empty()
    } else {
        indexed_v(s.drop_last()).push((s.last().0, expr_v(s.last().1)))
    }
}

/// The view of a place.
pub open spec fn target_v(t: MirTarget) -> MirTargetV
    decreases t, 1nat,
{
    match t {
        MirTarget::Local(i) => MirTargetV::Local(i),
        MirTarget::Global(g) => MirTargetV::Global(g),
        MirTarget::Field { object, index } => MirTargetV::Field { object: Box::new(expr_v(*object)), index },
        MirTarget::Index { object, index, elem } => MirTargetV::Index {
            object: Box::new(expr_v(*object)),
            index: Box::new(expr_v(*index)),
            elem: (*elem)@,
        },
    }
}

/// The view of a statement.
pub open spec fn stmt_v(s: MirStmt) -> MirStmtV
    decreases s, 0nat,
{
    match s.kind {
        MirStmtKind::VarDecl { local, init } => MirStmtV::VarDecl {
            local,
            init: match init {
                Some(e) => Some(expr_v(e)),
                None => None,
            },
        },
        MirStmtKind::Assign { target, value } => MirStmtV::Assign { target: target_v(target), value: expr_v(value) },
        MirStmtKind::If { cond, then, else_ } => MirStmtV::If {
            cond: expr_v(cond),
            then: stmts_v(then@),
            else_: stmts_v(else_@),
        },
        MirStmtKind::While { cond, body } => MirStmtV::While { cond: expr_v(cond), body: stmts_v(body@) },
        MirStmtKind::Return(v) => MirStmtV::Return(
            match v {
                Some(e) => Some(expr_v(e)),
                None => None,
            },
        ),
        MirStmtKind::Expr(e) => MirStmtV::Expr(expr_v(e)),
        MirStmtKind::Break => MirStmtV::Break,
        MirStmtKind::Continue => MirStmtV::Continue,
    }
}

/// The views of a list of statements.
pub open spec fn stmts_v(s: Seq<MirStmt>) -> Seq<MirStmtV>
    decreases s, 1nat,
{
    if s.len() == 0 {
        Seq::empty()
    } else {
        stmts_v(s.drop_last()).push(stmt_v(s.last()))
    }
}

impl View for MirExpr {
    type V = MirExprV;

    open spec fn view(&self) -> MirExprV {
        expr_v(*self)
    }
}

impl View for MirStmt {
    type V = MirStmtV;

    open spec fn view(&self) -> MirStmtV {
        stmt_v(*self)
    }
}

/// The view of a list of expressions, one more pushed.
pub proof fn lemma_exprs_v_push(s: Seq<MirExpr>, e: MirExpr)
    ensures
        exprs_v(s.push(e)) == exprs_v(s).push(expr_v(e)),
{
    assert(s.push(e).drop_last() =~= s);
}

/// The view of a list of statements, one more pushed.
pub proof fn lemma_stmts_v_push(s: Seq<MirStmt>, x: MirStmt)
    ensures
        stmts_v(s.push(x)) == stmts_v(s).push(stmt_v(x)),
{
    assert(s.push(x).drop_last() =~= s);
}

} // verus!
